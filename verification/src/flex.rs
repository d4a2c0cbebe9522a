use vstd::prelude::*;

use crate::component::Component;
use crate::cursor::Cursor;
use crate::error::Error;
use crate::layout::{Overflow, Relative};

verus! {

/// A column of components, laid out from the top.
///
/// `flex_grow` holds the IEEE-754 bits of the flex grow factor.
pub struct FlexColumn<'a> {
    pub children: Vec<Component<'a>>,
    pub flex_grow: Option<u64>,
    pub relative: Option<Relative>,
    pub cursor: Option<Cursor>,
    pub overflow_y: Option<Overflow>,
}

impl<'a> FlexColumn<'a> {
    /// The column's flex grow factor, as IEEE-754 bits.
    pub fn flex_grow(&self) -> (f: Option<u64>)
        ensures
            f == self.flex_grow,
    {
        self.flex_grow
    }
}

/// Builds a [`FlexColumn`].
pub struct FlexColumnBuilder<'a> {
    pub children: Vec<Component<'a>>,
    pub flex_grow: Option<u64>,
    pub relative: Option<Relative>,
    pub cursor: Option<Cursor>,
    pub overflow_y: Option<Overflow>,
    pub has_called_children: bool,
}

impl<'a> Default for FlexColumnBuilder<'a> {
    fn default() -> (b: FlexColumnBuilder<'a>)
        ensures
            b.children@.len() == 0,
            b.flex_grow.is_none(),
            b.relative.is_none(),
            b.cursor.is_none(),
            b.overflow_y.is_none(),
            !b.has_called_children,
    {
        FlexColumnBuilder {
            children: Vec::new(),
            flex_grow: None,
            relative: None,
            cursor: None,
            overflow_y: None,
            has_called_children: false,
        }
    }
}

impl<'a> FlexColumnBuilder<'a> {
    /// Appends a child; not allowed after [`Self::children`].
    pub fn child(self, child: Component<'a>) -> (b: FlexColumnBuilder<'a>)
        requires
            !self.has_called_children,
        ensures
            b.children@ == self.children@.push(child),
            b.flex_grow == self.flex_grow,
            b.relative == self.relative,
            b.cursor == self.cursor,
            b.overflow_y == self.overflow_y,
            b.has_called_children == self.has_called_children,
    {
        let mut b = self;
        b.children.push(child);
        b
    }

    /// Sets all children at once; not allowed after [`Self::child`].
    pub fn children(self, children: Vec<Component<'a>>) -> (b: FlexColumnBuilder<'a>)
        requires
            self.children@.len() == 0,
        ensures
            b.children == children,
            b.flex_grow == self.flex_grow,
            b.relative == self.relative,
            b.cursor == self.cursor,
            b.overflow_y == self.overflow_y,
            b.has_called_children,
    {
        let mut b = self;
        b.children = children;
        b.has_called_children = true;
        b
    }

    /// Sets the flex grow factor, given as IEEE-754 bits.
    pub fn flex_grow(self, flex_grow: u64) -> (b: FlexColumnBuilder<'a>)
        ensures
            b.children == self.children,
            b.flex_grow == Some(flex_grow),
            b.relative == self.relative,
            b.cursor == self.cursor,
            b.overflow_y == self.overflow_y,
            b.has_called_children == self.has_called_children,
    {
        let mut b = self;
        b.flex_grow = Some(flex_grow);
        b
    }

    pub fn relative(self, relative: Relative) -> (b: FlexColumnBuilder<'a>)
        ensures
            b.children == self.children,
            b.flex_grow == self.flex_grow,
            b.relative == Some(relative),
            b.cursor == self.cursor,
            b.overflow_y == self.overflow_y,
            b.has_called_children == self.has_called_children,
    {
        let mut b = self;
        b.relative = Some(relative);
        b
    }

    pub fn cursor(self, cursor: Cursor) -> (b: FlexColumnBuilder<'a>)
        ensures
            b.children == self.children,
            b.flex_grow == self.flex_grow,
            b.relative == self.relative,
            b.cursor == Some(cursor),
            b.overflow_y == self.overflow_y,
            b.has_called_children == self.has_called_children,
    {
        let mut b = self;
        b.cursor = Some(cursor);
        b
    }

    pub fn overflow_y(self, overflow_y: Overflow) -> (b: FlexColumnBuilder<'a>)
        ensures
            b.children == self.children,
            b.flex_grow == self.flex_grow,
            b.relative == self.relative,
            b.cursor == self.cursor,
            b.overflow_y == Some(overflow_y),
            b.has_called_children == self.has_called_children,
    {
        let mut b = self;
        b.overflow_y = Some(overflow_y);
        b
    }

    /// The column, or an error when it has no children.
    pub fn build(self) -> (r: Result<FlexColumn<'a>, Error>)
        ensures
            self.children@.len() == 0 <==> r is Err,
            r matches Err(e) ==> e matches Error::FlexColumnBuilder(m) && m@ == "empty children"@,
            r matches Ok(f) ==> f.children == self.children && f.flex_grow == self.flex_grow
                && f.relative == self.relative && f.cursor == self.cursor && f.overflow_y
                == self.overflow_y,
    {
        if self.children.len() == 0 {
            return Err(Error::FlexColumnBuilder("empty children".to_owned()));
        }
        Ok(FlexColumn {
            children: self.children,
            flex_grow: self.flex_grow,
            relative: self.relative,
            cursor: self.cursor,
            overflow_y: self.overflow_y,
        })
    }
}

} // verus!
