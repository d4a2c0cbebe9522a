use std::rc::Rc;
use vstd::prelude::*;

use crate::component::DynComponent;
use crate::cursor::Cursor;
use crate::error::Error;
use crate::style::{Color, Style};

verus! {

/// A line of text: pieces of text, nested texts and user components that
/// render to text, with an optional cursor and style.
#[derive(Clone)]
pub struct Text<'a> {
    pub children: TextChildren<'a>,
    pub cursor: Option<Cursor>,
    pub style: Option<Style>,
}

/// The children of a text, from the left.
pub type TextChildren<'a> = Vec<TextChild<'a>>;

/// One child of a text.
#[derive(Clone)]
pub enum TextChild<'a> {
    Nested(Rc<Text<'a>>),
    NestedComponent(DynComponent<'a>),
    Text(String),
}

impl<'a> Text<'a> {
    /// A text is always one row high.
    pub fn height(&self) -> (h: Option<u16>)
        ensures
            h == Some(1u16),
    {
        Some(1)
    }
}

impl<'a> vstd::std_specs::convert::FromSpecImpl<Text<'a>> for TextChild<'a> {
    open spec fn obeys_from_spec() -> bool {
        true
    }

    open spec fn from_spec(v: Text<'a>) -> TextChild<'a> {
        TextChild::Nested(Rc::new(v))
    }
}

impl<'a> From<Text<'a>> for TextChild<'a> {
    fn from(value: Text<'a>) -> (c: TextChild<'a>)
        ensures
            c == TextChild::Nested(Rc::new(value)),
    {
        TextChild::Nested(Rc::new(value))
    }
}

impl<'a> vstd::std_specs::convert::FromSpecImpl<String> for TextChild<'a> {
    open spec fn obeys_from_spec() -> bool {
        true
    }

    open spec fn from_spec(v: String) -> TextChild<'a> {
        TextChild::Text(v)
    }
}

impl<'a> From<String> for TextChild<'a> {
    fn from(value: String) -> (c: TextChild<'a>)
        ensures
            c == TextChild::Text(value),
    {
        TextChild::Text(value)
    }
}

/// Builds a [`Text`] child by child.
pub struct TextBuilder<'a> {
    pub children: TextChildren<'a>,
    pub cursor: Option<Cursor>,
    pub color: Option<Color>,
    pub background_color: Option<Color>,
}

impl<'a> Default for TextBuilder<'a> {
    fn default() -> (b: TextBuilder<'a>)
        ensures
            b.children@.len() == 0,
            b.cursor.is_none(),
            b.color.is_none(),
            b.background_color.is_none(),
    {
        TextBuilder { children: Vec::new(), cursor: None, color: None, background_color: None }
    }
}

impl<'a> TextBuilder<'a> {
    /// Appends a piece of text.
    pub fn text_child(self, child: String) -> (b: TextBuilder<'a>)
        ensures
            b.children@ == self.children@.push(TextChild::Text(child)),
            b.cursor == self.cursor,
            b.color == self.color,
            b.background_color == self.background_color,
    {
        let mut b = self;
        b.children.push(TextChild::Text(child));
        b
    }

    /// Sets the cursor.
    pub fn cursor(self, cursor: Cursor) -> (b: TextBuilder<'a>)
        ensures
            b.children == self.children,
            b.cursor == Some(cursor),
            b.color == self.color,
            b.background_color == self.background_color,
    {
        let mut b = self;
        b.cursor = Some(cursor);
        b
    }

    /// Appends a nested text.
    pub fn nested_child(self, child: Text<'a>) -> (b: TextBuilder<'a>)
        ensures
            b.children@ == self.children@.push(TextChild::Nested(Rc::new(child))),
            b.cursor == self.cursor,
            b.color == self.color,
            b.background_color == self.background_color,
    {
        let mut b = self;
        b.children.push(TextChild::from(child));
        b
    }

    /// Appends a user component, which has to render to a text.
    pub fn nested_component_child(self, child: DynComponent<'a>) -> (b: TextBuilder<'a>)
        ensures
            b.children@ == self.children@.push(TextChild::NestedComponent(child)),
            b.cursor == self.cursor,
            b.color == self.color,
            b.background_color == self.background_color,
    {
        let mut b = self;
        b.children.push(TextChild::NestedComponent(child));
        b
    }

    /// Sets the foreground color.
    pub fn color(self, color: Color) -> (b: TextBuilder<'a>)
        ensures
            b.children == self.children,
            b.cursor == self.cursor,
            b.color == Some(color),
            b.background_color == self.background_color,
    {
        let mut b = self;
        b.color = Some(color);
        b
    }

    /// Sets the background color.
    pub fn background_color(self, color: Color) -> (b: TextBuilder<'a>)
        ensures
            b.children == self.children,
            b.cursor == self.cursor,
            b.color == self.color,
            b.background_color == Some(color),
    {
        let mut b = self;
        b.background_color = Some(color);
        b
    }

    /// The text, or an error when no child was given.
    pub fn build(self) -> (r: Result<Text<'a>, Error>)
        ensures
            self.children@.len() == 0 <==> r is Err,
            r matches Err(e) ==> e matches Error::TextBuilder(m) && m@ == "empty children"@,
            r matches Ok(t) ==> t.children == self.children && t.cursor == self.cursor
                && t.style == Some(Style { color: self.color, background_color: self.background_color }),
    {
        if self.children.len() == 0 {
            return Err(Error::TextBuilder("empty children".to_owned()));
        }
        Ok(Text {
            children: self.children,
            cursor: self.cursor,
            style: Some(Style { color: self.color, background_color: self.background_color }),
        })
    }
}

} // verus!
