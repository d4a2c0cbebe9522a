use std::rc::Rc;
use vstd::prelude::*;

use anyhow::Error as AnyhowError;
use crate::flex::FlexColumn;
use crate::geometry::Grid;
use crate::layout::Absolute;
use crate::text::Text;

verus! {

/// A component that users write: it renders to other components.
///
/// `flex_grow` gives the IEEE-754 bits of the component's flex grow factor.
pub trait ComponentInterface<'a> {
    fn render(&self, grid: Grid) -> Result<Component<'a>, AnyhowError>;

    /// No flex grow factor, unless the component gives one.
    fn flex_grow(&self) -> (f: Option<u64>)
        default_ensures
            f is None,
    {
        None
    }

    /// No fixed height, unless the component gives one.
    fn height(&self) -> (h: Option<u16>)
        default_ensures
            h is None,
    {
        None
    }
}

/// A shared handle on a user component. Its contents stay hidden from proofs:
/// a component that holds its own trait object would make the component type
/// refer to itself through the trait.
#[verifier::external_body]
pub struct DynComponent<'a> {
    pub inner: Rc<dyn ComponentInterface<'a> + 'a>,
}

impl<'a> Clone for DynComponent<'a> {
    /// Another handle on the same component (`Rc::clone`).
    #[verifier::external_body]
    fn clone(&self) -> (d: DynComponent<'a>)
        ensures
            d == *self,
    {
        DynComponent { inner: Rc::clone(&self.inner) }
    }
}

impl<'a> DynComponent<'a> {
    /// Renders the component into `grid` (its own `render`); nothing is
    /// assumed of what it gives.
    #[verifier::external_body]
    pub fn render(&self, grid: Grid) -> Result<Component<'a>, AnyhowError> {
        self.inner.render(grid)
    }

    /// The component's flex grow factor, as IEEE-754 bits (its own `flex_grow`).
    #[verifier::external_body]
    pub fn flex_grow(&self) -> Option<u64> {
        self.inner.flex_grow()
    }

    /// The component's fixed height (its own `height`).
    #[verifier::external_body]
    pub fn height(&self) -> Option<u16> {
        self.inner.height()
    }
}

/// A user component, with the flex grow factor and height it reported when it
/// was wrapped.
#[derive(Clone)]
pub struct UserComponent<'a> {
    pub inner: DynComponent<'a>,
    pub flex_grow: Option<u64>,
    pub height: Option<u16>,
}

impl<'a> UserComponent<'a> {
    /// Wraps a user component, asking it once for its flex grow factor and
    /// its height.
    pub fn new(inner: DynComponent<'a>) -> (u: UserComponent<'a>)
        ensures
            u.inner == inner,
    {
        let flex_grow = inner.flex_grow();
        let height = inner.height();
        UserComponent { inner, flex_grow, height }
    }
}

/// Anything that can be rendered.
pub enum Component<'a> {
    Text(Text<'a>),
    FlexColumn(FlexColumn<'a>),
    Absolute(Absolute<'a>),
    Component(UserComponent<'a>),
}

/// The IEEE-754 bits of the flex grow factor `1.0`, the one factor that
/// layout accepts.
pub const FLEX_GROW_ONE: u64 = 0x3FF0_0000_0000_0000u64;

impl<'a> Component<'a> {
    /// The flex grow factor of a component that is not absolutely placed.
    pub open spec fn spec_flex_grow(self) -> Option<u64> {
        match self {
            Component::Text(_) => None,
            Component::FlexColumn(f) => f.flex_grow,
            Component::Absolute(_) => None,
            Component::Component(u) => u.flex_grow,
        }
    }

    /// The fixed height of a component that is not absolutely placed.
    pub open spec fn spec_height(self) -> Option<u16> {
        match self {
            Component::Text(_) => Some(1u16),
            Component::FlexColumn(_) => None,
            Component::Absolute(_) => None,
            Component::Component(u) => u.height,
        }
    }

    pub fn into_component(self) -> (u: UserComponent<'a>)
        requires
            self is Component,
        ensures
            self == Component::Component(u),
    {
        match self {
            Component::Component(component) => component,
            _ => vstd::pervasive::unreached(),
        }
    }

    pub fn as_component(&self) -> (u: &UserComponent<'a>)
        requires
            *self is Component,
        ensures
            *self == Component::Component(*u),
    {
        match self {
            Component::Component(component) => component,
            _ => vstd::pervasive::unreached(),
        }
    }

    pub fn as_absolute(&self) -> (a: &Absolute<'a>)
        requires
            *self is Absolute,
        ensures
            *self == Component::Absolute(*a),
    {
        match self {
            Component::Absolute(absolute) => absolute,
            _ => vstd::pervasive::unreached(),
        }
    }

    /// The flex grow factor (as IEEE-754 bits): none for text, the column's
    /// own for a column, the reported one for a user component.
    pub fn flex_grow(&self) -> (f: Option<u64>)
        requires
            !(*self is Absolute),
        ensures
            f == self.spec_flex_grow(),
    {
        match self {
            Component::Text(_) => None,
            Component::FlexColumn(flex_column) => flex_column.flex_grow(),
            Component::Absolute(_) => None,
            Component::Component(component) => component.flex_grow,
        }
    }

    /// The fixed height: one row for text, none for a column, the reported
    /// one for a user component.
    pub fn height(&self) -> (h: Option<u16>)
        requires
            !(*self is Absolute),
        ensures
            h == self.spec_height(),
    {
        match self {
            Component::Text(text) => text.height(),
            Component::FlexColumn(_) => None,
            Component::Absolute(_) => None,
            Component::Component(component) => component.height,
        }
    }
}

impl<'a> vstd::std_specs::convert::FromSpecImpl<Text<'a>> for Component<'a> {
    open spec fn obeys_from_spec() -> bool {
        true
    }

    open spec fn from_spec(v: Text<'a>) -> Component<'a> {
        Component::Text(v)
    }
}

impl<'a> From<Text<'a>> for Component<'a> {
    fn from(value: Text<'a>) -> (c: Component<'a>)
        ensures
            c == Component::Text(value),
    {
        Component::Text(value)
    }
}

impl<'a> vstd::std_specs::convert::FromSpecImpl<FlexColumn<'a>> for Component<'a> {
    open spec fn obeys_from_spec() -> bool {
        true
    }

    open spec fn from_spec(v: FlexColumn<'a>) -> Component<'a> {
        Component::FlexColumn(v)
    }
}

impl<'a> From<FlexColumn<'a>> for Component<'a> {
    fn from(value: FlexColumn<'a>) -> (c: Component<'a>)
        ensures
            c == Component::FlexColumn(value),
    {
        Component::FlexColumn(value)
    }
}

impl<'a> vstd::std_specs::convert::FromSpecImpl<Absolute<'a>> for Component<'a> {
    open spec fn obeys_from_spec() -> bool {
        true
    }

    open spec fn from_spec(v: Absolute<'a>) -> Component<'a> {
        Component::Absolute(v)
    }
}

impl<'a> From<Absolute<'a>> for Component<'a> {
    fn from(value: Absolute<'a>) -> (c: Component<'a>)
        ensures
            c == Component::Absolute(value),
    {
        Component::Absolute(value)
    }
}

} // verus!
