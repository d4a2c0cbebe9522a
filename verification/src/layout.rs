use std::rc::Rc;
use vstd::prelude::*;

use crate::component::Component;

verus! {

/// How an element that holds absolutely placed children is itself placed.
#[derive(Copy, Clone, Debug, PartialEq, Eq, Structural)]
pub enum Relative {
    NotMoved,
}

/// What happens to content that does not fit.
#[derive(Copy, Clone, Debug, PartialEq, Eq, Structural)]
pub enum Overflow {
    Hidden,
}

/// A component placed over its column instead of below the previous child.
#[derive(Clone)]
pub struct Absolute<'a> {
    pub content: Rc<Component<'a>>,
}

impl<'a> Absolute<'a> {
    pub fn new(content: Component<'a>) -> (a: Absolute<'a>)
        ensures
            *a.content == content,
    {
        Absolute { content: Rc::new(content) }
    }
}

} // verus!
