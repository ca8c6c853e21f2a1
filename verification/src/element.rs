//! One element of the accessibility tree, as the provider described it.

use vstd::prelude::*;
use crate::errors::UIError;

verus! {

/// What reading a text property gave: the text, or the failure.
pub open spec fn text_view(answer: Result<String, UIError>) -> Result<Seq<char>, UIError> {
    match answer {
        Ok(text) => Ok(text@),
        Err(error) => Err(error),
    }
}

/// A copy of the answer to a property read.
fn clone_text(answer: &Result<String, UIError>) -> (r: Result<String, UIError>)
    ensures
        r == *answer,
{
    match answer {
        Ok(text) => Ok(text.clone()),
        Err(error) => Err(*error),
    }
}

/// A handle to one element. It records the place that the element has in the
/// table of the walker that made it, and what the provider answered when the
/// element's display name was read.
#[derive(Debug)]
pub struct UIElement {
    index: usize,
    name: Result<String, UIError>,
}

impl UIElement {
    /// The element's place in its walker's table.
    pub closed spec fn spec_index(&self) -> usize {
        self.index
    }

    /// The display name, or the failure that reading it meets.
    pub closed spec fn spec_name(&self) -> Result<Seq<char>, UIError> {
        text_view(self.name)
    }

    /// The handle of the element at place `index`, where reading the
    /// display name gave `name`.
    pub fn new(index: usize, name: Result<String, UIError>) -> (r: UIElement)
        ensures
            r.spec_index() == index,
            r.spec_name() == text_view(name),
    {
        UIElement { index, name }
    }

    /// The element's place in its walker's table.
    pub fn index(&self) -> (r: usize)
        ensures
            r == self.spec_index(),
    {
        self.index
    }

    /// Reads the display name. The failure of a read is kept and handed out
    /// again on every read.
    pub fn get_name(&self) -> (r: Result<String, UIError>)
        ensures
            text_view(r) == self.spec_name(),
    {
        clone_text(&self.name)
    }
}

impl Clone for UIElement {
    fn clone(&self) -> (r: Self)
        ensures
            r == *self,
    {
        UIElement { index: self.index, name: clone_text(&self.name) }
    }
}

} // verus!
