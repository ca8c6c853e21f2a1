//! The tree-access facility: where a search gets its root and its walker.

use vstd::prelude::*;
use crate::element::UIElement;
use crate::errors::UIError;
use crate::tree::Tree;
use crate::walker::UITreeWalker;

verus! {

/// The mathematical model of the facility: its two answers.
pub struct Facility {
    /// What asking for the root of the tree gives.
    pub root: Result<UIElement, UIError>,
    /// What asking for a tree walker gives.
    pub tree: Result<Tree, UIError>,
}

impl Facility {
    /// The table of the walker, where there is one, is well formed.
    pub open spec fn wf(self) -> bool {
        self.tree matches Ok(tree) ==> tree.wf()
    }
}

/// The table of the walker that a request for one gave, or its failure.
pub open spec fn tree_view(answer: Result<UITreeWalker, UIError>) -> Result<Tree, UIError> {
    match answer {
        Ok(walker) => Ok(walker@),
        Err(error) => Err(error),
    }
}

/// The tree-access facility. It holds what the accessibility provider
/// answers when it is asked for the root element and for a tree walker.
pub struct UIAutomation {
    root: Result<UIElement, UIError>,
    walker: Result<UITreeWalker, UIError>,
}

impl View for UIAutomation {
    type V = Facility;

    closed spec fn view(&self) -> Facility {
        Facility { root: self.root, tree: tree_view(self.walker) }
    }
}

/// A copy of the answer to a request for an element.
fn clone_found(answer: &Result<UIElement, UIError>) -> (r: Result<UIElement, UIError>)
    ensures
        r == *answer,
{
    match answer {
        Ok(element) => Ok(element.clone()),
        Err(error) => Err(*error),
    }
}

impl UIAutomation {
    /// A facility that gives the two answers it is made of.
    pub fn from_answers(
        root: Result<UIElement, UIError>,
        walker: Result<UITreeWalker, UIError>,
    ) -> (r: UIAutomation)
        ensures
            r@ == (Facility { root, tree: tree_view(walker) }),
    {
        UIAutomation { root, walker }
    }

    /// The root of the tree.
    pub fn get_root_element(&self) -> (r: Result<UIElement, UIError>)
        ensures
            r == self@.root,
    {
        clone_found(&self.root)
    }

    /// A fresh walker over the tree.
    pub fn create_tree_walker(&self) -> (r: Result<UITreeWalker, UIError>)
        ensures
            tree_view(r) == self@.tree,
    {
        match &self.walker {
            Ok(walker) => Ok(walker.clone()),
            Err(error) => Err(*error),
        }
    }
}

impl Clone for UIAutomation {
    fn clone(&self) -> (r: Self)
        ensures
            r@ == self@,
    {
        UIAutomation { root: clone_found(&self.root), walker: self.create_tree_walker() }
    }
}

} // verus!
