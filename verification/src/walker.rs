//! The tree walker: it hands out what its table records.

use vstd::prelude::*;
use crate::element::{text_view, UIElement};
use crate::errors::UIError;
use crate::tree::{Link, Node, Relation, Tree};

verus! {

/// A tree walker. It holds a table with a row for each element of the tree
/// and hands out the answers that the table records.
pub struct UITreeWalker {
    nodes: Vec<Node>,
}

impl View for UITreeWalker {
    type V = Tree;

    closed spec fn view(&self) -> Tree {
        Tree { nodes: self.nodes@ }
    }
}

impl UITreeWalker {
    /// The table is well formed, whatever was done to the walker.
    #[verifier::type_invariant]
    pub open spec fn well_formed(&self) -> bool {
        self@.wf()
    }

    /// A walker that knows no element.
    pub fn new() -> (r: UITreeWalker)
        ensures
            r@.nodes == Seq::<Node>::empty(),
    {
        UITreeWalker { nodes: Vec::new() }
    }

    /// The number of elements that the walker knows.
    pub fn len(&self) -> (r: usize)
        ensures
            r == self@.nodes.len(),
    {
        self.nodes.len()
    }

    /// Adds an element that has no relatives, such as the root of a tree, and
    /// hands out its handle. `name` is what reading its display name gives.
    pub fn add_root(&mut self, name: Result<String, UIError>) -> (r: UIElement)
        ensures
            r.spec_index() == old(self)@.nodes.len(),
            r.spec_name() == text_view(name),
            final(self)@.nodes == old(self)@.nodes.push(Node::alone(r)),
    {
        proof {
            use_type_invariant(&*self);
        }
        let element = UIElement::new(self.nodes.len(), name);
        let row = Node {
            element: element.clone(),
            parent: Err(UIError::NoSuchElement),
            first_child: Err(UIError::NoSuchElement),
            last_child: Err(UIError::NoSuchElement),
            next_sibling: Err(UIError::NoSuchElement),
            previous_sibling: Err(UIError::NoSuchElement),
        };
        let mut nodes = self.take_nodes();
        nodes.push(row);
        *self = UITreeWalker { nodes };
        element
    }

    /// Adds an element as the last child of `parent` and hands out its
    /// handle. `name` is what reading its display name gives. Of a parent
    /// that the walker does not know it says so and changes nothing.
    pub fn add_child(&mut self, parent: &UIElement, name: Result<String, UIError>) -> (r: Result<
        UIElement,
        UIError,
    >)
        ensures
            match r {
                Ok(child) => {
                    &&& old(self)@.knows(*parent)
                    &&& child.spec_index() == old(self)@.nodes.len()
                    &&& child.spec_name() == text_view(name)
                    &&& final(self)@ == old(self)@.with_child(*parent, child)
                },
                Err(error) => {
                    &&& error == UIError::NoSuchElement
                    &&& !old(self)@.knows(*parent)
                    &&& final(self)@ == old(self)@
                },
            },
    {
        proof {
            use_type_invariant(&*self);
        }
        let n = self.nodes.len();
        let p = parent.index();
        if p >= n {
            return Err(UIError::NoSuchElement);
        }
        let last = self.nodes[p].last_child;
        let child = UIElement::new(n, name);
        let ghost before = self@;
        assert(last == before.nodes[p as int].link(Relation::LastChild));
        let row = Node {
            element: child.clone(),
            parent: Ok(p),
            first_child: Err(UIError::NoSuchElement),
            last_child: Err(UIError::NoSuchElement),
            next_sibling: Err(UIError::NoSuchElement),
            previous_sibling: match last {
                Ok(l) => Ok(l),
                Err(_) => Err(UIError::NoSuchElement),
            },
        };
        let mut nodes = self.take_nodes();
        nodes.push(row);
        let ghost grown = Tree { nodes: nodes@ };
        proof {
            before.lemma_push_wf(row);
        }
        match last {
            Ok(l) => {
                let joined = Self::replaced(&nodes[l], Relation::NextSibling, Ok(n));
                nodes.set(l, joined);
                proof {
                    grown.lemma_with_link_wf(l as int, Relation::NextSibling, Ok(n));
                }
            },
            Err(_) => {
                let joined = Self::replaced(&nodes[p], Relation::FirstChild, Ok(n));
                nodes.set(p, joined);
                proof {
                    grown.lemma_with_link_wf(p as int, Relation::FirstChild, Ok(n));
                }
            },
        }
        let ghost joined = Tree { nodes: nodes@ };
        let closed = Self::replaced(&nodes[p], Relation::LastChild, Ok(n));
        nodes.set(p, closed);
        proof {
            joined.lemma_with_link_wf(p as int, Relation::LastChild, Ok(n));
        }
        *self = UITreeWalker { nodes };
        Ok(child)
    }

    /// Records that the provider fails, or finds nothing, when it is asked
    /// for a relative of an element: from now on the walker answers `error`
    /// to that question. Says whether the walker knows the element; where it
    /// does not, nothing changes.
    pub fn fail(&mut self, element: &UIElement, relation: Relation, error: UIError) -> (known: bool)
        ensures
            known == old(self)@.knows(*element),
            known ==> final(self)@ == old(self)@.with_link(
                element.spec_index() as int,
                relation,
                Err(error),
            ),
            !known ==> final(self)@ == old(self)@,
    {
        proof {
            use_type_invariant(&*self);
        }
        let i = element.index();
        if i >= self.nodes.len() {
            return false;
        }
        let ghost before = self@;
        let mut nodes = self.take_nodes();
        let row = Self::replaced(&nodes[i], relation, Err(error));
        nodes.set(i, row);
        proof {
            before.lemma_with_link_wf(i as int, relation, Err(error));
        }
        *self = UITreeWalker { nodes };
        true
    }

    /// A copy of a row with one answer replaced.
    fn replaced(row: &Node, relation: Relation, link: Link) -> (r: Node)
        ensures
            r == row.with_link(relation, link),
    {
        let copy = row.clone();
        match relation {
            Relation::Parent => Node { parent: link, ..copy },
            Relation::FirstChild => Node { first_child: link, ..copy },
            Relation::LastChild => Node { last_child: link, ..copy },
            Relation::NextSibling => Node { next_sibling: link, ..copy },
            Relation::PreviousSibling => Node { previous_sibling: link, ..copy },
        }
    }

    /// Looks up the answer to one question about an element.
    fn ask(&self, element: &UIElement, relation: Relation) -> (r: Result<UIElement, UIError>)
        ensures
            r == self@.answer(*element, relation),
    {
        proof {
            use_type_invariant(self);
        }
        let i = element.index();
        if i >= self.nodes.len() {
            return Err(UIError::NoSuchElement);
        }
        let row = &self.nodes[i];
        let link = match relation {
            Relation::Parent => row.parent,
            Relation::FirstChild => row.first_child,
            Relation::LastChild => row.last_child,
            Relation::NextSibling => row.next_sibling,
            Relation::PreviousSibling => row.previous_sibling,
        };
        match link {
            Ok(j) => Ok(self.nodes[j].element.clone()),
            Err(error) => Err(error),
        }
    }

    /// The parent of an element.
    pub fn get_parent(&self, element: &UIElement) -> (r: Result<UIElement, UIError>)
        ensures
            r == self@.answer(*element, Relation::Parent),
    {
        self.ask(element, Relation::Parent)
    }

    /// The first child of an element.
    pub fn get_first_child(&self, element: &UIElement) -> (r: Result<UIElement, UIError>)
        ensures
            r == self@.answer(*element, Relation::FirstChild),
    {
        self.ask(element, Relation::FirstChild)
    }

    /// The last child of an element.
    pub fn get_last_child(&self, element: &UIElement) -> (r: Result<UIElement, UIError>)
        ensures
            r == self@.answer(*element, Relation::LastChild),
    {
        self.ask(element, Relation::LastChild)
    }

    /// The sibling that follows an element.
    pub fn get_next_sibling(&self, element: &UIElement) -> (r: Result<UIElement, UIError>)
        ensures
            r == self@.answer(*element, Relation::NextSibling),
    {
        self.ask(element, Relation::NextSibling)
    }

    /// The sibling that precedes an element.
    pub fn get_previous_sibling(&self, element: &UIElement) -> (r: Result<UIElement, UIError>)
        ensures
            r == self@.answer(*element, Relation::PreviousSibling),
    {
        self.ask(element, Relation::PreviousSibling)
    }

    /// Moves the table out and leaves an empty one behind.
    fn take_nodes(&mut self) -> (nodes: Vec<Node>)
        ensures
            nodes@ == old(self)@.nodes,
            final(self)@.nodes == Seq::<Node>::empty(),
    {
        let mut taken = UITreeWalker { nodes: Vec::new() };
        core::mem::swap(self, &mut taken);
        taken.nodes
    }
}

impl Clone for UITreeWalker {
    fn clone(&self) -> (r: Self)
        ensures
            r@ == self@,
    {
        proof {
            use_type_invariant(self);
        }
        let mut nodes: Vec<Node> = Vec::new();
        let mut i: usize = 0;
        while i < self.nodes.len()
            invariant
                i <= self.nodes.len(),
                nodes@ == self.nodes@.subrange(0, i as int),
            decreases self.nodes.len() - i,
        {
            nodes.push(self.nodes[i].clone());
            i += 1;
        }
        assert(nodes@ =~= self.nodes@);
        UITreeWalker { nodes }
    }
}

} // verus!
