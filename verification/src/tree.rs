//! The tree as a table: for each element, what the provider answers when it
//! is asked for the element's parent, children and siblings; and the walks
//! through such a table.

use vstd::prelude::*;
use crate::element::UIElement;
use crate::errors::UIError;
use crate::sequences::{is_subsequence, lemma_subsequence_concat, lemma_subsequence_refl};

verus! {

/// A question that a walker answers about an element.
#[derive(Clone, Copy, Debug, PartialEq, Eq, Structural)]
pub enum Relation {
    Parent,
    FirstChild,
    LastChild,
    NextSibling,
    PreviousSibling,
}

/// The answer to one question: the place of the related element in the
/// walker's table, or why there is none.
pub type Link = Result<usize, UIError>;

/// One row of a walker's table: an element and the five answers about it.
pub struct Node {
    pub element: UIElement,
    pub parent: Link,
    pub first_child: Link,
    pub last_child: Link,
    pub next_sibling: Link,
    pub previous_sibling: Link,
}

impl Node {
    /// The answer that this row holds for a relation.
    pub open spec fn link(self, relation: Relation) -> Link {
        match relation {
            Relation::Parent => self.parent,
            Relation::FirstChild => self.first_child,
            Relation::LastChild => self.last_child,
            Relation::NextSibling => self.next_sibling,
            Relation::PreviousSibling => self.previous_sibling,
        }
    }

    /// This row with one answer replaced.
    pub open spec fn with_link(self, relation: Relation, link: Link) -> Node {
        match relation {
            Relation::Parent => Node { parent: link, ..self },
            Relation::FirstChild => Node { first_child: link, ..self },
            Relation::LastChild => Node { last_child: link, ..self },
            Relation::NextSibling => Node { next_sibling: link, ..self },
            Relation::PreviousSibling => Node { previous_sibling: link, ..self },
        }
    }

    /// The row of an element that has no relatives.
    pub open spec fn alone(element: UIElement) -> Node {
        Node {
            element,
            parent: Err(UIError::NoSuchElement),
            first_child: Err(UIError::NoSuchElement),
            last_child: Err(UIError::NoSuchElement),
            next_sibling: Err(UIError::NoSuchElement),
            previous_sibling: Err(UIError::NoSuchElement),
        }
    }
}

impl Clone for Node {
    fn clone(&self) -> (r: Self)
        ensures
            r == *self,
    {
        Node {
            element: self.element.clone(),
            parent: self.parent,
            first_child: self.first_child,
            last_child: self.last_child,
            next_sibling: self.next_sibling,
            previous_sibling: self.previous_sibling,
        }
    }
}

/// The elements that a walk reached, in the order in which it reached them,
/// and the failure that cut it short, if one did.
pub struct Walk {
    pub visited: Seq<UIElement>,
    pub failure: Option<UIError>,
}

impl Walk {
    /// The walk that reaches nothing.
    pub open spec fn empty() -> Walk {
        Walk { visited: Seq::empty(), failure: None }
    }

    /// The walk that reaches one element.
    pub open spec fn single(element: UIElement) -> Walk {
        Walk { visited: seq![element], failure: None }
    }

    /// The walk that fails before it reaches anything.
    pub open spec fn failed(error: UIError) -> Walk {
        Walk { visited: Seq::empty(), failure: Some(error) }
    }

    /// This walk, and after it `next`, unless this one was cut short.
    pub open spec fn followed_by(self, next: Walk) -> Walk {
        if self.failure is Some {
            self
        } else {
            Walk { visited: self.visited + next.visited, failure: next.failure }
        }
    }
}

/// The mathematical model of a walker: its table.
pub struct Tree {
    pub nodes: Seq<Node>,
}

impl Tree {
    /// Whether a relation leads away from the root: to a child or to a later
    /// sibling.
    pub open spec fn leads_on(relation: Relation) -> bool {
        relation is FirstChild || relation is NextSibling
    }

    /// Every row holds the element of its own place, every answer names a row
    /// of the table, and an answer that leads on names a later row. The last
    /// point is what makes every walk end.
    pub open spec fn wf(self) -> bool {
        &&& forall|i: int|
            0 <= i < self.nodes.len() ==> (#[trigger] self.nodes[i]).element.spec_index() == i
        &&& forall|i: int, relation: Relation|
            #![trigger self.nodes[i].link(relation)]
            0 <= i < self.nodes.len() ==> (self.nodes[i].link(relation) matches Ok(j) ==> {
                &&& j < self.nodes.len()
                &&& (Self::leads_on(relation) ==> i < j)
            })
    }

    /// The table with one answer replaced.
    pub open spec fn with_link(self, i: int, relation: Relation, link: Link) -> Tree {
        Tree { nodes: self.nodes.update(i, self.nodes[i].with_link(relation, link)) }
    }

    /// The table after `child` was added as the last child of `parent`. The
    /// child gets a row at the end. It becomes the next sibling of the
    /// parent's last child, or the first child where the table names no last
    /// child, and it becomes the last child.
    pub open spec fn with_child(self, parent: UIElement, child: UIElement) -> Tree {
        let p = parent.spec_index();
        let n = self.nodes.len() as usize;
        let last = self.nodes[p as int].last_child;
        let row = Node {
            parent: Ok(p),
            previous_sibling: if last is Ok { last } else { Err(UIError::NoSuchElement) },
            ..Node::alone(child)
        };
        let grown = Tree { nodes: self.nodes.push(row) };
        let joined = match last {
            Ok(l) => grown.with_link(l as int, Relation::NextSibling, Ok(n)),
            Err(_) => grown.with_link(p as int, Relation::FirstChild, Ok(n)),
        };
        joined.with_link(p as int, Relation::LastChild, Ok(n))
    }

    /// Whether an answer may stand in row `i` of a table of `len` rows.
    pub open spec fn fits(i: int, relation: Relation, link: Link, len: nat) -> bool {
        link matches Ok(j) ==> {
            &&& j < len
            &&& (Self::leads_on(relation) ==> i < j)
        }
    }

    /// Replacing an answer by one that fits keeps the table well formed.
    pub proof fn lemma_with_link_wf(self, i: int, relation: Relation, link: Link)
        requires
            self.wf(),
            0 <= i < self.nodes.len(),
            Self::fits(i, relation, link, self.nodes.len()),
        ensures
            self.with_link(i, relation, link).wf(),
            self.with_link(i, relation, link).nodes.len() == self.nodes.len(),
    {
        let after = self.with_link(i, relation, link);
        let len = self.nodes.len();
        assert forall|k: int, r: Relation| 0 <= k < len implies Self::fits(
            k,
            r,
            #[trigger] after.nodes[k].link(r),
            len,
        ) by {
            assert(Self::fits(k, r, self.nodes[k].link(r), len));
        }
        assert forall|k: int| 0 <= k < len implies (#[trigger] after.nodes[k]).element.spec_index()
            == k by {
            assert(self.nodes[k].element.spec_index() == k);
        }
    }

    /// Adding a row whose answers fit keeps the table well formed.
    pub proof fn lemma_push_wf(self, row: Node)
        requires
            self.wf(),
            row.element.spec_index() == self.nodes.len(),
            forall|r: Relation|
                Self::fits(self.nodes.len() as int, r, #[trigger] row.link(r), self.nodes.len() + 1),
        ensures
            (Tree { nodes: self.nodes.push(row) }).wf(),
    {
        let after = Tree { nodes: self.nodes.push(row) };
        let len = self.nodes.len();
        assert forall|k: int, r: Relation| 0 <= k <= len implies Self::fits(
            k,
            r,
            #[trigger] after.nodes[k].link(r),
            len + 1,
        ) by {
            if k < len {
                assert(Self::fits(k, r, self.nodes[k].link(r), len));
            } else {
                assert(after.nodes[k] == row);
            }
        }
        assert forall|k: int| 0 <= k <= len implies (#[trigger] after.nodes[k]).element.spec_index()
            == k by {
            if k < len {
                assert(self.nodes[k].element.spec_index() == k);
            }
        }
    }

    /// Whether the table has a row for the element.
    pub open spec fn knows(self, element: UIElement) -> bool {
        element.spec_index() < self.nodes.len()
    }

    /// What the walker answers when asked for a relative of an element. It
    /// finds the element by its place; of an element that it does not know
    /// it says that there is no such relative.
    pub open spec fn answer(self, element: UIElement, relation: Relation) -> Result<
        UIElement,
        UIError,
    > {
        if self.knows(element) {
            match self.nodes[element.spec_index() as int].link(relation) {
                Ok(j) => Ok(self.nodes[j as int].element),
                Err(error) => Err(error),
            }
        } else {
            Err(UIError::NoSuchElement)
        }
    }

    /// How many rows lie at or behind the element that an answer names, plus
    /// one; zero for an answer that names none.
    pub open spec fn rows_left(self, answer: Result<UIElement, UIError>) -> nat {
        match answer {
            Ok(element) => if self.knows(element) {
                (self.nodes.len() - element.spec_index() + 1) as nat
            } else {
                1
            },
            Err(_) => 0,
        }
    }

    /// The pre-order walk from an element that enters at most `below` levels
    /// under it: the element itself, then the walks of its children from the
    /// first to the last.
    pub open spec fn walk(self, element: UIElement, below: nat) -> Walk
        decreases below, 1nat, 0nat,
        when self.wf()
    {
        Walk::single(element).followed_by(self.walk_children(element, below))
    }

    /// The walks of the children of an element, one after the other, which
    /// enter at most `below` levels under the element: nothing where `below`
    /// is 0, and the children are not even asked for.
    pub open spec fn walk_children(self, element: UIElement, below: nat) -> Walk
        decreases below, 0nat, 0nat,
        when self.wf()
    {
        if below == 0 {
            Walk::empty()
        } else {
            self.walk_siblings(self.answer(element, Relation::FirstChild), (below - 1) as nat)
        }
    }

    /// The walks of an element and of the siblings after it, one after the
    /// other, where `answer` is what the walker said when asked for that
    /// element. The absence of an element ends the row of siblings; any other
    /// error cuts the walk short.
    pub open spec fn walk_siblings(self, answer: Result<UIElement, UIError>, below: nat) -> Walk
        decreases below, 2nat, self.rows_left(answer),
        when self.wf()
    {
        match answer {
            Ok(element) => self.walk(element, below).followed_by(
                self.walk_siblings(self.answer(element, Relation::NextSibling), below),
            ),
            Err(UIError::NoSuchElement) => Walk::empty(),
            Err(error) => Walk::failed(error),
        }
    }

    /// How many questions the walks of the children of an element put to
    /// the walker at most: none where the children are not asked for, else
    /// the one for the first child and those along the children.
    pub open spec fn questions_under(self, element: UIElement, below: nat) -> nat
        decreases below, 0nat, 0nat,
        when self.wf()
    {
        if below == 0 {
            0
        } else {
            1 + self.questions_along(self.answer(element, Relation::FirstChild), (below - 1) as nat)
        }
    }

    /// How many questions the walks of an element and of the siblings after
    /// it put to the walker at most: those under each of them, and one for
    /// the sibling after each.
    pub open spec fn questions_along(self, answer: Result<UIElement, UIError>, below: nat) -> nat
        decreases below, 2nat, self.rows_left(answer),
        when self.wf()
    {
        match answer {
            Ok(element) => self.questions_under(element, below) + 1 + self.questions_along(
                self.answer(element, Relation::NextSibling),
                below,
            ),
            Err(_) => 0,
        }
    }

    /// A walk that may go deeper and is not cut short reaches all that the
    /// shallower walk reaches, in the same order, and the shallower walk is
    /// not cut short either.
    pub proof fn lemma_walk_deeper(self, element: UIElement, below: nat, deeper: nat)
        requires
            self.wf(),
            below <= deeper,
            self.walk(element, deeper).failure is None,
        ensures
            self.walk(element, below).failure is None,
            is_subsequence(self.walk(element, below).visited, self.walk(element, deeper).visited),
        decreases deeper, 1nat, 0nat,
    {
        self.lemma_walk_children_deeper(element, below, deeper);
        lemma_subsequence_refl(seq![element]);
        lemma_subsequence_concat(
            seq![element],
            seq![element],
            self.walk_children(element, below).visited,
            self.walk_children(element, deeper).visited,
        );
    }

    /// The same of the walks of an element's children.
    pub proof fn lemma_walk_children_deeper(self, element: UIElement, below: nat, deeper: nat)
        requires
            self.wf(),
            below <= deeper,
            self.walk_children(element, deeper).failure is None,
        ensures
            self.walk_children(element, below).failure is None,
            is_subsequence(
                self.walk_children(element, below).visited,
                self.walk_children(element, deeper).visited,
            ),
        decreases deeper, 0nat, 0nat,
    {
        if below > 0 {
            self.lemma_walk_siblings_deeper(
                self.answer(element, Relation::FirstChild),
                (below - 1) as nat,
                (deeper - 1) as nat,
            );
        }
    }

    /// The same of the walks of an element and of the siblings after it.
    pub proof fn lemma_walk_siblings_deeper(
        self,
        answer: Result<UIElement, UIError>,
        below: nat,
        deeper: nat,
    )
        requires
            self.wf(),
            below <= deeper,
            self.walk_siblings(answer, deeper).failure is None,
        ensures
            self.walk_siblings(answer, below).failure is None,
            is_subsequence(
                self.walk_siblings(answer, below).visited,
                self.walk_siblings(answer, deeper).visited,
            ),
        decreases deeper, 2nat, self.rows_left(answer),
    {
        match answer {
            Ok(element) => {
                let next = self.answer(element, Relation::NextSibling);
                self.lemma_walk_deeper(element, below, deeper);
                self.lemma_walk_siblings_deeper(next, below, deeper);
                lemma_subsequence_concat(
                    self.walk(element, below).visited,
                    self.walk(element, deeper).visited,
                    self.walk_siblings(next, below).visited,
                    self.walk_siblings(next, deeper).visited,
                );
            },
            Err(_) => {},
        }
    }
}

} // verus!
