//! A search that is taken one question at a time, for a tree that has to be
//! asked: the search says which answer it needs next, is handed the answer,
//! and goes on.

use vstd::prelude::*;
use crate::element::UIElement;
use crate::errors::UIError;
use crate::matcher::{concluded, found_view, joined, lemma_joined_assoc, Found, UIMatcher};
use crate::tree::{Relation, Tree, Walk};

verus! {

/// The mathematical model of a search in progress.
pub struct SearchView {
    /// The elements from the starting element down to the one that the
    /// question is about, each a child of the one before it.
    pub path: Seq<UIElement>,
    /// What is asked of the last element of the path.
    pub relation: Relation,
    /// What was found so far.
    pub found: Seq<UIElement>,
    /// Whether the first match ends the search.
    pub first_only: bool,
    /// What the search returns, once it has ended.
    pub result: Option<Found>,
}

impl SearchView {
    /// A search that has ended.
    pub open spec fn done(result: Found, first_only: bool) -> SearchView {
        SearchView {
            path: Seq::empty(),
            relation: Relation::FirstChild,
            found: Seq::empty(),
            first_only,
            result: Some(result),
        }
    }

    /// The question that the search waits to have answered: none once it has
    /// ended.
    pub open spec fn question(self) -> Option<(UIElement, Relation)> {
        if self.result is Some {
            None
        } else {
            Some((self.path.last(), self.relation))
        }
    }

    /// What holds of a search in progress under a depth limit: it asks for a
    /// first child only of an element above the limit, and for a next sibling
    /// only of an element other than the starting one; and where the first
    /// match ends the search, nothing was found yet.
    pub open spec fn wf(self, limit: u32) -> bool {
        self.result is None ==> {
            &&& 1 <= self.path.len() <= u32::MAX
            &&& self.relation is FirstChild || self.relation is NextSibling
            &&& self.relation is FirstChild ==> self.path.len() < limit
            &&& self.relation is NextSibling ==> self.path.len() >= 2
            &&& self.first_only ==> self.found.len() == 0
        }
    }

    /// The search when the subtree of the last element of `path` is done:
    /// it has ended where that is the starting element, and asks for the
    /// next sibling elsewhere.
    pub open spec fn left(
        path: Seq<UIElement>,
        found: Seq<UIElement>,
        first_only: bool,
    ) -> SearchView {
        if path.len() <= 1 {
            Self::done(concluded(Ok(found)), first_only)
        } else {
            SearchView { path, relation: Relation::NextSibling, found, first_only, result: None }
        }
    }

    /// The search when it reaches `element`, a child of the last element of
    /// `above`. The element is judged. A failure ends the search, and so does
    /// a match where the first match is all that is looked for. Else the
    /// search asks for the element's first child where the limit allows it.
    pub open spec fn arrived(
        matcher: &UIMatcher,
        above: Seq<UIElement>,
        element: UIElement,
        found: Seq<UIElement>,
        first_only: bool,
    ) -> SearchView {
        let path = above.push(element);
        match matcher.matched(&element) {
            Err(error) => Self::done(Err(error), first_only),
            Ok(true) => if first_only {
                Self::done(Ok(found.push(element)), first_only)
            } else if path.len() < matcher.depth_limit() {
                SearchView {
                    path,
                    relation: Relation::FirstChild,
                    found: found.push(element),
                    first_only,
                    result: None,
                }
            } else {
                Self::left(path, found.push(element), first_only)
            },
            Ok(false) => if path.len() < matcher.depth_limit() {
                SearchView { path, relation: Relation::FirstChild, found, first_only, result: None }
            } else {
                Self::left(path, found, first_only)
            },
        }
    }

    /// The search at its start: it has ended where the starting element or
    /// the walker cannot be had, and has reached the starting element
    /// elsewhere.
    pub open spec fn begun(matcher: &UIMatcher, first_only: bool) -> SearchView {
        match matcher.resolved() {
            Err(error) => Self::done(Err(error), first_only),
            Ok((start, _)) => Self::arrived(matcher, Seq::empty(), start, Seq::empty(), first_only),
        }
    }

    /// The search after its question was answered by `reply`. A failure ends
    /// it. An element is reached. The absence of a first child, or of a next
    /// sibling, means that a subtree is done: that of the element asked
    /// about, or that of its parent.
    pub open spec fn resumed(
        self,
        matcher: &UIMatcher,
        reply: Result<UIElement, UIError>,
    ) -> SearchView {
        if self.result is Some {
            self
        } else {
            let above = if self.relation is FirstChild {
                self.path
            } else {
                self.path.drop_last()
            };
            match reply {
                Ok(element) => Self::arrived(matcher, above, element, self.found, self.first_only),
                Err(UIError::NoSuchElement) => Self::left(above, self.found, self.first_only),
                Err(error) => Self::done(Err(error), self.first_only),
            }
        }
    }

    /// What is still to be found in `tree` once the subtree of the last
    /// element of `path` is done: what the walks of its later siblings
    /// find, then the same one level up.
    pub open spec fn after(
        matcher: &UIMatcher,
        tree: Tree,
        path: Seq<UIElement>,
        first_only: bool,
    ) -> Found
        decreases path.len(),
    {
        if path.len() <= 1 {
            Ok(Seq::empty())
        } else {
            joined(
                matcher.outcome(
                    tree.walk_siblings(
                        tree.answer(path.last(), Relation::NextSibling),
                        matcher.levels_under(path.len() as u32),
                    ),
                    first_only,
                ),
                Self::after(matcher, tree, path.drop_last(), first_only),
                first_only,
            )
        }
    }

    /// What a search in progress is still to find in `tree`.
    pub open spec fn ahead(self, matcher: &UIMatcher, tree: Tree) -> Found {
        if self.relation is FirstChild {
            joined(
                matcher.outcome(
                    tree.walk_children(self.path.last(), matcher.levels_under(self.path.len() as u32)),
                    self.first_only,
                ),
                Self::after(matcher, tree, self.path, self.first_only),
                self.first_only,
            )
        } else {
            Self::after(matcher, tree, self.path, self.first_only)
        }
    }

    /// What the search returns in the end where every answer that it is
    /// still to get is the answer of `tree`.
    pub open spec fn expected(self, matcher: &UIMatcher, tree: Tree) -> Found {
        match self.result {
            Some(result) => result,
            None => concluded(joined(Ok(self.found), self.ahead(matcher, tree), self.first_only)),
        }
    }

    /// The search after its question was answered from `tree`.
    pub open spec fn answered(self, matcher: &UIMatcher, tree: Tree) -> SearchView {
        match self.question() {
            Some((element, relation)) => self.resumed(matcher, tree.answer(element, relation)),
            None => self,
        }
    }

    /// The search after `steps` of its questions were answered from `tree`.
    pub open spec fn told(self, matcher: &UIMatcher, tree: Tree, steps: nat) -> SearchView
        decreases steps,
    {
        if steps == 0 {
            self
        } else {
            self.answered(matcher, tree).told(matcher, tree, (steps - 1) as nat)
        }
    }

    /// How many questions are left at most once the subtree of the last
    /// element of `path` is done.
    pub open spec fn questions_after(matcher: &UIMatcher, tree: Tree, path: Seq<UIElement>) -> nat
        decreases path.len(),
    {
        if path.len() <= 1 {
            0
        } else {
            1 + tree.questions_along(
                tree.answer(path.last(), Relation::NextSibling),
                matcher.levels_under(path.len() as u32),
            ) + Self::questions_after(matcher, tree, path.drop_last())
        }
    }

    /// How many questions a search in progress has left at most, the one
    /// that it waits to have answered among them.
    pub open spec fn questions_left(self, matcher: &UIMatcher, tree: Tree) -> nat {
        if self.result is Some {
            0
        } else if self.relation is FirstChild {
            tree.questions_under(self.path.last(), matcher.levels_under(self.path.len() as u32))
                + Self::questions_after(matcher, tree, self.path)
        } else {
            Self::questions_after(matcher, tree, self.path)
        }
    }

    /// A search that reaches an element is to return what it has found,
    /// then what the walk from that element finds, then what lies after
    /// the element's subtree.
    pub proof fn lemma_arrived(
        matcher: &UIMatcher,
        tree: Tree,
        above: Seq<UIElement>,
        element: UIElement,
        found: Seq<UIElement>,
        first_only: bool,
    )
        requires
            tree.wf(),
            above.len() < u32::MAX,
            first_only ==> found.len() == 0,
        ensures
            Self::arrived(matcher, above, element, found, first_only).wf(matcher.depth_limit()),
            Self::arrived(matcher, above, element, found, first_only).expected(matcher, tree)
                == concluded(
                joined(
                    Ok(found),
                    joined(
                        matcher.outcome(
                            tree.walk(element, matcher.levels_under((above.len() + 1) as u32)),
                            first_only,
                        ),
                        Self::after(matcher, tree, above.push(element), first_only),
                        first_only,
                    ),
                    first_only,
                ),
            ),
    {
        let path = above.push(element);
        let below = matcher.levels_under(path.len() as u32);
        let children = matcher.outcome(tree.walk_children(element, below), first_only);
        let later = Self::after(matcher, tree, path, first_only);
        let here = matcher.outcome(Walk::single(element), first_only);
        matcher.lemma_outcome_single(element, first_only);
        matcher.lemma_outcome_followed_by(
            Walk::single(element),
            tree.walk_children(element, below),
            first_only,
        );
        lemma_joined_assoc(here, children, later, first_only);
        lemma_joined_assoc(Ok(found), here, joined(children, later, first_only), first_only);
        assert(found + Seq::<UIElement>::empty() =~= found);
    }

    /// At its start a search is well formed, and it is to return what the
    /// matcher finds in the tree.
    pub proof fn theorem_begun(matcher: &UIMatcher, tree: Tree, first_only: bool)
        requires
            tree.wf(),
        ensures
            Self::begun(matcher, first_only).wf(matcher.depth_limit()),
            Self::begun(matcher, first_only).expected(matcher, tree) == match matcher.resolved() {
                Err(error) => Err::<Seq<UIElement>, UIError>(error),
                Ok((start, _)) => matcher.sought(start, tree, first_only),
            },
    {
        if let Ok((start, _)) = matcher.resolved() {
            let empty = Seq::<UIElement>::empty();
            Self::lemma_arrived(matcher, tree, empty, start, empty, first_only);
        }
    }

    /// An answer that is the answer of `tree` changes nothing in what the
    /// search is to return, and leaves the search well formed.
    pub proof fn theorem_resumed(
        self,
        matcher: &UIMatcher,
        tree: Tree,
        reply: Result<UIElement, UIError>,
    )
        requires
            tree.wf(),
            self.wf(matcher.depth_limit()),
            self.question() matches Some((element, relation)) && reply == tree.answer(
                element,
                relation,
            ),
        ensures
            self.resumed(matcher, reply).wf(matcher.depth_limit()),
            self.resumed(matcher, reply).expected(matcher, tree) == self.expected(matcher, tree),
    {
        let first_only = self.first_only;
        let above = if self.relation is FirstChild {
            self.path
        } else {
            self.path.drop_last()
        };
        let below = matcher.levels_under((above.len() + 1) as u32);
        let rest = Self::after(matcher, tree, above, first_only);
        assert(self.ahead(matcher, tree) == joined(
            matcher.outcome(tree.walk_siblings(reply, below), first_only),
            rest,
            first_only,
        ));
        if let Ok(element) = reply {
            let next = tree.walk_siblings(tree.answer(element, Relation::NextSibling), below);
            Self::lemma_arrived(matcher, tree, above, element, self.found, first_only);
            matcher.lemma_outcome_followed_by(tree.walk(element, below), next, first_only);
            lemma_joined_assoc(
                matcher.outcome(tree.walk(element, below), first_only),
                matcher.outcome(next, first_only),
                rest,
                first_only,
            );
            assert(above.push(element).drop_last() =~= above);
        }
    }

    /// Each answer from a tree leaves a search with fewer questions.
    pub proof fn lemma_fewer_questions(self, matcher: &UIMatcher, tree: Tree)
        requires
            tree.wf(),
            self.wf(matcher.depth_limit()),
            self.result is None,
        ensures
            self.answered(matcher, tree).questions_left(matcher, tree) < self.questions_left(
                matcher,
                tree,
            ),
    {
        let above = if self.relation is FirstChild {
            self.path
        } else {
            self.path.drop_last()
        };
        if let Ok(element) = tree.answer(self.path.last(), self.relation) {
            assert(above.push(element).drop_last() =~= above);
        }
    }

    /// Answers from a tree change nothing in what a search is to return.
    pub proof fn lemma_told(self, matcher: &UIMatcher, tree: Tree, steps: nat)
        requires
            tree.wf(),
            self.wf(matcher.depth_limit()),
        ensures
            self.told(matcher, tree, steps).wf(matcher.depth_limit()),
            self.told(matcher, tree, steps).expected(matcher, tree) == self.expected(matcher, tree),
            steps >= self.questions_left(matcher, tree) ==> self.told(
                matcher,
                tree,
                steps,
            ).result is Some,
        decreases steps,
    {
        if steps > 0 {
            let next = self.answered(matcher, tree);
            if self.result is None {
                self.theorem_resumed(matcher, tree, tree.answer(self.path.last(), self.relation));
                self.lemma_fewer_questions(matcher, tree);
            }
            next.lemma_told(matcher, tree, (steps - 1) as nat);
        }
    }

    /// Answered from a tree, a stepwise search ends, and it returns what the
    /// matcher finds in that tree.
    pub proof fn theorem_stepwise_search_ends(matcher: &UIMatcher, tree: Tree, first_only: bool)
        requires
            tree.wf(),
        ensures
            Self::begun(matcher, first_only).told(
                matcher,
                tree,
                Self::begun(matcher, first_only).questions_left(matcher, tree),
            ).result == Some(
                match matcher.resolved() {
                    Err(error) => Err::<Seq<UIElement>, UIError>(error),
                    Ok((start, _)) => matcher.sought(start, tree, first_only),
                },
            ),
    {
        let start = Self::begun(matcher, first_only);
        Self::theorem_begun(matcher, tree, first_only);
        start.lemma_told(matcher, tree, start.questions_left(matcher, tree));
    }
}

/// A search in progress. It holds the question that it needs answered, and
/// is resumed with the answer until it has none left.
pub struct Search<'a> {
    matcher: &'a UIMatcher,
    path: Vec<UIElement>,
    relation: Relation,
    found: Vec<UIElement>,
    first_only: bool,
    result: Option<Result<Vec<UIElement>, UIError>>,
}

impl<'a> View for Search<'a> {
    type V = SearchView;

    closed spec fn view(&self) -> SearchView {
        SearchView {
            path: self.path@,
            relation: self.relation,
            found: self.found@,
            first_only: self.first_only,
            result: match self.result {
                Some(result) => Some(found_view(result)),
                None => None,
            },
        }
    }
}

impl<'a> Search<'a> {
    /// The matcher whose search this is.
    pub closed spec fn matcher(&self) -> &UIMatcher {
        self.matcher
    }

    /// The search is well formed under the depth limit of its matcher.
    #[verifier::type_invariant]
    pub open spec fn well_formed(&self) -> bool {
        self@.wf(self.matcher().depth_limit())
    }

    /// The question that the search needs answered: an element, and which
    /// of its relatives to ask the walker for. None once the search has
    /// ended.
    pub fn question(&self) -> (r: Option<(UIElement, Relation)>)
        ensures
            r == self@.question(),
    {
        proof {
            use_type_invariant(self);
        }
        match &self.result {
            Some(_) => None,
            None => Some((self.path[self.path.len() - 1].clone(), self.relation)),
        }
    }

    /// Takes the answer to the question and goes on: to the next question,
    /// or to the end. A search that has ended stays as it is.
    pub fn resume(self, reply: Result<UIElement, UIError>) -> (r: Search<'a>)
        ensures
            r.matcher() == self.matcher(),
            r@ == self@.resumed(self.matcher(), reply),
    {
        proof {
            use_type_invariant(&self);
        }
        if self.result.is_some() {
            return self;
        }
        let Search { matcher, path, relation, found, first_only, result: _ } = self;
        let mut above = path;
        match relation {
            Relation::FirstChild => {},
            _ => {
                above.pop();
            },
        }
        match reply {
            Ok(element) => Self::arrive(matcher, above, element, found, first_only),
            Err(error) => {
                if error.is_failure() {
                    Self::end(matcher, Err(error), first_only)
                } else {
                    Self::leave(matcher, above, found, first_only)
                }
            },
        }
    }

    /// What the search returns, once it has ended.
    pub fn into_result(self) -> (r: Option<Result<Vec<UIElement>, UIError>>)
        ensures
            match r {
                Some(result) => self@.result == Some(found_view(result)),
                None => self@.result is None,
            },
    {
        self.result
    }

    /// A search that has ended.
    fn end(matcher: &'a UIMatcher, result: Result<Vec<UIElement>, UIError>, first_only: bool) -> (r:
        Search<'a>)
        ensures
            r.matcher() == matcher,
            r@ == SearchView::done(found_view(result), first_only),
    {
        let held = Some(result);
        Search {
            matcher,
            path: Vec::new(),
            relation: Relation::FirstChild,
            found: Vec::new(),
            first_only,
            result: held,
        }
    }

    /// The search when the subtree of the last element of `path` is done.
    fn leave(matcher: &'a UIMatcher, path: Vec<UIElement>, found: Vec<UIElement>, first_only: bool) -> (r:
        Search<'a>)
        requires
            path@.len() <= u32::MAX,
            first_only ==> found@.len() == 0,
        ensures
            r.matcher() == matcher,
            r@ == SearchView::left(path@, found@, first_only),
    {
        if path.len() <= 1 {
            if found.len() == 0 {
                Self::end(matcher, Err(UIError::NotFound), first_only)
            } else {
                Self::end(matcher, Ok(found), first_only)
            }
        } else {
            Search { matcher, path, relation: Relation::NextSibling, found, first_only, result: None }
        }
    }

    /// The search when it reaches `element`, a child of the last element of
    /// `above`.
    fn arrive(
        matcher: &'a UIMatcher,
        above: Vec<UIElement>,
        element: UIElement,
        found: Vec<UIElement>,
        first_only: bool,
    ) -> (r: Search<'a>)
        requires
            above@.len() < u32::MAX,
            first_only ==> found@.len() == 0,
        ensures
            r.matcher() == matcher,
            r@ == SearchView::arrived(matcher, above@, element, found@, first_only),
    {
        let mut path = above;
        let mut found = found;
        match matcher.is_matched(&element) {
            Err(error) => {
                return Self::end(matcher, Err(error), first_only);
            },
            Ok(matched) => {
                if matched {
                    found.push(element.clone());
                    if first_only {
                        return Self::end(matcher, Ok(found), first_only);
                    }
                }
            },
        }
        path.push(element);
        if path.len() < matcher.limit() as usize {
            Search { matcher, path, relation: Relation::FirstChild, found, first_only, result: None }
        } else {
            Self::leave(matcher, path, found, first_only)
        }
    }
}

impl UIMatcher {
    /// Begins a search that is taken one question at a time. It gets the
    /// starting element as `find_first` and `find_all` do; the tree it is
    /// then told of answer by answer.
    pub fn begin(&self, first_only: bool) -> (r: Search<'_>)
        ensures
            r.matcher() == self,
            r@ == SearchView::begun(self, first_only),
    {
        match self.prepare() {
            Err(error) => Search::end(self, Err(error), first_only),
            Ok((start, _)) => Search::arrive(self, Vec::new(), start, Vec::new(), first_only),
        }
    }
}

} // verus!
