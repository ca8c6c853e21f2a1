//! The matcher: a pre-order search of the tree, no deeper than a limit, for
//! the elements that satisfy a condition.

use vstd::prelude::*;
use crate::automation::{Facility, UIAutomation};
use crate::condition::{name_judgement, Condition, NameCondition};
use crate::element::UIElement;
use crate::errors::UIError;
use crate::tree::{Relation, Tree, Walk};
use crate::walker::UITreeWalker;

verus! {

/// What a stretch of a search found, or the failure that ended the search.
pub type Found = Result<Seq<UIElement>, UIError>;

/// What two stretches of a search found, the second following the first. A
/// failure of the first is the outcome. So is what the first found where the
/// first match ends the search and there is one. Else the second goes on
/// where the first ended.
pub open spec fn joined(first: Found, second: Found, first_only: bool) -> Found {
    match first {
        Err(error) => Err(error),
        Ok(found) => if first_only && found.len() > 0 {
            Ok(found)
        } else {
            match second {
                Err(error) => Err(error),
                Ok(more) => Ok(found + more),
            }
        },
    }
}

/// What a walk that reached nothing, and ended by itself or by a failure,
/// contributes to a search.
pub open spec fn ending(failure: Option<UIError>) -> Found {
    match failure {
        Some(error) => Err(error),
        None => Ok(Seq::empty()),
    }
}

/// What a search that has ended returns: a search that found nothing says
/// so.
pub open spec fn concluded(outcome: Found) -> Found {
    match outcome {
        Err(error) => Err(error),
        Ok(found) => if found.len() == 0 {
            Err(UIError::NotFound)
        } else {
            Ok(found)
        },
    }
}

/// The elements that a search found, as a sequence.
pub open spec fn found_view(result: Result<Vec<UIElement>, UIError>) -> Found {
    match result {
        Ok(elements) => Ok(elements@),
        Err(error) => Err(error),
    }
}

/// A configured search: where it gets the tree, how deep it goes, where it
/// starts and what it looks for.
pub struct UIMatcher {
    automation: UIAutomation,
    depth: u32,
    from: Option<UIElement>,
    condition: Option<Box<dyn Condition>>,
}

impl UIMatcher {
    /// The facility that the search gets its root and its walker from.
    pub closed spec fn facility(&self) -> Facility {
        self.automation@
    }

    /// The depth limit. The starting element is at depth 1.
    pub closed spec fn depth_limit(&self) -> u32 {
        self.depth
    }

    /// The element that the search starts from, where one was set.
    pub closed spec fn start(&self) -> Option<UIElement> {
        self.from
    }

    /// Whether an element is one that the search looks for: the judgement of
    /// the condition, and yes for every element where no condition was set.
    pub closed spec fn matched(&self, element: &UIElement) -> Result<bool, UIError> {
        match self.condition {
            Some(condition) => condition.judged(element),
            None => Ok(true),
        }
    }

    /// How many levels under an element at `depth` the search enters: the
    /// children of an element are visited only where the element's own
    /// depth is under the limit.
    pub open spec fn levels_under(&self, depth: u32) -> nat {
        if depth < self.depth_limit() {
            (self.depth_limit() - depth) as nat
        } else {
            0
        }
    }

    /// The starting element and the table of the walker, or the failure to
    /// get them. The root is asked for only where no starting element was
    /// set, and before the walker.
    pub open spec fn resolved(&self) -> Result<(UIElement, Tree), UIError> {
        let root = match self.start() {
            Some(element) => Ok(element),
            None => self.facility().root,
        };
        match root {
            Err(error) => Err(error),
            Ok(element) => match self.facility().tree {
                Err(error) => Err(error),
                Ok(tree) => Ok((element, tree)),
            },
        }
    }

    /// What judging the elements of `visited` one after the other finds:
    /// those that are matched, in their order, and only the first of them
    /// where the first match ends the search. A judgement that fails before
    /// the search has ended is the outcome.
    pub open spec fn scan(&self, visited: Seq<UIElement>, first_only: bool) -> Found
        decreases visited.len(),
    {
        if visited.len() == 0 {
            Ok(Seq::empty())
        } else {
            joined(
                match self.matched(&visited[0]) {
                    Err(error) => Err(error),
                    Ok(true) => Ok(seq![visited[0]]),
                    Ok(false) => Ok(Seq::empty()),
                },
                self.scan(visited.drop_first(), first_only),
                first_only,
            )
        }
    }

    /// What a search along a walk finds. The elements are judged as the walk
    /// reaches them, so the failure that cut the walk short comes after all
    /// judgements.
    pub open spec fn outcome(&self, walk: Walk, first_only: bool) -> Found {
        joined(self.scan(walk.visited, first_only), ending(walk.failure), first_only)
    }

    /// What the search finds from `start` in a tree: the matched elements of
    /// the pre-order walk that goes no deeper than the limit. A search that
    /// ends with nothing found reports that as `NotFound`.
    pub open spec fn sought(&self, start: UIElement, tree: Tree, first_only: bool) -> Found {
        concluded(self.outcome(tree.walk(start, self.levels_under(1)), first_only))
    }

    /// What the search finds from its starting element in the tree of its
    /// facility, or the failure to get the two.
    pub open spec fn found(&self, first_only: bool) -> Found {
        match self.resolved() {
            Err(error) => Err(error),
            Ok((start, tree)) => self.sought(start, tree, first_only),
        }
    }

    /// A search of the whole tree to depth 5 that matches every element.
    pub fn new(automation: UIAutomation) -> (r: UIMatcher)
        ensures
            r.facility() == automation@,
            r.depth_limit() == 5,
            r.start() is None,
            forall|element: &UIElement| #[trigger] r.matched(element) == Ok::<bool, UIError>(true),
    {
        UIMatcher { automation, depth: 5, from: None, condition: None }
    }

    /// Sets the element that the search starts from.
    pub fn from(self, element: UIElement) -> (r: UIMatcher)
        ensures
            r.facility() == self.facility(),
            r.depth_limit() == self.depth_limit(),
            r.start() == Some(element),
            forall|e: &UIElement| #[trigger] r.matched(e) == self.matched(e),
    {
        let start = Some(element);
        UIMatcher {
            automation: self.automation,
            depth: self.depth,
            from: start,
            condition: self.condition,
        }
    }

    /// Sets the depth limit. With a limit of 1 the search examines the
    /// starting element alone; a limit of 0 does not let it examine less.
    pub fn depth(self, depth: u32) -> (r: UIMatcher)
        ensures
            r.facility() == self.facility(),
            r.depth_limit() == depth,
            r.start() == self.start(),
            forall|e: &UIElement| #[trigger] r.matched(e) == self.matched(e),
    {
        UIMatcher {
            automation: self.automation,
            depth,
            from: self.from,
            condition: self.condition,
        }
    }

    /// Sets the condition, in place of the one that was set before.
    pub fn filter(self, condition: Box<dyn Condition>) -> (r: UIMatcher)
        ensures
            r.facility() == self.facility(),
            r.depth_limit() == self.depth_limit(),
            r.start() == self.start(),
            forall|e: &UIElement| #[trigger] r.matched(e) == condition.judged(e),
    {
        let held = Some(condition);
        UIMatcher { automation: self.automation, depth: self.depth, from: self.from, condition: held }
    }

    /// Looks for the elements whose display name holds `name`, whatever the
    /// case of the letters.
    pub fn contains_name(self, name: &str) -> (r: UIMatcher)
        ensures
            r.facility() == self.facility(),
            r.depth_limit() == self.depth_limit(),
            r.start() == self.start(),
            forall|e: &UIElement| #[trigger]
                r.matched(e) == name_judgement(name@, false, true, e.spec_name()),
    {
        let condition = NameCondition::new(name, false, true);
        self.filter(Box::new(condition))
    }

    /// Looks for the elements whose display name is `name`, whatever the
    /// case of its ASCII letters.
    pub fn match_name(self, name: &str) -> (r: UIMatcher)
        ensures
            r.facility() == self.facility(),
            r.depth_limit() == self.depth_limit(),
            r.start() == self.start(),
            forall|e: &UIElement| #[trigger]
                r.matched(e) == name_judgement(name@, false, false, e.spec_name()),
    {
        let condition = NameCondition::new(name, false, false);
        self.filter(Box::new(condition))
    }

    /// The first matched element of the pre-order walk from the starting
    /// element that goes no deeper than the limit. The search ends there:
    /// what lies behind the first match is neither read nor judged.
    pub fn find_first(&self) -> (r: Result<UIElement, UIError>)
        ensures
            match r {
                Ok(element) => self.found(true) == Ok::<Seq<UIElement>, UIError>(seq![element]),
                Err(error) => self.found(true) == Err::<Seq<UIElement>, UIError>(error),
            },
    {
        let (root, walker) = match self.prepare() {
            Ok(pair) => pair,
            Err(error) => {
                return Err(error);
            },
        };

        let mut elements: Vec<UIElement> = Vec::new();
        match self.search(&walker, &root, &mut elements, 1, true) {
            Ok(()) => {},
            Err(error) => {
                return Err(error);
            },
        }

        if elements.len() == 0 {
            Err(UIError::NotFound)
        } else {
            proof {
                self.lemma_first_only_finds_one(walker@.walk(root, self.levels_under(1)));
                assert(elements@ =~= seq![elements@[0]]);
            }
            Ok(elements.remove(0))
        }
    }

    /// All matched elements of the pre-order walk from the starting element
    /// that goes no deeper than the limit, in the order of the walk.
    pub fn find_all(&self) -> (r: Result<Vec<UIElement>, UIError>)
        ensures
            found_view(r) == self.found(false),
            r matches Ok(elements) ==> forall|i: int|
                0 <= i < elements@.len() ==> self.matched(&#[trigger] elements@[i]) == Ok::<
                    bool,
                    UIError,
                >(true),
    {
        let (root, walker) = match self.prepare() {
            Ok(pair) => pair,
            Err(error) => {
                return Err(error);
            },
        };

        let mut elements: Vec<UIElement> = Vec::new();
        match self.search(&walker, &root, &mut elements, 1, false) {
            Ok(()) => {},
            Err(error) => {
                return Err(error);
            },
        }

        if elements.len() == 0 {
            Err(UIError::NotFound)
        } else {
            proof {
                use_type_invariant(&walker);
                self.theorem_found_are_matched();
            }
            Ok(elements)
        }
    }

    /// The depth limit.
    pub(crate) fn limit(&self) -> (r: u32)
        ensures
            r == self.depth_limit(),
    {
        self.depth
    }

    /// Gets the starting element and a fresh walker.
    pub(crate) fn prepare(&self) -> (r: Result<(UIElement, UITreeWalker), UIError>)
        ensures
            match r {
                Ok((root, walker)) => self.resolved() == Ok::<(UIElement, Tree), UIError>(
                    (root, walker@),
                ),
                Err(error) => self.resolved() == Err::<(UIElement, Tree), UIError>(error),
            },
    {
        let root = match &self.from {
            Some(from) => from.clone(),
            None => match self.automation.get_root_element() {
                Ok(root) => root,
                Err(error) => {
                    return Err(error);
                },
            },
        };
        let walker = match self.automation.create_tree_walker() {
            Ok(walker) => walker,
            Err(error) => {
                return Err(error);
            },
        };

        Ok((root, walker))
    }

    /// Searches the subtree of `element`, which lies at `depth`, and appends
    /// what it finds to `elements`.
    fn search(
        &self,
        walker: &UITreeWalker,
        element: &UIElement,
        elements: &mut Vec<UIElement>,
        depth: u32,
        first_only: bool,
    ) -> (r: Result<(), UIError>)
        requires
            first_only ==> old(elements)@.len() == 0,
        ensures
            match self.outcome(walker@.walk(*element, self.levels_under(depth)), first_only) {
                Ok(found) => r is Ok && final(elements)@ == old(elements)@ + found,
                Err(error) => r == Err::<(), UIError>(error),
            },
        decreases self.levels_under(depth),
    {
        proof {
            use_type_invariant(walker);
        }
        let ghost before = elements@;
        let ghost tree = walker@;
        let ghost below = self.levels_under(depth);
        let ghost target = self.outcome(tree.walk(*element, below), first_only);
        let ghost mut acc: Seq<UIElement> = Seq::empty();
        proof {
            self.lemma_outcome_single(*element, first_only);
            self.lemma_outcome_followed_by(
                Walk::single(*element),
                tree.walk_children(*element, below),
                first_only,
            );
        }

        match self.is_matched(element) {
            Err(error) => {
                return Err(error);
            },
            Ok(matched) => {
                if matched {
                    elements.push(element.clone());
                    proof {
                        acc = seq![*element];
                    }
                    if first_only {
                        return Ok(());
                    }
                }
            },
        }

        if depth < self.depth {
            let mut next = walker.get_first_child(element);
            loop
                invariant
                    tree == walker@,
                    tree.wf(),
                    depth < self.depth_limit(),
                    below == self.levels_under(depth),
                    elements@ == before + acc,
                    first_only ==> elements@.len() == 0,
                    target == joined(
                        Ok(acc),
                        self.outcome(tree.walk_siblings(next, (below - 1) as nat), first_only),
                        first_only,
                    ),
                    target == self.outcome(tree.walk(*element, below), first_only),
                    before == old(elements)@,
                decreases tree.rows_left(next),
            {
                let child = match next {
                    Ok(child) => child,
                    Err(error) => {
                        if error.is_failure() {
                            return Err(error);
                        } else {
                            return Ok(());
                        }
                    },
                };
                let ghost deeper = tree.walk(child, (below - 1) as nat);
                let ghost rest = tree.walk_siblings(
                    tree.answer(child, Relation::NextSibling),
                    (below - 1) as nat,
                );
                proof {
                    self.lemma_outcome_followed_by(deeper, rest, first_only);
                    lemma_joined_assoc(
                        Ok(acc),
                        self.outcome(deeper, first_only),
                        self.outcome(rest, first_only),
                        first_only,
                    );
                }
                match self.search(walker, &child, elements, depth + 1, first_only) {
                    Ok(()) => {},
                    Err(error) => {
                        return Err(error);
                    },
                }
                proof {
                    let found = self.outcome(deeper, first_only)->Ok_0;
                    acc = acc + found;
                }
                if first_only && elements.len() > 0 {
                    return Ok(());
                }
                next = walker.get_next_sibling(&child);
            }
        }

        Ok(())
    }

    /// Judges an element.
    pub(crate) fn is_matched(&self, element: &UIElement) -> (r: Result<bool, UIError>)
        ensures
            r == self.matched(element),
    {
        match &self.condition {
            Some(condition) => condition.judge(element),
            None => Ok(true),
        }
    }

    /// The search along the walk that reaches one element finds the element
    /// or nothing, as the element is judged.
    pub proof fn lemma_outcome_single(&self, element: UIElement, first_only: bool)
        ensures
            self.outcome(Walk::single(element), first_only) == match self.matched(&element) {
                Err(error) => Err::<Seq<UIElement>, UIError>(error),
                Ok(true) => Ok(seq![element]),
                Ok(false) => Ok(Seq::empty()),
            },
    {
        assert(self.scan(seq![element].drop_first(), first_only) == Ok::<Seq<UIElement>, UIError>(
            Seq::empty(),
        ));
    }

    /// Where the first match ends the search, at most one element is found.
    pub proof fn lemma_first_only_finds_one(&self, walk: Walk)
        ensures
            self.outcome(walk, true) matches Ok(found) ==> found.len() <= 1,
    {
        self.lemma_scan_first_only(walk.visited);
    }

    /// Where the first match ends the search, a scan finds at most one
    /// element.
    pub proof fn lemma_scan_first_only(&self, visited: Seq<UIElement>)
        ensures
            self.scan(visited, true) matches Ok(found) ==> found.len() <= 1,
        decreases visited.len(),
    {
        if visited.len() > 0 {
            self.lemma_scan_first_only(visited.drop_first());
        }
    }

    /// Scanning two stretches in a row is scanning the first and then the
    /// second.
    pub proof fn lemma_scan_concat(&self, a: Seq<UIElement>, b: Seq<UIElement>, first_only: bool)
        ensures
            self.scan(a + b, first_only) == joined(
                self.scan(a, first_only),
                self.scan(b, first_only),
                first_only,
            ),
        decreases a.len(),
    {
        if a.len() == 0 {
            assert(a + b =~= b);
        } else {
            let rest = a.drop_first();
            let head: Found = match self.matched(&a[0]) {
                Err(error) => Err(error),
                Ok(true) => Ok(seq![a[0]]),
                Ok(false) => Ok(Seq::empty()),
            };
            assert((a + b).drop_first() =~= rest + b);
            self.lemma_scan_concat(rest, b, first_only);
            lemma_joined_assoc(
                head,
                self.scan(rest, first_only),
                self.scan(b, first_only),
                first_only,
            );
        }
    }

    /// The search along two walks in a row is the search along the first
    /// and then along the second.
    pub proof fn lemma_outcome_followed_by(&self, a: Walk, b: Walk, first_only: bool)
        ensures
            self.outcome(a.followed_by(b), first_only) == joined(
                self.outcome(a, first_only),
                self.outcome(b, first_only),
                first_only,
            ),
    {
        if a.failure is None {
            self.lemma_scan_concat(a.visited, b.visited, first_only);
            lemma_joined_assoc(
                self.scan(a.visited, first_only),
                self.scan(b.visited, first_only),
                ending(b.failure),
                first_only,
            );
        }
    }
}

impl UIAutomation {
    /// A matcher over this facility, as `UIMatcher::new` makes it.
    pub fn create_matcher(&self) -> (r: UIMatcher)
        ensures
            r.facility() == self@,
            r.depth_limit() == 5,
            r.start() is None,
            forall|element: &UIElement| #[trigger] r.matched(element) == Ok::<bool, UIError>(true),
    {
        UIMatcher::new(self.clone())
    }
}

/// Joining is associative.
pub proof fn lemma_joined_assoc(a: Found, b: Found, c: Found, first_only: bool)
    ensures
        joined(joined(a, b, first_only), c, first_only) == joined(
            a,
            joined(b, c, first_only),
            first_only,
        ),
{
    match (a, b, c) {
        (Ok(x), Ok(y), Ok(z)) => {
            assert((x + y) + z =~= x + (y + z));
        },
        _ => {},
    }
}

} // verus!
