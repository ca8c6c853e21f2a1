//! What holds of every search.

use vstd::prelude::*;
use crate::element::UIElement;
use crate::errors::UIError;
use crate::matcher::UIMatcher;
use crate::sequences::{
    is_subsequence,
    lemma_filter_one,
    lemma_subsequence_contains,
    lemma_subsequence_filter,
};
use crate::tree::{Relation, Walk};

verus! {

impl UIMatcher {
    /// The elements that the search looks for.
    pub open spec fn matching(&self) -> spec_fn(UIElement) -> bool {
        |element: UIElement| self.matched(&element) == Ok::<bool, UIError>(true)
    }

    /// Whether every element of a sequence can be judged.
    pub open spec fn judges_all(&self, visited: Seq<UIElement>) -> bool {
        forall|i: int| 0 <= i < visited.len() ==> self.matched(&#[trigger] visited[i]) is Ok
    }

    /// Whether no element of a sequence is matched.
    pub open spec fn matches_none(&self, visited: Seq<UIElement>) -> bool {
        forall|i: int|
            0 <= i < visited.len() ==> self.matched(&#[trigger] visited[i]) != Ok::<bool, UIError>(
                true,
            )
    }

    /// Whether a search along a walk meets no failure: the walk is not cut
    /// short and every element that it reaches can be judged.
    pub open spec fn unfailing(&self, walk: Walk) -> bool {
        walk.failure is None && self.judges_all(walk.visited)
    }

    /// The walk that the search takes: from the starting element, no deeper
    /// than the limit.
    pub open spec fn route(&self) -> Walk
        recommends
            self.resolved() is Ok,
    {
        self.resolved()->Ok_0.1.walk(self.resolved()->Ok_0.0, self.levels_under(1))
    }

    /// A scan for all matches succeeds where every element can be judged,
    /// and only there. What it finds is the matched elements in their order.
    pub proof fn lemma_scan_all(&self, visited: Seq<UIElement>)
        ensures
            self.judges_all(visited) ==> self.scan(visited, false) == Ok::<Seq<UIElement>, UIError>(
                visited.filter(self.matching()),
            ),
            !self.judges_all(visited) ==> self.scan(visited, false) is Err,
        decreases visited.len(),
    {
        reveal(Seq::filter);
        if visited.len() > 0 {
            let head = visited[0];
            let rest = visited.drop_first();
            self.lemma_scan_all(rest);
            assert(visited =~= seq![head] + rest);
            Seq::filter_distributes_over_add(seq![head], rest, self.matching());
            lemma_filter_one(head, self.matching());
            if self.judges_all(visited) {
                assert forall|i: int| 0 <= i < rest.len() implies self.matched(
                    &#[trigger] rest[i],
                ) is Ok by {
                    assert(rest[i] == visited[i + 1]);
                }
            } else if self.matched(&head) is Ok {
                let i = choose|i: int| 0 <= i < visited.len() && !(self.matched(&visited[i]) is Ok);
                assert(rest[i - 1] == visited[i]);
            }
        } else {
            assert(visited.filter(self.matching()) =~= Seq::<UIElement>::empty());
        }
    }

    /// A scan for the first match, where every element can be judged, finds
    /// the first of the matched elements, or nothing where there is none.
    pub proof fn lemma_scan_first(&self, visited: Seq<UIElement>)
        requires
            self.judges_all(visited),
        ensures
            self.scan(visited, true) == Ok::<Seq<UIElement>, UIError>(
                visited.filter(self.matching()).take(
                    if visited.filter(self.matching()).len() == 0 {
                        0
                    } else {
                        1
                    },
                ),
            ),
        decreases visited.len(),
    {
        reveal(Seq::filter);
        if visited.len() > 0 {
            let head = visited[0];
            let rest = visited.drop_first();
            assert forall|i: int| 0 <= i < rest.len() implies self.matched(&#[trigger] rest[i]) is Ok by {
                assert(rest[i] == visited[i + 1]);
            }
            self.lemma_scan_first(rest);
            assert(visited =~= seq![head] + rest);
            Seq::filter_distributes_over_add(seq![head], rest, self.matching());
            lemma_filter_one(head, self.matching());
            let kept = rest.filter(self.matching());
            assert(self.matched(&visited[0]) is Ok);
            if self.matched(&head) == Ok::<bool, UIError>(true) {
                assert((seq![head] + kept).take(1) =~= seq![head]);
            } else {
                let found = kept.take(
                    if kept.len() == 0 {
                        0
                    } else {
                        1
                    },
                );
            }
        } else {
            assert(visited.filter(self.matching()).take(0) =~= Seq::<UIElement>::empty());
        }
    }

    /// No element of a sequence is matched if and only if nothing is left
    /// of the sequence when the unmatched elements are taken out.
    pub proof fn lemma_matches_none(&self, visited: Seq<UIElement>)
        ensures
            self.matches_none(visited) <==> visited.filter(self.matching()).len() == 0,
    {
        let kept = visited.filter(self.matching());
        if self.matches_none(visited) {
            if kept.len() > 0 {
                visited.lemma_filter_pred(self.matching(), 0);
                assert(kept.contains(kept[0]));
                visited.lemma_filter_contains_rev(self.matching(), kept[0]);
                let j = choose|j: int| 0 <= j < visited.len() && visited[j] == kept[0];
                assert(self.matched(&visited[j]) != Ok::<bool, UIError>(true));
            }
        } else {
            let j = choose|j: int|
                0 <= j < visited.len() && self.matched(&visited[j]) == Ok::<bool, UIError>(true);
            assert(self.matching()(visited[j]));
            visited.lemma_filter_contains(self.matching(), j);
        }
    }

    /// Two matchers that judge alike scan alike.
    pub proof fn lemma_scan_alike(&self, other: &UIMatcher, visited: Seq<UIElement>, first_only: bool)
        requires
            forall|element: &UIElement| #[trigger] self.matched(element) == other.matched(element),
        ensures
            self.scan(visited, first_only) == other.scan(visited, first_only),
        decreases visited.len(),
    {
        if visited.len() > 0 {
            self.lemma_scan_alike(other, visited.drop_first(), first_only);
        }
    }

    /// A search for the first match that matches every element finds the
    /// element it starts from, whatever the tree and the depth limit.
    pub proof fn theorem_unconditioned_search_finds_start(&self)
        requires
            self.facility().wf(),
            forall|element: &UIElement| #[trigger] self.matched(element) == Ok::<bool, UIError>(true),
        ensures
            self.found(true) == match self.resolved() {
                Ok((start, _)) => Ok::<Seq<UIElement>, UIError>(seq![start]),
                Err(error) => Err(error),
            },
    {
        if let Ok((start, tree)) = self.resolved() {
            let below = self.levels_under(1);
            self.lemma_outcome_single(start, true);
            self.lemma_outcome_followed_by(Walk::single(start), tree.walk_children(start, below), true);
        }
    }

    /// Every element that a search for all matches returns satisfies the
    /// condition: judged by itself, it is matched.
    pub proof fn theorem_found_are_matched(&self)
        requires
            self.facility().wf(),
        ensures
            self.found(false) matches Ok(found) ==> forall|i: int|
                0 <= i < found.len() ==> self.matched(&#[trigger] found[i]) == Ok::<bool, UIError>(
                    true,
                ),
    {
        if let Ok(found) = self.found(false) {
            self.theorem_found_in_walk_order();
            assert forall|i: int| 0 <= i < found.len() implies self.matched(&#[trigger] found[i])
                == Ok::<bool, UIError>(true) by {
                self.route().visited.lemma_filter_pred(self.matching(), i);
            }
        }
    }

    /// The elements that a search for all matches returns come in the order
    /// of the pre-order walk that goes no deeper than the limit: they are the
    /// elements of that walk with the unmatched ones taken out. Such a
    /// search succeeds only where it meets no failure.
    pub proof fn theorem_found_in_walk_order(&self)
        requires
            self.facility().wf(),
        ensures
            self.found(false) matches Ok(found) ==> {
                &&& self.resolved() is Ok
                &&& self.unfailing(self.route())
                &&& found == self.route().visited.filter(self.matching())
            },
    {
        if let Ok(found) = self.found(false) {
            let walk = self.route();
            self.lemma_scan_all(walk.visited);
        }
    }

    /// Where a search for all matches succeeds, the search for the first
    /// match returns the first of the elements that it returns.
    pub proof fn theorem_first_is_first_of_all(&self)
        requires
            self.facility().wf(),
        ensures
            self.found(false) matches Ok(all) ==> self.found(true) == Ok::<Seq<UIElement>, UIError>(
                seq![all[0]],
            ),
    {
        if let Ok(all) = self.found(false) {
            let visited = self.route().visited;
            self.theorem_found_in_walk_order();
            self.lemma_scan_first(visited);
            assert(all.take(1) =~= seq![all[0]]);
        }
    }

    /// A scan that finds nothing has judged every element unmatched, and a
    /// scan that finds something has judged an element matched.
    pub proof fn lemma_scan_found(&self, visited: Seq<UIElement>, first_only: bool)
        ensures
            self.scan(visited, first_only) matches Ok(found) ==> (found.len() == 0
                <==> self.matches_none(visited)),
        decreases visited.len(),
    {
        if visited.len() > 0 {
            let rest = visited.drop_first();
            self.lemma_scan_found(rest, first_only);
            if let Ok(found) = self.scan(visited, first_only) {
                if self.matched(&visited[0]) == Ok::<bool, UIError>(false) {
                    if self.matches_none(rest) {
                        assert forall|i: int| 0 <= i < visited.len() implies self.matched(
                            &#[trigger] visited[i],
                        ) != Ok::<bool, UIError>(true) by {
                            if i > 0 {
                                assert(rest[i - 1] == visited[i]);
                            }
                        }
                    } else {
                        let j = choose|j: int|
                            0 <= j < rest.len() && self.matched(&rest[j]) == Ok::<bool, UIError>(
                                true,
                            );
                        assert(visited[j + 1] == rest[j]);
                    }
                }
            }
        }
    }

    /// A search reports that nothing was found if and only if no element of
    /// its walk satisfies the condition. This holds of every search but one
    /// that fails: a search that fails with nothing matched returns the
    /// failure; and a failure may be the value `NotFound` itself.
    pub proof fn theorem_not_found_iff_none_matched(&self, first_only: bool)
        requires
            self.facility().wf(),
            self.resolved() is Ok,
            self.outcome(self.route(), first_only) matches Err(error) ==> {
                &&& error != UIError::NotFound
                &&& !self.matches_none(self.route().visited)
            },
        ensures
            self.found(first_only) == Err::<Seq<UIElement>, UIError>(UIError::NotFound)
                <==> self.matches_none(self.route().visited),
    {
        self.lemma_scan_found(self.route().visited, first_only);
    }

    /// A search that meets no failure succeeds, or reports that nothing was
    /// found.
    pub proof fn theorem_unfailing_search(&self, first_only: bool)
        requires
            self.facility().wf(),
            self.resolved() is Ok,
            self.unfailing(self.route()),
        ensures
            self.outcome(self.route(), first_only) is Ok,
            self.found(first_only) is Err ==> self.found(first_only) == Err::<Seq<UIElement>, UIError>(
                UIError::NotFound,
            ),
    {
        self.lemma_scan_all(self.route().visited);
        self.lemma_scan_first(self.route().visited);
    }

    /// A search reports the failure of its walk: where the walk is cut short
    /// and every element before that can be judged, a search for all matches
    /// returns the failure of the walk, and so does a search for the first
    /// match where no element before that is matched.
    pub proof fn theorem_walk_failure_is_reported(&self)
        requires
            self.facility().wf(),
            self.resolved() is Ok,
            self.route().failure is Some,
            self.judges_all(self.route().visited),
        ensures
            self.found(false) == Err::<Seq<UIElement>, UIError>(self.route().failure->Some_0),
            self.matches_none(self.route().visited) ==> self.found(true) == Err::<
                Seq<UIElement>,
                UIError,
            >(self.route().failure->Some_0),
    {
        let visited = self.route().visited;
        self.lemma_scan_all(visited);
        self.lemma_scan_first(visited);
        self.lemma_matches_none(visited);
    }

    /// Where the walker fails when it is asked for the first child of the
    /// starting element, and the depth limit lets the search ask, the search
    /// returns that failure: it does not take the element to have no
    /// children. Only a failure to judge the starting element comes before
    /// it, and in a search for the first match a match of that element.
    pub proof fn theorem_first_child_failure_is_reported(&self)
        requires
            self.facility().wf(),
            self.resolved() is Ok,
            self.depth_limit() >= 2,
            self.resolved()->Ok_0.1.answer(self.resolved()->Ok_0.0, Relation::FirstChild) is Err,
            self.resolved()->Ok_0.1.answer(
                self.resolved()->Ok_0.0,
                Relation::FirstChild,
            )->Err_0.spec_is_failure(),
        ensures
            self.found(false) == match self.matched(&self.resolved()->Ok_0.0) {
                Err(error) => Err::<Seq<UIElement>, UIError>(error),
                Ok(_) => Err(
                    self.resolved()->Ok_0.1.answer(self.resolved()->Ok_0.0, Relation::FirstChild)->Err_0,
                ),
            },
            self.found(true) == match self.matched(&self.resolved()->Ok_0.0) {
                Err(error) => Err::<Seq<UIElement>, UIError>(error),
                Ok(true) => Ok(seq![self.resolved()->Ok_0.0]),
                Ok(false) => Err(
                    self.resolved()->Ok_0.1.answer(self.resolved()->Ok_0.0, Relation::FirstChild)->Err_0,
                ),
            },
    {
        let (start, tree) = self.resolved()->Ok_0;
        let below = self.levels_under(1);
        let children = tree.walk_children(start, below);
        assert(children == Walk::failed(tree.answer(start, Relation::FirstChild)->Err_0));
        self.lemma_outcome_single(start, true);
        self.lemma_outcome_single(start, false);
        self.lemma_outcome_followed_by(Walk::single(start), children, true);
        self.lemma_outcome_followed_by(Walk::single(start), children, false);
        assert(self.scan(Seq::<UIElement>::empty(), true) == Ok::<Seq<UIElement>, UIError>(
            Seq::empty(),
        ));
        assert(self.scan(Seq::<UIElement>::empty(), false) == Ok::<Seq<UIElement>, UIError>(
            Seq::empty(),
        ));
    }

    /// Raising the depth limit takes no match away. Where the deeper search
    /// for all matches succeeds, the shallower one returns a subsequence of
    /// what the deeper one returns, or reports that it found nothing.
    pub proof fn theorem_deeper_search_keeps_matches(&self, deeper: &UIMatcher)
        requires
            self.facility().wf(),
            self.facility() == deeper.facility(),
            self.start() == deeper.start(),
            forall|element: &UIElement| #[trigger] self.matched(element) == deeper.matched(element),
            self.depth_limit() <= deeper.depth_limit(),
        ensures
            deeper.found(false) matches Ok(more) ==> match self.found(false) {
                Ok(fewer) => is_subsequence(fewer, more),
                Err(error) => error == UIError::NotFound,
            },
    {
        if let Ok(more) = deeper.found(false) {
            let (start, tree) = self.resolved()->Ok_0;
            let far = tree.walk(start, deeper.levels_under(1));
            let near = tree.walk(start, self.levels_under(1));
            deeper.theorem_found_in_walk_order();
            self.lemma_scan_alike(deeper, far.visited, false);
            self.lemma_scan_all(far.visited);
            tree.lemma_walk_deeper(start, self.levels_under(1), deeper.levels_under(1));
            assert forall|i: int| 0 <= i < near.visited.len() implies self.matched(
                &#[trigger] near.visited[i],
            ) is Ok by {
                lemma_subsequence_contains(near.visited, far.visited, i);
                let j = choose|j: int| 0 <= j < far.visited.len() && far.visited[j] == near.visited[i];
                assert(self.matched(&far.visited[j]) is Ok);
            }
            self.lemma_scan_all(near.visited);
            lemma_subsequence_filter(near.visited, far.visited, self.matching());
        }
    }
}

} // verus!
