use std::cell::Cell;
use std::rc::Rc;

use uiautomation::automation::UIAutomation;
use uiautomation::condition::{Condition, NameCondition};
use uiautomation::element::UIElement;
use uiautomation::errors::UIError;
use uiautomation::matcher::UIMatcher;
use uiautomation::tree::Relation;
use uiautomation::walker::UITreeWalker;

const E_FAIL: i32 = -2147467259;
const ELEMENT_NOT_AVAILABLE: i32 = -2147220991;

fn named(name: &str) -> Result<String, UIError> {
    Ok(name.to_string())
}

/// A facility over a copy of the table whose root is the element at place 0.
fn over(walker: &UITreeWalker) -> UIAutomation {
    let root = UIElement::new(0, named("Window"));
    UIAutomation::from_answers(Ok(root), Ok(walker.clone()))
}

/// Window(0) [ Panel(1) [ Submit Button(2), Label(3) [ Deep Button(4) ] ], Cancel Button(5) ]
fn sample() -> UITreeWalker {
    let mut walker = UITreeWalker::new();
    let window = walker.add_root(named("Window"));
    let panel = walker.add_child(&window, named("Panel")).unwrap();
    walker.add_child(&panel, named("Submit Button")).unwrap();
    let label = walker.add_child(&panel, named("Label")).unwrap();
    walker.add_child(&label, named("Deep Button")).unwrap();
    walker.add_child(&window, named("Cancel Button")).unwrap();
    walker
}

/// A chain of `length` elements, each the only child of the one before.
fn chain(length: usize) -> UITreeWalker {
    let mut walker = UITreeWalker::new();
    let mut last = walker.add_root(named("Window"));
    for level in 1..length {
        last = walker.add_child(&last, Ok(format!("Level {}", level + 1))).unwrap();
    }
    walker
}

fn indices(found: Result<Vec<UIElement>, UIError>) -> Result<Vec<usize>, UIError> {
    found.map(|elements| elements.iter().map(|element| element.index()).collect())
}

fn index(found: Result<UIElement, UIError>) -> Result<usize, UIError> {
    found.map(|element| element.index())
}

/// Matches the elements at the given places, and lists the places of the
/// elements that it was asked to judge.
struct At {
    places: Vec<usize>,
    asked: Rc<Cell<Vec<usize>>>,
}

impl At {
    fn places(places: &[usize]) -> At {
        At { places: places.to_vec(), asked: Rc::new(Cell::new(Vec::new())) }
    }
}

impl Condition for At {
    fn judged(&self, element: &UIElement) -> Result<bool, UIError> {
        Ok(self.places.contains(&element.index()))
    }

    fn judge(&self, element: &UIElement) -> Result<bool, UIError> {
        let mut asked = self.asked.take();
        asked.push(element.index());
        self.asked.set(asked);
        self.judged(element)
    }
}

/// Fails on the element at one place and matches no other.
struct FailsAt(usize);

impl Condition for FailsAt {
    fn judged(&self, element: &UIElement) -> Result<bool, UIError> {
        if element.index() == self.0 {
            Err(UIError::Provider(E_FAIL))
        } else {
            Ok(false)
        }
    }

    fn judge(&self, element: &UIElement) -> Result<bool, UIError> {
        self.judged(element)
    }
}

#[test]
fn find_first_without_condition_returns_the_start() {
    let walker = sample();
    for depth in [1, 2, 3, 5, 100, u32::MAX] {
        let matcher = UIMatcher::new(over(&walker)).depth(depth);
        assert_eq!(index(matcher.find_first()), Ok(0));
    }
    let label = walker.get_last_child(&walker.get_first_child(&UIElement::new(0, named("Window"))).unwrap()).unwrap();
    for depth in [1, 2, 5] {
        let matcher = UIMatcher::new(over(&walker)).from(label.clone()).depth(depth);
        assert_eq!(index(matcher.find_first()), Ok(3));
    }
}

#[test]
fn find_all_without_condition_walks_in_preorder() {
    let walker = sample();
    let all = UIMatcher::new(over(&walker)).find_all();
    assert_eq!(indices(all), Ok(vec![0, 1, 2, 3, 4, 5]));
}

#[test]
fn find_all_is_cut_at_the_depth_limit() {
    let walker = sample();
    let at = |depth: u32| indices(UIMatcher::new(over(&walker)).depth(depth).find_all());
    assert_eq!(at(1), Ok(vec![0]));
    assert_eq!(at(2), Ok(vec![0, 1, 5]));
    assert_eq!(at(3), Ok(vec![0, 1, 2, 3, 5]));
    assert_eq!(at(4), Ok(vec![0, 1, 2, 3, 4, 5]));
    assert_eq!(at(5), Ok(vec![0, 1, 2, 3, 4, 5]));
}

#[test]
fn depth_limit_of_zero_examines_the_start() {
    let walker = sample();
    let matcher = UIMatcher::new(over(&walker)).depth(0);
    assert_eq!(indices(matcher.find_all()), Ok(vec![0]));
    assert_eq!(index(matcher.find_first()), Ok(0));
}

#[test]
fn default_depth_enters_four_levels_under_the_start() {
    let walker = chain(8);
    let all = UIMatcher::new(over(&walker)).find_all();
    assert_eq!(indices(all), Ok(vec![0, 1, 2, 3, 4]));
    let sixth = UIMatcher::new(over(&walker)).match_name("Level 6").find_first();
    assert_eq!(index(sixth), Err(UIError::NotFound));
    let fifth = UIMatcher::new(over(&walker)).match_name("Level 5").find_first();
    assert_eq!(index(fifth), Ok(4));
}

#[test]
fn find_all_returns_matches_in_walk_order() {
    let walker = sample();
    let buttons = UIMatcher::new(over(&walker)).contains_name("button").find_all();
    assert_eq!(indices(buttons), Ok(vec![2, 4, 5]));
    let picked = UIMatcher::new(over(&walker)).filter(Box::new(At::places(&[5, 3, 1]))).find_all();
    assert_eq!(indices(picked), Ok(vec![1, 3, 5]));
}

#[test]
fn every_element_of_find_all_satisfies_the_condition() {
    let walker = sample();
    let found = UIMatcher::new(over(&walker)).contains_name("button").find_all().unwrap();
    let condition = NameCondition::new("button", false, true);
    assert_eq!(found.len(), 3);
    for element in found.iter() {
        assert_eq!(condition.judge(element), Ok(true));
    }
}

#[test]
fn find_first_returns_the_first_match_of_the_walk() {
    let walker = sample();
    let first = UIMatcher::new(over(&walker)).contains_name("button").find_first();
    assert_eq!(index(first), Ok(2));
    let first = UIMatcher::new(over(&walker)).contains_name("button").find_first().unwrap();
    assert_eq!(first.get_name(), named("Submit Button"));
    let deep = UIMatcher::new(over(&walker)).filter(Box::new(At::places(&[5, 4]))).find_first();
    assert_eq!(index(deep), Ok(4));
}

#[test]
fn find_first_judges_nothing_behind_the_first_match() {
    let walker = sample();
    let condition = At::places(&[2, 5]);
    let asked = condition.asked.clone();
    let matcher = UIMatcher::new(over(&walker)).filter(Box::new(condition));
    assert_eq!(index(matcher.find_first()), Ok(2));
    assert_eq!(asked.take(), vec![0, 1, 2]);
}

#[test]
fn find_all_judges_every_element_once_in_walk_order() {
    let walker = sample();
    let condition = At::places(&[2, 5]);
    let asked = condition.asked.clone();
    let matcher = UIMatcher::new(over(&walker)).depth(3).filter(Box::new(condition));
    assert_eq!(indices(matcher.find_all()), Ok(vec![2, 5]));
    assert_eq!(asked.take(), vec![0, 1, 2, 3, 5]);
}

#[test]
fn first_match_is_the_first_of_all_matches() {
    let walker = sample();
    for name in ["button", "n", "l", "window", "deep"] {
        for depth in 1..6 {
            let matcher = UIMatcher::new(over(&walker)).depth(depth).contains_name(name);
            match indices(matcher.find_all()) {
                Ok(all) => assert_eq!(index(matcher.find_first()), Ok(all[0])),
                Err(error) => assert_eq!(index(matcher.find_first()), Err(error)),
            }
        }
    }
}

#[test]
fn deeper_limit_keeps_the_matches_of_a_shallower_one() {
    let walker = sample();
    let at = |depth: u32| {
        indices(UIMatcher::new(over(&walker)).depth(depth).contains_name("n").find_all()).unwrap()
    };
    assert_eq!(at(1), vec![0]);
    assert_eq!(at(2), vec![0, 1, 5]);
    assert_eq!(at(3), vec![0, 1, 2, 5]);
    assert_eq!(at(4), vec![0, 1, 2, 4, 5]);
    for depth in 1..6 {
        let fewer = at(depth);
        let more = at(depth + 1);
        let mut rest = more.iter();
        for kept in fewer.iter() {
            assert!(rest.any(|later| later == kept));
        }
    }
}

#[test]
fn nothing_matched_is_not_found() {
    let walker = sample();
    let matcher = UIMatcher::new(over(&walker)).contains_name("xyz");
    assert_eq!(indices(matcher.find_all()), Err(UIError::NotFound));
    assert_eq!(index(matcher.find_first()), Err(UIError::NotFound));
}

#[test]
fn something_matched_is_found() {
    let walker = sample();
    for place in 0..6 {
        let matcher = UIMatcher::new(over(&walker)).filter(Box::new(At::places(&[place])));
        assert_eq!(indices(matcher.find_all()), Ok(vec![place]));
        assert_eq!(index(matcher.find_first()), Ok(place));
    }
}

#[test]
fn name_conditions_on_a_submit_button() {
    let mut walker = UITreeWalker::new();
    walker.add_root(named("Submit Button"));
    let start = || UIElement::new(0, named("Submit Button"));
    let facility = || UIAutomation::from_answers(Ok(start()), Ok(walker.clone()));

    assert_eq!(index(UIMatcher::new(facility()).contains_name("submit").find_first()), Ok(0));
    assert_eq!(index(UIMatcher::new(facility()).match_name("Submit Button").find_first()), Ok(0));
    assert_eq!(index(UIMatcher::new(facility()).match_name("submit button").find_first()), Ok(0));
    assert_eq!(
        index(UIMatcher::new(facility()).match_name("Submit").find_first()),
        Err(UIError::NotFound)
    );
    assert_eq!(
        index(UIMatcher::new(facility()).contains_name("xyz").find_first()),
        Err(UIError::NotFound)
    );
}

#[test]
fn depth_one_does_not_reach_a_grandchild() {
    let walker = sample();
    let shallow = UIMatcher::new(over(&walker)).depth(1).match_name("Submit Button");
    assert_eq!(index(shallow.find_first()), Err(UIError::NotFound));
    assert_eq!(indices(shallow.find_all()), Err(UIError::NotFound));
    let child_level = UIMatcher::new(over(&walker)).depth(2).match_name("Submit Button");
    assert_eq!(index(child_level.find_first()), Err(UIError::NotFound));
    let deep = UIMatcher::new(over(&walker)).depth(3).match_name("Submit Button");
    assert_eq!(index(deep.find_first()), Ok(2));
    assert_eq!(indices(deep.find_all()), Ok(vec![2]));
}

#[test]
fn failure_to_get_the_first_child_is_returned() {
    let mut walker = sample();
    let window = UIElement::new(0, named("Window"));
    walker.fail(&window, Relation::FirstChild, UIError::Provider(ELEMENT_NOT_AVAILABLE));

    let all = UIMatcher::new(over(&walker)).find_all();
    assert_eq!(indices(all), Err(UIError::Provider(ELEMENT_NOT_AVAILABLE)));
    let buttons = UIMatcher::new(over(&walker)).contains_name("button");
    assert_eq!(indices(buttons.find_all()), Err(UIError::Provider(ELEMENT_NOT_AVAILABLE)));
    assert_eq!(index(buttons.find_first()), Err(UIError::Provider(ELEMENT_NOT_AVAILABLE)));
    let nothing = UIMatcher::new(over(&walker)).contains_name("xyz");
    assert_eq!(index(nothing.find_first()), Err(UIError::Provider(ELEMENT_NOT_AVAILABLE)));
}

#[test]
fn failure_deeper_in_the_tree_is_returned() {
    let mut walker = sample();
    let label = UIElement::new(3, named("Label"));
    walker.fail(&label, Relation::FirstChild, UIError::Provider(E_FAIL));
    let all = UIMatcher::new(over(&walker)).find_all();
    assert_eq!(indices(all), Err(UIError::Provider(E_FAIL)));
    let cancel = UIMatcher::new(over(&walker)).match_name("Cancel Button");
    assert_eq!(index(cancel.find_first()), Err(UIError::Provider(E_FAIL)));
}

#[test]
fn failure_to_get_the_next_sibling_is_returned() {
    let mut walker = sample();
    let panel = UIElement::new(1, named("Panel"));
    walker.fail(&panel, Relation::NextSibling, UIError::Provider(E_FAIL));
    let all = UIMatcher::new(over(&walker)).find_all();
    assert_eq!(indices(all), Err(UIError::Provider(E_FAIL)));
    let cancel = UIMatcher::new(over(&walker)).match_name("Cancel Button");
    assert_eq!(index(cancel.find_first()), Err(UIError::Provider(E_FAIL)));
}

#[test]
fn matches_before_a_failure_are_not_returned() {
    let mut walker = sample();
    let panel = UIElement::new(1, named("Panel"));
    walker.fail(&panel, Relation::NextSibling, UIError::Provider(E_FAIL));
    let buttons = UIMatcher::new(over(&walker)).contains_name("button");
    assert_eq!(indices(buttons.find_all()), Err(UIError::Provider(E_FAIL)));
}

#[test]
fn failure_behind_the_first_match_is_not_met() {
    let mut walker = sample();
    let panel = UIElement::new(1, named("Panel"));
    walker.fail(&panel, Relation::NextSibling, UIError::Provider(E_FAIL));
    let buttons = UIMatcher::new(over(&walker)).contains_name("button");
    assert_eq!(index(buttons.find_first()), Ok(2));
    let window = UIElement::new(0, named("Window"));
    walker.fail(&window, Relation::FirstChild, UIError::Provider(E_FAIL));
    assert_eq!(index(UIMatcher::new(over(&walker)).find_first()), Ok(0));
}

#[test]
fn failure_under_the_depth_limit_is_not_met() {
    let mut walker = sample();
    let label = UIElement::new(3, named("Label"));
    walker.fail(&label, Relation::FirstChild, UIError::Provider(E_FAIL));
    let shallow = UIMatcher::new(over(&walker)).depth(3);
    assert_eq!(indices(shallow.find_all()), Ok(vec![0, 1, 2, 3, 5]));
    let deeper = UIMatcher::new(over(&walker)).depth(4);
    assert_eq!(indices(deeper.find_all()), Err(UIError::Provider(E_FAIL)));
}

#[test]
fn absent_relatives_end_a_branch_without_failure() {
    let mut walker = sample();
    let panel = UIElement::new(1, named("Panel"));
    walker.fail(&panel, Relation::NextSibling, UIError::NoSuchElement);
    let all = UIMatcher::new(over(&walker)).find_all();
    assert_eq!(indices(all), Ok(vec![0, 1, 2, 3, 4]));
}

#[test]
fn failed_name_read_is_returned() {
    let mut walker = UITreeWalker::new();
    let window = walker.add_root(named("Window"));
    walker.add_child(&window, named("Submit Button")).unwrap();
    walker.add_child(&window, Err(UIError::Provider(ELEMENT_NOT_AVAILABLE))).unwrap();
    walker.add_child(&window, named("Cancel Button")).unwrap();

    let cancel = UIMatcher::new(over(&walker)).contains_name("cancel");
    assert_eq!(index(cancel.find_first()), Err(UIError::Provider(ELEMENT_NOT_AVAILABLE)));
    assert_eq!(indices(cancel.find_all()), Err(UIError::Provider(ELEMENT_NOT_AVAILABLE)));
    let submit = UIMatcher::new(over(&walker)).contains_name("submit");
    assert_eq!(index(submit.find_first()), Ok(1));
    assert_eq!(indices(submit.find_all()), Err(UIError::Provider(ELEMENT_NOT_AVAILABLE)));
    assert_eq!(indices(UIMatcher::new(over(&walker)).find_all()), Ok(vec![0, 1, 2, 3]));
}

#[test]
fn failed_judgement_is_returned() {
    let walker = sample();
    let matcher = UIMatcher::new(over(&walker)).filter(Box::new(FailsAt(3)));
    assert_eq!(indices(matcher.find_all()), Err(UIError::Provider(E_FAIL)));
    assert_eq!(index(matcher.find_first()), Err(UIError::Provider(E_FAIL)));
    let shallow = UIMatcher::new(over(&walker)).depth(2).filter(Box::new(FailsAt(3)));
    assert_eq!(indices(shallow.find_all()), Err(UIError::NotFound));
}

#[test]
fn later_condition_replaces_the_earlier_one() {
    let walker = sample();
    let matcher = UIMatcher::new(over(&walker)).contains_name("submit").contains_name("cancel");
    assert_eq!(indices(matcher.find_all()), Ok(vec![5]));
    let matcher = UIMatcher::new(over(&walker)).contains_name("button").match_name("label");
    assert_eq!(indices(matcher.find_all()), Ok(vec![3]));
}

#[test]
fn search_from_an_element_stays_in_its_subtree() {
    let walker = sample();
    let panel = UIElement::new(1, named("Panel"));
    let matcher = UIMatcher::new(over(&walker)).from(panel.clone());
    assert_eq!(indices(matcher.find_all()), Ok(vec![1, 2, 3, 4]));
    let shallow = UIMatcher::new(over(&walker)).from(panel.clone()).depth(2);
    assert_eq!(indices(shallow.find_all()), Ok(vec![1, 2, 3]));
    let cancel = UIMatcher::new(over(&walker)).from(panel).match_name("Cancel Button");
    assert_eq!(index(cancel.find_first()), Err(UIError::NotFound));
}

#[test]
fn search_from_an_unknown_element_examines_it_alone() {
    let walker = sample();
    let stranger = UIElement::new(40, named("Stranger Button"));
    let matcher = UIMatcher::new(over(&walker)).from(stranger).contains_name("button");
    assert_eq!(indices(matcher.find_all()), Ok(vec![40]));
}

#[test]
fn failure_to_get_the_root_is_returned() {
    let walker = sample();
    let facility = || {
        UIAutomation::from_answers(
            Err(UIError::Provider(E_FAIL)),
            Ok(walker.clone()),
        )
    };
    assert_eq!(index(UIMatcher::new(facility()).find_first()), Err(UIError::Provider(E_FAIL)));
    assert_eq!(indices(UIMatcher::new(facility()).find_all()), Err(UIError::Provider(E_FAIL)));
    let panel = UIElement::new(1, named("Panel"));
    assert_eq!(indices(UIMatcher::new(facility()).from(panel).depth(1).find_all()), Ok(vec![1]));
}

#[test]
fn failure_to_get_a_walker_is_returned() {
    let root = UIElement::new(0, named("Window"));
    let facility = UIAutomation::from_answers(
        Ok(root),
        Err(UIError::Provider(ELEMENT_NOT_AVAILABLE)),
    );
    let matcher = UIMatcher::new(facility);
    assert_eq!(index(matcher.find_first()), Err(UIError::Provider(ELEMENT_NOT_AVAILABLE)));
    assert_eq!(indices(matcher.find_all()), Err(UIError::Provider(ELEMENT_NOT_AVAILABLE)));
}

#[test]
fn root_is_asked_for_before_the_walker() {
    let facility = UIAutomation::from_answers(
        Err(UIError::Provider(E_FAIL)),
        Err(UIError::Provider(ELEMENT_NOT_AVAILABLE)),
    );
    assert_eq!(index(UIMatcher::new(facility).find_first()), Err(UIError::Provider(E_FAIL)));
}

#[test]
fn facility_hands_out_its_answers() {
    let walker = sample();
    let root = UIElement::new(0, named("Window"));
    let facility = UIAutomation::from_answers(Ok(root), Ok(walker));
    assert_eq!(index(facility.get_root_element()), Ok(0));
    assert_eq!(facility.get_root_element().unwrap().get_name(), named("Window"));
    let walker = facility.create_tree_walker().unwrap();
    assert_eq!(walker.len(), 6);
    let copy = facility.clone();
    assert_eq!(index(copy.get_root_element()), Ok(0));
    assert_eq!(copy.create_tree_walker().unwrap().len(), 6);

    let broken = UIAutomation::from_answers(
        Err(UIError::Provider(E_FAIL)),
        Err(UIError::Provider(ELEMENT_NOT_AVAILABLE)),
    );
    assert_eq!(index(broken.get_root_element()), Err(UIError::Provider(E_FAIL)));
    assert_eq!(broken.create_tree_walker().map(|w| w.len()), Err(UIError::Provider(ELEMENT_NOT_AVAILABLE)));
}

#[test]
fn facility_creates_a_matcher_with_the_defaults() {
    let walker = chain(8);
    let facility = over(&walker);
    let matcher = facility.create_matcher();
    assert_eq!(indices(matcher.find_all()), Ok(vec![0, 1, 2, 3, 4]));
    assert_eq!(index(matcher.find_first()), Ok(0));
}

#[test]
fn matcher_can_search_again() {
    let walker = sample();
    let matcher = UIMatcher::new(over(&walker)).contains_name("button");
    assert_eq!(indices(matcher.find_all()), Ok(vec![2, 4, 5]));
    assert_eq!(indices(matcher.find_all()), Ok(vec![2, 4, 5]));
    assert_eq!(index(matcher.find_first()), Ok(2));
}
