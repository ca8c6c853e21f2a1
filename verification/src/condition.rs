//! Conditions: the rules by which a search tells the elements it looks for
//! from the others.

use vstd::prelude::*;
use crate::element::UIElement;
use crate::errors::UIError;
use crate::text::{
    contains,
    eq_ignore_ascii_case,
    eq_ignoring_ascii_case,
    is_substring,
    lowercase_of,
    to_lowercase,
};

verus! {

/// A rule that an element satisfies or not. A judgement depends on nothing
/// but the condition and the element: `judged` names it, and `judge` computes
/// it. It may fail, as when a property that it needs cannot be read.
///
/// What is proved of a search holds of a condition whose `judge` returns what
/// its `judged` names. Of `NameCondition` that is proved here. An
/// implementation that is not verified writes the same judgement in both.
pub trait Condition {
    /// The judgement on an element.
    spec fn judged(&self, element: &UIElement) -> Result<bool, UIError>;

    /// Judges an element.
    fn judge(&self, element: &UIElement) -> (r: Result<bool, UIError>)
        ensures
            r == self.judged(element),
    ;
}

/// Whether `name` satisfies a condition on `value`, the two taken as they
/// are: a partial condition asks that the value occurs in the name, an exact
/// one that the two are equal, or equal but for the case of their ASCII
/// letters where case does not count.
pub open spec fn compared(
    value: Seq<char>,
    casesensitive: bool,
    partial: bool,
    name: Seq<char>,
) -> bool {
    if partial {
        is_substring(value, name)
    } else if casesensitive {
        name == value
    } else {
        eq_ignoring_ascii_case(name, value)
    }
}

/// Whether a display name `name` satisfies a name condition on `value`. A
/// partial condition for which case does not count compares the lowercase
/// forms of the two; every other condition compares the two as they are.
pub open spec fn name_matches(
    value: Seq<char>,
    casesensitive: bool,
    partial: bool,
    name: Seq<char>,
) -> bool {
    if partial && !casesensitive {
        compared(lowercase_of(value), casesensitive, partial, lowercase_of(name))
    } else {
        compared(value, casesensitive, partial, name)
    }
}

/// Compares a name with a value, the two taken as they are.
pub fn compare(value: &String, casesensitive: bool, partial: bool, name: &String) -> (r: bool)
    ensures
        r == compared(value@, casesensitive, partial, name@),
{
    if partial {
        contains(name.as_str(), value.as_str())
    } else if casesensitive {
        *name == *value
    } else {
        eq_ignore_ascii_case(name.as_str(), value.as_str())
    }
}

/// The judgement of a name condition on the answer to a read of the display
/// name: the failure of the read, or whether the name matches.
pub open spec fn name_judgement(
    value: Seq<char>,
    casesensitive: bool,
    partial: bool,
    name: Result<Seq<char>, UIError>,
) -> Result<bool, UIError> {
    match name {
        Ok(text) => Ok(name_matches(value, casesensitive, partial, text)),
        Err(error) => Err(error),
    }
}

/// A condition on the display name of an element.
pub struct NameCondition {
    value: String,
    casesensitive: bool,
    partial: bool,
}

impl NameCondition {
    /// The text that names are compared with.
    pub closed spec fn spec_value(&self) -> Seq<char> {
        self.value@
    }

    /// Whether capitals and small letters differ.
    pub closed spec fn spec_casesensitive(&self) -> bool {
        self.casesensitive
    }

    /// Whether the text need only occur in the name.
    pub closed spec fn spec_partial(&self) -> bool {
        self.partial
    }

    /// A condition that compares display names with `value`.
    pub fn new(value: &str, casesensitive: bool, partial: bool) -> (r: NameCondition)
        ensures
            r.spec_value() == value@,
            r.spec_casesensitive() == casesensitive,
            r.spec_partial() == partial,
    {
        NameCondition { value: value.to_owned(), casesensitive, partial }
    }
}

impl Condition for NameCondition {
    open spec fn judged(&self, element: &UIElement) -> Result<bool, UIError> {
        name_judgement(
            self.spec_value(),
            self.spec_casesensitive(),
            self.spec_partial(),
            element.spec_name(),
        )
    }

    fn judge(&self, element: &UIElement) -> (r: Result<bool, UIError>) {
        let element_name = match element.get_name() {
            Ok(name) => name,
            Err(error) => {
                return Err(error);
            },
        };

        Ok(
            if self.partial && !self.casesensitive {
                let element_name = to_lowercase(element_name.as_str());
                let condition_name = to_lowercase(self.value.as_str());

                compare(&condition_name, self.casesensitive, self.partial, &element_name)
            } else {
                compare(&self.value, self.casesensitive, self.partial, &element_name)
            },
        )
    }
}

} // verus!
