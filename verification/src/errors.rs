//! Failures that a search, a tree walker or a property read can report.

use vstd::prelude::*;

verus! {

/// Why an operation gave no value.
#[derive(Clone, Copy, Debug, PartialEq, Eq, Structural)]
pub enum UIError {
    /// A search ran to its end and no element satisfied the condition.
    NotFound,
    /// The tree holds no element in the place that was asked for: no parent,
    /// no child, no further sibling.
    NoSuchElement,
    /// The accessibility provider failed; the field is its `HRESULT`.
    Provider(i32),
}

/// The error type of the `windows` crate. Nothing is known of an error but
/// its `HRESULT`.
#[verifier::external_type_specification]
#[verifier::external_body]
pub struct ExWindowsError(windows::core::Error);

/// The `HRESULT` that a `windows::core::Error` carries.
pub uninterp spec fn hresult_of(error: windows::core::Error) -> i32;

impl UIError {
    /// What an `HRESULT` found in a provider error means. A call that
    /// succeeds and hands back no element is reported as an error with a
    /// success code, and success codes are the non-negative ones.
    pub open spec fn spec_from_hresult(code: i32) -> UIError {
        if code >= 0 {
            UIError::NoSuchElement
        } else {
            UIError::Provider(code)
        }
    }

    /// Classifies the `HRESULT` of a provider error.
    pub fn from_hresult(code: i32) -> (error: UIError)
        ensures
            error == Self::spec_from_hresult(code),
    {
        if code >= 0 {
            UIError::NoSuchElement
        } else {
            UIError::Provider(code)
        }
    }

    /// Classifies an error of the `windows` crate by its `HRESULT`.
    pub fn from_windows(error: &windows::core::Error) -> (r: UIError)
        ensures
            r == Self::spec_from_hresult(hresult_of(*error)),
    {
        UIError::from_hresult(hresult(error))
    }

    /// True for every failure but the plain absence of an element.
    pub open spec fn spec_is_failure(&self) -> bool {
        !(self is NoSuchElement)
    }

    /// Tells a failure from the plain absence of an element, which ends a
    /// branch of a walk without ending the walk.
    #[verifier::when_used_as_spec(spec_is_failure)]
    pub fn is_failure(&self) -> (r: bool)
        ensures
            r == self.spec_is_failure(),
    {
        match self {
            UIError::NoSuchElement => false,
            _ => true,
        }
    }
}

/// Trusted: `windows::core::Error::code` hands back the `HRESULT` that the
/// error was made with, and the wrapper takes the integer out of it.
#[verifier::external_body]
fn hresult(error: &windows::core::Error) -> (code: i32)
    ensures
        code == hresult_of(*error),
{
    error.code().0
}

} // verus!
