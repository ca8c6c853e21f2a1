//! Bounded-depth search over a UI accessibility tree.
//!
//! The accessibility provider is held as plain values: what it answered
//! when it was asked for an element's name, and for an element's parent,
//! children and siblings.
//!
//! - [`errors`]: the failures, and how a provider's error code is read.
//! - [`element`]: the handle to one element.
//! - [`tree`]: the table of a walker's answers, and the pre-order walk
//!   through it that goes no deeper than a limit.
//! - [`walker`], [`automation`]: the tree walker and the facility that hands
//!   out the root element and the walker.
//! - [`condition`], [`text`]: the rule that tells the elements looked for from
//!   the others, and the conditions on an element's name.
//! - [`matcher`]: the search for the first match and for all matches.
//! - [`search`]: the same search taken one question at a time, for a tree
//!   that has to be asked.
//! - [`theorems`], [`sequences`]: what holds of every search.

pub mod errors;
pub mod element;
pub mod text;
pub mod sequences;
pub mod tree;
pub mod walker;
pub mod automation;
pub mod condition;
pub mod matcher;
pub mod theorems;
pub mod search;
