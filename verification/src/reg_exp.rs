//! The syntax tree of regular expressions.

use std::sync::Arc;
use vstd::prelude::*;

verus! {

/// A regular expression.
pub enum Expression {
    Empty,
    SingleCharacter(char),
    Text(String),
    /// Several expressions, one after the other.
    Sequence(Vec<Arc<Expression>>),
    /// `\k<Name>`: what the group `Name` has matched.
    BackReference(String),
}

} // verus!
