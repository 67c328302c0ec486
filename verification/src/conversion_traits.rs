//! Conversions to owned strings.

use vstd::prelude::*;
use crate::text::{chars_of, string_of};

verus! {

/// Values that are a text and can give it as an owned string.
pub trait PrimitiveOrOwnedStringToOwned {
    /// The text of the value.
    spec fn text(self) -> Seq<char>;

    /// The text of the value as an owned string.
    fn convert(self) -> (r: String)
        ensures
            r@ == self.text(),
    ;
}

impl PrimitiveOrOwnedStringToOwned for &str {
    open spec fn text(self) -> Seq<char> {
        self@
    }

    fn convert(self) -> (r: String) {
        string_of(&chars_of(self))
    }
}

impl PrimitiveOrOwnedStringToOwned for String {
    open spec fn text(self) -> Seq<char> {
        self@
    }

    fn convert(self) -> (r: String) {
        self
    }
}

} // verus!
