//! The direction in which the text of a language is read.

use vstd::prelude::*;
use crate::text::{chars_of, same_chars};

verus! {

/// The direction in which a language's text is read.
#[derive(Clone, Copy, PartialEq, Eq, Structural, Debug)]
pub enum TextDirection {
    Ltr,
    Rtl,
}

/// A locale of ICU.
#[verifier::external_type_specification]
#[verifier::external_body]
pub struct ExLocale(icu::locid::Locale);

/// A language identifier of ICU.
#[verifier::external_type_specification]
#[verifier::external_body]
pub struct ExLanguageIdentifier(icu::locid::LanguageIdentifier);

/// A language subtag of ICU.
#[verifier::external_type_specification]
#[verifier::external_body]
pub struct ExLanguage(icu::locid::subtags::Language);

/// The language identifier of a locale.
pub uninterp spec fn identifier_of(locale: icu::locid::Locale) -> icu::locid::LanguageIdentifier;

/// The language subtag of a language identifier.
pub uninterp spec fn language_of(
    identifier: icu::locid::LanguageIdentifier,
) -> icu::locid::subtags::Language;

/// The code of a language subtag, in lower case.
pub uninterp spec fn code_of(language: icu::locid::subtags::Language) -> Seq<char>;

/// The field `id` of a `Locale`: its language identifier.
#[verifier::external_body]
fn locale_identifier(locale: &icu::locid::Locale) -> (r: icu::locid::LanguageIdentifier)
    ensures
        r == identifier_of(*locale),
{
    locale.id.clone()
}

/// The field `language` of a `LanguageIdentifier`: its language subtag.
#[verifier::external_body]
fn identifier_language(identifier: &icu::locid::LanguageIdentifier) -> (r:
    icu::locid::subtags::Language)
    ensures
        r == language_of(*identifier),
{
    identifier.language
}

/// `Language::as_str`: the code of the subtag.
#[verifier::external_body]
fn language_code(language: &icu::locid::subtags::Language) -> (r: String)
    ensures
        r@ == code_of(*language),
{
    language.as_str().to_owned()
}

/// The codes of the languages that are written from right to left: Arabic,
/// Aramaic, Azerbaijani, Divehi, Hebrew, Kurdish, Persian and Urdu, each by
/// its code of two letters and by its codes of three.
pub open spec fn rtl_codes() -> Seq<Seq<char>> {
    seq![
        seq!['a', 'r'],
        seq!['a', 'r', 'a'],
        seq!['a', 'r', 'c'],
        seq!['a', 'z'],
        seq!['a', 'z', 'e'],
        seq!['d', 'v'],
        seq!['d', 'i', 'v'],
        seq!['h', 'e'],
        seq!['h', 'e', 'b'],
        seq!['k', 'u'],
        seq!['k', 'u', 'r'],
        seq!['f', 'a'],
        seq!['p', 'e', 'r'],
        seq!['f', 'a', 's'],
        seq!['u', 'r'],
        seq!['u', 'r', 'd'],
    ]
}

/// The direction of the language with the code `code`.
pub open spec fn direction_of(code: Seq<char>) -> TextDirection {
    if rtl_codes().contains(code) {
        TextDirection::Rtl
    } else {
        TextDirection::Ltr
    }
}

/// The direction in which the language with the code `code` is read: from
/// right to left for the codes of `rtl_codes`, from left to right for every
/// other.
pub fn direction_of_code(code: &str) -> (r: TextDirection)
    ensures
        r == direction_of(code@),
{
    proof {
        reveal_strlit("ar");
        reveal_strlit("ara");
        reveal_strlit("arc");
        reveal_strlit("az");
        reveal_strlit("aze");
        reveal_strlit("dv");
        reveal_strlit("div");
        reveal_strlit("he");
        reveal_strlit("heb");
        reveal_strlit("ku");
        reveal_strlit("kur");
        reveal_strlit("fa");
        reveal_strlit("per");
        reveal_strlit("fas");
        reveal_strlit("ur");
        reveal_strlit("urd");
    }
    let codes: [&str; 16] = [
        "ar",
        "ara",
        "arc",
        "az",
        "aze",
        "dv",
        "div",
        "he",
        "heb",
        "ku",
        "kur",
        "fa",
        "per",
        "fas",
        "ur",
        "urd",
    ];
    proof {
        assert forall|j: int| 0 <= j < 16 implies (#[trigger] codes@[j])@ == rtl_codes()[j] by {
            assert(codes@[j]@ =~= rtl_codes()[j]);
        }
    }
    let text = chars_of(code);
    let mut i: usize = 0;
    while i < 16
        invariant
            0 <= i <= 16,
            text@ == code@,
            rtl_codes().len() == 16,
            forall|j: int| 0 <= j < 16 ==> (#[trigger] codes@[j])@ == rtl_codes()[j],
            forall|j: int| 0 <= j < i ==> rtl_codes()[j] != code@,
        decreases 16 - i,
    {
        let candidate = chars_of(codes[i]);
        if same_chars(&candidate, &text) {
            assert(rtl_codes()[i as int] == code@);
            return TextDirection::Rtl;
        }
        i += 1;
    }
    TextDirection::Ltr
}

/// What has a text direction.
pub trait HasTextDirection {
    /// The code of the language.
    spec fn language(&self) -> Seq<char>;

    /// The direction in which the text of the language is read.
    fn text_direction(&self) -> (r: TextDirection)
        ensures
            r == direction_of(self.language()),
    ;
}

impl HasTextDirection for icu::locid::subtags::Language {
    open spec fn language(&self) -> Seq<char> {
        code_of(*self)
    }

    fn text_direction(&self) -> (r: TextDirection) {
        direction_of_code(language_code(self).as_str())
    }
}

impl HasTextDirection for icu::locid::LanguageIdentifier {
    open spec fn language(&self) -> Seq<char> {
        code_of(language_of(*self))
    }

    fn text_direction(&self) -> (r: TextDirection) {
        identifier_language(self).text_direction()
    }
}

impl HasTextDirection for icu::locid::Locale {
    open spec fn language(&self) -> Seq<char> {
        code_of(language_of(identifier_of(*self)))
    }

    fn text_direction(&self) -> (r: TextDirection) {
        locale_identifier(self).text_direction()
    }
}

} // verus!
