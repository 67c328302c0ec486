//! Percent-encoding of URIs and of their components.

use vstd::prelude::*;
use vstd::utf8::{decode_utf8, encode_utf8, valid_utf8};
use crate::text::{append_chars, chars_of, string_of};

verus! {

/// The bytes that stand for themselves in a URI component: letters, digits
/// and `- _ . ! ~ * ' ( )`.
pub open spec fn is_unreserved(b: u8) -> bool {
    ||| 0x41 <= b <= 0x5A
    ||| 0x61 <= b <= 0x7A
    ||| 0x30 <= b <= 0x39
    ||| b == 0x2D
    ||| b == 0x5F
    ||| b == 0x2E
    ||| b == 0x21
    ||| b == 0x7E
    ||| b == 0x2A
    ||| b == 0x27
    ||| b == 0x28
    ||| b == 0x29
}

/// The bytes that stand for themselves in a whole URI but not in a
/// component: `; / ? : @ & = + , #`.
pub open spec fn is_delimiter(b: u8) -> bool {
    ||| b == 0x3B
    ||| b == 0x2F
    ||| b == 0x3F
    ||| b == 0x3A
    ||| b == 0x40
    ||| b == 0x26
    ||| b == 0x3D
    ||| b == 0x2B
    ||| b == 0x2C
    ||| b == 0x23
}

/// Whether the byte `b` is left as it is: in a component only the
/// unreserved bytes are, in a whole URI the delimiters too.
pub open spec fn is_kept(b: u8, component: bool) -> bool {
    is_unreserved(b) || (!component && is_delimiter(b))
}

/// The upper-case hexadecimal digit for `n`, which is below 16.
pub open spec fn hex_digit(n: u8) -> char {
    if n < 10 {
        (0x30 + n) as u8 as char
    } else {
        (0x41 + n - 10) as u8 as char
    }
}

/// `%` and the two hexadecimal digits of `b`.
pub open spec fn escape(b: u8) -> Seq<char> {
    seq!['%', hex_digit(b / 16), hex_digit(b % 16)]
}

/// `bytes` with each byte that is not kept written as its escape.
pub open spec fn encode_bytes(bytes: Seq<u8>, component: bool) -> Seq<char>
    decreases bytes.len(),
{
    if bytes.len() == 0 {
        Seq::<char>::empty()
    } else {
        encode_bytes(bytes.drop_last(), component) + (if is_kept(bytes.last(), component) {
            seq![bytes.last() as char]
        } else {
            escape(bytes.last())
        })
    }
}

/// The UTF-8 form of `text` with each byte that is not kept in a whole URI
/// written as its escape.
pub open spec fn encode_uri_spec(text: Seq<char>) -> Seq<char> {
    encode_bytes(encode_utf8(text), false)
}

/// The UTF-8 form of `text` with each byte that is not kept in a component
/// written as its escape.
pub open spec fn encode_uri_component_spec(text: Seq<char>) -> Seq<char> {
    encode_bytes(encode_utf8(text), true)
}

/// The value of the hexadecimal digit `c`, in either case.
pub open spec fn hex_value(c: char) -> Option<u8> {
    if '0' <= c && c <= '9' {
        Some((c as u32 - 0x30) as u8)
    } else if 'A' <= c && c <= 'F' {
        Some((c as u32 - 0x41 + 10) as u8)
    } else if 'a' <= c && c <= 'f' {
        Some((c as u32 - 0x61 + 10) as u8)
    } else {
        None
    }
}

/// Whether an escape stands at `at`: `%` and two hexadecimal digits.
pub open spec fn escape_at(text: Seq<char>, at: int) -> bool {
    &&& 0 <= at
    &&& at + 2 < text.len()
    &&& text[at] == '%'
    &&& hex_value(text[at + 1]) is Some
    &&& hex_value(text[at + 2]) is Some
}

/// The byte that the escape at `at` stands for.
pub open spec fn escaped_byte(text: Seq<char>, at: int) -> u8 {
    (hex_value(text[at + 1])->0 * 16 + hex_value(text[at + 2])->0) as u8
}

/// A stretch of a text with escapes.
pub enum UriPart {
    /// Characters that stand for themselves.
    Literal(Vec<char>),
    /// The bytes of a run of escapes.
    Escaped(Vec<u8>),
}

/// A stretch of a text with escapes, as a value of specifications.
pub enum UriPartView {
    Literal(Seq<char>),
    Escaped(Seq<u8>),
}

impl View for UriPart {
    type V = UriPartView;

    open spec fn view(&self) -> UriPartView {
        match self {
            UriPart::Literal(chars) => UriPartView::Literal(chars@),
            UriPart::Escaped(bytes) => UriPartView::Escaped(bytes@),
        }
    }
}

/// The views of `parts`.
pub open spec fn part_views(parts: Seq<UriPart>) -> Seq<UriPartView> {
    parts.map_values(|part: UriPart| part@)
}

/// `text` from `at` on, cut into its stretches, where `run` holds the bytes
/// of the escapes that stand directly before `at`: a character that starts
/// no escape is a literal of its own, and escapes that follow each other
/// form one run.
pub open spec fn parts_from(text: Seq<char>, at: int, run: Seq<u8>) -> Seq<UriPartView>
    decreases text.len() - at,
{
    if at >= text.len() || at < 0 {
        if run.len() > 0 {
            seq![UriPartView::Escaped(run)]
        } else {
            Seq::<UriPartView>::empty()
        }
    } else if escape_at(text, at) {
        parts_from(text, at + 3, run.push(escaped_byte(text, at)))
    } else {
        let rest = seq![UriPartView::Literal(seq![text[at]])] + parts_from(
            text,
            at + 1,
            Seq::<u8>::empty(),
        );
        if run.len() > 0 {
            seq![UriPartView::Escaped(run)] + rest
        } else {
            rest
        }
    }
}

/// The stretches of `text`.
pub open spec fn parts_of(text: Seq<char>) -> Seq<UriPartView> {
    parts_from(text, 0, Seq::<u8>::empty())
}

/// What the bytes of a run of escapes are read as: the text that they are
/// the UTF-8 form of, with U+FFFD in place of what is no UTF-8.
pub uninterp spec fn lossy_text(bytes: Seq<u8>) -> Seq<char>;

/// What the bytes of a run of escapes stand for: the text that they are
/// the UTF-8 form of where they are one, else what they are read as.
pub open spec fn run_text(bytes: Seq<u8>) -> Seq<char> {
    if valid_utf8(bytes) {
        decode_utf8(bytes)
    } else {
        lossy_text(bytes)
    }
}

/// What `part` stands for.
pub open spec fn part_text(part: UriPartView) -> Seq<char> {
    match part {
        UriPartView::Literal(chars) => chars,
        UriPartView::Escaped(bytes) => run_text(bytes),
    }
}

/// What `parts` stand for, one after the other.
pub open spec fn parts_text(parts: Seq<UriPartView>) -> Seq<char>
    decreases parts.len(),
{
    if parts.len() == 0 {
        Seq::<char>::empty()
    } else {
        parts_text(parts.drop_last()) + part_text(parts.last())
    }
}

/// `text` with each run of escapes replaced by what its bytes are read as.
pub open spec fn decode_uri_spec(text: Seq<char>) -> Seq<char> {
    parts_text(parts_of(text))
}

/// True iff the byte stands for itself.
fn kept(b: u8, component: bool) -> (r: bool)
    ensures
        r == is_kept(b, component),
{
    let unreserved = (0x41 <= b && b <= 0x5A) || (0x61 <= b && b <= 0x7A) || (0x30 <= b && b
        <= 0x39) || b == 0x2D || b == 0x5F || b == 0x2E || b == 0x21 || b == 0x7E || b == 0x2A || b
        == 0x27 || b == 0x28 || b == 0x29;
    let delimiter = b == 0x3B || b == 0x2F || b == 0x3F || b == 0x3A || b == 0x40 || b == 0x26 || b
        == 0x3D || b == 0x2B || b == 0x2C || b == 0x23;
    unreserved || (!component && delimiter)
}

/// The upper-case hexadecimal digit for `n`.
fn digit(n: u8) -> (r: char)
    requires
        n < 16,
    ensures
        r == hex_digit(n),
{
    if n < 10 {
        (0x30 + n) as char
    } else {
        (0x41 + n - 10) as char
    }
}

/// The two upper-case hexadecimal digits of `octet`.
pub fn octet_to_hex(octet: u8) -> (r: String)
    ensures
        r@ == seq![hex_digit(octet / 16), hex_digit(octet % 16)],
{
    let mut chars: Vec<char> = Vec::new();
    chars.push(digit(octet / 16));
    chars.push(digit(octet % 16));
    assert(chars@ == seq![hex_digit(octet / 16), hex_digit(octet % 16)]);
    string_of(&chars)
}

/// Writes `bytes` with each byte that is not kept as its escape.
fn encode(bytes: &[u8], component: bool) -> (r: Vec<char>)
    ensures
        r@ == encode_bytes(bytes@, component),
{
    let mut r: Vec<char> = Vec::new();
    let mut i: usize = 0;
    assert(bytes@.take(0) == Seq::<u8>::empty());
    while i < bytes.len()
        invariant
            0 <= i <= bytes.len(),
            r@ == encode_bytes(bytes@.take(i as int), component),
        decreases bytes.len() - i,
    {
        let b = bytes[i];
        proof {
            assert(bytes@.take(i + 1).drop_last() == bytes@.take(i as int));
            assert(bytes@.take(i + 1).last() == b);
        }
        let ghost before = r@;
        if kept(b, component) {
            r.push(b as char);
            assert(r@ == before + seq![b as char]);
        } else {
            r.push('%');
            r.push(digit(b / 16));
            r.push(digit(b % 16));
            assert(r@ == before + escape(b));
        }
        i += 1;
    }
    assert(bytes@.take(bytes.len() as int) == bytes@);
    r
}

/// Escapes a URI: every byte of the UTF-8 form of `s` is written as `%` and
/// two upper-case hexadecimal digits, except letters, digits and
/// `- _ . ! ~ * ' ( ) ; / ? : @ & = + , #`.
pub fn encode_uri(s: &str) -> (r: String)
    ensures
        r@ == encode_uri_spec(s@),
{
    string_of(&encode(s.as_bytes(), false))
}

/// Escapes a component of a URI: every byte of the UTF-8 form of `s` is
/// written as `%` and two upper-case hexadecimal digits, except letters,
/// digits and `- _ . ! ~ * ' ( )`.
pub fn encode_uri_component(s: &str) -> (r: String)
    ensures
        r@ == encode_uri_component_spec(s@),
{
    string_of(&encode(s.as_bytes(), true))
}

/// The value of `c` as a hexadecimal digit.
fn value_of(c: char) -> (r: Option<u8>)
    ensures
        r == hex_value(c),
        r is Some ==> r->0 < 16,
{
    if '0' <= c && c <= '9' {
        Some((c as u32 - 0x30) as u8)
    } else if 'A' <= c && c <= 'F' {
        Some((c as u32 - 0x41 + 10) as u8)
    } else if 'a' <= c && c <= 'f' {
        Some((c as u32 - 0x61 + 10) as u8)
    } else {
        None
    }
}

/// The byte of the escape at `at`, if one stands there.
fn escape_here(text: &Vec<char>, at: usize) -> (r: Option<u8>)
    requires
        at < text.len(),
    ensures
        r is Some <==> escape_at(text@, at as int),
        r is Some ==> r->0 == escaped_byte(text@, at as int),
{
    if text.len() - at < 3 || text[at] != '%' {
        return None;
    }
    match value_of(text[at + 1]) {
        None => None,
        Some(high) => match value_of(text[at + 2]) {
            None => None,
            Some(low) => Some(high * 16 + low),
        },
    }
}

/// Cuts `text` into the characters that stand for themselves and the runs
/// of escapes between them, each run given by its bytes.
pub fn split_escapes(text: &str) -> (r: Vec<UriPart>)
    ensures
        part_views(r@) == parts_of(text@),
{
    let chars = chars_of(text);
    let mut parts: Vec<UriPart> = Vec::new();
    let mut run: Vec<u8> = Vec::new();
    let mut i: usize = 0;
    assert(part_views(parts@) == Seq::<UriPartView>::empty());
    while i < chars.len()
        invariant
            0 <= i <= chars.len(),
            chars@ == text@,
            parts_of(text@) == part_views(parts@) + parts_from(text@, i as int, run@),
        decreases chars.len() - i,
    {
        let ghost before = part_views(parts@);
        match escape_here(&chars, i) {
            Some(byte) => {
                run.push(byte);
                i += 3;
            },
            None => {
                let ghost old_run = run@;
                let ghost tail = parts_from(text@, i + 1, Seq::<u8>::empty());
                let ghost literal_part = UriPartView::Literal(seq![text@[i as int]]);
                assert(parts_from(text@, i as int, old_run) == if old_run.len() > 0 {
                    seq![UriPartView::Escaped(old_run)] + (seq![literal_part] + tail)
                } else {
                    seq![literal_part] + tail
                });
                if run.len() > 0 {
                    let ghost bytes = run@;
                    parts.push(UriPart::Escaped(run));
                    run = Vec::new();
                    assert(part_views(parts@) == before.push(UriPartView::Escaped(bytes)));
                }
                let ghost middle = part_views(parts@);
                let mut literal: Vec<char> = Vec::new();
                literal.push(chars[i]);
                assert(literal@ == seq![text@[i as int]]);
                parts.push(UriPart::Literal(literal));
                assert(part_views(parts@) == middle.push(UriPartView::Literal(seq![text@[i as int]])));
                i += 1;
                assert(run@ =~= Seq::<u8>::empty());
                assert(part_views(parts@) + tail =~= before + parts_from(
                    text@,
                    i - 1,
                    old_run,
                ));
            },
        }
    }
    if run.len() > 0 {
        let ghost before = part_views(parts@);
        let ghost bytes = run@;
        parts.push(UriPart::Escaped(run));
        assert(part_views(parts@) == before.push(UriPartView::Escaped(bytes)));
    }
    assert(part_views(parts@) =~= parts_of(text@));
    parts
}

/// `String::from_utf8_lossy` of std: the text that `bytes` are the UTF-8
/// form of, where each stretch that is no UTF-8 gives U+FFFD. Bytes that
/// are well-formed UTF-8 come back as the text they encode.
#[verifier::external_body]
fn decode_lossy(bytes: &Vec<u8>) -> (r: String)
    ensures
        r@ == lossy_text(bytes@),
        valid_utf8(bytes@) ==> r@ == decode_utf8(bytes@),
{
    String::from_utf8_lossy(bytes).into_owned()
}

/// Reads a text with escapes: each run of escapes, `%` and two hexadecimal
/// digits each, is replaced by the text that its bytes are the UTF-8 form
/// of. A `%` that starts no escape stays as it is.
pub fn decode_uri(s: &str) -> (r: String)
    ensures
        r@ == decode_uri_spec(s@),
{
    let parts = split_escapes(s);
    let mut r: Vec<char> = Vec::new();
    let mut i: usize = 0;
    assert(part_views(parts@).take(0) == Seq::<UriPartView>::empty());
    while i < parts.len()
        invariant
            0 <= i <= parts.len(),
            r@ == parts_text(part_views(parts@).take(i as int)),
        decreases parts.len() - i,
    {
        proof {
            assert(part_views(parts@).take(i + 1).drop_last() == part_views(parts@).take(
                i as int,
            ));
            assert(part_views(parts@).take(i + 1).last() == parts@[i as int]@);
        }
        match &parts[i] {
            UriPart::Literal(chars) => {
                append_chars(&mut r, chars);
            },
            UriPart::Escaped(bytes) => {
                let decoded = chars_of(decode_lossy(bytes).as_str());
                append_chars(&mut r, &decoded);
            },
        }
        i += 1;
    }
    assert(part_views(parts@).take(parts.len() as int) == part_views(parts@));
    string_of(&r)
}

/// Reads a component with escapes, as `decode_uri` reads a whole URI.
pub fn decode_uri_component(s: &str) -> (r: String)
    ensures
        r@ == decode_uri_spec(s@),
{
    decode_uri(s)
}

} // verus!
