//! What is escaped can be read again.

use vstd::prelude::*;
use vstd::utf8::{
    char_is_scalar, char_u32_cast, decode_utf8, encode_scalar, encode_utf8,
    encode_utf8_decode_utf8, encode_utf8_valid_utf8, has_width_1_encoding, has_width_2_encoding,
    has_width_3_encoding, valid_utf8,
};
use crate::string::code_points_reader::lemma_encode_push;
use crate::uri::{
    decode_uri_spec, encode_bytes, encode_uri_component_spec, encode_uri_spec, escape, escape_at,
    escaped_byte, hex_digit, hex_value, is_kept, part_text, parts_from, parts_text, run_text,
    UriPartView,
};

verus! {

/// Bytes written one after the other are escaped one after the other.
pub proof fn lemma_encode_bytes_concat(first: Seq<u8>, second: Seq<u8>, component: bool)
    ensures
        encode_bytes(first + second, component) == encode_bytes(first, component) + encode_bytes(
            second,
            component,
        ),
    decreases second.len(),
{
    if second.len() == 0 {
        assert(first + second == first);
    } else {
        lemma_encode_bytes_concat(first, second.drop_last(), component);
        assert((first + second).drop_last() == first + second.drop_last());
        assert((first + second).last() == second.last());
    }
}

/// What one byte is written as.
pub proof fn lemma_encode_one_byte(byte: u8, component: bool)
    ensures
        encode_bytes(seq![byte], component) == if is_kept(byte, component) {
            seq![byte as char]
        } else {
            escape(byte)
        },
{
    assert(seq![byte].drop_last() == Seq::<u8>::empty());
    assert(encode_bytes(seq![byte].drop_last(), component) == Seq::<char>::empty());
}

/// Stretches that stand one after the other stand for their texts one after
/// the other.
pub proof fn lemma_parts_text_concat(first: Seq<UriPartView>, second: Seq<UriPartView>)
    ensures
        parts_text(first + second) == parts_text(first) + parts_text(second),
    decreases second.len(),
{
    if second.len() == 0 {
        assert(first + second == first);
    } else {
        lemma_parts_text_concat(first, second.drop_last());
        assert((first + second).drop_last() == first + second.drop_last());
        assert((first + second).last() == second.last());
    }
}

/// One stretch stands for its text.
pub proof fn lemma_parts_text_one(part: UriPartView)
    ensures
        parts_text(seq![part]) == part_text(part),
{
    assert(seq![part].drop_last() == Seq::<UriPartView>::empty());
    assert(parts_text(seq![part].drop_last()) == Seq::<char>::empty());
}

/// A hexadecimal digit is read as the number it was written for.
pub proof fn lemma_hex_digit(n: u8)
    requires
        n < 16,
    ensures
        hex_value(hex_digit(n)) == Some(n),
{
    let c = hex_digit(n);
    if n < 10 {
        let b = (0x30 + n) as u8;
        assert(c as u32 == b as u32);
    } else {
        let b = (0x41 + n - 10) as u8;
        assert(c as u32 == b as u32);
    }
}

/// An escape is read as the byte it was written for.
pub proof fn lemma_escape_read(text: Seq<char>, at: int, byte: u8)
    requires
        0 <= at,
        at + 3 <= text.len(),
        text.subrange(at, at + 3) == escape(byte),
    ensures
        escape_at(text, at),
        escaped_byte(text, at) == byte,
{
    let written = text.subrange(at, at + 3);
    assert(text[at] == written[0]);
    assert(text[at + 1] == written[1]);
    assert(text[at + 2] == written[2]);
    lemma_hex_digit(byte / 16);
    lemma_hex_digit(byte % 16);
}

/// No byte of `bytes` stands for itself.
pub open spec fn all_escaped(bytes: Seq<u8>, component: bool) -> bool {
    forall|i: int| 0 <= i < bytes.len() ==> !is_kept(#[trigger] bytes[i], component)
}

/// Where the escapes of `bytes` stand at `at`, they are read as one run:
/// the bytes join the run that stood before them.
pub proof fn lemma_escaped_run(
    text: Seq<char>,
    at: int,
    bytes: Seq<u8>,
    tail: Seq<char>,
    run: Seq<u8>,
    component: bool,
)
    requires
        0 <= at <= text.len(),
        all_escaped(bytes, component),
        text.skip(at) == encode_bytes(bytes, component) + tail,
    ensures
        at + 3 * bytes.len() <= text.len(),
        text.skip(at + 3 * bytes.len()) == tail,
        parts_from(text, at, run) == parts_from(text, at + 3 * bytes.len(), run + bytes),
    decreases bytes.len(),
{
    if bytes.len() == 0 {
        assert(encode_bytes(bytes, component) == Seq::<char>::empty());
        assert(encode_bytes(bytes, component) + tail == tail);
        assert(run + bytes == run);
    } else {
        let first = bytes[0];
        let rest = bytes.drop_first();
        assert(seq![first] + rest == bytes);
        lemma_encode_bytes_concat(seq![first], rest, component);
        lemma_encode_one_byte(first, component);
        assert(!is_kept(bytes[0], component));
        let after = encode_bytes(rest, component) + tail;
        assert(text.skip(at) == escape(first) + after) by {
            assert(encode_bytes(bytes, component) + tail == escape(first) + (encode_bytes(
                rest,
                component,
            ) + tail));
        }
        assert(text.skip(at).len() >= 3);
        assert(text.subrange(at, at + 3) == escape(first)) by {
            assert(text.subrange(at, at + 3) =~= text.skip(at).take(3));
            assert(text.skip(at).take(3) =~= escape(first));
        }
        lemma_escape_read(text, at, first);
        assert(text.skip(at + 3) == after) by {
            assert(text.skip(at + 3) =~= text.skip(at).skip(3));
            assert((escape(first) + after).skip(3) =~= after);
        }
        assert forall|i: int| 0 <= i < rest.len() implies !is_kept(
            #[trigger] rest[i],
            component,
        ) by {
            assert(rest[i] == bytes[i + 1]);
        }
        lemma_escaped_run(text, at + 3, rest, tail, run.push(first), component);
        assert(run.push(first) + rest == run + bytes);
    }
}

/// The UTF-8 form of one character: a single byte that is the character, or
/// two to four bytes none of which stands for itself.
pub proof fn lemma_scalar_bytes(c: char, component: bool)
    ensures
        1 <= encode_scalar(c as u32).len() <= 4,
        encode_scalar(c as u32).len() == 1 ==> encode_scalar(c as u32)[0] as char == c
            && encode_scalar(c as u32)[0] < 0x80,
        encode_scalar(c as u32).len() > 1 ==> all_escaped(encode_scalar(c as u32), component),
{
    char_is_scalar(c);
    let v = c as u32;
    let bytes = encode_scalar(v);
    if has_width_1_encoding(v) {
        assert((v & 0x7F) as u8 == v) by (bit_vector)
            requires
                v <= 0x7F,
        ;
        char_u32_cast(c, v);
        assert(bytes[0] as u32 == v);
    } else {
        assert forall|i: int| 0 <= i < bytes.len() implies !is_kept(
            #[trigger] bytes[i],
            component,
        ) by {
            let a = ((v >> 6) & 0x1F) as u8;
            let b = ((v >> 12) & 0x0F) as u8;
            let d = ((v >> 18) & 0x7) as u8;
            let e = (v & 0x3F) as u8;
            let f = ((v >> 6) & 0x3F) as u8;
            let g = ((v >> 12) & 0x3F) as u8;
            assert(0xC0u8 | a >= 0x80) by (bit_vector);
            assert(0xE0u8 | b >= 0x80) by (bit_vector);
            assert(0xF0u8 | d >= 0x80) by (bit_vector);
            assert(0x80u8 | e >= 0x80) by (bit_vector);
            assert(0x80u8 | f >= 0x80) by (bit_vector);
            assert(0x80u8 | g >= 0x80) by (bit_vector);
            assert(bytes[i] >= 0x80);
        }
    }
}

/// The stretch that a run of bytes makes, if it holds any.
pub open spec fn run_part(run: Seq<u8>) -> Seq<UriPartView> {
    if run.len() > 0 {
        seq![UriPartView::Escaped(run)]
    } else {
        Seq::<UriPartView>::empty()
    }
}

/// The run that is the UTF-8 form of `pending` stands for `pending`.
pub proof fn lemma_run_of_text(pending: Seq<char>)
    ensures
        parts_text(run_part(encode_utf8(pending))) == pending,
{
    encode_utf8_valid_utf8(pending);
    encode_utf8_decode_utf8(pending);
    let run = encode_utf8(pending);
    if run.len() > 0 {
        lemma_parts_text_one(UriPartView::Escaped(run));
    } else {
        if pending.len() > 0 {
            lemma_scalar_bytes(pending[0], true);
        }
        assert(pending == Seq::<char>::empty());
    }
}

/// From `at` on, `text` is `rest` escaped, and before `at` stood the
/// escapes of `pending`: read from there, the text stands for `pending` and
/// `rest`.
pub proof fn lemma_read_escaped(
    text: Seq<char>,
    at: int,
    pending: Seq<char>,
    rest: Seq<char>,
    component: bool,
)
    requires
        0 <= at <= text.len(),
        text.skip(at) == encode_bytes(encode_utf8(rest), component),
    ensures
        parts_text(parts_from(text, at, encode_utf8(pending))) == pending + rest,
    decreases rest.len(),
{
    let run = encode_utf8(pending);
    lemma_run_of_text(pending);
    if rest.len() == 0 {
        assert(encode_utf8(rest) == Seq::<u8>::empty());
        assert(encode_bytes(encode_utf8(rest), component) == Seq::<char>::empty());
        assert(text.skip(at).len() == 0);
        assert(at == text.len());
        assert(parts_from(text, at, run) == run_part(run));
        assert(pending + rest == pending);
    } else {
        let c = rest[0];
        let later = rest.drop_first();
        let bytes = encode_scalar(c as u32);
        lemma_scalar_bytes(c, component);
        lemma_encode_bytes_concat(bytes, encode_utf8(later), component);
        let tail = encode_bytes(encode_utf8(later), component);
        assert(text.skip(at) == encode_bytes(bytes, component) + tail);
        if bytes.len() == 1 && is_kept(bytes[0], component) {
            assert(bytes == seq![bytes[0]]);
            lemma_encode_one_byte(bytes[0], component);
            assert(text.skip(at) == seq![c] + tail);
            assert(text[at] == text.skip(at)[0]);
            assert(text[at] == c);
            assert(c != '%') by {
                assert(bytes[0] != 0x25);
                assert('%' as u32 == 0x25);
            }
            assert(!escape_at(text, at));
            assert(text.skip(at + 1) == tail) by {
                assert(text.skip(at + 1) =~= text.skip(at).skip(1));
                assert((seq![c] + tail).skip(1) =~= tail);
            }
            assert(encode_utf8(Seq::<char>::empty()) == Seq::<u8>::empty());
            lemma_read_escaped(text, at + 1, Seq::<char>::empty(), later, component);
            let literal = seq![UriPartView::Literal(seq![text[at]])];
            let after = parts_from(text, at + 1, Seq::<u8>::empty());
            assert(parts_from(text, at, run) == run_part(run) + (literal + after));
            lemma_parts_text_concat(run_part(run), literal + after);
            lemma_parts_text_concat(literal, after);
            lemma_parts_text_one(UriPartView::Literal(seq![text[at]]));
            assert(pending + (seq![c] + (Seq::<char>::empty() + later)) == pending + rest) by {
                assert(Seq::<char>::empty() + later == later);
                assert(seq![c] + later == rest);
            }
        } else {
            assert(all_escaped(bytes, component)) by {
                if bytes.len() == 1 {
                    assert(!is_kept(bytes[0], component));
                }
            }
            lemma_escaped_run(text, at, bytes, tail, run, component);
            lemma_encode_push(pending, c);
            lemma_read_escaped(text, at + 3 * bytes.len(), pending.push(c), later, component);
            assert(pending.push(c) + later == pending + rest) by {
                assert(seq![c] + later == rest);
                assert(pending.push(c) + later =~= pending + (seq![c] + later));
            }
        }
    }
}

/// Reading what `encode_uri` has written gives the text back.
pub proof fn law_decode_uri_of_encoded(text: Seq<char>)
    ensures
        decode_uri_spec(encode_uri_spec(text)) == text,
{
    let written = encode_uri_spec(text);
    assert(written.skip(0) == written);
    assert(encode_utf8(Seq::<char>::empty()) == Seq::<u8>::empty());
    lemma_read_escaped(written, 0, Seq::<char>::empty(), text, false);
    assert(Seq::<char>::empty() + text == text);
}

/// Reading what `encode_uri_component` has written gives the text back.
pub proof fn law_decode_uri_component_of_encoded(text: Seq<char>)
    ensures
        decode_uri_spec(encode_uri_component_spec(text)) == text,
{
    let written = encode_uri_component_spec(text);
    assert(written.skip(0) == written);
    assert(encode_utf8(Seq::<char>::empty()) == Seq::<u8>::empty());
    lemma_read_escaped(written, 0, Seq::<char>::empty(), text, true);
    assert(Seq::<char>::empty() + text == text);
}

/// A stretch without `%` stands for itself.
pub proof fn lemma_literal_stretch(text: Seq<char>, from: int, at: int)
    requires
        0 <= from <= at <= text.len(),
        forall|i: int| from <= i < at ==> text[i] != '%',
    ensures
        parts_text(parts_from(text, from, Seq::<u8>::empty())) == text.subrange(from, at)
            + parts_text(parts_from(text, at, Seq::<u8>::empty())),
    decreases at - from,
{
    let nothing = Seq::<u8>::empty();
    if from == at {
        assert(text.subrange(from, at) == Seq::<char>::empty());
        assert(Seq::<char>::empty() + parts_text(parts_from(text, at, nothing)) == parts_text(
            parts_from(text, at, nothing),
        ));
    } else {
        assert(text[from] != '%');
        assert(!escape_at(text, from));
        let literal = seq![UriPartView::Literal(seq![text[from]])];
        let after = parts_from(text, from + 1, nothing);
        assert(parts_from(text, from, nothing) == literal + after);
        lemma_parts_text_concat(literal, after);
        lemma_parts_text_one(UriPartView::Literal(seq![text[from]]));
        lemma_literal_stretch(text, from + 1, at);
        assert(seq![text[from]] + (text.subrange(from + 1, at) + parts_text(
            parts_from(text, at, nothing),
        )) =~= text.subrange(from, at) + parts_text(parts_from(text, at, nothing)));
    }
}

/// What is written for a text starts with the first character of the text
/// or with `%`; for nothing, nothing is written.
pub proof fn lemma_encoded_start(text: Seq<char>, component: bool)
    ensures
        text.len() == 0 ==> encode_bytes(encode_utf8(text), component).len() == 0,
        text.len() > 0 ==> encode_bytes(encode_utf8(text), component).len() > 0 && (
        encode_bytes(encode_utf8(text), component)[0] == text[0] || encode_bytes(
            encode_utf8(text),
            component,
        )[0] == '%'),
{
    if text.len() == 0 {
        assert(encode_utf8(text) == Seq::<u8>::empty());
    } else {
        let c = text[0];
        let bytes = encode_scalar(c as u32);
        lemma_scalar_bytes(c, component);
        lemma_encode_bytes_concat(bytes, encode_utf8(text.drop_first()), component);
        assert(seq![bytes[0]] + bytes.drop_first() == bytes);
        lemma_encode_bytes_concat(seq![bytes[0]], bytes.drop_first(), component);
        lemma_encode_one_byte(bytes[0], component);
        let first = encode_bytes(seq![bytes[0]], component);
        assert(first.len() > 0);
        assert(encode_bytes(bytes, component)[0] == first[0]);
        if bytes.len() > 1 {
            assert(!is_kept(bytes[0], component));
        }
    }
}

/// A `/` before a text is written as it is when a whole URI is written.
pub proof fn lemma_encode_after_slash(text: Seq<char>)
    ensures
        encode_uri_spec(seq!['/'] + text) == seq!['/'] + encode_uri_spec(text),
{
    let whole = seq!['/'] + text;
    assert(whole[0] == '/');
    assert(whole.drop_first() == text);
    let bytes = encode_scalar('/' as u32);
    lemma_scalar_bytes('/', false);
    assert('/' as u32 == 0x2F);
    assert(bytes.len() == 1);
    assert(bytes[0] as char == '/');
    assert(bytes[0] == 0x2F) by {
        assert(bytes[0] as char as u32 == 0x2F);
    }
    assert(bytes == seq![bytes[0]]);
    lemma_encode_bytes_concat(bytes, encode_utf8(text), false);
    lemma_encode_one_byte(bytes[0], false);
}

} // verus!
