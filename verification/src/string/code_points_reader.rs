//! Reading the code points of a string from left to right.

use vstd::prelude::*;
use vstd::utf8::{char_is_scalar, encode_scalar, encode_utf8};
use crate::text::{chars_of, slice_of, string_of};

verus! {

/// The UTF-8 form of a text with one more character is the UTF-8 form of
/// the text and then that of the character.
pub proof fn lemma_encode_push(text: Seq<char>, c: char)
    ensures
        encode_utf8(text.push(c)) == encode_utf8(text) + encode_scalar(c as u32),
    decreases text.len(),
{
    if text.len() == 0 {
        assert(text.push(c).drop_first() == Seq::<char>::empty());
        assert(encode_utf8(text.push(c)) == encode_scalar(c as u32) + encode_utf8(
            Seq::<char>::empty(),
        ));
        assert(encode_utf8(text.push(c)) =~= encode_utf8(text) + encode_scalar(c as u32));
    } else {
        assert(text.push(c).drop_first() == text.drop_first().push(c));
        lemma_encode_push(text.drop_first(), c);
        assert(encode_utf8(text.push(c)) =~= encode_utf8(text) + encode_scalar(c as u32));
    }
}

/// The UTF-8 form of a leading part of a text is no longer than that of the
/// text.
pub proof fn lemma_encode_take(text: Seq<char>, count: int)
    requires
        0 <= count <= text.len(),
    ensures
        encode_utf8(text.take(count)).len() <= encode_utf8(text).len(),
    decreases text.len() - count,
{
    if count == text.len() {
        assert(text.take(count) == text);
    } else {
        lemma_encode_take(text, count + 1);
        assert(text.take(count + 1) == text.take(count).push(text[count]));
        lemma_encode_push(text.take(count), text[count]);
    }
}

/// How many bytes the UTF-8 form of `c` has.
fn width(c: char) -> (r: usize)
    ensures
        r == encode_scalar(c as u32).len(),
        1 <= r <= 4,
{
    proof {
        char_is_scalar(c);
    }
    let n: u32 = c as u32;
    if n < 0x80 {
        1
    } else if n < 0x800 {
        2
    } else if n < 0x10000 {
        3
    } else {
        4
    }
}

/// A reader of the code points of a string, from left to right, that can
/// look ahead without moving.
#[derive(Clone, Debug)]
pub struct CodePointsReader {
    chars: Vec<char>,
    position: usize,
    offset: usize,
}

impl CodePointsReader {
    /// The text that is read.
    pub closed spec fn text(&self) -> Seq<char> {
        self.chars@
    }

    /// How many code points have been read.
    pub closed spec fn position(&self) -> nat {
        self.position as nat
    }

    /// The reader's invariant: the position lies within the text, and the
    /// UTF-8 form of the text has a length that a `usize` holds.
    pub closed spec fn wf(&self) -> bool {
        &&& self.position <= self.chars.len()
        &&& self.offset == encode_utf8(self.chars@.take(self.position as int)).len()
        &&& encode_utf8(self.chars@).len() <= usize::MAX
    }

    /// What is left to read.
    pub open spec fn remaining(&self) -> Seq<char> {
        self.text().skip(self.position() as int)
    }

    /// A reader never stands beyond the end of its text: what is left is
    /// empty exactly at the end.
    pub proof fn lemma_within(&self)
        requires
            self.wf(),
        ensures
            self.position() <= self.text().len(),
            self.remaining().len() == self.text().len() - self.position(),
    {
    }

    /// A reader at the start of `value`.
    pub fn from(value: &str) -> (r: Self)
        ensures
            r.wf(),
            r.text() == value@,
            r.position() == 0,
    {
        let bytes: usize = value.as_bytes().len();
        let chars = chars_of(value);
        assert(chars@.take(0) == Seq::<char>::empty());
        assert(encode_utf8(Seq::<char>::empty()).len() == 0);
        assert(encode_utf8(chars@).len() == bytes);
        CodePointsReader { chars, position: 0, offset: 0 }
    }

    /// A reader of `string` that has read `index` code points, or all of
    /// them where there are fewer.
    pub fn from_index(string: &str, index: usize) -> (r: Self)
        ensures
            r.wf(),
            r.text() == string@,
            r.position() == if index <= string@.len() {
                index as nat
            } else {
                string@.len()
            },
    {
        let mut r = CodePointsReader::from(string);
        let mut i: usize = 0;
        while i < index && r.has_remaining()
            invariant
                r.wf(),
                r.text() == string@,
                i <= index,
                r.position() == i,
                i <= string@.len(),
            decreases index - i,
        {
            r.next_or_zero();
            i += 1;
        }
        r
    }

    /// Whether there are code points left to read.
    pub fn has_remaining(&self) -> (r: bool)
        requires
            self.wf(),
        ensures
            r == (self.position() < self.text().len()),
            r == (self.remaining().len() > 0),
    {
        self.position < self.chars.len()
    }

    /// Whether the reader has reached the end of the string.
    pub fn reached_end(&self) -> (r: bool)
        requires
            self.wf(),
        ensures
            r == (self.position() == self.text().len()),
            r == (self.remaining().len() == 0),
    {
        self.position >= self.chars.len()
    }

    /// The index of the next code point in the UTF-8 form of the string, or
    /// zero at the end of the string.
    pub fn index(&self) -> (r: usize)
        requires
            self.wf(),
        ensures
            r == if self.position() < self.text().len() {
                encode_utf8(self.text().take(self.position() as int)).len()
            } else {
                0
            },
    {
        if self.position < self.chars.len() {
            self.offset
        } else {
            0
        }
    }

    /// Reads the next code point, if there is one.
    pub fn next(&mut self) -> (r: Option<char>)
        requires
            old(self).wf(),
        ensures
            final(self).wf(),
            final(self).text() == old(self).text(),
            old(self).position() < old(self).text().len() ==> r == Some(
                old(self).text()[old(self).position() as int],
            ) && final(self).position() == old(self).position() + 1,
            old(self).position() >= old(self).text().len() ==> r is None && *final(self)
                == *old(self),
            old(self).remaining().len() > 0 ==> r == Some(old(self).remaining()[0]) 
                && final(self).remaining() == old(self).remaining().drop_first(),
            old(self).remaining().len() == 0 ==> r is None,
    {
        if self.position < self.chars.len() {
            let c = self.chars[self.position];
            proof {
                let read = self.chars@.take(self.position as int);
                assert(self.chars@.take(self.position + 1) == read.push(c));
                lemma_encode_push(read, c);
                lemma_encode_take(self.chars@, self.position + 1);
            }
            self.offset = self.offset + width(c);
            self.position = self.position + 1;
            assert(self.chars@.skip(self.position as int) == self.chars@.skip(
                self.position - 1,
            ).drop_first());
            Some(c)
        } else {
            None
        }
    }

    /// Reads the next code point. At the end of the string this gives U+0000
    /// and reads nothing.
    pub fn next_or_zero(&mut self) -> (r: char)
        requires
            old(self).wf(),
        ensures
            final(self).wf(),
            final(self).text() == old(self).text(),
            old(self).position() < old(self).text().len() ==> r == old(self).text()[old(
                self,
            ).position() as int] && final(self).position() == old(self).position() + 1,
            old(self).position() >= old(self).text().len() ==> r == '\0' && *final(self)
                == *old(self),
            old(self).remaining().len() > 0 ==> r == old(self).remaining()[0] 
                && final(self).remaining() == old(self).remaining().drop_first(),
            old(self).remaining().len() == 0 ==> r == '\0',
    {
        match self.next() {
            Some(c) => c,
            None => '\0',
        }
    }

    /// The next code point, if there is one. Nothing is read.
    pub fn peek(&self) -> (r: Option<char>)
        requires
            self.wf(),
        ensures
            r == if self.position() < self.text().len() {
                Some(self.text()[self.position() as int])
            } else {
                None
            },
            r == if self.remaining().len() > 0 {
                Some(self.remaining()[0])
            } else {
                None
            },
    {
        if self.position < self.chars.len() {
            Some(self.chars[self.position])
        } else {
            None
        }
    }

    /// The next code point, or U+0000 at the end of the string. Nothing is
    /// read.
    pub fn peek_or_zero(&self) -> (r: char)
        requires
            self.wf(),
        ensures
            r == if self.position() < self.text().len() {
                self.text()[self.position() as int]
            } else {
                '\0'
            },
            r == if self.remaining().len() > 0 {
                self.remaining()[0]
            } else {
                '\0'
            },
    {
        match self.peek() {
            Some(c) => c,
            None => '\0',
        }
    }

    /// The next `num_code_points` code points, or all that are left where
    /// there are fewer. Nothing is read.
    pub fn peek_seq(&self, num_code_points: u64) -> (r: String)
        requires
            self.wf(),
        ensures
            r@ == if num_code_points <= self.remaining().len() {
                self.remaining().take(num_code_points as int)
            } else {
                self.remaining()
            },
    {
        let left: usize = self.chars.len() - self.position;
        let count: usize = if num_code_points <= left as u64 {
            num_code_points as usize
        } else {
            left
        };
        let part = slice_of(&self.chars, self.position, self.position + count);
        assert(part@ == self.remaining().take(count as int));
        assert(self.remaining().take(left as int) == self.remaining());
        string_of(&part)
    }
}

} // verus!
