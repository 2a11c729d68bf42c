//! The input text as characters, with the byte offset of every character, and the positions
//! (offset, line, columns) that tokens are reported at.
use vstd::prelude::*;
use vstd::utf8::{encode_scalar, encode_utf8};

use crate::grammar::utf8_width;

verus! {

broadcast use vstd::utf8::char_is_scalar;

/// The number of bytes of the UTF-8 encoding of the first `j` characters.
pub open spec fn byte_offset(s: Seq<char>, j: int) -> int {
    encode_utf8(s.take(j)).len() as int
}

/// The number of newlines among the characters.
pub open spec fn newlines(cs: Seq<char>) -> nat
    decreases cs.len(),
{
    if cs.len() == 0 {
        0
    } else {
        newlines(cs.drop_last()) + if cs.last() == '\n' {
            1nat
        } else {
            0nat
        }
    }
}

/// The line of position `j`, counted from 1.
pub open spec fn line_number(s: Seq<char>, j: int) -> int {
    1 + newlines(s.take(j)) as int
}

/// The position where the line of position `j` begins: just after the last newline before
/// `j`, or 0.
pub open spec fn line_start(s: Seq<char>, j: int) -> int
    decreases j,
{
    if j <= 0 {
        0
    } else if s[j - 1] == '\n' {
        j
    } else {
        line_start(s, j - 1)
    }
}

/// The column of position `j` counted in bytes from 1.
pub open spec fn byte_column(s: Seq<char>, j: int) -> int {
    byte_offset(s, j) - byte_offset(s, line_start(s, j)) + 1
}

/// The column of position `j` counted in characters from 1.
pub open spec fn char_column(s: Seq<char>, j: int) -> int {
    j - line_start(s, j) + 1
}

/// Encoding a concatenation concatenates the encodings.
pub proof fn lemma_encode_concat(a: Seq<char>, b: Seq<char>)
    ensures
        encode_utf8(a + b) == encode_utf8(a) + encode_utf8(b),
    decreases a.len(),
{
    if a.len() == 0 {
        assert(a + b =~= b);
        assert(encode_utf8(a) =~= Seq::<u8>::empty());
        assert(encode_utf8(a) + encode_utf8(b) =~= encode_utf8(b));
    } else {
        lemma_encode_concat(a.drop_first(), b);
        assert((a + b).drop_first() =~= a.drop_first() + b);
        assert((a + b)[0] == a[0]);
        assert(encode_utf8(a + b) =~= encode_scalar(a[0] as u32) + encode_utf8(a.drop_first() + b));
        assert(encode_utf8(a) =~= encode_scalar(a[0] as u32) + encode_utf8(a.drop_first()));
    }
}

/// A character is encoded in `utf8_width` bytes.
pub proof fn lemma_scalar_width(c: char)
    ensures
        encode_scalar(c as u32).len() == utf8_width(c),
{
}

/// One more character adds its width to the byte offset.
pub proof fn lemma_byte_offset_step(s: Seq<char>, j: int)
    requires
        0 <= j < s.len(),
    ensures
        byte_offset(s, j + 1) == byte_offset(s, j) + utf8_width(s[j]),
{
    assert(s.take(j + 1) =~= s.take(j) + seq![s[j]]);
    lemma_encode_concat(s.take(j), seq![s[j]]);
    assert(seq![s[j]].drop_first() =~= Seq::<char>::empty());
    assert(encode_utf8(seq![s[j]]) =~= encode_scalar(s[j] as u32) + encode_utf8(Seq::<char>::empty()));
    assert(encode_utf8(Seq::<char>::empty()) =~= Seq::<u8>::empty());
    lemma_scalar_width(s[j]);
}

/// A prefix is encoded in no more bytes than the whole.
pub proof fn lemma_byte_offset_bound(s: Seq<char>, j: int)
    requires
        0 <= j <= s.len(),
    ensures
        0 <= byte_offset(s, j) <= encode_utf8(s).len(),
{
    assert(s =~= s.take(j) + s.skip(j));
    lemma_encode_concat(s.take(j), s.skip(j));
}

/// The newlines of a prefix are no more than those of the whole.
pub proof fn lemma_newlines_prefix(s: Seq<char>, j: int)
    requires
        0 <= j <= s.len(),
    ensures
        newlines(s.take(j)) <= newlines(s),
    decreases s.len() - j,
{
    if j < s.len() {
        lemma_newlines_prefix(s, j + 1);
        assert(s.take(j + 1).drop_last() =~= s.take(j));
    } else {
        assert(s.take(j) =~= s);
    }
}

/// One more character adds one line if it is a newline.
pub proof fn lemma_newlines_step(s: Seq<char>, j: int)
    requires
        0 <= j < s.len(),
    ensures
        newlines(s.take(j + 1)) == newlines(s.take(j)) + if s[j] == '\n' {
            1int
        } else {
            0int
        },
{
    assert(s.take(j + 1).drop_last() =~= s.take(j));
}

/// The width of a character, as `char::len_utf8` gives it.
pub fn char_width(c: char) -> (w: usize)
    ensures
        w == utf8_width(c),
{
    if (c as u32) <= 0x7F {
        1
    } else if (c as u32) <= 0x7FF {
        2
    } else if (c as u32) <= 0xFFFF {
        3
    } else {
        4
    }
}

/// `&text[from..to]`, with the byte offsets of the `start`-th and `end`-th characters: the text
/// between two character boundaries, as std documents for slicing a `str`. The claim is that
/// this is the run of characters from `start` to `end`.
#[verifier::external_body]
fn str_slice<'a>(text: &'a str, start: usize, end: usize, from: usize, to: usize) -> (r: &'a str)
    requires
        start <= end <= text@.len(),
        from == byte_offset(text@, start as int),
        to == byte_offset(text@, end as int),
    ensures
        r@ == text@.subrange(start as int, end as int),
{
    &text[from..to]
}

/// The text being read, its characters, and the byte offset of each character.
pub struct Source<'a> {
    pub text: &'a str,
    pub chars: Vec<char>,
    pub offsets: Vec<usize>,
}

impl<'a> Source<'a> {
    pub open spec fn wf(&self) -> bool {
        &&& self.chars@ == self.text@
        &&& self.offsets@.len() == self.chars@.len() + 1
        &&& self.chars@.len() < usize::MAX
        &&& forall|j: int|
            0 <= j <= self.chars@.len() ==> #[trigger] self.offsets@[j] == byte_offset(self.text@, j)
    }

    pub fn new(text: &'a str) -> (src: Self)
        ensures
            src.wf(),
            src.text == text,
    {
        let total = text.as_bytes().len();
        let mut chars: Vec<char> = Vec::new();
        let mut offsets: Vec<usize> = Vec::new();
        let ghost s = text@;
        offsets.push(0);
        proof {
            assert(s.take(0) =~= Seq::<char>::empty());
            assert(encode_utf8(Seq::<char>::empty()) =~= Seq::<u8>::empty());
        }
        let mut off: usize = 0;
        for c in it: text.chars()
            invariant
                it.seq() == s,
                s == text@,
                total == encode_utf8(s).len(),
                chars@ == s.take(it.index() as int),
                offsets@.len() == chars@.len() + 1,
                off == byte_offset(s, it.index() as int),
                forall|j: int|
                    0 <= j <= chars@.len() ==> #[trigger] offsets@[j] == byte_offset(s, j),
        {
            let ghost k = it.index() as int;
            proof {
                lemma_byte_offset_step(s, k);
                lemma_byte_offset_bound(s, k + 1);
                assert(s[k] == c);
            }
            off = off + char_width(c);
            chars.push(c);
            offsets.push(off);
            proof {
                assert(chars@ =~= s.take(k + 1));
            }
        }
        proof {
            assert(s.take(s.len() as int) =~= s);
        }
        // one offset per character and one for the end: the count of characters is below the
        // largest `usize`
        let offset_count = offsets.len();
        proof {
            assert(offset_count == chars@.len() + 1);
        }
        Source { text, chars, offsets }
    }

    /// The text between two character positions.
    pub fn slice(&self, start: usize, end: usize) -> (r: &'a str)
        requires
            self.wf(),
            start <= end <= self.chars@.len(),
        ensures
            r@ == self.chars@.subrange(start as int, end as int),
    {
        str_slice(self.text, start, end, self.offsets[start], self.offsets[end])
    }
}

} // verus!
