//! Text as sequences of characters and as UTF-8 bytes.

use vstd::prelude::*;
use vstd::string::*;
use vstd::utf8::*;

verus! {

/// `String::push` appends one character at the end of the text.
pub assume_specification[ String::push ](s: &mut String, ch: char)
    ensures
        final(s)@ == old(s)@.push(ch),
;

/// How many bytes a character takes in UTF-8.
pub open spec fn utf8_len(ch: char) -> nat {
    let code = ch as u32;
    if code < 0x80 {
        1
    } else if code < 0x800 {
        2
    } else if code < 0x10000 {
        3
    } else {
        4
    }
}

/// How many bytes a text takes in UTF-8.
pub open spec fn byte_len(chars: Seq<char>) -> nat
    decreases chars.len(),
{
    if chars.len() == 0 {
        0
    } else {
        byte_len(chars.drop_last()) + utf8_len(chars.last())
    }
}

/// The byte length of a text with one more character at the end.
pub proof fn lemma_byte_len_push(chars: Seq<char>, ch: char)
    ensures
        byte_len(chars.push(ch)) == byte_len(chars) + utf8_len(ch),
{
    assert(chars.push(ch).drop_last() =~= chars);
}

/// The byte length of two texts, one after the other.
pub proof fn lemma_byte_len_concat(a: Seq<char>, b: Seq<char>)
    ensures
        byte_len(a + b) == byte_len(a) + byte_len(b),
    decreases b.len(),
{
    if b.len() == 0 {
        assert(a + b =~= a);
    } else {
        assert((a + b).drop_last() =~= a + b.drop_last());
        lemma_byte_len_concat(a, b.drop_last());
    }
}

/// A longer beginning of a text takes more bytes.
pub proof fn lemma_byte_len_prefix(chars: Seq<char>, i: int, j: int)
    requires
        0 <= i <= j <= chars.len(),
    ensures
        byte_len(chars.take(i)) <= byte_len(chars.take(j)),
        i < j ==> byte_len(chars.take(i)) < byte_len(chars.take(j)),
    decreases j - i,
{
    if i < j {
        assert(chars.take(j).drop_last() =~= chars.take(j - 1));
        lemma_byte_len_prefix(chars, i, j - 1);
    }
}

/// `byte_len` is the length of the UTF-8 encoding.
pub proof fn lemma_byte_len_is_encoded(chars: Seq<char>)
    ensures
        encode_utf8(chars).len() == byte_len(chars),
    decreases chars.len(),
{
    if chars.len() > 0 {
        let head = chars.take(1);
        let tail = chars.drop_first();
        lemma_byte_len_is_encoded(tail);
        assert(head + tail =~= chars);
        lemma_byte_len_concat(head, tail);
        assert(head.drop_last() =~= Seq::<char>::empty());
        assert(byte_len(head.drop_last()) == 0);
        assert(byte_len(head) == utf8_len(chars[0]));
        char_is_scalar(chars[0]);
        assert(encode_utf8(chars) == encode_scalar(chars[0] as u32) + encode_utf8(tail));
    }
}

/// The byte length of a text.
pub fn byte_length(s: &str) -> (n: usize)
    ensures
        n == byte_len(s@),
{
    proof {
        lemma_byte_len_is_encoded(s@);
    }
    s.as_bytes().len()
}

/// The characters of a text, in order.
pub fn chars_of(s: &str) -> (chars: Vec<char>)
    ensures
        chars@ == s@,
{
    let mut chars: Vec<char> = Vec::new();
    for ch in it: s.chars()
        invariant
            chars@ == it.seq().take(it.index()),
            it.seq() == s@,
    {
        chars.push(ch);
        assert(it.seq().take(it.index() + 1) =~= it.seq().take(it.index()).push(ch));
    }
    assert(s@.take(s@.len() as int) =~= s@);
    chars
}

/// The text made of the characters from `start` up to `end`.
pub fn sub_text(chars: &Vec<char>, start: usize, end: usize) -> (s: String)
    requires
        start <= end <= chars@.len(),
    ensures
        s@ == chars@.subrange(start as int, end as int),
{
    let mut s = String::new();
    let mut i: usize = start;
    while i < end
        invariant
            start <= i <= end <= chars@.len(),
            s@ == chars@.subrange(start as int, i as int),
        decreases end - i,
    {
        s.push(chars[i]);
        i += 1;
        assert(s@ =~= chars@.subrange(start as int, i as int));
    }
    s
}

/// How many bytes a character takes in UTF-8.
pub fn char_bytes(ch: char) -> (n: usize)
    ensures
        n == utf8_len(ch),
{
    let code: u32 = ch as u32;
    if code < 0x80 {
        1
    } else if code < 0x800 {
        2
    } else if code < 0x10000 {
        3
    } else {
        4
    }
}

/// Appends a text.
pub fn push_text(out: &mut String, more: &str)
    ensures
        final(out)@ == old(out)@ + more@,
{
    let chars = chars_of(more);
    let mut i: usize = 0;
    while i < chars.len()
        invariant
            chars@ == more@,
            i <= chars@.len(),
            out@ == old(out)@ + more@.take(i as int),
        decreases chars@.len() - i,
    {
        out.push(chars[i]);
        i += 1;
        assert(out@ =~= old(out)@ + more@.take(i as int));
    }
    assert(more@.take(i as int) =~= more@);
}

/// Two texts, one after the other.
pub fn joined(a: &str, b: &str) -> (out: String)
    ensures
        out@ == a@ + b@,
{
    let mut out = a.to_owned();
    push_text(&mut out, b);
    out
}

/// What a text holds that may be there.
pub open spec fn maybe_text(text: Option<String>) -> Option<Seq<char>> {
    match text {
        Some(t) => Some(t@),
        None => None,
    }
}

/// Whether two texts are the same.
pub fn same_text(a: &str, b: &str) -> (r: bool)
    ensures
        r == (a@ == b@),
{
    let x = chars_of(a);
    let y = chars_of(b);
    if x.len() != y.len() {
        return false;
    }
    let mut i: usize = 0;
    while i < x.len()
        invariant
            x@ == a@,
            y@ == b@,
            x@.len() == y@.len(),
            i <= x@.len(),
            forall|j: int| 0 <= j < i ==> x@[j] == y@[j],
        decreases x@.len() - i,
    {
        if x[i] != y[i] {
            return false;
        }
        i += 1;
    }
    assert(a@ =~= b@);
    true
}

} // verus!
