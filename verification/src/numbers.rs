//! Whole numbers as people write them, and the white space round them.

use vstd::prelude::*;

use crate::text::{chars_of, sub_text};

verus! {

/// Whether a character is a decimal digit.
pub open spec fn digit(ch: char) -> bool {
    '0' <= ch <= '9'
}

/// What a decimal digit stands for.
pub open spec fn digit_value(ch: char) -> nat {
    (ch as u32 - '0' as u32) as nat
}

/// Whether every character is a decimal digit.
pub open spec fn all_digits(chars: Seq<char>) -> bool {
    forall|i: int| 0 <= i < chars.len() ==> digit(#[trigger] chars[i])
}

/// The number that a row of digits stands for.
pub open spec fn value_of(chars: Seq<char>) -> nat
    decreases chars.len(),
{
    if chars.len() == 0 {
        0
    } else {
        value_of(chars.drop_last()) * 10 + digit_value(chars.last())
    }
}

/// A text without the plus sign that it may begin with.
pub open spec fn unsigned_part(chars: Seq<char>) -> Seq<char> {
    if chars.len() > 0 && chars[0] == '+' {
        chars.skip(1)
    } else {
        chars
    }
}

/// The number that a text stands for: one digit or more, behind a plus sign
/// or none.
pub open spec fn decimal(chars: Seq<char>) -> Option<nat> {
    let digits = unsigned_part(chars);
    if digits.len() > 0 && all_digits(digits) {
        Some(value_of(digits))
    } else {
        None
    }
}

/// A number up to a limit.
pub open spec fn decimal_upto(chars: Seq<char>, limit: nat) -> Option<nat> {
    match decimal(chars) {
        Some(n) if n <= limit => Some(n),
        _ => None,
    }
}

proof fn lemma_value_grows(chars: Seq<char>, n: int)
    requires
        0 <= n <= chars.len(),
    ensures
        value_of(chars.take(n)) <= value_of(chars),
    decreases chars.len() - n,
{
    if n < chars.len() {
        lemma_value_grows(chars, n + 1);
        assert(chars.take(n + 1).drop_last() =~= chars.take(n));
        assert(value_of(chars.take(n)) <= value_of(chars.take(n + 1)));
    } else {
        assert(chars.take(n) =~= chars);
    }
}

/// Reads a number that fits in sixty-four bits.
pub fn parse_u64(text: &str) -> (r: Option<u64>)
    ensures
        match decimal_upto(text@, u64::MAX as nat) {
            Some(n) => r == Some(n as u64),
            None => r is None,
        },
{
    let chars = chars_of(text);
    let start: usize = if chars.len() > 0 && chars[0] == '+' {
        1
    } else {
        0
    };
    let ghost digits = unsigned_part(text@);
    assert(digits =~= text@.skip(start as int));
    if start == chars.len() {
        return None;
    }
    let mut value: u64 = 0;
    let mut i: usize = start;
    while i < chars.len()
        invariant
            chars@ == text@,
            digits == unsigned_part(text@),
            digits == text@.skip(start as int),
            start <= i <= chars@.len(),
            digits.len() > 0,
            all_digits(digits.take(i - start)),
            value == value_of(digits.take(i - start)),
        decreases chars@.len() - i,
    {
        let ch = chars[i];
        assert(ch == digits[i - start]);
        assert(digits.take(i - start + 1).drop_last() =~= digits.take(i - start));
        assert(digits.take(i - start + 1).last() == ch);
        if !('0' <= ch && ch <= '9') {
            assert(!digit(digits[i - start]));
            return None;
        }
        let d: u64 = (ch as u32 - '0' as u32) as u64;
        proof {
            lemma_value_grows(digits, i - start + 1);
        }
        if value > (u64::MAX - d) / 10 {
            assert(value_of(digits.take(i - start + 1)) == value * 10 + d);
            assert(value * 10 + d > u64::MAX);
            return None;
        }
        value = value * 10 + d;
        i += 1;
    }
    assert(digits.take(i - start) =~= digits);
    Some(value)
}

/// Reads a number that fits in thirty-two bits.
pub fn parse_u32(text: &str) -> (r: Option<u32>)
    ensures
        match decimal_upto(text@, u32::MAX as nat) {
            Some(n) => r == Some(n as u32),
            None => r is None,
        },
{
    match parse_u64(text) {
        Some(n) => if n <= u32::MAX as u64 {
            Some(n as u32)
        } else {
            None
        },
        None => None,
    }
}

/// The digit for a number below ten.
pub open spec fn digit_char(d: nat) -> char {
    ('0' as u32 + d) as char
}

/// A number in digits, without leading zeros.
pub open spec fn shown(n: nat) -> Seq<char>
    decreases n,
{
    if n < 10 {
        seq![digit_char(n)]
    } else {
        shown(n / 10).push(digit_char(n % 10))
    }
}

/// A number in digits reads back as itself.
pub proof fn law_shown_reads_back(n: nat)
    ensures
        decimal(shown(n)) == Some(n),
        all_digits(shown(n)),
        shown(n).len() > 0,
    decreases n,
{
    let d = n % 10;
    assert(digit(digit_char(d)) && digit_value(digit_char(d)) == d);
    if n < 10 {
        assert(shown(n).drop_last() =~= Seq::<char>::empty());
        assert(value_of(shown(n).drop_last()) == 0);
        assert(shown(n).last() == digit_char(d));
    } else {
        law_shown_reads_back(n / 10);
        assert(unsigned_part(shown(n / 10)) == shown(n / 10));
        assert(shown(n).drop_last() =~= shown(n / 10));
        assert(value_of(shown(n)) == (n / 10) * 10 + d);
        assert forall|i: int| 0 <= i < shown(n).len() implies digit(#[trigger] shown(n)[i]) by {
            if i < shown(n / 10).len() {
                assert(shown(n)[i] == shown(n / 10)[i]);
            }
        }
    }
    assert(digit(shown(n)[0]));
    assert(unsigned_part(shown(n)) == shown(n));
}

fn digit_of(d: u64) -> (ch: char)
    requires
        d < 10,
    ensures
        ch == digit_char(d as nat),
{
    let code: u8 = 48 + d as u8;
    code as char
}

/// Appends a number in digits.
pub fn push_number(out: &mut String, n: u64)
    ensures
        final(out)@ == old(out)@ + shown(n as nat),
    decreases n,
{
    if n >= 10 {
        push_number(out, n / 10);
    }
    let ghost before = out@;
    out.push(digit_of(n % 10));
    assert(out@ =~= old(out)@ + shown(n as nat));
}

/// A number in digits.
pub fn number_text(n: u64) -> (text: String)
    ensures
        text@ == shown(n as nat),
{
    let mut out = String::new();
    push_number(&mut out, n);
    assert(out@ =~= shown(n as nat));
    out
}

/// Whether a character is white space.
pub open spec fn white(ch: char) -> bool {
    let c = ch as u32;
    ||| 0x09 <= c <= 0x0d
    ||| c == 0x20
    ||| c == 0x85
    ||| c == 0xa0
    ||| c == 0x1680
    ||| 0x2000 <= c <= 0x200a
    ||| c == 0x2028
    ||| c == 0x2029
    ||| c == 0x202f
    ||| c == 0x205f
    ||| c == 0x3000
}

fn is_white(ch: char) -> (r: bool)
    ensures
        r == white(ch),
{
    let c: u32 = ch as u32;
    (0x09 <= c && c <= 0x0d) || c == 0x20 || c == 0x85 || c == 0xa0 || c == 0x1680 || (0x2000 <= c
        && c <= 0x200a) || c == 0x2028 || c == 0x2029 || c == 0x202f || c == 0x205f || c == 0x3000
}

/// A text without the white space that it ends in.
pub open spec fn trimmed_end(chars: Seq<char>) -> Seq<char>
    decreases chars.len(),
{
    if chars.len() > 0 && white(chars.last()) {
        trimmed_end(chars.drop_last())
    } else {
        chars
    }
}

/// A text without the white space that it begins with.
pub open spec fn trimmed_start(chars: Seq<char>) -> Seq<char>
    decreases chars.len(),
{
    if chars.len() > 0 && white(chars[0]) {
        trimmed_start(chars.skip(1))
    } else {
        chars
    }
}

/// A text without the white space at its two ends.
pub open spec fn trimmed(chars: Seq<char>) -> Seq<char> {
    trimmed_start(trimmed_end(chars))
}

fn end_of(chars: &Vec<char>) -> (end: usize)
    ensures
        end <= chars@.len(),
        chars@.take(end as int) == trimmed_end(chars@),
{
    let mut end: usize = chars.len();
    assert(chars@.take(end as int) =~= chars@);
    while end > 0 && is_white(chars[end - 1])
        invariant
            end <= chars@.len(),
            trimmed_end(chars@) == trimmed_end(chars@.take(end as int)),
        decreases end,
    {
        assert(chars@.take(end as int).drop_last() =~= chars@.take(end - 1));
        end -= 1;
    }
    end
}

/// A text without the white space that it ends in.
pub fn trim_end(text: &str) -> (r: String)
    ensures
        r@ == trimmed_end(text@),
{
    let chars = chars_of(text);
    let end = end_of(&chars);
    assert(chars@.take(end as int) =~= chars@.subrange(0, end as int));
    sub_text(&chars, 0, end)
}

/// A text without the white space at its two ends.
pub fn trim(text: &str) -> (r: String)
    ensures
        r@ == trimmed(text@),
{
    let chars = chars_of(text);
    let end = end_of(&chars);
    let ghost kept = chars@.take(end as int);
    let mut start: usize = 0;
    assert(kept.skip(0) =~= kept);
    while start < end && is_white(chars[start])
        invariant
            start <= end <= chars@.len(),
            kept == chars@.take(end as int),
            trimmed_start(kept) == trimmed_start(kept.skip(start as int)),
        decreases end - start,
    {
        assert(kept.skip(start as int).skip(1) =~= kept.skip(start + 1));
        start += 1;
    }
    assert(kept.skip(start as int) =~= chars@.subrange(start as int, end as int));
    sub_text(&chars, start, end)
}

} // verus!
