//! Searching the text of a document: a query, its hits in the order of the
//! pages, and the hit that the reader stands on.
//!
//! Text and query are compared letter by letter, in lower case and in composed
//! form: what was stored as a letter and a combining accent is found by the
//! letter with its accent. The bytes of a hit are those of the stored text.

use vstd::prelude::*;
use unicode_normalization::UnicodeNormalization;

use crate::late::{gathered, lemma_filter_split, lemma_late_page, orderly};
use crate::page::{
    glyph_offset, quads_for_range_monotonic, range_quad, PageNo, Quad, TextLayer, TextRange,
};
use crate::text::{
    byte_len, byte_length, char_bytes, chars_of, lemma_byte_len_prefix, lemma_byte_len_push,
    same_text, sub_text,
};

verus! {

/// The lower-case form of a character, which may have several characters.
pub uninterp spec fn lowercase_of(ch: char) -> Seq<char>;

/// `char::to_lowercase`: the characters of the lower-case form, in order. The
/// form is a function of the character alone and goes by a table.
#[verifier::external_body]
pub(crate) fn lowercase(ch: char) -> (lower: Vec<char>)
    ensures
        lower@ == lowercase_of(ch),
{
    ch.to_lowercase().collect()
}

/// The composed form (normalization form C) of a text.
pub uninterp spec fn nfc_of(text: Seq<char>) -> Seq<char>;

/// `unicode_normalization::UnicodeNormalization::nfc` on the characters of a
/// text: its normalization form C. The form is a function of the text alone
/// and goes by tables.
#[verifier::external_body]
pub(crate) fn nfc(text: &str) -> (composed: String)
    ensures
        composed@ == nfc_of(text@),
{
    text.chars().nfc().collect()
}

/// A character in lower case and the bytes of the text that it comes from.
#[derive(Debug, Clone, Copy, PartialEq, Eq, Structural)]
pub struct LowerChar {
    pub lower: char,
    pub byte_start: usize,
    pub byte_end: usize,
}

/// A character that comes from the given bytes.
pub open spec fn from_bytes(lower: char, byte_start: usize, byte_end: usize) -> LowerChar {
    LowerChar { lower, byte_start, byte_end }
}

/// Characters that all come from the same bytes.
pub open spec fn spread(lower: Seq<char>, start: usize, end: usize) -> Seq<LowerChar> {
    lower.map_values(|ch: char| from_bytes(ch, start, end))
}

/// The lower-case form of a text.
pub open spec fn lowered(chars: Seq<char>) -> Seq<char>
    decreases chars.len(),
{
    if chars.len() == 0 {
        Seq::empty()
    } else {
        lowered(chars.drop_last()) + lowercase_of(chars.last())
    }
}

/// The lower-case form of a text.
pub(crate) fn lower_text(chars: &Vec<char>) -> (lower: Vec<char>)
    ensures
        lower@ == lowered(chars@),
{
    let mut lower: Vec<char> = Vec::new();
    let mut i: usize = 0;
    while i < chars.len()
        invariant
            i <= chars@.len(),
            lower@ == lowered(chars@.take(i as int)),
        decreases chars@.len() - i,
    {
        let mut more = lowercase(chars[i]);
        lower.append(&mut more);
        i += 1;
        assert(chars@.take(i as int).drop_last() =~= chars@.take(i - 1));
    }
    assert(chars@.take(chars@.len() as int) =~= chars@);
    lower
}

/// Appends characters that all come from the same bytes.
pub(crate) fn push_spread(mapped: &mut Vec<LowerChar>, lower: &Vec<char>, start: usize, end: usize)
    ensures
        final(mapped)@ == old(mapped)@ + spread(lower@, start, end),
{
    let mut i: usize = 0;
    while i < lower.len()
        invariant
            i <= lower@.len(),
            mapped@ == old(mapped)@ + spread(lower@, start, end).take(i as int),
        decreases lower@.len() - i,
    {
        mapped.push(LowerChar { lower: lower[i], byte_start: start, byte_end: end });
        i += 1;
        assert(spread(lower@, start, end)[i - 1] == from_bytes(lower@[i - 1], start, end));
        assert(mapped@ =~= old(mapped)@ + spread(lower@, start, end).take(i as int));
    }
    assert(spread(lower@, start, end).take(lower@.len() as int) =~= spread(
        lower@,
        start,
        end,
    ));
}

/// Whether a piece of a text composes to what the wanted text begins with.
pub open spec fn composes(piece: Seq<char>, wanted: Seq<char>) -> bool {
    nfc_of(piece).len() > 0 && nfc_of(piece).is_prefix_of(wanted)
}

/// How many characters belong together with the first of a text: so many, `k`
/// at least, that they compose to what the wanted text begins with; where no
/// piece does, all.
pub open spec fn belonging(rest: Seq<char>, wanted: Seq<char>, k: nat) -> nat
    decreases rest.len() - k,
{
    if k + 1 >= rest.len() {
        (rest.len() - 1) as nat
    } else if composes(rest.take((k + 1) as int), wanted) {
        k
    } else {
        belonging(rest, wanted, k + 1)
    }
}

/// How many characters of the wanted text the first piece of a text comes to:
/// those that it composes to, or, for a piece that is all of the text, all.
pub open spec fn composed_len(rest: Seq<char>, wanted: Seq<char>) -> int {
    let k = belonging(rest, wanted, 0) + 1;
    if k < rest.len() {
        nfc_of(rest.take(k as int)).len() as int
    } else {
        wanted.len() as int
    }
}

/// The text from character `at` on as it is searched, given its composed form
/// from character `n` on: piece by piece, each with its bytes.
pub open spec fn form_from(plain: Seq<char>, composed: Seq<char>, at: nat, n: int) -> Seq<LowerChar>
    decreases plain.len() - at,
    via form_from_decreases
{
    if at >= plain.len() || n >= composed.len() {
        Seq::empty()
    } else {
        let rest = plain.skip(at as int);
        let wanted = composed.skip(n);
        let next = at + belonging(rest, wanted, 0) + 1;
        let m = composed_len(rest, wanted);
        spread(
            lowered(composed.subrange(n, n + m)),
            byte_len(plain.take(at as int)) as usize,
            byte_len(plain.take(next as int)) as usize,
        ) + form_from(plain, composed, next, n + m)
    }
}

#[via_fn]
proof fn form_from_decreases(plain: Seq<char>, composed: Seq<char>, at: nat, n: int) {
    if at < plain.len() && n < composed.len() {
        lemma_belonging(plain.skip(at as int), composed.skip(n), 0);
    }
}

/// The lower-case characters of the first `n` characters of a text, each with
/// its own bytes.
pub open spec fn plain_map(plain: Seq<char>, n: int) -> Seq<LowerChar>
    decreases n,
{
    if n <= 0 {
        Seq::empty()
    } else {
        plain_map(plain, n - 1) + spread(
            lowercase_of(plain[n - 1]),
            byte_len(plain.take(n - 1)) as usize,
            byte_len(plain.take(n)) as usize,
        )
    }
}

/// A text as it is searched: composed, in lower case, with its bytes. In a
/// text that is composed already each character stands for itself.
pub open spec fn search_form(plain: Seq<char>, composed: Seq<char>) -> Seq<LowerChar> {
    if plain == composed {
        plain_map(plain, plain.len() as int)
    } else {
        form_from(plain, composed, 0, 0)
    }
}

proof fn lemma_belonging(rest: Seq<char>, wanted: Seq<char>, k: nat)
    requires
        k < rest.len(),
    ensures
        k <= belonging(rest, wanted, k) < rest.len(),
        belonging(rest, wanted, k) + 1 < rest.len() ==> composes(
            rest.take((belonging(rest, wanted, k) + 1) as int),
            wanted,
        ),
    decreases rest.len() - k,
{
    if k + 1 < rest.len() && !composes(rest.take((k + 1) as int), wanted) {
        lemma_belonging(rest, wanted, k + 1);
    }
}

proof fn lemma_composed_len(rest: Seq<char>, wanted: Seq<char>)
    requires
        rest.len() > 0,
        wanted.len() > 0,
    ensures
        1 <= belonging(rest, wanted, 0) + 1 <= rest.len(),
        1 <= composed_len(rest, wanted) <= wanted.len(),
{
    lemma_belonging(rest, wanted, 0);
}

/// Whether `text` stands in `wanted` from `n` on.
fn begins(text: &Vec<char>, wanted: &Vec<char>, n: usize) -> (r: bool)
    requires
        n <= wanted@.len(),
    ensures
        r == text@.is_prefix_of(wanted@.skip(n as int)),
{
    if text.len() > wanted.len() - n {
        return false;
    }
    let room: usize = wanted.len();
    let mut i: usize = 0;
    while i < text.len()
        invariant
            n <= room == wanted@.len(),
            text@.len() <= room - n,
            i <= text@.len(),
            forall|j: int| 0 <= j < i ==> #[trigger] text@[j] == wanted@.skip(n as int)[j],
        decreases text@.len() - i,
    {
        if text[i] != wanted[n + i] {
            assert(wanted@.skip(n as int)[i as int] == wanted@[n + i]);
            assert(text@[i as int] != wanted@.skip(n as int).subrange(0, text@.len() as int)[i as int]);
            return false;
        }
        i += 1;
    }
    assert(text@ =~= wanted@.skip(n as int).subrange(0, text@.len() as int));
    true
}

/// The piece of a text that begins at `at`, where the composed form is at `n`:
/// how many characters it has, and how many composed ones it comes to.
fn piece_at(plain: &Vec<char>, composed: &Vec<char>, at: usize, n: usize) -> (r: (usize, usize))
    requires
        at < plain@.len(),
        n < composed@.len(),
    ensures
        r.0 == belonging(plain@.skip(at as int), composed@.skip(n as int), 0) + 1,
        r.1 == composed_len(plain@.skip(at as int), composed@.skip(n as int)),
{
    let ghost rest = plain@.skip(at as int);
    let ghost wanted = composed@.skip(n as int);
    let count: usize = plain.len();
    let left: usize = count - at;
    let mut k: usize = 0;
    while k + 1 < left
        invariant
            at + left == count == plain@.len(),
            n < composed@.len(),
            k < left,
            rest == plain@.skip(at as int),
            wanted == composed@.skip(n as int),
            belonging(rest, wanted, 0) == belonging(rest, wanted, k as nat),
        decreases left - k,
    {
        let joined = chars_of(nfc(sub_text(plain, at, at + k + 1).as_str()).as_str());
        assert(rest.take(k + 1) =~= plain@.subrange(at as int, at + k + 1));
        if joined.len() > 0 && begins(&joined, composed, n) {
            return (k + 1, joined.len());
        }
        k += 1;
    }
    (left, composed.len() - n)
}

/// The byte at which character `to` begins, given that at which `at` does.
fn byte_at(chars: &Vec<char>, at: usize, byte: usize, to: usize) -> (r: usize)
    requires
        at <= to <= chars@.len(),
        byte == byte_len(chars@.take(at as int)),
        byte_len(chars@) <= usize::MAX,
    ensures
        r == byte_len(chars@.take(to as int)),
{
    let mut i: usize = at;
    let mut r: usize = byte;
    while i < to
        invariant
            at <= i <= to <= chars@.len(),
            byte_len(chars@) <= usize::MAX,
            r == byte_len(chars@.take(i as int)),
        decreases to - i,
    {
        proof {
            lemma_byte_len_push(chars@.take(i as int), chars@[i as int]);
            assert(chars@.take(i as int).push(chars@[i as int]) =~= chars@.take(i + 1));
            lemma_byte_len_prefix(chars@, i + 1, chars@.len() as int);
            assert(chars@.take(chars@.len() as int) =~= chars@);
        }
        r += char_bytes(chars[i]);
        i += 1;
    }
    r
}

/// The characters of a text in lower case, each with its bytes.
fn map_each(plain: &str) -> (mapped: Vec<LowerChar>)
    ensures
        mapped@ == plain_map(plain@, plain@.len() as int),
{
    let total: usize = byte_length(plain);
    let chars = chars_of(plain);
    let mut mapped: Vec<LowerChar> = Vec::new();
    let mut byte_start: usize = 0;
    let mut n: usize = 0;
    proof {
        assert(plain@.take(0) =~= Seq::<char>::empty());
        assert(plain@.take(plain@.len() as int) =~= plain@);
    }
    while n < chars.len()
        invariant
            chars@ == plain@,
            n <= chars@.len(),
            total == byte_len(plain@),
            plain@.take(plain@.len() as int) == plain@,
            byte_start == byte_len(plain@.take(n as int)),
            mapped@ == plain_map(plain@, n as int),
        decreases chars@.len() - n,
    {
        proof {
            lemma_byte_len_push(plain@.take(n as int), plain@[n as int]);
            assert(plain@.take(n as int).push(plain@[n as int]) =~= plain@.take(n + 1));
            lemma_byte_len_prefix(plain@, n + 1, plain@.len() as int);
        }
        let byte_end: usize = byte_start + char_bytes(chars[n]);
        let lower = lowercase(chars[n]);
        push_spread(&mut mapped, &lower, byte_start, byte_end);
        byte_start = byte_end;
        n += 1;
    }
    mapped
}

/// The characters of a text as it is searched, given its composed form. The
/// bytes are those of the text itself.
pub fn lower_plain_map_composed(plain: &str, composed: &str) -> (mapped: Vec<LowerChar>)
    ensures
        mapped@ == search_form(plain@, composed@),
{
    if same_text(plain, composed) {
        map_each(plain)
    } else {
        map_pieces(plain, composed)
    }
}

/// The characters of a text piece by piece, given its composed form.
fn map_pieces(plain: &str, composed: &str) -> (mapped: Vec<LowerChar>)
    ensures
        mapped@ == form_from(plain@, composed@, 0, 0),
{
    let bytes = byte_length(plain);
    let chars = chars_of(plain);
    let wanted = chars_of(composed);
    let mut mapped: Vec<LowerChar> = Vec::new();
    let mut at: usize = 0;
    let mut byte_start: usize = 0;
    let mut n: usize = 0;
    proof {
        assert(plain@.take(0) =~= Seq::<char>::empty());
        assert(mapped@ + form_from(plain@, composed@, 0, 0) =~= form_from(plain@, composed@, 0, 0));
    }
    while at < chars.len() && n < wanted.len()
        invariant
            chars@ == plain@,
            wanted@ == composed@,
            bytes == byte_len(plain@),
            at <= plain@.len(),
            n <= composed@.len(),
            byte_start == byte_len(plain@.take(at as int)),
            mapped@ + form_from(plain@, composed@, at as nat, n as int) == form_from(
                plain@,
                composed@,
                0,
                0,
            ),
        decreases plain@.len() - at,
    {
        proof {
            lemma_composed_len(plain@.skip(at as int), composed@.skip(n as int));
        }
        let (k, m) = piece_at(&chars, &wanted, at, n);
        let byte_end = byte_at(&chars, at, byte_start, at + k);
        let lower = lower_text(&chars_of(sub_text(&wanted, n, n + m).as_str()));
        let ghost before = mapped@;
        push_spread(&mut mapped, &lower, byte_start, byte_end);
        assert(mapped@ + form_from(plain@, composed@, (at + k) as nat, n + m) =~= before
            + form_from(plain@, composed@, at as nat, n as int));
        at += k;
        byte_start = byte_end;
        n += m;
    }
    assert(mapped@ + Seq::<LowerChar>::empty() =~= mapped@);
    mapped
}

/// The characters of a text as it is searched.
pub fn lower_plain_map(plain: &str) -> (mapped: Vec<LowerChar>)
    ensures
        mapped@ == search_form(plain@, nfc_of(plain@)),
{
    let composed = nfc(plain);
    lower_plain_map_composed(plain, composed.as_str())
}

/// Whether the letters of `needle` stand in `mapped` from `i` on.
pub open spec fn matches_at(mapped: Seq<LowerChar>, needle: Seq<char>, i: int) -> bool {
    &&& 0 <= i
    &&& i + needle.len() <= mapped.len()
    &&& forall|k: int| 0 <= k < needle.len() ==> (#[trigger] mapped[i + k]).lower == needle[k]
}

/// The bytes of each place among the first `n` at which `needle` stands,
/// those that overlap included.
pub open spec fn ranges_upto(mapped: Seq<LowerChar>, needle: Seq<char>, n: int) -> Seq<
    (usize, usize),
>
    decreases n,
{
    if n <= 0 {
        Seq::empty()
    } else if matches_at(mapped, needle, n - 1) {
        ranges_upto(mapped, needle, n - 1).push(
            (mapped[n - 1].byte_start, mapped[n - 1 + needle.len() - 1].byte_end),
        )
    } else {
        ranges_upto(mapped, needle, n - 1)
    }
}

/// The bytes of each place at which `needle` stands; none for an empty one.
pub open spec fn match_ranges(mapped: Seq<LowerChar>, needle: Seq<char>) -> Seq<(usize, usize)> {
    if needle.len() == 0 {
        Seq::empty()
    } else {
        ranges_upto(mapped, needle, mapped.len() as int)
    }
}

proof fn lemma_no_match_near_end(mapped: Seq<LowerChar>, needle: Seq<char>, m: int, n: int)
    requires
        0 <= m <= n,
        needle.len() > 0,
        m + needle.len() > mapped.len(),
    ensures
        ranges_upto(mapped, needle, n) == ranges_upto(mapped, needle, m),
    decreases n,
{
    if n > m {
        lemma_no_match_near_end(mapped, needle, m, n - 1);
    }
}

fn stands_at(mapped: &Vec<LowerChar>, needle: &Vec<char>, i: usize) -> (r: bool)
    requires
        i + needle@.len() <= mapped@.len(),
    ensures
        r == matches_at(mapped@, needle@, i as int),
{
    let room = mapped.len();
    let mut k: usize = 0;
    while k < needle.len()
        invariant
            i + needle@.len() <= mapped@.len() == room,
            k <= needle@.len(),
            forall|j: int| 0 <= j < k ==> (#[trigger] mapped@[i + j]).lower == needle@[j],
        decreases needle@.len() - k,
    {
        if mapped[i + k].lower != needle[k] {
            assert(mapped@[i + k].lower != needle@[k as int]);
            return false;
        }
        k += 1;
    }
    true
}

/// The bytes of each place at which `needle` stands, in order.
pub fn scan(mapped: &Vec<LowerChar>, needle: &Vec<char>) -> (out: Vec<(usize, usize)>)
    ensures
        out@ == match_ranges(mapped@, needle@),
{
    let mut out: Vec<(usize, usize)> = Vec::new();
    if needle.len() == 0 || mapped.len() < needle.len() {
        proof {
            if needle.len() > 0 {
                lemma_no_match_near_end(mapped@, needle@, 0, mapped@.len() as int);
            }
        }
        return out;
    }
    let mut i: usize = 0;
    while i <= mapped.len() - needle.len()
        invariant
            0 < needle@.len() <= mapped@.len(),
            i <= mapped@.len() - needle@.len() + 1,
            out@ == ranges_upto(mapped@, needle@, i as int),
        decreases mapped@.len() - i,
    {
        if stands_at(mapped, needle, i) {
            out.push((mapped[i].byte_start, mapped[i + (needle.len() - 1)].byte_end));
        }
        i += 1;
    }
    proof {
        lemma_no_match_near_end(mapped@, needle@, i as int, mapped@.len() as int);
    }
    out
}

/// The places at which a query stands in a text, given the composed forms of
/// the two.
pub open spec fn query_ranges(
    plain: Seq<char>,
    plain_nfc: Seq<char>,
    needle_nfc: Seq<char>,
) -> Seq<(usize, usize)> {
    match_ranges(search_form(plain, plain_nfc), lowered(needle_nfc))
}

/// The bytes of each place at which a query stands in a text, given the
/// composed forms of the two.
pub fn byte_ranges_composed(plain: &str, plain_nfc: &str, needle_nfc: &str) -> (out: Vec<
    (usize, usize),
>)
    ensures
        out@ == query_ranges(plain@, plain_nfc@, needle_nfc@),
{
    let needle_chars = lower_text(&chars_of(needle_nfc));
    let mapped = lower_plain_map_composed(plain, plain_nfc);
    scan(&mapped, &needle_chars)
}

/// The bytes of each place at which a query stands in a text, whatever the
/// case of the letters and however accents are stored.
pub fn case_insensitive_byte_ranges(plain: &str, needle: &str) -> (out: Vec<(usize, usize)>)
    ensures
        out@ == query_ranges(plain@, nfc_of(plain@), nfc_of(needle@)),
{
    let plain_nfc = nfc(plain);
    let needle_nfc = nfc(needle);
    byte_ranges_composed(plain, plain_nfc.as_str(), needle_nfc.as_str())
}

/// Whether the characters stand in the order of their bytes.
pub open spec fn in_byte_order(mapped: Seq<LowerChar>) -> bool {
    forall|i: int, j: int|
        0 <= i <= j < mapped.len() ==> (#[trigger] mapped[i]).byte_start <= (#[trigger] mapped[j]).byte_start
}

/// Whether ranges stand in the order in which they begin.
pub open spec fn in_start_order(ranges: Seq<(usize, usize)>) -> bool {
    forall|i: int, j: int|
        0 <= i <= j < ranges.len() ==> (#[trigger] ranges[i]).0 <= (#[trigger] ranges[j]).0
}

/// Whether the characters stand in the order in which their bytes end.
pub open spec fn in_end_order(mapped: Seq<LowerChar>) -> bool {
    forall|i: int, j: int|
        0 <= i <= j < mapped.len() ==> (#[trigger] mapped[i]).byte_end <= (#[trigger] mapped[j]).byte_end
}

/// Whether a character comes from characters `a` up to `b` of a text: its
/// bytes are theirs, and it is that of the one character or one of those that
/// they compose to, unless they are the last of the text.
pub open spec fn comes_from(plain: Seq<char>, entry: LowerChar, a: int, b: int) -> bool {
    &&& 0 <= a < b <= plain.len()
    &&& entry.byte_start == byte_len(plain.take(a))
    &&& entry.byte_end == byte_len(plain.take(b))
    &&& b < plain.len() ==> (b == a + 1 && lowercase_of(plain[a]).contains(entry.lower)) || lowered(
        nfc_of(plain.subrange(a, b)),
    ).contains(entry.lower)
}

/// Whether a character comes from a piece of a text.
pub open spec fn has_source(plain: Seq<char>, entry: LowerChar) -> bool {
    exists|a: int, b: int| comes_from(plain, entry, a, b)
}

/// Whether characters come from pieces of a text, from byte `from` on, in the
/// order of the text.
spec fn placed(plain: Seq<char>, mapped: Seq<LowerChar>, from: nat) -> bool {
    &&& in_byte_order(mapped)
    &&& in_end_order(mapped)
    &&& forall|i: int| 0 <= i < mapped.len() ==> has_source(plain, #[trigger] mapped[i])
    &&& forall|i: int|
        0 <= i < mapped.len() ==> from <= (#[trigger] mapped[i]).byte_start < mapped[i].byte_end
            <= byte_len(plain)
}

proof fn lemma_first_piece(plain: Seq<char>, composed: Seq<char>, at: int, n: int)
    requires
        byte_len(plain) <= usize::MAX,
        0 <= at < plain.len(),
        0 <= n < composed.len(),
    ensures
        ({
            let rest = plain.skip(at);
            let wanted = composed.skip(n);
            let next = at + belonging(rest, wanted, 0) + 1;
            let m = composed_len(rest, wanted);
            let start = byte_len(plain.take(at));
            let end = byte_len(plain.take(next));
            let first = spread(
                lowered(composed.subrange(n, n + m)),
                start as usize,
                end as usize,
            );
            &&& at < next <= plain.len()
            &&& n < n + m <= composed.len()
            &&& start < end <= byte_len(plain)
            &&& forall|i: int|
                0 <= i < first.len() ==> has_source(plain, #[trigger] first[i]) && first[i].byte_start
                    == start && first[i].byte_end == end
        }),
{
    let rest = plain.skip(at);
    let wanted = composed.skip(n);
    let k = belonging(rest, wanted, 0) + 1;
    let next = at + k;
    let m = composed_len(rest, wanted);
    lemma_composed_len(rest, wanted);
    lemma_belonging(rest, wanted, 0);
    lemma_byte_len_prefix(plain, at, next);
    lemma_byte_len_prefix(plain, next, plain.len() as int);
    assert(plain.take(plain.len() as int) =~= plain);
    let letters = lowered(composed.subrange(n, n + m));
    let first = spread(
        letters,
        byte_len(plain.take(at)) as usize,
        byte_len(plain.take(next)) as usize,
    );
    if next < plain.len() {
        assert(rest.take(k as int) =~= plain.subrange(at, next));
        assert(wanted.subrange(0, m) =~= composed.subrange(n, n + m));
        assert(nfc_of(rest.take(k as int)) == composed.subrange(n, n + m));
    }
    assert forall|i: int| 0 <= i < first.len() implies has_source(plain, #[trigger] first[i]) by {
        assert(letters[i] == first[i].lower);
        assert(letters.contains(first[i].lower));
        assert(comes_from(plain, first[i], at, next));
    }
}

proof fn lemma_placed_concat(
    plain: Seq<char>,
    a: Seq<LowerChar>,
    b: Seq<LowerChar>,
    start: nat,
    end: nat,
)
    requires
        start < end <= byte_len(plain),
        forall|i: int|
            0 <= i < a.len() ==> has_source(plain, #[trigger] a[i]) && a[i].byte_start == start
                && a[i].byte_end == end,
        placed(plain, b, end),
    ensures
        placed(plain, a + b, start),
{
    let c = a + b;
    assert forall|i: int| 0 <= i < c.len() implies has_source(plain, #[trigger] c[i]) && start
        <= c[i].byte_start < c[i].byte_end <= byte_len(plain) by {
        if i < a.len() {
            assert(c[i] == a[i]);
        } else {
            assert(c[i] == b[i - a.len()]);
        }
    }
    assert forall|i: int, j: int| 0 <= i <= j < c.len() implies (#[trigger] c[i]).byte_start <= (
    #[trigger] c[j]).byte_start && c[i].byte_end <= c[j].byte_end by {
        if i < a.len() {
            assert(c[i] == a[i]);
        } else {
            assert(c[i] == b[i - a.len()]);
        }
        if j < a.len() {
            assert(c[j] == a[j]);
        } else {
            assert(c[j] == b[j - a.len()]);
        }
    }
}

proof fn lemma_form(plain: Seq<char>, composed: Seq<char>, at: nat, n: int)
    requires
        byte_len(plain) <= usize::MAX,
        at <= plain.len(),
        0 <= n,
    ensures
        placed(plain, form_from(plain, composed, at, n), byte_len(plain.take(at as int))),
    decreases plain.len() - at,
{
    if at < plain.len() && n < composed.len() {
        let rest = plain.skip(at as int);
        let wanted = composed.skip(n);
        let next = (at + belonging(rest, wanted, 0) + 1) as nat;
        let m = composed_len(rest, wanted);
        lemma_first_piece(plain, composed, at as int, n);
        lemma_form(plain, composed, next, n + m);
        let start = byte_len(plain.take(at as int));
        let end = byte_len(plain.take(next as int));
        lemma_placed_concat(
            plain,
            spread(lowered(composed.subrange(n, n + m)), start as usize, end as usize),
            form_from(plain, composed, next, n + m),
            start,
            end,
        );
    }
}

proof fn lemma_plain_map(plain: Seq<char>, n: int)
    requires
        byte_len(plain) <= usize::MAX,
        0 <= n <= plain.len(),
    ensures
        placed(plain, plain_map(plain, n), 0),
        forall|i: int|
            0 <= i < plain_map(plain, n).len() ==> (#[trigger] plain_map(plain, n)[i]).byte_end
                <= byte_len(plain.take(n)),
        letters(plain_map(plain, n)) == lowered(plain.take(n)),
    decreases n,
{
    let all = plain_map(plain, n);
    if n > 0 {
        lemma_plain_map(plain, n - 1);
        let front = plain_map(plain, n - 1);
        let start = byte_len(plain.take(n - 1));
        let end = byte_len(plain.take(n));
        let lower = lowercase_of(plain[n - 1]);
        let last = spread(lower, start as usize, end as usize);
        lemma_byte_len_prefix(plain, n - 1, n);
        lemma_byte_len_prefix(plain, n, plain.len() as int);
        assert(plain.take(plain.len() as int) =~= plain);
        assert forall|i: int| 0 <= i < all.len() implies has_source(plain, #[trigger] all[i])
            && all[i].byte_start < all[i].byte_end <= end && (i >= front.len() ==> all[i]
            == from_bytes(lower[i - front.len()], start as usize, end as usize)) by {
            if i < front.len() {
                assert(all[i] == front[i]);
            } else {
                assert(all[i] == last[i - front.len()]);
                assert(lower[i - front.len()] == all[i].lower);
                assert(lower.contains(all[i].lower));
                assert(comes_from(plain, all[i], n - 1, n));
            }
        }
        assert forall|i: int, j: int| 0 <= i <= j < all.len() implies (#[trigger] all[i]).byte_start
            <= (#[trigger] all[j]).byte_start && all[i].byte_end <= all[j].byte_end by {
            if i < front.len() {
                assert(all[i] == front[i]);
                if j < front.len() {
                    assert(all[j] == front[j]);
                }
            }
        }
        assert(plain.take(n).drop_last() =~= plain.take(n - 1));
        assert(letters(all) =~= letters(front) + lower);
    } else {
        assert(letters(all) =~= lowered(plain.take(n)));
    }
}

proof fn lemma_search_form(plain: Seq<char>, composed: Seq<char>)
    requires
        byte_len(plain) <= usize::MAX,
    ensures
        placed(plain, search_form(plain, composed), 0),
{
    lemma_plain_map(plain, plain.len() as int);
    lemma_form(plain, composed, 0, 0);
    assert(plain.take(0) =~= Seq::<char>::empty());
}

pub(crate) proof fn lemma_lowered_concat(a: Seq<char>, b: Seq<char>)
    ensures
        lowered(a + b) == lowered(a) + lowered(b),
    decreases b.len(),
{
    if b.len() == 0 {
        assert(a + b =~= a);
        assert(lowered(a) + lowered(b) =~= lowered(a));
    } else {
        lemma_lowered_concat(a, b.drop_last());
        assert((a + b).drop_last() =~= a + b.drop_last());
        assert(lowered(a) + lowered(b) =~= lowered(a) + lowered(b.drop_last()) + lowercase_of(
            b.last(),
        ));
    }
}

/// The letters of a text as it is searched.
pub open spec fn letters(mapped: Seq<LowerChar>) -> Seq<char> {
    mapped.map_values(|entry: LowerChar| entry.lower)
}

proof fn lemma_form_letters(plain: Seq<char>, composed: Seq<char>, at: nat, n: int)
    requires
        at < plain.len(),
        0 <= n <= composed.len(),
    ensures
        letters(form_from(plain, composed, at, n)) == lowered(composed.skip(n)),
    decreases plain.len() - at,
{
    let form = form_from(plain, composed, at, n);
    if n < composed.len() {
        let rest = plain.skip(at as int);
        let wanted = composed.skip(n);
        let next = (at + belonging(rest, wanted, 0) + 1) as nat;
        let m = composed_len(rest, wanted);
        lemma_composed_len(rest, wanted);
        let front = composed.subrange(n, n + m);
        let tail = form_from(plain, composed, next, n + m);
        if next < plain.len() {
            lemma_form_letters(plain, composed, next, n + m);
        } else {
            assert(letters(tail) =~= lowered(composed.skip(n + m)));
        }
        assert(front + composed.skip(n + m) =~= wanted);
        lemma_lowered_concat(front, composed.skip(n + m));
        assert(letters(form) =~= lowered(front) + letters(tail));
    } else {
        assert(letters(form) =~= lowered(composed.skip(n)));
    }
}

/// What is searched of a text is its composed form in lower case, letter by
/// letter.
pub proof fn law_search_form_is_composed(plain: Seq<char>, composed: Seq<char>)
    requires
        plain.len() > 0,
        byte_len(plain) <= usize::MAX,
    ensures
        letters(search_form(plain, composed)) == lowered(composed),
{
    lemma_form_letters(plain, composed, 0, 0);
    lemma_plain_map(plain, plain.len() as int);
    assert(composed.skip(0) =~= composed);
    assert(plain.take(plain.len() as int) =~= plain);
}

/// Each letter that is searched has bytes of the text, at least one, and they
/// are those of its character or of a piece of the text that composes to it,
/// unless the piece is the last. The letters stand in the order of their bytes.
pub proof fn law_letters_keep_their_bytes(plain: Seq<char>, composed: Seq<char>, i: int, j: int)
    requires
        byte_len(plain) <= usize::MAX,
        0 <= i <= j < search_form(plain, composed).len(),
    ensures
        search_form(plain, composed)[i].byte_start < search_form(plain, composed)[i].byte_end
            <= byte_len(plain),
        has_source(plain, search_form(plain, composed)[i]),
        search_form(plain, composed)[i].byte_start <= search_form(plain, composed)[j].byte_start,
        search_form(plain, composed)[i].byte_end <= search_form(plain, composed)[j].byte_end,
{
    lemma_search_form(plain, composed);
}

/// The places at which a text stands in one that is in the order of its bytes
/// come in the order in which they begin.
pub proof fn lemma_ranges_in_order(mapped: Seq<LowerChar>, needle: Seq<char>, n: int)
    requires
        in_byte_order(mapped),
        n <= mapped.len(),
    ensures
        in_start_order(ranges_upto(mapped, needle, n)),
        forall|i: int|
            0 <= i < ranges_upto(mapped, needle, n).len() ==> n > 0 && (#[trigger] ranges_upto(
                mapped,
                needle,
                n,
            )[i]).0 <= mapped[n - 1].byte_start,
    decreases n,
{
    if n > 0 {
        lemma_ranges_in_order(mapped, needle, n - 1);
    }
}

/// A place at which a query stands.
#[derive(Debug, Clone, Copy, PartialEq, Eq, Structural)]
pub struct Hit {
    pub page: PageNo,
    pub range: TextRange,
    pub quad: Quad,
}

/// The hit for a range of a layer's text.
pub open spec fn hit_at(layer: TextLayer, range: (usize, usize)) -> Hit {
    Hit {
        page: layer.page,
        range: TextRange { start: range.0, end: range.1 },
        quad: range_quad(layer.glyphs@, range.0 as int, range.1 as int),
    }
}

/// The hits for ranges of a layer's text.
pub open spec fn hits_at(layer: TextLayer, ranges: Seq<(usize, usize)>) -> Seq<Hit> {
    ranges.map_values(|range: (usize, usize)| hit_at(layer, range))
}

/// The hits for ranges of a layer's text, which come in the order in which
/// they begin.
pub(crate) fn place_hits(layer: &TextLayer, ranges: &Vec<(usize, usize)>) -> (hits: Vec<Hit>)
    requires
        in_start_order(ranges@),
    ensures
        hits@ == hits_at(*layer, ranges@),
{
    let mut hits: Vec<Hit> = Vec::new();
    let mut glyph_idx: usize = 0;
    let mut byte_cursor: usize = 0;
    let mut i: usize = 0;
    while i < ranges.len()
        invariant
            in_start_order(ranges@),
            i <= ranges@.len(),
            hits@ == hits_at(*layer, ranges@).take(i as int),
            glyph_idx <= layer.glyphs@.len(),
            byte_cursor == glyph_offset(layer.glyphs@, glyph_idx as int),
            i == 0 ==> byte_cursor == 0,
            i > 0 ==> byte_cursor <= ranges@[i - 1].0,
        decreases ranges@.len() - i,
    {
        let (start, end) = ranges[i];
        proof {
            if i > 0 {
                assert(ranges@[i - 1].0 <= ranges@[i as int].0);
            }
        }
        let quad = quads_for_range_monotonic(
            &layer.glyphs,
            start,
            end,
            &mut glyph_idx,
            &mut byte_cursor,
        );
        hits.push(Hit { page: layer.page, range: TextRange { start, end }, quad });
        i += 1;
        assert(hits_at(*layer, ranges@)[i - 1] == hit_at(*layer, ranges@[i - 1]));
        assert(hits@ =~= hits_at(*layer, ranges@).take(i as int));
    }
    assert(hits@ =~= hits_at(*layer, ranges@));
    hits
}

/// The hits of a query on one page, given the composed forms of the query and
/// of the page's text.
pub fn find_hits_composed(needle_nfc: &str, plain_nfc: &str, layer: &TextLayer) -> (hits: Vec<Hit>)
    ensures
        hits@ == hits_at(*layer, query_ranges(layer.plain@, plain_nfc@, needle_nfc@)),
{
    let ranges = byte_ranges_composed(layer.plain.as_str(), plain_nfc, needle_nfc);
    let bytes = byte_length(layer.plain.as_str());
    proof {
        assert(byte_len(layer.plain@) == bytes);
        let mapped = search_form(layer.plain@, plain_nfc@);
        lemma_search_form(layer.plain@, plain_nfc@);
        lemma_ranges_in_order(mapped, lowered(needle_nfc@), mapped.len() as int);
    }
    place_hits(layer, &ranges)
}

/// The hits of a query on one page.
pub open spec fn page_hits(query: Seq<char>, layer: TextLayer) -> Seq<Hit> {
    hits_at(layer, query_ranges(layer.plain@, nfc_of(layer.plain@), nfc_of(query)))
}

/// The hits of a query on one page, in the order of the text.
pub fn find_hits(query: &str, layer: &TextLayer) -> (hits: Vec<Hit>)
    ensures
        hits@ == page_hits(query@, *layer),
{
    let plain_nfc = nfc(layer.plain.as_str());
    let needle_nfc = nfc(query);
    find_hits_composed(needle_nfc.as_str(), plain_nfc.as_str(), layer)
}

/// Whether one hit comes after another: on a later page, or later on the same.
pub open spec fn after(a: Hit, b: Hit) -> bool {
    a.page.0 > b.page.0 || (a.page.0 == b.page.0 && a.range.start > b.range.start)
}

/// Whether hits come in the order of the pages and of the text.
pub open spec fn in_reading_order(hits: Seq<Hit>) -> bool {
    forall|i: int, j: int|
        0 <= i < j < hits.len() ==> !after(#[trigger] hits[i], #[trigger] hits[j])
}

/// A hit put among others that are in order, behind those that it does not
/// come before.
pub open spec fn with_hit(hits: Seq<Hit>, hit: Hit) -> Seq<Hit>
    decreases hits.len(),
{
    if hits.len() > 0 && after(hits.last(), hit) {
        with_hit(hits.drop_last(), hit).push(hits.last())
    } else {
        hits.push(hit)
    }
}

/// Hits in the order of the pages and of the text; those that tie stay as
/// they were.
pub open spec fn in_order(hits: Seq<Hit>) -> Seq<Hit>
    decreases hits.len(),
{
    if hits.len() == 0 {
        Seq::empty()
    } else {
        with_hit(in_order(hits.drop_last()), hits.last())
    }
}

proof fn lemma_with_hit(hits: Seq<Hit>, hit: Hit)
    requires
        in_reading_order(hits),
    ensures
        in_reading_order(with_hit(hits, hit)),
        with_hit(hits, hit).to_multiset() == hits.to_multiset().insert(hit),
        forall|i: int|
            0 <= i < with_hit(hits, hit).len() ==> #[trigger] with_hit(hits, hit)[i] == hit
                || hits.contains(with_hit(hits, hit)[i]),
    decreases hits.len(),
{
    broadcast use vstd::seq_lib::group_to_multiset_ensures;

    if hits.len() > 0 && after(hits.last(), hit) {
        let front = hits.drop_last();
        lemma_with_hit(front, hit);
        assert(front.push(hits.last()) =~= hits);
        let out = with_hit(hits, hit);
        assert forall|i: int, j: int| 0 <= i < j < out.len() implies !after(
            #[trigger] out[i],
            #[trigger] out[j],
        ) by {
            if j == out.len() - 1 {
                assert(out[i] == with_hit(front, hit)[i]);
            }
        }
        assert(with_hit(front, hit).push(hits.last()).to_multiset() == front.to_multiset().insert(
            hit,
        ).insert(hits.last()));
        assert(front.to_multiset().insert(hit).insert(hits.last()) =~= front.to_multiset().insert(
            hits.last(),
        ).insert(hit));
        assert forall|i: int| 0 <= i < out.len() implies #[trigger] out[i] == hit || hits.contains(
            out[i],
        ) by {
            if i < out.len() - 1 {
                assert(out[i] == with_hit(front, hit)[i]);
                if out[i] != hit {
                    let k = choose|k: int| 0 <= k < front.len() && front[k] == out[i];
                    assert(hits[k] == out[i]);
                }
            } else {
                assert(hits[hits.len() - 1] == out[i]);
            }
        }
    } else {
        let out = hits.push(hit);
        assert forall|i: int, j: int| 0 <= i < j < out.len() implies !after(
            #[trigger] out[i],
            #[trigger] out[j],
        ) by {
            if j == out.len() - 1 && hits.len() > 0 && i < hits.len() - 1 {
                assert(!after(hits[i], hits[hits.len() - 1]));
            }
        }
        assert forall|i: int| 0 <= i < out.len() implies #[trigger] out[i] == hit || hits.contains(
            out[i],
        ) by {
            if i < hits.len() {
                assert(hits[i] == out[i]);
            }
        }
    }
}

/// Putting hits in order loses none and adds none, and leaves them in the
/// order of the pages and of the text.
pub proof fn law_in_order_sorts(hits: Seq<Hit>)
    ensures
        in_reading_order(in_order(hits)),
        in_order(hits).to_multiset() == hits.to_multiset(),
    decreases hits.len(),
{
    broadcast use vstd::seq_lib::group_to_multiset_ensures;

    if hits.len() > 0 {
        law_in_order_sorts(hits.drop_last());
        lemma_with_hit(in_order(hits.drop_last()), hits.last());
        assert(hits.drop_last().push(hits.last()) =~= hits);
    }
}

fn put_hit(hits: &mut Vec<Hit>, hit: Hit)
    ensures
        final(hits)@ == with_hit(old(hits)@, hit),
{
    let mut at = hits.len();
    let ghost whole = hits@;
    proof {
        assert(whole.take(at as int) =~= whole);
        assert(with_hit(whole, hit) =~= with_hit(whole, hit) + whole.skip(at as int));
    }
    while at > 0 && (hits[at - 1].page.0 > hit.page.0 || (hits[at - 1].page.0 == hit.page.0
        && hits[at - 1].range.start > hit.range.start))
        invariant
            at <= hits@.len(),
            hits@ == whole,
            with_hit(whole, hit) == with_hit(whole.take(at as int), hit) + whole.skip(at as int),
        decreases at,
    {
        proof {
            let front = whole.take(at as int);
            assert(front.drop_last() =~= whole.take(at - 1));
            assert(with_hit(front, hit) + whole.skip(at as int) =~= with_hit(
                whole.take(at - 1),
                hit,
            ) + whole.skip(at - 1));
        }
        at -= 1;
    }
    hits.insert(at, hit);
    proof {
        let front = whole.take(at as int);
        assert(with_hit(front, hit) == front.push(hit));
        assert(hits@ =~= front.push(hit) + whole.skip(at as int));
    }
}

/// Puts hits in the order of the pages and of the text.
pub(crate) fn sort_hits(hits: &Vec<Hit>) -> (sorted: Vec<Hit>)
    ensures
        sorted@ == in_order(hits@),
{
    let mut sorted: Vec<Hit> = Vec::new();
    let mut i: usize = 0;
    while i < hits.len()
        invariant
            i <= hits@.len(),
            sorted@ == in_order(hits@.take(i as int)),
        decreases hits@.len() - i,
    {
        put_hit(&mut sorted, hits[i]);
        i += 1;
        assert(hits@.take(i as int).drop_last() =~= hits@.take(i - 1));
    }
    assert(hits@.take(hits@.len() as int) =~= hits@);
    sorted
}

/// The hits of other pages than `page`, with new ones of that page put where
/// the page comes.
pub open spec fn with_page_hits(hits: Seq<Hit>, page: PageNo, fresh: Seq<Hit>) -> Seq<Hit> {
    hits.filter(|hit: Hit| hit.page.0 < page.0) + in_order(fresh) + hits.filter(
        |hit: Hit| hit.page.0 > page.0,
    )
}

/// Replaces the hits of one page.
pub(crate) fn replace_page_hits(hits: &Vec<Hit>, page: PageNo, fresh: &Vec<Hit>) -> (out: Vec<Hit>)
    ensures
        out@ == with_page_hits(hits@, page, fresh@),
{
    let ghost lower = |hit: Hit| hit.page.0 < page.0;
    let ghost higher = |hit: Hit| hit.page.0 > page.0;
    let mut out: Vec<Hit> = Vec::new();
    let mut i: usize = 0;
    while i < hits.len()
        invariant
            i <= hits@.len(),
            lower == (|hit: Hit| hit.page.0 < page.0),
            out@ == hits@.take(i as int).filter(lower),
        decreases hits@.len() - i,
    {
        proof {
            assert(hits@.take(i + 1).drop_last() =~= hits@.take(i as int));
            reveal(Seq::filter);
        }
        if hits[i].page.0 < page.0 {
            out.push(hits[i]);
        }
        i += 1;
    }
    assert(hits@.take(hits@.len() as int) =~= hits@);
    let mut middle = sort_hits(fresh);
    out.append(&mut middle);
    let ghost front = out@;
    let mut j: usize = 0;
    while j < hits.len()
        invariant
            j <= hits@.len(),
            higher == (|hit: Hit| hit.page.0 > page.0),
            out@ == front + hits@.take(j as int).filter(higher),
        decreases hits@.len() - j,
    {
        proof {
            assert(hits@.take(j + 1).drop_last() =~= hits@.take(j as int));
            reveal(Seq::filter);
        }
        if hits[j].page.0 > page.0 {
            out.push(hits[j]);
        }
        j += 1;
        assert(out@ =~= front + hits@.take(j as int).filter(higher));
    }
    out
}


/// The hits of a query on the first `n` pages, page by page, for the pages
/// whose text is there.
pub open spec fn hits_upto(query: Seq<char>, pages: Seq<Option<TextLayer>>, n: int) -> Seq<Hit>
    decreases n,
{
    if n <= 0 {
        Seq::empty()
    } else {
        match pages[n - 1] {
            Some(layer) => hits_upto(query, pages, n - 1) + page_hits(query, layer),
            None => hits_upto(query, pages, n - 1),
        }
    }
}

/// The hits of a query in a document: none for an empty query.
pub open spec fn all_hits(query: Seq<char>, pages: Seq<Option<TextLayer>>) -> Seq<Hit> {
    if query.len() == 0 {
        Seq::empty()
    } else {
        in_order(hits_upto(query, pages, pages.len() as int))
    }
}

/// The hits of a query once one more page came; an empty query has none on it.
pub open spec fn extended(query: Seq<char>, hits: Seq<Hit>, layer: TextLayer) -> Seq<Hit> {
    if query.len() == 0 {
        hits
    } else {
        with_page_hits(hits, layer.page, page_hits(query, layer))
    }
}

/// The first hit with the given page and range.
pub open spec fn place_of(hits: Seq<Hit>, page: PageNo, range: TextRange, n: int) -> Option<int>
    decreases n,
{
    if n <= 0 {
        None
    } else {
        match place_of(hits, page, range, n - 1) {
            Some(i) => Some(i),
            None => if hits[n - 1].page == page && hits[n - 1].range == range {
                Some(n - 1)
            } else {
                None
            },
        }
    }
}

proof fn lemma_place_of(hits: Seq<Hit>, page: PageNo, range: TextRange, n: int)
    requires
        0 <= n <= hits.len(),
    ensures
        match place_of(hits, page, range, n) {
            Some(i) => 0 <= i < n && hits[i].page == page && hits[i].range == range && (forall|
                j: int,
            |
                0 <= j < i ==> (#[trigger] hits[j]).page != page || hits[j].range != range),
            None => forall|j: int|
                0 <= j < n ==> (#[trigger] hits[j]).page != page || hits[j].range != range,
        },
    decreases n,
{
    if n > 0 {
        lemma_place_of(hits, page, range, n - 1);
    }
}

/// A query, its hits in a document and the hit that the reader stands on.
#[derive(Debug, Clone)]
pub struct Search {
    pub query: String,
    pub hits: Vec<Hit>,
    pub current: Option<usize>,
}

impl Search {
    /// The hits come in the order of the pages and of the text, and the one
    /// that the reader stands on is among them.
    pub open spec fn wf(self) -> bool {
        &&& in_reading_order(self.hits@)
        &&& match self.current {
            Some(i) => i < self.hits@.len(),
            None => true,
        }
    }

    pub fn query(&self) -> (query: &str)
        ensures
            query@ == self.query@,
    {
        self.query.as_str()
    }

    pub fn hits(&self) -> (hits: &Vec<Hit>)
        ensures
            hits@ == self.hits@,
    {
        &self.hits
    }

    /// The place of the hit that the reader stands on; none while typing.
    pub fn current(&self) -> (current: Option<usize>)
        ensures
            current == self.current,
    {
        self.current
    }

    pub fn current_hit(&self) -> (hit: Option<&Hit>)
        ensures
            match self.current {
                Some(i) if i < self.hits@.len() => hit == Some(&self.hits@[i as int]),
                _ => hit is None,
            },
    {
        match self.current {
            Some(i) => if i < self.hits.len() {
                Some(&self.hits[i])
            } else {
                None
            },
            None => None,
        }
    }

    /// The hit that a step leads to: round the ends, and from none to the
    /// first or, backwards, to the last.
    pub open spec fn stepped(current: Option<usize>, len: int, delta: int) -> Option<int> {
        if len == 0 {
            None
        } else {
            match current {
                None => Some(
                    if delta >= 0 {
                        0
                    } else {
                        len - 1
                    },
                ),
                Some(i) => Some((i + delta) % len),
            }
        }
    }

    /// Goes on by `delta` hits, round the ends.
    pub fn step(&mut self, delta: i32)
        requires
            old(self).hits@.len() <= i32::MAX,
            old(self).wf(),
        ensures
            final(self).wf(),
            *final(self) == (Search { current: final(self).current, ..*old(self) }),
            match Search::stepped(old(self).current, old(self).hits@.len() as int, delta as int) {
                Some(i) => final(self).current is Some && final(self).current->0 == i && 0 <= i
                    < old(self).hits@.len(),
                None => final(self).current is None,
            },
    {
        if self.hits.len() == 0 {
            self.current = None;
            return;
        }
        let len = self.hits.len() as i64;
        let next: i64 = match self.current {
            None => if delta >= 0 {
                0
            } else {
                len - 1
            },
            Some(i) => {
                let sum: i64 = i as i64 + delta as i64;
                wrapped(sum, len)
            },
        };
        self.current = Some(next as usize);
    }

    /// The hits of a query in a document.
    pub fn derive(query: &str, pages: &Vec<Option<TextLayer>>) -> (search: Search)
        ensures
            search.wf(),
            search.query@ == query@,
            search.hits@ == all_hits(query@, pages@),
            search.current is None,
    {
        if query.is_empty() {
            return Search { query: query.to_owned(), hits: Vec::new(), current: None };
        }
        let mut hits: Vec<Hit> = Vec::new();
        let mut i: usize = 0;
        while i < pages.len()
            invariant
                i <= pages@.len(),
                hits@ == hits_upto(query@, pages@, i as int),
            decreases pages@.len() - i,
        {
            if let Some(layer) = &pages[i] {
                let mut more = find_hits(query, layer);
                hits.append(&mut more);
            }
            i += 1;
        }
        proof {
            law_in_order_sorts(hits@);
        }
        Search { query: query.to_owned(), hits: sort_hits(&hits), current: None }
    }

    /// Where the hit that the reader stands on went.
    pub open spec fn followed(
        before: Seq<Hit>,
        current: Option<usize>,
        after: Seq<Hit>,
    ) -> Option<int> {
        match current {
            Some(i) if i < before.len() => place_of(
                after,
                before[i as int].page,
                before[i as int].range,
                after.len() as int,
            ),
            _ => None,
        }
    }

    /// The text of one more page came: its hits go among the others, and the
    /// reader stays on the hit that it stood on.
    pub fn extend_page(&mut self, layer: &TextLayer)
        requires
            old(self).wf(),
        ensures
            final(self).wf(),
            final(self).query == old(self).query,
            final(self).hits@ == extended(old(self).query@, old(self).hits@, *layer),
            old(self).query@.len() == 0 ==> *final(self) == *old(self),
            old(self).query@.len() > 0 ==> {
                &&& match Search::followed(
                    old(self).hits@,
                    old(self).current,
                    final(self).hits@,
                ) {
                    Some(i) => final(self).current is Some && final(self).current->0 == i,
                    None => final(self).current is None,
                }
            },
    {
        if self.query.as_str().is_empty() {
            return;
        }
        let cur: Option<(PageNo, TextRange)> = match self.current {
            Some(i) => if i < self.hits.len() {
                Some((self.hits[i].page, self.hits[i].range))
            } else {
                None
            },
            None => None,
        };
        let fresh = find_hits(self.query.as_str(), layer);
        let hits = replace_page_hits(&self.hits, layer.page, &fresh);
        proof {
            lemma_fresh_on_page(layer, self.query@);
            lemma_with_page_hits_in_order(self.hits@, layer.page, fresh@);
        }
        self.current = match cur {
            Some((page, range)) => position(&hits, page, range),
            None => None,
        };
        self.hits = hits;
    }
}

pub(crate) proof fn lemma_fresh_on_page(layer: &TextLayer, query: Seq<char>)
    ensures
        forall|i: int|
            0 <= i < page_hits(query, *layer).len() ==> (#[trigger] page_hits(query, *layer)[i]).page
                == layer.page,
{
    let ranges = query_ranges(layer.plain@, nfc_of(layer.plain@), nfc_of(query));
    assert forall|i: int| 0 <= i < page_hits(query, *layer).len() implies (#[trigger] page_hits(
        query,
        *layer,
    )[i]).page == layer.page by {
        assert(page_hits(query, *layer)[i] == hit_at(*layer, ranges[i]));
    }
}

proof fn lemma_in_order_contains(hits: Seq<Hit>, i: int)
    requires
        0 <= i < in_order(hits).len(),
    ensures
        hits.contains(in_order(hits)[i]),
{
    broadcast use vstd::seq_lib::group_to_multiset_ensures;

    law_in_order_sorts(hits);
    let h = in_order(hits)[i];
    assert(in_order(hits).contains(h));
    assert(in_order(hits).to_multiset().count(h) > 0);
}

/// Replacing the hits of a page keeps all of them in order.
pub(crate) proof fn lemma_with_page_hits_in_order(hits: Seq<Hit>, page: PageNo, fresh: Seq<Hit>)
    requires
        in_reading_order(hits),
        forall|i: int| 0 <= i < fresh.len() ==> (#[trigger] fresh[i]).page == page,
    ensures
        in_reading_order(with_page_hits(hits, page, fresh)),
{
    let lower = |hit: Hit| hit.page.0 < page.0;
    let higher = |hit: Hit| hit.page.0 > page.0;
    let low = hits.filter(lower);
    let mid = in_order(fresh);
    let high = hits.filter(higher);
    lemma_filter_in_order(hits, lower);
    lemma_filter_in_order(hits, higher);
    law_in_order_sorts(fresh);
    let out = with_page_hits(hits, page, fresh);
    assert(out =~= low + mid + high);
    assert forall|i: int| 0 <= i < mid.len() implies (#[trigger] mid[i]).page == page by {
        lemma_in_order_contains(fresh, i);
    }
    assert forall|i: int, j: int| 0 <= i < j < out.len() implies !after(
        #[trigger] out[i],
        #[trigger] out[j],
    ) by {
        let l = low.len() as int;
        let m = mid.len() as int;
        if j < l {
            assert(out[i] == low[i] && out[j] == low[j]);
        } else if i >= l + m {
            assert(out[i] == high[i - l - m] && out[j] == high[j - l - m]);
        } else if i >= l && j < l + m {
            assert(out[i] == mid[i - l] && out[j] == mid[j - l]);
        } else if i < l && j < l + m {
            assert(lower(low[i]));
            assert(out[j] == mid[j - l]);
        } else if i < l {
            assert(lower(low[i]) && higher(high[j - l - m]));
        } else {
            assert(out[i] == mid[i - l]);
            assert(higher(high[j - l - m]));
        }
    }
}

proof fn lemma_filter_in_order(hits: Seq<Hit>, keep: spec_fn(Hit) -> bool)
    requires
        in_reading_order(hits),
    ensures
        in_reading_order(hits.filter(keep)),
        forall|i: int| 0 <= i < hits.filter(keep).len() ==> keep(#[trigger] hits.filter(keep)[i]),
        forall|h: Hit| #[trigger] hits.filter(keep).contains(h) ==> hits.contains(h),
    decreases hits.len(),
{
    reveal(Seq::filter);
    if hits.len() > 0 {
        let front = hits.drop_last();
        lemma_filter_in_order(front, keep);
        let out = hits.filter(keep);
        let rest = front.filter(keep);
        assert forall|i: int, j: int| 0 <= i < j < out.len() implies !after(
            #[trigger] out[i],
            #[trigger] out[j],
        ) by {
            if j == rest.len() {
                assert(rest.contains(rest[i]));
                let k = choose|k: int| 0 <= k < front.len() && front[k] == rest[i];
                assert(hits[k] == out[i]);
                assert(!after(hits[k], hits[hits.len() - 1]));
            }
        }
        assert forall|h: Hit| #[trigger] out.contains(h) implies hits.contains(h) by {
            let k = choose|k: int| 0 <= k < out.len() && out[k] == h;
            if k < rest.len() {
                assert(rest.contains(rest[k]));
                let m = choose|m: int| 0 <= m < front.len() && front[m] == h;
                assert(hits[m] == h);
            } else {
                assert(hits[hits.len() - 1] == h);
            }
        }
    }
}

fn position(hits: &Vec<Hit>, page: PageNo, range: TextRange) -> (r: Option<usize>)
    ensures
        match place_of(hits@, page, range, hits@.len() as int) {
            Some(i) => r is Some && r->0 == i && 0 <= i < hits@.len(),
            None => r is None,
        },
{
    let mut i: usize = 0;
    while i < hits.len()
        invariant
            i <= hits@.len(),
            place_of(hits@, page, range, i as int) is None,
        decreases hits@.len() - i,
    {
        if hits[i].page == page && hits[i].range == range {
            proof {
                assert(place_of(hits@, page, range, i + 1) == Some(i as int));
                lemma_place_stays(hits@, page, range, i + 1, hits@.len() as int);
            }
            return Some(i);
        }
        i += 1;
    }
    None
}

proof fn lemma_place_stays(hits: Seq<Hit>, page: PageNo, range: TextRange, m: int, n: int)
    requires
        m <= n,
        place_of(hits, page, range, m) is Some,
    ensures
        place_of(hits, page, range, n) == place_of(hits, page, range, m),
    decreases n,
{
    if m < n {
        lemma_place_stays(hits, page, range, m, n - 1);
    }
}

/// A number brought into the range from zero up to `len`, round the ends.
pub(crate) fn wrapped(sum: i64, len: i64) -> (r: i64)
    requires
        0 < len,
    ensures
        r == (sum as int) % (len as int),
        0 <= r < len,
{
    if sum >= 0 {
        sum % len
    } else {
        // sum == -(k * len + part)
        let back: u64 = (-(sum + 1)) as u64;
        let part: u64 = back % (len as u64);
        let r: i64 = len - 1 - part as i64;
        proof {
            let k = back as int / len as int;
            vstd::arithmetic::div_mod::lemma_fundamental_div_mod(back as int, len as int);
            assert(back == k * len + part) by (nonlinear_arith)
                requires
                    back == len * k + part,
            ;
            assert(sum == (-k - 1) * len + r) by (nonlinear_arith)
                requires
                    back == k * len + part,
                    back == -(sum + 1),
                    r == len - 1 - part,
            ;
            vstd::arithmetic::div_mod::lemma_fundamental_div_mod_converse(
                sum as int,
                len as int,
                -k - 1,
                r as int,
            );
        }
        r
    }
}

/// A step one way and a step the other lead back to the hit that they began
/// on, also round the ends.
pub proof fn law_steps_cancel(i: usize, len: int, delta: int)
    requires
        0 <= i < len,
    ensures
        ({
            let there = Search::stepped(Some(i), len, delta);
            &&& there is Some
            &&& 0 <= there->0 < len
            &&& len <= usize::MAX ==> Search::stepped(Some(there->0 as usize), len, -delta)
                == Some(i as int)
        }),
{
    vstd::arithmetic::div_mod::lemma_mod_bound(i + delta, len);
    vstd::arithmetic::div_mod::lemma_add_mod_noop(i + delta, -delta, len);
    vstd::arithmetic::div_mod::lemma_add_mod_noop((i + delta) % len, -delta, len);
    vstd::arithmetic::div_mod::lemma_mod_twice(i + delta, len);
    vstd::arithmetic::div_mod::lemma_small_mod(i as nat, len as nat);
}

/// The text of a page that comes does not take the reader off a hit on
/// another page.
pub proof fn law_late_page_keeps_current(
    hits: Seq<Hit>,
    i: usize,
    page: PageNo,
    fresh: Seq<Hit>,
)
    requires
        i < hits.len(),
        hits[i as int].page != page,
    ensures
        ({
            let after = with_page_hits(hits, page, fresh);
            let k = Search::followed(hits, Some(i), after);
            &&& k is Some
            &&& 0 <= k->0 < after.len()
            &&& after[k->0].page == hits[i as int].page
            &&& after[k->0].range == hits[i as int].range
        }),
{
    broadcast use vstd::seq_lib::group_filter_ensures;

    let hit = hits[i as int];
    let lower = |h: Hit| h.page.0 < page.0;
    let higher = |h: Hit| h.page.0 > page.0;
    let after = with_page_hits(hits, page, fresh);
    let low = hits.filter(lower);
    let mid = in_order(fresh);
    let high = hits.filter(higher);
    assert(after =~= low + mid + high);
    if hit.page.0 < page.0 {
        assert(lower(hit));
        assert(low.contains(hit));
        let m = choose|m: int| 0 <= m < low.len() && low[m] == hit;
        assert(after[m] == hit);
    } else {
        assert(higher(hit));
        assert(high.contains(hit));
        let m = choose|m: int| 0 <= m < high.len() && high[m] == hit;
        assert(after[low.len() + mid.len() + m] == hit);
    }
    lemma_place_of(after, hit.page, hit.range, after.len() as int);
}

proof fn lemma_match_found(mapped: Seq<LowerChar>, needle: Seq<char>, i: int, n: int)
    requires
        0 <= i < n,
        matches_at(mapped, needle, i),
    ensures
        ranges_upto(mapped, needle, n).contains(
            (mapped[i].byte_start, mapped[i + needle.len() - 1].byte_end),
        ),
    decreases n,
{
    let range = (mapped[i].byte_start, mapped[i + needle.len() - 1].byte_end);
    let front = ranges_upto(mapped, needle, n - 1);
    if i == n - 1 {
        assert(ranges_upto(mapped, needle, n)[front.len() as int] == range);
    } else {
        lemma_match_found(mapped, needle, i, n - 1);
        let k = choose|k: int| 0 <= k < front.len() && front[k] == range;
        assert(ranges_upto(mapped, needle, n)[k] == range);
    }
}

/// No place at which a query stands is missed, those that overlap included.
pub proof fn law_every_match_is_found(mapped: Seq<LowerChar>, needle: Seq<char>, i: int)
    requires
        needle.len() > 0,
        matches_at(mapped, needle, i),
    ensures
        match_ranges(mapped, needle).contains(
            (mapped[i].byte_start, mapped[i + needle.len() - 1].byte_end),
        ),
{
    lemma_match_found(mapped, needle, i, mapped.len() as int);
}

proof fn lemma_found_matches(mapped: Seq<LowerChar>, needle: Seq<char>, n: int, k: int)
    requires
        0 <= k < ranges_upto(mapped, needle, n).len(),
    ensures
        exists|i: int|
            #![trigger mapped[i]]
            matches_at(mapped, needle, i) && ranges_upto(mapped, needle, n)[k] == (
                mapped[i].byte_start,
                mapped[i + needle.len() - 1].byte_end,
            ),
    decreases n,
{
    let front = ranges_upto(mapped, needle, n - 1);
    if n > 0 {
        if k < front.len() {
            lemma_found_matches(mapped, needle, n - 1, k);
            assert(ranges_upto(mapped, needle, n)[k] == front[k]);
        } else {
            assert(matches_at(mapped, needle, n - 1));
            assert(mapped[n - 1].byte_start == ranges_upto(mapped, needle, n)[k].0);
        }
    }
}

/// Every range that is found is one at which the query stands.
pub proof fn law_every_range_matches(mapped: Seq<LowerChar>, needle: Seq<char>, k: int)
    requires
        0 <= k < match_ranges(mapped, needle).len(),
    ensures
        exists|i: int|
            #![trigger mapped[i]]
            matches_at(mapped, needle, i) && match_ranges(mapped, needle)[k] == (
                mapped[i].byte_start,
                mapped[i + needle.len() - 1].byte_end,
            ),
{
    lemma_found_matches(mapped, needle, mapped.len() as int, k);
}

/// Whether the text of each page stands in its place, and is short enough for
/// its bytes to be counted.
pub open spec fn in_place(pages: Seq<Option<TextLayer>>) -> bool {
    forall|i: int|
        0 <= i < pages.len() && (#[trigger] pages[i]) is Some ==> pages[i]->0.page.0 == i
            && byte_len(pages[i]->0.plain@) <= usize::MAX
}

pub(crate) proof fn lemma_page_hits(query: Seq<char>, layer: TextLayer)
    requires
        byte_len(layer.plain@) <= usize::MAX,
    ensures
        in_reading_order(page_hits(query, layer)),
        forall|i: int|
            0 <= i < page_hits(query, layer).len() ==> (#[trigger] page_hits(query, layer)[i]).page
                == layer.page,
{
    let composed = nfc_of(layer.plain@);
    let mapped = search_form(layer.plain@, composed);
    let ranges = query_ranges(layer.plain@, composed, nfc_of(query));
    let hits = page_hits(query, layer);
    lemma_search_form(layer.plain@, composed);
    lemma_ranges_in_order(mapped, lowered(nfc_of(query)), mapped.len() as int);
    assert(in_start_order(ranges));
    assert forall|i: int| 0 <= i < hits.len() implies (#[trigger] hits[i]).page == layer.page
        && hits[i].range.start == ranges[i].0 by {
        assert(hits[i] == hit_at(layer, ranges[i]));
    }
    assert forall|i: int, j: int| 0 <= i < j < hits.len() implies !after(
        #[trigger] hits[i],
        #[trigger] hits[j],
    ) by {
        assert(ranges[i].0 <= ranges[j].0);
    }
}

proof fn lemma_gathered_hits(query: Seq<char>, pages: Seq<Option<TextLayer>>, n: int)
    ensures
        hits_upto(query, pages, n) == gathered(|l: TextLayer| page_hits(query, l), pages, n),
    decreases n,
{
    if n > 0 {
        lemma_gathered_hits(query, pages, n - 1);
    }
}

/// A search that is told of a page as its text comes finds what a search of
/// all the pages finds.
pub proof fn law_pages_may_come_late(
    query: Seq<char>,
    pages: Seq<Option<TextLayer>>,
    layer: TextLayer,
)
    requires
        in_place(pages),
        layer.page.0 < pages.len(),
        byte_len(layer.plain@) <= usize::MAX,
    ensures
        extended(query, all_hits(query, pages), layer) == all_hits(
            query,
            pages.update(layer.page.0 as int, Some(layer)),
        ),
{
    let n = pages.len() as int;
    let found = |l: TextLayer| page_hits(query, l);
    assert forall|i: int| 0 <= i < n && (#[trigger] pages[i]) is Some implies orderly(
        found,
        pages[i]->0,
    ) by {
        lemma_page_hits(query, pages[i]->0);
    }
    lemma_page_hits(query, layer);
    lemma_late_page(found, pages, layer);
    lemma_gathered_hits(query, pages, n);
    lemma_gathered_hits(query, pages.update(layer.page.0 as int, Some(layer)), n);
}

/// Every range that a query is found at has bytes of the text, at least one,
/// and covers the bytes of each letter that matched.
pub proof fn law_range_covers_match(
    plain: Seq<char>,
    plain_nfc: Seq<char>,
    needle_nfc: Seq<char>,
    k: int,
)
    requires
        byte_len(plain) <= usize::MAX,
        0 <= k < query_ranges(plain, plain_nfc, needle_nfc).len(),
    ensures
        query_ranges(plain, plain_nfc, needle_nfc)[k].0 < query_ranges(
            plain,
            plain_nfc,
            needle_nfc,
        )[k].1 <= byte_len(plain),
        exists|i: int| #[trigger]
            matches_at(search_form(plain, plain_nfc), lowered(needle_nfc), i) && covers_letters(
                search_form(plain, plain_nfc),
                query_ranges(plain, plain_nfc, needle_nfc)[k],
                i,
                i + lowered(needle_nfc).len(),
            ),
{
    let mapped = search_form(plain, plain_nfc);
    let needle = lowered(needle_nfc);
    let range = query_ranges(plain, plain_nfc, needle_nfc)[k];
    lemma_search_form(plain, plain_nfc);
    law_every_range_matches(mapped, needle, k);
    let i = choose|i: int|
        #![trigger mapped[i]]
        matches_at(mapped, needle, i) && range == (
            mapped[i].byte_start,
            mapped[i + needle.len() - 1].byte_end,
        );
    let last = i + needle.len() - 1;
    assert(mapped[i].byte_start < mapped[i].byte_end);
    assert(mapped[i].byte_end <= mapped[last].byte_end);
    assert(covers_letters(mapped, range, i, i + needle.len()));
}

/// Whether a range begins with letter `i`, ends with the one before `end`, and
/// covers the bytes of all between.
pub open spec fn covers_letters(
    mapped: Seq<LowerChar>,
    range: (usize, usize),
    i: int,
    end: int,
) -> bool {
    &&& 0 <= i < end <= mapped.len()
    &&& range.0 == mapped[i].byte_start
    &&& range.1 == mapped[end - 1].byte_end
    &&& forall|j: int|
        i <= j < end ==> range.0 <= (#[trigger] mapped[j]).byte_start && mapped[j].byte_end
            <= range.1
}

proof fn lemma_same_page_hits(hits: Seq<Hit>, page: PageNo, fresh: Seq<Hit>)
    requires
        forall|i: int| 0 <= i < fresh.len() ==> (#[trigger] fresh[i]).page == page,
    ensures
        with_page_hits(with_page_hits(hits, page, fresh), page, fresh) == with_page_hits(
            hits,
            page,
            fresh,
        ),
{
    let lower = |hit: Hit| hit.page.0 < page.0;
    let higher = |hit: Hit| hit.page.0 > page.0;
    let low = hits.filter(lower);
    let mid = in_order(fresh);
    let high = hits.filter(higher);
    let none = Seq::<Hit>::empty();
    assert forall|i: int| 0 <= i < mid.len() implies (#[trigger] mid[i]).page == page by {
        lemma_in_order_contains(fresh, i);
    }
    lemma_filtered(hits, lower);
    lemma_filtered(hits, higher);
    lemma_filter_all(low, lower);
    lemma_filter_none(mid, lower);
    lemma_filter_none(high, lower);
    lemma_filter_none(low, higher);
    lemma_filter_none(mid, higher);
    lemma_filter_all(high, higher);
    lemma_filter_split(low + mid, high, lower);
    lemma_filter_split(low, mid, lower);
    lemma_filter_split(low + mid, high, higher);
    lemma_filter_split(low, mid, higher);
    assert(low + none + none =~= low);
    assert(none + none + high =~= high);
}

proof fn lemma_filtered(hits: Seq<Hit>, keep: spec_fn(Hit) -> bool)
    ensures
        forall|i: int| 0 <= i < hits.filter(keep).len() ==> keep(#[trigger] hits.filter(keep)[i]),
    decreases hits.len(),
{
    reveal(Seq::filter);
    if hits.len() > 0 {
        lemma_filtered(hits.drop_last(), keep);
    }
}

proof fn lemma_filter_all(hits: Seq<Hit>, keep: spec_fn(Hit) -> bool)
    requires
        forall|i: int| 0 <= i < hits.len() ==> keep(#[trigger] hits[i]),
    ensures
        hits.filter(keep) == hits,
    decreases hits.len(),
{
    reveal(Seq::filter);
    if hits.len() > 0 {
        lemma_filter_all(hits.drop_last(), keep);
        assert(hits.drop_last().push(hits.last()) =~= hits);
    } else {
        assert(hits.filter(keep) =~= hits);
    }
}

proof fn lemma_filter_none(hits: Seq<Hit>, keep: spec_fn(Hit) -> bool)
    requires
        forall|i: int| 0 <= i < hits.len() ==> !keep(#[trigger] hits[i]),
    ensures
        hits.filter(keep) == Seq::<Hit>::empty(),
    decreases hits.len(),
{
    reveal(Seq::filter);
    if hits.len() > 0 {
        lemma_filter_none(hits.drop_last(), keep);
    }
}

pub(crate) proof fn lemma_page_again(query: Seq<char>, hits: Seq<Hit>, layer: TextLayer)
    ensures
        extended(query, extended(query, hits, layer), layer) == extended(query, hits, layer),
{
    if query.len() > 0 {
        let fresh = page_hits(query, layer);
        assert(forall|i: int| 0 <= i < fresh.len() ==> (#[trigger] fresh[i]).page == layer.page) by {
            lemma_fresh_on_page(&layer, query);
        }
        lemma_same_page_hits(hits, layer.page, fresh);
    }
}

proof fn lemma_followed_again(before: Seq<Hit>, current: Option<usize>, after: Seq<Hit>)
    requires
        after.len() <= usize::MAX,
    ensures
        match Search::followed(before, current, after) {
            Some(i) => 0 <= i < after.len() && Search::followed(after, Some(i as usize), after)
                == Some(i),
            None => true,
        },
{
    match Search::followed(before, current, after) {
        Some(i) => {
            let hit = before[current->0 as int];
            lemma_place_of(after, hit.page, hit.range, after.len() as int);
        },
        None => {},
    }
}

/// A page that comes a second time changes neither the hits nor the one that
/// the reader stands on.
pub proof fn law_page_twice_changes_nothing(
    query: Seq<char>,
    hits: Seq<Hit>,
    current: Option<usize>,
    layer: TextLayer,
)
    requires
        extended(query, hits, layer).len() <= usize::MAX,
    ensures
        extended(query, extended(query, hits, layer), layer) == extended(query, hits, layer),
        match Search::followed(hits, current, extended(query, hits, layer)) {
            Some(i) => Search::followed(
                extended(query, hits, layer),
                Some(i as usize),
                extended(query, hits, layer),
            ) == Some(i),
            None => true,
        },
{
    lemma_page_again(query, hits, layer);
    lemma_followed_again(hits, current, extended(query, hits, layer));
}

} // verus!
