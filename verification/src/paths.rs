//! The parts of paths: names, folders, and whether two paths lead the same
//! way.

use vstd::prelude::*;

use crate::native::{
    display, displayed, find_prefix_end, kind_of, look_at, prefix_of, rest_at, rest_of, rooted,
    PathKind, ESCAPE,
};
use crate::text::{chars_of, joined, maybe_text, same_text, sub_text};

verus! {

/// Where the text behind the last `ch` of the first `n` characters begins;
/// zero where there is none.
pub open spec fn behind_last(chars: Seq<char>, ch: char, n: int) -> int
    decreases n,
{
    if n <= 0 {
        0
    } else if chars[n - 1] == ch {
        n
    } else {
        behind_last(chars, ch, n - 1)
    }
}

/// Where the part begins that the first `n` characters end in.
pub open spec fn part_start(chars: Seq<char>, kind: PathKind, n: int) -> int
    decreases n,
{
    if n <= 0 {
        0
    } else if kind.separates(chars[n - 1]) {
        n
    } else {
        part_start(chars, kind, n - 1)
    }
}

/// Where the last part that counts begins and ends.
pub open spec fn last_part(rest: Seq<char>, kind: PathKind) -> Option<(int, int)>
    decreases rest.len(),
{
    let start = part_start(rest, kind, rest.len() as int);
    if kind.skips(rest.skip(start)) {
        if start <= 0 || start > rest.len() {
            None
        } else {
            last_part(rest.take(start - 1), kind)
        }
    } else {
        Some((start, rest.len() as int))
    }
}

/// The name at the end of a path; none where it ends at a root, at the folder
/// that one is in, or above itself.
pub open spec fn name_of(path: Seq<char>) -> Option<Seq<char>> {
    match last_part(rest_of(path), kind_of(path)) {
        Some((start, end)) => {
            let part = rest_of(path).subrange(start, end);
            if part == seq!['.', '.'] || part == seq!['.'] {
                None
            } else {
                Some(part)
            }
        },
        None => None,
    }
}

/// A name up to its last dot; a dot that it begins with does not count.
pub open spec fn stem_of(name: Seq<char>) -> Seq<char> {
    let dot = behind_last(name, '.', name.len() as int);
    if dot <= 1 {
        name
    } else {
        name.take(dot - 1)
    }
}

/// What follows the last dot of a name.
pub open spec fn extension_of(name: Seq<char>) -> Option<Seq<char>> {
    let dot = behind_last(name, '.', name.len() as int);
    if dot <= 1 {
        None
    } else {
        Some(name.skip(dot))
    }
}

fn find_behind(chars: &Vec<char>, ch: char, n: usize) -> (r: usize)
    requires
        n <= chars@.len(),
    ensures
        r == behind_last(chars@, ch, n as int),
        r <= n,
{
    let mut i: usize = n;
    while i > 0
        invariant
            i <= n <= chars@.len(),
            behind_last(chars@, ch, n as int) == behind_last(chars@, ch, i as int),
        decreases i,
    {
        if chars[i - 1] == ch {
            return i;
        }
        i -= 1;
    }
    0
}

proof fn lemma_part_start_prefix(chars: Seq<char>, kind: PathKind, m: int, n: int)
    requires
        0 <= n <= m <= chars.len(),
    ensures
        part_start(chars.take(m), kind, n) == part_start(chars, kind, n),
    decreases n,
{
    if n > 0 {
        lemma_part_start_prefix(chars, kind, m, n - 1);
    }
}

fn find_part_start(chars: &Vec<char>, kind: PathKind, n: usize) -> (r: usize)
    requires
        n <= chars@.len(),
    ensures
        r == part_start(chars@, kind, n as int),
        r <= n,
{
    let mut i: usize = n;
    while i > 0
        invariant
            i <= n <= chars@.len(),
            part_start(chars@, kind, n as int) == part_start(chars@, kind, i as int),
        decreases i,
    {
        if kind.is_separator(chars[i - 1]) {
            return i;
        }
        i -= 1;
    }
    0
}

fn find_last_part(chars: &Vec<char>, kind: PathKind) -> (r: Option<(usize, usize)>)
    ensures
        match last_part(chars@, kind) {
            Some((start, end)) => r is Some && (r->0).0 == start && (r->0).1 == end && 0 <= start
                <= end <= chars@.len(),
            None => r is None,
        },
{
    let mut end: usize = chars.len();
    assert(chars@.take(end as int) =~= chars@);
    loop
        invariant
            end <= chars@.len(),
            last_part(chars@, kind) == last_part(chars@.take(end as int), kind),
        decreases end,
    {
        let start = find_part_start(chars, kind, end);
        let ghost path = chars@.take(end as int);
        let ghost part = path.skip(start as int);
        proof {
            lemma_part_start_prefix(chars@, kind, end as int, end as int);
        }
        let blank = start == end || (end - start == 1 && chars[start] == '.' && kind
            != PathKind::Verbatim);
        proof {
            if end - start == 1 && chars@[start as int] == '.' {
                assert(part =~= seq!['.']);
            }
            if part == seq!['.'] {
                assert(part.len() == 1 && part[0] == '.');
            }
        }
        if !blank {
            return Some((start, end));
        }
        if start == 0 {
            return None;
        }
        assert(path.take(start - 1) =~= chars@.take(start - 1));
        end = start - 1;
    }
}

/// How the parts of a path are set apart, and the parts.
fn look_at_rest(path: &str) -> (r: (PathKind, Vec<char>))
    ensures
        r.0 == kind_of(path@),
        r.1@ == rest_of(path@),
{
    let chars = chars_of(path);
    let (kind, at) = look_at(&chars);
    let rest = chars_of(sub_text(&chars, at, chars.len()).as_str());
    assert(rest@ =~= rest_of(path@));
    (kind, rest)
}

/// The name at the end of a path.
pub fn file_name(path: &str) -> (r: Option<String>)
    ensures
        match name_of(path@) {
            Some(name) => r is Some && r->0@ == name,
            None => r is None,
        },
{
    let (kind, chars) = look_at_rest(path);
    match find_last_part(&chars, kind) {
        Some((start, end)) => {
            let here = end - start == 1 && chars[start] == '.';
            let up = end - start == 2 && chars[start] == '.' && chars[start + 1] == '.';
            proof {
                let part = chars@.subrange(start as int, end as int);
                if here {
                    assert(part =~= seq!['.']);
                }
                if part == seq!['.'] {
                    assert(part.len() == 1 && part[0] == '.');
                }
                if up {
                    assert(part =~= seq!['.', '.']);
                }
                if part == seq!['.', '.'] {
                    assert(part.len() == 2 && part[0] == '.' && part[1] == '.');
                }
            }
            if here || up {
                None
            } else {
                Some(sub_text(&chars, start, end))
            }
        },
        None => None,
    }
}

/// The name at the end of a path, up to its last dot.
pub fn file_stem(path: &str) -> (r: Option<String>)
    ensures
        match name_of(path@) {
            Some(name) => r is Some && r->0@ == stem_of(name),
            None => r is None,
        },
{
    match file_name(path) {
        Some(name) => {
            let chars = chars_of(name.as_str());
            let dot = find_behind(&chars, '.', chars.len());
            if dot <= 1 {
                Some(name)
            } else {
                assert(chars@.take(dot - 1) =~= chars@.subrange(0, dot - 1));
                Some(sub_text(&chars, 0, dot - 1))
            }
        },
        None => None,
    }
}

/// The name proposed for a marked copy: the document's own, up to its last
/// dot, with a suffix.
pub open spec fn marked_name(path: Seq<char>) -> Seq<char> {
    match name_of(path) {
        Some(name) => displayed(stem_of(name)) + " (marcado).pdf"@,
        None => "documento"@ + " (marcado).pdf"@,
    }
}

/// The name proposed for a marked copy of a document.
pub fn suggested_marked_name(source: &str) -> (name: String)
    ensures
        name@ == marked_name(source@),
{
    match file_stem(source) {
        Some(stem) => joined(display(stem.as_str()).as_str(), " (marcado).pdf"),
        None => joined("documento", " (marcado).pdf"),
    }
}

/// A letter of the first 128 characters in lower case.
pub open spec fn ascii_lower(ch: char) -> char {
    if 'A' <= ch <= 'Z' {
        ((ch as u32 + 32) as u8) as char
    } else {
        ch
    }
}

/// Whether a name ends in the extension of a document.
pub open spec fn pdf_name(path: Seq<char>) -> bool {
    match name_of(path) {
        Some(name) => match extension_of(name) {
            Some(ext) => ext.len() == 3 && ascii_lower(ext[0]) == 'p' && ascii_lower(ext[1]) == 'd'
                && ascii_lower(ext[2]) == 'f',
            None => false,
        },
        None => false,
    }
}

fn lower_is(ch: char, lower: char, upper: char) -> (r: bool)
    requires
        'a' <= lower <= 'z',
        ascii_lower(upper) == lower,
        'A' <= upper <= 'Z',
    ensures
        r == (ascii_lower(ch) == lower),
{
    ch == lower || ch == upper
}

/// Whether a path is that of a document.
pub fn is_pdf(path: &str) -> (r: bool)
    ensures
        r == pdf_name(path@),
{
    match file_name(path) {
        Some(name) => {
            let chars = chars_of(name.as_str());
            let dot = find_behind(&chars, '.', chars.len());
            dot > 1 && chars.len() - dot == 3 && lower_is(chars[dot], 'p', 'P') && lower_is(
                chars[dot + 1],
                'd',
                'D',
            ) && lower_is(chars[dot + 2], 'f', 'F')
        },
        None => false,
    }
}

/// Whether parts end in a separator or in a single dot that does not count,
/// other than what they begin with.
pub open spec fn loose_end(rest: Seq<char>, kind: PathKind) -> bool {
    rest.len() > 1 && (kind.separates(rest.last()) || (kind != PathKind::Verbatim && rest.last()
        == '.' && kind.separates(rest[rest.len() - 2])))
}

/// Parts without the separators and the single dots that they end in, but for
/// the separator or the dot that they begin with.
pub open spec fn trimmed(rest: Seq<char>, kind: PathKind) -> Seq<char>
    decreases rest.len(),
{
    if loose_end(rest, kind) {
        trimmed(rest.drop_last(), kind)
    } else {
        rest
    }
}

/// The folder that a path lies in; none for a root.
pub open spec fn folder_of(path: Seq<char>) -> Option<Seq<char>> {
    let rest = rest_of(path);
    let before = path.take(rest_at(path));
    match last_part(rest, kind_of(path)) {
        Some((start, end)) => Some(before + trimmed(rest.take(start), kind_of(path))),
        None => if rest.len() > 0 && rest[0] == '.' {
            Some(before)
        } else {
            None
        },
    }
}

fn trim_parts(rest: &Vec<char>, kind: PathKind, start: usize) -> (r: String)
    requires
        start <= rest@.len(),
    ensures
        r@ == trimmed(rest@.take(start as int), kind),
{
    let mut end: usize = start;
    while end > 1 && (kind.is_separator(rest[end - 1]) || (kind != PathKind::Verbatim && rest[end - 1]
        == '.' && kind.is_separator(rest[end - 2])))
        invariant
            end <= start <= rest@.len(),
            trimmed(rest@.take(start as int), kind) == trimmed(rest@.take(end as int), kind),
        decreases end,
    {
        assert(rest@.take(end as int).drop_last() =~= rest@.take(end - 1));
        end -= 1;
    }
    assert(rest@.take(end as int) =~= rest@.subrange(0, end as int));
    sub_text(rest, 0, end)
}

/// The folder that a path lies in; none for a root.
pub fn parent_of(path: &str) -> (r: Option<String>)
    ensures
        match folder_of(path@) {
            Some(folder) => r is Some && r->0@ == folder,
            None => r is None,
        },
{
    let chars = chars_of(path);
    let (kind, at) = look_at(&chars);
    let before = sub_text(&chars, 0, at);
    let rest = chars_of(sub_text(&chars, at, chars.len()).as_str());
    assert(before@ =~= path@.take(rest_at(path@)));
    assert(rest@ =~= rest_of(path@));
    match find_last_part(&rest, kind) {
        Some((start, _)) => Some(
            joined(before.as_str(), trim_parts(&rest, kind, start).as_str()),
        ),
        None => {
            if rest.len() > 0 && rest[0] == '.' {
                Some(before)
            } else {
                None
            }
        },
    }
}

/// What a path is without a name: at a root, which is an empty part, in the
/// folder that one is in, or nothing.
pub open spec fn head_of(rest: Seq<char>, kind: PathKind) -> Seq<Seq<char>> {
    if rest.len() == 0 {
        Seq::empty()
    } else if kind.separates(rest[0]) {
        seq![Seq::empty()]
    } else {
        seq![rest.take(1)]
    }
}

/// The parts that count, the first of them the root or the dot that the path
/// begins with. Separators in a row count once, and other single dots not at
/// all.
pub open spec fn parts_of(rest: Seq<char>, kind: PathKind) -> Seq<Seq<char>>
    decreases rest.len(),
{
    match last_part(rest, kind) {
        Some((start, end)) => if 0 <= start < rest.len() {
            parts_of(rest.take(start), kind).push(rest.subrange(start, end))
        } else {
            Seq::empty()
        },
        None => head_of(rest, kind),
    }
}

/// The parts of a path. A share is a root also where no separator follows.
pub open spec fn path_parts(path: Seq<char>) -> Seq<Seq<char>> {
    if rest_of(path).len() == 0 && rooted(prefix_of(path)) {
        seq![Seq::empty()]
    } else {
        parts_of(rest_of(path), kind_of(path))
    }
}

/// A character of a prefix, for comparing: a slash is a backslash there.
pub open spec fn prefix_char(ch: char) -> char {
    if ch == '/' {
        '\\'
    } else {
        ch
    }
}

/// Whether two prefixes lead to the same place: the case of a drive's letter
/// does not count.
pub open spec fn same_prefix(a: Seq<char>, b: Seq<char>) -> bool {
    &&& a.len() == b.len()
    &&& forall|i: int|
        0 <= i < a.len() ==> prefix_char(#[trigger] a[i]) == prefix_char(b[i]) || (i == a.len() - 2
            && a[i + 1] == ':' && b[i + 1] == ':' && ascii_lower(a[i]) == ascii_lower(b[i]))
}

/// Whether two paths lead the same way: they have the same parts.
pub open spec fn same_place(a: Seq<char>, b: Seq<char>) -> bool {
    &&& kind_of(a) == kind_of(b)
    &&& same_prefix(prefix_of(a), prefix_of(b))
    &&& path_parts(a) == path_parts(b)
}

proof fn lemma_part_start(chars: Seq<char>, kind: PathKind, n: int)
    requires
        0 <= n <= chars.len(),
    ensures
        0 <= part_start(chars, kind, n) <= n,
        part_start(chars, kind, n) > 0 ==> kind.separates(
            chars[part_start(chars, kind, n) - 1],
        ),
    decreases n,
{
    if n > 0 {
        lemma_part_start(chars, kind, n - 1);
    }
}

proof fn lemma_last_part(rest: Seq<char>, kind: PathKind)
    ensures
        match last_part(rest, kind) {
            Some((start, end)) => {
                &&& 0 <= start < end <= rest.len()
                &&& !kind.skips(rest.subrange(start, end))
            },
            None => rest.len() > 0 ==> kind.separates(rest[0]) || (rest[0] == '.' && kind
                != PathKind::Verbatim),
        },
    decreases rest.len(),
{
    let start = part_start(rest, kind, rest.len() as int);
    lemma_part_start(rest, kind, rest.len() as int);
    let part = rest.skip(start);
    if kind.skips(part) {
        if start > 0 {
            let front = rest.take(start - 1);
            lemma_last_part(front, kind);
            match last_part(front, kind) {
                Some((s, e)) => {
                    assert(front.subrange(s, e) =~= rest.subrange(s, e));
                },
                None => {
                    if front.len() > 0 {
                        assert(front[0] == rest[0]);
                    }
                },
            }
        } else if rest.len() > 0 {
            assert(part[0] == rest[0]);
        }
    } else {
        assert(rest.subrange(start, rest.len() as int) =~= part);
    }
}

proof fn lemma_pushed(a: Seq<Seq<char>>, x: Seq<char>, b: Seq<Seq<char>>, y: Seq<char>)
    ensures
        a.push(x) == b.push(y) <==> a == b && x == y,
{
    if a.push(x) == b.push(y) {
        assert(a.push(x).last() == b.push(y).last());
        assert(a =~= a.push(x).drop_last());
        assert(b =~= b.push(y).drop_last());
    }
}

proof fn lemma_named_differs(
    front: Seq<Seq<char>>,
    part: Seq<char>,
    rest: Seq<char>,
    kind: PathKind,
)
    requires
        !kind.skips(part),
        rest.len() > 0 ==> kind.separates(rest[0]) || (rest[0] == '.' && kind
            != PathKind::Verbatim),
    ensures
        front.push(part) != head_of(rest, kind),
{
    assert(front.push(part).last() == part);
    if rest.len() > 0 {
        assert(rest.take(1) =~= seq![rest[0]]);
        assert(head_of(rest, kind).len() == 1);
        assert(head_of(rest, kind).last() == head_of(rest, kind)[0]);
    }
}

fn begins_alike(a: &Vec<char>, b: &Vec<char>, kind: PathKind) -> (r: bool)
    requires
        a@.len() > 0 ==> kind.separates(a@[0]) || a@[0] == '.',
        b@.len() > 0 ==> kind.separates(b@[0]) || b@[0] == '.',
    ensures
        r == (head_of(a@, kind) == head_of(b@, kind)),
{
    proof {
        assert(head_of(a@, kind).len() == if a@.len() == 0 { 0int } else { 1int });
        assert(head_of(b@, kind).len() == if b@.len() == 0 { 0int } else { 1int });
    }
    if a.len() == 0 || b.len() == 0 {
        return a.len() == 0 && b.len() == 0;
    }
    proof {
        let x = head_of(a@, kind)[0];
        let y = head_of(b@, kind)[0];
        assert(x.len() == if kind.separates(a@[0]) { 0int } else { 1int });
        assert(y.len() == if kind.separates(b@[0]) { 0int } else { 1int });
        if kind.separates(a@[0]) == kind.separates(b@[0]) {
            assert(x =~= y);
            assert(head_of(a@, kind) =~= head_of(b@, kind));
        }
    }
    kind.is_separator(a[0]) == kind.is_separator(b[0])
}

fn same_parts(a: &Vec<char>, b: &Vec<char>, kind: PathKind) -> (r: bool)
    ensures
        r == (parts_of(a@, kind) == parts_of(b@, kind)),
    decreases a@.len(),
{
    proof {
        lemma_last_part(a@, kind);
        lemma_last_part(b@, kind);
    }
    match (find_last_part(a, kind), find_last_part(b, kind)) {
        (Some((i, m)), Some((j, n))) => {
            let front = sub_text(a, 0, i);
            let other = sub_text(b, 0, j);
            proof {
                assert(a@.subrange(0, i as int) =~= a@.take(i as int));
                assert(b@.subrange(0, j as int) =~= b@.take(j as int));
                lemma_pushed(
                    parts_of(a@.take(i as int), kind),
                    a@.subrange(i as int, m as int),
                    parts_of(b@.take(j as int), kind),
                    b@.subrange(j as int, n as int),
                );
            }
            same_text(sub_text(a, i, m).as_str(), sub_text(b, j, n).as_str()) && same_parts(
                &chars_of(front.as_str()),
                &chars_of(other.as_str()),
                kind,
            )
        },
        (None, None) => begins_alike(a, b, kind),
        (Some((i, m)), None) => {
            proof {
                let part = a@.subrange(i as int, m as int);
                lemma_named_differs(parts_of(a@.take(i as int), kind), part, b@, kind);
            }
            false
        },
        (None, Some((j, n))) => {
            proof {
                let part = b@.subrange(j as int, n as int);
                lemma_named_differs(parts_of(b@.take(j as int), kind), part, a@, kind);
            }
            false
        },
    }
}

fn same_letter(a: char, b: char) -> (r: bool)
    ensures
        r == (ascii_lower(a) == ascii_lower(b)),
{
    if a == b {
        true
    } else if 'A' <= a && a <= 'Z' {
        b as u32 == a as u32 + 32
    } else if 'A' <= b && b <= 'Z' {
        a as u32 == b as u32 + 32
    } else {
        false
    }
}

fn same_prefix_char(a: char, b: char) -> (r: bool)
    ensures
        r == (prefix_char(a) == prefix_char(b)),
{
    a == b || (a == '/' && b == '\\') || (a == '\\' && b == '/')
}

fn prefixes_alike(a: &Vec<char>, b: &Vec<char>) -> (r: bool)
    ensures
        r == same_prefix(a@, b@),
{
    if a.len() != b.len() {
        return false;
    }
    let count: usize = a.len();
    let mut i: usize = 0;
    while i < count
        invariant
            count == a@.len() == b@.len(),
            i <= count,
            forall|j: int|
                0 <= j < i ==> prefix_char(#[trigger] a@[j]) == prefix_char(b@[j]) || (j == count - 2
                    && a@[j + 1] == ':' && b@[j + 1] == ':' && ascii_lower(a@[j]) == ascii_lower(
                    b@[j],
                )),
        decreases count - i,
    {
        let drive = count >= 2 && i == count - 2 && a[i + 1] == ':' && b[i + 1] == ':' && same_letter(
            a[i],
            b[i],
        );
        if !drive && !same_prefix_char(a[i], b[i]) {
            assert(prefix_char(a@[i as int]) != prefix_char(b@[i as int]));
            return false;
        }
        i += 1;
    }
    true
}

/// The prefix of a path.
fn look_at_prefix(chars: &Vec<char>) -> (prefix: Vec<char>)
    ensures
        prefix@ == prefix_of(chars@),
{
    match find_prefix_end(chars) {
        Some(end) => chars_of(sub_text(chars, 2, end).as_str()),
        None => {
            let none: Vec<char> = Vec::new();
            assert(none@ =~= Seq::<char>::empty());
            none
        },
    }
}

/// Whether a path is a share alone, which is a root.
fn is_share(prefix: &Vec<char>, rest: &Vec<char>) -> (r: bool)
    ensures
        r == (rest@.len() == 0 && rooted(prefix@)),
{
    rest.len() == 0 && prefix.len() > 0 && !(prefix.len() == 2 && prefix[1] == ':')
}

proof fn lemma_root_parts(rest: Seq<char>, kind: PathKind)
    ensures
        (parts_of(rest, kind) == seq![Seq::<char>::empty()]) == (last_part(rest, kind) is None
            && rest.len() > 0 && kind.separates(rest[0])),
{
    let root = seq![Seq::<char>::empty()];
    lemma_last_part(rest, kind);
    match last_part(rest, kind) {
        Some((start, end)) => {
            assert(parts_of(rest, kind).last() == rest.subrange(start, end));
            assert(root.last().len() == 0);
        },
        None => {
            if rest.len() > 0 && !kind.separates(rest[0]) {
                assert(head_of(rest, kind)[0].len() == 1);
                assert(root[0].len() == 0);
            } else if rest.len() == 0 {
                assert(head_of(rest, kind).len() == 0);
                assert(root.len() == 1);
            }
        },
    }
}

fn is_root(rest: &Vec<char>, kind: PathKind) -> (r: bool)
    ensures
        r == (parts_of(rest@, kind) == seq![Seq::<char>::empty()]),
{
    proof {
        lemma_root_parts(rest@, kind);
    }
    find_last_part(rest, kind).is_none() && rest.len() > 0 && kind.is_separator(rest[0])
}

/// Whether two paths lead the same way.
pub fn is_same_place(a: &str, b: &str) -> (r: bool)
    ensures
        r == same_place(a@, b@),
{
    let x = look_at_prefix(&chars_of(a));
    let y = look_at_prefix(&chars_of(b));
    let (kind, rest) = look_at_rest(a);
    let (other, more) = look_at_rest(b);
    if kind != other || !prefixes_alike(&x, &y) {
        return false;
    }
    match (is_share(&x, &rest), is_share(&y, &more)) {
        (true, true) => true,
        (true, false) => is_root(&more, kind),
        (false, true) => is_root(&rest, kind),
        (false, false) => same_parts(&rest, &more, kind),
    }
}

/// A path leads where it leads with one more slash, or with a slash and a
/// single dot, at its end.
pub proof fn law_slashes_at_end_do_not_count(path: Seq<char>)
    requires
        path.len() > 0,
        path[0] != ESCAPE,
    ensures
        same_place(path + seq!['/'], path),
        same_place(path + seq!['/', '.'], path),
{
    let kind = PathKind::Slashes;
    let one = path + seq!['/'];
    let two = path + seq!['/', '.'];
    assert(one[0] == path[0] && two[0] == path[0]);
    assert(one.skip(0) =~= one && two.skip(0) =~= two && path.skip(0) =~= path);
    lemma_last_part(path, kind);
    assert(part_start(one, kind, one.len() as int) == one.len());
    assert(one.take(one.len() - 1) =~= path);
    assert(last_part(one, kind) == last_part(path, kind));
    assert(part_start(two, kind, two.len() as int) == two.len() - 1) by {
        assert(two[two.len() - 1] == '.');
        assert(part_start(two, kind, two.len() - 1) == two.len() - 1);
    }
    assert(two.skip(two.len() - 1) =~= seq!['.']);
    assert(two.take(two.len() - 2) =~= path);
    assert(last_part(two, kind) == last_part(path, kind));
    match last_part(path, kind) {
        Some((start, end)) => {
            assert(one.take(start) =~= path.take(start));
            assert(two.take(start) =~= path.take(start));
            assert(one.subrange(start, end) =~= path.subrange(start, end));
            assert(two.subrange(start, end) =~= path.subrange(start, end));
        },
        None => {
            assert(one.take(1) =~= path.take(1));
            assert(two.take(1) =~= path.take(1));
        },
    }
}

/// A path leads the same way as itself, and two that do, do so whichever comes
/// first.
pub proof fn law_same_place_is_mutual(a: Seq<char>, b: Seq<char>)
    ensures
        same_place(a, a),
        same_place(a, b) == same_place(b, a),
{
    let x = prefix_of(a);
    let y = prefix_of(b);
    if same_prefix(x, y) {
        assert forall|i: int| 0 <= i < y.len() implies prefix_char(#[trigger] y[i]) == prefix_char(
            x[i],
        ) || (i == y.len() - 2 && y[i + 1] == ':' && x[i + 1] == ':' && ascii_lower(y[i])
            == ascii_lower(x[i])) by {
            assert(x[i] == x[i]);
        }
    }
    if same_prefix(y, x) {
        assert forall|i: int| 0 <= i < x.len() implies prefix_char(#[trigger] x[i]) == prefix_char(
            y[i],
        ) || (i == x.len() - 2 && x[i + 1] == ':' && y[i + 1] == ':' && ascii_lower(x[i])
            == ascii_lower(y[i])) by {
            assert(y[i] == y[i]);
        }
    }
}

/// A path below a folder.
pub open spec fn below(folder: Seq<char>, more: Seq<char>) -> Seq<char> {
    let rest = rest_of(folder);
    let apart = if rest.len() > 0 {
        !kind_of(folder).separates(rest.last())
    } else {
        rooted(prefix_of(folder))
    };
    if apart {
        folder + seq![kind_of(folder).separator()] + more
    } else {
        folder + more
    }
}

/// A path below a folder.
pub fn join_path(folder: &str, more: &str) -> (r: String)
    ensures
        r@ == below(folder@, more@),
{
    let (kind, rest) = look_at_rest(folder);
    let prefix = look_at_prefix(&chars_of(folder));
    let apart = if rest.len() > 0 {
        !kind.is_separator(rest[rest.len() - 1])
    } else {
        is_share(&prefix, &rest)
    };
    if apart {
        let mut r = folder.to_owned();
        r.push(
            if kind == PathKind::Slashes {
                '/'
            } else {
                '\\'
            },
        );
        let all = joined(r.as_str(), more);
        assert(all@ =~= folder@ + seq![kind.separator()] + more@);
        all
    } else {
        joined(folder, more)
    }
}

/// Whether a copy would overwrite the document itself: the two paths are the
/// same, or lead to the same file.
pub open spec fn overwrites(
    dest: Seq<char>,
    src: Seq<char>,
    real_dest: Option<Seq<char>>,
    real_src: Option<Seq<char>>,
) -> bool {
    same_place(dest, src) || (real_dest is Some && real_src is Some && same_place(
        real_dest->0,
        real_src->0,
    ))
}

/// Whether the destination is the document itself. The real paths are those
/// of the files that the two lead to, where there are any.
pub fn is_same_file(
    dest: &str,
    src: &str,
    real_dest: &Option<String>,
    real_src: &Option<String>,
) -> (r: bool)
    ensures
        r == overwrites(dest@, src@, maybe_text(*real_dest), maybe_text(*real_src)),
{
    if is_same_place(dest, src) {
        return true;
    }
    match (real_dest, real_src) {
        (Some(a), Some(b)) => is_same_place(a.as_str(), b.as_str()),
        _ => false,
    }
}

} // verus!
