//! How the paths of a system are written as texts.
//!
//! A path of a system whose parts are set apart by slashes is written as it
//! is. A Windows path is written in two pieces, the prefix that leads to a
//! drive or a share and what follows it, each behind an escape. Other escapes
//! hold what is no text in a path, so that no path is lost on the way.

use vstd::prelude::*;

use crate::text::{chars_of, push_text};

verus! {

/// The character that an escape begins with. Escaped itself, it stands for
/// itself.
pub const ESCAPE: char = '\u{10fffe}';

/// Behind an escape: the prefix of a Windows path begins.
pub const PREFIX: char = 'd';

/// Behind an escape: what follows the prefix begins.
pub const REST: char = 'p';

/// Stands for what cannot be shown.
pub const UNSHOWN: char = '\u{fffd}';

/// How the parts of a path are set apart.
#[derive(Debug, Clone, Copy, PartialEq, Eq, Structural)]
pub enum PathKind {
    /// By slashes.
    Slashes,
    /// By slashes and backslashes.
    Windows,
    /// By backslashes, and single dots count.
    Verbatim,
}

impl PathKind {
    /// Whether a character sets parts apart.
    pub open spec fn separates(self, ch: char) -> bool {
        match self {
            PathKind::Slashes => ch == '/',
            PathKind::Windows => ch == '/' || ch == '\\',
            PathKind::Verbatim => ch == '\\',
        }
    }

    /// The character that a part is added behind.
    pub open spec fn separator(self) -> char {
        if self == PathKind::Slashes {
            '/'
        } else {
            '\\'
        }
    }

    /// Whether a part does not count: an empty one, or a single dot.
    pub open spec fn skips(self, part: Seq<char>) -> bool {
        part.len() == 0 || (part == seq!['.'] && self != PathKind::Verbatim)
    }

    pub fn is_separator(self, ch: char) -> (r: bool)
        ensures
            r == self.separates(ch),
    {
        match self {
            PathKind::Slashes => ch == '/',
            PathKind::Windows => ch == '/' || ch == '\\',
            PathKind::Verbatim => ch == '\\',
        }
    }
}

/// Where the escape stands that ends the prefix, from `i` on.
pub open spec fn rest_mark(path: Seq<char>, i: int) -> Option<int>
    decreases path.len() - i,
{
    if i + 1 >= path.len() {
        None
    } else if path[i] != ESCAPE {
        rest_mark(path, i + 1)
    } else if path[i + 1] == REST {
        Some(i)
    } else {
        rest_mark(path, i + 2)
    }
}

/// Where the prefix of a Windows path ends; none for another path.
pub open spec fn prefix_end(path: Seq<char>) -> Option<int> {
    if path.len() >= 2 && path[0] == ESCAPE && path[1] == PREFIX {
        rest_mark(path, 2)
    } else {
        None
    }
}

/// The prefix of a Windows path.
pub open spec fn prefix_of(path: Seq<char>) -> Seq<char> {
    match prefix_end(path) {
        Some(end) => path.subrange(2, end),
        None => Seq::empty(),
    }
}

/// Where the parts of a path begin.
pub open spec fn rest_at(path: Seq<char>) -> int {
    match prefix_end(path) {
        Some(end) => end + 2,
        None => 0,
    }
}

/// The parts of a path and what sets them apart.
pub open spec fn rest_of(path: Seq<char>) -> Seq<char> {
    path.skip(rest_at(path))
}

/// Whether a prefix is one behind which nothing is brought into shape.
pub open spec fn verbatim(prefix: Seq<char>) -> bool {
    seq!['\\', '\\', '?', '\\'].is_prefix_of(prefix)
}

pub open spec fn kind_of(path: Seq<char>) -> PathKind {
    if prefix_end(path) is None {
        PathKind::Slashes
    } else if verbatim(prefix_of(path)) {
        PathKind::Verbatim
    } else {
        PathKind::Windows
    }
}

/// Whether a prefix is that of a drive alone, below which there may be a path
/// that does not begin at its root.
pub open spec fn is_drive(prefix: Seq<char>) -> bool {
    prefix.len() == 2 && prefix[1] == ':'
}

/// Whether a prefix leads to a root by itself.
pub open spec fn rooted(prefix: Seq<char>) -> bool {
    prefix.len() > 0 && !is_drive(prefix)
}

pub(crate) proof fn lemma_rest_mark(path: Seq<char>, i: int)
    requires
        0 <= i <= path.len(),
    ensures
        match rest_mark(path, i) {
            Some(m) => i <= m && m + 2 <= path.len(),
            None => true,
        },
    decreases path.len() - i,
{
    if i + 1 < path.len() {
        if path[i] != ESCAPE {
            lemma_rest_mark(path, i + 1);
        } else if path[i + 1] != REST {
            lemma_rest_mark(path, i + 2);
        }
    }
}

pub(crate) proof fn lemma_rest_at(path: Seq<char>)
    ensures
        0 <= rest_at(path) <= path.len(),
        match prefix_end(path) {
            Some(end) => 2 <= end && end + 2 <= path.len(),
            None => true,
        },
{
    if path.len() >= 2 {
        lemma_rest_mark(path, 2);
    }
}

/// Where the prefix of a Windows path ends; none for another path.
pub(crate) fn find_prefix_end(path: &Vec<char>) -> (r: Option<usize>)
    ensures
        match prefix_end(path@) {
            Some(end) => r is Some && r->0 == end && 2 <= end && end + 2 <= path@.len(),
            None => r is None,
        },
{
    proof {
        lemma_rest_at(path@);
    }
    if path.len() < 2 || path[0] != ESCAPE || path[1] != PREFIX {
        return None;
    }
    let count: usize = path.len();
    let mut i: usize = 2;
    while i < count - 1
        invariant
            count == path@.len(),
            2 <= i <= count,
            prefix_end(path@) == rest_mark(path@, 2),
            rest_mark(path@, 2) == rest_mark(path@, i as int),
        decreases count - i,
    {
        if path[i] != ESCAPE {
            i += 1;
        } else if path[i + 1] == REST {
            return Some(i);
        } else {
            i += 2;
        }
    }
    None
}

/// How the parts of a path are set apart, and where they begin.
pub(crate) fn look_at(path: &Vec<char>) -> (r: (PathKind, usize))
    ensures
        r.0 == kind_of(path@),
        r.1 == rest_at(path@),
        r.1 <= path@.len(),
{
    let count: usize = path.len();
    match find_prefix_end(path) {
        None => (PathKind::Slashes, 0),
        Some(end) => {
            assert(end + 2 <= count);
            let verbatim = end >= 6 && path[2] == '\\' && path[3] == '\\' && path[4] == '?' && path[5]
                == '\\';
            proof {
                let start = seq!['\\', '\\', '?', '\\'];
                let prefix = prefix_of(path@);
                if verbatim {
                    assert(start =~= prefix.subrange(0, 4));
                }
                if self::verbatim(prefix) {
                    assert(start == prefix.subrange(0, 4));
                    assert(start[0] == prefix[0] && start[1] == prefix[1] && start[2] == prefix[2]
                        && start[3] == prefix[3]);
                }
            }
            if verbatim {
                (PathKind::Verbatim, end + 2)
            } else {
                (PathKind::Windows, end + 2)
            }
        },
    }
}

/// A Windows path: a prefix and what follows it.
pub open spec fn windows_form(prefix: Seq<char>, rest: Seq<char>) -> Seq<char> {
    seq![ESCAPE, PREFIX] + prefix + seq![ESCAPE, REST] + rest
}

/// Writes down a Windows path: the prefix that leads to its drive or share, if
/// it has one, and what follows.
pub fn windows_path(prefix: &str, rest: &str) -> (path: String)
    ensures
        path@ == windows_form(prefix@, rest@),
{
    let mut path = String::new();
    path.push(ESCAPE);
    path.push(PREFIX);
    push_text(&mut path, prefix);
    path.push(ESCAPE);
    path.push(REST);
    push_text(&mut path, rest);
    assert(path@ =~= windows_form(prefix@, rest@));
    path
}

proof fn lemma_mark_found(path: Seq<char>, i: int, m: int)
    requires
        0 <= i <= m,
        m + 1 < path.len(),
        path[m] == ESCAPE,
        path[m + 1] == REST,
        forall|j: int| i <= j < m ==> #[trigger] path[j] != ESCAPE,
    ensures
        rest_mark(path, i) == Some(m),
    decreases m - i,
{
    if i < m {
        lemma_mark_found(path, i + 1, m);
    }
}

/// A Windows path that was written down has its prefix and its rest.
pub proof fn law_windows_path_reads_back(prefix: Seq<char>, rest: Seq<char>)
    requires
        !prefix.contains(ESCAPE),
    ensures
        kind_of(windows_form(prefix, rest)) != PathKind::Slashes,
        prefix_of(windows_form(prefix, rest)) == prefix,
        rest_of(windows_form(prefix, rest)) == rest,
{
    let path = windows_form(prefix, rest);
    let m = 2 + prefix.len() as int;
    assert forall|j: int| 2 <= j < m implies #[trigger] path[j] != ESCAPE by {
        assert(path[j] == prefix[j - 2]);
        assert(prefix.contains(prefix[j - 2]));
    }
    lemma_mark_found(path, 2, m);
    assert(path.subrange(2, m) =~= prefix);
    assert(path.skip(m + 2) =~= rest);
}

/// What an escape is shown as: itself where it was escaped, nothing where it
/// only marks a piece or goes on with what is no text, and else a character
/// that stands for what cannot be shown.
pub open spec fn code_shown(code: char) -> Seq<char> {
    if code == ESCAPE {
        seq![ESCAPE]
    } else if code == PREFIX || code == REST || '\u{200}' <= code <= '\u{2ff}' {
        Seq::empty()
    } else {
        seq![UNSHOWN]
    }
}

/// What a text with escapes is shown as, from `i` on.
pub open spec fn unescaped(text: Seq<char>, i: int) -> Seq<char>
    decreases text.len() - i,
{
    if i >= text.len() {
        Seq::empty()
    } else if text[i] != ESCAPE || i + 1 >= text.len() {
        seq![text[i]] + unescaped(text, i + 1)
    } else {
        code_shown(text[i + 1]) + unescaped(text, i + 2)
    }
}

/// What a path, or a part of one, is shown as.
pub open spec fn displayed(text: Seq<char>) -> Seq<char> {
    if text.contains(ESCAPE) {
        unescaped(text, 0)
    } else {
        text
    }
}

/// Whether a text holds nothing, from `i` on, that is no text.
pub open spec fn readable_from(text: Seq<char>, i: int) -> bool
    decreases text.len() - i,
{
    if i >= text.len() {
        true
    } else if text[i] != ESCAPE || i + 1 >= text.len() {
        readable_from(text, i + 1)
    } else {
        (text[i + 1] == ESCAPE || text[i + 1] == PREFIX || text[i + 1] == REST) && readable_from(
            text,
            i + 2,
        )
    }
}

/// Whether a path, or a part of one, is all text.
pub open spec fn readable(text: Seq<char>) -> bool {
    !text.contains(ESCAPE) || readable_from(text, 0)
}

fn has_escape(chars: &Vec<char>) -> (r: bool)
    ensures
        r == chars@.contains(ESCAPE),
{
    let mut i: usize = 0;
    while i < chars.len()
        invariant
            i <= chars@.len(),
            forall|j: int| 0 <= j < i ==> #[trigger] chars@[j] != ESCAPE,
        decreases chars@.len() - i,
    {
        if chars[i] == ESCAPE {
            assert(chars@[i as int] == ESCAPE);
            return true;
        }
        i += 1;
    }
    false
}

/// What a path, or a part of one, is shown as.
pub fn display(text: &str) -> (r: String)
    ensures
        r@ == displayed(text@),
{
    let chars = chars_of(text);
    if !has_escape(&chars) {
        return text.to_owned();
    }
    let count: usize = chars.len();
    let mut r = String::new();
    let mut i: usize = 0;
    assert(r@ + unescaped(text@, 0) =~= unescaped(text@, 0));
    while i < count
        invariant
            chars@ == text@,
            count == chars@.len(),
            i <= count,
            r@ + unescaped(text@, i as int) == unescaped(text@, 0),
        decreases count - i,
    {
        let ghost before = r@;
        if chars[i] != ESCAPE || i == count - 1 {
            r.push(chars[i]);
            assert(r@ + unescaped(text@, i + 1) =~= before + unescaped(text@, i as int));
            i += 1;
        } else {
            let code = chars[i + 1];
            if code == ESCAPE {
                r.push(ESCAPE);
            } else if code != PREFIX && code != REST && !('\u{200}' <= code && code <= '\u{2ff}') {
                r.push(UNSHOWN);
            }
            assert(r@ =~= before + code_shown(code));
            assert(r@ + unescaped(text@, i + 2) =~= before + unescaped(text@, i as int));
            i += 2;
        }
    }
    assert(r@ + Seq::<char>::empty() =~= r@);
    r
}

/// Whether a path, or a part of one, is all text.
pub fn is_readable(text: &str) -> (r: bool)
    ensures
        r == readable(text@),
{
    let chars = chars_of(text);
    if !has_escape(&chars) {
        return true;
    }
    let count: usize = chars.len();
    let mut i: usize = 0;
    while i < count
        invariant
            chars@ == text@,
            count == chars@.len(),
            i <= count,
            readable_from(text@, 0) == readable_from(text@, i as int),
        decreases count - i,
    {
        if chars[i] != ESCAPE || i == count - 1 {
            i += 1;
        } else if chars[i + 1] == ESCAPE || chars[i + 1] == PREFIX || chars[i + 1] == REST {
            i += 2;
        } else {
            return false;
        }
    }
    true
}

proof fn lemma_unescaped_plain(text: Seq<char>, i: int)
    requires
        0 <= i <= text.len(),
        forall|j: int| i <= j < text.len() ==> #[trigger] text[j] != ESCAPE,
    ensures
        unescaped(text, i) == text.skip(i),
    decreases text.len() - i,
{
    if i < text.len() {
        lemma_unescaped_plain(text, i + 1);
    }
    assert(unescaped(text, i) =~= text.skip(i));
}

/// A Windows path is shown as the system writes it: its prefix and what
/// follows.
pub proof fn law_windows_path_is_shown_as_written(prefix: Seq<char>, rest: Seq<char>)
    requires
        !prefix.contains(ESCAPE),
        !rest.contains(ESCAPE),
    ensures
        displayed(windows_form(prefix, rest)) == prefix + rest,
{
    let path = windows_form(prefix, rest);
    let m = 2 + prefix.len() as int;
    assert(path[0] == ESCAPE);
    assert(path.contains(ESCAPE));
    assert forall|j: int| m + 2 <= j < path.len() implies #[trigger] path[j] != ESCAPE by {
        assert(path[j] == rest[j - m - 2]);
        assert(rest.contains(rest[j - m - 2]));
    }
    lemma_unescaped_plain(path, m + 2);
    assert(path.skip(m + 2) =~= rest);
    assert(unescaped(path, m) =~= rest);
    lemma_unescaped_prefix(prefix, rest, prefix.len() as int);
    assert(unescaped(path, 0) =~= unescaped(path, 2));
    assert(prefix.skip(0) =~= prefix);
}

proof fn lemma_unescaped_prefix(prefix: Seq<char>, rest: Seq<char>, n: int)
    requires
        !prefix.contains(ESCAPE),
        0 <= n <= prefix.len(),
        unescaped(windows_form(prefix, rest), 2 + prefix.len() as int) == rest,
    ensures
        unescaped(windows_form(prefix, rest), 2 + prefix.len() - n) == prefix.skip(
            prefix.len() - n,
        ) + rest,
    decreases n,
{
    let path = windows_form(prefix, rest);
    let i = prefix.len() - n;
    if n > 0 {
        lemma_unescaped_prefix(prefix, rest, n - 1);
        assert(path[2 + i] == prefix[i]);
        assert(prefix.contains(prefix[i]));
        assert(seq![prefix[i]] + (prefix.skip(i + 1) + rest) =~= prefix.skip(i) + rest);
    } else {
        assert(prefix.skip(i) + rest =~= rest);
    }
}

} // verus!
