//! Where documents were left, and the file that keeps it: a line to each
//! document, the one read last first. A line holds the page, the zoom, the
//! size of the file, when it was changed, the mode and the path, set apart by
//! tabs. Lines of an older kind have no mode; lines that cannot be read are
//! passed over.

use vstd::prelude::*;

use crate::numbers::{
    decimal_upto, digit, law_shown_reads_back, parse_u32, parse_u64, push_number, shown,
};
use crate::page::Coord;
use crate::paths::{is_same_place, same_place};
use crate::state::{ViewMode, Zoom, ZoomFactor};
use crate::text::{chars_of, push_text, same_text, sub_text};

verus! {

/// How many documents are kept.
pub const MAX_POSITIONS: usize = 50;

/// Below this a stored time is one in seconds.
pub const LEGACY_MTIME_SECS_MAX: u64 = 10_000_000_000;

/// Where a document was left, and what told its file apart then.
#[derive(Debug, Clone, Copy, PartialEq, Eq, Structural)]
pub struct DocPosition {
    /// The page, counted from zero.
    pub page: u32,
    pub zoom: Zoom,
    pub mode: ViewMode,
    /// The size of the file, and when it was changed, in nanoseconds.
    pub size: u64,
    pub mtime: u64,
}

/// Whether a stored time is that of the file: to the nanosecond, or in an old
/// line to the second.
pub open spec fn same_time(stored: u64, current_ns: u64) -> bool {
    stored == current_ns || (stored < LEGACY_MTIME_SECS_MAX && stored == current_ns / 1_000_000_000)
}

/// Whether a stored time is that of the file.
pub fn mtime_matches(stored: u64, current_ns: u64) -> (r: bool)
    ensures
        r == same_time(stored, current_ns),
{
    stored == current_ns || (stored < LEGACY_MTIME_SECS_MAX && stored == current_ns / 1_000_000_000)
}

/// Two characters for one that would break a line or a field.
pub open spec fn escape_char(ch: char) -> Seq<char> {
    if ch == '\\' {
        seq!['\\', '\\']
    } else if ch == '\t' {
        seq!['\\', 't']
    } else if ch == '\n' {
        seq!['\\', 'n']
    } else {
        seq![ch]
    }
}

/// A path that holds no tab and no line break.
pub open spec fn escaped(path: Seq<char>) -> Seq<char>
    decreases path.len(),
{
    if path.len() == 0 {
        Seq::empty()
    } else {
        escaped(path.drop_last()) + escape_char(path.last())
    }
}

/// A path that was escaped. A backslash at the end stands for itself, and so
/// does any other character behind a backslash.
pub open spec fn unescaped(raw: Seq<char>) -> Seq<char>
    decreases raw.len(),
{
    if raw.len() == 0 {
        Seq::empty()
    } else if raw[0] != '\\' {
        seq![raw[0]] + unescaped(raw.skip(1))
    } else if raw.len() == 1 {
        seq!['\\']
    } else {
        seq![
            if raw[1] == 't' {
                '\t'
            } else if raw[1] == 'n' {
                '\n'
            } else {
                raw[1]
            },
        ] + unescaped(raw.skip(2))
    }
}

/// Escapes a path.
pub fn escape_path(path: &str) -> (r: String)
    ensures
        r@ == escaped(path@),
{
    let chars = chars_of(path);
    let mut out = String::new();
    let mut i: usize = 0;
    while i < chars.len()
        invariant
            chars@ == path@,
            i <= chars@.len(),
            out@ == escaped(path@.take(i as int)),
        decreases chars@.len() - i,
    {
        let ch = chars[i];
        let ghost before = out@;
        if ch == '\\' {
            out.push('\\');
            out.push('\\');
        } else if ch == '\t' {
            out.push('\\');
            out.push('t');
        } else if ch == '\n' {
            out.push('\\');
            out.push('n');
        } else {
            out.push(ch);
        }
        assert(out@ =~= before + escape_char(ch));
        assert(path@.take(i + 1).drop_last() =~= path@.take(i as int));
        i += 1;
    }
    assert(path@.take(i as int) =~= path@);
    out
}

/// Reads a path that was escaped.
pub fn unescape_path(raw: &str) -> (r: String)
    ensures
        r@ == unescaped(raw@),
{
    let chars = chars_of(raw);
    let mut out = String::new();
    let mut i: usize = 0;
    assert(raw@.skip(0) =~= raw@);
    assert(unescaped(raw@) =~= out@ + unescaped(raw@.skip(0)));
    while i < chars.len()
        invariant
            chars@ == raw@,
            i <= chars@.len(),
            unescaped(raw@) == out@ + unescaped(raw@.skip(i as int)),
        decreases chars@.len() - i,
    {
        let ghost rest = raw@.skip(i as int);
        let ghost before = out@;
        let ch = chars[i];
        assert(rest[0] == ch);
        if ch != '\\' {
            out.push(ch);
            assert(rest.skip(1) =~= raw@.skip(i + 1));
            assert(unescaped(raw@) =~= out@ + unescaped(raw@.skip(i + 1)));
            i += 1;
        } else if i + 1 == chars.len() {
            out.push('\\');
            assert(unescaped(raw@.skip(i + 1)) =~= Seq::<char>::empty());
            assert(unescaped(raw@) =~= out@ + unescaped(raw@.skip(i + 1)));
            i += 1;
        } else {
            let next = chars[i + 1];
            assert(rest[1] == next);
            if next == 't' {
                out.push('\t');
            } else if next == 'n' {
                out.push('\n');
            } else {
                out.push(next);
            }
            assert(rest.skip(2) =~= raw@.skip(i + 2));
            assert(unescaped(raw@) =~= out@ + unescaped(raw@.skip(i + 2)));
            i += 2;
        }
    }
    assert(unescaped(raw@.skip(i as int)) =~= Seq::<char>::empty());
    assert(out@ =~= unescaped(raw@));
    out
}

proof fn lemma_escaped_front(path: Seq<char>)
    requires
        path.len() > 0,
    ensures
        escaped(path) == escape_char(path[0]) + escaped(path.skip(1)),
    decreases path.len(),
{
    if path.len() == 1 {
        assert(escaped(path.drop_last()) =~= Seq::<char>::empty());
        assert(escaped(path.skip(1)) =~= Seq::<char>::empty());
        assert(escaped(path) =~= escape_char(path[0]) + escaped(path.skip(1)));
    } else {
        let front = path.drop_last();
        lemma_escaped_front(front);
        assert(front.skip(1) =~= path.skip(1).drop_last());
        assert(escaped(path) =~= escape_char(path[0]) + escaped(path.skip(1)));
    }
}

/// A path that was escaped is read as it was.
pub proof fn law_escape_reads_back(path: Seq<char>)
    ensures
        unescaped(escaped(path)) == path,
    decreases path.len(),
{
    if path.len() > 0 {
        lemma_escaped_front(path);
        law_escape_reads_back(path.skip(1));
        let rest = escaped(path.skip(1));
        let whole = escaped(path);
        let ch = path[0];
        if escape_char(ch).len() == 1 {
            assert(whole[0] == ch);
            assert(whole.skip(1) =~= rest);
        } else {
            assert(whole[0] == '\\');
            assert(whole[1] == escape_char(ch)[1]);
            assert(whole.skip(2) =~= rest);
        }
        assert(unescaped(whole) =~= seq![ch] + path.skip(1));
        assert(seq![ch] + path.skip(1) =~= path);
    } else {
        assert(unescaped(escaped(path)) =~= path);
    }
}

/// Whether a text holds neither a tab nor a line break.
pub open spec fn plain(chars: Seq<char>) -> bool {
    forall|i: int| 0 <= i < chars.len() ==> #[trigger] chars[i] != '\t' && chars[i] != '\n'
}

/// An escaped path holds neither a tab nor a line break.
pub proof fn law_escaped_is_plain(path: Seq<char>)
    ensures
        plain(escaped(path)),
    decreases path.len(),
{
    if path.len() > 0 {
        law_escaped_is_plain(path.drop_last());
    }
}

/// A zoom as it is stored; a factor stands as a decimal number.
#[derive(Debug)]
pub enum ZoomText {
    Width,
    Page,
    Manual(String),
}

/// What a stored zoom says.
pub enum ZoomTextView {
    Width,
    Page,
    Manual(Seq<char>),
}

impl View for ZoomText {
    type V = ZoomTextView;

    open spec fn view(&self) -> ZoomTextView {
        match self {
            ZoomText::Width => ZoomTextView::Width,
            ZoomText::Page => ZoomTextView::Page,
            ZoomText::Manual(factor) => ZoomTextView::Manual(factor@),
        }
    }
}

/// A zoom, with its factor as a decimal number if it has one.
pub open spec fn zoom_words(zoom: Zoom, factor: Seq<char>) -> Seq<char> {
    match zoom {
        Zoom::Width => "width"@,
        Zoom::Page => "page"@,
        Zoom::Manual(_) => "manual:"@ + factor,
    }
}

/// A zoom in words. The factor is given as a decimal number.
pub fn encode_zoom(zoom: Zoom, factor: &str) -> (r: String)
    ensures
        r@ == zoom_words(zoom, factor@),
{
    match zoom {
        Zoom::Width => "width".to_owned(),
        Zoom::Page => "page".to_owned(),
        Zoom::Manual(_) => {
            let mut r = "manual:".to_owned();
            push_text(&mut r, factor);
            r
        },
    }
}

/// What a zoom in words says; the width where it says nothing that is known.
pub open spec fn zoom_read(raw: Seq<char>) -> ZoomTextView {
    if raw == "page"@ {
        ZoomTextView::Page
    } else if raw.len() >= 7 && raw.take(7) == "manual:"@ {
        ZoomTextView::Manual(raw.skip(7))
    } else {
        ZoomTextView::Width
    }
}

/// Reads a zoom.
pub fn decode_zoom(raw: &str) -> (r: ZoomText)
    ensures
        r@ == zoom_read(raw@),
{
    if same_text(raw, "page") {
        return ZoomText::Page;
    }
    let chars = chars_of(raw);
    if chars.len() >= 7 {
        let head = sub_text(&chars, 0, 7);
        assert(head@ =~= raw@.take(7));
        if same_text(head.as_str(), "manual:") {
            let factor = sub_text(&chars, 7, chars.len());
            assert(factor@ =~= raw@.skip(7));
            return ZoomText::Manual(factor);
        }
    }
    ZoomText::Width
}

/// The zoom that was stored, given the factor that its number stands for: a
/// factor that is no number, or infinite, counts as none.
pub open spec fn zoom_meant(stored: ZoomTextView, factor: Option<Coord>) -> Zoom {
    match stored {
        ZoomTextView::Width => Zoom::Width,
        ZoomTextView::Page => Zoom::Page,
        ZoomTextView::Manual(_) => match factor {
            Some(f) if f.finite() => Zoom::Manual(ZoomFactor::of(f)),
            _ => Zoom::Width,
        },
    }
}

impl ZoomText {
    /// The zoom that was stored, given the factor that its number stands for.
    pub fn zoom(&self, factor: Option<Coord>) -> (zoom: Zoom)
        ensures
            zoom == zoom_meant(self@, factor),
    {
        match self {
            ZoomText::Width => Zoom::Width,
            ZoomText::Page => Zoom::Page,
            ZoomText::Manual(_) => match factor {
                Some(f) => if f.is_finite() {
                    Zoom::Manual(ZoomFactor::new(f))
                } else {
                    Zoom::Width
                },
                None => Zoom::Width,
            },
        }
    }
}

/// A mode in words.
pub open spec fn mode_words(mode: ViewMode) -> Seq<char> {
    match mode {
        ViewMode::Single => "single"@,
        ViewMode::Continuous => "continuous"@,
    }
}

/// A mode in words.
pub fn encode_mode(mode: ViewMode) -> (r: &'static str)
    ensures
        r@ == mode_words(mode),
{
    match mode {
        ViewMode::Single => "single",
        ViewMode::Continuous => "continuous",
    }
}

/// What a mode in words says; one page where it says nothing that is known.
pub open spec fn mode_read(raw: Seq<char>) -> ViewMode {
    if raw == "continuous"@ {
        ViewMode::Continuous
    } else {
        ViewMode::Single
    }
}

/// Reads a mode.
pub fn decode_mode(raw: &str) -> (mode: ViewMode)
    ensures
        mode == mode_read(raw@),
{
    if same_text(raw, "continuous") {
        ViewMode::Continuous
    } else {
        ViewMode::Single
    }
}

/// A mode in words is read as it was.
pub proof fn law_mode_reads_back(mode: ViewMode)
    ensures
        mode_read(mode_words(mode)) == mode,
        plain(mode_words(mode)),
{
    reveal_strlit("single");
    reveal_strlit("continuous");
    assert("single"@.len() != "continuous"@.len());
}

/// The line of a document. The factor of its zoom is given as a decimal
/// number.
pub open spec fn line_of(path: Seq<char>, pos: DocPosition, factor: Seq<char>) -> Seq<char> {
    shown(pos.page as nat) + seq!['\t'] + (zoom_words(pos.zoom, factor) + seq!['\t'] + (shown(
        pos.size as nat,
    ) + seq!['\t'] + (shown(pos.mtime as nat) + seq!['\t'] + (mode_words(pos.mode) + seq!['\t']
        + escaped(path)))))
}

/// The line of a document.
pub fn encode_entry(path: &str, pos: &DocPosition, factor: &str) -> (line: String)
    ensures
        line@ == line_of(path@, *pos, factor@),
{
    let mut line = String::new();
    push_number(&mut line, pos.page as u64);
    line.push('\t');
    let zoom = encode_zoom(pos.zoom, factor);
    push_text(&mut line, zoom.as_str());
    line.push('\t');
    push_number(&mut line, pos.size);
    line.push('\t');
    push_number(&mut line, pos.mtime);
    line.push('\t');
    push_text(&mut line, encode_mode(pos.mode));
    line.push('\t');
    let escaped_path = escape_path(path);
    push_text(&mut line, escaped_path.as_str());
    assert(line@ =~= line_of(path@, *pos, factor@));
    line
}

/// Where a character stands for the first time, from `i` on; the length of
/// the text where it does not.
pub open spec fn first_at(chars: Seq<char>, ch: char, i: int) -> int
    decreases chars.len() - i,
{
    if i >= chars.len() {
        chars.len() as int
    } else if chars[i] == ch {
        i
    } else {
        first_at(chars, ch, i + 1)
    }
}

proof fn lemma_first_at(chars: Seq<char>, ch: char, i: int)
    requires
        0 <= i <= chars.len(),
    ensures
        i <= first_at(chars, ch, i) <= chars.len(),
        first_at(chars, ch, i) < chars.len() ==> chars[first_at(chars, ch, i)] == ch,
        forall|k: int| i <= k < first_at(chars, ch, i) ==> chars[k] != ch,
    decreases chars.len() - i,
{
    if i < chars.len() && chars[i] != ch {
        lemma_first_at(chars, ch, i + 1);
    }
}

/// The pieces of a text between two marks.
pub open spec fn pieces(chars: Seq<char>, mark: char) -> Seq<Seq<char>>
    decreases chars.len(),
    when true
    via pieces_decreases
{
    let at = first_at(chars, mark, 0);
    if at >= chars.len() {
        seq![chars]
    } else {
        seq![chars.take(at)] + pieces(chars.skip(at + 1), mark)
    }
}

#[via_fn]
proof fn pieces_decreases(chars: Seq<char>, mark: char) {
    lemma_first_at(chars, mark, 0);
}

/// The piece in front of the first mark, and the rest.
proof fn lemma_pieces(front: Seq<char>, mark: char, rest: Seq<char>)
    requires
        forall|k: int| 0 <= k < front.len() ==> front[k] != mark,
    ensures
        pieces(front + seq![mark] + rest, mark) == seq![front] + pieces(rest, mark),
{
    let whole = front + seq![mark] + rest;
    lemma_first_at(whole, mark, 0);
    let at = first_at(whole, mark, 0);
    assert(whole[front.len() as int] == mark);
    if at < front.len() {
        assert(whole[at] == front[at]);
    }
    assert(at == front.len());
    assert(whole.take(at) =~= front);
    assert(whole.skip(at + 1) =~= rest);
}

proof fn lemma_last_piece(chars: Seq<char>, mark: char)
    requires
        forall|k: int| 0 <= k < chars.len() ==> chars[k] != mark,
    ensures
        pieces(chars, mark) == seq![chars],
{
    lemma_first_at(chars, mark, 0);
}

/// What each of some texts holds.
pub open spec fn views(list: Seq<String>) -> Seq<Seq<char>> {
    list.map_values(|s: String| s@)
}

/// The pieces of a text between two marks.
pub fn split_at_mark(text: &str, mark: char) -> (out: Vec<String>)
    ensures
        views(out@) == pieces(text@, mark),
        out@.len() > 0,
{
    let chars = chars_of(text);
    let mut out: Vec<String> = Vec::new();
    let mut start: usize = 0;
    assert(text@.skip(0) =~= text@);
    assert(pieces(text@, mark) =~= views(out@) + pieces(text@.skip(0), mark));
    loop
        invariant
            chars@ == text@,
            start <= chars@.len(),
            pieces(text@, mark) == views(out@) + pieces(text@.skip(start as int), mark),
        decreases chars@.len() - start,
    {
        let ghost rest = text@.skip(start as int);
        let mut at: usize = start;
        assert(first_at(rest, mark, 0) == first_at(rest, mark, at - start));
        while at < chars.len() && chars[at] != mark
            invariant
                chars@ == text@,
                start <= at <= chars@.len(),
                rest == text@.skip(start as int),
                first_at(rest, mark, 0) == first_at(rest, mark, at - start),
            decreases chars@.len() - at,
        {
            assert(rest[at - start] == chars@[at as int]);
            at += 1;
        }
        let ghost before = out@;
        let piece = sub_text(&chars, start, at);
        assert(piece@ =~= rest.take(at - start));
        out.push(piece);
        assert(views(out@) =~= views(before).push(piece@));
        if at == chars.len() {
            assert(rest.take(at - start) =~= rest);
            assert(pieces(text@, mark) =~= views(out@));
            return out;
        }
        assert(rest[at - start] == mark);
        assert(rest.skip(at - start + 1) =~= text@.skip(at + 1));
        assert(pieces(text@, mark) =~= views(out@) + pieces(text@.skip(at + 1), mark));
        start = at + 1;
    }
}

/// A line that was read.
#[derive(Debug)]
pub struct StoredEntry {
    pub path: String,
    pub page: u32,
    pub zoom: ZoomText,
    pub mode: ViewMode,
    pub size: u64,
    pub mtime: u64,
}

/// What a line that was read says.
pub struct StoredView {
    pub path: Seq<char>,
    pub page: u32,
    pub zoom: ZoomTextView,
    pub mode: ViewMode,
    pub size: u64,
    pub mtime: u64,
}

impl View for StoredEntry {
    type V = StoredView;

    open spec fn view(&self) -> StoredView {
        StoredView {
            path: self.path@,
            page: self.page,
            zoom: self.zoom@,
            mode: self.mode,
            size: self.size,
            mtime: self.mtime,
        }
    }
}

impl StoredView {
    /// Where the document was left, given the factor that its zoom's number
    /// stands for.
    pub open spec fn position(self, factor: Option<Coord>) -> DocPosition {
        DocPosition {
            page: self.page,
            zoom: zoom_meant(self.zoom, factor),
            mode: self.mode,
            size: self.size,
            mtime: self.mtime,
        }
    }
}

impl StoredEntry {
    /// Where the document was left, given the factor that its zoom's number
    /// stands for.
    pub fn position(&self, factor: Option<Coord>) -> (pos: DocPosition)
        ensures
            pos == self@.position(factor),
    {
        DocPosition {
            page: self.page,
            zoom: self.zoom.zoom(factor),
            mode: self.mode,
            size: self.size,
            mtime: self.mtime,
        }
    }
}

/// What a line says; nothing where it cannot be read.
pub open spec fn line_read(line: Seq<char>) -> Option<StoredView> {
    let fields = pieces(line, '\t');
    if fields.len() != 5 && fields.len() != 6 {
        None
    } else {
        let path = unescaped(fields.last());
        match (
            decimal_upto(fields[0], u32::MAX as nat),
            decimal_upto(fields[2], u64::MAX as nat),
            decimal_upto(fields[3], u64::MAX as nat),
        ) {
            (Some(page), Some(size), Some(mtime)) => if path.len() == 0 {
                None
            } else {
                Some(
                    StoredView {
                        path,
                        page: page as u32,
                        zoom: zoom_read(fields[1]),
                        mode: if fields.len() == 6 {
                            mode_read(fields[4])
                        } else {
                            ViewMode::Single
                        },
                        size: size as u64,
                        mtime: mtime as u64,
                    },
                )
            },
            _ => None,
        }
    }
}

/// Reads a line.
pub fn decode_entry(line: &str) -> (r: Option<StoredEntry>)
    ensures
        match line_read(line@) {
            Some(entry) => r is Some && r->0@ == entry,
            None => r is None,
        },
{
    let fields = split_at_mark(line, '\t');
    let count: usize = fields.len();
    let ghost parts = pieces(line@, '\t');
    assert(parts.len() == count);
    if count != 5 && count != 6 {
        return None;
    }
    assert(parts[0] == fields@[0]@ && parts[1] == fields@[1]@ && parts[2] == fields@[2]@ && parts[3]
        == fields@[3]@ && parts[4] == fields@[4]@);
    assert(parts.last() == fields@[count - 1]@);
    let page: u32 = match parse_u32(fields[0].as_str()) {
        Some(n) => n,
        None => {
            return None;
        },
    };
    let zoom = decode_zoom(fields[1].as_str());
    let size: u64 = match parse_u64(fields[2].as_str()) {
        Some(n) => n,
        None => {
            return None;
        },
    };
    let mtime: u64 = match parse_u64(fields[3].as_str()) {
        Some(n) => n,
        None => {
            return None;
        },
    };
    let mode = if count == 6 {
        decode_mode(fields[4].as_str())
    } else {
        ViewMode::Single
    };
    let path = unescape_path(fields[count - 1].as_str());
    if path.as_str().is_empty() {
        return None;
    }
    Some(StoredEntry { path, page, zoom, mode, size, mtime })
}

/// What a zoom says once it was stored, given its factor as a decimal number.
pub open spec fn zoom_kept(zoom: Zoom, factor: Seq<char>) -> ZoomTextView {
    match zoom {
        Zoom::Width => ZoomTextView::Width,
        Zoom::Page => ZoomTextView::Page,
        Zoom::Manual(_) => ZoomTextView::Manual(factor),
    }
}

proof fn lemma_zoom_reads_back(zoom: Zoom, factor: Seq<char>)
    requires
        plain(factor),
    ensures
        zoom_read(zoom_words(zoom, factor)) == zoom_kept(zoom, factor),
        plain(zoom_words(zoom, factor)),
{
    reveal_strlit("width");
    reveal_strlit("page");
    reveal_strlit("manual:");
    let raw = zoom_words(zoom, factor);
    match zoom {
        Zoom::Width => {
            assert(raw.len() != "page"@.len());
        },
        Zoom::Page => {},
        Zoom::Manual(_) => {
            assert(raw.len() != "page"@.len());
            assert(raw.take(7) =~= "manual:"@);
            assert(raw.skip(7) =~= factor);
        },
    }
}

proof fn lemma_shown_plain(n: nat)
    ensures
        plain(shown(n)),
{
    law_shown_reads_back(n);
    assert forall|i: int| 0 <= i < shown(n).len() implies #[trigger] shown(n)[i] != '\t'
        && shown(n)[i] != '\n' by {
        assert(digit(shown(n)[i]));
    }
}

/// The line of a document is one line of six fields, and is read as it was
/// written.
pub proof fn law_line_reads_back(path: Seq<char>, pos: DocPosition, factor: Seq<char>)
    requires
        path.len() > 0,
        plain(factor),
    ensures
        line_read(line_of(path, pos, factor)) == Some(
            StoredView {
                path,
                page: pos.page,
                zoom: zoom_kept(pos.zoom, factor),
                mode: pos.mode,
                size: pos.size,
                mtime: pos.mtime,
            },
        ),
        plain_line(line_of(path, pos, factor)),
        pieces(line_of(path, pos, factor), '\t').len() == 6,
{
    let page = shown(pos.page as nat);
    let zoom = zoom_words(pos.zoom, factor);
    let size = shown(pos.size as nat);
    let mtime = shown(pos.mtime as nat);
    let mode = mode_words(pos.mode);
    let end = escaped(path);
    lemma_shown_plain(pos.page as nat);
    lemma_shown_plain(pos.size as nat);
    lemma_shown_plain(pos.mtime as nat);
    lemma_zoom_reads_back(pos.zoom, factor);
    law_mode_reads_back(pos.mode);
    law_escaped_is_plain(path);
    law_escape_reads_back(path);
    law_shown_reads_back(pos.page as nat);
    law_shown_reads_back(pos.size as nat);
    law_shown_reads_back(pos.mtime as nat);
    let r4 = mode + seq!['\t'] + end;
    let r3 = mtime + seq!['\t'] + r4;
    let r2 = size + seq!['\t'] + r3;
    let r1 = zoom + seq!['\t'] + r2;
    lemma_last_piece(end, '\t');
    lemma_pieces(mode, '\t', end);
    lemma_pieces(mtime, '\t', r4);
    lemma_pieces(size, '\t', r3);
    lemma_pieces(zoom, '\t', r2);
    lemma_pieces(page, '\t', r1);
    let parts = pieces(line_of(path, pos, factor), '\t');
    assert(parts =~= seq![page, zoom, size, mtime, mode, end]);
}

/// A line gives back the document and where it was left, given the value of
/// the factor that was written, where there is one.
pub proof fn law_position_reads_back(
    path: Seq<char>,
    pos: DocPosition,
    factor: Seq<char>,
    value: Option<Coord>,
)
    requires
        path.len() > 0,
        plain(factor),
        match pos.zoom {
            Zoom::Manual(f) => exists|raw: Coord| raw.number() && f == #[trigger] ZoomFactor::of(raw),
            _ => true,
        },
        match pos.zoom {
            Zoom::Manual(f) => value == Some(f.0),
            _ => true,
        },
    ensures
        line_read(line_of(path, pos, factor)) is Some,
        line_read(line_of(path, pos, factor))->0.path == path,
        line_read(line_of(path, pos, factor))->0.position(value) == pos,
{
    law_line_reads_back(path, pos, factor);
}

/// Whether a text holds no line break.
pub open spec fn plain_line(chars: Seq<char>) -> bool {
    forall|i: int| 0 <= i < chars.len() ==> #[trigger] chars[i] != '\n'
}

/// A line without the carriage return that it may end in.
pub open spec fn without_return(line: Seq<char>) -> Seq<char> {
    if line.len() > 0 && line.last() == '\r' {
        line.drop_last()
    } else {
        line
    }
}

/// What the first `n` pieces of a file say, those aside that cannot be read.
/// The last piece, behind the last line break, is no line if it is empty, and
/// keeps its carriage return.
pub open spec fn entries_upto(parts: Seq<Seq<char>>, n: int) -> Seq<StoredView>
    decreases n,
{
    if n <= 0 {
        Seq::empty()
    } else {
        let front = entries_upto(parts, n - 1);
        let line = if n == parts.len() {
            parts[n - 1]
        } else {
            without_return(parts[n - 1])
        };
        match line_read(line) {
            Some(entry) => front.push(entry),
            None => front,
        }
    }
}

/// What a file says.
pub open spec fn file_read(raw: Seq<char>) -> Seq<StoredView> {
    entries_upto(pieces(raw, '\n'), pieces(raw, '\n').len() as int)
}

/// What each line says.
pub open spec fn stored_views(list: Seq<StoredEntry>) -> Seq<StoredView> {
    list.map_values(|e: StoredEntry| e@)
}

/// Reads a file.
pub fn read_positions(raw: &str) -> (entries: Vec<StoredEntry>)
    ensures
        stored_views(entries@) == file_read(raw@),
{
    let lines = split_at_mark(raw, '\n');
    let count: usize = lines.len();
    let ghost parts = pieces(raw@, '\n');
    let mut entries: Vec<StoredEntry> = Vec::new();
    let mut i: usize = 0;
    assert(stored_views(entries@) =~= entries_upto(parts, 0));
    while i < count
        invariant
            count == lines@.len(),
            views(lines@) == parts,
            i <= count,
            stored_views(entries@) == entries_upto(parts, i as int),
        decreases count - i,
    {
        assert(parts[i as int] == lines@[i as int]@);
        let chars = chars_of(lines[i].as_str());
        let len: usize = chars.len();
        let line = if i + 1 < count && len > 0 && chars[len - 1] == '\r' {
            let cut = sub_text(&chars, 0, len - 1);
            assert(cut@ =~= parts[i as int].drop_last());
            cut
        } else {
            lines[i].clone()
        };
        let ghost before = entries@;
        match decode_entry(line.as_str()) {
            Some(entry) => {
                entries.push(entry);
                assert(stored_views(entries@) =~= stored_views(before).push(entry@));
            },
            None => {},
        }
        i += 1;
    }
    entries
}

/// The lines of the first `n` documents.
pub open spec fn file_of(
    entries: Seq<(Seq<char>, DocPosition)>,
    factors: Seq<Seq<char>>,
    n: int,
) -> Seq<char>
    decreases n,
{
    if n <= 0 {
        Seq::empty()
    } else {
        file_of(entries, factors, n - 1) + line_of(
            entries[n - 1].0,
            entries[n - 1].1,
            factors[n - 1],
        ) + seq!['\n']
    }
}

/// How many documents a file holds.
pub open spec fn stored_count(n: int) -> int {
    if n <= MAX_POSITIONS {
        n
    } else {
        MAX_POSITIONS as int
    }
}

/// The paths of documents and where each was left.
pub open spec fn places(entries: Seq<(String, DocPosition)>) -> Seq<(Seq<char>, DocPosition)> {
    entries.map_values(|e: (String, DocPosition)| (e.0@, e.1))
}

/// The file for documents, as many as are kept. The factors of their zooms are
/// given as decimal numbers.
pub fn save_positions(entries: &Vec<(String, DocPosition)>, factors: &Vec<String>) -> (body: String)
    requires
        factors@.len() == entries@.len(),
    ensures
        body@ == file_of(
            places(entries@),
            views(factors@),
            stored_count(entries@.len() as int),
        ),
{
    let mut body = String::new();
    let mut i: usize = 0;
    while i < entries.len() && i < MAX_POSITIONS
        invariant
            factors@.len() == entries@.len(),
            i <= entries@.len(),
            i <= MAX_POSITIONS,
            body@ == file_of(places(entries@), views(factors@), i as int),
        decreases entries@.len() - i,
    {
        assert(places(entries@)[i as int] == (entries@[i as int].0@, entries@[i as int].1));
        assert(views(factors@)[i as int] == factors@[i as int]@);
        let line = encode_entry(
            entries[i].0.as_str(),
            &entries[i].1,
            factors[i].as_str(),
        );
        let ghost before = body@;
        push_text(&mut body, line.as_str());
        body.push('\n');
        assert(body@ =~= before + line@ + seq!['\n']);
        i += 1;
    }
    body
}

/// What is read of the first `n` documents once they were stored.
pub open spec fn kept_upto(
    entries: Seq<(Seq<char>, DocPosition)>,
    factors: Seq<Seq<char>>,
    n: int,
) -> Seq<StoredView> {
    Seq::new(
        n as nat,
        |i: int|
            StoredView {
                path: entries[i].0,
                page: entries[i].1.page,
                zoom: zoom_kept(entries[i].1.zoom, factors[i]),
                mode: entries[i].1.mode,
                size: entries[i].1.size,
                mtime: entries[i].1.mtime,
            },
    )
}

proof fn lemma_pieces_join(front: Seq<char>, line: Seq<char>)
    requires
        plain_line(line),
    ensures
        pieces(front + line + seq!['\n'], '\n') == pieces(front, '\n').drop_last().push(
            pieces(front, '\n').last() + line,
        ).push(Seq::empty()),
        pieces(front, '\n').len() > 0,
    decreases front.len(),
{
    let at = first_at(front, '\n', 0);
    lemma_first_at(front, '\n', 0);
    let whole = front + line + seq!['\n'];
    if at >= front.len() {
        let head = front + line;
        assert forall|k: int| 0 <= k < head.len() implies head[k] != '\n' by {
            if k >= front.len() {
                assert(head[k] == line[k - front.len()]);
            }
        }
        assert(whole =~= head + seq!['\n'] + Seq::<char>::empty());
        lemma_pieces(head, '\n', Seq::empty());
        lemma_last_piece(Seq::empty(), '\n');
        assert(pieces(front, '\n') =~= seq![front]);
        assert(pieces(whole, '\n') =~= pieces(front, '\n').drop_last().push(
            pieces(front, '\n').last() + line,
        ).push(Seq::empty()));
    } else {
        let rest = front.skip(at + 1);
        lemma_pieces_join(rest, line);
        assert(whole =~= front.take(at) + seq!['\n'] + (rest + line + seq!['\n']));
        lemma_pieces(front.take(at), '\n', rest + line + seq!['\n']);
        assert(pieces(front, '\n') =~= seq![front.take(at)] + pieces(rest, '\n'));
        assert(pieces(whole, '\n') =~= pieces(front, '\n').drop_last().push(
            pieces(front, '\n').last() + line,
        ).push(Seq::empty()));
    }
}

proof fn lemma_entries_prefix(a: Seq<Seq<char>>, b: Seq<Seq<char>>, n: int)
    requires
        n <= a.len(),
        n <= b.len(),
        forall|i: int| 0 <= i < n ==> a[i] == b[i],
        n < a.len(),
        n < b.len(),
    ensures
        entries_upto(a, n) == entries_upto(b, n),
    decreases n,
{
    if n > 0 {
        lemma_entries_prefix(a, b, n - 1);
    }
}

proof fn lemma_file_pieces(
    entries: Seq<(Seq<char>, DocPosition)>,
    factors: Seq<Seq<char>>,
    n: int,
)
    requires
        0 <= n <= entries.len(),
        factors.len() == entries.len(),
        forall|i: int|
            0 <= i < n ==> (#[trigger] entries[i]).0.len() > 0 && entries[i].0.last() != '\r',
        forall|i: int| 0 <= i < n ==> plain(#[trigger] factors[i]),
    ensures
        pieces(file_of(entries, factors, n), '\n').len() == n + 1,
        pieces(file_of(entries, factors, n), '\n').last() == Seq::<char>::empty(),
        entries_upto(pieces(file_of(entries, factors, n), '\n'), n) == kept_upto(
            entries,
            factors,
            n,
        ),
    decreases n,
{
    if n == 0 {
        lemma_last_piece(Seq::empty(), '\n');
        assert(entries_upto(pieces(file_of(entries, factors, n), '\n'), n) =~= kept_upto(
            entries,
            factors,
            n,
        ));
    } else {
        lemma_file_pieces(entries, factors, n - 1);
        let front = file_of(entries, factors, n - 1);
        let path = entries[n - 1].0;
        let pos = entries[n - 1].1;
        let line = line_of(path, pos, factors[n - 1]);
        assert(plain(factors[n - 1]));
        law_line_reads_back(path, pos, factors[n - 1]);
        lemma_pieces_join(front, line);
        let before = pieces(front, '\n');
        let after = pieces(file_of(entries, factors, n), '\n');
        assert(Seq::<char>::empty() + line =~= line);
        assert(after =~= before.drop_last().push(line).push(Seq::empty()));
        lemma_entries_prefix(before, after, n - 1);
        lemma_line_end(path, pos, factors[n - 1]);
        assert(without_return(line) == line);
        assert(entries_upto(after, n) =~= kept_upto(entries, factors, n));
    }
}

proof fn lemma_line_end(path: Seq<char>, pos: DocPosition, factor: Seq<char>)
    requires
        path.len() > 0,
        path.last() != '\r',
    ensures
        line_of(path, pos, factor).len() > 0,
        line_of(path, pos, factor).last() != '\r',
{
    let end = escaped(path);
    assert(end == escaped(path.drop_last()) + escape_char(path.last()));
    assert(end.last() == escape_char(path.last()).last());
    assert(line_of(path, pos, factor).last() == end.last());
}

/// A file is read as it was written: the same documents, in the same order.
pub proof fn law_file_reads_back(
    entries: Seq<(Seq<char>, DocPosition)>,
    factors: Seq<Seq<char>>,
    n: int,
)
    requires
        0 <= n <= entries.len(),
        factors.len() == entries.len(),
        forall|i: int|
            0 <= i < n ==> (#[trigger] entries[i]).0.len() > 0 && entries[i].0.last() != '\r',
        forall|i: int| 0 <= i < n ==> plain(#[trigger] factors[i]),
    ensures
        file_read(file_of(entries, factors, n)) == kept_upto(entries, factors, n),
{
    lemma_file_pieces(entries, factors, n);
    let parts = pieces(file_of(entries, factors, n), '\n');
    lemma_last_piece(Seq::empty(), '\t');
    assert(line_read(parts[n]) is None);
}

/// The documents other than one.
pub open spec fn without_place(entries: Seq<(Seq<char>, DocPosition)>, path: Seq<char>) -> Seq<
    (Seq<char>, DocPosition),
>
    decreases entries.len(),
{
    if entries.len() == 0 {
        Seq::empty()
    } else if same_place(entries.last().0, path) {
        without_place(entries.drop_last(), path)
    } else {
        without_place(entries.drop_last(), path).push(entries.last())
    }
}

/// The documents once one was left: it comes first, and no more are kept than
/// there is room for.
pub open spec fn recorded(
    entries: Seq<(Seq<char>, DocPosition)>,
    path: Seq<char>,
    pos: DocPosition,
) -> Seq<(Seq<char>, DocPosition)> {
    let all = seq![(path, pos)] + without_place(entries, path);
    all.take(stored_count(all.len() as int))
}

/// Takes down where a document was left.
pub fn record_position(entries: Vec<(String, DocPosition)>, path: String, pos: DocPosition) -> (r: Vec<
    (String, DocPosition),
>)
    ensures
        places(r@) == recorded(places(entries@), path@, pos),
{
    let mut r: Vec<(String, DocPosition)> = Vec::new();
    let first = path.clone();
    r.push((first, pos));
    let mut i: usize = 0;
    assert(places(r@) =~= seq![(path@, pos)] + without_place(places(entries@).take(0), path@));
    while i < entries.len()
        invariant
            i <= entries@.len(),
            places(r@) == seq![(path@, pos)] + without_place(
                places(entries@).take(i as int),
                path@,
            ),
        decreases entries@.len() - i,
    {
        let ghost before = r@;
        assert(places(entries@).take(i + 1).drop_last() =~= places(entries@).take(i as int));
        assert(places(entries@)[i as int] == (entries@[i as int].0@, entries@[i as int].1));
        if !is_same_place(entries[i].0.as_str(), path.as_str()) {
            let kept = (entries[i].0.clone(), entries[i].1);
            r.push(kept);
            assert(places(r@) =~= places(before).push((kept.0@, kept.1)));
        }
        assert(places(r@) =~= seq![(path@, pos)] + without_place(
            places(entries@).take(i + 1),
            path@,
        ));
        i += 1;
    }
    assert(places(entries@).take(i as int) =~= places(entries@));
    let ghost all = r@;
    r.truncate(MAX_POSITIONS);
    assert(places(r@) =~= recorded(places(entries@), path@, pos));
    r
}

/// Where the first of the first `n` documents that a path leads to was left.
pub open spec fn place_upto(entries: Seq<(Seq<char>, DocPosition)>, path: Seq<char>, n: int) -> Option<
    DocPosition,
>
    decreases n,
{
    if n <= 0 {
        None
    } else {
        match place_upto(entries, path, n - 1) {
            Some(pos) => Some(pos),
            None => if same_place(entries[n - 1].0, path) {
                Some(entries[n - 1].1)
            } else {
                None
            },
        }
    }
}

/// Where a document was left, if its file is the same still. The identity is
/// the size of the file and when it was changed; without one there is no file.
pub open spec fn left_at(
    entries: Seq<(Seq<char>, DocPosition)>,
    path: Seq<char>,
    identity: Option<(u64, u64)>,
) -> Option<DocPosition> {
    match (identity, place_upto(entries, path, entries.len() as int)) {
        (Some((size, mtime)), Some(pos)) => if pos.size == size && same_time(pos.mtime, mtime) {
            Some(pos)
        } else {
            None
        },
        _ => None,
    }
}

proof fn lemma_place_stays(entries: Seq<(Seq<char>, DocPosition)>, path: Seq<char>, m: int, n: int)
    requires
        m <= n,
        place_upto(entries, path, m) is Some,
    ensures
        place_upto(entries, path, n) == place_upto(entries, path, m),
    decreases n,
{
    if m < n {
        lemma_place_stays(entries, path, m, n - 1);
    }
}

/// Where a document was left, if its file is the same still.
pub fn find_position(
    entries: &Vec<(String, DocPosition)>,
    path: &str,
    identity: Option<(u64, u64)>,
) -> (r: Option<DocPosition>)
    ensures
        r == left_at(places(entries@), path@, identity),
{
    let (size, mtime): (u64, u64) = match identity {
        Some(pair) => pair,
        None => {
            return None;
        },
    };
    let ghost all = places(entries@);
    let mut i: usize = 0;
    while i < entries.len()
        invariant
            all == places(entries@),
            i <= entries@.len(),
            identity == Some((size, mtime)),
            place_upto(all, path@, i as int) is None,
        decreases entries@.len() - i,
    {
        assert(all[i as int] == (entries@[i as int].0@, entries@[i as int].1));
        if is_same_place(entries[i].0.as_str(), path) {
            let pos = entries[i].1;
            proof {
                lemma_place_stays(all, path@, i + 1, all.len() as int);
            }
            return if pos.size == size && mtime_matches(pos.mtime, mtime) {
                Some(pos)
            } else {
                None
            };
        }
        i += 1;
    }
    None
}

/// A document that was left is found where it was left, however its path is
/// written, as long as its file stays the same; one that changed is not.
pub proof fn law_recorded_is_found(
    entries: Seq<(Seq<char>, DocPosition)>,
    path: Seq<char>,
    pos: DocPosition,
    again: Seq<char>,
    size: u64,
    mtime: u64,
)
    requires
        same_place(path, again),
    ensures
        left_at(recorded(entries, path, pos), again, Some((pos.size, pos.mtime))) == Some(pos),
        size != pos.size || !same_time(pos.mtime, mtime) ==> left_at(
            recorded(entries, path, pos),
            again,
            Some((size, mtime)),
        ) is None,
{
    let all = recorded(entries, path, pos);
    assert(all[0] == (path, pos));
    assert(place_upto(all, again, 0) is None);
    assert(place_upto(all, again, 1) == Some(pos));
    lemma_place_stays(all, again, 1, all.len() as int);
}

proof fn lemma_without_place(entries: Seq<(Seq<char>, DocPosition)>, path: Seq<char>)
    ensures
        forall|i: int|
            0 <= i < without_place(entries, path).len() ==> !same_place(
                (#[trigger] without_place(entries, path)[i]).0,
                path,
            ),
    decreases entries.len(),
{
    if entries.len() > 0 {
        lemma_without_place(entries.drop_last(), path);
        let rest = without_place(entries.drop_last(), path);
        let out = without_place(entries, path);
        assert forall|i: int| 0 <= i < out.len() implies !same_place((#[trigger] out[i]).0, path) by {
            if i < rest.len() {
                assert(out[i] == rest[i]);
            }
        }
    }
}

/// A document that was left comes first and occurs once, however its path is
/// written, and no more are kept
/// than there is room for.
pub proof fn law_recorded_comes_first(
    entries: Seq<(Seq<char>, DocPosition)>,
    path: Seq<char>,
    pos: DocPosition,
)
    ensures
        recorded(entries, path, pos).len() <= MAX_POSITIONS,
        recorded(entries, path, pos)[0] == (path, pos),
        forall|i: int|
            0 < i < recorded(entries, path, pos).len() ==> !same_place(
                (#[trigger] recorded(entries, path, pos)[i]).0,
                path,
            ),
{
    lemma_without_place(entries, path);
    let rest = without_place(entries, path);
    assert forall|i: int| 0 < i < recorded(entries, path, pos).len() implies !same_place(
        (#[trigger] recorded(entries, path, pos)[i]).0,
        path,
    ) by {
        assert(recorded(entries, path, pos)[i] == rest[i - 1]);
    }
}

} // verus!
