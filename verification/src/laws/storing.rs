//! Where documents were left, as it is stored.

use vstd::prelude::*;

use crate::numbers::{decimal, law_shown_reads_back, shown};
use crate::page::{Coord, EIGHT, QUARTER};
use crate::paths::same_place;
use crate::positions::{
    escape_char, escaped, line_of, line_read, pieces, recorded, same_time, stored_count, unescaped,
    without_place, zoom_meant, zoom_read, DocPosition, StoredView, ZoomTextView,
};
use crate::state::{ViewMode, Zoom, ZoomFactor};

verus! {

/// A line holds, set apart by tabs, the page counted from zero, the zoom, the
/// size and the time of the file, the mode and the path.
pub proof fn law_lines_hold_these_fields(path: Seq<char>, pos: DocPosition, factor: Seq<char>)
    ensures
        ({
            let zoom = match pos.zoom {
                Zoom::Width => "width"@,
                Zoom::Page => "page"@,
                Zoom::Manual(_) => "manual:"@ + factor,
            };
            let mode = match pos.mode {
                ViewMode::Single => "single"@,
                ViewMode::Continuous => "continuous"@,
            };
            line_of(path, pos, factor) == shown(pos.page as nat) + seq!['\t'] + zoom + seq!['\t']
                + shown(pos.size as nat) + seq!['\t'] + shown(pos.mtime as nat) + seq!['\t'] + mode
                + seq!['\t'] + escaped(path)
        }),
{
    let zoom = match pos.zoom {
        Zoom::Width => "width"@,
        Zoom::Page => "page"@,
        Zoom::Manual(_) => "manual:"@ + factor,
    };
    let mode = match pos.mode {
        ViewMode::Single => "single"@,
        ViewMode::Continuous => "continuous"@,
    };
    assert(line_of(path, pos, factor) =~= shown(pos.page as nat) + seq!['\t'] + zoom + seq!['\t']
        + shown(pos.size as nat) + seq!['\t'] + shown(pos.mtime as nat) + seq!['\t'] + mode
        + seq!['\t'] + escaped(path));
}

proof fn lemma_escaped_concat(a: Seq<char>, b: Seq<char>)
    ensures
        escaped(a + b) == escaped(a) + escaped(b),
    decreases b.len(),
{
    if b.len() == 0 {
        assert(a + b =~= a);
        assert(escaped(a) + escaped(b) =~= escaped(a));
    } else {
        lemma_escaped_concat(a, b.drop_last());
        assert((a + b).drop_last() =~= a + b.drop_last());
        assert(escaped(a) + escaped(b) =~= escaped(a) + escaped(b.drop_last()) + escape_char(
            b.last(),
        ));
    }
}

/// A path is written character by character: a backslash, a tab and a line
/// break as two characters, the first of them a backslash; all others as they
/// are.
pub proof fn law_paths_are_escaped_character_by_character(a: Seq<char>, ch: char, b: Seq<char>)
    ensures
        escaped(a + b) == escaped(a) + escaped(b),
        escaped(seq![ch]) == if ch == '\\' {
            seq!['\\', '\\']
        } else if ch == '\t' {
            seq!['\\', 't']
        } else if ch == '\n' {
            seq!['\\', 'n']
        } else {
            seq![ch]
        },
{
    lemma_escaped_concat(a, b);
    assert(seq![ch].drop_last() =~= Seq::<char>::empty());
    assert(escaped(seq![ch].drop_last()) =~= Seq::<char>::empty());
    assert(escaped(seq![ch]) =~= escape_char(ch));
}

/// A line of five fields, which names no mode, is that of a document of which
/// one page was shown at a time; a line of another number of fields, and one
/// whose numbers are none, says nothing.
pub proof fn law_old_lines_are_read(line: Seq<char>, page: u32, size: u64, mtime: u64)
    ensures
        ({
            let fields = pieces(line, '\t');
            &&& fields.len() == 5 && fields[0] == shown(page as nat) && fields[2] == shown(
                size as nat,
            ) && fields[3] == shown(mtime as nat) && unescaped(fields[4]).len() > 0 ==> line_read(
                line,
            ) == Some(
                StoredView {
                    path: unescaped(fields[4]),
                    page,
                    zoom: zoom_read(fields[1]),
                    mode: ViewMode::Single,
                    size,
                    mtime,
                },
            )
            &&& fields.len() < 5 || fields.len() > 6 ==> line_read(line) is None
            &&& decimal(fields[0]) is None || decimal(fields[2]) is None || decimal(fields[3]) is None
                ==> line_read(line) is None
        }),
{
    law_shown_reads_back(page as nat);
    law_shown_reads_back(size as nat);
    law_shown_reads_back(mtime as nat);
}

/// A zoom in words is the page, a factor, or else the width.
pub proof fn law_zoom_is_read(factor: Seq<char>, raw: Seq<char>)
    ensures
        zoom_read("page"@) == ZoomTextView::Page,
        zoom_read("width"@) == ZoomTextView::Width,
        zoom_read("manual:"@ + factor) == ZoomTextView::Manual(factor),
        raw.len() < 4 ==> zoom_read(raw) == ZoomTextView::Width,
{
    reveal_strlit("page");
    reveal_strlit("width");
    reveal_strlit("manual:");
    assert("page"@.len() == 4 && "width"@.len() == 5 && "manual:"@.len() == 7);
    let all = "manual:"@ + factor;
    assert(all.take(7) =~= "manual:"@);
    assert(all.skip(7) =~= factor);
}

/// A factor that was stored is the zoom, between a quarter and eight times;
/// what is no number is the width.
pub proof fn law_stored_factor_is_the_zoom(text: Seq<char>, raw: Coord)
    ensures
        zoom_meant(ZoomTextView::Width, Some(raw)) == Zoom::Width,
        zoom_meant(ZoomTextView::Page, Some(raw)) == Zoom::Page,
        zoom_meant(ZoomTextView::Manual(text), None) == Zoom::Width,
        !raw.finite() ==> zoom_meant(ZoomTextView::Manual(text), Some(raw)) == Zoom::Width,
        raw.finite() ==> zoom_meant(ZoomTextView::Manual(text), Some(raw)) == Zoom::Manual(
            ZoomFactor(
                Coord(
                    if raw.0 < QUARTER {
                        QUARTER
                    } else if raw.0 > EIGHT {
                        EIGHT
                    } else {
                        raw.0
                    },
                ),
            ),
        ),
{
}

/// A zoom is brought between a quarter and eight times, and is else as it was
/// asked for.
pub proof fn law_zoom_is_kept_between_its_ends(raw: Coord)
    requires
        raw.number(),
    ensures
        QUARTER <= ZoomFactor::of(raw).0.0 <= EIGHT,
        QUARTER <= raw.0 <= EIGHT ==> ZoomFactor::of(raw).0 == raw,
        raw.0 < QUARTER ==> ZoomFactor::of(raw).0.0 == QUARTER,
        raw.0 > EIGHT ==> ZoomFactor::of(raw).0.0 == EIGHT,
{
}

/// A file is the same as long as its time is: to the nanosecond or, where only
/// seconds were stored, to the second.
pub proof fn law_times_are_compared(stored: u64, now: u64)
    ensures
        same_time(now, now),
        stored >= 10_000_000_000 && stored != now ==> !same_time(stored, now),
        stored < 10_000_000_000 ==> (same_time(stored, now) <==> stored == now || stored == now
            / 1_000_000_000),
{
}

/// Fifty documents are kept, and fewer are all kept.
pub proof fn law_fifty_documents_are_kept(n: int)
    requires
        n >= 0,
    ensures
        stored_count(n) <= 50,
        n <= 50 ==> stored_count(n) == n,
        n > 50 ==> stored_count(n) == 50,
{
}

proof fn lemma_others_stay(entries: Seq<(Seq<char>, DocPosition)>, path: Seq<char>, i: int)
    requires
        0 <= i < entries.len(),
        !same_place(entries[i].0, path),
    ensures
        without_place(entries, path).contains(entries[i]),
        without_place(entries, path).len() <= entries.len(),
    decreases entries.len(),
{
    let front = entries.drop_last();
    let rest = without_place(front, path);
    let all = without_place(entries, path);
    lemma_no_more(front, path);
    if i == entries.len() - 1 {
        assert(all[rest.len() as int] == entries[i]);
    } else {
        lemma_others_stay(front, path, i);
        let k = choose|k: int| 0 <= k < rest.len() && rest[k] == front[i];
        assert(all[k] == entries[i]);
    }
}

proof fn lemma_no_more(entries: Seq<(Seq<char>, DocPosition)>, path: Seq<char>)
    ensures
        without_place(entries, path).len() <= entries.len(),
    decreases entries.len(),
{
    if entries.len() > 0 {
        lemma_no_more(entries.drop_last(), path);
    }
}

/// Where one document was left does not change where the others were, as long
/// as there is room for them.
pub proof fn law_other_documents_stay_where_they_were_left(
    entries: Seq<(Seq<char>, DocPosition)>,
    path: Seq<char>,
    pos: DocPosition,
    i: int,
)
    requires
        0 <= i < entries.len() < 50,
        !same_place(entries[i].0, path),
    ensures
        recorded(entries, path, pos).contains(entries[i]),
{
    lemma_others_stay(entries, path, i);
    let rest = without_place(entries, path);
    let all = seq![(path, pos)] + rest;
    let k = choose|k: int| 0 <= k < rest.len() && rest[k] == entries[i];
    assert(all.take(stored_count(all.len() as int)) =~= all);
    assert(recorded(entries, path, pos)[k + 1] == entries[i]);
}

} // verus!
