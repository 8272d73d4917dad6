//! Moving through a document: pages, history, table of contents, zoom and
//! modes.

use vstd::prelude::*;

use crate::messages::Message;
use crate::numbers::{
    all_digits, decimal, digit, law_shown_reads_back, shown, trimmed, trimmed_end, trimmed_start,
    unsigned_part, white,
};
use crate::page::{Coord, PageNo};
use crate::ready::ReadyView;
use crate::state::{ActionView, NavCmd, OutlineKey, ViewMode, Zoom};

verus! {

/// Whether a document was only moved through: all but where the reader is,
/// the way there and the bitmaps that are waited for is as it was.
pub open spec fn only_moved(v: ReadyView, after: ReadyView) -> bool {
    after == (ReadyView {
        visible: after.visible,
        history: after.history,
        page_input: after.page_input,
        render_gen: after.render_gen,
        ..v
    })
}

/// Whether the place is stored, and which: the page, the zoom and the mode
/// that the reader has come to, if they changed, and nothing if not.
pub open spec fn stores_place(v: ReadyView, after: ReadyView, asked: Seq<ActionView>) -> bool {
    let place = ActionView::SavePosition {
        path: v.source.place(),
        page: after.visible.0,
        zoom: after.zoom,
        mode: after.view_mode,
    };
    if after.visible != v.visible {
        asked.contains(place)
    } else {
        forall|i: int| 0 <= i < asked.len() ==> !(#[trigger] asked[i] is SavePosition)
    }
}

/// The commands that move through a document lead where they say: one page
/// on or back, to the first page, to the last, to a page that is named; the
/// ends hold, and a page beyond the end is the last.
pub proof fn law_commands_move(v: ReadyView, cmd: NavCmd)
    requires
        v.wf(),
        v.pages.total > 0,
        v.print_dialog is None,
    ensures
        ({
            let after = v.handled(Message::Nav { cmd }).0;
            let here = v.visible.0 as int;
            let last = v.pages.total - 1;
            &&& match cmd {
                NavCmd::Previous => after.visible.0 == if here == 0 { 0 } else { here - 1 },
                NavCmd::Next => after.visible.0 == if here == last { last } else { here + 1 },
                NavCmd::First => after.visible.0 == 0,
                NavCmd::Last => after.visible.0 == last,
                NavCmd::GoTo(page) => after.visible.0 == if page.0 <= last {
                    page.0 as int
                } else {
                    last
                },
            }
            &&& after.page_input == shown((after.visible.0 + 1) as nat)
            &&& only_moved(v, after)
            &&& after.visible != v.visible <==> after.render_gen != v.render_gen
        }),
{
}

/// A step to the next page and one to the previous undo each other.
pub proof fn law_next_and_previous_undo_each_other(v: ReadyView)
    requires
        v.wf(),
        v.print_dialog is None,
    ensures
        v.visible.0 + 1 < v.pages.total ==> v.handled(Message::Nav { cmd: NavCmd::Next }).0.handled(
            Message::Nav { cmd: NavCmd::Previous },
        ).0.visible == v.visible,
        v.visible.0 > 0 ==> v.handled(Message::Nav { cmd: NavCmd::Previous }).0.handled(
            Message::Nav { cmd: NavCmd::Next },
        ).0.visible == v.visible,
{
}

/// Wherever a command leads, the place is stored if it is another, work is
/// asked for, and in a document without pages nothing moves.
pub proof fn law_moves_are_stored(v: ReadyView, cmd: NavCmd)
    requires
        v.wf(),
        v.print_dialog is None,
    ensures
        stores_place(v, v.handled(Message::Nav { cmd }).0, v.handled(Message::Nav { cmd }).1),
        v.handled(Message::Nav { cmd }).1.contains(ActionView::Schedule),
        v.pages.total == 0 ==> v.handled(Message::Nav { cmd }).0.visible == v.visible,
{
    let after = v.handled(Message::Nav { cmd });
    if after.0.visible != v.visible {
        assert(after.1[0] is SavePosition);
        assert(after.1[1] is Schedule);
    } else {
        assert(after.1[0] is Schedule);
    }
}

/// While the print dialog is open, the commands move through its preview and
/// leave the document where it is.
pub proof fn law_dialog_keeps_document_in_place(v: ReadyView, cmd: NavCmd)
    requires
        v.wf(),
        v.print_dialog is Some,
    ensures
        ({
            let after = v.handled(Message::Nav { cmd }).0;
            &&& after.print_dialog is Some
            &&& after == (ReadyView { print_dialog: after.print_dialog, ..v })
        }),
{
}

proof fn lemma_trimmed_start(before: Seq<char>, text: Seq<char>)
    requires
        forall|i: int| 0 <= i < before.len() ==> white(#[trigger] before[i]),
        text.len() > 0 ==> !white(text[0]),
    ensures
        trimmed_start(before + text) == text,
    decreases before.len(),
{
    let all = before + text;
    if before.len() > 0 {
        assert(white(before[0]));
        assert(all.skip(1) =~= before.skip(1) + text);
        lemma_trimmed_start(before.skip(1), text);
    } else {
        assert(all =~= text);
    }
}

proof fn lemma_trimmed_end(text: Seq<char>, after: Seq<char>)
    requires
        forall|i: int| 0 <= i < after.len() ==> white(#[trigger] after[i]),
        text.len() > 0 ==> !white(text.last()),
    ensures
        trimmed_end(text + after) == text,
    decreases after.len(),
{
    let all = text + after;
    if after.len() > 0 {
        assert(white(after[after.len() - 1]));
        assert(all.drop_last() =~= text + after.drop_last());
        lemma_trimmed_end(text, after.drop_last());
    } else {
        assert(all =~= text);
    }
}

/// What is read of a text is what stands between the white space round it.
pub proof fn law_white_space_is_cut(before: Seq<char>, text: Seq<char>, after: Seq<char>)
    requires
        forall|i: int| 0 <= i < before.len() ==> white(#[trigger] before[i]),
        forall|i: int| 0 <= i < after.len() ==> white(#[trigger] after[i]),
        text.len() > 0,
        !white(text[0]),
        !white(text.last()),
    ensures
        trimmed(before + text + after) == text,
        trimmed_end(before + text + after) == before + text,
{
    assert((before + text).last() == text.last());
    lemma_trimmed_end(before + text, after);
    lemma_trimmed_start(before, text);
}

pub(crate) proof fn lemma_number_is_read(before: Seq<char>, n: nat, after: Seq<char>)
    requires
        forall|i: int| 0 <= i < before.len() ==> white(#[trigger] before[i]),
        forall|i: int| 0 <= i < after.len() ==> white(#[trigger] after[i]),
    ensures
        decimal(trimmed(before + shown(n) + after)) == Some(n),
{
    law_shown_reads_back(n);
    assert(digit(shown(n)[0]));
    assert(digit(shown(n)[shown(n).len() - 1]));
    law_white_space_is_cut(before, shown(n), after);
}

/// A number is written digit by digit, the last digit last.
pub proof fn law_numbers_are_decimal(n: nat, d: nat)
    requires
        d < 10,
    ensures
        shown(d) == seq![('0' as u32 + d) as char],
        n > 0 ==> shown(n * 10 + d) == shown(n).push(('0' as u32 + d) as char),
{
    assert((n * 10 + d) / 10 == n);
    assert((n * 10 + d) % 10 == d);
}

/// A page number that was typed, with white space round it or without, leads
/// to that page as readers count; zero leads to the first page, and a number
/// beyond the end to the last.
pub proof fn law_typed_number_leads_to_page(
    v: ReadyView,
    before: Seq<char>,
    n: nat,
    after: Seq<char>,
)
    requires
        v.wf(),
        v.pages.total > 0,
        n <= u32::MAX,
        forall|i: int| 0 <= i < before.len() ==> white(#[trigger] before[i]),
        forall|i: int| 0 <= i < after.len() ==> white(#[trigger] after[i]),
        v.page_input == before + shown(n) + after,
    ensures
        ({
            let there = v.handled(Message::PageSubmit).0;
            &&& 1 <= n <= v.pages.total ==> there.visible.0 + 1 == n
            &&& n == 0 ==> there.visible.0 == 0
            &&& n > v.pages.total ==> there.visible.0 + 1 == v.pages.total
            &&& there.page_input == shown((there.visible.0 + 1) as nat)
            &&& only_moved(v, there)
        }),
        stores_place(v, v.handled(Message::PageSubmit).0, v.handled(Message::PageSubmit).1),
{
    lemma_number_is_read(before, n, after);
    let there = v.handled(Message::PageSubmit);
    if there.0.visible != v.visible {
        assert(there.1[0] is SavePosition);
    }
}

pub(crate) proof fn lemma_trimmed_keeps(text: Seq<char>, i: int)
    requires
        0 <= i < text.len(),
        !white(text[i]),
    ensures
        trimmed(text).contains(text[i]),
{
    lemma_end_keeps(text, i);
    lemma_start_keeps(trimmed_end(text), i);
}

proof fn lemma_end_keeps(text: Seq<char>, i: int)
    requires
        0 <= i < text.len(),
        !white(text[i]),
    ensures
        i < trimmed_end(text).len(),
        trimmed_end(text)[i] == text[i],
    decreases text.len(),
{
    if white(text.last()) {
        lemma_end_keeps(text.drop_last(), i);
    }
}

proof fn lemma_start_keeps(text: Seq<char>, i: int)
    requires
        0 <= i < text.len(),
        !white(text[i]),
    ensures
        trimmed_start(text).contains(text[i]),
    decreases text.len(),
{
    if white(text[0]) {
        lemma_start_keeps(text.skip(1), i - 1);
    } else {
        assert(trimmed_start(text)[i] == text[i]);
    }
}

/// What was typed that is no number leads nowhere, and makes place for the
/// number of the page that the reader is on.
pub proof fn law_typed_words_lead_nowhere(v: ReadyView, i: int)
    requires
        v.wf(),
        v.pages.total > 0,
        0 <= i < v.page_input.len(),
        !white(v.page_input[i]),
        !digit(v.page_input[i]),
        v.page_input[i] != '+',
    ensures
        ({
            let there = v.handled(Message::PageSubmit).0;
            &&& there == (ReadyView { page_input: shown((v.visible.0 + 1) as nat), ..v })
        }),
{
    let text = trimmed(v.page_input);
    lemma_trimmed_keeps(v.page_input, i);
    let k = choose|k: int| 0 <= k < text.len() && text[k] == v.page_input[i];
    let digits = unsigned_part(text);
    if all_digits(digits) {
        if text[0] == '+' {
            assert(digits[k - 1] == text[k]);
        } else {
            assert(digits[k] == text[k]);
        }
        assert(false);
    }
}

/// The way back leads to the page that the reader came from, and the way
/// forward returns; where there is no way, the reader stays.
pub proof fn law_back_and_forward(v: ReadyView, page: PageNo)
    requires
        v.wf(),
        v.print_dialog is None,
        page.0 < v.pages.total,
        page != v.visible,
        v.history.current() == v.visible,
    ensures
        ({
            let there = v.handled(Message::Nav { cmd: NavCmd::GoTo(page) }).0;
            let back = there.handled(Message::HistoryBack);
            let again = back.0.handled(Message::HistoryForward);
            &&& there.visible == page
            &&& back.0.visible == v.visible
            &&& back.0.page_input == shown((v.visible.0 + 1) as nat)
            &&& again.0.visible == page
            &&& again.0.handled(Message::HistoryForward).0.visible == page
            &&& stores_place(there, back.0, back.1)
            &&& stores_place(back.0, again.0, again.1)
            &&& only_moved(there, back.0)
            &&& only_moved(back.0, again.0)
        }),
{
    let there = v.handled(Message::Nav { cmd: NavCmd::GoTo(page) }).0;
    assert(there == v.navigated(page));
    assert(there.history == v.history.visited(page));
    assert(there.history.current() == page);
    let back = there.handled(Message::HistoryBack);
    assert(there.caught_up() == there.history);
    assert(back.0.history.current() == v.visible);
    assert(back.0.visible == v.visible);
    assert(back.1[0] is SavePosition);
    assert(back.0.caught_up() == back.0.history);
    let again = back.0.handled(Message::HistoryForward);
    assert(again.0.history.current() == page);
    assert(again.1[0] is SavePosition);
    assert(again.0.caught_up() == again.0.history);
    assert(!again.0.history.can_step(true));
}

/// At the ends of the history the reader stays.
pub proof fn law_history_ends_hold(v: ReadyView)
    requires
        v.wf(),
        v.history.current() == v.visible,
    ensures
        v.history.pos == 0 ==> v.handled(Message::HistoryBack).0 == v,
        v.history.pos + 1 == v.history.pages.len() ==> v.handled(Message::HistoryForward).0 == v,
        v.history.pos > 0 && v.history.pages[v.history.pos - 1].0 < v.pages.total ==> v.handled(
            Message::HistoryBack,
        ).0.visible == v.history.pages[v.history.pos - 1],
        v.history.pos + 1 < v.history.pages.len() && v.history.pages[v.history.pos + 1].0
            < v.pages.total ==> v.handled(Message::HistoryForward).0.visible
            == v.history.pages[v.history.pos + 1],
{
    assert(v.caught_up() == v.history);
}

/// An entry of the table of contents leads to its page; one beyond the end
/// leads to the last.
pub proof fn law_entries_lead_to_their_page(v: ReadyView, page: PageNo)
    requires
        v.wf(),
        v.pages.total > 0,
    ensures
        ({
            let there = v.handled(Message::OutlineJump { page });
            &&& there.0.visible.0 == if page.0 < v.pages.total {
                page.0 as int
            } else {
                v.pages.total - 1
            }
            &&& there.0.page_input == shown((there.0.visible.0 + 1) as nat)
            &&& only_moved(v, there.0)
            &&& stores_place(v, there.0, there.1)
        }),
{
    let there = v.handled(Message::OutlineJump { page });
    if there.0.visible != v.visible {
        assert(there.1[0] is SavePosition);
    }
}

/// The number field holds what was typed, and typing moves nothing.
pub proof fn law_typing_a_number_moves_nothing(v: ReadyView, text: String)
    ensures
        v.handled(Message::PageInput { text }).0 == (ReadyView { page_input: text@, ..v }),
        v.handled(Message::PageInput { text }).1 == Seq::<ActionView>::empty(),
{
}

/// The zoom is the one that was chosen, what was rendered for another is not
/// waited for, and the page stays.
pub proof fn law_zoom_is_the_chosen_one(v: ReadyView, zoom: Zoom)
    requires
        v.wf(),
    ensures
        ({
            let after = v.handled(Message::SetZoom { zoom });
            &&& after.0.zoom == zoom
            &&& after.0.render_gen != v.render_gen
            &&& after.0 == (ReadyView {
                zoom,
                overflow_open: false,
                render_gen: after.0.render_gen,
                ..v
            })
            &&& after.1.contains(
                ActionView::SavePosition {
                    path: v.source.place(),
                    page: v.visible.0,
                    zoom,
                    mode: v.view_mode,
                },
            )
            &&& after.1.contains(ActionView::Schedule)
        }),
{
    let after = v.handled(Message::SetZoom { zoom });
    assert(after.1[0] is SavePosition);
    assert(after.1[1] is Schedule);
}

/// A turn of the view is a quarter, clockwise, and the page stays.
pub proof fn law_view_turns_by_a_quarter(v: ReadyView)
    requires
        v.wf(),
    ensures
        ({
            let after = v.handled(Message::RotateView);
            &&& after.0.view_rotation == (v.view_rotation + 1) % 4
            &&& after.0.render_gen != v.render_gen
            &&& after.0 == (ReadyView {
                view_rotation: after.0.view_rotation,
                overflow_open: false,
                render_gen: after.0.render_gen,
                ..v
            })
            &&& after.1.contains(ActionView::Schedule)
        }),
{
    let after = v.handled(Message::RotateView);
    assert(after.1[0] is Schedule);
}

/// The mode is the one that was chosen, and page and zoom stay.
pub proof fn law_mode_is_the_chosen_one(v: ReadyView, view_mode: ViewMode)
    ensures
        ({
            let after = v.handled(Message::SetViewMode { view_mode });
            &&& after.0 == (ReadyView { view_mode, overflow_open: false, ..v })
            &&& after.1.contains(
                ActionView::SavePosition {
                    path: v.source.place(),
                    page: v.visible.0,
                    zoom: v.zoom,
                    mode: view_mode,
                },
            )
        }),
{
    let after = v.handled(Message::SetViewMode { view_mode });
    assert(after.1[0] is SavePosition);
}

/// A scroll is kept. Where the pages stand below one another the reader is on
/// the page that was scrolled to, which the history does not take down; where
/// one page is shown, the reader stays.
pub proof fn law_scrolling_reads_on(v: ReadyView, y: Coord, page: PageNo)
    requires
        v.wf(),
        page.0 < v.pages.total,
    ensures
        ({
            let after = v.handled(Message::DocScrolled { y, page });
            &&& after.0.doc_scroll_y == y
            &&& after.0.history == v.history
            &&& v.view_mode == ViewMode::Continuous ==> after.0.visible == page
            &&& v.view_mode != ViewMode::Continuous ==> after.0.visible == v.visible
            &&& after.0.visible != v.visible ==> after.0.page_input == shown((page.0 + 1) as nat)
            &&& stores_place(v, after.0, after.1)
            &&& after.0 == (ReadyView {
                doc_scroll_y: y,
                visible: after.0.visible,
                page_input: after.0.page_input,
                ..v
            })
        }),
{
    let after = v.handled(Message::DocScrolled { y, page });
    if after.0.visible != v.visible {
        assert(after.1[0] is SavePosition);
    }
}

/// The keyboard steps from one row of the table of contents to the one next
/// to it; the ends hold.
pub proof fn law_keyboard_steps_row_by_row(v: ReadyView, i: int)
    requires
        v.outline_open,
        v.outline is Some,
        0 <= i < v.rows().len(),
        v.outline_cursor == Some(v.rows()[i].path),
        forall|j: int| 0 <= j < i ==> (#[trigger] v.rows()[j]).path != v.rows()[i].path,
    ensures
        ({
            let down = v.handled(Message::OutlineKey { key: OutlineKey::Next });
            let up = v.handled(Message::OutlineKey { key: OutlineKey::Prev });
            let below = if i + 1 < v.rows().len() { i + 1 } else { i };
            let above = if i > 0 { i - 1 } else { i };
            &&& down.0 == (ReadyView { outline_cursor: Some(v.rows()[below].path), ..v })
            &&& up.0 == (ReadyView { outline_cursor: Some(v.rows()[above].path), ..v })
            &&& down.1 == seq![ActionView::ScrollOutline { row: below as usize }]
            &&& up.1 == seq![ActionView::ScrollOutline { row: above as usize }]
        }),
{
    lemma_row_found(v, i, v.rows().len() as int);
}

proof fn lemma_row_found(v: ReadyView, i: int, n: int)
    requires
        0 <= i < v.rows().len(),
        n <= v.rows().len(),
        forall|j: int| 0 <= j < i ==> (#[trigger] v.rows()[j]).path != v.rows()[i].path,
    ensures
        crate::outline::row_at(v.rows(), v.rows()[i].path, n) == if n > i {
            Some(i)
        } else {
            None::<int>
        },
    decreases n,
{
    if n > 0 {
        lemma_row_found(v, i, n - 1);
    }
}

/// The keyboard opens the page of the row that it stands on.
pub proof fn law_keyboard_opens_its_row(v: ReadyView, i: int)
    requires
        v.wf(),
        v.outline_open,
        v.outline is Some,
        0 <= i < v.rows().len(),
        v.outline_cursor == Some(v.rows()[i].path),
        forall|j: int| 0 <= j < i ==> (#[trigger] v.rows()[j]).path != v.rows()[i].path,
        v.rows()[i].page.0 < v.pages.total,
    ensures
        v.handled(Message::OutlineKey { key: OutlineKey::Activate }).0.visible == v.rows()[i].page,
        only_moved(v, v.handled(Message::OutlineKey { key: OutlineKey::Activate }).0),
{
    lemma_row_found(v, i, v.rows().len() as int);
}

/// The entry that the visible page belongs to is the last one that begins on
/// it or before it.
pub proof fn law_entry_of_page_is_the_last_before_it(
    rows: Seq<crate::outline::OutlineRowView>,
    visible: PageNo,
    n: int,
)
    requires
        0 <= n <= rows.len(),
    ensures
        match crate::outline::active_upto(rows, visible, n) {
            Some(i) => {
                &&& 0 <= i < n
                &&& rows[i].page.0 <= visible.0
                &&& forall|j: int| i < j < n ==> (#[trigger] rows[j]).page.0 > visible.0
            },
            None => forall|j: int| 0 <= j < n ==> (#[trigger] rows[j]).page.0 > visible.0,
        },
    decreases n,
{
    if n > 0 {
        law_entry_of_page_is_the_last_before_it(rows, visible, n - 1);
    }
}

/// Without the table of contents the keys that walk through it do nothing.
pub proof fn law_keys_need_the_table(v: ReadyView, key: OutlineKey)
    requires
        !v.outline_open || v.outline is None,
    ensures
        v.handled(Message::OutlineKey { key }).0 == v,
        v.handled(Message::OutlineKey { key }).1 == Seq::<ActionView>::empty(),
{
}

/// Where the keyboard was not moved yet, it stands on the entry of the visible
/// page, and steps from there; where there is none, it steps to the first row
/// or, backwards, to the last.
pub proof fn law_keyboard_begins_at_the_visible_page(v: ReadyView, i: int)
    requires
        v.outline_open,
        v.outline is Some,
        v.outline_cursor is None,
        v.rows().len() > 0,
    ensures
        ({
            let down = v.handled(Message::OutlineKey { key: OutlineKey::Next }).0;
            let up = v.handled(Message::OutlineKey { key: OutlineKey::Prev }).0;
            let rows = v.rows();
            &&& (forall|j: int| 0 <= j < rows.len() ==> (#[trigger] rows[j]).page.0 > v.visible.0)
                ==> down.outline_cursor == Some(rows[0].path) && up.outline_cursor == Some(
                rows.last().path,
            )
            &&& 0 <= i < rows.len() && rows[i].page.0 <= v.visible.0 && (forall|j: int|
                i < j < rows.len() ==> (#[trigger] rows[j]).page.0 > v.visible.0) && (forall|j: int|
                0 <= j < i ==> (#[trigger] rows[j]).path != rows[i].path) ==> {
                &&& down.outline_cursor == Some(
                    rows[if i + 1 < rows.len() { i + 1 } else { i }].path,
                )
                &&& up.outline_cursor == Some(rows[if i > 0 { i - 1 } else { i }].path)
            }
        }),
{
    let rows = v.rows();
    law_entry_of_page_is_the_last_before_it(rows, v.visible, rows.len() as int);
    let active = crate::outline::active_upto(rows, v.visible, rows.len() as int);
    if 0 <= i < rows.len() && rows[i].page.0 <= v.visible.0 && (forall|j: int|
        i < j < rows.len() ==> (#[trigger] rows[j]).page.0 > v.visible.0) && (forall|j: int|
        0 <= j < i ==> (#[trigger] rows[j]).path != rows[i].path) {
        assert(active is Some);
        assert(active->0 == i) by {
            if active->0 < i {
                assert(rows[i].page.0 > v.visible.0);
            }
            if active->0 > i {
                assert(rows[active->0].page.0 > v.visible.0);
            }
        }
        lemma_row_found(v, i, rows.len() as int);
    }
    if forall|j: int| 0 <= j < rows.len() ==> (#[trigger] rows[j]).page.0 > v.visible.0 {
        if active is Some {
            assert(rows[active->0].page.0 > v.visible.0);
        }
    }
}

/// A number may be written with a plus sign or with zeros before it; what holds
/// another character is none.
pub proof fn law_numbers_are_read(n: nat, text: Seq<char>, i: int)
    ensures
        decimal(seq!['+'] + shown(n)) == Some(n),
        decimal(seq!['0'] + shown(n)) == Some(n),
        decimal(Seq::<char>::empty()) is None,
        0 < i < text.len() && !digit(text[i]) ==> decimal(text) is None,
        text.len() > 0 && !digit(text[0]) && text[0] != '+' ==> decimal(text) is None,
{
    law_shown_reads_back(n);
    let digits = shown(n);
    let plus = seq!['+'] + digits;
    assert(plus.skip(1) =~= digits);
    assert(digit(digits[0]));
    assert(unsigned_part(digits) == digits);
    let zero = seq!['0'] + digits;
    assert forall|k: int| 0 <= k < zero.len() implies digit(#[trigger] zero[k]) by {
        if k > 0 {
            assert(zero[k] == digits[k - 1]);
        }
    }
    assert(unsigned_part(zero) == zero);
    lemma_leading_zero(digits);
    let rest = unsigned_part(text);
    if 0 < i < text.len() && !digit(text[i]) {
        if text[0] == '+' {
            assert(rest[i - 1] == text[i]);
        } else {
            assert(rest[i] == text[i]);
        }
    }
    if text.len() > 0 && !digit(text[0]) && text[0] != '+' {
        assert(rest[0] == text[0]);
    }
}

proof fn lemma_leading_zero(digits: Seq<char>)
    ensures
        crate::numbers::value_of(seq!['0'] + digits) == crate::numbers::value_of(digits),
    decreases digits.len(),
{
    let all = seq!['0'] + digits;
    if digits.len() == 0 {
        assert(all.drop_last() =~= Seq::<char>::empty());
        assert(all.last() == '0');
        assert(crate::numbers::value_of(all.drop_last()) == 0);
    } else {
        assert(all.drop_last() =~= seq!['0'] + digits.drop_last());
        lemma_leading_zero(digits.drop_last());
    }
}

/// Blanks, tabs and line breaks are white space; digits, letters and signs are
/// not.
pub proof fn law_white_space(ch: char)
    ensures
        white(' ') && white('\t') && white('\n') && white('\r'),
        '!' <= ch <= '~' ==> !white(ch),
{
}

} // verus!
