//! What the window shows: its menu, its bars, names, and the marks on a page.

use vstd::prelude::*;

use crate::annot::{AnnotKind, AnnotationView};
use crate::browse::Theme;
use crate::laws::files::{
    is_name, law_folder_stands_before_the_name, law_name_stands_behind_the_last_slash,
};
use crate::messages::Message;
use crate::native::ESCAPE;
use crate::numbers::shown;
use crate::outline::OutlineRowView;
use crate::page::{PageNo, Point, Quad};
use crate::ready::ReadyView;
use crate::session::SessionView;
use crate::state::{SignatureInfo, SignatureStatus, ViewMode, Zoom};
use crate::tabs::TabsView;
use crate::view::{
    card_of, cards_of, command_message, cut_title, filled, ghost_drawn, layer_of, lines_drawn,
    mark_drawn, mark_rows, marks_drawn, menu_of, middle_cut, mode_rows, page_rows, printer_named,
    selection_drawn, sheet_after, status_of, status_words, tab_label, toc_of, topbar_of,
    window_rows, worst_upto, Command, DrawMark, Layer, MarkShape, MenuRowView, PointerEvent,
    PointerReport, TopBarView, Verdict,
};

verus! {

/// The bar of progress is filled by as much of the document as was read, in
/// thousandths rounded down, something at least; on the last page it is full.
pub proof fn law_progress_is_what_was_read(visible: PageNo, total: u32)
    requires
        visible.0 < total,
    ensures
        1 <= filled(visible, total) <= 1000,
        filled(visible, total) * total <= (visible.0 + 1) * 1000 || filled(visible, total) == 1,
        (visible.0 + 1) * 1000 < (filled(visible, total) + 1) * total,
        visible.0 + 1 == total ==> filled(visible, total) == 1000,
{
    let done = (visible.0 + 1) * 1000;
    let n = total as int;
    let part = done / n;
    vstd::arithmetic::div_mod::lemma_fundamental_div_mod(done, n);
    assert(part * n <= done < (part + 1) * n) by (nonlinear_arith)
        requires
            done == n * part + done % n,
            0 <= done % n < n,
    ;
    assert(part <= 1000) by (nonlinear_arith)
        requires
            part * n <= done,
            done <= n * 1000,
            n > 0,
    ;
    if visible.0 + 1 == total {
        vstd::arithmetic::div_mod::lemma_div_multiples_vanish(1000, n);
        assert(n * 1000 / n == 1000) by (nonlinear_arith)
            requires
                n > 0,
        ;
    }
    if part < 1 {
        assert(done < 2 * n) by (nonlinear_arith)
            requires
                done < (part + 1) * n,
                part < 1,
                n > 0,
        ;
    }
}

/// A name that is too long begins and ends as it does, with a mark where its
/// middle was; one that is not is shown whole.
pub proof fn law_long_names_keep_their_ends(name: Seq<char>, max: int, i: int)
    requires
        max >= 1,
    ensures
        name.len() <= max ==> middle_cut(name, max) == name,
        name.len() > max ==> {
            let head = (max - 1) / 2;
            let cut = middle_cut(name, max);
            &&& cut.len() == max
            &&& 0 <= i < head ==> cut[i] == name[i]
            &&& cut[head] == '…'
            &&& head < i < max ==> cut[i] == name[name.len() - max + i]
        },
{
}

/// A name on a tab, and a title, that is too long is shown from its beginning
/// on, with a mark at its end.
pub proof fn law_long_labels_keep_their_beginning(path: Seq<char>, title: Seq<char>, i: int)
    ensures
        ({
            let name = crate::view::name_or_path(path);
            let label = tab_label(path);
            &&& name.len() <= 24 ==> label == name
            &&& name.len() > 24 ==> label.len() == 24 && label[23] == '…'
            &&& name.len() > 24 && 0 <= i < 23 ==> label[i] == name[i]
        }),
        title.len() <= 24 ==> cut_title(title) == title,
        title.len() > 24 ==> cut_title(title).len() == 25 && cut_title(title)[24] == '…',
        title.len() > 24 && 0 <= i < 24 ==> cut_title(title)[i] == title[i],
{
}

/// Whether the menu offers to do something.
pub open spec fn offers(rows: Seq<MenuRowView>, command: Command) -> bool {
    exists|k: int| 0 <= k < rows.len() && does(#[trigger] rows[k], command)
}

/// Whether a row of the menu does something.
pub open spec fn does(row: MenuRowView, command: Command) -> bool {
    match row {
        MenuRowView::Item { command: c, .. } => c == command,
        MenuRowView::Choice { command: c, .. } => c == command,
        _ => false,
    }
}

/// Whether a row of the menu is marked as what is chosen.
pub open spec fn is_marked(row: MenuRowView) -> bool {
    match row {
        MenuRowView::Item { active, .. } => active,
        MenuRowView::Choice { active, .. } => active,
        _ => false,
    }
}

proof fn lemma_parts(v: ReadyView)
    ensures
        menu_of(v).len() == page_rows(v).len() + mode_rows(v).len() + mark_rows(v).len()
            + window_rows(v).len(),
        forall|k: int|
            0 <= k < page_rows(v).len() ==> #[trigger] menu_of(v)[k] == page_rows(v)[k],
        forall|k: int|
            0 <= k < 3 ==> #[trigger] mode_rows(v)[k] == menu_of(v)[page_rows(v).len() + k],
        forall|k: int|
            0 <= k < mark_rows(v).len() ==> #[trigger] mark_rows(v)[k] == menu_of(
                v,
            )[page_rows(v).len() + 3 + k],
        forall|k: int|
            0 <= k < 5 ==> #[trigger] window_rows(v)[k] == menu_of(v)[page_rows(v).len() + 3
                + mark_rows(v).len() + k],
{
}

/// What can always be done is always offered: to fit the page, to turn it, to
/// print, to choose the mode and the colours, to close.
#[verifier::rlimit(40)]
pub proof fn law_menu_offers_what_can_always_be_done(v: ReadyView)
    ensures
        offers(menu_of(v), Command::FitPage),
        offers(menu_of(v), Command::Rotate),
        offers(menu_of(v), Command::Print),
        offers(menu_of(v), Command::Mode(ViewMode::Single)),
        offers(menu_of(v), Command::Mode(ViewMode::Continuous)),
        offers(menu_of(v), Command::Close),
        offers(menu_of(v), Command::Colours(Theme::Dark)),
        offers(menu_of(v), Command::Colours(Theme::Light)),
{
    lemma_parts(v);
    let rows = menu_of(v);
    let a = page_rows(v).len() as int;
    let b = a + 3 + mark_rows(v).len();
    assert(does(rows[0], Command::FitPage));
    assert(does(rows[1], Command::Rotate));
    assert(does(rows[2], Command::Print));
    assert(does(mode_rows(v)[1], Command::Mode(ViewMode::Single)));
    assert(does(mode_rows(v)[2], Command::Mode(ViewMode::Continuous)));
    assert(does(rows[a + 1], Command::Mode(ViewMode::Single)));
    assert(does(rows[a + 2], Command::Mode(ViewMode::Continuous)));
    assert(does(window_rows(v)[0], Command::Close));
    assert(does(window_rows(v)[3], Command::Colours(Theme::Dark)));
    assert(does(window_rows(v)[4], Command::Colours(Theme::Light)));
    assert(does(rows[b], Command::Close));
    assert(does(rows[b + 3], Command::Colours(Theme::Dark)));
    assert(does(rows[b + 4], Command::Colours(Theme::Light)));
}

#[verifier::rlimit(40)]
proof fn lemma_offered(v: ReadyView, command: Command)
    ensures
        offers(menu_of(v), command) <==> offers(page_rows(v), command) || offers(
            mode_rows(v),
            command,
        ) || offers(mark_rows(v), command) || offers(window_rows(v), command),
{
    lemma_parts(v);
    let rows = menu_of(v);
    let a = page_rows(v).len() as int;
    let m = mark_rows(v).len() as int;
    if offers(rows, command) {
        let k = choose|k: int| 0 <= k < rows.len() && does(#[trigger] rows[k], command);
        if k < a {
            assert(does(page_rows(v)[k], command));
        } else if k < a + 3 {
            assert(does(mode_rows(v)[k - a], command));
        } else if k < a + 3 + m {
            assert(does(mark_rows(v)[k - a - 3], command));
        } else {
            assert(does(window_rows(v)[k - a - 3 - m], command));
        }
    }
    if offers(page_rows(v), command) {
        let k = choose|k: int|
            0 <= k < page_rows(v).len() && does(#[trigger] page_rows(v)[k], command);
        assert(does(rows[k], command));
    }
    if offers(mode_rows(v), command) {
        let k = choose|k: int|
            0 <= k < mode_rows(v).len() && does(#[trigger] mode_rows(v)[k], command);
        assert(does(rows[a + k], command));
    }
    if offers(mark_rows(v), command) {
        let k = choose|k: int|
            0 <= k < mark_rows(v).len() && does(#[trigger] mark_rows(v)[k], command);
        assert(does(rows[a + 3 + k], command));
    }
    if offers(window_rows(v), command) {
        let k = choose|k: int|
            0 <= k < window_rows(v).len() && does(#[trigger] window_rows(v)[k], command);
        assert(does(rows[a + 3 + m + k], command));
    }
}

#[verifier::rlimit(40)]
proof fn lemma_way_rows(v: ReadyView, k: int)
    requires
        0 <= k < page_rows(v).len(),
    ensures
        does(page_rows(v)[k], Command::Back) ==> v.history.pos > 0,
        does(page_rows(v)[k], Command::Forward) ==> v.history.pos + 1 < v.history.pages.len(),
{
}

proof fn lemma_way_rows_offer(v: ReadyView)
    ensures
        v.history.pos > 0 ==> offers(page_rows(v), Command::Back),
        v.history.pos + 1 < v.history.pages.len() ==> offers(page_rows(v), Command::Forward),
{
    let rows = page_rows(v);
    if v.history.pos > 0 {
        assert(does(rows[3], Command::Back));
    }
    if v.history.pos + 1 < v.history.pages.len() {
        assert(does(rows[rows.len() - 1], Command::Forward));
    }
}

#[verifier::rlimit(40)]
proof fn lemma_only_way_rows(v: ReadyView, command: Command)
    requires
        command == Command::Back || command == Command::Forward,
    ensures
        offers(menu_of(v), command) <==> offers(page_rows(v), command),
        offers(page_rows(v), command) ==> if command == Command::Back {
            v.history.pos > 0
        } else {
            v.history.pos + 1 < v.history.pages.len()
        },
{
    lemma_offered(v, command);
    if offers(page_rows(v), command) {
        let k = choose|k: int|
            0 <= k < page_rows(v).len() && does(#[trigger] page_rows(v)[k], command);
        lemma_way_rows(v, k);
    }
    if offers(mode_rows(v), command) {
        let k = choose|k: int|
            0 <= k < mode_rows(v).len() && does(#[trigger] mode_rows(v)[k], command);
        lemma_mode_rows(v, k);
    }
    if offers(window_rows(v), command) {
        let k = choose|k: int|
            0 <= k < window_rows(v).len() && does(#[trigger] window_rows(v)[k], command);
        lemma_window_rows(v, k);
    }
    if offers(mark_rows(v), command) {
        let k = choose|k: int|
            0 <= k < mark_rows(v).len() && does(#[trigger] mark_rows(v)[k], command);
        lemma_mark_rows(v, k);
    }
}

/// The ways through the history are offered where they lead somewhere.
pub proof fn law_menu_offers_the_way_back(v: ReadyView)
    ensures
        offers(menu_of(v), Command::Back) <==> v.history.pos > 0,
        offers(menu_of(v), Command::Forward) <==> v.history.pos + 1 < v.history.pages.len(),
{
    lemma_only_way_rows(v, Command::Back);
    lemma_only_way_rows(v, Command::Forward);
    lemma_way_rows_offer(v);
}

proof fn lemma_page_rows(v: ReadyView, k: int)
    requires
        0 <= k < page_rows(v).len(),
    ensures
        match page_rows(v)[k] {
            MenuRowView::Item { command, active, .. } => !active && (command == Command::FitPage
                || command == Command::Rotate || command == Command::Print || command
                == Command::Back || command == Command::Forward),
            _ => false,
        },
{
}

proof fn lemma_mode_rows(v: ReadyView, k: int)
    requires
        0 <= k < mode_rows(v).len(),
    ensures
        match mode_rows(v)[k] {
            MenuRowView::Item { command, active, .. } => match command {
                Command::Mode(mode) => active == (mode == v.view_mode),
                _ => false,
            },
            MenuRowView::Header { .. } => true,
            _ => false,
        },
{
}

proof fn lemma_window_rows(v: ReadyView, k: int)
    requires
        0 <= k < window_rows(v).len(),
    ensures
        match window_rows(v)[k] {
            MenuRowView::Item { command, active, .. } => !active && command == Command::Close,
            MenuRowView::Choice { command, active, .. } => match command {
                Command::Colours(theme) => active == (theme == v.theme),
                _ => false,
            },
            _ => true,
        },
{
}

#[verifier::rlimit(40)]
proof fn lemma_mark_rows(v: ReadyView, k: int)
    requires
        0 <= k < mark_rows(v).len(),
    ensures
        match mark_rows(v)[k] {
            MenuRowView::Item { command, active, .. } => !active && (match command {
                Command::Copy => v.selected_text() is Some,
                Command::Undo => v.marks.undo.len() > 0,
                Command::Redo => v.marks.redo.len() > 0,
                Command::SaveCopy => v.marks.annotations.len() > 0,
                _ => false,
            }),
            _ => false,
        },
{
}

#[verifier::rlimit(40)]
proof fn lemma_mark_rows_offer(v: ReadyView)
    ensures
        v.selected_text() is Some ==> offers(mark_rows(v), Command::Copy),
        v.marks.undo.len() > 0 ==> offers(mark_rows(v), Command::Undo),
        v.marks.redo.len() > 0 ==> offers(mark_rows(v), Command::Redo),
        v.marks.annotations.len() > 0 ==> offers(mark_rows(v), Command::SaveCopy),
{
    let rows = mark_rows(v);
    let a: int = if v.selected_text() is Some { 1 } else { 0 };
    let b: int = if v.marks.undo.len() > 0 { 1 } else { 0 };
    let c: int = if v.marks.redo.len() > 0 { 1 } else { 0 };
    if v.selected_text() is Some {
        assert(does(rows[0], Command::Copy));
    }
    if v.marks.undo.len() > 0 {
        assert(does(rows[a], Command::Undo));
    }
    if v.marks.redo.len() > 0 {
        assert(does(rows[a + b], Command::Redo));
    }
    if v.marks.annotations.len() > 0 {
        assert(does(rows[a + b + c], Command::SaveCopy));
    }
}

#[verifier::rlimit(40)]
proof fn lemma_only_mark_rows(v: ReadyView, command: Command)
    requires
        command == Command::Copy || command == Command::Undo || command == Command::Redo || command
            == Command::SaveCopy,
    ensures
        offers(menu_of(v), command) <==> offers(mark_rows(v), command),
        offers(mark_rows(v), command) ==> match command {
            Command::Copy => v.selected_text() is Some,
            Command::Undo => v.marks.undo.len() > 0,
            Command::Redo => v.marks.redo.len() > 0,
            _ => v.marks.annotations.len() > 0,
        },
{
    lemma_offered(v, command);
    if offers(page_rows(v), command) {
        let k = choose|k: int|
            0 <= k < page_rows(v).len() && does(#[trigger] page_rows(v)[k], command);
        lemma_page_rows(v, k);
    }
    if offers(mode_rows(v), command) {
        let k = choose|k: int|
            0 <= k < mode_rows(v).len() && does(#[trigger] mode_rows(v)[k], command);
        lemma_mode_rows(v, k);
    }
    if offers(window_rows(v), command) {
        let k = choose|k: int|
            0 <= k < window_rows(v).len() && does(#[trigger] window_rows(v)[k], command);
        lemma_window_rows(v, k);
    }
    if offers(mark_rows(v), command) {
        let k = choose|k: int|
            0 <= k < mark_rows(v).len() && does(#[trigger] mark_rows(v)[k], command);
        lemma_mark_rows(v, k);
    }
}

/// To undo, to redo and to save are offered where there is something to; to
/// copy where text is selected.
pub proof fn law_menu_offers_what_there_is_to_do(v: ReadyView)
    ensures
        offers(menu_of(v), Command::Undo) <==> v.marks.undo.len() > 0,
        offers(menu_of(v), Command::Redo) <==> v.marks.redo.len() > 0,
        offers(menu_of(v), Command::SaveCopy) <==> v.marks.annotations.len() > 0,
        offers(menu_of(v), Command::Copy) <==> v.handled(Message::CopySelection).1.len() > 0,
{
    lemma_only_mark_rows(v, Command::Undo);
    lemma_only_mark_rows(v, Command::Redo);
    lemma_only_mark_rows(v, Command::SaveCopy);
    lemma_only_mark_rows(v, Command::Copy);
    lemma_mark_rows_offer(v);
    lemma_copies(v);
}

proof fn lemma_copies(v: ReadyView)
    ensures
        v.selected_text() is Some <==> v.handled(Message::CopySelection).1.len() > 0,
{
}

/// What is chosen is marked: the mode and the colours that the document has.
#[verifier::rlimit(40)]
pub proof fn law_menu_marks_what_is_chosen(v: ReadyView, k: int)
    requires
        0 <= k < menu_of(v).len(),
    ensures
        is_marked(menu_of(v)[k]) <==> does(menu_of(v)[k], Command::Mode(v.view_mode)) || does(
            menu_of(v)[k],
            Command::Colours(v.theme),
        ),
{
    let a = page_rows(v).len() as int;
    let m = mark_rows(v).len() as int;
    let row = menu_of(v)[k];
    lemma_row(v, k);
    if k < a {
        lemma_page_rows(v, k);
    } else if k < a + 3 {
        lemma_mode_rows(v, k - a);
    } else if k < a + 3 + m {
        lemma_mark_rows(v, k - a - 3);
    } else {
        lemma_window_rows(v, k - a - 3 - m);
    }
}

proof fn lemma_row(v: ReadyView, k: int)
    requires
        0 <= k < menu_of(v).len(),
    ensures
        ({
            let a = page_rows(v).len() as int;
            let m = mark_rows(v).len() as int;
            &&& mode_rows(v).len() == 3
            &&& window_rows(v).len() == 5
            &&& k < a + 8 + m
            &&& menu_of(v)[k] == if k < a {
                page_rows(v)[k]
            } else if k < a + 3 {
                mode_rows(v)[k - a]
            } else if k < a + 3 + m {
                mark_rows(v)[k - a - 3]
            } else {
                window_rows(v)[k - a - 3 - m]
            }
        }),
{
    lemma_parts(v);
    let a = page_rows(v).len() as int;
    let m = mark_rows(v).len() as int;
    if a <= k < a + 3 {
        assert(mode_rows(v)[k - a] == menu_of(v)[a + (k - a)]);
    } else if a + 3 <= k < a + 3 + m {
        assert(mark_rows(v)[k - a - 3] == menu_of(v)[a + 3 + (k - a - 3)]);
    } else if a + 3 + m <= k {
        assert(window_rows(v)[k - a - 3 - m] == menu_of(v)[a + 3 + m + (k - a - 3 - m)]);
    }
}

/// Each row of the menu does what it stands for.
pub proof fn law_rows_do_what_they_say(command: Command)
    ensures
        match command {
            Command::FitPage => command_message(command) == (Message::SetZoom { zoom: Zoom::Page }),
            Command::Rotate => command_message(command) == Message::RotateView,
            Command::Print => command_message(command) == Message::OpenPrintDialog,
            Command::Back => command_message(command) == Message::HistoryBack,
            Command::Forward => command_message(command) == Message::HistoryForward,
            Command::Mode(view_mode) => command_message(command) == (Message::SetViewMode {
                view_mode,
            }),
            Command::Copy => command_message(command) == Message::CopySelection,
            Command::Undo => command_message(command) == Message::AnnotUndo,
            Command::Redo => command_message(command) == Message::AnnotRedo,
            Command::SaveCopy => command_message(command) == Message::SaveCopyRequested,
            Command::Close => command_message(command) == Message::Close,
            Command::Colours(theme) => command_message(command) == (Message::SetTheme { theme }),
        },
{
}

/// The bar over a document shows what was typed and searched for, how many
/// pages there are, and whether there are marks and panels.
pub proof fn law_bar_shows_the_document(s: SessionView)
    requires
        s.wf(),
    ensures
        match s {
            SessionView::Ready(tabs) => {
                let v = tabs.docs[tabs.active];
                let bar = topbar_of(s)->Document_0;
                &&& topbar_of(s) is Document
                &&& bar.query == v.search.query
                &&& bar.page_input == v.page_input
                &&& v.pages.total > 0 ==> bar.pages == v.pages.total
                &&& bar.marked <==> v.marks.annotations.len() > 0
                &&& bar.marking <==> v.handled(Message::CopySelection).1.len() > 0
                &&& bar.pages_open == v.pages_open
                &&& bar.signatures_open == v.signatures_open
                &&& bar.overflow_open == v.overflow_open
            },
            SessionView::Empty(_) => topbar_of(s) == (TopBarView::Start { home: false }),
            _ => topbar_of(s) == (TopBarView::Start { home: true }),
        },
{
}

/// What lies over a document: the print dialog, a note, a warning or the menu,
/// the first of those that is open.
pub proof fn law_layers_lie_in_order(tabs: TabsView)
    requires
        tabs.wf(),
    ensures
        ({
            let v = tabs.docs[tabs.active];
            let layer = layer_of(SessionView::Ready(tabs));
            &&& layer == Layer::Print <==> v.print_dialog is Some
            &&& layer == Layer::Note <==> v.print_dialog is None && v.note_draft is Some
            &&& layer == Layer::Warning <==> v.print_dialog is None && v.note_draft is None
                && v.save_warning
            &&& layer == Layer::Menu <==> v.print_dialog is None && v.note_draft is None
                && !v.save_warning && v.overflow_open
        }),
{
}

/// The line over a document says what became of a copy, else of a job, else why
/// a document did not open.
pub proof fn law_line_says_the_latest(tabs: TabsView)
    ensures
        ({
            let v = tabs.docs[tabs.active];
            &&& v.save_status is Some ==> status_of(tabs) == v.save_status
            &&& v.save_status is None && v.print_status is Some ==> status_of(tabs)
                == v.print_status
            &&& v.save_status is None && v.print_status is None ==> status_of(tabs)
                == tabs.open_error
        }),
{
}

/// A verdict is bad where the document or the signature is broken, good where
/// all is valid, and doubtful else; several are as bad as the worst of them.
pub proof fn law_verdict_is_the_worst(signatures: Seq<SignatureInfo>, n: int)
    requires
        0 <= n <= signatures.len(),
    ensures
        worst_upto(signatures, n) is None <==> n == 0,
        worst_upto(signatures, n) == Some(Verdict::Bad) <==> exists|i: int|
            0 <= i < n && broken((#[trigger] signatures[i]).status),
        worst_upto(signatures, n) == Some(Verdict::Good) <==> n > 0 && forall|i: int|
            0 <= i < n ==> (#[trigger] signatures[i]).status == SignatureStatus::Valid,
    decreases n,
{
    if n > 0 {
        law_verdict_is_the_worst(signatures, n - 1);
        let last = signatures[n - 1].status;
        if exists|i: int| 0 <= i < n && broken((#[trigger] signatures[i]).status) {
            let i = choose|i: int| 0 <= i < n && broken((#[trigger] signatures[i]).status);
            if i < n - 1 {
                assert(broken(signatures[i].status));
            }
        }
        if worst_upto(signatures, n - 1) == Some(Verdict::Bad) {
            let i = choose|i: int| 0 <= i < n - 1 && broken((#[trigger] signatures[i]).status);
            assert(broken(signatures[i].status));
        }
    }
}

/// Whether a signature is broken.
pub open spec fn broken(status: SignatureStatus) -> bool {
    status == SignatureStatus::DocumentModified || status == SignatureStatus::Invalid
}

/// An entry of the table of contents shows its title, its page as readers
/// count, and where the reader is.
pub proof fn law_entries_show_their_page(v: ReadyView, row: OutlineRowView)
    requires
        row.title.len() <= 24,
    ensures
        ({
            let entry = toc_of(v, row);
            &&& entry.label == row.title + " · "@ + shown((row.page.0 + 1) as nat)
            &&& entry.page == row.page
            &&& entry.path == row.path
            &&& entry.depth == row.depth
            &&& entry.has_children == row.has_children
            &&& entry.collapsed <==> v.outline_collapsed.contains(row.path)
            &&& v.outline_cursor is Some ==> (entry.focused <==> v.outline_cursor == Some(row.path))
            &&& v.outline_cursor is None ==> entry.focused == entry.active
        }),
{
}

/// Whether a line of a kind is drawn.
pub open spec fn draws_line(drawn: Seq<DrawMark>, quad: Quad, kind: Option<AnnotKind>) -> bool {
    drawn.contains(DrawMark { shape: MarkShape::Line { quad }, kind, phantom: false })
}

proof fn lemma_lines(quads: Seq<Quad>, kind: Option<AnnotKind>, n: int)
    requires
        0 <= n <= quads.len(),
    ensures
        lines_drawn(quads, kind, n).len() == n,
        forall|k: int|
            0 <= k < n ==> #[trigger] lines_drawn(quads, kind, n)[k] == (DrawMark {
                shape: MarkShape::Line { quad: quads[k] },
                kind,
                phantom: false,
            }),
    decreases n,
{
    if n > 0 {
        lemma_lines(quads, kind, n - 1);
    }
}

proof fn lemma_mark(a: AnnotationView, k: int)
    requires
        0 <= k < a.quads.len(),
    ensures
        draws_line(mark_drawn(a), a.quads[k], Some(a.kind)),
        a.kind == AnnotKind::Note ==> mark_drawn(a).contains(
            DrawMark {
                shape: MarkShape::Marker { corner: a.corner(), first: Some(a.quads[0]) },
                kind: Some(AnnotKind::Note),
                phantom: false,
            },
        ),
        mark_drawn(a).len() == a.quads.len() + if a.kind == AnnotKind::Note { 1int } else { 0 },
{
    let n = a.quads.len() as int;
    lemma_lines(a.quads, Some(a.kind), n);
    let lines = lines_drawn(a.quads, Some(a.kind), n);
    let drawn = mark_drawn(a);
    if a.kind == AnnotKind::Note {
        assert(drawn[1] == (DrawMark {
            shape: MarkShape::Marker { corner: a.corner(), first: Some(a.quads[0]) },
            kind: Some(AnnotKind::Note),
            phantom: false,
        }));
        if k == 0 {
            assert(drawn[0] == lines[0]);
        } else {
            assert(drawn[k + 1] == lines.skip(1)[k - 1]);
            assert(drawn[k + 1] == lines[k]);
        }
    } else {
        assert(drawn[k] == lines[k]);
    }
}

proof fn lemma_drawn(list: Seq<AnnotationView>, page: PageNo, n: int, i: int, d: DrawMark)
    requires
        0 <= i < n <= list.len(),
        list[i].page == page,
        mark_drawn(list[i]).contains(d),
    ensures
        marks_drawn(list, page, n).contains(d),
    decreases n,
{
    let front = marks_drawn(list, page, n - 1);
    let all = marks_drawn(list, page, n);
    if i == n - 1 {
        let k = choose|k: int| 0 <= k < mark_drawn(list[i]).len() && mark_drawn(list[i])[k] == d;
        assert(all[front.len() + k] == d);
    } else {
        lemma_drawn(list, page, n - 1, i, d);
        let k = choose|k: int| 0 <= k < front.len() && front[k] == d;
        assert(all[k] == d);
    }
}

/// Every mark of a page is drawn on it: each of its lines, as what it is, and
/// the marker of a note where it stands.
pub proof fn law_marks_are_drawn_on_their_page(list: Seq<AnnotationView>, i: int, k: int)
    requires
        0 <= i < list.len(),
        0 <= k < list[i].quads.len(),
    ensures
        draws_line(
            marks_drawn(list, list[i].page, list.len() as int),
            list[i].quads[k],
            Some(list[i].kind),
        ),
        list[i].kind == AnnotKind::Note ==> marks_drawn(
            list,
            list[i].page,
            list.len() as int,
        ).contains(
            DrawMark {
                shape: MarkShape::Marker {
                    corner: list[i].corner(),
                    first: Some(list[i].quads[0]),
                },
                kind: Some(AnnotKind::Note),
                phantom: false,
            },
        ),
{
    let n = list.len() as int;
    lemma_mark(list[i], k);
    lemma_drawn(
        list,
        list[i].page,
        n,
        i,
        DrawMark {
            shape: MarkShape::Line { quad: list[i].quads[k] },
            kind: Some(list[i].kind),
            phantom: false,
        },
    );
    if list[i].kind == AnnotKind::Note {
        lemma_drawn(
            list,
            list[i].page,
            n,
            i,
            DrawMark {
                shape: MarkShape::Marker {
                    corner: list[i].corner(),
                    first: Some(list[i].quads[0]),
                },
                kind: Some(AnnotKind::Note),
                phantom: false,
            },
        );
    }
}

/// Nothing is drawn on a page for the marks of other pages.
pub proof fn law_other_pages_are_not_drawn(list: Seq<AnnotationView>, page: PageNo, n: int)
    requires
        0 <= n <= list.len(),
        forall|i: int| 0 <= i < n ==> (#[trigger] list[i]).page != page,
    ensures
        marks_drawn(list, page, n).len() == 0,
    decreases n,
{
    if n > 0 {
        law_other_pages_are_not_drawn(list, page, n - 1);
    }
}

/// The selection is drawn on its page, line by line, and on no other.
pub proof fn law_selection_is_drawn_on_its_page(v: ReadyView, page: PageNo, k: int)
    requires
        v.selected_lines() is Some,
        0 <= k < v.selected_lines()->0.len(),
    ensures
        v.selection->0.page == page ==> selection_drawn(v, page).len()
            == v.selected_lines()->0.len() && selection_drawn(v, page)[k] == (DrawMark {
            shape: MarkShape::Line { quad: v.selected_lines()->0[k] },
            kind: None,
            phantom: false,
        }),
        v.selection->0.page != page ==> selection_drawn(v, page).len() == 0,
{
    let quads = v.selected_lines()->0;
    lemma_lines(quads, None, quads.len() as int);
}

/// A marker that is dragged far enough is drawn where it would be dropped, on
/// its page; one that is not is not.
pub proof fn law_dragged_marker_is_drawn(v: ReadyView, page: PageNo, far: bool, to: Point)
    ensures
        v.note_drag is None || v.note_drag->0.page != page || !far ==> ghost_drawn(
            v,
            page,
            far,
            to,
        ).len() == 0,
        v.note_drag is Some && v.note_drag->0.page == page && far && crate::annot::by_number(
            v.marks.annotations,
            v.note_drag->0.id,
        ) is Some ==> {
            let drawn = ghost_drawn(v, page, far, to);
            &&& drawn.len() == 1
            &&& drawn[0].phantom
            &&& drawn[0].kind == Some(AnnotKind::Note)
            &&& drawn[0].shape is Marker
            &&& drawn[0].shape->Marker_corner == to
        },
{
}

/// A sheet reports a press on it, the drag that follows wherever it goes, and
/// its end: as a release on the sheet, as given up off it. Without a press it
/// reports nothing.
pub proof fn law_sheet_reports_the_pointer(pressing: bool, inside: bool)
    ensures
        sheet_after(pressing, PointerEvent::Pressed { inside: true }) == (
            true,
            PointerReport::Down,
        ),
        sheet_after(pressing, PointerEvent::Pressed { inside: false }) == (
            pressing,
            PointerReport::Nothing,
        ),
        sheet_after(true, PointerEvent::Moved) == (true, PointerReport::Move),
        sheet_after(false, PointerEvent::Moved) == (false, PointerReport::Nothing),
        sheet_after(true, PointerEvent::Released { inside: true }) == (false, PointerReport::Up),
        sheet_after(true, PointerEvent::Released { inside: false }) == (
            false,
            PointerReport::Cancel,
        ),
        sheet_after(false, PointerEvent::Released { inside }) == (false, PointerReport::Nothing),
        sheet_after(pressing, PointerEvent::Other) == (pressing, PointerReport::Nothing),
{
}

/// The printer that was picked by its name is the first one with that name.
pub proof fn law_printer_is_the_first_of_its_name(names: Seq<String>, name: Seq<char>, n: int)
    requires
        0 <= n <= names.len(),
    ensures
        match printer_named(names, name, n) {
            Some(i) => {
                &&& 0 <= i < n
                &&& names[i]@ == name
                &&& forall|j: int| 0 <= j < i ==> (#[trigger] names[j])@ != name
            },
            None => forall|j: int| 0 <= j < n ==> (#[trigger] names[j])@ != name,
        },
    decreases n,
{
    if n > 0 {
        law_printer_is_the_first_of_its_name(names, name, n - 1);
    }
}

/// What a signature turned out to be is said in these words.
pub proof fn law_signatures_are_told_in_words()
    ensures
        status_words(SignatureStatus::Valid) == "Válida"@,
        status_words(SignatureStatus::IntactButUntrusted) == "Íntegra (sem confiança pública)"@,
        status_words(SignatureStatus::DocumentModified) == "Documento alterado"@,
        status_words(SignatureStatus::Invalid) == "Inválida"@,
        status_words(SignatureStatus::Unsupported) == "Não suportada"@,
        status_words(SignatureStatus::CertificateExpired) == "Certificado expirado"@,
        status_words(SignatureStatus::CertificateNotYetValid) == "Certificado ainda não válido"@,
{
}

/// The card of a document shows its name and the folder that it lies in, and
/// leads to it.
pub proof fn law_cards_show_name_and_folder(folder: Seq<char>, name: Seq<char>)
    requires
        is_name(name),
        is_name(folder),
        folder.last() != '.',
        !name.contains(ESCAPE),
        !folder.contains(ESCAPE),
    ensures
        ({
            let path = seq!['/'] + folder + seq!['/'] + name;
            let card = card_of(path);
            &&& card.path == path
            &&& card.name == name
            &&& card.folder == Some(folder)
        }),
        card_of(name).name == name,
{
    assert(name.contains(name[0]));
    assert(folder.contains(folder[0]));
    law_folder_stands_before_the_name(folder, name);
    law_name_stands_behind_the_last_slash(seq!['/'] + folder, name);
    law_name_stands_behind_the_last_slash(Seq::empty(), folder);
    assert(Seq::<char>::empty() + seq!['/'] + folder =~= seq!['/'] + folder);
}

/// The cards come in the order of the documents, each for its own.
pub proof fn law_cards_come_in_order(paths: Seq<Seq<char>>, i: int)
    requires
        0 <= i < paths.len(),
    ensures
        cards_of(paths).len() == paths.len(),
        cards_of(paths)[i].path == paths[i],
{
}

/// What a row of the menu that does something says.
pub open spec fn says(row: MenuRowView) -> Seq<char> {
    match row {
        MenuRowView::Item { label, .. } => label,
        MenuRowView::Choice { label, .. } => label,
        _ => Seq::empty(),
    }
}

/// Whether a row says what it does.
pub open spec fn named_right(row: MenuRowView) -> bool {
    &&& does(row, Command::FitPage) ==> says(row) == "Ajustar página inteira"@
    &&& does(row, Command::Rotate) ==> says(row) == "Girar vista (90°)"@
    &&& does(row, Command::Print) ==> says(row) == "Imprimir"@
    &&& does(row, Command::Back) ==> says(row) == "Voltar"@
    &&& does(row, Command::Forward) ==> says(row) == "Avançar"@
    &&& does(row, Command::Mode(ViewMode::Single)) ==> says(row) == "Página única"@
    &&& does(row, Command::Mode(ViewMode::Continuous)) ==> says(row) == "Rolagem contínua"@
    &&& does(row, Command::Copy) ==> says(row) == "Copiar seleção"@
    &&& does(row, Command::Undo) ==> says(row) == "Desfazer marcação"@
    &&& does(row, Command::Redo) ==> says(row) == "Refazer marcação"@
    &&& does(row, Command::SaveCopy) ==> says(row) == "Salvar cópia com marcações…"@
    &&& does(row, Command::Close) ==> says(row) == "Fechar documento"@
    &&& does(row, Command::Colours(Theme::Dark)) ==> says(row) == "Escuro"@
    &&& does(row, Command::Colours(Theme::Light)) ==> says(row) == "Claro"@
}

proof fn lemma_page_rows_say(v: ReadyView, k: int)
    requires
        0 <= k < page_rows(v).len(),
    ensures
        named_right(page_rows(v)[k]),
{
}

proof fn lemma_mode_rows_say(v: ReadyView, k: int)
    requires
        0 <= k < mode_rows(v).len(),
    ensures
        named_right(mode_rows(v)[k]),
{
}

proof fn lemma_mark_rows_say(v: ReadyView, k: int)
    requires
        0 <= k < mark_rows(v).len(),
    ensures
        named_right(mark_rows(v)[k]),
{
}

proof fn lemma_window_rows_say(v: ReadyView, k: int)
    requires
        0 <= k < window_rows(v).len(),
    ensures
        named_right(window_rows(v)[k]),
{
}

/// Every row of the menu says what it does.
pub proof fn law_rows_say_what_they_do(v: ReadyView, k: int)
    requires
        0 <= k < menu_of(v).len(),
    ensures
        named_right(menu_of(v)[k]),
{
    lemma_parts(v);
    let a = page_rows(v).len() as int;
    let m = mark_rows(v).len() as int;
    if k < a {
        lemma_page_rows_say(v, k);
    } else if k < a + 3 {
        lemma_mode_rows_say(v, k - a);
    } else if k < a + 3 + m {
        lemma_mark_rows_say(v, k - a - 3);
    } else {
        lemma_window_rows_say(v, k - a - 3 - m);
    }
}

} // verus!
