//! Printing: which pages, how often, on which printer.

use vstd::prelude::*;

use crate::laws::moving::lemma_number_is_read;
use crate::dialogs::place_in;
use crate::messages::Message;
use crate::numbers::{shown, white};
use crate::page::PageNo;
use crate::print::{
    order_hint, range_hint, resolved, PrintDialogView, PrintOrientation, PrintRange, PrintSelection, PrinterInfo, RangeMode,
};
use crate::ready::ReadyView;
use crate::state::{ActionView, NavCmd};

verus! {

/// Whether a text is a number, with white space round it or without.
pub open spec fn says_number(text: Seq<char>, n: nat) -> bool {
    exists|before: Seq<char>, after: Seq<char>| #[trigger] says_between(text, before, n, after)
}

pub open spec fn says_between(text: Seq<char>, before: Seq<char>, n: nat, after: Seq<char>) -> bool {
    &&& text == before + shown(n) + after
    &&& forall|i: int| 0 <= i < before.len() ==> white(#[trigger] before[i])
    &&& forall|i: int| 0 <= i < after.len() ==> white(#[trigger] after[i])
}

proof fn lemma_says(text: Seq<char>, n: nat)
    requires
        says_number(text, n),
    ensures
        crate::numbers::decimal(crate::numbers::trimmed(text)) == Some(n),
{
    let (before, after) = choose|before: Seq<char>, after: Seq<char>| #[trigger]
        says_between(text, before, n, after);
    lemma_number_is_read(before, n, after);
}

/// Whether pages are those with the indices from `first` to `last`, each once
/// and in order.
pub open spec fn runs_from(pages: Seq<PageNo>, first: int, last: int) -> bool {
    &&& pages.len() == last - first + 1
    &&& forall|i: int| 0 <= i < pages.len() ==> (#[trigger] pages[i]).0 == first + i
}

/// Whether a document can be printed from a dialog: it is open, waits for no
/// answer, and a printer is chosen.
pub open spec fn can_print(v: ReadyView, d: PrintDialogView, printer: int) -> bool {
    &&& v.print_dialog == Some(d)
    &&& !d.busy
    &&& 0 <= printer < d.printers.len()
    &&& d.selected is Some
    &&& d.selected->0 == printer
    &&& 1 <= d.copies <= 99
}

/// Whether a job that prints a selection was handed on: to the chosen printer,
/// of this document, with the copies and the orientation of the dialog, which
/// waits for an answer.
pub open spec fn job_handed_on(
    v: ReadyView,
    d: PrintDialogView,
    printer: int,
    selection: PrintSelection,
) -> bool {
    let after = v.handled(Message::PrintSubmit);
    &&& after.1.len() == 1
    &&& after.1[0] is Spool
    &&& after.1[0]->Spool_engine == v.engine
    &&& after.1[0]->Spool_selection == selection
    &&& after.1[0]->Spool_printer == d.printers[printer].name@
    &&& after.1[0]->Spool_doc_gen == v.open_gen
    &&& selection.copies == d.copies
    &&& selection.orientation == d.orientation
    &&& after.0 == (ReadyView {
        print_dialog: Some(PrintDialogView { busy: true, error: None, ..d }),
        ..v
    })
}

/// Where the first and the last page were typed, those pages are printed and
/// all between them, as readers count.
pub proof fn law_typed_pages_are_printed(
    v: ReadyView,
    d: PrintDialogView,
    printer: int,
    a: nat,
    b: nat,
)
    requires
        can_print(v, d, printer),
        d.range_mode == RangeMode::Custom,
        says_number(d.from_input, a),
        says_number(d.to_input, b),
        1 <= a <= b <= v.pages.total,
    ensures
        d.chosen(v.pages.total, v.visible) is Ok,
        ({
            let selection = d.chosen(v.pages.total, v.visible)->Ok_0;
            let pages = resolved(selection.range, v.pages.total);
            &&& pages is Some
            &&& runs_from(pages->0, a - 1, b - 1)
            &&& job_handed_on(v, d, printer, selection)
        }),
{
    lemma_says(d.from_input, a);
    lemma_says(d.to_input, b);
}

/// All pages are printed, or the one that is read, where that was chosen.
pub proof fn law_all_or_the_current_page_is_printed(v: ReadyView, d: PrintDialogView, printer: int)
    requires
        v.wf(),
        v.pages.total > 0,
        can_print(v, d, printer),
        d.range_mode != RangeMode::Custom,
    ensures
        d.chosen(v.pages.total, v.visible) is Ok,
        ({
            let selection = d.chosen(v.pages.total, v.visible)->Ok_0;
            let pages = resolved(selection.range, v.pages.total);
            &&& pages is Some
            &&& d.range_mode == RangeMode::All ==> runs_from(pages->0, 0, v.pages.total - 1)
            &&& d.range_mode == RangeMode::Current ==> pages->0 == seq![v.visible]
            &&& job_handed_on(v, d, printer, selection)
        }),
{
}

/// Where what was typed is no page of the document, or the first page comes
/// after the last, nothing is printed and the dialog says why.
pub proof fn law_wrong_pages_are_not_printed(v: ReadyView, d: PrintDialogView, a: nat, b: nat)
    requires
        v.print_dialog == Some(d),
        !d.busy,
        d.range_mode == RangeMode::Custom,
        v.pages.total > 0,
        says_number(d.from_input, a),
        says_number(d.to_input, b),
        a < 1 || a > v.pages.total || b < 1 || b > v.pages.total || a > b,
    ensures
        ({
            let after = v.handled(Message::PrintSubmit);
            let made = v.handled(Message::PrintOpenPdf);
            &&& after.1.len() == 0
            &&& made.1.len() == 0
            &&& after.0 == made.0
            &&& after.0.print_dialog is Some
            &&& after.0.print_dialog->0.error is Some
            &&& after.0 == (ReadyView {
                print_dialog: Some(
                    PrintDialogView { error: after.0.print_dialog->0.error, ..d },
                ),
                ..v
            })
        }),
{
    lemma_says(d.from_input, a);
    lemma_says(d.to_input, b);
}

/// Without a printer, without a dialog, and while an answer is waited for,
/// nothing is printed.
pub proof fn law_printing_needs_a_printer(v: ReadyView)
    requires
        v.print_dialog is None || v.print_dialog->0.busy || v.print_dialog->0.selected is None,
    ensures
        v.handled(Message::PrintSubmit).1.len() == 0,
        v.print_dialog is None || v.print_dialog->0.busy ==> v.handled(Message::PrintSubmit).0 == v,
{
}

/// What is made into a document of its own is what would be printed.
pub proof fn law_document_for_print_is_what_would_be_printed(
    v: ReadyView,
    d: PrintDialogView,
    printer: int,
)
    requires
        can_print(v, d, printer),
        d.chosen(v.pages.total, v.visible) is Ok,
    ensures
        ({
            let printed = v.handled(Message::PrintSubmit);
            let made = v.handled(Message::PrintOpenPdf);
            &&& made.1.len() == 1
            &&& printed.1.len() == 1
            &&& made.1[0] is OpenPrintPdf
            &&& printed.1[0] is Spool
            &&& made.1[0]->OpenPrintPdf_selection == printed.1[0]->Spool_selection
            &&& made.1[0]->OpenPrintPdf_engine == v.engine
            &&& made.1[0]->OpenPrintPdf_source == v.source.place()
            &&& made.1[0]->OpenPrintPdf_doc_gen == v.open_gen
            &&& made.0 == printed.0
        }),
{
}

/// A dialog opens with all pages, one copy, the page that is read as the first
/// and the last, and asks for the printers.
pub proof fn law_dialog_opens_on_the_page_that_is_read(v: ReadyView)
    requires
        v.wf(),
        v.pages.total > 0,
    ensures
        ({
            let after = v.handled(Message::OpenPrintDialog);
            let d = after.0.print_dialog->0;
            &&& after.0.print_dialog is Some
            &&& d.range_mode == RangeMode::All
            &&& d.copies == 1
            &&& d.from_input == shown((v.visible.0 + 1) as nat)
            &&& d.to_input == shown((v.visible.0 + 1) as nat)
            &&& d.orientation == PrintOrientation::Auto
            &&& d.printers.len() == 0
            &&& d.printers_loading
            &&& d.selected is None
            &&& d.preview == 0
            &&& !d.busy
            &&& d.error is None
            &&& after.1.contains(ActionView::ListPrinters)
            &&& after.0 == (ReadyView {
                print_dialog: after.0.print_dialog,
                print_status: None,
                overflow_open: false,
                ..v
            })
        }),
{
    assert(v.handled(Message::OpenPrintDialog).1[0] is ListPrinters);
}

/// The printers that were listed are offered, and the system's own choice is
/// chosen, the first such; without one the first printer.
pub proof fn law_listed_printers_are_offered(v: ReadyView, printers: Vec<PrinterInfo>, i: int)
    requires
        v.print_dialog is Some,
        printers@.len() <= usize::MAX,
    ensures
        ({
            let d = v.handled(Message::PrintersLoaded { printers }).0.print_dialog->0;
            &&& v.handled(Message::PrintersLoaded { printers }).0.print_dialog is Some
            &&& d.printers == printers@
            &&& !d.printers_loading
            &&& printers@.len() == 0 ==> d.selected is None
            &&& printers@.len() > 0 ==> d.selected is Some && d.selected->0 < printers@.len()
            &&& 0 <= i < printers@.len() && printers@[i].is_default && (forall|j: int|
                0 <= j < i ==> !(#[trigger] printers@[j]).is_default) ==> d.selected->0 == i
            &&& printers@.len() > 0 && (forall|j: int|
                0 <= j < printers@.len() ==> !(#[trigger] printers@[j]).is_default)
                ==> d.selected->0 == 0
        }),
{
    lemma_default(printers@, printers@.len() as int, i);
}

proof fn lemma_default(printers: Seq<PrinterInfo>, n: int, i: int)
    requires
        0 <= n <= printers.len(),
    ensures
        match crate::print::default_printer(printers, n) {
            Some(k) => 0 <= k < n && printers[k].is_default,
            None => forall|j: int| 0 <= j < n ==> !(#[trigger] printers[j]).is_default,
        },
        0 <= i < n && printers[i].is_default && (forall|j: int|
            0 <= j < i ==> !(#[trigger] printers[j]).is_default) ==> crate::print::default_printer(
            printers,
            n,
        ) == Some(i),
    decreases n,
{
    if n > 0 {
        lemma_default(printers, n - 1, i);
    }
}

/// What is filled in is what the dialog holds; the rest of it stays, but that
/// the preview begins anew where the pages change.
pub proof fn law_dialog_holds_what_is_filled_in(
    v: ReadyView,
    d: PrintDialogView,
    mode: RangeMode,
    text: String,
    orientation: PrintOrientation,
    index: usize,
)
    requires
        v.print_dialog == Some(d),
        !d.busy,
    ensures
        v.handled(Message::PrintSetRangeMode { mode }).0 == (ReadyView {
            print_dialog: Some(
                PrintDialogView { range_mode: mode, preview: 0, error: None, ..d },
            ),
            ..v
        }),
        v.handled(Message::PrintSetFromInput { text }).0 == (ReadyView {
            print_dialog: Some(PrintDialogView { from_input: text@, preview: 0, ..d }),
            ..v
        }),
        v.handled(Message::PrintSetToInput { text }).0 == (ReadyView {
            print_dialog: Some(PrintDialogView { to_input: text@, preview: 0, ..d }),
            ..v
        }),
        v.handled(Message::PrintSetOrientation { orientation }).0 == (ReadyView {
            print_dialog: Some(PrintDialogView { orientation, error: None, ..d }),
            ..v
        }),
        index < d.printers.len() ==> v.handled(Message::PrintSelectPrinter { index }).0 == (
        ReadyView {
            print_dialog: Some(PrintDialogView { selected: Some(index), error: None, ..d }),
            ..v
        }),
        index >= d.printers.len() ==> v.handled(Message::PrintSelectPrinter { index }).0 == v,
{
}

/// One copy more and one copy less, between one and ninety-nine.
pub proof fn law_copies_go_up_and_down_by_one(v: ReadyView, d: PrintDialogView)
    requires
        v.print_dialog == Some(d),
        1 <= d.copies <= 99,
    ensures
        ({
            let more = v.handled(Message::PrintCopiesPlus).0;
            let less = v.handled(Message::PrintCopiesMinus).0;
            &&& more.print_dialog is Some
            &&& more.print_dialog->0.copies == if d.copies == 99 { 99 } else { d.copies + 1 }
            &&& less.print_dialog is Some
            &&& less.print_dialog->0.copies == if d.copies == 1 { 1 } else { d.copies - 1 }
            &&& more == (ReadyView {
                print_dialog: Some(
                    PrintDialogView { copies: more.print_dialog->0.copies, ..d },
                ),
                ..v
            })
            &&& less == (ReadyView {
                print_dialog: Some(
                    PrintDialogView { copies: less.print_dialog->0.copies, ..d },
                ),
                ..v
            })
        }),
{
}

/// The preview shows one of the pages that would be printed: those that were
/// typed, from the first on; it goes on and back page by page, and its ends
/// hold.
pub proof fn law_preview_goes_through_the_pages_to_print(
    v: ReadyView,
    d: PrintDialogView,
    a: nat,
    b: nat,
)
    requires
        v.print_dialog == Some(d),
        d.range_mode == RangeMode::Custom,
        says_number(d.from_input, a),
        says_number(d.to_input, b),
        1 <= a <= b <= v.pages.total,
        d.preview <= b - a,
    ensures
        d.preview_page(v.pages.total, v.visible).0 == a - 1 + d.preview,
        ({
            let on = v.handled(Message::PrintPreviewNext).0;
            let back = v.handled(Message::PrintPreviewPrev).0;
            &&& on.print_dialog is Some
            &&& on.print_dialog->0.preview == if d.preview < b - a { d.preview + 1 } else { b - a }
            &&& back.print_dialog is Some
            &&& back.print_dialog->0.preview == if d.preview > 0 { d.preview - 1 } else { 0 }
            &&& on == (ReadyView {
                print_dialog: Some(PrintDialogView { preview: on.print_dialog->0.preview, ..d }),
                ..v
            })
            &&& back == (ReadyView {
                print_dialog: Some(PrintDialogView { preview: back.print_dialog->0.preview, ..d }),
                ..v
            })
            &&& v.handled(Message::Nav { cmd: NavCmd::Next }).0 == on
            &&& v.handled(Message::Nav { cmd: NavCmd::Previous }).0 == back
        }),
{
    lemma_says(d.from_input, a);
    lemma_says(d.to_input, b);
    let pages = resolved(d.chosen_range(v.pages.total, v.visible)->Ok_0, v.pages.total);
    assert(runs_from(pages->0, a - 1, b - 1));
}

/// The pages of a range are those from its first to its last, if they are the
/// document's; one page is that page.
pub proof fn law_ranges_hold_their_pages(range: PrintRange, page_count: u32)
    ensures
        match range {
            PrintRange::All => resolved(range, page_count) is Some && runs_from(
                resolved(range, page_count)->0,
                0,
                page_count - 1,
            ),
            PrintRange::Current(page) => if page.0 < page_count {
                resolved(range, page_count) == Some(seq![page])
            } else {
                resolved(range, page_count) is None
            },
            PrintRange::FromTo { from, to } => if from.0 <= to.0 < page_count {
                resolved(range, page_count) is Some && runs_from(
                    resolved(range, page_count)->0,
                    from.0 as int,
                    to.0 as int,
                )
            } else {
                resolved(range, page_count) is None
            },
        },
{
}

/// A job that was sent closes the dialog and names the printer and the job; one
/// that failed leaves it open, with the reason, to be tried again.
pub proof fn law_answer_to_a_job(
    v: ReadyView,
    printer: Seq<char>,
    job: u64,
    reason: String,
)
    ensures
        ({
            let sent = v.print_answered(printer, Ok(job));
            let failed = v.print_answered(printer, Err(reason));
            &&& sent.print_dialog is None
            &&& sent.print_status == Some(
                "Enviado para "@ + printer + " (job "@ + shown(job as nat) + ")"@,
            )
            &&& sent == (ReadyView {
                print_dialog: None,
                print_status: sent.print_status,
                ..v
            })
            &&& v.print_dialog is Some ==> failed == (ReadyView {
                print_dialog: Some(
                    PrintDialogView { busy: false, error: Some(reason@), ..v.print_dialog->0 },
                ),
                ..v
            })
            &&& v.print_dialog is None ==> failed == v
        }),
{
}

/// In the preview too, a command leads to the first page, to the last, or to a
/// page among those that would be printed; another page leaves it where it is.
pub proof fn law_preview_goes_to_its_ends(
    v: ReadyView,
    d: PrintDialogView,
    a: nat,
    b: nat,
    page: PageNo,
)
    requires
        v.print_dialog == Some(d),
        d.range_mode == RangeMode::Custom,
        says_number(d.from_input, a),
        says_number(d.to_input, b),
        1 <= a <= b <= v.pages.total,
        d.preview <= b - a,
    ensures
        v.handled(Message::Nav { cmd: NavCmd::First }).0.print_dialog->0.preview == 0,
        v.handled(Message::Nav { cmd: NavCmd::Last }).0.print_dialog->0.preview == b - a,
        v.handled(Message::Nav { cmd: NavCmd::GoTo(page) }).0.print_dialog->0.preview == if a
            <= page.0 + 1 <= b {
            page.0 + 1 - a
        } else {
            d.preview as int
        },
{
    lemma_says(d.from_input, a);
    lemma_says(d.to_input, b);
    let pages = resolved(d.chosen_range(v.pages.total, v.visible)->Ok_0, v.pages.total)->0;
    assert(runs_from(pages, a - 1, b - 1));
    lemma_place_of_page(pages, a - 1, b - 1, page, pages.len() as int);
}

proof fn lemma_place_of_page(pages: Seq<PageNo>, first: int, last: int, page: PageNo, n: int)
    requires
        runs_from(pages, first, last),
        0 <= n <= pages.len(),
    ensures
        place_in(pages, page, n) == if first <= page.0 < first + n {
            Some(page.0 - first)
        } else {
            None
        },
    decreases n,
{
    if n > 0 {
        lemma_place_of_page(pages, first, last, page, n - 1);
        assert(pages[n - 1].0 == first + n - 1);
    }
}

/// What a number that is no page is answered names the pages there are, and
/// numbers in the wrong order are told apart from it.
pub proof fn law_wrong_numbers_are_answered(page_count: u32)
    ensures
        page_count > 0 ==> range_hint(page_count) == "use páginas de 1 até "@ + shown(
            page_count as nat,
        ),
        order_hint() == "«De» maior que «Até»"@,
{
}

} // verus!
