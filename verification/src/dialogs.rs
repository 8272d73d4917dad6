//! The panels and dialogs of a document: the table of contents, searching,
//! printing and saving a marked copy.

use vstd::prelude::*;

use crate::annot::{annots, Annotation, Marks};
use crate::browse::{copy_texts, merge_recents, merged, push_recent, texts, to_front};
use crate::find::{Search, SearchView};
use crate::native::{display, displayed, is_readable, readable};
use crate::numbers::{push_number, shown};
use crate::outline::{
    copy_path, cursor_after_fold, focus_page, fold, folded, outline_cursor_page, outline_rows,
    outline_target, row_views, rows_of, step_target, OutlineRowView,
};
use crate::page::{MediaBox, PageNo, TextLayer};
use crate::paths::{
    file_name, file_stem, is_same_file, marked_name, name_of, overwrites, stem_of, suggested_marked_name,
};
use crate::print::{
    choose_printer, first_choice, PrintDialog, PrintDialogView, PrintOrientation, PrintSelection,
    PrinterInfo, RangeMode, MAX_COPIES,
};
use crate::ready::{Ready, ReadyView};
use crate::state::{needs_sign_warning, Action, ActionView, NavCmd};
use crate::text::{joined, maybe_text, push_text};

verus! {

/// The place of a page among the first `n`.
pub open spec fn place_in(pages: Seq<PageNo>, page: PageNo, n: int) -> Option<int>
    decreases n,
{
    if n <= 0 {
        None
    } else {
        match place_in(pages, page, n - 1) {
            Some(i) => Some(i),
            None => if pages[n - 1] == page {
                Some(n - 1)
            } else {
                None
            },
        }
    }
}

proof fn lemma_place_stays(pages: Seq<PageNo>, page: PageNo, m: int, n: int)
    requires
        m <= n,
        place_in(pages, page, m) is Some,
    ensures
        place_in(pages, page, n) == place_in(pages, page, m),
    decreases n,
{
    if m < n {
        lemma_place_stays(pages, page, m, n - 1);
    }
}

fn find_page(pages: &Vec<PageNo>, page: PageNo) -> (r: Option<usize>)
    ensures
        match place_in(pages@, page, pages@.len() as int) {
            Some(i) => r is Some && r->0 == i && 0 <= i < pages@.len(),
            None => r is None,
        },
{
    let mut i: usize = 0;
    while i < pages.len()
        invariant
            i <= pages@.len(),
            place_in(pages@, page, i as int) is None,
        decreases pages@.len() - i,
    {
        if pages[i] == page {
            proof {
                lemma_place_stays(pages@, page, i + 1, pages@.len() as int);
            }
            return Some(i);
        }
        i += 1;
    }
    None
}

/// The title of a print job: the document's name up to its last dot, if it is
/// all text.
pub open spec fn job_title(path: Seq<char>) -> Seq<char> {
    match name_of(path) {
        Some(name) => if readable(stem_of(name)) {
            displayed(stem_of(name))
        } else {
            "documento"@
        },
        None => "documento"@,
    }
}

/// What is said once a job was sent.
pub open spec fn sent_words(printer: Seq<char>, job: u64) -> Seq<char> {
    "Enviado para "@ + printer + " (job "@ + shown(job as nat) + ")"@
}

/// What is said once a copy was saved.
pub open spec fn saved_words(path: Seq<char>) -> Seq<char> {
    "Cópia salva em "@ + displayed(
        match name_of(path) {
            Some(name) => name,
            None => path,
        },
    )
}

impl PrintDialogView {
    /// The preview after a command that moves through it.
    pub open spec fn preview_after(self, cmd: NavCmd, page_count: u32, current: PageNo) -> usize {
        let pages = self.previewed(page_count, current);
        let last = self.last_preview(page_count, current);
        match cmd {
            NavCmd::Previous => if self.preview > 0 {
                (self.preview - 1) as usize
            } else {
                0
            },
            NavCmd::Next => if self.preview < last {
                (self.preview + 1) as usize
            } else {
                last
            },
            NavCmd::First => 0,
            NavCmd::Last => last,
            NavCmd::GoTo(page) => match place_in(pages, page, pages.len() as int) {
                Some(i) => i as usize,
                None => if self.preview < last {
                    self.preview
                } else {
                    last
                },
            },
        }
    }
}

impl ReadyView {
    /// The dialog changed, if it is open.
    pub open spec fn with_dialog(self, dialog: PrintDialogView) -> ReadyView {
        match self.print_dialog {
            Some(_) => ReadyView { print_dialog: Some(dialog), ..self },
            None => self,
        }
    }

    /// Whether the dialog is open and takes changes.
    pub open spec fn editable(self) -> bool {
        self.print_dialog is Some && !self.print_dialog->0.busy
    }

    pub open spec fn preview_moved(self, cmd: NavCmd) -> ReadyView {
        match self.print_dialog {
            Some(d) => self.with_dialog(
                PrintDialogView {
                    preview: d.preview_after(cmd, self.pages.total, self.visible),
                    ..d
                },
            ),
            None => self,
        }
    }

    pub open spec fn dialog_opened(self) -> ReadyView {
        ReadyView {
            overflow_open: false,
            print_status: None,
            print_dialog: Some(PrintDialogView::fresh(self.pages.total, self.visible)),
            ..self
        }
    }

    pub open spec fn printers_listed(self, printers: Seq<PrinterInfo>) -> ReadyView {
        match self.print_dialog {
            Some(d) => self.with_dialog(
                PrintDialogView {
                    printers_loading: false,
                    selected: first_choice(printers),
                    printers,
                    ..d
                },
            ),
            None => self,
        }
    }

    /// What the escape key closes: notes, menus and warnings, the dialog
    /// unless it is busy, and without a dialog the selection.
    pub open spec fn escaped(self) -> ReadyView {
        let v = ReadyView {
            note_draft: None,
            note_drag: None,
            save_warning: false,
            overflow_open: false,
            ..self
        };
        match self.print_dialog {
            None => ReadyView { selection: None, press_anchor: None, ..v },
            Some(d) => if d.busy {
                v
            } else {
                ReadyView { print_dialog: None, ..v }
            },
        }
    }

    pub open spec fn printer_chosen(self, index: usize) -> ReadyView {
        if self.editable() && index < self.print_dialog->0.printers.len() {
            self.with_dialog(
                PrintDialogView { selected: Some(index), error: None, ..self.print_dialog->0 },
            )
        } else {
            self
        }
    }

    pub open spec fn range_mode_set(self, mode: RangeMode) -> ReadyView {
        if self.editable() {
            self.with_dialog(
                PrintDialogView { range_mode: mode, preview: 0, error: None, ..self.print_dialog->0 },
            )
        } else {
            self
        }
    }

    pub open spec fn from_typed(self, input: Seq<char>) -> ReadyView {
        if self.editable() {
            self.with_dialog(
                PrintDialogView { from_input: input, preview: 0, ..self.print_dialog->0 },
            )
        } else {
            self
        }
    }

    pub open spec fn to_typed(self, input: Seq<char>) -> ReadyView {
        if self.editable() {
            self.with_dialog(
                PrintDialogView { to_input: input, preview: 0, ..self.print_dialog->0 },
            )
        } else {
            self
        }
    }

    /// One copy more, up to the most that can be asked for.
    pub open spec fn copies_up(self) -> ReadyView {
        match self.print_dialog {
            Some(d) => self.with_dialog(
                PrintDialogView {
                    copies: if d.copies < MAX_COPIES {
                        (d.copies + 1) as u32
                    } else {
                        MAX_COPIES
                    },
                    ..d
                },
            ),
            None => self,
        }
    }

    /// One copy less, down to one.
    pub open spec fn copies_down(self) -> ReadyView {
        match self.print_dialog {
            Some(d) => self.with_dialog(
                PrintDialogView {
                    copies: if d.copies > 1 {
                        (d.copies - 1) as u32
                    } else {
                        1
                    },
                    ..d
                },
            ),
            None => self,
        }
    }

    pub open spec fn orientation_set(self, orientation: PrintOrientation) -> ReadyView {
        if self.editable() {
            self.with_dialog(
                PrintDialogView { orientation, error: None, ..self.print_dialog->0 },
            )
        } else {
            self
        }
    }

    /// The dialog once a job was handed on: it waits.
    pub open spec fn dialog_waits(self) -> ReadyView {
        self.with_dialog(PrintDialogView { busy: true, error: None, ..self.print_dialog->0 })
    }

    /// What is printed, or why nothing is.
    pub open spec fn submitted(self) -> (ReadyView, Option<ActionView>) {
        if !self.editable() {
            (self, None)
        } else {
            let d = self.print_dialog->0;
            match d.chosen(self.pages.total, self.visible) {
                Err(hint) => (self.with_dialog(d.with_error(hint)), None),
                Ok(selection) => match d.selected {
                    Some(i) if i < d.printers.len() => (
                        self.dialog_waits(),
                        Some(
                            ActionView::Spool {
                                engine: self.engine,
                                selection,
                                printer: d.printers[i as int].name@,
                                title: job_title(self.source.place()),
                                doc_gen: self.open_gen,
                            },
                        ),
                    ),
                    _ => (
                        self.with_dialog(d.with_error("nenhuma impressora selecionada"@)),
                        None,
                    ),
                },
            }
        }
    }

    /// What is made into a document of its own, or why nothing is.
    pub open spec fn print_pdf_asked(self) -> (ReadyView, Option<ActionView>) {
        if !self.editable() {
            (self, None)
        } else {
            let d = self.print_dialog->0;
            match d.chosen(self.pages.total, self.visible) {
                Err(hint) => (self.with_dialog(d.with_error(hint)), None),
                Ok(selection) => (
                    self.dialog_waits(),
                    Some(
                        ActionView::OpenPrintPdf {
                            engine: self.engine,
                            selection,
                            source: self.source.place(),
                            doc_gen: self.open_gen,
                        },
                    ),
                ),
            }
        }
    }

    /// What became of a print job.
    pub open spec fn print_answered(self, printer: Seq<char>, result: Result<u64, String>) -> ReadyView {
        match result {
            Ok(job) => ReadyView {
                print_dialog: None,
                print_status: Some(sent_words(printer, job)),
                ..self
            },
            Err(e) => match self.print_dialog {
                Some(d) => self.with_dialog(
                    PrintDialogView { busy: false, error: Some(e@), ..d },
                ),
                None => self,
            },
        }
    }

    /// What became of the document to print.
    pub open spec fn print_pdf_answered(self, result: Result<String, String>) -> ReadyView {
        match self.print_dialog {
            Some(d) => self.with_dialog(
                match result {
                    Ok(_) => PrintDialogView { busy: false, ..d },
                    Err(e) => PrintDialogView { busy: false, error: Some(e@), ..d },
                },
            ),
            None => self,
        }
    }

    /// The question where a marked copy goes.
    pub open spec fn ask_save(self) -> ActionView {
        ActionView::AskSave {
            source: self.source.place(),
            name: marked_name(self.source.place()),
        }
    }

    /// A marked copy asked for: without marks there is nothing to save, and a
    /// signed document is warned of first.
    pub open spec fn copy_requested(self) -> (ReadyView, Option<ActionView>) {
        let v = ReadyView { overflow_open: false, save_status: None, ..self };
        if self.marks.annotations.len() == 0 {
            (
                ReadyView {
                    save_status: Some("Nada para salvar — marque o texto primeiro."@),
                    ..v
                },
                None,
            )
        } else if self.signatures.signatures@.len() > 0 {
            (ReadyView { save_warning: true, ..v }, None)
        } else {
            (v, Some(v.ask_save()))
        }
    }

    /// Where a marked copy goes: anywhere but over the document itself.
    pub open spec fn copy_placed(
        self,
        dest: Seq<char>,
        real_dest: Option<Seq<char>>,
        real_source: Option<Seq<char>>,
    ) -> (ReadyView, Option<ActionView>) {
        if overwrites(dest, self.source.place(), real_dest, real_source) {
            (
                ReadyView {
                    save_status: Some(
                        "Escolha outro nome — o original nunca é sobrescrito."@,
                    ),
                    ..self
                },
                None,
            )
        } else {
            (
                ReadyView { save_status: None, ..self },
                Some(
                    ActionView::SaveCopy {
                        engine: self.engine,
                        marks: self.marks.annotations,
                        dest,
                        doc_gen: self.open_gen,
                    },
                ),
            )
        }
    }

    /// The recent documents once a copy was saved.
    pub open spec fn recents_with(self, path: Seq<char>, disk: Seq<Seq<char>>) -> Seq<Seq<char>> {
        to_front(merged(self.recents, disk, disk.len() as int), path)
    }

    /// What became of a marked copy.
    pub open spec fn copy_answered(
        self,
        path: Seq<char>,
        result: Result<(), String>,
        disk: Seq<Seq<char>>,
    ) -> (ReadyView, Option<ActionView>) {
        match result {
            Ok(()) => (
                ReadyView {
                    recents: self.recents_with(path, disk),
                    save_status: Some(saved_words(path)),
                    ..self
                },
                Some(ActionView::SaveRecents { recents: self.recents_with(path, disk) }),
            ),
            Err(e) => (
                ReadyView { save_status: Some("Falha ao salvar: "@ + e@), ..self },
                None,
            ),
        }
    }

    /// A page that was read, or could not be.
    pub open spec fn page_answered(
        self,
        page: PageNo,
        result: Result<(MediaBox, TextLayer), String>,
    ) -> ReadyView {
        let v = ReadyView { page_data_inflight: self.page_data_inflight.remove(page.0), ..self };
        match result {
            Ok((media, text)) => {
                let w = ReadyView { page_data_failed: v.page_data_failed.remove(page.0), ..v };
                if page.0 < w.pages.total {
                    ReadyView {
                        pages: w.pages.with_page(page, media, text),
                        search: w.search.with_page(text),
                        ..w
                    }
                } else {
                    w
                }
            },
            Err(_) => ReadyView { page_data_failed: v.page_data_failed.insert(page.0), ..v },
        }
    }

    /// Another query.
    pub open spec fn queried(self, query: Seq<char>) -> ReadyView {
        ReadyView { search: SearchView::of(query, self.pages.text), ..self }
    }

    /// The page of the first hit.
    pub open spec fn first_hit(self) -> Option<PageNo> {
        if self.search.hits.len() > 0 {
            Some(self.search.hits[0].page)
        } else {
            None
        }
    }

    /// Another query, and the way to its first hit.
    pub open spec fn searched(self, query: Seq<char>) -> ReadyView {
        let v = self.queried(query);
        match v.first_hit() {
            Some(page) => v.navigated(page),
            None => v,
        }
    }

    pub open spec fn rows(self) -> Seq<OutlineRowView> {
        rows_of(self.outline, self.outline_collapsed)
    }

    /// The row that a step leads to.
    pub open spec fn outline_target(self, next: bool) -> Option<int> {
        step_target(self.rows(), self.outline_cursor, self.visible, next)
    }

    pub open spec fn outline_stepped(self, next: bool) -> ReadyView {
        match self.outline_target(next) {
            Some(i) => ReadyView { outline_cursor: Some(self.rows()[i].path), ..self },
            None => self,
        }
    }

    pub open spec fn outline_folded(self, path: Seq<usize>) -> ReadyView {
        ReadyView {
            outline_collapsed: folded(self.outline_collapsed, path),
            outline_cursor: cursor_after_fold(self.outline_collapsed, self.outline_cursor, path),
            ..self
        }
    }

    /// The page of the row that the keyboard stands on.
    pub open spec fn outline_page(self) -> Option<PageNo> {
        focus_page(self.rows(), self.outline_cursor, self.visible)
    }
}

fn copy_marks(marks: &Marks) -> (r: Vec<Annotation>)
    ensures
        annots(r@) == marks@.annotations,
{
    let mut r: Vec<Annotation> = Vec::new();
    let mut i: usize = 0;
    assert(annots(r@) =~= annots(marks.annotations@).take(0));
    while i < marks.annotations.len()
        invariant
            i <= marks.annotations@.len(),
            annots(r@) == annots(marks.annotations@).take(i as int),
        decreases marks.annotations@.len() - i,
    {
        let ghost before = r@;
        let a = marks.annotations[i].clone();
        r.push(a);
        assert(annots(r@) =~= annots(before).push(a@));
        i += 1;
        assert(annots(r@) =~= annots(marks.annotations@).take(i as int));
    }
    assert(annots(r@) =~= annots(marks.annotations@));
    r
}

impl PrintDialog {
    /// Moves the preview.
    pub fn move_preview(&mut self, cmd: NavCmd, page_count: u32, current: PageNo)
        ensures
            final(self)@ == (PrintDialogView {
                preview: old(self)@.preview_after(cmd, page_count, current),
                ..old(self)@
            }),
    {
        let pages = self.preview_pages(page_count, current);
        let last: usize = pages.len() - 1;
        self.preview = match cmd {
            NavCmd::Previous => if self.preview > 0 {
                self.preview - 1
            } else {
                0
            },
            NavCmd::Next => if self.preview < last {
                self.preview + 1
            } else {
                last
            },
            NavCmd::First => 0,
            NavCmd::Last => last,
            NavCmd::GoTo(page) => match find_page(&pages, page) {
                Some(i) => i,
                None => if self.preview < last {
                    self.preview
                } else {
                    last
                },
            },
        };
    }
}

impl Ready {
    pub fn move_preview(&mut self, cmd: NavCmd)
        requires
            old(self).wf(),
        ensures
            final(self)@ == old(self)@.preview_moved(cmd),
            final(self).wf(),
    {
        let count: u32 = self.pages.total;
        let current = self.visible;
        if let Some(dialog) = &mut self.print_dialog {
            dialog.move_preview(cmd, count, current);
        }
    }

    pub fn open_print_dialog(&mut self)
        requires
            old(self).wf(),
        ensures
            final(self)@ == old(self)@.dialog_opened(),
            final(self).wf(),
    {
        self.overflow_open = false;
        self.print_status = None;
        self.print_dialog = Some(PrintDialog::fresh(self.pages.total, self.visible));
    }

    pub fn list_printers(&mut self, printers: Vec<PrinterInfo>)
        requires
            old(self).wf(),
        ensures
            final(self)@ == old(self)@.printers_listed(printers@),
            final(self).wf(),
    {
        if let Some(dialog) = &mut self.print_dialog {
            dialog.printers_loading = false;
            dialog.selected = choose_printer(&printers);
            dialog.printers = printers;
        }
    }

    pub fn escape(&mut self)
        requires
            old(self).wf(),
        ensures
            final(self)@ == old(self)@.escaped(),
            final(self).wf(),
    {
        self.note_draft = None;
        self.note_drag = None;
        self.save_warning = false;
        self.overflow_open = false;
        let (open, busy): (bool, bool) = match &self.print_dialog {
            Some(dialog) => (true, dialog.busy),
            None => (false, false),
        };
        if !busy {
            if !open {
                self.selection = None;
                self.press_anchor = None;
            }
            self.print_dialog = None;
        }
    }

    pub fn choose_printer(&mut self, index: usize)
        requires
            old(self).wf(),
        ensures
            final(self)@ == old(self)@.printer_chosen(index),
            final(self).wf(),
    {
        if let Some(dialog) = &mut self.print_dialog {
            if !dialog.busy && index < dialog.printers.len() {
                dialog.selected = Some(index);
                dialog.error = None;
            }
        }
    }

    pub fn set_range_mode(&mut self, mode: RangeMode)
        requires
            old(self).wf(),
        ensures
            final(self)@ == old(self)@.range_mode_set(mode),
            final(self).wf(),
    {
        if let Some(dialog) = &mut self.print_dialog {
            if !dialog.busy {
                dialog.range_mode = mode;
                dialog.preview = 0;
                dialog.error = None;
            }
        }
    }

    pub fn set_from_input(&mut self, input: String)
        requires
            old(self).wf(),
        ensures
            final(self)@ == old(self)@.from_typed(input@),
            final(self).wf(),
    {
        if let Some(dialog) = &mut self.print_dialog {
            if !dialog.busy {
                dialog.from_input = input;
                dialog.preview = 0;
            }
        }
    }

    pub fn set_to_input(&mut self, input: String)
        requires
            old(self).wf(),
        ensures
            final(self)@ == old(self)@.to_typed(input@),
            final(self).wf(),
    {
        if let Some(dialog) = &mut self.print_dialog {
            if !dialog.busy {
                dialog.to_input = input;
                dialog.preview = 0;
            }
        }
    }

    pub fn more_copies(&mut self)
        requires
            old(self).wf(),
        ensures
            final(self)@ == old(self)@.copies_up(),
            final(self).wf(),
    {
        if let Some(dialog) = &mut self.print_dialog {
            dialog.copies = if dialog.copies < MAX_COPIES {
                dialog.copies + 1
            } else {
                MAX_COPIES
            };
        }
    }

    pub fn fewer_copies(&mut self)
        requires
            old(self).wf(),
        ensures
            final(self)@ == old(self)@.copies_down(),
            final(self).wf(),
    {
        if let Some(dialog) = &mut self.print_dialog {
            dialog.copies = if dialog.copies > 1 {
                dialog.copies - 1
            } else {
                1
            };
        }
    }

    pub fn set_orientation(&mut self, orientation: PrintOrientation)
        requires
            old(self).wf(),
        ensures
            final(self)@ == old(self)@.orientation_set(orientation),
            final(self).wf(),
    {
        if let Some(dialog) = &mut self.print_dialog {
            if !dialog.busy {
                dialog.orientation = orientation;
                dialog.error = None;
            }
        }
    }

    /// The title of a print job.
    pub fn print_job_title(&self) -> (title: String)
        ensures
            title@ == job_title(self@.source.place()),
    {
        match file_stem(self.source.path()) {
            Some(stem) => if is_readable(stem.as_str()) {
                display(stem.as_str())
            } else {
                "documento".to_owned()
            },
            None => "documento".to_owned(),
        }
    }

    /// Hands on what is printed, or says why nothing is.
    pub fn submit_print(&mut self) -> (r: Option<Action>)
        requires
            old(self).wf(),
        ensures
            final(self)@ == old(self)@.submitted().0,
            final(self).wf(),
            match old(self)@.submitted().1 {
                Some(action) => r is Some && r->0@ == action,
                None => r is None,
            },
    {
        let count: u32 = self.pages.total;
        let current = self.visible;
        let title = self.print_job_title();
        match &mut self.print_dialog {
            None => None,
            Some(dialog) => {
                if dialog.busy {
                    return None;
                }
                let selection: PrintSelection = match dialog.selection(count, current) {
                    Ok(selection) => selection,
                    Err(hint) => {
                        dialog.error = Some(hint);
                        return None;
                    },
                };
                let printer: Option<String> = match dialog.selected_printer() {
                    Some(info) => Some(info.name.clone()),
                    None => None,
                };
                match printer {
                    None => {
                        dialog.error = Some("nenhuma impressora selecionada".to_owned());
                        None
                    },
                    Some(printer) => {
                        dialog.busy = true;
                        dialog.error = None;
                        Some(
                            Action::Spool {
                                engine: self.engine,
                                selection,
                                printer,
                                title,
                                doc_gen: self.open_gen,
                            },
                        )
                    },
                }
            },
        }
    }

    /// Hands on what is made into a document to print, or says why nothing is.
    pub fn ask_print_pdf(&mut self) -> (r: Option<Action>)
        requires
            old(self).wf(),
        ensures
            final(self)@ == old(self)@.print_pdf_asked().0,
            final(self).wf(),
            match old(self)@.print_pdf_asked().1 {
                Some(action) => r is Some && r->0@ == action,
                None => r is None,
            },
    {
        let count: u32 = self.pages.total;
        let current = self.visible;
        let source = self.source.path().to_owned();
        match &mut self.print_dialog {
            None => None,
            Some(dialog) => {
                if dialog.busy {
                    return None;
                }
                let selection: PrintSelection = match dialog.selection(count, current) {
                    Ok(selection) => selection,
                    Err(hint) => {
                        dialog.error = Some(hint);
                        return None;
                    },
                };
                dialog.busy = true;
                dialog.error = None;
                Some(
                    Action::OpenPrintPdf {
                        engine: self.engine,
                        selection,
                        source,
                        doc_gen: self.open_gen,
                    },
                )
            },
        }
    }

    /// A print job was sent, or was not.
    pub fn print_answer(&mut self, printer: String, result: Result<u64, String>)
        requires
            old(self).wf(),
        ensures
            final(self)@ == old(self)@.print_answered(printer@, result),
            final(self).wf(),
    {
        match result {
            Ok(job) => {
                let mut words = joined("Enviado para ", printer.as_str());
                push_text(&mut words, " (job ");
                push_number(&mut words, job);
                push_text(&mut words, ")");
                self.print_dialog = None;
                self.print_status = Some(words);
            },
            Err(e) => {
                if let Some(dialog) = &mut self.print_dialog {
                    dialog.busy = false;
                    dialog.error = Some(e);
                }
            },
        }
    }

    /// The document to print was opened, or was not.
    pub fn print_pdf_answer(&mut self, result: Result<String, String>)
        requires
            old(self).wf(),
        ensures
            final(self)@ == old(self)@.print_pdf_answered(result),
            final(self).wf(),
    {
        if let Some(dialog) = &mut self.print_dialog {
            dialog.busy = false;
            if let Err(e) = result {
                dialog.error = Some(e);
            }
        }
    }

    fn ask_where(&self) -> (action: Action)
        ensures
            action@ == self@.ask_save(),
    {
        Action::AskSave {
            source: self.source.path().to_owned(),
            name: suggested_marked_name(self.source.path()),
        }
    }

    /// A marked copy was asked for.
    pub fn request_copy(&mut self) -> (r: Option<Action>)
        requires
            old(self).wf(),
        ensures
            final(self)@ == old(self)@.copy_requested().0,
            final(self).wf(),
            match old(self)@.copy_requested().1 {
                Some(action) => r is Some && r->0@ == action,
                None => r is None,
            },
    {
        self.overflow_open = false;
        self.save_status = None;
        if self.marks.annotations.len() == 0 {
            self.save_status = Some("Nada para salvar — marque o texto primeiro.".to_owned());
            return None;
        }
        if needs_sign_warning(&self.signatures) {
            self.save_warning = true;
            return None;
        }
        Some(self.ask_where())
    }

    /// A marked copy was asked for in spite of a signature.
    pub fn confirm_copy(&mut self) -> (r: Action)
        requires
            old(self).wf(),
        ensures
            final(self)@ == (ReadyView { save_warning: false, ..old(self)@ }),
            final(self).wf(),
            r@ == old(self)@.ask_save(),
    {
        self.save_warning = false;
        self.ask_where()
    }

    /// It was chosen where a marked copy goes.
    pub fn place_copy(
        &mut self,
        dest: String,
        real_dest: Option<String>,
        real_source: Option<String>,
    ) -> (r: Option<Action>)
        requires
            old(self).wf(),
        ensures
            final(self)@ == old(self)@.copy_placed(
                dest@,
                maybe_text(real_dest),
                maybe_text(real_source),
            ).0,
            final(self).wf(),
            match old(self)@.copy_placed(
                dest@,
                maybe_text(real_dest),
                maybe_text(real_source),
            ).1 {
                Some(action) => r is Some && r->0@ == action,
                None => r is None,
            },
    {
        if is_same_file(dest.as_str(), self.source.path(), &real_dest, &real_source) {
            self.save_status = Some(
                "Escolha outro nome — o original nunca é sobrescrito.".to_owned(),
            );
            return None;
        }
        self.save_status = None;
        Some(
            Action::SaveCopy {
                engine: self.engine,
                marks: copy_marks(&self.marks),
                dest,
                doc_gen: self.open_gen,
            },
        )
    }

    /// A marked copy was saved, or was not.
    pub fn copy_answer(&mut self, path: String, result: Result<(), String>, disk: Vec<String>) -> (r:
        Option<Action>)
        requires
            old(self).wf(),
        ensures
            final(self)@ == old(self)@.copy_answered(path@, result, texts(disk@)).0,
            final(self).wf(),
            match old(self)@.copy_answered(path@, result, texts(disk@)).1 {
                Some(action) => r is Some && r->0@ == action,
                None => r is None,
            },
    {
        match result {
            Ok(()) => {
                assert(texts(disk@).len() == disk@.len());
                let name = match file_name(path.as_str()) {
                    Some(name) => name,
                    None => path.clone(),
                };
                let words = joined("Cópia salva em ", display(name.as_str()).as_str());
                let recents = push_recent(merge_recents(copy_texts(&self.recents), disk), path);
                let again = copy_texts(&recents);
                self.recents = recents;
                self.save_status = Some(words);
                Some(Action::SaveRecents { recents: again })
            },
            Err(e) => {
                self.save_status = Some(joined("Falha ao salvar: ", e.as_str()));
                None
            },
        }
    }

    /// A page was read, or could not be.
    pub fn page_answer(&mut self, page: PageNo, result: Result<(MediaBox, TextLayer), String>)
        requires
            old(self).wf(),
        ensures
            final(self)@ == old(self)@.page_answered(page, result),
            final(self).wf(),
    {
        self.page_data_inflight.remove(page.index());
        match result {
            Ok((media, text)) => {
                self.page_data_failed.remove(page.index());
                if page.index() < self.pages.total {
                    self.search.extend_page(&text);
                    self.pages.set_page(page, media, text);
                }
            },
            Err(_) => {
                self.page_data_failed.insert(page.index());
            },
        }
    }

    /// Searches for another query.
    pub fn set_query(&mut self, query: String)
        requires
            old(self).wf(),
        ensures
            final(self)@ == old(self)@.queried(query@),
            final(self).wf(),
    {
        self.search = Search::derive(query.as_str(), &self.pages.text);
    }

    /// Searches for another query and goes to its first hit; whether that is
    /// on another page.
    pub fn search_for(&mut self, query: String) -> (moved: bool)
        requires
            old(self).wf(),
        ensures
            final(self)@ == old(self)@.searched(query@),
            final(self).wf(),
            moved == old(self)@.queried(query@).leads(old(self)@.queried(query@).first_hit()),
    {
        self.set_query(query);
        if self.search.hits.len() > 0 {
            let page = self.search.hits[0].page;
            self.navigate_to(page)
        } else {
            false
        }
    }

    /// Steps through the table of contents; the row that it led to.
    pub fn outline_step(&mut self, next: bool) -> (r: Option<usize>)
        requires
            old(self).wf(),
        ensures
            final(self)@ == old(self)@.outline_stepped(next),
            final(self).wf(),
            match old(self)@.outline_target(next) {
                Some(i) => r is Some && r->0 == i,
                None => r is None,
            },
    {
        let rows = outline_rows(&self.outline, &self.outline_collapsed);
        match outline_target(&rows, &self.outline_cursor, self.visible, next) {
            Some(i) => {
                assert(row_views(rows@)[i as int] == rows@[i as int]@);
                let path = copy_path(&rows[i].path);
                self.outline_cursor = Some(path);
                Some(i)
            },
            None => None,
        }
    }

    /// The page of the row that the keyboard stands on.
    pub fn outline_cursor_page(&self) -> (r: Option<PageNo>)
        ensures
            r == self@.outline_page(),
    {
        let rows = outline_rows(&self.outline, &self.outline_collapsed);
        outline_cursor_page(&rows, &self.outline_cursor, self.visible)
    }

    /// Folds an entry of the table of contents, or unfolds it.
    pub fn outline_fold(&mut self, path: Vec<usize>)
        requires
            old(self).wf(),
        ensures
            final(self)@ == old(self)@.outline_folded(path@),
            final(self).wf(),
    {
        fold(&mut self.outline_collapsed, &mut self.outline_cursor, path);
    }
}

/// A copy is never written over the document that it is a copy of.
pub proof fn law_original_is_never_overwritten(
    v: ReadyView,
    dest: Seq<char>,
    real_dest: Option<Seq<char>>,
    real_source: Option<Seq<char>>,
)
    ensures
        dest == v.source.place() ==> v.copy_placed(dest, real_dest, real_source).1 is None,
        real_dest is Some && real_dest == real_source ==> v.copy_placed(
            dest,
            real_dest,
            real_source,
        ).1 is None,
{
}

/// While a job is being sent, another one cannot be, and the escape key does
/// not close the dialog.
pub proof fn law_busy_dialog_waits(v: ReadyView)
    requires
        v.print_dialog is Some,
        v.print_dialog->0.busy,
    ensures
        v.submitted() == (v, None::<ActionView>),
        v.print_pdf_asked() == (v, None::<ActionView>),
        v.escaped().print_dialog == v.print_dialog,
{
}

/// A job that is sent leaves the dialog busy, and its answer ends that.
pub proof fn law_answer_ends_busy(v: ReadyView, printer: Seq<char>, result: Result<u64, String>)
    requires
        v.wf(),
        v.submitted().1 is Some,
    ensures
        v.submitted().0.print_dialog is Some,
        v.submitted().0.print_dialog->0.busy,
        match v.submitted().0.print_answered(printer, result).print_dialog {
            Some(d) => !d.busy && result is Err && d.error is Some,
            None => result is Ok,
        },
{
}

/// The number of copies stays among those that can be asked for.
pub proof fn law_copies_stay_allowed(v: ReadyView)
    requires
        v.wf(),
        v.print_dialog is Some,
    ensures
        1 <= v.copies_up().print_dialog->0.copies <= MAX_COPIES,
        1 <= v.copies_down().print_dialog->0.copies <= MAX_COPIES,
{
}

/// A search of pages that come one by one finds what a search of all of them
/// finds.
pub proof fn law_search_takes_late_pages(
    v: ReadyView,
    query: Seq<char>,
    page: PageNo,
    media: MediaBox,
    text: TextLayer,
)
    requires
        v.wf(),
        crate::search::in_place(v.pages.text),
        text.page == page,
        page.0 < v.pages.total,
        crate::text::byte_len(text.plain@) <= usize::MAX,
    ensures
        v.queried(query).page_answered(page, Ok((media, text))).search == v.page_answered(
            page,
            Ok((media, text)),
        ).queried(query).search,
{
    crate::find::law_pages_may_come_late(query, v.pages.text, text);
}

} // verus!
