//! What can happen in the window, and what it does to the document that is
//! shown.

use vstd::prelude::*;

use crate::annot::AnnotKind;
use crate::browse::{FsEntry, Theme};
use crate::cache::RenderKey;
use crate::numbers::trim;
use crate::page::{Coord, MediaBox, Outline, PageNo, PageSurface, Point, Scale, TextLayer, Viewport};
use crate::positions::DocPosition;
use crate::print::{PrintOrientation, PrinterInfo, RangeMode};
use crate::ready::{Ready, ReadyView};
use crate::state::{
    ask, asked, nothing, only, Action, ActionView, Geometry, NavCmd, NoteDraftView, OpenError, OpenSource,
    OutlineKey, ViewMode, Zoom,
};
use crate::text::maybe_text;

verus! {

/// What can happen in the window. What only the outside can work out comes
/// along: distances between the pointer and glyphs, the notes whose marker is
/// under the pointer, what is stored, the geometry of a document.
#[derive(Debug)]
pub enum Message {
    PickFile { chosen: Option<OpenSource> },
    FileDropped { file: String },
    OpenRecent { file: String },
    Opened {
        gen: u64,
        result: Result<Ready, OpenError>,
        stored: Vec<String>,
        left_at: Option<DocPosition>,
    },
    LoadingTick,
    PageData { page: PageNo, doc_gen: u64, read: Result<(MediaBox, TextLayer), String> },
    Close,
    CloseTabActive,
    CloseTab { index: usize },
    SelectTab { index: usize },
    CycleTab { step: i32 },
    Nav { cmd: NavCmd },
    PageInput { text: String },
    PageSubmit,
    SetZoom { zoom: Zoom },
    RotateView,
    SetViewport { viewport: Viewport },
    SearchChanged { query: String },
    PointerDown {
        page: PageNo,
        pt: Point,
        sheet: Point,
        distances: Vec<Coord>,
        markers: Vec<u64>,
    },
    PointerMove { page: PageNo, pt: Point, distances: Vec<Coord> },
    PointerUp { page: PageNo, pt: Point, markers: Vec<u64>, far: bool, drop_at: Point },
    CopySelection,
    Annotate { kind: AnnotKind },
    DragCancelled,
    AnnotUndo,
    AnnotRedo,
    NoteEdit { text: String },
    NoteSave,
    NoteCancel,
    NoteDelete,
    Rendered {
        page: PageNo,
        scale: Scale,
        rotation: u8,
        doc_gen: u64,
        render_gen: u64,
        surface: Option<PageSurface>,
        geometry: Geometry,
    },
    ToggleSignatures,
    TogglePages,
    ToggleOverflow,
    OutlineTab { shown: bool },
    OutlineFold { path: Vec<usize> },
    OutlineLoaded { doc_gen: u64, outline: Option<Outline> },
    OutlineJump { page: PageNo },
    OutlineKey { key: OutlineKey },
    OpenPrintDialog,
    PrintersLoaded { printers: Vec<PrinterInfo> },
    ClosePrintDialog,
    PrintSelectPrinter { index: usize },
    PrintSetRangeMode { mode: RangeMode },
    PrintSetFromInput { text: String },
    PrintSetToInput { text: String },
    PrintCopiesPlus,
    PrintCopiesMinus,
    PrintSetOrientation { orientation: PrintOrientation },
    PrintPreviewPrev,
    PrintPreviewNext,
    PrintSubmit,
    PrintSubmitted { doc_gen: u64, printer: String, sent: Result<u64, String> },
    PrintOpenPdf,
    PrintPdfOpened { doc_gen: u64, written: Result<String, String> },
    PrintNop,
    SaveCopyRequested,
    SaveCopyConfirmed,
    SaveCopyCancelled,
    SaveChosen { dest: String, real_dest: Option<String>, real_source: Option<String> },
    SaveCopyDone { doc_gen: u64, dest: String, saved: Result<(), String>, stored: Vec<String> },
    SetTheme { theme: Theme },
    WindowMetrics { viewport: Viewport },
    /// The density of the window's pixels; `near` if it is that of before.
    WindowScale { density: Coord, near: bool },
    PagesScrolled { y: Coord },
    HistoryBack,
    HistoryForward,
    /// The document was scrolled; `page` is the one at that height.
    DocScrolled { y: Coord, page: PageNo },
    SetViewMode { view_mode: ViewMode },
    BrowseTo { folder: Option<String> },
    ListingReady { folder: Option<String>, listed: Result<Vec<FsEntry>, String> },
    RecentsReady { stored: Vec<String> },
}

/// The action, if there is one.
pub open spec fn if_any(action: Option<ActionView>) -> Seq<ActionView> {
    match action {
        Some(a) => seq![a],
        None => Seq::empty(),
    }
}

/// An action that is asked for only sometimes.
pub open spec fn given(asked: bool, action: ActionView) -> Seq<ActionView> {
    if asked {
        seq![action]
    } else {
        Seq::empty()
    }
}

/// The actions for an action that may be there.
pub fn optional(action: Option<Action>) -> (actions: Vec<Action>)
    ensures
        match action {
            Some(a) => asked(actions@) == seq![a@],
            None => asked(actions@) == Seq::<ActionView>::empty(),
        },
{
    match action {
        Some(a) => only(a),
        None => nothing(),
    }
}

impl ReadyView {
    /// What follows a change of what is shown: the place is stored if it is
    /// another, work is scheduled, and a scrolled document follows.
    pub open spec fn shown_anew(self, save: bool) -> (ReadyView, Seq<ActionView>) {
        (
            self,
            given(save, self.position_action()) + seq![ActionView::Schedule] + self.follow(),
        )
    }

    /// What follows a change that a scrolled document does not follow.
    pub open spec fn worked(self, save: bool) -> (ReadyView, Seq<ActionView>) {
        (self, given(save, self.position_action()) + seq![ActionView::Schedule])
    }

    /// What follows a change that asks for nothing.
    pub open spec fn quiet(self) -> (ReadyView, Seq<ActionView>) {
        (self, Seq::empty())
    }

    pub open spec fn on_nav(self, cmd: NavCmd) -> (ReadyView, Seq<ActionView>) {
        if self.print_dialog is Some {
            self.preview_moved(cmd).shown_anew(false)
        } else {
            self.navigated_to(self.nav_page(cmd)).shown_anew(self.leads(self.nav_page(cmd)))
        }
    }

    pub open spec fn on_zoom(self, zoom: Zoom) -> (ReadyView, Seq<ActionView>) {
        ReadyView { zoom, overflow_open: false, ..self }.bumped().shown_anew(true)
    }

    pub open spec fn on_search(self, query: Seq<char>) -> (ReadyView, Seq<ActionView>) {
        self.searched(query).shown_anew(
            self.queried(query).leads(self.queried(query).first_hit()),
        )
    }

    pub open spec fn on_view_mode(self, view_mode: ViewMode) -> (ReadyView, Seq<ActionView>) {
        ReadyView { view_mode, overflow_open: false, ..self }.shown_anew(true)
    }

    /// The view turned by a quarter, clockwise.
    pub open spec fn turned(self) -> ReadyView {
        ReadyView {
            view_rotation: if self.view_rotation >= 3 {
                0
            } else {
                (self.view_rotation + 1) as u8
            },
            overflow_open: false,
            ..self
        }.bumped()
    }

    pub open spec fn on_scroll(self, y: Coord, page: PageNo) -> (ReadyView, Seq<ActionView>) {
        let v = ReadyView { doc_scroll_y: y, ..self };
        if self.view_mode == ViewMode::Continuous && self.leads_on(page) {
            ReadyView { visible: self.target(page), ..v }.synced().worked(true)
        } else {
            v.worked(false)
        }
    }

    pub open spec fn on_annotate(self, kind: AnnotKind) -> (ReadyView, Seq<ActionView>) {
        let v = ReadyView { overflow_open: false, ..self };
        if kind == AnnotKind::Note {
            (v.draft_opened(), given(v.can_draft(), ActionView::FocusPostit))
        } else if v.selected_lines() is Some {
            ReadyView { selection: None, press_anchor: None, ..v.annotated(kind) }.quiet()
        } else {
            v.quiet()
        }
    }

    pub open spec fn on_note_edit(self, text: Seq<char>) -> ReadyView {
        match self.note_draft {
            Some(draft) => ReadyView {
                note_draft: Some(NoteDraftView { content: text, ..draft }),
                ..self
            },
            None => self,
        }
    }

    pub open spec fn on_toggle_pages(self) -> (ReadyView, Seq<ActionView>) {
        let open = !self.pages_open;
        (
            ReadyView {
                pages_open: open,
                thumbs: if open {
                    self.thumbs
                } else {
                    Seq::empty()
                },
                failed: Set::<RenderKey>::empty(),
                ..self
            },
            seq![ActionView::Schedule] + given(
                open,
                ActionView::ScrollPages { y: self.pages_scroll_y },
            ),
        )
    }

    pub open spec fn on_outline_key(self, key: OutlineKey) -> (ReadyView, Seq<ActionView>) {
        if !self.outline_open || self.outline is None {
            self.quiet()
        } else {
            match key {
                OutlineKey::Prev => self.on_outline_step(false),
                OutlineKey::Next => self.on_outline_step(true),
                OutlineKey::Activate => match self.outline_page() {
                    Some(page) => self.navigated(page).shown_anew(self.leads_on(page)),
                    None => self.quiet(),
                },
            }
        }
    }

    pub open spec fn on_outline_step(self, next: bool) -> (ReadyView, Seq<ActionView>) {
        (
            self.outline_stepped(next),
            match self.outline_target(next) {
                Some(row) => seq![ActionView::ScrollOutline { row: row as usize }],
                None => Seq::empty(),
            },
        )
    }

    /// What a message does that moves through the document.
    pub open spec fn on_reading(self, message: Message) -> (ReadyView, Seq<ActionView>) {
        match message {
            Message::Nav { cmd } => self.on_nav(cmd),
            Message::PageInput { text } => ReadyView { page_input: text@, ..self }.quiet(),
            Message::PageSubmit => self.navigated_to(self.typed_page()).shown_anew(
                self.leads(self.typed_page()),
            ),
            Message::SetZoom { zoom } => self.on_zoom(zoom),
            Message::RotateView => self.turned().shown_anew(false),
            Message::SearchChanged { query } => self.on_search(query@),
            Message::PagesScrolled { y } => ReadyView { pages_scroll_y: y, ..self }.worked(false),
            Message::HistoryBack => self.history_gone(false).shown_anew(
                self.caught_up().can_step(false),
            ),
            Message::HistoryForward => self.history_gone(true).shown_anew(
                self.caught_up().can_step(true),
            ),
            Message::DocScrolled { y, page } => self.on_scroll(y, page),
            Message::SetViewMode { view_mode } => self.on_view_mode(view_mode),
            _ => self.quiet(),
        }
    }

    /// What a message does that comes from the pointer.
    pub open spec fn on_pointing(self, message: Message) -> (ReadyView, Seq<ActionView>) {
        match message {
            Message::PointerDown { page, pt, sheet, distances, markers } => self.pressed(
                page,
                pt,
                sheet,
                distances@,
                markers@,
            ).quiet(),
            Message::PointerMove { page, pt, distances } => self.pointed(
                page,
                pt,
                distances@,
            ).quiet(),
            Message::PointerUp { page, pt, markers, far, drop_at } => (
                self.released(page, pt, markers@, far, drop_at),
                given(
                    self.release_opens(page, pt, markers@, far, drop_at),
                    ActionView::FocusPostit,
                ),
            ),
            Message::CopySelection => (
                ReadyView { overflow_open: false, ..self },
                match self.selected_text() {
                    Some(text) => seq![ActionView::Copy { text }],
                    None => Seq::empty(),
                },
            ),
            Message::DragCancelled => ReadyView {
                press_anchor: None,
                note_drag: None,
                ..self
            }.quiet(),
            _ => self.quiet(),
        }
    }

    /// Whether there is a number left for the mark that a message makes, if it
    /// makes one.
    pub open spec fn room_for(self, message: Message) -> bool {
        match message {
            Message::Annotate { kind } => kind != AnnotKind::Note && self.selected_lines() is Some
                ==> self.room(),
            Message::NoteSave => self.draft_says() ==> self.room(),
            _ => true,
        }
    }

    /// What a message does that marks the text.
    pub open spec fn on_marking(self, message: Message) -> (ReadyView, Seq<ActionView>) {
        match message {
            Message::Annotate { kind } => self.on_annotate(kind),
            Message::AnnotUndo => ReadyView {
                overflow_open: false,
                marks: self.marks.undone(),
                ..self
            }.quiet(),
            Message::AnnotRedo => ReadyView {
                overflow_open: false,
                marks: self.marks.redone(),
                ..self
            }.quiet(),
            Message::NoteEdit { text } => self.on_note_edit(text@).quiet(),
            Message::NoteSave => self.draft_saved().quiet(),
            Message::NoteCancel => ReadyView { note_draft: None, ..self }.quiet(),
            Message::NoteDelete => self.draft_deleted().quiet(),
            _ => self.quiet(),
        }
    }

    /// What a message does that opens and closes panels.
    pub open spec fn on_panels(self, message: Message) -> (ReadyView, Seq<ActionView>) {
        match message {
            Message::ToggleSignatures => ReadyView {
                signatures_open: !self.signatures_open,
                ..self
            }.quiet(),
            Message::TogglePages => self.on_toggle_pages(),
            Message::ToggleOverflow => ReadyView {
                overflow_open: !self.overflow_open,
                ..self
            }.quiet(),
            Message::OutlineTab { shown } => ReadyView {
                outline_open: shown && self.outline is Some,
                ..self
            }.quiet(),
            Message::OutlineFold { path } => self.outline_folded(path@).quiet(),
            Message::OutlineJump { page } => self.navigated(page).shown_anew(self.leads_on(page)),
            Message::OutlineKey { key } => self.on_outline_key(key),
            _ => self.quiet(),
        }
    }

    /// What a message does that fills in the print dialog.
    pub open spec fn on_printing(self, message: Message) -> (ReadyView, Seq<ActionView>) {
        match message {
            Message::OpenPrintDialog => (
                self.dialog_opened(),
                seq![ActionView::ListPrinters, ActionView::Schedule],
            ),
            Message::PrintersLoaded { printers } => self.printers_listed(printers@).quiet(),
            Message::ClosePrintDialog => self.escaped().quiet(),
            Message::PrintSelectPrinter { index } => self.printer_chosen(index).quiet(),
            Message::PrintSetRangeMode { mode } => self.range_mode_set(mode).worked(false),
            Message::PrintSetFromInput { text } => self.from_typed(text@).worked(false),
            Message::PrintSetToInput { text } => self.to_typed(text@).worked(false),
            Message::PrintCopiesPlus => self.copies_up().quiet(),
            Message::PrintCopiesMinus => self.copies_down().quiet(),
            Message::PrintSetOrientation { orientation } => self.orientation_set(
                orientation,
            ).quiet(),
            Message::PrintPreviewPrev => self.preview_moved(NavCmd::Previous).worked(false),
            Message::PrintPreviewNext => self.preview_moved(NavCmd::Next).worked(false),
            _ => self.quiet(),
        }
    }

    /// What a message does that prints or saves.
    pub open spec fn on_sending(self, message: Message) -> (ReadyView, Seq<ActionView>) {
        match message {
            Message::PrintSubmit => (self.submitted().0, if_any(self.submitted().1)),
            Message::PrintOpenPdf => (self.print_pdf_asked().0, if_any(self.print_pdf_asked().1)),
            Message::SaveCopyRequested => (
                self.copy_requested().0,
                if_any(self.copy_requested().1),
            ),
            Message::SaveCopyConfirmed => (
                ReadyView { save_warning: false, ..self },
                seq![self.ask_save()],
            ),
            Message::SaveCopyCancelled => ReadyView { save_warning: false, ..self }.quiet(),
            Message::SaveChosen { dest, real_dest, real_source } => (
                self.copy_placed(dest@, maybe_text(real_dest), maybe_text(real_source)).0,
                if_any(
                    self.copy_placed(dest@, maybe_text(real_dest), maybe_text(real_source)).1,
                ),
            ),
            _ => self.quiet(),
        }
    }

    /// What a message does to the document that is shown, and what it asks
    /// for.
    pub open spec fn handled(self, message: Message) -> (ReadyView, Seq<ActionView>) {
        match message {
            Message::Nav { .. }
            | Message::PageInput { .. }
            | Message::PageSubmit
            | Message::SetZoom { .. }
            | Message::RotateView
            | Message::SearchChanged { .. }
            | Message::PagesScrolled { .. }
            | Message::HistoryBack
            | Message::HistoryForward
            | Message::DocScrolled { .. }
            | Message::SetViewMode { .. } => self.on_reading(message),
            Message::PointerDown { .. }
            | Message::PointerMove { .. }
            | Message::PointerUp { .. }
            | Message::CopySelection
            | Message::DragCancelled => self.on_pointing(message),
            Message::Annotate { .. }
            | Message::AnnotUndo
            | Message::AnnotRedo
            | Message::NoteEdit { .. }
            | Message::NoteSave
            | Message::NoteCancel
            | Message::NoteDelete => self.on_marking(message),
            Message::ToggleSignatures
            | Message::TogglePages
            | Message::ToggleOverflow
            | Message::OutlineTab { .. }
            | Message::OutlineFold { .. }
            | Message::OutlineJump { .. }
            | Message::OutlineKey { .. } => self.on_panels(message),
            Message::OpenPrintDialog
            | Message::PrintersLoaded { .. }
            | Message::ClosePrintDialog
            | Message::PrintSelectPrinter { .. }
            | Message::PrintSetRangeMode { .. }
            | Message::PrintSetFromInput { .. }
            | Message::PrintSetToInput { .. }
            | Message::PrintCopiesPlus
            | Message::PrintCopiesMinus
            | Message::PrintSetOrientation { .. }
            | Message::PrintPreviewPrev
            | Message::PrintPreviewNext => self.on_printing(message),
            Message::PrintSubmit
            | Message::PrintOpenPdf
            | Message::SaveCopyRequested
            | Message::SaveCopyConfirmed
            | Message::SaveCopyCancelled
            | Message::SaveChosen { .. } => self.on_sending(message),
            _ => self.quiet(),
        }
    }
}

impl Ready {
    fn ask_follow(&self, actions: &mut Vec<Action>)
        ensures
            asked(final(actions)@) == asked(old(actions)@) + self@.follow(),
    {
        if self.view_mode == ViewMode::Continuous && self.pages.total > 0 {
            ask(actions, Action::ScrollTo { page: self.visible });
            assert(asked(actions@) =~= asked(old(actions)@) + self@.follow());
        } else {
            assert(asked(actions@) =~= asked(old(actions)@) + self@.follow());
        }
    }

    /// Where a scrolled document is scrolled to.
    pub fn nav_follow(&self) -> (actions: Vec<Action>)
        ensures
            asked(actions@) == self@.follow(),
    {
        let mut actions = nothing();
        self.ask_follow(&mut actions);
        assert(asked(actions@) =~= self@.follow());
        actions
    }

    fn ask_work(&self, save: bool) -> (actions: Vec<Action>)
        ensures
            asked(actions@) == self@.worked(save).1,
    {
        let mut actions = if save {
            only(self.save_position())
        } else {
            nothing()
        };
        ask(&mut actions, Action::Schedule);
        assert(asked(actions@) =~= self@.worked(save).1);
        actions
    }

    fn ask_anew(&self, save: bool) -> (actions: Vec<Action>)
        ensures
            asked(actions@) == self@.shown_anew(save).1,
    {
        let mut actions = self.ask_work(save);
        self.ask_follow(&mut actions);
        assert(asked(actions@) =~= self@.shown_anew(save).1);
        actions
    }

    fn focus(opened: bool) -> (actions: Vec<Action>)
        ensures
            asked(actions@) == given(opened, ActionView::FocusPostit),
    {
        if opened {
            only(Action::FocusPostit)
        } else {
            nothing()
        }
    }

    fn on_nav(&mut self, cmd: NavCmd) -> (actions: Vec<Action>)
        requires
            old(self).wf(),
        ensures
            final(self).wf(),
            (final(self)@, asked(actions@)) == old(self)@.on_nav(cmd),
    {
        if self.print_dialog.is_some() {
            self.move_preview(cmd);
            self.ask_anew(false)
        } else {
            let moved = self.apply_nav(cmd);
            self.ask_anew(moved)
        }
    }

    fn on_scroll(&mut self, y: Coord, page: PageNo) -> (actions: Vec<Action>)
        requires
            old(self).wf(),
        ensures
            final(self).wf(),
            (final(self)@, asked(actions@)) == old(self)@.on_scroll(y, page),
    {
        self.doc_scroll_y = y;
        if self.view_mode == ViewMode::Continuous && self.pages.total > 0 {
            let target: PageNo = if page.index() < self.pages.total {
                page
            } else {
                PageNo::from_index(self.pages.total - 1)
            };
            if target != self.visible {
                self.visible = target;
                self.sync_page_input();
                return self.ask_work(true);
            }
        }
        self.ask_work(false)
    }

    fn on_annotate(&mut self, kind: AnnotKind) -> (actions: Vec<Action>)
        requires
            old(self).wf(),
            old(self)@.room_for(Message::Annotate { kind }),
        ensures
            final(self).wf(),
            (final(self)@, asked(actions@)) == old(self)@.on_annotate(kind),
    {
        self.overflow_open = false;
        if kind == AnnotKind::Note {
            let opened = self.open_note_draft();
            Ready::focus(opened)
        } else {
            if self.annotate_selection(kind) {
                self.selection = None;
                self.press_anchor = None;
            }
            nothing()
        }
    }

    fn on_toggle_pages(&mut self) -> (actions: Vec<Action>)
        requires
            old(self).wf(),
        ensures
            final(self).wf(),
            (final(self)@, asked(actions@)) == old(self)@.on_toggle_pages(),
    {
        self.pages_open = !self.pages_open;
        if !self.pages_open {
            self.thumbs.clear();
        }
        self.failed.clear();
        let mut actions = only(Action::Schedule);
        if self.pages_open {
            ask(&mut actions, Action::ScrollPages { y: self.pages_scroll_y });
        }
        assert(asked(actions@) =~= old(self)@.on_toggle_pages().1);
        actions
    }

    fn on_outline_step(&mut self, next: bool) -> (actions: Vec<Action>)
        requires
            old(self).wf(),
        ensures
            final(self).wf(),
            (final(self)@, asked(actions@)) == old(self)@.on_outline_step(next),
    {
        match self.outline_step(next) {
            Some(row) => only(Action::ScrollOutline { row }),
            None => nothing(),
        }
    }

    fn on_outline_jump(&mut self, page: PageNo) -> (actions: Vec<Action>)
        requires
            old(self).wf(),
        ensures
            final(self).wf(),
            (final(self)@, asked(actions@)) == old(self)@.navigated(page).shown_anew(
                old(self)@.leads_on(page),
            ),
    {
        let moved = self.navigate_to(page);
        self.ask_anew(moved)
    }

    fn on_outline_key(&mut self, key: OutlineKey) -> (actions: Vec<Action>)
        requires
            old(self).wf(),
        ensures
            final(self).wf(),
            (final(self)@, asked(actions@)) == old(self)@.on_outline_key(key),
    {
        if !self.outline_open || self.outline.is_none() {
            return nothing();
        }
        match key {
            OutlineKey::Prev => self.on_outline_step(false),
            OutlineKey::Next => self.on_outline_step(true),
            OutlineKey::Activate => match self.outline_cursor_page() {
                Some(page) => self.on_outline_jump(page),
                None => nothing(),
            },
        }
    }

    fn on_rotate(&mut self) -> (actions: Vec<Action>)
        requires
            old(self).wf(),
        ensures
            final(self).wf(),
            (final(self)@, asked(actions@)) == old(self)@.turned().shown_anew(false),
    {
        self.view_rotation = if self.view_rotation >= 3 {
            0
        } else {
            self.view_rotation + 1
        };
        self.overflow_open = false;
        self.bump_render_gen();
        self.ask_anew(false)
    }

    fn on_copy(&mut self) -> (actions: Vec<Action>)
        requires
            old(self).wf(),
        ensures
            final(self).wf(),
            (final(self)@, asked(actions@)) == old(self)@.on_pointing(Message::CopySelection),
    {
        self.overflow_open = false;
        match self.selection_plain_text() {
            Some(text) => only(Action::Copy { text }),
            None => nothing(),
        }
    }

    fn on_history(&mut self, forward: bool) -> (actions: Vec<Action>)
        requires
            old(self).wf(),
        ensures
            final(self).wf(),
            (final(self)@, asked(actions@)) == old(self)@.history_gone(forward).shown_anew(
                old(self)@.caught_up().can_step(forward),
            ),
    {
        let moved = self.history_go(forward);
        self.ask_anew(moved)
    }

    fn on_undo(&mut self) -> (actions: Vec<Action>)
        requires
            old(self).wf(),
        ensures
            final(self).wf(),
            (final(self)@, asked(actions@)) == old(self)@.on_marking(Message::AnnotUndo),
    {
        self.overflow_open = false;
        self.annot_undo_once();
        nothing()
    }

    fn on_redo(&mut self) -> (actions: Vec<Action>)
        requires
            old(self).wf(),
        ensures
            final(self).wf(),
            (final(self)@, asked(actions@)) == old(self)@.on_marking(Message::AnnotRedo),
    {
        self.overflow_open = false;
        self.annot_redo_once();
        nothing()
    }

    fn on_note_edit(&mut self, text: String)
        requires
            old(self).wf(),
        ensures
            final(self).wf(),
            final(self)@ == old(self)@.on_note_edit(text@),
    {
        if let Some(draft) = &mut self.note_draft {
            draft.content = text;
        }
    }

    fn on_open_dialog(&mut self) -> (actions: Vec<Action>)
        requires
            old(self).wf(),
        ensures
            final(self).wf(),
            (final(self)@, asked(actions@)) == old(self)@.on_printing(Message::OpenPrintDialog),
    {
        self.open_print_dialog();
        let mut actions = only(Action::ListPrinters);
        ask(&mut actions, Action::Schedule);
        assert(asked(actions@) =~= seq![ActionView::ListPrinters, ActionView::Schedule]);
        actions
    }

    fn on_submit(&mut self) -> (actions: Vec<Action>)
        requires
            old(self).wf(),
        ensures
            final(self).wf(),
            (final(self)@, asked(actions@)) == old(self)@.on_reading(Message::PageSubmit),
    {
        let moved = self.submit_page_input();
        self.ask_anew(moved)
    }

    fn on_zoom(&mut self, zoom: Zoom) -> (actions: Vec<Action>)
        requires
            old(self).wf(),
        ensures
            final(self).wf(),
            (final(self)@, asked(actions@)) == old(self)@.on_zoom(zoom),
    {
        self.zoom = zoom;
        self.overflow_open = false;
        self.bump_render_gen();
        self.ask_anew(true)
    }

    fn on_search(&mut self, query: String) -> (actions: Vec<Action>)
        requires
            old(self).wf(),
        ensures
            final(self).wf(),
            (final(self)@, asked(actions@)) == old(self)@.on_search(query@),
    {
        let moved = self.search_for(query);
        self.ask_anew(moved)
    }

    fn on_view_mode(&mut self, view_mode: ViewMode) -> (actions: Vec<Action>)
        requires
            old(self).wf(),
        ensures
            final(self).wf(),
            (final(self)@, asked(actions@)) == old(self)@.on_view_mode(view_mode),
    {
        self.view_mode = view_mode;
        self.overflow_open = false;
        self.ask_anew(true)
    }

    fn on_pages_scroll(&mut self, y: Coord) -> (actions: Vec<Action>)
        requires
            old(self).wf(),
        ensures
            final(self).wf(),
            (final(self)@, asked(actions@)) == (ReadyView {
                pages_scroll_y: y,
                ..old(self)@
            }).worked(false),
    {
        self.pages_scroll_y = y;
        self.ask_work(false)
    }

    fn handle_reading(&mut self, message: Message) -> (actions: Vec<Action>)
        requires
            old(self).wf(),
        ensures
            final(self).wf(),
            (final(self)@, asked(actions@)) == old(self)@.on_reading(message),
    {
        match message {
            Message::Nav { cmd } => self.on_nav(cmd),
            Message::PageInput { text } => {
                self.page_input = text;
                nothing()
            },
            Message::PageSubmit => self.on_submit(),
            Message::SetZoom { zoom } => self.on_zoom(zoom),
            Message::RotateView => self.on_rotate(),
            Message::SearchChanged { query } => self.on_search(query),
            Message::PagesScrolled { y } => self.on_pages_scroll(y),
            Message::HistoryBack => self.on_history(false),
            Message::HistoryForward => self.on_history(true),
            Message::DocScrolled { y, page } => self.on_scroll(y, page),
            Message::SetViewMode { view_mode } => self.on_view_mode(view_mode),
            _ => nothing(),
        }
    }

    fn handle_pointing(&mut self, message: Message) -> (actions: Vec<Action>)
        requires
            old(self).wf(),
        ensures
            final(self).wf(),
            (final(self)@, asked(actions@)) == old(self)@.on_pointing(message),
    {
        match message {
            Message::PointerDown { page, pt, sheet, distances, markers } => {
                self.pointer_down(page, pt, sheet, &distances, &markers);
                nothing()
            },
            Message::PointerMove { page, pt, distances } => {
                self.pointer_move(page, pt, &distances);
                nothing()
            },
            Message::PointerUp { page, pt, markers, far, drop_at } => {
                let opened = self.pointer_up(page, pt, &markers, far, drop_at);
                Ready::focus(opened)
            },
            Message::CopySelection => self.on_copy(),
            Message::DragCancelled => {
                self.press_anchor = None;
                self.note_drag = None;
                nothing()
            },
            _ => nothing(),
        }
    }

    fn handle_marking(&mut self, message: Message) -> (actions: Vec<Action>)
        requires
            old(self).wf(),
            old(self)@.room_for(message),
        ensures
            final(self).wf(),
            (final(self)@, asked(actions@)) == old(self)@.on_marking(message),
    {
        match message {
            Message::Annotate { kind } => self.on_annotate(kind),
            Message::AnnotUndo => self.on_undo(),
            Message::AnnotRedo => self.on_redo(),
            Message::NoteEdit { text } => {
                self.on_note_edit(text);
                nothing()
            },
            Message::NoteSave => {
                self.save_note_draft();
                nothing()
            },
            Message::NoteCancel => {
                self.note_draft = None;
                nothing()
            },
            Message::NoteDelete => {
                self.delete_draft_note();
                nothing()
            },
            _ => nothing(),
        }
    }

    fn handle_panels(&mut self, message: Message) -> (actions: Vec<Action>)
        requires
            old(self).wf(),
        ensures
            final(self).wf(),
            (final(self)@, asked(actions@)) == old(self)@.on_panels(message),
    {
        match message {
            Message::ToggleSignatures => {
                self.signatures_open = !self.signatures_open;
                nothing()
            },
            Message::TogglePages => self.on_toggle_pages(),
            Message::ToggleOverflow => {
                self.overflow_open = !self.overflow_open;
                nothing()
            },
            Message::OutlineTab { shown } => {
                self.outline_open = shown && self.outline.is_some();
                nothing()
            },
            Message::OutlineFold { path } => {
                self.outline_fold(path);
                nothing()
            },
            Message::OutlineJump { page } => self.on_outline_jump(page),
            Message::OutlineKey { key } => self.on_outline_key(key),
            _ => nothing(),
        }
    }

    fn handle_printing(&mut self, message: Message) -> (actions: Vec<Action>)
        requires
            old(self).wf(),
        ensures
            final(self).wf(),
            (final(self)@, asked(actions@)) == old(self)@.on_printing(message),
    {
        match message {
            Message::OpenPrintDialog => self.on_open_dialog(),
            Message::PrintersLoaded { printers } => {
                self.list_printers(printers);
                nothing()
            },
            Message::ClosePrintDialog => {
                self.escape();
                nothing()
            },
            Message::PrintSelectPrinter { index } => {
                self.choose_printer(index);
                nothing()
            },
            Message::PrintSetRangeMode { mode } => {
                self.set_range_mode(mode);
                self.ask_work(false)
            },
            Message::PrintSetFromInput { text } => {
                self.set_from_input(text);
                self.ask_work(false)
            },
            Message::PrintSetToInput { text } => {
                self.set_to_input(text);
                self.ask_work(false)
            },
            Message::PrintCopiesPlus => {
                self.more_copies();
                nothing()
            },
            Message::PrintCopiesMinus => {
                self.fewer_copies();
                nothing()
            },
            Message::PrintSetOrientation { orientation } => {
                self.set_orientation(orientation);
                nothing()
            },
            Message::PrintPreviewPrev => {
                self.move_preview(NavCmd::Previous);
                self.ask_work(false)
            },
            Message::PrintPreviewNext => {
                self.move_preview(NavCmd::Next);
                self.ask_work(false)
            },
            _ => nothing(),
        }
    }

    fn handle_sending(&mut self, message: Message) -> (actions: Vec<Action>)
        requires
            old(self).wf(),
        ensures
            final(self).wf(),
            (final(self)@, asked(actions@)) == old(self)@.on_sending(message),
    {
        match message {
            Message::PrintSubmit => {
                let action = self.submit_print();
                optional(action)
            },
            Message::PrintOpenPdf => {
                let action = self.ask_print_pdf();
                optional(action)
            },
            Message::SaveCopyRequested => {
                let action = self.request_copy();
                optional(action)
            },
            Message::SaveCopyConfirmed => {
                let action = self.confirm_copy();
                only(action)
            },
            Message::SaveCopyCancelled => {
                self.save_warning = false;
                nothing()
            },
            Message::SaveChosen { dest, real_dest, real_source } => {
                let action = self.place_copy(dest, real_dest, real_source);
                optional(action)
            },
            _ => nothing(),
        }
    }

    /// Whether there is a number left for the mark that a message makes, if it
    /// makes one.
    pub fn has_room_for(&self, message: &Message) -> (r: bool)
        ensures
            r == self@.room_for(*message),
    {
        let numbered = self.marks.next_annot_id < u64::MAX;
        match message {
            Message::Annotate { kind } => numbered || *kind == AnnotKind::Note
                || self.selection_quads().is_none(),
            Message::NoteSave => numbered || match &self.note_draft {
                Some(draft) => trim(draft.content.as_str()).as_str().is_empty(),
                None => true,
            },
            _ => true,
        }
    }

    /// A message to the document that is shown.
    pub fn handle(&mut self, message: Message) -> (actions: Vec<Action>)
        requires
            old(self).wf(),
            old(self)@.room_for(message),
        ensures
            final(self).wf(),
            (final(self)@, asked(actions@)) == old(self)@.handled(message),
    {
        match message {
            Message::Nav { .. }
            | Message::PageInput { .. }
            | Message::PageSubmit
            | Message::SetZoom { .. }
            | Message::RotateView
            | Message::SearchChanged { .. }
            | Message::PagesScrolled { .. }
            | Message::HistoryBack
            | Message::HistoryForward
            | Message::DocScrolled { .. }
            | Message::SetViewMode { .. } => self.handle_reading(message),
            Message::PointerDown { .. }
            | Message::PointerMove { .. }
            | Message::PointerUp { .. }
            | Message::CopySelection
            | Message::DragCancelled => self.handle_pointing(message),
            Message::Annotate { .. }
            | Message::AnnotUndo
            | Message::AnnotRedo
            | Message::NoteEdit { .. }
            | Message::NoteSave
            | Message::NoteCancel
            | Message::NoteDelete => self.handle_marking(message),
            Message::ToggleSignatures
            | Message::TogglePages
            | Message::ToggleOverflow
            | Message::OutlineTab { .. }
            | Message::OutlineFold { .. }
            | Message::OutlineJump { .. }
            | Message::OutlineKey { .. } => self.handle_panels(message),
            Message::OpenPrintDialog
            | Message::PrintersLoaded { .. }
            | Message::ClosePrintDialog
            | Message::PrintSelectPrinter { .. }
            | Message::PrintSetRangeMode { .. }
            | Message::PrintSetFromInput { .. }
            | Message::PrintSetToInput { .. }
            | Message::PrintCopiesPlus
            | Message::PrintCopiesMinus
            | Message::PrintSetOrientation { .. }
            | Message::PrintPreviewPrev
            | Message::PrintPreviewNext => self.handle_printing(message),
            Message::PrintSubmit
            | Message::PrintOpenPdf
            | Message::SaveCopyRequested
            | Message::SaveCopyConfirmed
            | Message::SaveCopyCancelled
            | Message::SaveChosen { .. } => self.handle_sending(message),
            _ => nothing(),
        }
    }
}

/// Whether two states are of one document in one window: the same file, the
/// same generation, the same looks.
pub open spec fn same_document(a: ReadyView, b: ReadyView) -> bool {
    &&& a.source == b.source
    &&& a.engine == b.engine
    &&& a.pages == b.pages
    &&& a.signatures == b.signatures
    &&& a.outline == b.outline
    &&& a.theme == b.theme
    &&& a.recents == b.recents
    &&& a.render_scale == b.render_scale
    &&& a.viewport == b.viewport
    &&& a.open_gen == b.open_gen
}

proof fn lemma_reading_keeps(v: ReadyView, message: Message)
    ensures
        same_document(v, v.on_reading(message).0),
{
}

proof fn lemma_pointing_keeps(v: ReadyView, message: Message)
    ensures
        same_document(v, v.on_pointing(message).0),
{
    match message {
        Message::PointerUp { page, pt, markers, far, drop_at } => {
            let w = v.drag_ended(far, drop_at);
            assert(same_document(v, w));
            assert(same_document(w, w.click_ended(page, pt, markers@)));
        },
        _ => {},
    }
}

proof fn lemma_marking_keeps(v: ReadyView, message: Message)
    ensures
        same_document(v, v.on_marking(message).0),
{
}

proof fn lemma_panels_keeps(v: ReadyView, message: Message)
    ensures
        same_document(v, v.on_panels(message).0),
{
}

proof fn lemma_printing_keeps(v: ReadyView, message: Message)
    ensures
        same_document(v, v.on_printing(message).0),
{
}

proof fn lemma_sending_keeps(v: ReadyView, message: Message)
    ensures
        same_document(v, v.on_sending(message).0),
{
}

/// Where the pages stand below one another, whatever leads to another page
/// scrolls to it: a page that is named, a way through the history, an entry of
/// the table of contents, a hit.
pub proof fn law_scrolled_document_follows(v: ReadyView, message: Message)
    requires
        v.view_mode == ViewMode::Continuous,
        v.pages.total > 0,
        v.handled(message).0.visible != v.visible,
        !(message is DocScrolled),
    ensures
        v.handled(message).1.contains(
            ActionView::ScrollTo { page: v.handled(message).0.visible },
        ),
{
    let after = v.handled(message);
    lemma_reading_follows(v, message);
    lemma_pointing_follows(v, message);
    lemma_marking_follows(v, message);
    lemma_panels_follows(v, message);
    lemma_printing_follows(v, message);
    lemma_sending_follows(v, message);
    assert(after.1.last() == ActionView::ScrollTo { page: after.0.visible });
}

/// Where the pages stand below one another, another zoom, another side up and
/// the change to this mode scroll to the page that is read.
pub proof fn law_scrolled_document_stays_in_place(v: ReadyView, message: Message)
    requires
        message is SetZoom || message is RotateView || message is SetViewMode,
        v.handled(message).0.view_mode == ViewMode::Continuous,
        v.pages.total > 0,
    ensures
        v.handled(message).0.visible == v.visible,
        v.handled(message).1.contains(ActionView::ScrollTo { page: v.visible }),
{
    let after = v.on_reading(message);
    assert(v.handled(message) == after);
    assert(after.1.last() == (ActionView::ScrollTo { page: v.visible }));
}

/// Whether what became of a message scrolls to the page that it leads to.
spec fn follows(v: ReadyView, after: (ReadyView, Seq<ActionView>)) -> bool {
    v.view_mode == ViewMode::Continuous && v.pages.total > 0 && after.0.visible != v.visible ==> {
        &&& after.1.len() > 0
        &&& after.1.last() == (ActionView::ScrollTo { page: after.0.visible })
    }
}

proof fn lemma_reading_follows(v: ReadyView, message: Message)
    requires
        !(message is DocScrolled),
    ensures
        follows(v, v.on_reading(message)),
{
}

proof fn lemma_pointing_follows(v: ReadyView, message: Message)
    requires
        !(message is DocScrolled),
    ensures
        follows(v, v.on_pointing(message)),
{
    match message {
        Message::PointerUp { page, pt, markers, far, drop_at } => {
            let w = v.drag_ended(far, drop_at);
            assert(w.visible == v.visible);
            assert(w.click_ended(page, pt, markers@).visible == w.visible);
        },
        _ => {},
    }
}

proof fn lemma_marking_follows(v: ReadyView, message: Message)
    requires
        !(message is DocScrolled),
    ensures
        follows(v, v.on_marking(message)),
{
}

proof fn lemma_panels_follows(v: ReadyView, message: Message)
    requires
        !(message is DocScrolled),
    ensures
        follows(v, v.on_panels(message)),
{
}

proof fn lemma_printing_follows(v: ReadyView, message: Message)
    requires
        !(message is DocScrolled),
    ensures
        follows(v, v.on_printing(message)),
{
}

proof fn lemma_sending_follows(v: ReadyView, message: Message)
    requires
        !(message is DocScrolled),
    ensures
        follows(v, v.on_sending(message)),
{
}

/// No message to the document that is shown turns it into another document.
pub proof fn law_messages_keep_document(v: ReadyView, message: Message)
    ensures
        same_document(v, v.handled(message).0),
{
    lemma_reading_keeps(v, message);
    lemma_pointing_keeps(v, message);
    lemma_marking_keeps(v, message);
    lemma_panels_keeps(v, message);
    lemma_printing_keeps(v, message);
    lemma_sending_keeps(v, message);
}

} // verus!
