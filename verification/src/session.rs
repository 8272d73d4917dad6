//! A window: without a document, while one is being read, with documents, or
//! with one that did not open; and what every message does to it.

use vstd::prelude::*;

use crate::browse::{
    copy_texts, drop_recent, known, merge_recents, merged, push_recent, texts, to_front,
    without_path, EmptyState, EmptyView, FsEntry, Theme,
};
use crate::history::HistoryView;
use crate::messages::{given, if_any, law_messages_keep_document, optional, Message};
use crate::native::{display, displayed};
use crate::page::{Coord, PageNo, Point, Viewport, FOUR, ONE};
use crate::paths::{is_pdf, is_same_place, pdf_name, same_place};
use crate::positions::{law_recorded_is_found, left_at, recorded, same_time, DocPosition};
use crate::ready::{following_gen, next_gen, Ready, ReadyView};
use crate::state::{
    ask, asked, nothing, only, Action, ActionView, Geometry, NoteDraftView, OpenError, OpenSource,
    ViewMode,
};
use crate::tabs::{docs_of, lemma_gen_upto, same_window, Tabs, TabsView};
use crate::text::{joined, maybe_text, push_text};

verus! {

/// A window.
#[derive(Debug)]
pub enum Session {
    Empty(EmptyState),
    Loading {
        source: OpenSource,
        recents: Vec<String>,
        gen: u64,
        theme: Theme,
        render_scale: Coord,
        /// Counts while a document is being read.
        phase: u16,
    },
    Ready(Tabs),
    Failed {
        source: OpenSource,
        message: String,
        recents: Vec<String>,
        gen: u64,
        theme: Theme,
        render_scale: Coord,
    },
}

/// Whether two folders are the same, the place above all folders included.
pub open spec fn same_folder(a: Option<Seq<char>>, b: Option<Seq<char>>) -> bool {
    match (a, b) {
        (Some(x), Some(y)) => same_place(x, y),
        (None, None) => true,
        _ => false,
    }
}

/// What a window holds.
pub enum SessionView {
    Empty(EmptyView),
    Loading {
        source: OpenSource,
        recents: Seq<Seq<char>>,
        gen: u64,
        theme: Theme,
        render_scale: Coord,
        phase: u16,
    },
    Ready(TabsView),
    Failed {
        source: OpenSource,
        message: Seq<char>,
        recents: Seq<Seq<char>>,
        gen: u64,
        theme: Theme,
        render_scale: Coord,
    },
}

impl View for Session {
    type V = SessionView;

    open spec fn view(&self) -> SessionView {
        match self {
            Session::Empty(empty) => SessionView::Empty(empty@),
            Session::Loading { source, recents, gen, theme, render_scale, phase } => SessionView::Loading {
                source: *source,
                recents: texts(recents@),
                gen: *gen,
                theme: *theme,
                render_scale: *render_scale,
                phase: *phase,
            },
            Session::Ready(tabs) => SessionView::Ready(tabs@),
            Session::Failed { source, message, recents, gen, theme, render_scale } => SessionView::Failed {
                source: *source,
                message: message@,
                recents: texts(recents@),
                gen: *gen,
                theme: *theme,
                render_scale: *render_scale,
            },
        }
    }
}

/// What an answer does to the document that asked for it.
pub open spec fn answered(v: ReadyView, message: Message) -> (ReadyView, Seq<ActionView>) {
    match message {
        Message::PageData { page, doc_gen, read } => v.page_answered(page, read).worked(false),
        Message::Rendered { page, scale, rotation, doc_gen, render_gen, surface, geometry } => v.rendered(
            page,
            scale,
            rotation,
            render_gen,
            surface,
            geometry,
        ).worked(false),
        Message::OutlineLoaded { doc_gen, outline } => ReadyView { outline, ..v }.worked(false),
        Message::PrintSubmitted { doc_gen, printer, sent } => v.print_answered(
            printer@,
            sent,
        ).quiet(),
        Message::PrintPdfOpened { doc_gen, written } => v.print_pdf_answered(written).quiet(),
        Message::SaveCopyDone { doc_gen, dest, saved, stored } => (
            v.copy_answered(dest@, saved, texts(stored@)).0,
            if_any(v.copy_answered(dest@, saved, texts(stored@)).1),
        ),
        _ => v.quiet(),
    }
}

/// A document that was read, as it enters the window.
pub open spec fn entered(
    v: ReadyView,
    recents: Seq<Seq<char>>,
    theme: Theme,
    render_scale: Coord,
    gen: u64,
    left_at: Option<DocPosition>,
) -> ReadyView {
    ReadyView {
        render_gen: 1,
        ..ReadyView {
            recents,
            theme,
            render_scale,
            open_gen: gen,
            signatures_open: false,
            pages_open: false,
            outline_open: false,
            outline: None,
            outline_collapsed: Set::empty(),
            outline_cursor: None,
            outline_load_issued: false,
            pages_scroll_y: Coord(0),
            overflow_open: false,
            ..v
        }.restored(left_at).synced()
    }
}

/// Whether a message has a document read.
pub open spec fn opens(message: Message) -> bool {
    match message {
        Message::PickFile { chosen } => chosen is Some,
        Message::FileDropped { file } => pdf_name(file@),
        Message::OpenRecent { file } => pdf_name(file@),
        _ => false,
    }
}

/// The request to take a document to where it was left, if it is scrolled.
pub open spec fn align(v: ReadyView, left_at: Option<DocPosition>) -> Seq<ActionView> {
    given(
        left_at is Some && left_at->0.mode == ViewMode::Continuous,
        ActionView::Align { viewport: v.viewport },
    )
}

/// The requests to let go of the first `n` documents.
pub open spec fn let_go(docs: Seq<ReadyView>, n: int) -> Seq<ActionView>
    decreases n,
{
    if n <= 0 {
        Seq::empty()
    } else {
        let_go(docs, n - 1).push(ActionView::CloseEngine { engine: docs[n - 1].engine })
    }
}

/// What a window without a document looks up at first.
pub open spec fn empty_actions() -> Seq<ActionView> {
    seq![ActionView::LoadRecents, ActionView::List { path: None }]
}

impl SessionView {
    pub open spec fn wf(self) -> bool {
        match self {
            SessionView::Ready(tabs) => tabs.wf(),
            _ => true,
        }
    }

    /// Whether there is a generation left for one more document beside others.
    pub open spec fn room(self) -> bool {
        match self {
            SessionView::Ready(tabs) => tabs.max_gen() < u64::MAX,
            _ => true,
        }
    }

    /// Whether there are numbers left for what a message asks for: a generation
    /// for a document, a number for a mark; and whether the tabs that it goes
    /// round can be counted.
    pub open spec fn room_for(self, message: Message) -> bool {
        match self {
            SessionView::Ready(tabs) => {
                &&& opens(message) ==> self.room()
                &&& message is CycleTab ==> tabs.docs.len() <= i32::MAX
                &&& tabs.shown().room_for(message)
            },
            _ => true,
        }
    }

    pub open spec fn recents(self) -> Seq<Seq<char>> {
        match self {
            SessionView::Empty(empty) => empty.recents,
            SessionView::Loading { recents, .. } => recents,
            SessionView::Failed { recents, .. } => recents,
            SessionView::Ready(tabs) => tabs.shown().recents,
        }
    }

    pub open spec fn theme(self) -> Theme {
        match self {
            SessionView::Empty(empty) => empty.theme,
            SessionView::Loading { theme, .. } => theme,
            SessionView::Failed { theme, .. } => theme,
            SessionView::Ready(tabs) => tabs.shown().theme,
        }
    }

    pub open spec fn render_scale(self) -> Coord {
        match self {
            SessionView::Empty(empty) => empty.render_scale,
            SessionView::Loading { render_scale, .. } => render_scale,
            SessionView::Failed { render_scale, .. } => render_scale,
            SessionView::Ready(tabs) => tabs.shown().render_scale,
        }
    }

    /// The highest generation that was given out.
    pub open spec fn open_gen(self) -> u64 {
        match self {
            SessionView::Empty(empty) => empty.open_gen,
            SessionView::Loading { gen, .. } => gen,
            SessionView::Failed { gen, .. } => gen,
            SessionView::Ready(tabs) => tabs.max_gen(),
        }
    }

    /// The generation of the document that is being read.
    pub open spec fn loading_gen(self) -> Option<u64> {
        match self {
            SessionView::Loading { gen, .. } => Some(gen),
            SessionView::Ready(tabs) => match tabs.pending {
                Some((gen, _)) => Some(gen),
                None => None,
            },
            _ => None,
        }
    }

    /// What every window asks for once something else is shown in it.
    pub open spec fn show(self) -> Seq<ActionView> {
        match self {
            SessionView::Ready(tabs) => seq![ActionView::Schedule] + tabs.shown().follow(),
            _ => Seq::empty(),
        }
    }

    /// A document that is being read: beside those that are there, or in the
    /// whole window.
    pub open spec fn open_begun(self, source: OpenSource) -> (SessionView, Seq<ActionView>) {
        let gen = next_gen(self.open_gen());
        (
            match self {
                SessionView::Ready(tabs) => SessionView::Ready(
                    TabsView {
                        pending: Some((gen, source)),
                        open_error: None,
                        last_gen: gen,
                        ..tabs
                    },
                ),
                _ => SessionView::Loading {
                    source,
                    recents: self.recents(),
                    gen,
                    theme: self.theme(),
                    render_scale: self.render_scale(),
                    phase: 0,
                },
            },
            seq![ActionView::Open { source, gen }],
        )
    }

    /// The recent documents, those that were stored included.
    pub open spec fn known(self, stored: Seq<Seq<char>>) -> Seq<Seq<char>> {
        merged(self.recents(), stored, stored.len() as int)
    }

    /// A document that was read.
    pub open spec fn open_succeeded(
        self,
        gen: u64,
        v: ReadyView,
        stored: Seq<Seq<char>>,
        left_at: Option<DocPosition>,
    ) -> (SessionView, Seq<ActionView>) {
        let recents = to_front(self.known(stored), v.source.place());
        let doc = entered(v, recents, self.theme(), self.render_scale(), gen, left_at);
        let saved = seq![ActionView::SaveRecents { recents }] + align(v, left_at);
        match self {
            SessionView::Ready(tabs) => (
                SessionView::Ready(tabs.with_recents(recents).pushed(doc)),
                saved + given(tabs.docs.len() == 1, ActionView::Strip { shown: true }),
            ),
            _ => (SessionView::Ready(TabsView::single(doc)), saved),
        }
    }

    /// A document that could not be read: the documents that are there stay,
    /// and without any the window says why.
    pub open spec fn open_failed(self, gen: u64, error: OpenError, stored: Seq<Seq<char>>) -> (
        SessionView,
        Seq<ActionView>,
    ) {
        match self {
            SessionView::Ready(tabs) => (
                SessionView::Ready(
                    TabsView {
                        pending: None,
                        open_error: Some(
                            "Falha ao abrir "@ + (match tabs.pending {
                                Some((_, source)) => displayed(source.place()),
                                None => Seq::empty(),
                            }) + ": "@ + error.words(),
                        ),
                        ..tabs
                    },
                ),
                Seq::empty(),
            ),
            SessionView::Loading { source, .. } => {
                let recents = if error is Io {
                    without_path(self.known(stored), source.place())
                } else {
                    self.known(stored)
                };
                (
                    SessionView::Failed {
                        source,
                        message: error.words(),
                        recents,
                        gen,
                        theme: self.theme(),
                        render_scale: self.render_scale(),
                    },
                    seq![ActionView::SaveRecents { recents }],
                )
            },
            _ => (self, Seq::empty()),
        }
    }

    /// What became of a document that was being read. One that is not waited
    /// for any more is let go of.
    pub open spec fn open_applied(
        self,
        gen: u64,
        result: Result<Ready, OpenError>,
        stored: Seq<Seq<char>>,
        left_at: Option<DocPosition>,
    ) -> (SessionView, Seq<ActionView>) {
        if self.loading_gen() != Some(gen) {
            (
                self,
                match result {
                    Ok(ready) => seq![ActionView::CloseEngine { engine: ready.engine }],
                    Err(_) => Seq::empty(),
                },
            )
        } else {
            match result {
                Ok(ready) => self.open_succeeded(gen, ready@, stored, left_at),
                Err(error) => self.open_failed(gen, error, stored),
            }
        }
    }

    pub open spec fn on_opened(
        self,
        gen: u64,
        result: Result<Ready, OpenError>,
        stored: Seq<Seq<char>>,
        left_at: Option<DocPosition>,
    ) -> (SessionView, Seq<ActionView>) {
        let after = self.open_applied(gen, result, stored, left_at);
        (after.0, after.1 + after.0.show())
    }

    /// The window without a document again. Looks, density and generations
    /// stay.
    pub open spec fn closed(self) -> (SessionView, Seq<ActionView>) {
        (
            SessionView::Empty(
                EmptyView::start(
                    self.recents(),
                    self.theme(),
                    self.open_gen(),
                    self.render_scale(),
                ),
            ),
            (match self {
                SessionView::Ready(tabs) => let_go(tabs.docs, tabs.docs.len() as int),
                _ => Seq::empty(),
            }) + empty_actions(),
        )
    }

    /// Whether a dialog, a note or a warning keeps the tabs from changing.
    pub open spec fn modal(self) -> bool {
        match self {
            SessionView::Ready(tabs) => tabs.shown().print_dialog is Some
                || tabs.shown().note_draft is Some || tabs.shown().save_warning,
            _ => false,
        }
    }

    pub open spec fn tab_closed(self, index: int) -> (SessionView, Seq<ActionView>) {
        match self {
            SessionView::Ready(tabs) => if self.modal() {
                (self, Seq::empty())
            } else if tabs.docs.len() == 1 {
                self.closed()
            } else if index >= tabs.docs.len() {
                (self, Seq::empty())
            } else {
                let after = SessionView::Ready(tabs.removed(index));
                (
                    after,
                    seq![ActionView::CloseEngine { engine: tabs.docs[index].engine }] + given(
                        tabs.docs.len() == 2,
                        ActionView::Strip { shown: false },
                    ) + after.show(),
                )
            },
            _ => (self, Seq::empty()),
        }
    }

    pub open spec fn tab_selected(self, index: int) -> (SessionView, Seq<ActionView>) {
        match self {
            SessionView::Ready(tabs) => if self.modal() {
                (self, Seq::empty())
            } else {
                let after = SessionView::Ready(tabs.selected(index));
                (after, after.show())
            },
            _ => (self, Seq::empty()),
        }
    }

    pub open spec fn tab_cycled(self, step: int) -> (SessionView, Seq<ActionView>) {
        match self {
            SessionView::Ready(tabs) => if self.modal() || tabs.docs.len() < 2 {
                (self, Seq::empty())
            } else {
                let after = SessionView::Ready(tabs.cycled(step));
                (after, after.show())
            },
            _ => (self, Seq::empty()),
        }
    }

    /// A window of another size: every document is told.
    pub open spec fn resized(self, viewport: Viewport) -> (SessionView, Seq<ActionView>) {
        match self {
            SessionView::Ready(tabs) => {
                let all = tabs.with_viewport(viewport);
                let after = SessionView::Ready(all.with_doc(all.active, all.shown().bumped()));
                (after, after.show() + seq![ActionView::QueryScale])
            },
            _ => (self, seq![ActionView::QueryScale]),
        }
    }

    pub open spec fn with_render_scale(self, scale: Coord) -> SessionView {
        match self {
            SessionView::Empty(empty) => SessionView::Empty(
                EmptyView { render_scale: scale, ..empty },
            ),
            SessionView::Loading { source, recents, gen, theme, phase, .. } => SessionView::Loading {
                source,
                recents,
                gen,
                theme,
                render_scale: scale,
                phase,
            },
            SessionView::Failed { source, message, recents, gen, theme, .. } => SessionView::Failed {
                source,
                message,
                recents,
                gen,
                theme,
                render_scale: scale,
            },
            SessionView::Ready(tabs) => {
                let all = tabs.with_render_scale(scale);
                SessionView::Ready(all.with_doc(all.active, all.shown().bumped()))
            },
        }
    }

    /// Another density of the window's pixels. One below one, or none at all,
    /// is ignored, and four is the most.
    pub open spec fn rescaled(self, density: Coord, near: bool) -> (SessionView, Seq<ActionView>) {
        if !density.finite() || density.below(Coord(ONE)) || near {
            (self, Seq::empty())
        } else {
            (
                self.with_render_scale(density.low(Coord(FOUR))),
                given(self is Ready, ActionView::Schedule),
            )
        }
    }

    /// Other colours, in every document; the menu that chose them closes.
    pub open spec fn with_theme(self, theme: Theme) -> SessionView {
        match self {
            SessionView::Empty(empty) => SessionView::Empty(EmptyView { theme, ..empty }),
            SessionView::Loading { source, recents, gen, render_scale, phase, .. } => SessionView::Loading {
                source,
                recents,
                gen,
                theme,
                render_scale,
                phase,
            },
            SessionView::Failed { source, message, recents, gen, render_scale, .. } => SessionView::Failed {
                source,
                message,
                recents,
                gen,
                theme,
                render_scale,
            },
            SessionView::Ready(tabs) => {
                let all = tabs.with_theme(theme);
                SessionView::Ready(
                    all.with_doc(
                        all.active,
                        ReadyView { overflow_open: false, ..all.shown() },
                    ),
                )
            },
        }
    }

    /// A window of another size, without a word on its density.
    pub open spec fn viewport_set(self, viewport: Viewport) -> (SessionView, Seq<ActionView>) {
        match self {
            SessionView::Ready(tabs) => {
                let all = tabs.with_viewport(viewport);
                let after = SessionView::Ready(all.with_doc(all.active, all.shown().bumped()));
                (after, after.show())
            },
            _ => (self, Seq::empty()),
        }
    }

    /// An answer to the document that asked for it, whichever tab it is in.
    /// One that no document waits for is ignored. A copy that was saved is a
    /// recent document in every tab.
    pub open spec fn on_answer(self, gen: u64, message: Message) -> (SessionView, Seq<ActionView>) {
        match self {
            SessionView::Ready(tabs) => match tabs.by_gen(gen) {
                Some(i) => {
                    let after = answered(tabs.docs[i], message);
                    let all = tabs.with_doc(i, after.0);
                    (
                        SessionView::Ready(
                            if message is SaveCopyDone {
                                all.with_recents(after.0.recents)
                            } else {
                                all
                            },
                        ),
                        after.1,
                    )
                },
                None => (
                    self,
                    given(message is OutlineLoaded, ActionView::Schedule),
                ),
            },
            _ => (self, Seq::empty()),
        }
    }

    /// A message to the document that is shown.
    pub open spec fn on_shown(self, message: Message) -> (SessionView, Seq<ActionView>) {
        match self {
            SessionView::Ready(tabs) => {
                let after = tabs.shown().handled(message);
                (SessionView::Ready(tabs.with_doc(tabs.active, after.0)), after.1)
            },
            _ => (self, Seq::empty()),
        }
    }

    pub open spec fn ticked(self) -> SessionView {
        match self {
            SessionView::Loading { source, recents, gen, theme, render_scale, phase } => SessionView::Loading {
                source,
                recents,
                gen,
                theme,
                render_scale,
                phase: if phase == u16::MAX {
                    0
                } else {
                    (phase + 1) as u16
                },
            },
            _ => self,
        }
    }

    pub open spec fn browsed(self, folder: Option<Seq<char>>) -> (SessionView, Seq<ActionView>) {
        match self {
            SessionView::Empty(empty) => (
                SessionView::Empty(EmptyView { cwd: folder, listing_error: None, ..empty }),
                seq![ActionView::List { path: folder }],
            ),
            _ => (self, Seq::empty()),
        }
    }

    /// A folder that was listed, if it is still the one that is looked at.
    pub open spec fn listed(
        self,
        folder: Option<Seq<char>>,
        result: Result<Vec<FsEntry>, String>,
    ) -> SessionView {
        match self {
            SessionView::Empty(empty) => if !same_folder(empty.cwd, folder) {
                self
            } else {
                match result {
                    Ok(listing) => SessionView::Empty(
                        EmptyView { listing: listing@, listing_error: None, ..empty },
                    ),
                    Err(e) => SessionView::Empty(
                        EmptyView { listing: Seq::empty(), listing_error: Some(e@), ..empty },
                    ),
                }
            },
            _ => self,
        }
    }

    pub open spec fn with_recents(self, stored: Seq<Seq<char>>) -> SessionView {
        match self {
            SessionView::Empty(empty) => SessionView::Empty(
                EmptyView { recents: stored, ..empty },
            ),
            SessionView::Loading { source, gen, theme, render_scale, phase, .. } => SessionView::Loading {
                source,
                recents: stored,
                gen,
                theme,
                render_scale,
                phase,
            },
            _ => self,
        }
    }

    /// What a message does that is about the window, and not about one
    /// document.
    pub open spec fn on_window(self, message: Message) -> (SessionView, Seq<ActionView>) {
        match message {
            Message::PickFile { chosen } => match chosen {
                Some(source) => self.open_begun(source),
                None => (self, Seq::empty()),
            },
            Message::FileDropped { file } => if pdf_name(file@) {
                self.open_begun(OpenSource::Dropped(file))
            } else {
                (self, Seq::empty())
            },
            Message::OpenRecent { file } => if pdf_name(file@) {
                self.open_begun(OpenSource::Path(file))
            } else {
                (self, Seq::empty())
            },
            Message::Opened { gen, result, stored, left_at } => self.on_opened(
                gen,
                result,
                texts(stored@),
                left_at,
            ),
            Message::LoadingTick => (self.ticked(), Seq::empty()),
            Message::Close => self.closed(),
            Message::CloseTabActive => match self {
                SessionView::Ready(tabs) => self.tab_closed(tabs.active),
                _ => (self, Seq::empty()),
            },
            Message::CloseTab { index } => self.tab_closed(index as int),
            Message::SelectTab { index } => self.tab_selected(index as int),
            Message::CycleTab { step } => self.tab_cycled(step as int),
            Message::SetTheme { theme } => (
                self.with_theme(theme),
                seq![ActionView::SaveTheme { theme }],
            ),
            Message::SetViewport { viewport } => self.viewport_set(viewport),
            Message::WindowMetrics { viewport } => self.resized(viewport),
            Message::WindowScale { density, near } => self.rescaled(density, near),
            Message::BrowseTo { folder } => self.browsed(maybe_text(folder)),
            Message::ListingReady { folder, listed } => (
                self.listed(maybe_text(folder), listed),
                Seq::empty(),
            ),
            Message::RecentsReady { stored } => (
                self.with_recents(texts(stored@)),
                Seq::empty(),
            ),
            _ => (self, Seq::empty()),
        }
    }

    /// What a message does to a window, and what it asks for.
    pub open spec fn updated(self, message: Message) -> (SessionView, Seq<ActionView>) {
        match message {
            Message::PickFile { .. }
            | Message::FileDropped { .. }
            | Message::OpenRecent { .. }
            | Message::Opened { .. }
            | Message::LoadingTick
            | Message::Close
            | Message::CloseTabActive
            | Message::CloseTab { .. }
            | Message::SelectTab { .. }
            | Message::CycleTab { .. }
            | Message::SetTheme { .. }
            | Message::SetViewport { .. }
            | Message::WindowMetrics { .. }
            | Message::WindowScale { .. }
            | Message::BrowseTo { .. }
            | Message::ListingReady { .. }
            | Message::RecentsReady { .. } => self.on_window(message),
            Message::PageData { doc_gen, .. } => self.on_answer(doc_gen, message),
            Message::Rendered { doc_gen, .. } => self.on_answer(doc_gen, message),
            Message::OutlineLoaded { doc_gen, .. } => self.on_answer(doc_gen, message),
            Message::PrintSubmitted { doc_gen, .. } => self.on_answer(doc_gen, message),
            Message::PrintPdfOpened { doc_gen, .. } => self.on_answer(doc_gen, message),
            Message::SaveCopyDone { doc_gen, .. } => self.on_answer(doc_gen, message),
            _ => self.on_shown(message),
        }
    }
}

impl Ready {
    fn answer(&mut self, message: Message) -> (actions: Vec<Action>)
        requires
            old(self).wf(),
        ensures
            final(self).wf(),
            (final(self)@, asked(actions@)) == answered(old(self)@, message),
            final(self)@.open_gen == old(self)@.open_gen,
    {
        match message {
            Message::PageData { page, doc_gen, read } => {
                self.page_answer(page, read);
                self.schedule_only()
            },
            Message::Rendered { page, scale, rotation, doc_gen, render_gen, surface, geometry } => {
                self.on_rendered(page, scale, rotation, render_gen, surface, &geometry);
                self.schedule_only()
            },
            Message::OutlineLoaded { doc_gen, outline } => {
                self.outline = outline;
                self.schedule_only()
            },
            Message::PrintSubmitted { doc_gen, printer, sent } => {
                self.print_answer(printer, sent);
                nothing()
            },
            Message::PrintPdfOpened { doc_gen, written } => {
                self.print_pdf_answer(written);
                nothing()
            },
            Message::SaveCopyDone { doc_gen, dest, saved, stored } => {
                let action = self.copy_answer(dest, saved, stored);
                optional(action)
            },
            _ => nothing(),
        }
    }

    fn schedule_only(&self) -> (actions: Vec<Action>)
        ensures
            asked(actions@) == self@.worked(false).1,
    {
        let actions = only(Action::Schedule);
        assert(asked(actions@) =~= self@.worked(false).1);
        actions
    }
}

fn push_all(actions: &mut Vec<Action>, more: Vec<Action>)
    ensures
        asked(final(actions)@) == asked(old(actions)@) + asked(more@),
{
    let mut more = more;
    let ghost rest = more@;
    actions.append(&mut more);
    assert(asked(actions@) =~= asked(old(actions)@) + asked(rest));
}

fn empty_tasks() -> (actions: Vec<Action>)
    ensures
        asked(actions@) == empty_actions(),
{
    let mut actions = only(Action::LoadRecents);
    ask(&mut actions, Action::List { path: None });
    assert(asked(actions@) =~= empty_actions());
    actions
}

impl Session {
    pub open spec fn wf(self) -> bool {
        self@.wf()
    }

    /// A window without a document.
    pub fn empty(theme: Theme) -> (session: Session)
        ensures
            session@ == SessionView::Empty(
                EmptyView::start(Seq::empty(), theme, 0, Coord(ONE)),
            ),
            session.wf(),
    {
        let recents: Vec<String> = Vec::new();
        assert(texts(recents@) =~= Seq::<Seq<char>>::empty());
        Session::Empty(EmptyState::start(recents, theme, 0, Coord(ONE)))
    }

    /// A window for a document that is yet to be read.
    pub fn open_path(path: String, recents: Vec<String>, theme: Theme) -> (session: Session)
        ensures
            session@ == (SessionView::Loading {
                source: OpenSource::Path(path),
                recents: texts(recents@),
                gen: 1,
                theme,
                render_scale: Coord(ONE),
                phase: 0,
            }),
            session.wf(),
    {
        Session::Loading {
            source: OpenSource::Path(path),
            recents,
            gen: 1,
            theme,
            render_scale: Coord(ONE),
            phase: 0,
        }
    }

    /// What a window asks for when it opens.
    pub fn boot(&self) -> (actions: Vec<Action>)
        ensures
            asked(actions@) == (match self@ {
                SessionView::Loading { source, gen, .. } => seq![
                    ActionView::Open { source, gen },
                ],
                SessionView::Empty(_) => empty_actions(),
                _ => Seq::empty(),
            }),
    {
        match self {
            Session::Loading { source, gen, .. } => only(
                Action::Open { source: source.clone(), gen: *gen },
            ),
            Session::Empty(_) => empty_tasks(),
            _ => nothing(),
        }
    }

    fn recents(&self) -> (recents: Vec<String>)
        requires
            self.wf(),
        ensures
            texts(recents@) == self@.recents(),
    {
        match self {
            Session::Empty(empty) => copy_texts(&empty.recents),
            Session::Loading { recents, .. } => copy_texts(recents),
            Session::Failed { recents, .. } => copy_texts(recents),
            Session::Ready(tabs) => copy_texts(&tabs.active().recents),
        }
    }

    /// The colours of the window.
    pub fn theme(&self) -> (theme: Theme)
        requires
            self.wf(),
        ensures
            theme == self@.theme(),
    {
        match self {
            Session::Empty(empty) => empty.theme,
            Session::Loading { theme, .. } => *theme,
            Session::Failed { theme, .. } => *theme,
            Session::Ready(tabs) => tabs.active().theme,
        }
    }

    /// The density of the window's pixels.
    pub fn render_scale(&self) -> (scale: Coord)
        requires
            self.wf(),
        ensures
            scale == self@.render_scale(),
    {
        match self {
            Session::Empty(empty) => empty.render_scale,
            Session::Loading { render_scale, .. } => *render_scale,
            Session::Failed { render_scale, .. } => *render_scale,
            Session::Ready(tabs) => tabs.active().render_scale,
        }
    }

    fn open_gen(&self) -> (gen: u64)
        ensures
            gen == self@.open_gen(),
    {
        match self {
            Session::Empty(empty) => empty.open_gen,
            Session::Loading { gen, .. } => *gen,
            Session::Failed { gen, .. } => *gen,
            Session::Ready(tabs) => tabs.max_gen(),
        }
    }

    fn loading_gen(&self) -> (gen: Option<u64>)
        ensures
            gen == self@.loading_gen(),
    {
        match self {
            Session::Loading { gen, .. } => Some(*gen),
            Session::Ready(tabs) => tabs.pending_gen(),
            _ => None,
        }
    }

    fn show(&self) -> (actions: Vec<Action>)
        requires
            self.wf(),
        ensures
            asked(actions@) == self@.show(),
    {
        match self {
            Session::Ready(tabs) => {
                let mut actions = only(Action::Schedule);
                push_all(&mut actions, tabs.active().nav_follow());
                assert(asked(actions@) =~= self@.show());
                actions
            },
            _ => nothing(),
        }
    }

    /// Has a document read.
    pub fn begin_open(&mut self, source: OpenSource) -> (actions: Vec<Action>)
        requires
            old(self).wf(),
            old(self)@.room(),
        ensures
            final(self).wf(),
            (final(self)@, asked(actions@)) == old(self)@.open_begun(source),
    {
        let gen: u64 = following_gen(self.open_gen());
        let again = source.clone();
        if let Session::Ready(tabs) = self {
            tabs.pending = Some((gen, again));
            tabs.open_error = None;
            tabs.last_gen = gen;
        } else {
            let recents = self.recents();
            let theme = self.theme();
            let render_scale = self.render_scale();
            *self = Session::Loading { source: again, recents, gen, theme, render_scale, phase: 0 };
        }
        only(Action::Open { source, gen })
    }

    fn open_success(
        &mut self,
        gen: u64,
        ready: Ready,
        stored: Vec<String>,
        left_at: Option<DocPosition>,
    ) -> (actions: Vec<Action>)
        requires
            old(self).wf(),
            ready.wf(),
            old(self)@.loading_gen() == Some(gen),
        ensures
            final(self).wf(),
            (final(self)@, asked(actions@)) == old(self)@.open_succeeded(
                gen,
                ready@,
                texts(stored@),
                left_at,
            ),
    {
        assert(texts(stored@).len() == stored@.len());
        let mut ready = ready;
        let path = ready.source.path().to_owned();
        let recents = push_recent(merge_recents(self.recents(), stored), path);
        let again = copy_texts(&recents);
        let shared = copy_texts(&recents);
        let mut actions = only(Action::SaveRecents { recents: again });
        ready.recents = recents;
        ready.theme = self.theme();
        ready.render_scale = self.render_scale();
        ready.open_gen = gen;
        ready.signatures_open = false;
        ready.pages_open = false;
        ready.outline_open = false;
        ready.outline = None;
        ready.outline_collapsed = Vec::new();
        ready.outline_cursor = None;
        ready.outline_load_issued = false;
        ready.pages_scroll_y = Coord(0);
        ready.overflow_open = false;
        assert(ready@.outline_collapsed =~= Set::<Seq<usize>>::empty());
        if ready.restore_position(left_at) {
            ask(&mut actions, Action::Align { viewport: ready.viewport });
        }
        ready.sync_page_input();
        ready.render_gen = 1;
        match self {
            Session::Ready(tabs) => {
                let alone = tabs.len() == 1;
                tabs.set_recents(shared);
                tabs.push(ready);
                if alone {
                    ask(&mut actions, Action::Strip { shown: true });
                }
            },
            _ => {
                *self = Session::Ready(Tabs::single(ready));
            },
        }
        assert(asked(actions@) =~= old(self)@.open_succeeded(
            gen,
            ready@,
            texts(stored@),
            left_at,
        ).1);
        actions
    }

    fn open_failure(&mut self, gen: u64, error: OpenError, stored: Vec<String>) -> (actions: Vec<
        Action,
    >)
        requires
            old(self).wf(),
            old(self)@.loading_gen() == Some(gen),
        ensures
            final(self).wf(),
            (final(self)@, asked(actions@)) == old(self)@.open_failed(gen, error, texts(stored@)),
    {
        assert(texts(stored@).len() == stored@.len());
        let recents = merge_recents(self.recents(), stored);
        let theme = self.theme();
        let render_scale = self.render_scale();
        let words = error.message();
        match self {
            Session::Ready(tabs) => {
                let mut text = match &tabs.pending {
                    Some((_, source)) => joined("Falha ao abrir ", display(source.path()).as_str()),
                    None => "Falha ao abrir ".to_owned(),
                };
                push_text(&mut text, ": ");
                push_text(&mut text, words.as_str());
                tabs.pending = None;
                tabs.open_error = Some(text);
                nothing()
            },
            Session::Loading { source, .. } => {
                let source = source.clone();
                let kept = match error {
                    OpenError::Io(_) => drop_recent(recents, source.path()),
                    _ => recents,
                };
                let again = copy_texts(&kept);
                *self = Session::Failed {
                    source,
                    message: words,
                    recents: kept,
                    gen,
                    theme,
                    render_scale,
                };
                only(Action::SaveRecents { recents: again })
            },
            _ => nothing(),
        }
    }

    /// A document was read, or could not be. The first work on it is not asked
    /// for yet.
    pub fn apply_open(
        &mut self,
        gen: u64,
        result: Result<Ready, OpenError>,
        stored: Vec<String>,
        left_at: Option<DocPosition>,
    ) -> (actions: Vec<Action>)
        requires
            old(self).wf(),
            result is Ok ==> result->Ok_0.wf(),
        ensures
            final(self).wf(),
            (final(self)@, asked(actions@)) == old(self)@.open_applied(
                gen,
                result,
                texts(stored@),
                left_at,
            ),
    {
        let waited = match self.loading_gen() {
            Some(current) => current == gen,
            None => false,
        };
        if !waited {
            return match result {
                Ok(ready) => only(Action::CloseEngine { engine: ready.engine }),
                Err(_) => nothing(),
            };
        }
        match result {
            Ok(ready) => self.open_success(gen, ready, stored, left_at),
            Err(error) => self.open_failure(gen, error, stored),
        }
    }

    /// The document that is being read was read, or could not be.
    pub fn finish_open(
        &mut self,
        result: Result<Ready, OpenError>,
        stored: Vec<String>,
        left_at: Option<DocPosition>,
    ) -> (actions: Vec<Action>)
        requires
            old(self).wf(),
            result is Ok ==> result->Ok_0.wf(),
        ensures
            final(self).wf(),
            match old(self)@.loading_gen() {
                Some(gen) => (final(self)@, asked(actions@)) == old(self)@.open_applied(
                    gen,
                    result,
                    texts(stored@),
                    left_at,
                ),
                None => final(self)@ == old(self)@ && asked(actions@) == Seq::<ActionView>::empty(),
            },
    {
        match self.loading_gen() {
            Some(gen) => self.apply_open(gen, result, stored, left_at),
            None => nothing(),
        }
    }

    fn on_opened(
        &mut self,
        gen: u64,
        result: Result<Ready, OpenError>,
        stored: Vec<String>,
        left_at: Option<DocPosition>,
    ) -> (actions: Vec<Action>)
        requires
            old(self).wf(),
            result is Ok ==> result->Ok_0.wf(),
        ensures
            final(self).wf(),
            (final(self)@, asked(actions@)) == old(self)@.on_opened(
                gen,
                result,
                texts(stored@),
                left_at,
            ),
    {
        let mut actions = self.apply_open(gen, result, stored, left_at);
        push_all(&mut actions, self.show());
        actions
    }

    fn close_document(&mut self) -> (actions: Vec<Action>)
        requires
            old(self).wf(),
        ensures
            final(self).wf(),
            (final(self)@, asked(actions@)) == old(self)@.closed(),
    {
        let recents = self.recents();
        let theme = self.theme();
        let open_gen: u64 = self.open_gen();
        let render_scale = self.render_scale();
        let mut actions = nothing();
        if let Session::Ready(tabs) = self {
            let ghost docs = tabs@.docs;
            let mut i: usize = 0;
            while i < tabs.docs.len()
                invariant
                    docs == docs_of(tabs.docs@),
                    i <= tabs.docs@.len(),
                    asked(actions@) == let_go(docs, i as int),
                decreases tabs.docs@.len() - i,
            {
                assert(docs[i as int] == tabs.docs@[i as int]@);
                ask(&mut actions, Action::CloseEngine { engine: tabs.docs[i].engine });
                i += 1;
            }
        }
        *self = Session::Empty(EmptyState::start(recents, theme, open_gen, render_scale));
        push_all(&mut actions, empty_tasks());
        actions
    }

    fn modal_open(&self) -> (r: bool)
        requires
            self.wf(),
        ensures
            r == self@.modal(),
    {
        match self {
            Session::Ready(tabs) => {
                let doc = tabs.active();
                doc.print_dialog.is_some() || doc.note_draft.is_some() || doc.save_warning
            },
            _ => false,
        }
    }

    #[verifier::rlimit(30)]
    fn close_tab(&mut self, index: usize) -> (actions: Vec<Action>)
        requires
            old(self).wf(),
        ensures
            final(self).wf(),
            (final(self)@, asked(actions@)) == old(self)@.tab_closed(index as int),
    {
        if self.modal_open() {
            return nothing();
        }
        let count: usize = match self {
            Session::Ready(tabs) => tabs.len(),
            _ => 0,
        };
        if count == 0 {
            return nothing();
        }
        if count == 1 {
            return self.close_document();
        }
        if index >= count {
            return nothing();
        }
        let mut actions = nothing();
        if let Session::Ready(tabs) = self {
            let gone = tabs.remove(index);
            ask(&mut actions, Action::CloseEngine { engine: gone.engine });
        }
        if count == 2 {
            ask(&mut actions, Action::Strip { shown: false });
        }
        push_all(&mut actions, self.show());
        assert(asked(actions@) =~= old(self)@.tab_closed(index as int).1);
        actions
    }

    fn select_tab(&mut self, index: usize) -> (actions: Vec<Action>)
        requires
            old(self).wf(),
        ensures
            final(self).wf(),
            (final(self)@, asked(actions@)) == old(self)@.tab_selected(index as int),
    {
        if self.modal_open() {
            return nothing();
        }
        if let Session::Ready(tabs) = self {
            tabs.select(index);
        }
        self.show()
    }

    fn cycle_tab(&mut self, step: i32) -> (actions: Vec<Action>)
        requires
            old(self).wf(),
            old(self)@.room_for(Message::CycleTab { step }),
        ensures
            final(self).wf(),
            (final(self)@, asked(actions@)) == old(self)@.tab_cycled(step as int),
    {
        if self.modal_open() {
            return nothing();
        }
        match self {
            Session::Ready(tabs) => {
                if tabs.len() < 2 {
                    return nothing();
                }
                tabs.cycle(step);
            },
            _ => {
                return nothing();
            },
        }
        self.show()
    }

    fn bump_shown(tabs: &mut Tabs)
        requires
            old(tabs).wf(),
        ensures
            final(tabs).wf(),
            final(tabs)@ == old(tabs)@.with_doc(
                old(tabs)@.active,
                old(tabs)@.shown().bumped(),
            ),
    {
        let i: usize = tabs.active;
        assert(tabs@.docs[i as int] == tabs.docs@[i as int]@);
        tabs.docs[i].bump_render_gen();
        proof {
            lemma_with_doc(old(tabs)@, *tabs, i as int, old(tabs)@.shown().bumped());
        }
    }

    fn set_viewport(&mut self, viewport: Viewport) -> (actions: Vec<Action>)
        requires
            old(self).wf(),
        ensures
            final(self).wf(),
            (final(self)@, asked(actions@)) == old(self)@.viewport_set(viewport),
    {
        if let Session::Ready(tabs) = self {
            tabs.set_viewport(viewport);
            Session::bump_shown(tabs);
        }
        self.show()
    }

    fn resize(&mut self, viewport: Viewport) -> (actions: Vec<Action>)
        requires
            old(self).wf(),
        ensures
            final(self).wf(),
            (final(self)@, asked(actions@)) == old(self)@.resized(viewport),
    {
        if let Session::Ready(tabs) = self {
            tabs.set_viewport(viewport);
            Session::bump_shown(tabs);
        }
        let mut actions = self.show();
        ask(&mut actions, Action::QueryScale);
        assert(asked(actions@) =~= old(self)@.resized(viewport).1);
        actions
    }

    fn set_render_scale(&mut self, scale: Coord)
        requires
            old(self).wf(),
        ensures
            final(self).wf(),
            final(self)@ == old(self)@.with_render_scale(scale),
    {
        match self {
            Session::Empty(empty) => {
                empty.render_scale = scale;
            },
            Session::Loading { render_scale, .. } => {
                *render_scale = scale;
            },
            Session::Failed { render_scale, .. } => {
                *render_scale = scale;
            },
            Session::Ready(tabs) => {
                tabs.set_render_scale(scale);
                Session::bump_shown(tabs);
            },
        }
    }

    fn rescale(&mut self, density: Coord, near: bool) -> (actions: Vec<Action>)
        requires
            old(self).wf(),
        ensures
            final(self).wf(),
            (final(self)@, asked(actions@)) == old(self)@.rescaled(density, near),
    {
        if !density.is_finite() || density.is_below(Coord(ONE)) || near {
            return nothing();
        }
        self.set_render_scale(density.lower(Coord(FOUR)));
        match self {
            Session::Ready(_) => only(Action::Schedule),
            _ => nothing(),
        }
    }

    fn close_overflow(tabs: &mut Tabs)
        requires
            old(tabs).wf(),
        ensures
            final(tabs).wf(),
            final(tabs)@ == old(tabs)@.with_doc(
                old(tabs)@.active,
                ReadyView { overflow_open: false, ..old(tabs)@.shown() },
            ),
    {
        let i: usize = tabs.active;
        assert(tabs@.docs[i as int] == tabs.docs@[i as int]@);
        tabs.docs[i].overflow_open = false;
        proof {
            lemma_with_doc(
                old(tabs)@,
                *tabs,
                i as int,
                ReadyView { overflow_open: false, ..old(tabs)@.shown() },
            );
        }
    }

    fn set_theme(&mut self, new: Theme)
        requires
            old(self).wf(),
        ensures
            final(self).wf(),
            final(self)@ == old(self)@.with_theme(new),
    {
        match self {
            Session::Empty(empty) => {
                empty.theme = new;
            },
            Session::Loading { theme, .. } => {
                *theme = new;
            },
            Session::Failed { theme, .. } => {
                *theme = new;
            },
            Session::Ready(tabs) => {
                tabs.set_theme(new);
                Session::close_overflow(tabs);
            },
        }
    }

    fn browse(&mut self, folder: Option<String>) -> (actions: Vec<Action>)
        requires
            old(self).wf(),
        ensures
            final(self).wf(),
            (final(self)@, asked(actions@)) == old(self)@.browsed(maybe_text(folder)),
    {
        match self {
            Session::Empty(empty) => {
                let again: Option<String> = match &folder {
                    Some(path) => Some(path.clone()),
                    None => None,
                };
                empty.cwd = folder;
                empty.listing_error = None;
                only(Action::List { path: again })
            },
            _ => nothing(),
        }
    }

    fn list(&mut self, folder: Option<String>, result: Result<Vec<FsEntry>, String>)
        requires
            old(self).wf(),
        ensures
            final(self).wf(),
            final(self)@ == old(self)@.listed(maybe_text(folder), result),
    {
        if let Session::Empty(empty) = self {
            let same = match (&empty.cwd, &folder) {
                (Some(a), Some(b)) => is_same_place(a.as_str(), b.as_str()),
                (None, None) => true,
                _ => false,
            };
            if same {
                match result {
                    Ok(listing) => {
                        empty.listing = listing;
                        empty.listing_error = None;
                    },
                    Err(e) => {
                        empty.listing = Vec::new();
                        assert(empty.listing@ =~= Seq::<FsEntry>::empty());
                        empty.listing_error = Some(e);
                    },
                }
            }
        }
    }

    fn set_recents(&mut self, stored: Vec<String>)
        requires
            old(self).wf(),
        ensures
            final(self).wf(),
            final(self)@ == old(self)@.with_recents(texts(stored@)),
    {
        match self {
            Session::Empty(empty) => {
                empty.recents = stored;
            },
            Session::Loading { recents, .. } => {
                *recents = stored;
            },
            _ => {},
        }
    }

    fn tick(&mut self)
        requires
            old(self).wf(),
        ensures
            final(self).wf(),
            final(self)@ == old(self)@.ticked(),
    {
        if let Session::Loading { phase, .. } = self {
            *phase = if *phase == u16::MAX {
                0
            } else {
                *phase + 1
            };
        }
    }

    fn close_active(&mut self) -> (actions: Vec<Action>)
        requires
            old(self).wf(),
        ensures
            final(self).wf(),
            (final(self)@, asked(actions@)) == old(self)@.on_window(Message::CloseTabActive),
    {
        let index: usize = match self {
            Session::Ready(tabs) => tabs.active_index(),
            _ => {
                return nothing();
            },
        };
        self.close_tab(index)
    }

    fn update_window(&mut self, message: Message) -> (actions: Vec<Action>)
        requires
            old(self).wf(),
            old(self)@.room_for(message),
            carries_sound(message),
        ensures
            final(self).wf(),
            (final(self)@, asked(actions@)) == old(self)@.on_window(message),
    {
        match message {
            Message::PickFile { chosen } => match chosen {
                Some(source) => self.begin_open(source),
                None => nothing(),
            },
            Message::FileDropped { file } => if is_pdf(file.as_str()) {
                self.begin_open(OpenSource::Dropped(file))
            } else {
                nothing()
            },
            Message::OpenRecent { file } => if is_pdf(file.as_str()) {
                self.begin_open(OpenSource::Path(file))
            } else {
                nothing()
            },
            Message::Opened { gen, result, stored, left_at } => self.on_opened(
                gen,
                result,
                stored,
                left_at,
            ),
            Message::LoadingTick => {
                self.tick();
                nothing()
            },
            Message::Close => self.close_document(),
            Message::CloseTabActive => self.close_active(),
            Message::CloseTab { index } => self.close_tab(index),
            Message::SelectTab { index } => self.select_tab(index),
            Message::CycleTab { step } => self.cycle_tab(step),
            Message::SetTheme { theme } => {
                self.set_theme(theme);
                only(Action::SaveTheme { theme })
            },
            Message::SetViewport { viewport } => self.set_viewport(viewport),
            Message::WindowMetrics { viewport } => self.resize(viewport),
            Message::WindowScale { density, near } => self.rescale(density, near),
            Message::BrowseTo { folder } => self.browse(folder),
            Message::ListingReady { folder, listed } => {
                self.list(folder, listed);
                nothing()
            },
            Message::RecentsReady { stored } => {
                self.set_recents(stored);
                nothing()
            },
            _ => nothing(),
        }
    }

    fn update_answer(&mut self, gen: u64, message: Message) -> (actions: Vec<Action>)
        requires
            old(self).wf(),
        ensures
            final(self).wf(),
            (final(self)@, asked(actions@)) == old(self)@.on_answer(gen, message),
    {
        match self {
            Session::Ready(tabs) => {
                let ghost before = tabs@;
                match tabs.by_gen(gen) {
                    Some(i) => {
                        assert(tabs@.docs[i as int] == tabs.docs@[i as int]@);
                        let saved = match &message {
                            Message::SaveCopyDone { .. } => true,
                            _ => false,
                        };
                        let actions = tabs.docs[i].answer(message);
                        proof {
                            lemma_answer_keeps(before.docs[i as int], message);
                            lemma_with_doc(
                                before,
                                *tabs,
                                i as int,
                                answered(before.docs[i as int], message).0,
                            );
                        }
                        if saved {
                            assert(tabs@.docs[i as int] == tabs.docs@[i as int]@);
                            let recents = copy_texts(&tabs.docs[i].recents);
                            tabs.set_recents(recents);
                        }
                        actions
                    },
                    None => match message {
                        Message::OutlineLoaded { .. } => only(Action::Schedule),
                        _ => nothing(),
                    },
                }
            },
            _ => nothing(),
        }
    }

    fn update_shown(&mut self, message: Message) -> (actions: Vec<Action>)
        requires
            old(self).wf(),
            old(self)@.room_for(message),
        ensures
            final(self).wf(),
            (final(self)@, asked(actions@)) == old(self)@.on_shown(message),
    {
        match self {
            Session::Ready(tabs) => {
                let ghost before = tabs@;
                let i: usize = tabs.active;
                assert(tabs@.docs[i as int] == tabs.docs@[i as int]@);
                let actions = tabs.docs[i].handle(message);
                proof {
                    law_messages_keep_document(before.shown(), message);
                    lemma_with_doc(before, *tabs, i as int, before.shown().handled(message).0);
                }
                actions
            },
            _ => nothing(),
        }
    }

    /// Whether there are numbers left for what a message asks for.
    pub fn has_room_for(&self, message: &Message) -> (r: bool)
        requires
            self.wf(),
        ensures
            r == self@.room_for(*message),
    {
        match self {
            Session::Ready(tabs) => {
                let opens = match message {
                    Message::PickFile { chosen } => chosen.is_some(),
                    Message::FileDropped { file } => is_pdf(file.as_str()),
                    Message::OpenRecent { file } => is_pdf(file.as_str()),
                    _ => false,
                };
                let cycles = match message {
                    Message::CycleTab { .. } => true,
                    _ => false,
                };
                (!opens || tabs.max_gen() < u64::MAX) && (!cycles || tabs.len() <= 0x7fff_ffff)
                    && tabs.active().has_room_for(message)
            },
            _ => true,
        }
    }

    /// What a message does to the window. The actions are to be carried out in
    /// order.
    pub fn update(&mut self, message: Message) -> (actions: Vec<Action>)
        requires
            old(self).wf(),
            old(self)@.room_for(message),
            carries_sound(message),
        ensures
            final(self).wf(),
            (final(self)@, asked(actions@)) == old(self)@.updated(message),
    {
        match message {
            Message::PickFile { .. }
            | Message::FileDropped { .. }
            | Message::OpenRecent { .. }
            | Message::Opened { .. }
            | Message::LoadingTick
            | Message::Close
            | Message::CloseTabActive
            | Message::CloseTab { .. }
            | Message::SelectTab { .. }
            | Message::CycleTab { .. }
            | Message::SetTheme { .. }
            | Message::SetViewport { .. }
            | Message::WindowMetrics { .. }
            | Message::WindowScale { .. }
            | Message::BrowseTo { .. }
            | Message::ListingReady { .. }
            | Message::RecentsReady { .. } => self.update_window(message),
            Message::PageData { doc_gen, .. } => self.update_answer(doc_gen, message),
            Message::Rendered { doc_gen, .. } => self.update_answer(doc_gen, message),
            Message::OutlineLoaded { doc_gen, .. } => self.update_answer(doc_gen, message),
            Message::PrintSubmitted { doc_gen, .. } => self.update_answer(doc_gen, message),
            Message::PrintPdfOpened { doc_gen, .. } => self.update_answer(doc_gen, message),
            Message::SaveCopyDone { doc_gen, .. } => self.update_answer(doc_gen, message),
            _ => self.update_shown(message),
        }
    }

    /// Chooses the next piece of work for the document that is shown. Given is
    /// its geometry as it stands.
    pub fn schedule_work(&mut self, g: &Geometry) -> (action: Option<Action>)
        requires
            old(self).wf(),
        ensures
            final(self).wf(),
            match old(self)@ {
                SessionView::Ready(tabs) => final(self)@ == SessionView::Ready(
                    tabs.with_doc(tabs.active, tabs.shown().scheduled(*g).0),
                ) && (match tabs.shown().scheduled(*g).1 {
                    Some(a) => action is Some && action->0@ == a,
                    None => action is None,
                }),
                _ => final(self)@ == old(self)@ && action is None,
            },
    {
        match self {
            Session::Ready(tabs) => {
                let ghost before = tabs@;
                let i: usize = tabs.active;
                assert(tabs@.docs[i as int] == tabs.docs@[i as int]@);
                let action = tabs.docs[i].schedule(g);
                proof {
                    lemma_with_doc(before, *tabs, i as int, before.shown().scheduled(*g).0);
                }
                action
            },
            _ => None,
        }
    }

    /// Places the note that was just opened in the window.
    pub fn place_note(&mut self, corner: Point)
        requires
            old(self).wf(),
        ensures
            final(self).wf(),
            match old(self)@ {
                SessionView::Ready(tabs) => final(self)@ == SessionView::Ready(
                    tabs.with_doc(
                        tabs.active,
                        ReadyView {
                            note_draft: match tabs.shown().note_draft {
                                Some(draft) => Some(NoteDraftView { anchor: corner, ..draft }),
                                None => None,
                            },
                            ..tabs.shown()
                        },
                    ),
                ),
                _ => final(self)@ == old(self)@,
            },
    {
        if let Session::Ready(tabs) = self {
            let ghost before = tabs@;
            let i: usize = tabs.active;
            assert(tabs@.docs[i as int] == tabs.docs@[i as int]@);
            if let Some(draft) = &mut tabs.docs[i].note_draft {
                draft.anchor = corner;
            }
            proof {
                lemma_with_doc(
                    before,
                    *tabs,
                    i as int,
                    ReadyView {
                        note_draft: match before.shown().note_draft {
                            Some(draft) => Some(NoteDraftView { anchor: corner, ..draft }),
                            None => None,
                        },
                        ..before.shown()
                    },
                );
            }
        }
    }

    /// Scrolls the document that is shown, as it was left.
    pub fn align_scroll(&mut self, y: Coord)
        requires
            old(self).wf(),
        ensures
            final(self).wf(),
            match old(self)@ {
                SessionView::Ready(tabs) => final(self)@ == SessionView::Ready(
                    tabs.with_doc(
                        tabs.active,
                        ReadyView { doc_scroll_y: y, ..tabs.shown() },
                    ),
                ),
                _ => final(self)@ == old(self)@,
            },
    {
        if let Session::Ready(tabs) = self {
            let ghost before = tabs@;
            let i: usize = tabs.active;
            assert(tabs@.docs[i as int] == tabs.docs@[i as int]@);
            tabs.docs[i].doc_scroll_y = y;
            proof {
                lemma_with_doc(
                    before,
                    *tabs,
                    i as int,
                    ReadyView { doc_scroll_y: y, ..before.shown() },
                );
            }
        }
    }
}

/// Whether a document that a message brings is sound.
pub open spec fn carries_sound(message: Message) -> bool {
    match message {
        Message::Opened { result, .. } => match result {
            Ok(ready) => ready.wf(),
            Err(_) => true,
        },
        _ => true,
    }
}

proof fn lemma_with_doc(before: TabsView, tabs: Tabs, i: int, doc: ReadyView)
    requires
        before.wf(),
        0 <= i < before.docs.len(),
        tabs.docs@.len() == before.docs.len(),
        forall|k: int|
            0 <= k < before.docs.len() && k != i ==> (#[trigger] tabs.docs@[k])@ == before.docs[k],
        tabs.docs@[i]@ == doc,
        tabs@ == (TabsView { docs: tabs@.docs, ..before }),
        doc.wf(),
        doc.open_gen == before.docs[i].open_gen,
        same_window(doc, before.docs[i]),
    ensures
        tabs@ == before.with_doc(i, doc),
        tabs@.settled(),
        doc.recents == before.docs[i].recents ==> tabs@.wf(),
{
    assert forall|k: int| 0 <= k < before.docs.len() implies #[trigger] tabs@.docs[k]
        == before.with_doc(i, doc).docs[k] by {
        assert(tabs@.docs[k] == tabs.docs@[k]@);
    }
    assert(tabs@.docs =~= before.with_doc(i, doc).docs);
    assert forall|a: int, b: int| 0 <= a < b < tabs@.docs.len() implies (
    #[trigger] tabs@.docs[a]).open_gen != (#[trigger] tabs@.docs[b]).open_gen by {
        assert(before.docs[a].open_gen != before.docs[b].open_gen);
    }
    assert forall|k: int| 0 <= k < before.docs.len() implies same_window(
        #[trigger] tabs@.docs[k],
        tabs@.docs[0],
    ) && tabs@.docs[k].open_gen <= before.last_gen && tabs@.docs[k].wf() by {
        assert(same_window(before.docs[k], before.docs[0]));
        assert(same_window(before.docs[i], before.docs[0]));
    }
    assert(before.docs[i].recents == before.docs[0].recents);
}

proof fn lemma_answer_keeps(v: ReadyView, message: Message)
    ensures
        same_window(answered(v, message).0, v),
        !(message is SaveCopyDone) ==> answered(v, message).0.recents == v.recents,
{
}

/// A document that is not waited for any more changes nothing in the window,
/// and is let go of.
pub proof fn law_stale_document_is_dropped(
    s: SessionView,
    gen: u64,
    result: Result<Ready, OpenError>,
    stored: Seq<Seq<char>>,
    left_at: Option<DocPosition>,
)
    requires
        s.loading_gen() != Some(gen),
    ensures
        s.open_applied(gen, result, stored, left_at).0 == s,
        result is Ok ==> s.open_applied(gen, result, stored, left_at).1 == seq![
            ActionView::CloseEngine { engine: result->Ok_0.engine },
        ],
{
}

/// An answer that no document waits for changes nothing.
pub proof fn law_stale_answer_is_ignored(s: SessionView, gen: u64, message: Message)
    requires
        match s {
            SessionView::Ready(tabs) => tabs.by_gen(gen) is None,
            _ => true,
        },
    ensures
        s.on_answer(gen, message).0 == s,
{
}

/// Colours and density survive the opening of a document, its failure and its
/// closing.
pub proof fn law_looks_survive(
    s: SessionView,
    source: OpenSource,
    gen: u64,
    result: Result<Ready, OpenError>,
    stored: Seq<Seq<char>>,
    left_at: Option<DocPosition>,
)
    requires
        s.wf(),
    ensures
        s.open_begun(source).0.theme() == s.theme(),
        s.open_begun(source).0.render_scale() == s.render_scale(),
        s.open_applied(gen, result, stored, left_at).0.theme() == s.theme(),
        s.open_applied(gen, result, stored, left_at).0.render_scale() == s.render_scale(),
        s.closed().0.theme() == s.theme(),
        s.closed().0.render_scale() == s.render_scale(),
        s.closed().0.recents() == s.recents(),
{
}

/// A document that opens beside others leaves those as they were, but that
/// they know it as the most recent one, and is the one that is shown. What
/// belongs to the window is the same in all of them.
pub proof fn law_open_keeps_tabs(
    tabs: TabsView,
    ready: Ready,
    stored: Seq<Seq<char>>,
    left_at: Option<DocPosition>,
)
    requires
        tabs.wf(),
        tabs.pending is Some,
    ensures
        match SessionView::Ready(tabs).open_applied(
            (tabs.pending->0).0,
            Ok(ready),
            stored,
            left_at,
        ).0 {
            SessionView::Ready(after) => {
                &&& after.docs.len() == tabs.docs.len() + 1
                &&& forall|i: int|
                    0 <= i < tabs.docs.len() ==> #[trigger] after.docs[i] == (ReadyView {
                        recents: after.shown().recents,
                        ..tabs.docs[i]
                    })
                &&& after.shown().recents.first() == ready.source.place()
                &&& forall|i: int|
                    0 <= i < after.docs.len() ==> same_window(
                        #[trigger] after.docs[i],
                        after.shown(),
                    ) && after.docs[i].recents == after.shown().recents
                &&& after.active == tabs.docs.len()
                &&& after.pending is None
                &&& after.shown().open_gen == (tabs.pending->0).0
            },
            _ => false,
        },
{
    let s = SessionView::Ready(tabs);
    let after = s.open_applied((tabs.pending->0).0, Ok(ready), stored, left_at).0->Ready_0;
    assert forall|i: int| 0 <= i < after.docs.len() implies same_window(
        #[trigger] after.docs[i],
        after.shown(),
    ) && after.docs[i].recents == after.shown().recents by {
        assert(same_window(tabs.shown(), tabs.docs[0]));
        if i < tabs.docs.len() {
            assert(same_window(tabs.docs[i], tabs.docs[0]));
        }
    }
}

/// A document that does not open beside others leaves those as they were, and
/// says why.
pub proof fn law_failed_open_keeps_tabs(
    tabs: TabsView,
    error: OpenError,
    stored: Seq<Seq<char>>,
    left_at: Option<DocPosition>,
)
    requires
        tabs.wf(),
        tabs.pending is Some,
    ensures
        match SessionView::Ready(tabs).open_applied(
            (tabs.pending->0).0,
            Err(error),
            stored,
            left_at,
        ).0 {
            SessionView::Ready(after) => after.docs == tabs.docs && after.active == tabs.active
                && after.pending is None && after.open_error is Some,
            _ => false,
        },
{
}

/// A file that could not be read leaves the recent documents; another failure
/// does not take it from them.
pub proof fn law_dead_file_leaves_recents(
    s: SessionView,
    gen: u64,
    error: OpenError,
    stored: Seq<Seq<char>>,
    left_at: Option<DocPosition>,
)
    requires
        s is Loading,
        s.loading_gen() == Some(gen),
    ensures
        s.open_applied(gen, Err(error), stored, left_at).0 is Failed,
        error is Io ==> !known(
            s.open_applied(gen, Err(error), stored, left_at).0.recents(),
            s->Loading_source.place(),
        ),
        !(error is Io) ==> s.open_applied(gen, Err(error), stored, left_at).0.recents() == s.known(
            stored,
        ),
{
    crate::browse::lemma_without(s.known(stored), s->Loading_source.place());
}

/// A document that was read is the first of the recent ones, also once it was
/// closed.
pub proof fn law_read_document_is_recent(
    s: SessionView,
    gen: u64,
    ready: Ready,
    stored: Seq<Seq<char>>,
    left_at: Option<DocPosition>,
)
    requires
        s.wf(),
        s.loading_gen() == Some(gen),
    ensures
        s.open_applied(gen, Ok(ready), stored, left_at).0.recents().first()
            == ready.source.place(),
        s.open_applied(gen, Ok(ready), stored, left_at).0.closed().0.recents().first()
            == ready.source.place(),
{
}

/// A document that was just opened shows no panel, no menu and no mark of one
/// that was open before it, and stands where it was left.
pub proof fn law_opened_document_is_fresh(
    v: ReadyView,
    recents: Seq<Seq<char>>,
    theme: Theme,
    render_scale: Coord,
    gen: u64,
    left_at: Option<DocPosition>,
)
    requires
        v.wf(),
    ensures
        ({
            let doc = entered(v, recents, theme, render_scale, gen, left_at);
            &&& doc.wf()
            &&& !doc.signatures_open && !doc.pages_open && !doc.outline_open && !doc.overflow_open
            &&& doc.outline is None && doc.outline_cursor is None
            &&& left_at is Some && left_at->0.page < v.pages.total ==> doc.visible.0
                == left_at->0.page
            &&& left_at is Some ==> doc.zoom == left_at->0.zoom && doc.view_mode == left_at->0.mode
            &&& left_at is Some ==> !doc.history.can_step(false) && !doc.history.can_step(true)
        }),
{
}

/// A message to the document that is shown leaves every other tab as it was.
pub proof fn law_other_tabs_stay(tabs: TabsView, message: Message, i: int)
    requires
        tabs.wf(),
        0 <= i < tabs.docs.len(),
        i != tabs.active,
    ensures
        match SessionView::Ready(tabs).on_shown(message).0 {
            SessionView::Ready(after) => after.docs[i] == tabs.docs[i] && after.active
                == tabs.active && after.docs.len() == tabs.docs.len(),
            _ => false,
        },
{
}

/// While a dialog, a note or a warning is open, tabs are neither changed nor
/// closed one by one.
pub proof fn law_modal_keeps_tabs(s: SessionView, index: int, step: int)
    requires
        s.modal(),
    ensures
        s.tab_closed(index) == (s, Seq::<ActionView>::empty()),
        s.tab_selected(index) == (s, Seq::<ActionView>::empty()),
        s.tab_cycled(step) == (s, Seq::<ActionView>::empty()),
{
}

/// Closing the last tab leaves a window without a document.
pub proof fn law_last_tab_closes_window(s: SessionView, index: int)
    requires
        s.wf(),
        s is Ready,
        s->Ready_0.docs.len() == 1,
        !s.modal(),
    ensures
        s.tab_closed(index) == s.closed(),
        s.closed().0 is Empty,
{
}

/// Every document that is open is let go of when the window closes.
pub proof fn law_close_lets_go(tabs: TabsView, i: int)
    requires
        tabs.wf(),
        0 <= i < tabs.docs.len(),
    ensures
        SessionView::Ready(tabs).closed().1.contains(
            ActionView::CloseEngine { engine: tabs.docs[i].engine },
        ),
{
    let n = tabs.docs.len() as int;
    lemma_let_go(tabs.docs, n);
    let actions = SessionView::Ready(tabs).closed().1;
    assert(actions[i] == let_go(tabs.docs, n)[i]);
}

proof fn lemma_let_go(docs: Seq<ReadyView>, n: int)
    requires
        0 <= n <= docs.len(),
    ensures
        let_go(docs, n).len() == n,
        forall|i: int|
            0 <= i < n ==> #[trigger] let_go(docs, n)[i] == (ActionView::CloseEngine {
                engine: docs[i].engine,
            }),
    decreases n,
{
    if n > 0 {
        lemma_let_go(docs, n - 1);
    }
}

/// Four quarter turns of the view are none.
pub proof fn law_four_turns_are_none(v: ReadyView)
    requires
        v.wf(),
    ensures
        v.turned().turned().turned().turned().view_rotation == v.view_rotation,
        v.turned().view_rotation != v.view_rotation,
{
}

/// The generation of a document that is to be read is one above every earlier
/// one, of which none is above the highest that was given out.
pub proof fn law_open_takes_new_generation(s: SessionView, source: OpenSource)
    requires
        s.wf(),
        s.open_gen() < u64::MAX,
    ensures
        s.open_begun(source).0.loading_gen() == Some((s.open_gen() + 1) as u64),
        s.open_begun(source).0.open_gen() == s.open_gen() + 1,
        s.open_begun(source).1 == seq![
            ActionView::Open { source, gen: (s.open_gen() + 1) as u64 },
        ],
        match s {
            SessionView::Ready(tabs) => forall|i: int|
                0 <= i < tabs.docs.len() ==> (#[trigger] tabs.docs[i]).open_gen <= s.open_gen(),
            _ => true,
        },
        match s.loading_gen() {
            Some(gen) => gen <= s.open_gen(),
            None => true,
        },
{
}

/// What a row of messages makes of a window.
pub open spec fn after_all(s: SessionView, messages: Seq<Message>) -> SessionView
    decreases messages.len(),
{
    if messages.len() == 0 {
        s
    } else {
        after_all(s, messages.drop_last()).updated(messages.last()).0
    }
}

proof fn lemma_generations_grow(s: SessionView, message: Message)
    requires
        s.open_gen() < u64::MAX,
    ensures
        s.updated(message).0.open_gen() >= s.open_gen(),
{
}

/// Generations do not repeat: whatever happens between two openings, tabs that
/// close and documents that fail included, the second has a higher one, as
/// long as there are numbers left.
pub proof fn law_generations_never_repeat(
    s: SessionView,
    first: OpenSource,
    messages: Seq<Message>,
    second: OpenSource,
)
    requires
        s.open_gen() < u64::MAX,
        forall|k: int|
            0 <= k <= messages.len() ==> #[trigger] after_all(
                s.open_begun(first).0,
                messages.take(k),
            ).open_gen() < u64::MAX,
    ensures
        s.open_begun(first).0.loading_gen() is Some,
        after_all(s.open_begun(first).0, messages).open_begun(second).0.loading_gen() is Some,
        after_all(s.open_begun(first).0, messages).open_begun(second).0.loading_gen()->0
            > s.open_begun(first).0.loading_gen()->0,
    decreases messages.len(),
{
    let a = s.open_begun(first).0;
    assert(messages.take(messages.len() as int) =~= messages);
    if messages.len() > 0 {
        let front = messages.drop_last();
        assert forall|k: int| 0 <= k <= front.len() implies #[trigger] after_all(
            a,
            front.take(k),
        ).open_gen() < u64::MAX by {
            assert(front.take(k) =~= messages.take(k));
        }
        law_generations_never_repeat(s, first, front, second);
        assert(front.take(front.len() as int) =~= front);
        lemma_generations_grow(after_all(a, front), messages.last());
    }
}

/// A copy that was saved is the most recent document in every tab.
pub proof fn law_saved_copy_is_recent(
    tabs: TabsView,
    gen: u64,
    message: Message,
    i: int,
)
    requires
        tabs.wf(),
        tabs.by_gen(gen) is Some,
        message is SaveCopyDone,
        message->SaveCopyDone_saved is Ok,
        0 <= i < tabs.docs.len(),
    ensures
        match SessionView::Ready(tabs).on_answer(gen, message).0 {
            SessionView::Ready(after) => {
                &&& after.docs[i].recents.len() > 0
                &&& after.docs[i].recents.first() == message->SaveCopyDone_dest@
            },
            _ => false,
        },
{
    lemma_gen_upto(tabs.docs, gen, tabs.docs.len() as int);
}

/// Where the pages stand below one another, a window of another size, and
/// another tab, scroll to the page that is read.
pub proof fn law_resized_document_stays_in_place(tabs: TabsView, viewport: Viewport, index: int)
    requires
        tabs.wf(),
    ensures
        ({
            let s = SessionView::Ready(tabs);
            let here = ActionView::ScrollTo { page: tabs.shown().visible };
            tabs.shown().view_mode == ViewMode::Continuous && tabs.shown().pages.total > 0 ==> {
                &&& s.resized(viewport).1.contains(here)
                &&& s.viewport_set(viewport).1.contains(here)
            }
        }),
        ({
            let s = SessionView::Ready(tabs);
            let other = tabs.docs[index];
            0 <= index < tabs.docs.len() && !s.modal() && other.view_mode == ViewMode::Continuous
                && other.pages.total > 0 ==> s.tab_selected(index).1.contains(
                ActionView::ScrollTo { page: other.visible },
            )
        }),
{
    let s = SessionView::Ready(tabs);
    if tabs.shown().view_mode == ViewMode::Continuous && tabs.shown().pages.total > 0 {
        let here = ActionView::ScrollTo { page: tabs.shown().visible };
        assert(s.resized(viewport).1[1] == here);
        assert(s.viewport_set(viewport).1[1] == here);
    }
    if 0 <= index < tabs.docs.len() && !s.modal() && tabs.docs[index].view_mode
        == ViewMode::Continuous && tabs.docs[index].pages.total > 0 {
        assert(s.tab_selected(index).1[1] == (ActionView::ScrollTo {
            page: tabs.docs[index].visible,
        }));
    }
}

/// Where a document stands, as it is taken down for a file of some size and
/// time.
pub open spec fn position_of(v: ReadyView, size: u64, mtime: u64) -> DocPosition {
    DocPosition { page: v.visible.0, zoom: v.zoom, mode: v.view_mode, size, mtime }
}

/// What is stored of where a document stands brings it back there when it is
/// opened again: the page, the zoom and the mode, a history of that page
/// alone, and a scrolled document scrolled to it. The file must be the same
/// still; for one that changed nothing is brought back.
pub proof fn law_stored_position_comes_back(
    v: ReadyView,
    w: ReadyView,
    entries: Seq<(Seq<char>, DocPosition)>,
    size: u64,
    mtime: u64,
    other: (u64, u64),
)
    requires
        same_place(v.source.place(), w.source.place()),
        v.visible.0 < w.pages.total,
    ensures
        v.position_action() == (ActionView::SavePosition {
            path: v.source.place(),
            page: position_of(v, size, mtime).page,
            zoom: position_of(v, size, mtime).zoom,
            mode: position_of(v, size, mtime).mode,
        }),
        ({
            let stored = recorded(entries, v.source.place(), position_of(v, size, mtime));
            let found = left_at(stored, w.source.place(), Some((size, mtime)));
            let after = w.restored(found);
            &&& found == Some(position_of(v, size, mtime))
            &&& after == (ReadyView {
                visible: v.visible,
                zoom: v.zoom,
                view_mode: v.view_mode,
                history: HistoryView::at(v.visible),
                ..w
            })
            &&& !after.history.can_step(false)
            &&& !after.history.can_step(true)
            &&& align(w, found) == given(
                v.view_mode == ViewMode::Continuous,
                ActionView::Align { viewport: w.viewport },
            )
            &&& other.0 != size || !same_time(mtime, other.1) ==> w.restored(
                left_at(stored, w.source.place(), Some(other)),
            ) == w
            &&& w.restored(left_at(stored, w.source.place(), None)) == w
        }),
{
    law_recorded_is_found(
        entries,
        v.source.place(),
        position_of(v, size, mtime),
        w.source.place(),
        other.0,
        other.1,
    );
}

/// A document that opens is shown where it was left: the page, the zoom and
/// the mode, and a history of that page alone.
pub proof fn law_document_opens_where_left(
    s: SessionView,
    gen: u64,
    ready: Ready,
    stored: Seq<Seq<char>>,
    pos: DocPosition,
)
    requires
        s.wf(),
        s.loading_gen() == Some(gen),
        pos.page < ready@.pages.total,
    ensures
        match s.open_applied(gen, Ok(ready), stored, Some(pos)).0 {
            SessionView::Ready(tabs) => {
                &&& tabs.shown().visible == PageNo(pos.page)
                &&& tabs.shown().zoom == pos.zoom
                &&& tabs.shown().view_mode == pos.mode
                &&& tabs.shown().history == HistoryView::at(PageNo(pos.page))
            },
            _ => false,
        },
        pos.mode == ViewMode::Continuous ==> s.open_applied(
            gen,
            Ok(ready),
            stored,
            Some(pos),
        ).1.contains(ActionView::Align { viewport: ready.viewport }),
{
    let after = s.open_applied(gen, Ok(ready), stored, Some(pos));
    if pos.mode == ViewMode::Continuous {
        assert(after.1[1] == (ActionView::Align { viewport: ready.viewport }));
    }
}

} // verus!
