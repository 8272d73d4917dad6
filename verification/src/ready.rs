//! A document in the window: its state, and how the reader moves through it.

use vstd::prelude::*;

use crate::annot::{Marks, MarksView};
use crate::browse::{texts, Theme};
use crate::cache::{one_each, KeySet, PageSet, RenderKey, SurfaceCache, Surfaces, ThumbCache, ThumbEntry};
use crate::find::{Search, SearchView};
use crate::history::{History, HistoryView};
use crate::numbers::{decimal_upto, number_text, parse_u32, shown, trim, trimmed};
use crate::outline::{maybe_path, path_set};
use crate::page::{Coord, MediaBox, Outline, PageNo, Point, TextLayer, Viewport, ONE};
use crate::positions::DocPosition;
use crate::print::{PrintDialog, PrintDialogView, MAX_COPIES};
use crate::state::{
    Action, ActionView, CatalogView, NavCmd, NoteDraft, NoteDraftView, NoteDrag, OpenError, OpenSource,
    PageCatalog, PdfAnalysis, PressAnchor, Selection, ViewMode, Zoom,
};
use crate::text::maybe_text;

verus! {

/// The bits of the width that a document is shown in before the window says
/// how large it is.
pub const DEFAULT_WIDTH: i32 = 0x4470_0000;

/// The bits of the height that a document is shown in before the window says
/// how large it is.
pub const DEFAULT_HEIGHT: i32 = 0x4434_0000;

/// A document in the window.
#[derive(Debug)]
pub struct Ready {
    pub source: OpenSource,
    /// Which of the engine's documents this is.
    pub engine: u64,
    pub pages: PageCatalog,
    pub signatures: PdfAnalysis,
    pub zoom: Zoom,
    pub visible: PageNo,
    pub history: History,
    pub view_mode: ViewMode,
    /// Quarter turns, clockwise.
    pub view_rotation: u8,
    /// The page number as it is being typed, counted from one.
    pub page_input: String,
    pub search: Search,
    pub selection: Option<Selection>,
    pub marks: Marks,
    pub press_anchor: Option<PressAnchor>,
    pub note_draft: Option<NoteDraft>,
    pub note_drag: Option<NoteDrag>,
    /// Where the sheet stood in the window at the last press, and how far the
    /// document was scrolled then.
    pub sheet_at: Point,
    pub sheet_scroll: Coord,
    pub signatures_open: bool,
    pub pages_open: bool,
    /// Whether the pages panel shows the table of contents.
    pub outline_open: bool,
    pub outline: Option<Outline>,
    pub outline_collapsed: Vec<Vec<usize>>,
    pub outline_cursor: Option<Vec<usize>>,
    pub outline_load_issued: bool,
    pub theme: Theme,
    pub overflow_open: bool,
    pub print_dialog: Option<PrintDialog>,
    pub print_status: Option<String>,
    pub save_status: Option<String>,
    pub save_warning: bool,
    pub pages_scroll_y: Coord,
    pub doc_scroll_y: Coord,
    pub recents: Vec<String>,
    pub render_scale: Coord,
    /// What answers to this document's questions are told apart by.
    pub open_gen: u64,
    /// What renders are told apart by that were asked for before a change.
    pub render_gen: u64,
    pub surfaces: SurfaceCache,
    pub thumbs: ThumbCache,
    pub render_inflight: KeySet,
    pub failed: KeySet,
    pub page_data_inflight: PageSet,
    pub page_data_failed: PageSet,
    pub viewport: Viewport,
}

/// What a document in the window holds.
pub struct ReadyView {
    pub source: OpenSource,
    pub engine: u64,
    pub pages: CatalogView,
    pub signatures: PdfAnalysis,
    pub zoom: Zoom,
    pub visible: PageNo,
    pub history: HistoryView,
    pub view_mode: ViewMode,
    pub view_rotation: u8,
    pub page_input: Seq<char>,
    pub search: SearchView,
    pub selection: Option<Selection>,
    pub marks: MarksView,
    pub press_anchor: Option<PressAnchor>,
    pub note_draft: Option<NoteDraftView>,
    pub note_drag: Option<NoteDrag>,
    pub sheet_at: Point,
    pub sheet_scroll: Coord,
    pub signatures_open: bool,
    pub pages_open: bool,
    pub outline_open: bool,
    pub outline: Option<Outline>,
    pub outline_collapsed: Set<Seq<usize>>,
    pub outline_cursor: Option<Seq<usize>>,
    pub outline_load_issued: bool,
    pub theme: Theme,
    pub overflow_open: bool,
    pub print_dialog: Option<PrintDialogView>,
    pub print_status: Option<Seq<char>>,
    pub save_status: Option<Seq<char>>,
    pub save_warning: bool,
    pub pages_scroll_y: Coord,
    pub doc_scroll_y: Coord,
    pub recents: Seq<Seq<char>>,
    pub render_scale: Coord,
    pub open_gen: u64,
    pub render_gen: u64,
    pub surfaces: Surfaces,
    pub thumbs: Seq<ThumbEntry>,
    pub render_inflight: Set<RenderKey>,
    pub failed: Set<RenderKey>,
    pub page_data_inflight: Set<u32>,
    pub page_data_failed: Set<u32>,
    pub viewport: Viewport,
}

/// What a dialog holds that may be open.
pub open spec fn maybe_dialog(dialog: Option<PrintDialog>) -> Option<PrintDialogView> {
    match dialog {
        Some(d) => Some(d@),
        None => None,
    }
}

/// What a note holds that may be open.
pub open spec fn maybe_draft(draft: Option<NoteDraft>) -> Option<NoteDraftView> {
    match draft {
        Some(d) => Some(d@),
        None => None,
    }
}

/// The text of those of the first `n` pages that were read.
pub open spec fn read_layers(text: Seq<Option<TextLayer>>, n: int) -> Seq<TextLayer>
    decreases n,
{
    if n <= 0 {
        Seq::empty()
    } else {
        match text[n - 1] {
            Some(layer) => read_layers(text, n - 1).push(layer),
            None => read_layers(text, n - 1),
        }
    }
}

impl View for Ready {
    type V = ReadyView;

    open spec fn view(&self) -> ReadyView {
        ReadyView {
            source: self.source,
            engine: self.engine,
            pages: self.pages@,
            signatures: self.signatures,
            zoom: self.zoom,
            visible: self.visible,
            history: self.history@,
            view_mode: self.view_mode,
            view_rotation: self.view_rotation,
            page_input: self.page_input@,
            search: self.search@,
            selection: self.selection,
            marks: self.marks@,
            press_anchor: self.press_anchor,
            note_draft: maybe_draft(self.note_draft),
            note_drag: self.note_drag,
            sheet_at: self.sheet_at,
            sheet_scroll: self.sheet_scroll,
            signatures_open: self.signatures_open,
            pages_open: self.pages_open,
            outline_open: self.outline_open,
            outline: self.outline,
            outline_collapsed: path_set(self.outline_collapsed@),
            outline_cursor: maybe_path(self.outline_cursor),
            outline_load_issued: self.outline_load_issued,
            theme: self.theme,
            overflow_open: self.overflow_open,
            print_dialog: maybe_dialog(self.print_dialog),
            print_status: maybe_text(self.print_status),
            save_status: maybe_text(self.save_status),
            save_warning: self.save_warning,
            pages_scroll_y: self.pages_scroll_y,
            doc_scroll_y: self.doc_scroll_y,
            recents: texts(self.recents@),
            render_scale: self.render_scale,
            open_gen: self.open_gen,
            render_gen: self.render_gen,
            surfaces: self.surfaces.pages@,
            thumbs: self.thumbs.entries@,
            render_inflight: self.render_inflight@,
            failed: self.failed@,
            page_data_inflight: self.page_data_inflight@,
            page_data_failed: self.page_data_failed@,
            viewport: self.viewport,
        }
    }
}

/// The generation that follows another; zero is left out.
pub open spec fn next_gen(gen: u64) -> u64 {
    if gen == u64::MAX {
        1
    } else {
        (gen + 1) as u64
    }
}

/// The generation that follows another; zero is left out.
pub fn following_gen(gen: u64) -> (r: u64)
    ensures
        r == next_gen(gen),
        r != 0,
{
    if gen == u64::MAX {
        1
    } else {
        gen + 1
    }
}

/// A number of copies that can be asked for, and a printer that is listed.
pub open spec fn dialog_wf(dialog: PrintDialogView) -> bool {
    &&& 1 <= dialog.copies <= MAX_COPIES
    &&& match dialog.selected {
        Some(i) => i < dialog.printers.len(),
        None => true,
    }
}

impl ReadyView {
    /// The visible page is one of the document's, the turn is less than a
    /// whole one, no page is kept twice, and the parts are sound.
    pub open spec fn wf(self) -> bool {
        &&& self.pages.wf()
        &&& if self.pages.total == 0 {
            self.visible.0 == 0
        } else {
            self.visible.0 < self.pages.total
        }
        &&& self.history.wf()
        &&& self.view_rotation < 4
        &&& self.search.wf()
        &&& self.marks.wf()
        &&& one_each(self.surfaces)
        &&& self.render_gen != 0
        &&& match self.print_dialog {
            Some(dialog) => dialog_wf(dialog),
            None => true,
        }
    }

    /// The size of a page; of one that was not read, one point by one.
    pub open spec fn media(self, page: PageNo) -> MediaBox {
        match self.pages.media_of(page) {
            Some(media) => media,
            None => MediaBox { width: Coord(ONE), height: Coord(ONE) },
        }
    }

    /// The size of a page as it is shown.
    pub open spec fn rotated_media(self, page: PageNo) -> MediaBox {
        let media = self.media(page);
        if self.view_rotation & 1 == 1 {
            MediaBox { width: media.height, height: media.width }
        } else {
            media
        }
    }

    /// Whether there are numbers left for new marks.
    pub open spec fn room(self) -> bool {
        self.marks.next_id < u64::MAX
    }

    /// The page number as the reader counts; nothing without pages.
    pub open spec fn page_label(self) -> Seq<char> {
        if self.pages.total == 0 {
            Seq::empty()
        } else {
            shown((self.visible.0 + 1) as nat)
        }
    }

    /// The typed page number brought back to that of the visible page.
    pub open spec fn synced(self) -> ReadyView {
        ReadyView { page_input: self.page_label(), ..self }
    }

    pub open spec fn bumped(self) -> ReadyView {
        ReadyView { render_gen: next_gen(self.render_gen), ..self }
    }

    /// The page that a way leads to: the last one where it leads beyond.
    pub open spec fn target(self, page: PageNo) -> PageNo {
        if page.0 < self.pages.total {
            page
        } else {
            PageNo((self.pages.total - 1) as u32)
        }
    }

    /// Whether a way leads to another page than the visible one.
    pub open spec fn leads_on(self, page: PageNo) -> bool {
        self.pages.total > 0 && self.target(page) != self.visible
    }

    pub open spec fn gone_to(self, page: PageNo) -> ReadyView {
        if self.leads_on(page) {
            ReadyView { visible: self.target(page), ..self }.bumped().synced()
        } else {
            self.synced()
        }
    }

    /// A way to another page that the history takes down.
    pub open spec fn navigated(self, page: PageNo) -> ReadyView {
        let after = self.gone_to(page);
        if self.leads_on(page) {
            ReadyView { history: after.history.visited(after.visible), ..after }
        } else {
            after
        }
    }

    /// The history as a step finds it: a page that was scrolled to counts as
    /// visited.
    pub open spec fn caught_up(self) -> HistoryView {
        self.history.visited(self.visible)
    }

    pub open spec fn history_gone(self, forward: bool) -> ReadyView {
        let history = self.caught_up();
        if history.can_step(forward) {
            let after = ReadyView { history: history.stepped(forward), ..self };
            after.gone_to(after.history.current())
        } else {
            ReadyView { history, ..self }
        }
    }

    /// The page that a way leads to; none where there is no page to go to.
    pub open spec fn nav_page(self, cmd: NavCmd) -> Option<PageNo> {
        match cmd {
            NavCmd::Previous => Some(
                PageNo(
                    if self.visible.0 > 0 {
                        (self.visible.0 - 1) as u32
                    } else {
                        0
                    },
                ),
            ),
            NavCmd::Next => if self.pages.total == 0 {
                None
            } else if self.visible.0 + 1 < self.pages.total {
                Some(PageNo((self.visible.0 + 1) as u32))
            } else {
                Some(PageNo((self.pages.total - 1) as u32))
            },
            NavCmd::First => Some(PageNo(0)),
            NavCmd::Last => if self.pages.total == 0 {
                None
            } else {
                Some(PageNo((self.pages.total - 1) as u32))
            },
            NavCmd::GoTo(page) => Some(page),
        }
    }

    /// The page that was typed; none where that is no number, or there are no
    /// pages.
    pub open spec fn typed_page(self) -> Option<PageNo> {
        if self.pages.total == 0 {
            None
        } else {
            match decimal_upto(trimmed(self.page_input), u32::MAX as nat) {
                Some(n) => if n == 0 {
                    Some(PageNo(0))
                } else if n <= self.pages.total {
                    Some(PageNo((n - 1) as u32))
                } else {
                    Some(PageNo((self.pages.total - 1) as u32))
                },
                None => None,
            }
        }
    }

    /// A way that may lead nowhere.
    pub open spec fn navigated_to(self, page: Option<PageNo>) -> ReadyView {
        match page {
            Some(p) => self.navigated(p),
            None => self.synced(),
        }
    }

    /// Whether a way that may lead nowhere leads to another page.
    pub open spec fn leads(self, page: Option<PageNo>) -> bool {
        match page {
            Some(p) => self.leads_on(p),
            None => false,
        }
    }

    /// Back to where the document was left.
    pub open spec fn restored(self, position: Option<DocPosition>) -> ReadyView {
        match position {
            Some(pos) => {
                let page = if self.pages.total == 0 {
                    PageNo(0)
                } else if pos.page < self.pages.total {
                    PageNo(pos.page)
                } else {
                    PageNo((self.pages.total - 1) as u32)
                };
                ReadyView {
                    zoom: pos.zoom,
                    view_mode: pos.mode,
                    visible: page,
                    history: HistoryView::at(page),
                    ..self
                }
            },
            None => self,
        }
    }

    /// What is stored of where the document stands.
    pub open spec fn position_action(self) -> ActionView {
        ActionView::SavePosition {
            path: self.source.place(),
            page: self.visible.0,
            zoom: self.zoom,
            mode: self.view_mode,
        }
    }

    /// Where the document is scrolled to after a change, if it is scrolled.
    pub open spec fn follow(self) -> Seq<ActionView> {
        if self.view_mode == ViewMode::Continuous && self.pages.total > 0 {
            seq![ActionView::ScrollTo { page: self.visible }]
        } else {
            Seq::empty()
        }
    }

    /// A document that was just read.
    pub open spec fn opened(
        source: OpenSource,
        engine: u64,
        pages: CatalogView,
        signatures: PdfAnalysis,
    ) -> ReadyView {
        ReadyView {
            source,
            engine,
            pages,
            signatures,
            zoom: Zoom::Width,
            visible: PageNo(0),
            history: HistoryView::at(PageNo(0)),
            view_mode: ViewMode::Single,
            view_rotation: 0,
            page_input: if pages.total == 0 {
                Seq::empty()
            } else {
                shown(1)
            },
            search: SearchView { query: Seq::empty(), hits: Seq::empty() },
            selection: None,
            marks: MarksView::none(),
            press_anchor: None,
            note_draft: None,
            note_drag: None,
            sheet_at: Point { x: Coord(0), y: Coord(0) },
            sheet_scroll: Coord(0),
            signatures_open: false,
            pages_open: false,
            outline_open: false,
            outline: None,
            outline_collapsed: Set::empty(),
            outline_cursor: None,
            outline_load_issued: false,
            theme: Theme::Dark,
            overflow_open: false,
            print_dialog: None,
            print_status: None,
            save_status: None,
            save_warning: false,
            pages_scroll_y: Coord(0),
            doc_scroll_y: Coord(0),
            recents: Seq::empty(),
            render_scale: Coord(ONE),
            open_gen: 0,
            render_gen: 1,
            surfaces: Seq::empty(),
            thumbs: Seq::empty(),
            render_inflight: Set::empty(),
            failed: Set::empty(),
            page_data_inflight: Set::empty(),
            page_data_failed: Set::empty(),
            viewport: Viewport { width: Coord(DEFAULT_WIDTH), height: Coord(DEFAULT_HEIGHT) },
        }
    }
}

impl Ready {
    pub open spec fn wf(self) -> bool {
        self@.wf()
    }

    /// A document that was just read.
    pub fn opened(source: OpenSource, engine: u64, pages: PageCatalog, signatures: PdfAnalysis) -> (r:
        Ready)
        requires
            pages@.wf(),
        ensures
            r@ == ReadyView::opened(source, engine, pages@, signatures),
            r.wf(),
    {
        let input = if pages.total == 0 {
            String::new()
        } else {
            number_text(1)
        };
        let no_pages: Vec<Option<TextLayer>> = Vec::new();
        let r = Ready {
            source,
            engine,
            pages,
            signatures,
            zoom: Zoom::Width,
            visible: PageNo::first(),
            history: History::new(PageNo::first()),
            view_mode: ViewMode::Single,
            view_rotation: 0,
            page_input: input,
            search: Search::derive("", &no_pages),
            selection: None,
            marks: Marks::new(),
            press_anchor: None,
            note_draft: None,
            note_drag: None,
            sheet_at: Point { x: Coord(0), y: Coord(0) },
            sheet_scroll: Coord(0),
            signatures_open: false,
            pages_open: false,
            outline_open: false,
            outline: None,
            outline_collapsed: Vec::new(),
            outline_cursor: None,
            outline_load_issued: false,
            theme: Theme::Dark,
            overflow_open: false,
            print_dialog: None,
            print_status: None,
            save_status: None,
            save_warning: false,
            pages_scroll_y: Coord(0),
            doc_scroll_y: Coord(0),
            recents: Vec::new(),
            render_scale: Coord(ONE),
            open_gen: 0,
            render_gen: 1,
            surfaces: SurfaceCache::new(),
            thumbs: ThumbCache::new(),
            render_inflight: KeySet::new(),
            failed: KeySet::new(),
            page_data_inflight: PageSet::new(),
            page_data_failed: PageSet::new(),
            viewport: Viewport { width: Coord(DEFAULT_WIDTH), height: Coord(DEFAULT_HEIGHT) },
        };
        proof {
            reveal_strlit("");
            assert(r@.search.query =~= Seq::<char>::empty());
            assert(r@.page_input =~= ReadyView::opened(source, engine, pages@, signatures).page_input);
            assert(r@.outline_collapsed =~= Set::<Seq<usize>>::empty());
            assert(r@.recents =~= Seq::<Seq<char>>::empty());
        }
        r
    }

    /// A document from what was read of it: the engine's number for it and
    /// how many pages it has, the first of them, and its signatures. The
    /// first that failed is what failed.
    pub fn from_parts(
        source: OpenSource,
        opened: Result<(u64, u32), String>,
        first: Result<(MediaBox, TextLayer), String>,
        signatures: Result<PdfAnalysis, String>,
    ) -> (r: Result<Ready, OpenError>)
        ensures
            match opened {
                Err(e) => r == Err::<Ready, OpenError>(OpenError::Engine(e)),
                Ok((engine, total)) => if total > 0 && first is Err {
                    r == Err::<Ready, OpenError>(OpenError::Engine(first->Err_0))
                } else {
                    match signatures {
                        Err(e) => r == Err::<Ready, OpenError>(OpenError::Sign(e)),
                        Ok(found) => r is Ok && r->Ok_0.wf() && r->Ok_0@ == ReadyView::opened(
                            source,
                            engine,
                            CatalogView::opened(
                                total,
                                if total > 0 {
                                    Some(first->Ok_0)
                                } else {
                                    None
                                },
                            ),
                            found,
                        ),
                    }
                },
            },
    {
        let (engine, total): (u64, u32) = match opened {
            Ok(pair) => pair,
            Err(e) => {
                return Err(OpenError::Engine(e));
            },
        };
        let first_page: Option<(MediaBox, TextLayer)> = if total > 0 {
            match first {
                Ok(page) => Some(page),
                Err(e) => {
                    return Err(OpenError::Engine(e));
                },
            }
        } else {
            None
        };
        let pages = PageCatalog::extract_first(total, first_page);
        match signatures {
            Ok(found) => Ok(Ready::opened(source, engine, pages, found)),
            Err(e) => Err(OpenError::Sign(e)),
        }
    }

    pub fn page_count(&self) -> (n: u32)
        ensures
            n == self@.pages.total,
    {
        self.pages.total
    }

    /// The size of a page; of one that was not read, one point by one.
    pub fn media(&self, page: PageNo) -> (media: MediaBox)
        ensures
            media == self@.media(page),
    {
        match self.pages.loaded_media(page) {
            Some(media) => media,
            None => MediaBox { width: Coord(ONE), height: Coord(ONE) },
        }
    }

    /// The size of a page as it is shown: on its side after an odd number of
    /// quarter turns.
    pub fn rotated_media(&self, page: PageNo) -> (media: MediaBox)
        ensures
            media == self@.rotated_media(page),
    {
        let media = self.media(page);
        if self.view_rotation & 1 == 1 {
            MediaBox { width: media.height, height: media.width }
        } else {
            media
        }
    }

    /// The text of the pages that were read, in their order.
    pub fn text_layers(&self) -> (layers: Vec<&TextLayer>)
        ensures
            layers@.len() == read_layers(self@.pages.text, self@.pages.text.len() as int).len(),
            forall|k: int|
                0 <= k < layers@.len() ==> *(#[trigger] layers@[k]) == read_layers(
                    self@.pages.text,
                    self@.pages.text.len() as int,
                )[k],
    {
        let mut layers: Vec<&TextLayer> = Vec::new();
        let mut i: usize = 0;
        while i < self.pages.text.len()
            invariant
                i <= self.pages.text@.len(),
                layers@.len() == read_layers(self.pages.text@, i as int).len(),
                forall|k: int|
                    0 <= k < layers@.len() ==> *(#[trigger] layers@[k]) == read_layers(
                        self.pages.text@,
                        i as int,
                    )[k],
            decreases self.pages.text@.len() - i,
        {
            if let Some(layer) = &self.pages.text[i] {
                layers.push(layer);
            }
            i += 1;
        }
        layers
    }

    pub fn page_input(&self) -> (text: &str)
        ensures
            text@ == self@.page_input,
    {
        self.page_input.as_str()
    }

    pub fn viewport(&self) -> (viewport: Viewport)
        ensures
            viewport == self@.viewport,
    {
        self.viewport
    }

    pub fn recents(&self) -> (recents: &Vec<String>)
        ensures
            texts(recents@) == self@.recents,
    {
        &self.recents
    }

    pub fn can_history_back(&self) -> (r: bool)
        ensures
            r == self@.history.can_step(false),
    {
        self.history.can_back()
    }

    pub fn can_history_forward(&self) -> (r: bool)
        requires
            self.wf(),
        ensures
            r == self@.history.can_step(true),
    {
        self.history.can_forward()
    }

    pub fn sync_page_input(&mut self)
        requires
            old(self).wf(),
        ensures
            final(self)@ == old(self)@.synced(),
            final(self).wf(),
    {
        if self.pages.total == 0 {
            self.page_input = String::new();
            assert(self.page_input@ =~= Seq::<char>::empty());
        } else {
            self.page_input = number_text(self.visible.index() as u64 + 1);
        }
    }

    pub fn bump_render_gen(&mut self)
        ensures
            final(self)@ == old(self)@.bumped(),
            old(self).wf() ==> final(self).wf(),
    {
        self.render_gen = following_gen(self.render_gen);
    }

    /// Goes to a page, without a word to the history; whether it is another
    /// one.
    pub fn go_to(&mut self, page: PageNo) -> (moved: bool)
        requires
            old(self).wf(),
        ensures
            final(self)@ == old(self)@.gone_to(page),
            final(self).wf(),
            moved == old(self)@.leads_on(page),
    {
        if self.pages.total == 0 {
            self.sync_page_input();
            return false;
        }
        let target: PageNo = if page.index() < self.pages.total {
            page
        } else {
            PageNo::from_index(self.pages.total - 1)
        };
        if target == self.visible {
            self.sync_page_input();
            return false;
        }
        self.visible = target;
        self.bump_render_gen();
        self.sync_page_input();
        true
    }

    /// Goes to a page; whether it is another one, whose position is to be
    /// stored.
    pub fn navigate_to(&mut self, page: PageNo) -> (moved: bool)
        requires
            old(self).wf(),
        ensures
            final(self)@ == old(self)@.navigated(page),
            final(self).wf(),
            moved == old(self)@.leads_on(page),
    {
        if self.go_to(page) {
            self.history.visit(self.visible);
            true
        } else {
            false
        }
    }

    /// Goes a step back or forward in the history; whether there was one.
    pub fn history_go(&mut self, forward: bool) -> (moved: bool)
        requires
            old(self).wf(),
        ensures
            final(self)@ == old(self)@.history_gone(forward),
            final(self).wf(),
            moved == old(self)@.caught_up().can_step(forward),
    {
        self.history.visit(self.visible);
        match self.history.step(forward) {
            None => false,
            Some(page) => {
                self.go_to(page);
                true
            },
        }
    }

    /// Goes where a command leads; whether that is another page.
    pub fn apply_nav(&mut self, cmd: NavCmd) -> (moved: bool)
        requires
            old(self).wf(),
        ensures
            final(self)@ == old(self)@.navigated_to(old(self)@.nav_page(cmd)),
            final(self).wf(),
            moved == old(self)@.leads(old(self)@.nav_page(cmd)),
    {
        let total: u32 = self.pages.total;
        match cmd {
            NavCmd::Previous => {
                let idx: u32 = if self.visible.index() > 0 {
                    self.visible.index() - 1
                } else {
                    0
                };
                self.navigate_to(PageNo::from_index(idx))
            },
            NavCmd::Next => {
                if total == 0 {
                    self.sync_page_input();
                    return false;
                }
                let idx: u32 = if self.visible.index() < total - 1 {
                    self.visible.index() + 1
                } else {
                    total - 1
                };
                self.navigate_to(PageNo::from_index(idx))
            },
            NavCmd::First => self.navigate_to(PageNo::first()),
            NavCmd::Last => {
                if total == 0 {
                    self.sync_page_input();
                    return false;
                }
                self.navigate_to(PageNo::from_index(total - 1))
            },
            NavCmd::GoTo(page) => self.navigate_to(page),
        }
    }

    /// Goes to the page that was typed; whether that is another page.
    pub fn submit_page_input(&mut self) -> (moved: bool)
        requires
            old(self).wf(),
        ensures
            final(self)@ == old(self)@.navigated_to(old(self)@.typed_page()),
            final(self).wf(),
            moved == old(self)@.leads(old(self)@.typed_page()),
    {
        let total: u32 = self.pages.total;
        if total == 0 {
            self.sync_page_input();
            return false;
        }
        let draft = trim(self.page_input.as_str());
        match parse_u32(draft.as_str()) {
            Some(n) => {
                let idx: u32 = if n == 0 {
                    0
                } else if n <= total {
                    n - 1
                } else {
                    total - 1
                };
                self.navigate_to(PageNo::from_index(idx))
            },
            None => {
                self.sync_page_input();
                false
            },
        }
    }

    /// Goes back to where the document was left; whether it is scrolled to
    /// that page.
    pub fn restore_position(&mut self, position: Option<DocPosition>) -> (align: bool)
        requires
            old(self).wf(),
        ensures
            final(self)@ == old(self)@.restored(position),
            final(self).wf(),
            align == (position is Some && position->0.mode == ViewMode::Continuous),
    {
        match position {
            None => false,
            Some(pos) => {
                self.zoom = pos.zoom;
                self.view_mode = pos.mode;
                let idx: u32 = if self.pages.total == 0 {
                    0
                } else if pos.page < self.pages.total {
                    pos.page
                } else {
                    self.pages.total - 1
                };
                self.visible = PageNo::from_index(idx);
                self.history.reset(self.visible);
                pos.mode == ViewMode::Continuous
            },
        }
    }

    /// What is stored of where the document stands.
    pub fn save_position(&self) -> (action: Action)
        ensures
            action@ == self@.position_action(),
    {
        Action::SavePosition {
            path: self.source.path().to_owned(),
            page: self.visible.index(),
            zoom: self.zoom,
            mode: self.view_mode,
        }
    }
}

/// Wherever a way leads, the reader is on a page of the document, and the
/// page number shows it.
pub proof fn law_navigation_stays_in_document(v: ReadyView, page: PageNo)
    requires
        v.wf(),
        v.pages.total > 0,
    ensures
        v.navigated(page).visible.0 < v.pages.total,
        page.0 < v.pages.total ==> v.navigated(page).visible == page,
        v.navigated(page).page_input == shown((v.navigated(page).visible.0 + 1) as nat),
{
}

/// A step back after a way to another page leads to the page before, if the
/// history knew of it.
pub proof fn law_back_returns(v: ReadyView, page: PageNo)
    requires
        v.wf(),
        v.leads_on(page),
        v.history.current() == v.visible,
    ensures
        v.navigated(page).history_gone(false).visible == v.visible,
        v.navigated(page).history_gone(false).history_gone(true).visible == v.navigated(
            page,
        ).visible,
{
    let there = v.navigated(page);
    assert(there.history == v.history.visited(there.visible));
    assert(there.history.current() == there.visible);
    let back = there.history_gone(false);
    assert(back.history.current() == v.visible);
    assert(back.visible == v.visible);
    assert(back.caught_up() == back.history);
}

/// What renders were asked for before a way to another page is told apart
/// from what is asked for after it.
pub proof fn law_navigation_renews_renders(v: ReadyView, page: PageNo)
    requires
        v.wf(),
        v.leads_on(page),
    ensures
        v.navigated(page).render_gen != v.render_gen,
{
}

} // verus!
