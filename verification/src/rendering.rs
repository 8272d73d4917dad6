//! What is rendered next for a document, and what is kept of it.

use vstd::prelude::*;

use crate::cache::{
    entry_of, exact_surface, kept, key_of, law_budget_is_kept, lemma_entry, lemma_only_pages, neighbor_page_set, neighbor_total, neighbors, only_pages, only_thumbs,
    quarter, render_key, surface_of, thumb_of, with_surface, with_thumb, within_budget, CachedSurface,
    RenderKey, NEIGHBOR_CACHE_BUDGET,
};
use crate::page::{capped, PageNo, PageSurface, Scale};
use crate::print::{list_pages, pages_between};
use crate::ready::{Ready, ReadyView};
use crate::state::{Action, ActionView, Geometry, ViewMode};

verus! {

/// How many rows of the pages panel are seen at once.
pub const THUMB_VISIBLE: u32 = 8;

/// How many rows beyond those are made ready.
pub const THUMB_PREFETCH: u32 = 3;

/// What is rendered: a page, in a scale and a turn.
pub type Target = (PageNo, Scale, u8);

/// The first of the pages that holds.
pub open spec fn first_where(pages: Seq<PageNo>, holds: spec_fn(PageNo) -> bool, n: int) -> Option<
    PageNo,
>
    decreases n,
{
    if n <= 0 {
        None
    } else {
        match first_where(pages, holds, n - 1) {
            Some(page) => Some(page),
            None => if holds(pages[n - 1]) {
                Some(pages[n - 1])
            } else {
                None
            },
        }
    }
}

proof fn lemma_first_stays(pages: Seq<PageNo>, holds: spec_fn(PageNo) -> bool, m: int, n: int)
    requires
        m <= n,
        first_where(pages, holds, m) is Some,
    ensures
        first_where(pages, holds, n) == first_where(pages, holds, m),
    decreases n,
{
    if m < n {
        lemma_first_stays(pages, holds, m, n - 1);
    }
}

proof fn lemma_first_holds(pages: Seq<PageNo>, holds: spec_fn(PageNo) -> bool, n: int)
    ensures
        first_where(pages, holds, n) is Some ==> holds(first_where(pages, holds, n)->0),
    decreases n,
{
    if n > 0 {
        lemma_first_holds(pages, holds, n - 1);
    }
}

/// Pages, with one put in front of them.
pub open spec fn with_first(pages: Seq<PageNo>, page: Option<PageNo>) -> Seq<PageNo> {
    match page {
        Some(p) => seq![p] + pages,
        None => pages,
    }
}

/// Pages, and behind them the first `n` others that are not among them yet.
pub open spec fn with_others(pages: Seq<PageNo>, others: Seq<PageNo>, n: int) -> Seq<PageNo>
    decreases n,
{
    if n <= 0 {
        pages
    } else {
        let front = with_others(pages, others, n - 1);
        if front.contains(others[n - 1]) {
            front
        } else {
            front.push(others[n - 1])
        }
    }
}

/// The numbers of pages.
pub open spec fn page_numbers(pages: Seq<PageNo>) -> Set<u32> {
    Set::new(|n: u32| pages.contains(PageNo(n)))
}

impl ReadyView {
    /// The rows of the pages panel that are kept ready.
    pub open spec fn thumb_window(self, g: Geometry) -> Seq<PageNo> {
        let start = if g.thumb_first > THUMB_PREFETCH {
            g.thumb_first - THUMB_PREFETCH
        } else {
            0
        };
        let end = start + THUMB_VISIBLE + THUMB_PREFETCH * 2;
        pages_between(
            start,
            if end <= self.pages.total {
                end
            } else {
                self.pages.total as int
            },
        )
    }

    /// Where the scrolled pages that are kept ready begin: two before those
    /// that are seen.
    pub open spec fn window_start(self, g: Geometry) -> int {
        if self.pages.total == 0 || g.window_first < 2 {
            0
        } else {
            g.window_first - 2
        }
    }

    /// Where the scrolled pages that are kept ready end: two behind those that
    /// are seen.
    pub open spec fn window_end(self, g: Geometry) -> int {
        if self.pages.total == 0 {
            0
        } else if g.window_last + 3 <= self.pages.total {
            g.window_last + 3
        } else {
            self.pages.total as int
        }
    }

    /// The pages whose bitmaps are kept.
    pub open spec fn kept_pages(self, g: Geometry) -> Set<u32> {
        if self.view_mode == ViewMode::Continuous {
            page_numbers(pages_between(self.window_start(g), self.window_end(g)))
        } else {
            neighbors(self.visible.0, self.pages.total)
        }
    }

    /// The page that the preview of the print dialog shows.
    pub open spec fn preview_target(self) -> Option<PageNo> {
        match self.print_dialog {
            Some(dialog) => Some(dialog.preview_page(self.pages.total, self.visible)),
            None => None,
        }
    }

    /// The pages whose small bitmaps are kept: the rows of the panel while it
    /// is open, and the page that the preview shows.
    pub open spec fn kept_thumbs(self, g: Geometry) -> Set<u32> {
        let rows = if self.pages_open {
            page_numbers(self.thumb_window(g))
        } else {
            Set::empty()
        };
        match self.preview_target() {
            Some(page) => rows.insert(page.0),
            None => rows,
        }
    }

    /// What is not needed any more dropped.
    pub open spec fn evicted(self, g: Geometry) -> ReadyView {
        ReadyView {
            surfaces: within_budget(
                only_pages(self.surfaces, self.kept_pages(g)),
                self.visible.0,
                NEIGHBOR_CACHE_BUDGET,
            ),
            thumbs: only_thumbs(self.thumbs, self.kept_thumbs(g)),
            ..self
        }
    }

    /// Whether a page's bitmap is there in just the scale and turn that are
    /// needed.
    pub open spec fn is_shown(self, page: PageNo, g: Geometry) -> bool {
        exact_surface(self.surfaces, page, g.scale_of(page), self.view_rotation) is Some
    }

    /// Whether the render of a page that is needed failed before.
    pub open spec fn has_failed(self, page: PageNo, g: Geometry) -> bool {
        self.failed.contains(key_of(page, g.scale_of(page), self.view_rotation))
    }

    /// Whether a page was read, and its bitmap is neither there nor beyond
    /// hope.
    pub open spec fn lacks_bitmap(self, page: PageNo, g: Geometry) -> bool {
        self.pages.has(page) && !self.is_shown(page, g) && !self.has_failed(page, g)
    }

    /// The scrolled pages in the order in which they are rendered: from the
    /// visible one on, then those before it.
    pub open spec fn scroll_order(self, g: Geometry) -> Seq<PageNo> {
        let end = self.window_end(g);
        let middle = if self.visible.0 <= end {
            self.visible.0 as int
        } else {
            end
        };
        pages_between(middle, end) + pages_between(self.window_start(g), middle)
    }

    /// The page that is rendered ahead of time: the first of the scrolled
    /// ones that lacks its bitmap, or else the one behind the visible one.
    pub open spec fn ahead(self, g: Geometry) -> Option<PageNo> {
        if self.pages.total == 0 {
            None
        } else if self.view_mode == ViewMode::Continuous {
            first_where(
                self.scroll_order(g),
                |page: PageNo| self.lacks_bitmap(page, g),
                self.scroll_order(g).len() as int,
            )
        } else if self.visible.0 + 1 < self.pages.total && self.pages.has(
            PageNo((self.visible.0 + 1) as u32),
        ) {
            Some(PageNo((self.visible.0 + 1) as u32))
        } else {
            None
        }
    }

    /// Whether the bitmap of a page would still fit the budget.
    pub open spec fn fits_budget(self, page: PageNo, g: Geometry) -> bool {
        if page == self.visible {
            true
        } else {
            let retained = match surface_of(self.surfaces, page.0) {
                Some(s) => s.bytes(),
                None => 0,
            };
            let others = capped(neighbor_total(self.surfaces, self.visible.0));
            let rest = if others >= retained {
                others - retained
            } else {
                0
            };
            capped((rest + g.estimate_of(page)) as nat) <= NEIGHBOR_CACHE_BUDGET
        }
    }

    /// Whether anything is being rendered.
    pub open spec fn rendering(self) -> bool {
        self.render_inflight != Set::<RenderKey>::empty()
    }

    /// The visible page, if it is to be rendered next.
    pub open spec fn visible_target(self, g: Geometry) -> Option<PageNo> {
        if !self.rendering() && self.lacks_bitmap(self.visible, g) {
            Some(self.visible)
        } else {
            None
        }
    }

    /// The page that is rendered ahead of time, once the visible one is there.
    pub open spec fn speculative_target(self, g: Geometry) -> Option<PageNo> {
        if self.rendering() || !self.is_shown(self.visible, g) || !self.pages.has(self.visible) {
            None
        } else {
            match self.ahead(g) {
                Some(page) => if !self.is_shown(page, g) && !self.has_failed(page, g)
                    && self.fits_budget(page, g) {
                    Some(page)
                } else {
                    None
                },
                None => None,
            }
        }
    }

    /// The pages in the order in which their small bitmaps are rendered: the
    /// one that the preview shows, then the rows of the panel.
    pub open spec fn thumb_order(self, g: Geometry) -> Seq<PageNo> {
        with_first(
            if self.pages_open {
                self.thumb_window(g)
            } else {
                Seq::empty()
            },
            self.preview_target(),
        )
    }

    /// Whether the small bitmap of a page is to be rendered.
    pub open spec fn lacks_thumb(self, page: PageNo, g: Geometry) -> bool {
        self.pages.media_of(page) is Some && thumb_of(
            self.thumbs,
            page,
            g.thumb_scale_of(page),
        ) is None && !self.failed.contains(key_of(page, g.thumb_scale_of(page), 0))
    }

    /// The page whose small bitmap is rendered next.
    pub open spec fn thumb_target(self, g: Geometry) -> Option<PageNo> {
        if self.rendering() || self.page_data_inflight != Set::<u32>::empty() || (!self.pages_open
            && self.print_dialog is None) {
            None
        } else if !self.pages.has(self.visible) && surface_of(self.surfaces, self.visible.0) is None {
            None
        } else {
            first_where(
                self.thumb_order(g),
                |page: PageNo| self.lacks_thumb(page, g),
                self.thumb_order(g).len() as int,
            )
        }
    }

    /// The pages in the order in which they are read: the visible one, the
    /// one behind it, the rows of the panel while it is open.
    pub open spec fn read_order(self, g: Geometry) -> Seq<PageNo> {
        let here = seq![self.visible];
        let near = if self.visible.0 + 1 < self.pages.total {
            here.push(PageNo((self.visible.0 + 1) as u32))
        } else {
            here
        };
        if self.pages_open {
            with_others(near, self.thumb_window(g), self.thumb_window(g).len() as int)
        } else {
            near
        }
    }

    /// Whether a page is to be read.
    pub open spec fn unread(self, page: PageNo) -> bool {
        !self.pages.has(page) && !self.page_data_inflight.contains(page.0)
            && !self.page_data_failed.contains(page.0)
    }

    /// The page that is read next.
    pub open spec fn read_target(self, g: Geometry) -> Option<PageNo> {
        first_where(
            self.read_order(g),
            |page: PageNo| self.unread(page),
            self.read_order(g).len() as int,
        )
    }

    pub open spec fn underway(self, key: RenderKey) -> ReadyView {
        ReadyView { render_inflight: self.render_inflight.insert(key), ..self }
    }

    pub open spec fn render_action(self, page: PageNo, scale: Scale, rotation: u8) -> ActionView {
        ActionView::Render {
            engine: self.engine,
            page,
            scale,
            rotation,
            doc_gen: self.open_gen,
            render_gen: self.render_gen,
        }
    }

    /// Whether the next work is to look up the table of contents: once to a
    /// document.
    pub open spec fn wants_outline(self) -> bool {
        self.outline is None && !self.outline_load_issued
    }

    /// Whether something is under way that is waited for.
    pub open spec fn waiting(self) -> bool {
        self.page_data_inflight != Set::<u32>::empty() || self.rendering()
    }

    /// The next piece of work for a document, and the document once it was
    /// asked for: the table of contents, the visible page, a page to read, a
    /// page ahead of time, a small bitmap.
    pub open spec fn scheduled(self, g: Geometry) -> (ReadyView, Option<ActionView>) {
        if self.wants_outline() {
            (
                ReadyView { outline_load_issued: true, ..self },
                Some(ActionView::LoadOutline { engine: self.engine, doc_gen: self.open_gen }),
            )
        } else if self.waiting() {
            (self, None)
        } else {
            self.evicted(g).chosen(g)
        }
    }

    /// The next piece of work among pages.
    pub open spec fn chosen(self, g: Geometry) -> (ReadyView, Option<ActionView>) {
        let rotation = self.view_rotation;
        match self.visible_target(g) {
            Some(page) => (
                self.underway(key_of(page, g.scale_of(page), rotation)),
                Some(self.render_action(page, g.scale_of(page), rotation)),
            ),
            None => match self.read_target(g) {
                Some(page) => (
                    ReadyView {
                        page_data_inflight: self.page_data_inflight.insert(page.0),
                        ..self
                    },
                    Some(
                        ActionView::LoadPage {
                            engine: self.engine,
                            page,
                            doc_gen: self.open_gen,
                        },
                    ),
                ),
                None => match self.speculative_target(g) {
                    Some(page) => (
                        self.underway(key_of(page, g.scale_of(page), rotation)),
                        Some(self.render_action(page, g.scale_of(page), rotation)),
                    ),
                    None => match self.thumb_target(g) {
                        Some(page) => (
                            self.underway(key_of(page, g.thumb_scale_of(page), 0)),
                            Some(self.render_action(page, g.thumb_scale_of(page), 0)),
                        ),
                        None => (self, None),
                    },
                },
            },
        }
    }

    /// Whether a render belongs among the bitmaps of pages: it is that of the
    /// visible page, or of the one rendered ahead of time, as they are shown
    /// now.
    pub open spec fn wants_surface(self, page: PageNo, scale: Scale, rotation: u8, g: Geometry) -> bool {
        g.scale_of(page) == scale && quarter(self.view_rotation) == quarter(rotation) && (
        self.visible == page || self.ahead(g) == Some(page))
    }

    /// Whether a render belongs among the small bitmaps.
    pub open spec fn wants_thumb(self, page: PageNo, scale: Scale, g: Geometry) -> bool {
        let previewed = self.preview_target() == Some(page);
        (self.pages_open || previewed) && self.pages.media_of(page) is Some
            && g.thumb_scale_of(page) == scale && (self.thumb_window(g).contains(page)
            || previewed)
    }

    /// A render that came, taken in where it belongs.
    pub open spec fn taken_in(
        self,
        page: PageNo,
        scale: Scale,
        rotation: u8,
        surface: Option<PageSurface>,
        g: Geometry,
    ) -> ReadyView {
        let key = key_of(page, scale, rotation);
        match surface {
            Some(s) => {
                let v = ReadyView { failed: self.failed.remove(key), ..self };
                if v.wants_surface(page, scale, rotation, g) {
                    ReadyView {
                        surfaces: with_surface(v.surfaces, page, kept(s, rotation)),
                        ..v
                    }
                } else if v.wants_thumb(page, scale, g) {
                    ReadyView { thumbs: with_thumb(v.thumbs, page, scale, s), ..v }
                } else {
                    v
                }
            },
            None => ReadyView { failed: self.failed.insert(key), ..self },
        }
    }

    /// A render that came: one asked for before a change is dropped.
    pub open spec fn rendered(
        self,
        page: PageNo,
        scale: Scale,
        rotation: u8,
        render_gen: u64,
        surface: Option<PageSurface>,
        g: Geometry,
    ) -> ReadyView {
        let v = ReadyView {
            render_inflight: self.render_inflight.remove(key_of(page, scale, rotation)),
            ..self
        };
        if render_gen != self.render_gen {
            v.evicted(g)
        } else {
            v.taken_in(page, scale, rotation, surface, g).evicted(g)
        }
    }
}

fn has_page(pages: &Vec<PageNo>, page: PageNo) -> (r: bool)
    ensures
        r == pages@.contains(page),
{
    let mut i: usize = 0;
    while i < pages.len()
        invariant
            i <= pages@.len(),
            forall|j: int| 0 <= j < i ==> pages@[j] != page,
        decreases pages@.len() - i,
    {
        if pages[i] == page {
            return true;
        }
        i += 1;
    }
    false
}

fn numbers_of(pages: &Vec<PageNo>) -> (r: Vec<u32>)
    ensures
        r@.to_set() == page_numbers(pages@),
{
    let mut r: Vec<u32> = Vec::new();
    let mut i: usize = 0;
    while i < pages.len()
        invariant
            i <= pages@.len(),
            r@.len() == i,
            forall|j: int| 0 <= j < i ==> r@[j] == pages@[j].0,
        decreases pages@.len() - i,
    {
        r.push(pages[i].index());
        i += 1;
    }
    proof {
        assert forall|n: u32| r@.to_set().contains(n) <==> page_numbers(pages@).contains(n) by {
            if r@.contains(n) {
                let k = choose|k: int| 0 <= k < r@.len() && r@[k] == n;
                assert(pages@[k] == PageNo(n));
            }
            if pages@.contains(PageNo(n)) {
                let k = choose|k: int| 0 <= k < pages@.len() && pages@[k] == PageNo(n);
                assert(r@[k] == n);
            }
        }
        assert(r@.to_set() =~= page_numbers(pages@));
    }
    r
}

impl Ready {
    /// The rows of the pages panel that are kept ready.
    pub fn thumb_page_window(&self, g: &Geometry) -> (pages: Vec<PageNo>)
        ensures
            pages@ == self@.thumb_window(*g),
    {
        let start: u32 = if g.thumb_first > THUMB_PREFETCH {
            g.thumb_first - THUMB_PREFETCH
        } else {
            0
        };
        let span: u32 = THUMB_VISIBLE + THUMB_PREFETCH * 2;
        let total: u32 = self.pages.total;
        let end: u32 = if total >= span && start <= total - span {
            start + span
        } else {
            total
        };
        list_pages(start, end)
    }

    /// Where the scrolled pages that are kept ready begin and end.
    pub fn doc_window(&self, g: &Geometry) -> (r: (u32, u32))
        ensures
            r.0 == self@.window_start(*g),
            r.1 == self@.window_end(*g),
    {
        let total: u32 = self.pages.total;
        if total == 0 {
            return (0, 0);
        }
        let start: u32 = if g.window_first < 2 {
            0
        } else {
            g.window_first - 2
        };
        let end: u32 = if total >= 3 && g.window_last <= total - 3 {
            g.window_last + 3
        } else {
            total
        };
        (start, end)
    }

    /// The pages whose bitmaps are kept.
    fn keep_pages(&self, g: &Geometry) -> (keep: Vec<u32>)
        ensures
            keep@.to_set() == self@.kept_pages(*g),
    {
        if self.view_mode == ViewMode::Continuous {
            let (start, end) = self.doc_window(g);
            numbers_of(&list_pages(start, end))
        } else {
            neighbor_page_set(self.visible.index(), self.pages.total)
        }
    }

    /// The page that the preview of the print dialog shows.
    pub fn print_preview_target(&self) -> (r: Option<PageNo>)
        ensures
            r == self@.preview_target(),
    {
        match &self.print_dialog {
            Some(dialog) => Some(dialog.preview_page(self.pages.total, self.visible)),
            None => None,
        }
    }

    /// Drops what is not needed any more.
    pub fn evict_unused(&mut self, g: &Geometry)
        requires
            old(self).wf(),
        ensures
            final(self)@ == old(self)@.evicted(*g),
            final(self).wf(),
    {
        let keep = self.keep_pages(g);
        self.surfaces.retain_pages(&keep);
        self.surfaces.enforce_neighbor_budget(self.visible.index(), NEIGHBOR_CACHE_BUDGET);
        let mut thumb_keep: Vec<u32> = if self.pages_open {
            let window = self.thumb_page_window(g);
            numbers_of(&window)
        } else {
            Vec::new()
        };
        proof {
            if !self.pages_open {
                assert(thumb_keep@.to_set() =~= Set::<u32>::empty());
            }
        }
        if let Some(page) = self.print_preview_target() {
            let ghost before = thumb_keep@;
            thumb_keep.push(page.index());
            proof {
                assert forall|n: u32|
                    before.to_set().insert(page.0).contains(n) implies thumb_keep@.contains(n) by {
                    if n == page.0 {
                        assert(thumb_keep@[before.len() as int] == n);
                    } else {
                        let k = choose|k: int| 0 <= k < before.len() && before[k] == n;
                        assert(thumb_keep@[k] == n);
                    }
                }
                assert(thumb_keep@.to_set() =~= before.to_set().insert(page.0));
            }
        }
        assert(thumb_keep@.to_set() == old(self)@.kept_thumbs(*g));
        self.thumbs.retain_pages(&thumb_keep);
    }

    fn shows(&self, page: PageNo, g: &Geometry) -> (r: bool)
        ensures
            r == self@.is_shown(page, *g),
    {
        self.surfaces.get(page, g.page_scale(page), self.view_rotation).is_some()
    }

    fn failed_before(&self, page: PageNo, g: &Geometry) -> (r: bool)
        ensures
            r == self@.has_failed(page, *g),
    {
        self.failed.contains(render_key(page, g.page_scale(page), self.view_rotation))
    }

    /// Whether the render of the visible page failed.
    pub fn visible_render_failed(&self, g: &Geometry) -> (r: bool)
        ensures
            r == self@.has_failed(self@.visible, *g),
    {
        self.failed_before(self.visible, g)
    }

    /// The bitmap of a page: the one that is needed, else the one that is
    /// there.
    pub fn page_surface(&self, page: PageNo, g: &Geometry) -> (r: Option<&CachedSurface>)
        ensures
            match exact_surface(
                self@.surfaces,
                page,
                g.scale_of(page),
                self@.view_rotation,
            ) {
                Some(s) => r == Some(&s),
                None => match surface_of(self@.surfaces, page.0) {
                    Some(s) => r == Some(&s),
                    None => r is None,
                },
            },
    {
        match self.surfaces.get(page, g.page_scale(page), self.view_rotation) {
            Some(s) => Some(s),
            None => self.surfaces.fallback_for_page(page),
        }
    }

    /// The small bitmap of a page that was read.
    pub fn thumb_surface(&self, page: PageNo, g: &Geometry) -> (r: Option<&CachedSurface>)
        ensures
            match (
                self@.pages.media_of(page),
                thumb_of(self@.thumbs, page, g.thumb_scale_of(page)),
            ) {
                (Some(_), Some(s)) => r == Some(&s),
                _ => r is None,
            },
    {
        match self.pages.loaded_media(page) {
            Some(_) => self.thumbs.get(page, g.thumb_scale(page)),
            None => None,
        }
    }

    fn lacking(&self, page: PageNo, g: &Geometry) -> (r: bool)
        ensures
            r == self@.lacks_bitmap(page, *g),
    {
        self.pages.has_page_data(page) && !self.shows(page, g) && !self.failed_before(page, g)
    }

    /// The page that is rendered ahead of time.
    pub fn prefetch_target(&self, g: &Geometry) -> (r: Option<PageNo>)
        requires
            self.wf(),
        ensures
            r == self@.ahead(*g),
    {
        if self.pages.total == 0 {
            return None;
        }
        if self.view_mode == ViewMode::Continuous {
            let (start, end) = self.doc_window(g);
            let middle: u32 = if self.visible.index() <= end {
                self.visible.index()
            } else {
                end
            };
            let mut order = list_pages(middle, end);
            let mut before = list_pages(start, middle);
            order.append(&mut before);
            let ghost lacks = |page: PageNo| self@.lacks_bitmap(page, *g);
            assert(order@ == self@.scroll_order(*g));
            let mut i: usize = 0;
            while i < order.len()
                invariant
                    i <= order@.len(),
                    lacks == (|page: PageNo| self@.lacks_bitmap(page, *g)),
                    first_where(order@, lacks, i as int) is None,
                    order@ == self@.scroll_order(*g),
                    self.view_mode == ViewMode::Continuous,
                    self.pages.total > 0,
                decreases order@.len() - i,
            {
                if self.lacking(order[i], g) {
                    proof {
                        lemma_first_stays(order@, lacks, i + 1, order@.len() as int);
                    }
                    return Some(order[i]);
                }
                i += 1;
            }
            return None;
        }
        if self.visible.index() >= self.pages.total - 1 {
            return None;
        }
        let page = PageNo::from_index(self.visible.index() + 1);
        if self.pages.has_page_data(page) {
            Some(page)
        } else {
            None
        }
    }

    /// Whether the bitmap of a page would still fit the budget.
    pub fn prefetch_fits_budget(&self, page: PageNo, g: &Geometry) -> (r: bool)
        ensures
            r == self@.fits_budget(page, *g),
    {
        if page == self.visible {
            return true;
        }
        let estimate: usize = g.estimated_rgba_bytes(page);
        let retained: usize = self.surfaces.page_bytes(page.index());
        let neighbors: usize = self.surfaces.neighbor_bytes(self.visible.index());
        neighbors.saturating_sub(retained).saturating_add(estimate) <= NEIGHBOR_CACHE_BUDGET
    }

    fn render(&mut self, page: PageNo, scale: Scale, rotation: u8) -> (action: Action)
        requires
            old(self).wf(),
        ensures
            final(self)@ == old(self)@.underway(key_of(page, scale, rotation)),
            final(self).wf(),
            action@ == old(self)@.render_action(page, scale, rotation),
    {
        self.render_inflight.insert(render_key(page, scale, rotation));
        Action::Render {
            engine: self.engine,
            page,
            scale,
            rotation,
            doc_gen: self.open_gen,
            render_gen: self.render_gen,
        }
    }

    fn speculative(&self, g: &Geometry) -> (r: Option<PageNo>)
        requires
            self.wf(),
        ensures
            r == self@.speculative_target(*g),
    {
        if !self.render_inflight.is_empty() {
            return None;
        }
        if !self.shows(self.visible, g) || !self.pages.has_page_data(self.visible) {
            return None;
        }
        match self.prefetch_target(g) {
            Some(page) => if !self.shows(page, g) && !self.failed_before(page, g)
                && self.prefetch_fits_budget(page, g) {
                Some(page)
            } else {
                None
            },
            None => None,
        }
    }

    fn lacking_thumb(&self, page: PageNo, g: &Geometry) -> (r: bool)
        ensures
            r == self@.lacks_thumb(page, *g),
    {
        let scale = g.thumb_scale(page);
        self.pages.loaded_media(page).is_some() && self.thumbs.get(page, scale).is_none()
            && !self.failed.contains(render_key(page, scale, 0))
    }

    fn next_thumb(&self, g: &Geometry) -> (r: Option<PageNo>)
        ensures
            r == self@.thumb_target(*g),
    {
        if !self.render_inflight.is_empty() || !self.page_data_inflight.is_empty() {
            return None;
        }
        if !self.pages_open && self.print_dialog.is_none() {
            return None;
        }
        if !self.pages.has_page_data(self.visible) && self.surfaces.fallback_for_page(
            self.visible,
        ).is_none() {
            return None;
        }
        let mut targets: Vec<PageNo> = if self.pages_open {
            self.thumb_page_window(g)
        } else {
            Vec::new()
        };
        if let Some(page) = self.print_preview_target() {
            let ghost rest = targets@;
            targets.insert(0, page);
            assert(targets@ =~= seq![page] + rest);
        }
        assert(targets@ =~= self@.thumb_order(*g));
        self.first_lacking_thumb(&targets, g)
    }

    fn first_lacking_thumb(&self, targets: &Vec<PageNo>, g: &Geometry) -> (r: Option<PageNo>)
        ensures
            r == first_where(
                targets@,
                |page: PageNo| self@.lacks_thumb(page, *g),
                targets@.len() as int,
            ),
    {
        let ghost lacks = |page: PageNo| self@.lacks_thumb(page, *g);
        let mut i: usize = 0;
        while i < targets.len()
            invariant
                i <= targets@.len(),
                lacks == (|page: PageNo| self@.lacks_thumb(page, *g)),
                first_where(targets@, lacks, i as int) is None,
            decreases targets@.len() - i,
        {
            if self.lacking_thumb(targets[i], g) {
                proof {
                    lemma_first_stays(targets@, lacks, i + 1, targets@.len() as int);
                }
                return Some(targets[i]);
            }
            i += 1;
        }
        None
    }

    /// The pages in the order in which they are read.
    pub fn page_data_priority(&self, g: &Geometry) -> (pages: Vec<PageNo>)
        requires
            self.wf(),
        ensures
            pages@ == self@.read_order(*g),
    {
        let mut pages: Vec<PageNo> = Vec::new();
        pages.push(self.visible);
        assert(pages@ =~= seq![self.visible]);
        if self.pages.total > 0 && self.visible.index() < self.pages.total - 1 {
            pages.push(PageNo::from_index(self.visible.index() + 1));
        }
        if self.pages_open {
            let window = self.thumb_page_window(g);
            let ghost near = pages@;
            let mut i: usize = 0;
            while i < window.len()
                invariant
                    i <= window@.len(),
                    pages@ == with_others(near, window@, i as int),
                decreases window@.len() - i,
            {
                if !has_page(&pages, window[i]) {
                    pages.push(window[i]);
                }
                i += 1;
            }
        }
        pages
    }

    /// The page that is read next.
    pub fn next_page_data_target(&self, g: &Geometry) -> (r: Option<PageNo>)
        requires
            self.wf(),
        ensures
            r == self@.read_target(*g),
    {
        let order = self.page_data_priority(g);
        let ghost unread = |page: PageNo| self@.unread(page);
        let mut i: usize = 0;
        while i < order.len()
            invariant
                i <= order@.len(),
                order@ == self@.read_order(*g),
                unread == (|page: PageNo| self@.unread(page)),
                first_where(order@, unread, i as int) is None,
            decreases order@.len() - i,
        {
            let page = order[i];
            if !self.pages.has_page_data(page) && !self.page_data_inflight.contains(page.index())
                && !self.page_data_failed.contains(page.index()) {
                proof {
                    lemma_first_stays(order@, unread, i + 1, order@.len() as int);
                }
                return Some(page);
            }
            i += 1;
        }
        None
    }

    fn choose_work(&mut self, g: &Geometry) -> (r: Option<Action>)
        requires
            old(self).wf(),
        ensures
            final(self)@ == old(self)@.chosen(*g).0,
            final(self).wf(),
            match old(self)@.chosen(*g).1 {
                Some(action) => r is Some && r->0@ == action,
                None => r is None,
            },
    {
        let rotation: u8 = self.view_rotation;
        if self.render_inflight.is_empty() && self.lacking(self.visible, g) {
            let page = self.visible;
            return Some(self.render(page, g.page_scale(page), rotation));
        }
        if let Some(page) = self.next_page_data_target(g) {
            self.page_data_inflight.insert(page.index());
            return Some(
                Action::LoadPage { engine: self.engine, page, doc_gen: self.open_gen },
            );
        }
        if let Some(page) = self.speculative(g) {
            return Some(self.render(page, g.page_scale(page), rotation));
        }
        if let Some(page) = self.next_thumb(g) {
            return Some(self.render(page, g.thumb_scale(page), 0));
        }
        None
    }

    /// Chooses the next piece of work for a document. Given is its geometry as
    /// it stands.
    pub fn schedule(&mut self, g: &Geometry) -> (r: Option<Action>)
        requires
            old(self).wf(),
        ensures
            final(self)@ == old(self)@.scheduled(*g).0,
            final(self).wf(),
            match old(self)@.scheduled(*g).1 {
                Some(action) => r is Some && r->0@ == action,
                None => r is None,
            },
    {
        if self.outline.is_none() && !self.outline_load_issued {
            self.outline_load_issued = true;
            return Some(Action::LoadOutline { engine: self.engine, doc_gen: self.open_gen });
        }
        if !self.page_data_inflight.is_empty() || !self.render_inflight.is_empty() {
            return None;
        }
        self.evict_unused(g);
        self.choose_work(g)
    }

    fn take_in(
        &mut self,
        page: PageNo,
        scale: Scale,
        rotation: u8,
        surface: Option<PageSurface>,
        g: &Geometry,
    )
        requires
            old(self).wf(),
        ensures
            final(self)@ == old(self)@.taken_in(page, scale, rotation, surface, *g),
            final(self).wf(),
    {
        let key = render_key(page, scale, rotation);
        match surface {
            Some(s) => {
                self.failed.remove(key);
                let turned = (self.view_rotation & 3) == (rotation & 3);
                let fits = g.page_scale(page) == scale && turned;
                let ahead = match self.prefetch_target(g) {
                    Some(target) => target == page,
                    None => false,
                };
                if fits && (self.visible == page || ahead) {
                    self.surfaces.insert(page, rotation, s);
                } else {
                    let previewed = match self.print_preview_target() {
                        Some(target) => target == page,
                        None => false,
                    };
                    if (self.pages_open || previewed) && self.pages.loaded_media(page).is_some()
                        && g.thumb_scale(page) == scale {
                        let window = self.thumb_page_window(g);
                        if previewed || has_page(&window, page) {
                            self.thumbs.insert(page, scale, s);
                        }
                    }
                }
            },
            None => {
                self.failed.insert(key);
            },
        }
    }

    /// A render came. One asked for before a change is dropped.
    pub fn on_rendered(
        &mut self,
        page: PageNo,
        scale: Scale,
        rotation: u8,
        render_gen: u64,
        surface: Option<PageSurface>,
        g: &Geometry,
    )
        requires
            old(self).wf(),
        ensures
            final(self)@ == old(self)@.rendered(page, scale, rotation, render_gen, surface, *g),
            final(self).wf(),
    {
        self.render_inflight.remove(render_key(page, scale, rotation));
        if render_gen == self.render_gen {
            self.take_in(page, scale, rotation, surface, g);
        }
        self.evict_unused(g);
    }
}

/// What is kept fits the budget, whatever was kept before.
pub proof fn law_eviction_keeps_budget(v: ReadyView, g: Geometry)
    requires
        v.wf(),
    ensures
        capped(neighbor_total(v.evicted(g).surfaces, v.visible.0)) <= NEIGHBOR_CACHE_BUDGET,
{
    lemma_only_pages(v.surfaces, v.kept_pages(g));
    law_budget_is_kept(
        only_pages(v.surfaces, v.kept_pages(g)),
        v.visible.0,
        NEIGHBOR_CACHE_BUDGET,
    );
}

/// The bitmap of the visible page is never dropped while one page is shown at
/// a time, nor while the page is among those that are scrolled past.
pub proof fn law_eviction_keeps_visible(v: ReadyView, g: Geometry)
    requires
        v.wf(),
        v.pages.total > 0,
        v.view_mode == ViewMode::Single || v.window_start(g) <= v.visible.0 < v.window_end(g),
    ensures
        surface_of(v.evicted(g).surfaces, v.visible.0) == surface_of(v.surfaces, v.visible.0),
{
    let page = v.visible.0;
    let keep = v.kept_pages(g);
    let some = only_pages(v.surfaces, keep);
    let rest = v.evicted(g).surfaces;
    assert(keep.contains(page)) by {
        if v.view_mode == ViewMode::Continuous {
            let window = pages_between(v.window_start(g), v.window_end(g));
            assert(window[page - v.window_start(g)] == PageNo(page));
        }
    }
    lemma_only_pages(v.surfaces, keep);
    law_budget_is_kept(some, page, NEIGHBOR_CACHE_BUDGET);
    lemma_entry(v.surfaces, page, v.surfaces.len() as int);
    lemma_entry(rest, page, rest.len() as int);
    match entry_of(v.surfaces, page, v.surfaces.len() as int) {
        Some(i) => {
            let k = choose|k: int| 0 <= k < some.len() && some[k] == v.surfaces[i];
            assert(some[k].0 == page);
            assert(rest.contains(v.surfaces[i]));
            let m = choose|m: int| 0 <= m < rest.len() && rest[m] == v.surfaces[i];
            let e = entry_of(rest, page, rest.len() as int);
            assert(e is Some);
            assert(rest[e->0].0 == rest[m].0);
            assert(e->0 == m);
        },
        None => {
            if let Some(e) = entry_of(rest, page, rest.len() as int) {
                assert(some.contains(rest[e]));
                let k = choose|k: int| 0 <= k < some.len() && some[k] == rest[e];
                assert(v.surfaces.contains(some[k]));
                let m = choose|m: int| 0 <= m < v.surfaces.len() && v.surfaces[m] == some[k];
                assert(v.surfaces[m].0 == page);
            }
        },
    }
}

/// A render that was asked for before a change puts nothing in.
pub proof fn law_stale_render_is_dropped(
    v: ReadyView,
    page: PageNo,
    scale: Scale,
    rotation: u8,
    render_gen: u64,
    surface: Option<PageSurface>,
    g: Geometry,
)
    requires
        v.wf(),
        render_gen != v.render_gen,
    ensures
        v.rendered(page, scale, rotation, render_gen, surface, g).failed == v.failed,
        v.rendered(page, scale, rotation, render_gen, surface, g).surfaces == v.evicted(g).surfaces,
        v.rendered(page, scale, rotation, render_gen, surface, g).thumbs == v.evicted(g).thumbs,
{
}

/// A render that failed puts nothing in, and is not asked for again as long
/// as it counts as failed.
pub proof fn law_failed_render_is_not_retried(v: ReadyView, g: Geometry)
    requires
        v.wf(),
    ensures
        match v.scheduled(g).1 {
            Some(ActionView::Render { page, scale, rotation, .. }) => !v.failed.contains(
                key_of(page, scale, rotation),
            ),
            Some(ActionView::LoadPage { page, .. }) => !v.page_data_failed.contains(page.0)
                && !v.pages.has(page),
            _ => true,
        },
{
    let e = v.evicted(g);
    if !v.wants_outline() && !v.waiting() {
        lemma_first_holds(
            e.read_order(g),
            |page: PageNo| e.unread(page),
            e.read_order(g).len() as int,
        );
        lemma_first_holds(
            e.thumb_order(g),
            |page: PageNo| e.lacks_thumb(page, g),
            e.thumb_order(g).len() as int,
        );
    }
}

/// The visible page comes first: while nothing is under way and its bitmap is
/// needed, that is what is rendered.
pub proof fn law_visible_page_comes_first(v: ReadyView, g: Geometry)
    requires
        v.wf(),
        !v.wants_outline(),
        !v.waiting(),
        v.evicted(g).lacks_bitmap(v.visible, g),
    ensures
        v.scheduled(g).1 == Some(
            v.render_action(v.visible, g.scale_of(v.visible), v.view_rotation),
        ),
{
}

/// One thing at a time: while a page is being read or rendered, nothing but
/// the table of contents is asked for.
pub proof fn law_one_thing_at_a_time(v: ReadyView, g: Geometry)
    requires
        v.wf(),
        v.waiting(),
        v.outline_load_issued,
    ensures
        v.scheduled(g) == (v, None::<ActionView>),
{
}

/// The page that the preview shows comes before the rows of the panel, also
/// where it is one of them.
pub proof fn law_preview_comes_first(v: ReadyView, g: Geometry, page: PageNo)
    requires
        v.preview_target() == Some(page),
        v.lacks_thumb(page, g),
    ensures
        v.thumb_target(g) is Some ==> v.thumb_target(g) == Some(page),
        !v.rendering() && v.page_data_inflight == Set::<u32>::empty() && v.pages.has(v.visible)
            ==> v.thumb_target(g) == Some(page),
{
    let lacks = |p: PageNo| v.lacks_thumb(p, g);
    let order = v.thumb_order(g);
    assert(order[0] == page);
    assert(first_where(order, lacks, 0) is None);
    assert(first_where(order, lacks, 1) == Some(page));
    lemma_first_stays(order, lacks, 1, order.len() as int);
}

} // verus!
