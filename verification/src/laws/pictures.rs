//! The bitmaps of pages: which are rendered, which are kept, and which are
//! shown.

use vstd::prelude::*;

use crate::cache::{
    entry_of, farthest, kept, key_of, law_budget_is_kept, lemma_entry, lemma_only_pages, only_pages,
    only_thumbs, surface_of, thumb_of, with_surface, with_thumb, within_budget, CachedSurface,
    Surfaces, ThumbEntry, NEIGHBOR_CACHE_BUDGET,
};
use crate::page::{PageNo, PageSurface, Scale};
use crate::print::pages_between;
use crate::ready::ReadyView;
use crate::rendering::{first_where, law_eviction_keeps_visible};
use crate::state::{ActionView, Geometry, ViewMode};

verus! {

/// Whether a page was read: its size and its text are there.
pub open spec fn was_read(v: ReadyView, page: PageNo) -> bool {
    &&& page.0 < v.pages.media.len()
    &&& page.0 < v.pages.text.len()
    &&& v.pages.media[page.0 as int] is Some
    &&& v.pages.text[page.0 as int] is Some
}

/// Whether a bitmap of a page is kept in just this scale and turn.
pub open spec fn keeps(pages: Surfaces, page: PageNo, scale: Scale, rotation: u8) -> bool {
    exists|k: int|
        0 <= k < pages.len() && (#[trigger] pages[k]).0 == page.0 && pages[k].1.scale == scale
            && pages[k].1.rotation == rotation
}

proof fn lemma_keeps(v: ReadyView, page: PageNo, g: Geometry)
    requires
        v.wf(),
    ensures
        v.is_shown(page, g) <==> keeps(v.surfaces, page, g.scale_of(page), v.view_rotation),
{
    lemma_entry(v.surfaces, page.0, v.surfaces.len() as int);
    let r = v.view_rotation;
    assert(r & 3 == r) by (bit_vector)
        requires
            r < 4,
    ;
    if keeps(v.surfaces, page, g.scale_of(page), r) {
        let k = choose|k: int|
            0 <= k < v.surfaces.len() && (#[trigger] v.surfaces[k]).0 == page.0
                && v.surfaces[k].1.scale == g.scale_of(page) && v.surfaces[k].1.rotation == r;
        let e = entry_of(v.surfaces, page.0, v.surfaces.len() as int);
        assert(e is Some);
        if e->0 != k {
            assert(v.surfaces[e->0].0 == v.surfaces[k].0);
        }
    }
}

/// A bitmap that is put in is the one that its page has, and the other pages
/// keep theirs.
pub proof fn law_page_has_the_bitmap_that_was_put_in(
    pages: Surfaces,
    page: PageNo,
    surface: CachedSurface,
    other: u32,
)
    requires
        crate::cache::one_each(pages),
    ensures
        surface_of(with_surface(pages, page, surface), page.0) == Some(surface),
        other != page.0 ==> surface_of(with_surface(pages, page, surface), other) == surface_of(
            pages,
            other,
        ),
{
    let keep = crate::cache::all_but(page.0);
    let rest = only_pages(pages, keep);
    let after = with_surface(pages, page, surface);
    lemma_only_pages(pages, keep);
    lemma_entry(after, page.0, after.len() as int);
    lemma_entry(after, other, after.len() as int);
    lemma_entry(pages, other, pages.len() as int);
    let last = after.len() - 1;
    assert(after[last] == (page.0, surface));
    let e = entry_of(after, page.0, after.len() as int);
    assert(e is Some);
    if e->0 != last {
        assert(after[e->0] == rest[e->0]);
    }
    if other != page.0 {
        match entry_of(pages, other, pages.len() as int) {
            Some(i) => {
                assert(rest.contains(pages[i]));
                let k = choose|k: int| 0 <= k < rest.len() && rest[k] == pages[i];
                assert(after[k] == pages[i]);
                let f = entry_of(after, other, after.len() as int);
                assert(f is Some);
                assert(after[f->0] == rest[f->0]);
                if f->0 != k {
                    assert(rest[f->0].0 == rest[k].0);
                }
            },
            None => {
                if let Some(f) = entry_of(after, other, after.len() as int) {
                    assert(after[f] == rest[f]);
                    assert(pages.contains(rest[f]));
                    let m = choose|m: int| 0 <= m < pages.len() && pages[m] == rest[f];
                    assert(pages[m].0 == other);
                }
            },
        }
    }
}

/// What is kept of a page is what was rendered, with the turn that it was
/// rendered in.
pub proof fn law_bitmaps_are_kept_as_rendered(surface: PageSurface, rotation: u8)
    requires
        rotation < 4,
    ensures
        kept(surface, rotation).bitmap == surface.bitmap,
        kept(surface, rotation).scale == surface.scale,
        kept(surface, rotation).rotation == rotation,
{
    assert(rotation & 3 == rotation) by (bit_vector)
        requires
            rotation < 4,
    ;
}

/// The bitmap of the visible page that was asked for is shown once it came.
pub proof fn law_rendered_page_is_shown(v: ReadyView, surface: PageSurface, g: Geometry)
    requires
        v.wf(),
        v.pages.total > 0,
        v.view_mode == ViewMode::Single || v.window_start(g) <= v.visible.0 < v.window_end(g),
    ensures
        ({
            let after = v.rendered(
                v.visible,
                g.scale_of(v.visible),
                v.view_rotation,
                v.render_gen,
                Some(surface),
                g,
            );
            &&& surface_of(after.surfaces, v.visible.0) is Some
            &&& surface_of(after.surfaces, v.visible.0)->0.bitmap == surface.bitmap
            &&& surface_of(after.surfaces, v.visible.0)->0.scale == surface.scale
            &&& surface_of(after.surfaces, v.visible.0)->0.rotation == v.view_rotation
            &&& !after.render_inflight.contains(
                (v.visible.0, g.scale_of(v.visible).0, v.view_rotation),
            )
            &&& !after.failed.contains((v.visible.0, g.scale_of(v.visible).0, v.view_rotation))
        }),
{
    let scale = g.scale_of(v.visible);
    let r = v.view_rotation;
    assert(r & 3 == r) by (bit_vector)
        requires
            r < 4,
    ;
    let key = key_of(v.visible, scale, r);
    let w = ReadyView { render_inflight: v.render_inflight.remove(key), ..v };
    let taken = w.taken_in(v.visible, scale, r, Some(surface), g);
    law_bitmaps_are_kept_as_rendered(surface, r);
    law_page_has_the_bitmap_that_was_put_in(v.surfaces, v.visible, kept(surface, r), 0);
    lemma_put_in(v.surfaces, v.visible, kept(surface, r));
    assert(taken.surfaces == with_surface(v.surfaces, v.visible, kept(surface, r)));
    law_eviction_keeps_visible(taken, g);
}

proof fn lemma_put_in(pages: Surfaces, page: PageNo, surface: CachedSurface)
    requires
        crate::cache::one_each(pages),
    ensures
        crate::cache::one_each(with_surface(pages, page, surface)),
{
    let keep = crate::cache::all_but(page.0);
    let rest = only_pages(pages, keep);
    lemma_only_pages(pages, keep);
    let after = with_surface(pages, page, surface);
    assert forall|i: int, j: int| 0 <= i < j < after.len() implies (#[trigger] after[i]).0 != (
    #[trigger] after[j]).0 by {
        assert(after[i] == rest[i]);
        if j < rest.len() {
            assert(after[j] == rest[j]);
        }
    }
}

/// While one page is shown at a time, bitmaps are kept of it and of the two
/// pages beside it, and of no others; what is kept is what was there.
pub proof fn law_bitmaps_are_kept_near_the_reader(v: ReadyView, g: Geometry, k: int)
    requires
        v.wf(),
        v.view_mode == ViewMode::Single,
        0 <= k < v.evicted(g).surfaces.len(),
    ensures
        ({
            let entry = v.evicted(g).surfaces[k];
            &&& v.surfaces.contains(entry)
            &&& entry.0 == v.visible.0 || entry.0 + 1 == v.visible.0 || entry.0 == v.visible.0 + 1
        }),
{
    let keep = v.kept_pages(g);
    let some = only_pages(v.surfaces, keep);
    lemma_only_pages(v.surfaces, keep);
    law_budget_is_kept(some, v.visible.0, NEIGHBOR_CACHE_BUDGET);
    let rest = v.evicted(g).surfaces;
    assert(some.contains(rest[k]));
    let m = choose|m: int| 0 <= m < some.len() && some[m] == rest[k];
    assert(keep.contains(some[m].0));
}

proof fn lemma_no_thumbs(entries: Seq<ThumbEntry>)
    ensures
        only_thumbs(entries, Set::<u32>::empty()).len() == 0,
    decreases entries.len(),
{
    if entries.len() > 0 {
        lemma_no_thumbs(entries.drop_last());
    }
}

/// Small bitmaps are kept only while something shows them.
pub proof fn law_small_bitmaps_go_with_what_shows_them(v: ReadyView, g: Geometry)
    requires
        !v.pages_open,
        v.print_dialog is None,
    ensures
        v.evicted(g).thumbs.len() == 0,
{
    lemma_no_thumbs(v.thumbs);
}

/// A small bitmap that is put in is the one that its page has in that scale.
pub proof fn law_small_bitmap_is_the_one_put_in(
    entries: Seq<ThumbEntry>,
    page: PageNo,
    scale: Scale,
    surface: PageSurface,
)
    ensures
        thumb_of(with_thumb(entries, page, scale, surface), page, scale) is Some,
        thumb_of(with_thumb(entries, page, scale, surface), page, scale)->0.bitmap == surface.bitmap,
{
    let rest = only_thumbs(entries, crate::cache::all_but(page.0));
    let after = with_thumb(entries, page, scale, surface);
    lemma_only_others(entries, page.0);
    lemma_thumb_absent(after, page.0, scale, rest.len() as int);
}

proof fn lemma_only_others(entries: Seq<ThumbEntry>, page: u32)
    ensures
        forall|i: int|
            0 <= i < only_thumbs(entries, crate::cache::all_but(page)).len() ==> (
            #[trigger] only_thumbs(entries, crate::cache::all_but(page))[i]).page != page,
    decreases entries.len(),
{
    if entries.len() > 0 {
        lemma_only_others(entries.drop_last(), page);
        let keep = crate::cache::all_but(page);
        let front = only_thumbs(entries.drop_last(), keep);
        let all = only_thumbs(entries, keep);
        assert forall|i: int| 0 <= i < all.len() implies (#[trigger] all[i]).page != page by {
            if i < front.len() {
                assert(all[i] == front[i]);
            } else {
                assert(keep.contains(entries.last().page));
            }
        }
    }
}

proof fn lemma_thumb_absent(entries: Seq<ThumbEntry>, page: u32, scale: Scale, n: int)
    requires
        0 <= n <= entries.len(),
        forall|i: int| 0 <= i < n ==> (#[trigger] entries[i]).page != page,
    ensures
        crate::cache::thumb_entry(entries, page, scale, n) is None,
    decreases n,
{
    if n > 0 {
        lemma_thumb_absent(entries, page, scale, n - 1);
    }
}

/// Whether a document waits for nothing and was asked for its table of
/// contents.
pub open spec fn at_rest(v: ReadyView) -> bool {
    &&& v.outline_load_issued
    &&& v.page_data_inflight == Set::<u32>::empty()
    &&& v.render_inflight == Set::<crate::cache::RenderKey>::empty()
}

/// The table of contents is asked for first, once.
pub proof fn law_table_is_asked_for_once(v: ReadyView, g: Geometry)
    requires
        v.outline is None,
        !v.outline_load_issued,
    ensures
        v.scheduled(g).1 == Some(
            ActionView::LoadOutline { engine: v.engine, doc_gen: v.open_gen },
        ),
        v.scheduled(g).0 == (ReadyView { outline_load_issued: true, ..v }),
{
}

/// The visible page is read before anything is rendered, and rendered before
/// anything else is read: in the scale that it is shown in, turned as the view
/// is.
pub proof fn law_visible_page_is_read_and_rendered_first(v: ReadyView, g: Geometry)
    requires
        v.wf(),
        v.pages.total > 0,
        at_rest(v),
        v.view_mode == ViewMode::Single || v.window_start(g) <= v.visible.0 < v.window_end(g),
    ensures
        ({
            let done = v.scheduled(g);
            let scale = g.scale_of(v.visible);
            &&& !was_read(v, v.visible) && !v.page_data_failed.contains(v.visible.0) ==> {
                &&& done.1 == Some(
                    ActionView::LoadPage { engine: v.engine, page: v.visible, doc_gen: v.open_gen },
                )
                &&& done.0.page_data_inflight.contains(v.visible.0)
            }
            &&& was_read(v, v.visible) && !keeps(v.surfaces, v.visible, scale, v.view_rotation)
                && !v.failed.contains((v.visible.0, scale.0, v.view_rotation)) ==> {
                &&& done.1 == Some(
                    ActionView::Render {
                        engine: v.engine,
                        page: v.visible,
                        scale,
                        rotation: v.view_rotation,
                        doc_gen: v.open_gen,
                        render_gen: v.render_gen,
                    },
                )
                &&& done.0.render_inflight.contains((v.visible.0, scale.0, v.view_rotation))
            }
        }),
{
    let r = v.view_rotation;
    assert(r & 3 == r) by (bit_vector)
        requires
            r < 4,
    ;
    let e = v.evicted(g);
    lemma_keeps(v, v.visible, g);
    law_eviction_keeps_visible(v, g);
    assert(e.is_shown(v.visible, g) == v.is_shown(v.visible, g));
    let order = e.read_order(g);
    let unread = |page: PageNo| e.unread(page);
    if !was_read(v, v.visible) && !v.page_data_failed.contains(v.visible.0) {
        lemma_first_in_order(e, g);
        assert(order[0] == v.visible);
        assert(crate::rendering::first_where(order, unread, 0) is None);
        assert(unread(order[0]));
        assert(crate::rendering::first_where(order, unread, 1) == Some(v.visible));
        lemma_first_stays(order, unread, 1, order.len() as int);
    }
}

proof fn lemma_first_stays(
    pages: Seq<PageNo>,
    holds: spec_fn(PageNo) -> bool,
    m: int,
    n: int,
)
    requires
        m <= n,
        crate::rendering::first_where(pages, holds, m) is Some,
    ensures
        crate::rendering::first_where(pages, holds, n) == crate::rendering::first_where(
            pages,
            holds,
            m,
        ),
    decreases n,
{
    if m < n {
        lemma_first_stays(pages, holds, m, n - 1);
    }
}

proof fn lemma_first_in_order(v: ReadyView, g: Geometry)
    ensures
        v.read_order(g).len() > 0,
        v.read_order(g)[0] == v.visible,
{
    let here = seq![v.visible];
    let near = if v.visible.0 + 1 < v.pages.total {
        here.push(PageNo((v.visible.0 + 1) as u32))
    } else {
        here
    };
    assert(near[0] == v.visible);
    lemma_others_behind(near, v.thumb_window(g), v.thumb_window(g).len() as int);
}

proof fn lemma_others_behind(pages: Seq<PageNo>, others: Seq<PageNo>, n: int)
    ensures
        crate::rendering::with_others(pages, others, n).len() >= pages.len(),
        forall|i: int|
            0 <= i < pages.len() ==> #[trigger] crate::rendering::with_others(
                pages,
                others,
                n,
            )[i] == pages[i],
    decreases n,
{
    if n > 0 {
        lemma_others_behind(pages, others, n - 1);
    }
}

/// While a page is shown by itself, the one behind it is rendered ahead of
/// time, once the visible one is there and it was read, if it fits.
pub proof fn law_next_page_is_rendered_ahead(v: ReadyView, g: Geometry)
    requires
        v.wf(),
        at_rest(v),
        v.view_mode == ViewMode::Single,
        v.visible.0 + 1 < v.pages.total,
        !v.pages_open,
        was_read(v, v.visible),
        was_read(v, PageNo((v.visible.0 + 1) as u32)),
        keeps(v.evicted(g).surfaces, v.visible, g.scale_of(v.visible), v.view_rotation),
        !keeps(
            v.evicted(g).surfaces,
            PageNo((v.visible.0 + 1) as u32),
            g.scale_of(PageNo((v.visible.0 + 1) as u32)),
            v.view_rotation,
        ),
        !v.failed.contains(
            (
                (v.visible.0 + 1) as u32,
                g.scale_of(PageNo((v.visible.0 + 1) as u32)).0,
                v.view_rotation,
            ),
        ),
        v.evicted(g).fits_budget(PageNo((v.visible.0 + 1) as u32), g),
    ensures
        v.scheduled(g).1 == Some(
            ActionView::Render {
                engine: v.engine,
                page: PageNo((v.visible.0 + 1) as u32),
                scale: g.scale_of(PageNo((v.visible.0 + 1) as u32)),
                rotation: v.view_rotation,
                doc_gen: v.open_gen,
                render_gen: v.render_gen,
            },
        ),
{
    let r = v.view_rotation;
    assert(r & 3 == r) by (bit_vector)
        requires
            r < 4,
    ;
    let next = PageNo((v.visible.0 + 1) as u32);
    let e = v.evicted(g);
    let some = only_pages(v.surfaces, v.kept_pages(g));
    lemma_only_pages(v.surfaces, v.kept_pages(g));
    law_budget_is_kept(some, v.visible.0, NEIGHBOR_CACHE_BUDGET);
    assert(crate::cache::one_each(e.surfaces));
    lemma_keeps(e, v.visible, g);
    lemma_keeps(e, next, g);
    let order = e.read_order(g);
    let unread = |page: PageNo| e.unread(page);
    assert(order =~= seq![v.visible, next]);
    assert(crate::rendering::first_where(order, unread, 0) is None);
    assert(!unread(order[0]) && !unread(order[1]));
    assert(crate::rendering::first_where(order, unread, 1) is None);
    assert(crate::rendering::first_where(order, unread, 2) is None);
    assert(order.len() == 2);
}

/// Whether a page lies no farther from the visible one than another.
pub open spec fn no_farther(a: u32, b: u32, visible: u32) -> bool {
    (if a >= visible { a - visible } else { visible - a }) <= (if b >= visible {
        b - visible
    } else {
        visible - b
    })
}

proof fn lemma_farthest_of(pages: Surfaces, visible: u32, n: int)
    requires
        0 <= n <= pages.len(),
    ensures
        match farthest(pages, visible, n) {
            Some(i) => 0 <= i < n && pages[i].0 != visible && forall|j: int|
                0 <= j < n && (#[trigger] pages[j]).0 != visible ==> no_farther(
                    pages[j].0,
                    pages[i].0,
                    visible,
                ),
            None => forall|j: int| 0 <= j < n ==> (#[trigger] pages[j]).0 == visible,
        },
    decreases n,
{
    if n > 0 {
        lemma_farthest_of(pages, visible, n - 1);
    }
}

/// Bitmaps that do not fit the budget go from the farthest page on: none that
/// stays is of a page farther than one that went, and that of the visible page
/// stays.
pub proof fn law_farthest_bitmaps_go_first(
    pages: Surfaces,
    visible: u32,
    budget: usize,
    gone: (u32, CachedSurface),
    stays: (u32, CachedSurface),
)
    requires
        pages.contains(gone),
        !within_budget(pages, visible, budget).contains(gone),
        within_budget(pages, visible, budget).contains(stays),
    ensures
        pages.contains(stays),
        gone.0 != visible,
        no_farther(stays.0, gone.0, visible),
    decreases pages.len(),
{
    lemma_farthest_of(pages, visible, pages.len() as int);
    match farthest(pages, visible, pages.len() as int) {
        Some(i) => {
            let rest = pages.remove(i);
            let at = choose|j: int| 0 <= j < pages.len() && pages[j] == gone;
            if rest.contains(gone) {
                law_farthest_bitmaps_go_first(rest, visible, budget, gone, stays);
            } else {
                if at < i {
                    assert(rest[at] == gone);
                }
                if at > i {
                    assert(rest[at - 1] == gone);
                }
                lemma_budget_takes_away(rest, visible, budget, stays);
            }
            let k = choose|k: int| 0 <= k < rest.len() && rest[k] == stays;
            assert(pages[if k < i { k } else { k + 1 }] == stays);
        },
        None => {},
    }
}

proof fn lemma_budget_takes_away(
    pages: Surfaces,
    visible: u32,
    budget: usize,
    stays: (u32, CachedSurface),
)
    requires
        within_budget(pages, visible, budget).contains(stays),
    ensures
        pages.contains(stays),
    decreases pages.len(),
{
    lemma_farthest_of(pages, visible, pages.len() as int);
    match farthest(pages, visible, pages.len() as int) {
        Some(i) => {
            let rest = pages.remove(i);
            if within_budget(pages, visible, budget) != pages {
                lemma_budget_takes_away(rest, visible, budget, stays);
                let k = choose|k: int| 0 <= k < rest.len() && rest[k] == stays;
                assert(pages[if k < i { k } else { k + 1 }] == stays);
            }
        },
        None => {},
    }
}

proof fn lemma_between(from: int, to: int, page: u32)
    requires
        0 <= from,
        to <= u32::MAX,
    ensures
        pages_between(from, to).contains(PageNo(page)) <==> from <= page < to,
{
    let pages = pages_between(from, to);
    if from <= page < to {
        assert(pages[page - from] == PageNo(page));
    }
    if pages.contains(PageNo(page)) {
        let k = choose|k: int| 0 <= k < pages.len() && pages[k] == PageNo(page);
        assert(pages[k].0 == from + k);
    }
}

/// While the document is scrolled, bitmaps are kept of the pages that are seen,
/// of the two before and of the two behind them; while one page is shown, of it
/// and of the one before and behind it.
pub proof fn law_pages_round_the_seen_ones_are_kept(v: ReadyView, g: Geometry, page: u32)
    requires
        v.wf(),
        v.visible.0 < v.pages.total,
        page < v.pages.total,
    ensures
        v.view_mode == ViewMode::Continuous ==> (v.kept_pages(g).contains(page) <==> page + 2
            >= g.window_first && page <= g.window_last + 2),
        v.view_mode == ViewMode::Single ==> (v.kept_pages(g).contains(page) <==> page + 1
            >= v.visible.0 && page <= v.visible.0 + 1),
{
    lemma_between(v.window_start(g), v.window_end(g), page);
}

/// The small bitmaps that are made ready are those of the eight rows that are
/// seen and of three rows before and behind them.
pub proof fn law_rows_round_the_seen_ones_are_ready(v: ReadyView, g: Geometry, page: u32)
    requires
        g.thumb_first >= 3,
        page < v.pages.total,
    ensures
        v.thumb_window(g).contains(PageNo(page)) <==> g.thumb_first <= page + 3 && page
            < g.thumb_first + 8 + 3,
{
    let start = if g.thumb_first > 3 { g.thumb_first - 3 } else { 0 };
    let end = start + 14;
    lemma_between(start, if end <= v.pages.total { end } else { v.pages.total as int }, page);
}

proof fn lemma_first_of(pages: Seq<PageNo>, holds: spec_fn(PageNo) -> bool, i: int, n: int)
    requires
        0 <= i < n <= pages.len(),
        holds(pages[i]),
        forall|j: int| 0 <= j < i ==> !holds(#[trigger] pages[j]),
    ensures
        first_where(pages, holds, n) == Some(pages[i]),
    decreases n,
{
    if n - 1 == i {
        lemma_none_of(pages, holds, i);
    } else {
        lemma_first_of(pages, holds, i, n - 1);
    }
}

proof fn lemma_none_of(pages: Seq<PageNo>, holds: spec_fn(PageNo) -> bool, n: int)
    requires
        0 <= n <= pages.len(),
        forall|j: int| 0 <= j < n ==> !holds(#[trigger] pages[j]),
    ensures
        first_where(pages, holds, n) is None,
    decreases n,
{
    if n > 0 {
        lemma_none_of(pages, holds, n - 1);
    }
}

/// Once the visible page was read, or could not be, or is being read, the page
/// behind it is the one to read.
pub proof fn law_next_page_is_read_ahead(v: ReadyView, g: Geometry)
    requires
        !v.pages_open,
        v.visible.0 + 1 < v.pages.total,
        was_read(v, v.visible) || v.page_data_inflight.contains(v.visible.0)
            || v.page_data_failed.contains(v.visible.0),
        !was_read(v, PageNo((v.visible.0 + 1) as u32)),
        !v.page_data_inflight.contains((v.visible.0 + 1) as u32),
        !v.page_data_failed.contains((v.visible.0 + 1) as u32),
    ensures
        v.read_target(g) == Some(PageNo((v.visible.0 + 1) as u32)),
{
    let order = v.read_order(g);
    let holds = |page: PageNo| v.unread(page);
    assert(order =~= seq![v.visible, PageNo((v.visible.0 + 1) as u32)]);
    lemma_first_of(order, holds, 1, 2);
}

/// While the document is scrolled, what is rendered ahead is the nearest page
/// from the visible one on that lacks its bitmap.
pub proof fn law_scrolled_pages_are_rendered_ahead(v: ReadyView, g: Geometry, page: u32)
    requires
        v.view_mode == ViewMode::Continuous,
        g.window_first <= v.visible.0 <= page <= g.window_last + 2,
        page < v.pages.total,
        v.lacks_bitmap(PageNo(page), g),
        forall|p: u32| v.visible.0 <= p < page ==> !(#[trigger] v.lacks_bitmap(PageNo(p), g)),
    ensures
        v.ahead(g) == Some(PageNo(page)),
{
    let order = v.scroll_order(g);
    let end = v.window_end(g);
    let holds = |p: PageNo| v.lacks_bitmap(p, g);
    let i = page - v.visible.0;
    assert forall|j: int| 0 <= j <= i implies (#[trigger] order[j]).0 == v.visible.0 + j by {
        assert(order[j] == pages_between(v.visible.0 as int, end)[j]);
    }
    assert(order[i] == PageNo(page));
    assert forall|j: int| 0 <= j < i implies !holds(#[trigger] order[j]) by {
        let p = (v.visible.0 + j) as u32;
        assert(order[j] == PageNo(p));
        assert(!v.lacks_bitmap(PageNo(p), g));
    }
    lemma_first_of(order, holds, i, order.len() as int);
}

} // verus!
