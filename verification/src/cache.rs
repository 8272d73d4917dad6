//! What was rendered and is kept, and what is being rendered.

use vstd::prelude::*;

use crate::page::{capped, Bitmap, PageNo, PageSurface, Scale};

verus! {

/// The bytes that the bitmaps of pages round the visible one may take. The
/// visible page's own bitmap does not count.
pub const NEIGHBOR_CACHE_BUDGET: usize = 67_108_864;

/// What a render is told apart by: page, scale and quarter turns.
pub type RenderKey = (u32, u16, u8);

/// The quarter turns that a number of them comes to.
pub open spec fn quarter(rotation: u8) -> u8 {
    rotation & 3
}

/// The key of a render.
pub open spec fn key_of(page: PageNo, scale: Scale, rotation: u8) -> RenderKey {
    (page.0, scale.0, quarter(rotation))
}

/// The key of a render.
pub fn render_key(page: PageNo, scale: Scale, rotation: u8) -> (key: RenderKey)
    ensures
        key == key_of(page, scale, rotation),
{
    (page.index(), scale.key(), rotation & 3)
}

/// Four quarter turns are none: renders that differ by them share a key, and
/// renders that differ by fewer do not.
pub proof fn law_render_key_by_quarter_turns(page: PageNo, scale: Scale, a: u8, b: u8)
    requires
        a < 4,
        b < 4,
    ensures
        key_of(page, scale, a) == key_of(page, scale, b) <==> a == b,
        key_of(page, scale, (a + 4) as u8) == key_of(page, scale, a),
{
    assert(a & 3 == a && b & 3 == b && ((a + 4) as u8) & 3 == a) by (bit_vector)
        requires
            a < 4,
            b < 4,
    ;
}

/// A page as it was rendered, with the turn that it was rendered in.
#[derive(Debug)]
pub struct CachedSurface {
    pub scale: Scale,
    pub rotation: u8,
    pub bitmap: Bitmap,
}

/// A rendered page as it is kept.
pub open spec fn kept(surface: PageSurface, rotation: u8) -> CachedSurface {
    CachedSurface { scale: surface.scale, rotation: quarter(rotation), bitmap: surface.bitmap }
}

impl CachedSurface {
    pub fn from_page(surface: PageSurface, rotation: u8) -> (r: CachedSurface)
        ensures
            r == kept(surface, rotation),
    {
        CachedSurface { scale: surface.scale, rotation: rotation & 3, bitmap: surface.bitmap }
    }

    pub open spec fn bytes(self) -> nat {
        self.bitmap.rgba@.len()
    }

    pub fn byte_size(&self) -> (n: usize)
        ensures
            n == self.bytes(),
    {
        self.bitmap.rgba.len()
    }
}

/// The bitmaps of pages, one to a page.
#[derive(Debug)]
pub struct SurfaceCache {
    pub pages: Vec<(u32, CachedSurface)>,
}

/// A cache: pages and what is kept of each.
pub type Surfaces = Seq<(u32, CachedSurface)>;

/// The place of a page among the first `n` entries.
pub open spec fn entry_of(pages: Surfaces, page: u32, n: int) -> Option<int>
    decreases n,
{
    if n <= 0 {
        None
    } else {
        match entry_of(pages, page, n - 1) {
            Some(i) => Some(i),
            None => if pages[n - 1].0 == page {
                Some(n - 1)
            } else {
                None
            },
        }
    }
}

/// What is kept of a page.
pub open spec fn surface_of(pages: Surfaces, page: u32) -> Option<CachedSurface> {
    match entry_of(pages, page, pages.len() as int) {
        Some(i) => Some(pages[i].1),
        None => None,
    }
}

/// What is kept of a page in just this scale and turn.
pub open spec fn exact_surface(pages: Surfaces, page: PageNo, scale: Scale, rotation: u8) -> Option<
    CachedSurface,
> {
    match surface_of(pages, page.0) {
        Some(s) if s.scale == scale && s.rotation == quarter(rotation) => Some(s),
        _ => None,
    }
}

/// The entries whose page is among those to keep.
pub open spec fn only_pages(pages: Surfaces, keep: Set<u32>) -> Surfaces
    decreases pages.len(),
{
    if pages.len() == 0 {
        Seq::empty()
    } else if keep.contains(pages.last().0) {
        only_pages(pages.drop_last(), keep).push(pages.last())
    } else {
        only_pages(pages.drop_last(), keep)
    }
}

/// All pages but one.
pub open spec fn all_but(page: u32) -> Set<u32> {
    Set::new(|p: u32| p != page)
}

/// The entries of all pages but one.
pub open spec fn without_page(pages: Surfaces, page: u32) -> Surfaces {
    only_pages(pages, all_but(page))
}

/// A page put in, in the place of what was kept of it before.
pub open spec fn with_surface(pages: Surfaces, page: PageNo, surface: CachedSurface) -> Surfaces {
    without_page(pages, page.0).push((page.0, surface))
}

/// The bytes of the bitmaps of all pages but the visible one.
pub open spec fn neighbor_total(pages: Surfaces, visible: u32) -> nat
    decreases pages.len(),
{
    if pages.len() == 0 {
        0
    } else if pages.last().0 == visible {
        neighbor_total(pages.drop_last(), visible)
    } else {
        neighbor_total(pages.drop_last(), visible) + pages.last().1.bytes()
    }
}

/// How far apart two pages are.
pub open spec fn apart(a: u32, b: u32) -> int {
    if a >= b {
        a - b
    } else {
        b - a
    }
}

/// The farthest of the first `n` pages from the visible one, that one aside;
/// the last of them where several are.
pub open spec fn farthest(pages: Surfaces, visible: u32, n: int) -> Option<int>
    decreases n,
{
    if n <= 0 {
        None
    } else {
        let best = farthest(pages, visible, n - 1);
        if pages[n - 1].0 == visible {
            best
        } else {
            match best {
                Some(b) => if apart(pages[n - 1].0, visible) >= apart(pages[b].0, visible) {
                    Some(n - 1)
                } else {
                    Some(b)
                },
                None => Some(n - 1),
            }
        }
    }
}

/// What stays once the farthest pages went, one by one, until the rest fits
/// the budget.
pub open spec fn within_budget(pages: Surfaces, visible: u32, budget: usize) -> Surfaces
    decreases pages.len(),
{
    if capped(neighbor_total(pages, visible)) <= budget {
        pages
    } else {
        match farthest(pages, visible, pages.len() as int) {
            Some(i) if 0 <= i < pages.len() => within_budget(pages.remove(i), visible, budget),
            _ => pages,
        }
    }
}

/// Whether no page has two entries.
pub open spec fn one_each(pages: Surfaces) -> bool {
    forall|i: int, j: int|
        0 <= i < j < pages.len() ==> (#[trigger] pages[i]).0 != (#[trigger] pages[j]).0
}

proof fn lemma_entry_stays(pages: Surfaces, page: u32, m: int, n: int)
    requires
        m <= n,
        entry_of(pages, page, m) is Some,
    ensures
        entry_of(pages, page, n) == entry_of(pages, page, m),
    decreases n,
{
    if m < n {
        lemma_entry_stays(pages, page, m, n - 1);
    }
}

pub(crate) proof fn lemma_entry(pages: Surfaces, page: u32, n: int)
    requires
        0 <= n <= pages.len(),
    ensures
        match entry_of(pages, page, n) {
            Some(i) => 0 <= i < n && pages[i].0 == page,
            None => forall|i: int| 0 <= i < n ==> (#[trigger] pages[i]).0 != page,
        },
    decreases n,
{
    if n > 0 {
        lemma_entry(pages, page, n - 1);
    }
}

pub(crate) proof fn lemma_only_pages(pages: Surfaces, keep: Set<u32>)
    requires
        one_each(pages),
    ensures
        one_each(only_pages(pages, keep)),
        only_pages(pages, keep).len() <= pages.len(),
        forall|i: int|
            0 <= i < only_pages(pages, keep).len() ==> keep.contains(
                (#[trigger] only_pages(pages, keep)[i]).0,
            ) && pages.contains(only_pages(pages, keep)[i]),
        forall|i: int|
            0 <= i < pages.len() && keep.contains((#[trigger] pages[i]).0) ==> only_pages(
                pages,
                keep,
            ).contains(pages[i]),
    decreases pages.len(),
{
    if pages.len() > 0 {
        let front = pages.drop_last();
        let rest = only_pages(front, keep);
        let out = only_pages(pages, keep);
        assert forall|i: int, j: int| 0 <= i < j < front.len() implies (#[trigger] front[i]).0 != (
        #[trigger] front[j]).0 by {
            assert(pages[i].0 != pages[j].0);
        }
        lemma_only_pages(front, keep);
        assert forall|i: int| 0 <= i < out.len() implies keep.contains((#[trigger] out[i]).0)
            && pages.contains(out[i]) by {
            if i < rest.len() {
                assert(out[i] == rest[i]);
                let k = choose|k: int| 0 <= k < front.len() && front[k] == rest[i];
                assert(pages[k] == out[i]);
            } else {
                assert(pages[pages.len() - 1] == out[i]);
            }
        }
        assert forall|i: int, j: int| 0 <= i < j < out.len() implies (#[trigger] out[i]).0 != (
        #[trigger] out[j]).0 by {
            if j == rest.len() {
                assert(out[i] == rest[i]);
                let k = choose|k: int| 0 <= k < front.len() && front[k] == rest[i];
                assert(pages[k].0 != pages[pages.len() - 1].0);
            } else {
                assert(out[i] == rest[i] && out[j] == rest[j]);
            }
        }
        assert forall|i: int|
            0 <= i < pages.len() && keep.contains((#[trigger] pages[i]).0) implies out.contains(
            pages[i],
        ) by {
            if i < front.len() {
                assert(front[i] == pages[i]);
                let k = choose|k: int| 0 <= k < rest.len() && rest[k] == front[i];
                assert(out[k] == pages[i]);
            } else {
                assert(out[out.len() - 1] == pages[i]);
            }
        }
    }
}

pub(crate) proof fn lemma_farthest(pages: Surfaces, visible: u32, n: int)
    requires
        0 <= n <= pages.len(),
    ensures
        match farthest(pages, visible, n) {
            Some(b) => 0 <= b < n && pages[b].0 != visible && (forall|i: int|
                0 <= i < n && (#[trigger] pages[i]).0 != visible ==> apart(pages[i].0, visible)
                    <= apart(pages[b].0, visible)),
            None => forall|i: int| 0 <= i < n ==> (#[trigger] pages[i]).0 == visible,
        },
    decreases n,
{
    if n > 0 {
        lemma_farthest(pages, visible, n - 1);
    }
}

proof fn lemma_no_neighbors(pages: Surfaces, visible: u32)
    requires
        forall|i: int| 0 <= i < pages.len() ==> (#[trigger] pages[i]).0 == visible,
    ensures
        neighbor_total(pages, visible) == 0,
    decreases pages.len(),
{
    if pages.len() > 0 {
        assert(pages[pages.len() - 1].0 == visible);
        assert forall|i: int| 0 <= i < pages.drop_last().len() implies (
        #[trigger] pages.drop_last()[i]).0 == visible by {
            assert(pages[i].0 == visible);
        }
        lemma_no_neighbors(pages.drop_last(), visible);
    }
}

proof fn lemma_removed(pages: Surfaces, i: int)
    requires
        one_each(pages),
        0 <= i < pages.len(),
    ensures
        one_each(pages.remove(i)),
        forall|k: int|
            0 <= k < pages.len() && k != i ==> pages.remove(i).contains(#[trigger] pages[k]),
{
    let out = pages.remove(i);
    assert forall|a: int, b: int| 0 <= a < b < out.len() implies (#[trigger] out[a]).0 != (
    #[trigger] out[b]).0 by {
        let x = if a < i {
            a
        } else {
            a + 1
        };
        let y = if b < i {
            b
        } else {
            b + 1
        };
        assert(out[a] == pages[x] && out[b] == pages[y]);
    }
    assert forall|k: int| 0 <= k < pages.len() && k != i implies out.contains(
        #[trigger] pages[k],
    ) by {
        if k < i {
            assert(out[k] == pages[k]);
        } else {
            assert(out[k - 1] == pages[k]);
        }
    }
}

/// What stays within the budget: the neighbours that stay fit it, the visible
/// page stays if it was there, nothing is put in, and what goes is no nearer
/// to the visible page than what stays.
pub proof fn law_budget_is_kept(pages: Surfaces, visible: u32, budget: usize)
    requires
        one_each(pages),
    ensures
        one_each(within_budget(pages, visible, budget)),
        capped(neighbor_total(within_budget(pages, visible, budget), visible)) <= budget,
        forall|i: int|
            0 <= i < pages.len() && (#[trigger] pages[i]).0 == visible ==> within_budget(
                pages,
                visible,
                budget,
            ).contains(pages[i]),
        forall|i: int|
            0 <= i < within_budget(pages, visible, budget).len() ==> pages.contains(
                #[trigger] within_budget(pages, visible, budget)[i],
            ),
        forall|gone: (u32, CachedSurface), stays: (u32, CachedSurface)|
            #![trigger pages.contains(gone), pages.contains(stays)]
            pages.contains(gone) && !within_budget(pages, visible, budget).contains(gone)
                && within_budget(pages, visible, budget).contains(stays) && stays.0 != visible
                ==> apart(gone.0, visible) >= apart(stays.0, visible),
    decreases pages.len(),
{
    let out = within_budget(pages, visible, budget);
    if capped(neighbor_total(pages, visible)) > budget {
        lemma_farthest(pages, visible, pages.len() as int);
        if farthest(pages, visible, pages.len() as int) is None {
            lemma_no_neighbors(pages, visible);
        } else {
            let b = farthest(pages, visible, pages.len() as int)->0;
            let rest = pages.remove(b);
            lemma_removed(pages, b);
            law_budget_is_kept(rest, visible, budget);
            assert(out == within_budget(rest, visible, budget));
            assert forall|i: int| 0 <= i < out.len() implies pages.contains(#[trigger] out[i]) by {
                assert(rest.contains(out[i]));
                let k = choose|k: int| 0 <= k < rest.len() && rest[k] == out[i];
                if k < b {
                    assert(pages[k] == out[i]);
                } else {
                    assert(pages[k + 1] == out[i]);
                }
            }
            assert forall|i: int|
                0 <= i < pages.len() && (#[trigger] pages[i]).0 == visible implies out.contains(
                pages[i],
            ) by {
                assert(rest.contains(pages[i]));
                let k = choose|k: int| 0 <= k < rest.len() && rest[k] == pages[i];
                assert(rest[k].0 == visible);
            }
            assert forall|gone: (u32, CachedSurface), stays: (u32, CachedSurface)|
                #![trigger pages.contains(gone), pages.contains(stays)]
                pages.contains(gone) && !out.contains(gone) && out.contains(stays) && stays.0
                    != visible implies apart(gone.0, visible) >= apart(stays.0, visible) by {
                let g = choose|g: int| 0 <= g < pages.len() && pages[g] == gone;
                let s = choose|s: int| 0 <= s < pages.len() && pages[s] == stays;
                if g != b {
                    assert(rest.contains(pages[g]));
                    let k = choose|k: int| 0 <= k < out.len() && out[k] == stays;
                    assert(rest.contains(out[k]));
                } else {
                    assert(pages[s].0 != visible);
                }
            }
        }
    } else {
        assert forall|i: int| 0 <= i < out.len() implies pages.contains(#[trigger] out[i]) by {
            assert(pages[i] == out[i]);
        }
    }
}

impl SurfaceCache {
    pub open spec fn wf(self) -> bool {
        one_each(self.pages@)
    }

    pub fn new() -> (cache: SurfaceCache)
        ensures
            cache.wf(),
            cache.pages@ == Seq::<(u32, CachedSurface)>::empty(),
    {
        SurfaceCache { pages: Vec::new() }
    }

    fn position(&self, page: u32) -> (r: Option<usize>)
        ensures
            match entry_of(self.pages@, page, self.pages@.len() as int) {
                Some(i) => r is Some && r->0 == i && 0 <= i < self.pages@.len(),
                None => r is None,
            },
    {
        let mut i: usize = 0;
        while i < self.pages.len()
            invariant
                i <= self.pages@.len(),
                entry_of(self.pages@, page, i as int) is None,
            decreases self.pages@.len() - i,
        {
            if self.pages[i].0 == page {
                proof {
                    lemma_entry_stays(self.pages@, page, i + 1, self.pages@.len() as int);
                }
                return Some(i);
            }
            i += 1;
        }
        None
    }

    /// The bitmap of a page in just this scale and turn.
    pub fn get(&self, page: PageNo, scale: Scale, rotation: u8) -> (r: Option<&CachedSurface>)
        ensures
            match exact_surface(self.pages@, page, scale, rotation) {
                Some(s) => r == Some(&s),
                None => r is None,
            },
    {
        match self.position(page.index()) {
            Some(i) => {
                let cached = &self.pages[i].1;
                if cached.scale == scale && cached.rotation == rotation & 3 {
                    Some(cached)
                } else {
                    None
                }
            },
            None => None,
        }
    }

    /// The bitmap that is kept of a page, whatever its scale: it is shown
    /// until that of the new scale comes.
    pub fn fallback_for_page(&self, page: PageNo) -> (r: Option<&CachedSurface>)
        ensures
            match surface_of(self.pages@, page.0) {
                Some(s) => r == Some(&s),
                None => r is None,
            },
    {
        match self.position(page.index()) {
            Some(i) => Some(&self.pages[i].1),
            None => None,
        }
    }

    /// Keeps a rendered page, in the place of what was kept of it before.
    pub fn insert(&mut self, page: PageNo, rotation: u8, surface: PageSurface)
        requires
            old(self).wf(),
        ensures
            final(self).wf(),
            final(self).pages@ == with_surface(old(self).pages@, page, kept(surface, rotation)),
    {
        let ghost others = all_but(page.0);
        proof {
            lemma_only_pages(self.pages@, others);
            lemma_without_is_remove(self.pages@, page.0);
        }
        match self.position(page.index()) {
            Some(i) => {
                self.pages.remove(i);
            },
            None => {},
        }
        let ghost rest = self.pages@;
        self.pages.push((page.index(), CachedSurface::from_page(surface, rotation)));
        assert forall|i: int, j: int| 0 <= i < j < self.pages@.len() implies (
        #[trigger] self.pages@[i]).0 != (#[trigger] self.pages@[j]).0 by {
            if j == rest.len() {
                assert(others.contains(rest[i].0));
            }
        }
    }

    /// Drops every page that is not to be kept.
    pub fn retain_pages(&mut self, keep: &Vec<u32>)
        requires
            old(self).wf(),
        ensures
            final(self).wf(),
            final(self).pages@ == only_pages(old(self).pages@, keep@.to_set()),
    {
        let mut n: usize = self.pages.len();
        let ghost whole = self.pages@;
        proof {
            lemma_only_pages(whole, keep@.to_set());
            assert(whole.take(n as int) =~= whole);
            assert(only_pages(whole, keep@.to_set()) =~= only_pages(whole.take(n as int), keep@.to_set())
                + Seq::<(u32, CachedSurface)>::empty());
            assert(self.pages@.skip(n as int) =~= Seq::<(u32, CachedSurface)>::empty());
        }
        while n > 0
            invariant
                n <= self.pages@.len(),
                n <= whole.len(),
                self.pages@.take(n as int) == whole.take(n as int),
                only_pages(whole, keep@.to_set()) == only_pages(
                    whole.take(n as int),
                    keep@.to_set(),
                ) + self.pages@.skip(n as int),
            decreases n,
        {
            n -= 1;
            let page: u32 = self.pages[n].0;
            proof {
                let front = whole.take(n + 1);
                assert(self.pages@[n as int] == self.pages@.take(n + 1)[n as int]);
                assert(front.last() == self.pages@[n as int]);
                assert(front.drop_last() =~= whole.take(n as int));
            }
            let ghost before = self.pages@;
            if !listed(keep, page) {
                self.pages.remove(n);
                assert(self.pages@.skip(n as int) =~= before.skip(n + 1));
            } else {
                assert(seq![before[n as int]] + before.skip(n + 1) =~= before.skip(n as int));
                assert(only_pages(whole.take(n as int), keep@.to_set()).push(before[n as int])
                    + before.skip(n + 1) =~= only_pages(whole.take(n as int), keep@.to_set())
                    + before.skip(n as int));
            }
            assert(self.pages@.take(n as int) =~= whole.take(n as int)) by {
                assert(before.take(n + 1).take(n as int) =~= before.take(n as int));
                assert(whole.take(n + 1).take(n as int) =~= whole.take(n as int));
            }
        }
        assert(only_pages(whole.take(0), keep@.to_set()) =~= Seq::<(u32, CachedSurface)>::empty());
        assert(self.pages@ =~= only_pages(whole, keep@.to_set()));
    }

    /// The bytes of all pages but the visible one.
    pub fn neighbor_bytes(&self, visible: u32) -> (n: usize)
        ensures
            n == capped(neighbor_total(self.pages@, visible)),
    {
        let mut total: usize = 0;
        let mut i: usize = 0;
        while i < self.pages.len()
            invariant
                i <= self.pages@.len(),
                total == capped(neighbor_total(self.pages@.take(i as int), visible)),
            decreases self.pages@.len() - i,
        {
            assert(self.pages@.take(i + 1).drop_last() =~= self.pages@.take(i as int));
            if self.pages[i].0 != visible {
                total = total.saturating_add(self.pages[i].1.byte_size());
            }
            i += 1;
        }
        assert(self.pages@.take(i as int) =~= self.pages@);
        total
    }

    /// The bytes of one page; none where nothing is kept of it.
    pub fn page_bytes(&self, page: u32) -> (n: usize)
        ensures
            n == (match surface_of(self.pages@, page) {
                Some(s) => s.bytes(),
                None => 0,
            }),
    {
        match self.position(page) {
            Some(i) => self.pages[i].1.byte_size(),
            None => 0,
        }
    }

    fn farthest_from(&self, visible: u32) -> (r: Option<usize>)
        ensures
            match farthest(self.pages@, visible, self.pages@.len() as int) {
                Some(i) => r is Some && r->0 == i && 0 <= i < self.pages@.len(),
                None => r is None,
            },
    {
        let mut best: Option<usize> = None;
        let mut i: usize = 0;
        while i < self.pages.len()
            invariant
                i <= self.pages@.len(),
                match farthest(self.pages@, visible, i as int) {
                    Some(b) => best is Some && best->0 == b && 0 <= b < i,
                    None => best is None,
                },
            decreases self.pages@.len() - i,
        {
            if self.pages[i].0 != visible {
                match best {
                    None => {
                        best = Some(i);
                    },
                    Some(b) => {
                        if distance(self.pages[i].0, visible) >= distance(self.pages[b].0, visible) {
                            best = Some(i);
                        }
                    },
                }
            }
            i += 1;
        }
        best
    }

    /// Drops the farthest pages, one by one, until the rest fits the budget.
    pub fn enforce_neighbor_budget(&mut self, visible: u32, budget: usize)
        requires
            old(self).wf(),
        ensures
            final(self).wf(),
            final(self).pages@ == within_budget(old(self).pages@, visible, budget),
    {
        proof {
            law_budget_is_kept(self.pages@, visible, budget);
        }
        while self.neighbor_bytes(visible) > budget
            invariant
                within_budget(self.pages@, visible, budget) == within_budget(
                    old(self).pages@,
                    visible,
                    budget,
                ),
            ensures
                self.pages@ == within_budget(old(self).pages@, visible, budget),
            decreases self.pages@.len(),
        {
            match self.farthest_from(visible) {
                Some(i) => {
                    self.pages.remove(i);
                },
                None => {
                    break ;
                },
            }
        }
    }
}

proof fn lemma_without_is_remove(pages: Surfaces, page: u32)
    requires
        one_each(pages),
    ensures
        without_page(pages, page) == (match entry_of(pages, page, pages.len() as int) {
            Some(i) => pages.remove(i),
            None => pages,
        }),
    decreases pages.len(),
{
    if pages.len() > 0 {
        let front = pages.drop_last();
        assert forall|i: int, j: int| 0 <= i < j < front.len() implies (#[trigger] front[i]).0 != (
        #[trigger] front[j]).0 by {
            assert(pages[i].0 != pages[j].0);
        }
        lemma_without_is_remove(front, page);
        lemma_entry_prefix(pages, page, front.len() as int);
        lemma_entry(front, page, front.len() as int);
        match entry_of(front, page, front.len() as int) {
            Some(i) => {
                assert(pages[i].0 != pages[pages.len() - 1].0);
                assert(without_page(pages, page) =~= pages.remove(i));
            },
            None => {
                if pages.last().0 == page {
                    assert(without_page(pages, page) =~= pages.remove(pages.len() - 1));
                } else {
                    assert(without_page(pages, page) =~= pages);
                }
            },
        }
    }
}

proof fn lemma_entry_prefix(pages: Surfaces, page: u32, n: int)
    requires
        0 <= n < pages.len(),
    ensures
        entry_of(pages.drop_last(), page, n) == entry_of(pages, page, n),
    decreases n,
{
    if n > 0 {
        lemma_entry_prefix(pages, page, n - 1);
    }
}

fn distance(a: u32, b: u32) -> (d: u32)
    ensures
        d == apart(a, b),
{
    if a >= b {
        a - b
    } else {
        b - a
    }
}

/// Whether a list of pages holds one.
pub fn listed(pages: &Vec<u32>, page: u32) -> (r: bool)
    ensures
        r == pages@.to_set().contains(page),
        r == pages@.contains(page),
{
    let mut i: usize = 0;
    while i < pages.len()
        invariant
            i <= pages@.len(),
            forall|j: int| 0 <= j < i ==> pages@[j] != page,
        decreases pages@.len() - i,
    {
        if pages[i] == page {
            assert(pages@[i as int] == page);
            return true;
        }
        i += 1;
    }
    false
}

/// The visible page and those beside it, in a document.
pub open spec fn neighbors(visible: u32, total: u32) -> Set<u32> {
    Set::new(
        |page: u32|
            total > 0 && (page == visible || page + 1 == visible || (page == visible + 1 && page
                < total)),
    )
}

/// The visible page and those beside it, in a document.
pub fn neighbor_page_set(visible: u32, total: u32) -> (keep: Vec<u32>)
    ensures
        keep@.to_set() == neighbors(visible, total),
{
    let mut keep: Vec<u32> = Vec::new();
    if total == 0 {
        assert(keep@.to_set() =~= neighbors(visible, total));
        return keep;
    }
    keep.push(visible);
    if visible > 0 {
        keep.push(visible - 1);
    }
    if visible < total - 1 {
        keep.push(visible + 1);
    }
    proof {
        assert forall|page: u32| neighbors(visible, total).contains(page) implies keep@.contains(
            page,
        ) by {
            if page == visible {
                assert(keep@[0] == page);
            } else if page + 1 == visible {
                assert(keep@[1] == page);
            } else {
                assert(keep@[keep@.len() - 1] == page);
            }
        }
        assert(keep@.to_set() =~= neighbors(visible, total));
    }
    keep
}

/// The small bitmaps of the pages panel, one to a page.
#[derive(Debug)]
pub struct ThumbCache {
    pub entries: Vec<ThumbEntry>,
}

/// A small bitmap, with the page and the scale that it was asked for in.
#[derive(Debug)]
pub struct ThumbEntry {
    pub page: u32,
    pub scale: Scale,
    pub surface: CachedSurface,
}

/// The place of a page in a scale among the first `n` small bitmaps.
pub open spec fn thumb_entry(entries: Seq<ThumbEntry>, page: u32, scale: Scale, n: int) -> Option<
    int,
>
    decreases n,
{
    if n <= 0 {
        None
    } else {
        match thumb_entry(entries, page, scale, n - 1) {
            Some(i) => Some(i),
            None => if entries[n - 1].page == page && entries[n - 1].scale == scale {
                Some(n - 1)
            } else {
                None
            },
        }
    }
}

/// The small bitmap of a page in a scale.
pub open spec fn thumb_of(entries: Seq<ThumbEntry>, page: PageNo, scale: Scale) -> Option<
    CachedSurface,
> {
    match thumb_entry(entries, page.0, scale, entries.len() as int) {
        Some(i) => Some(entries[i].surface),
        None => None,
    }
}

/// The small bitmaps whose page is among those to keep.
pub open spec fn only_thumbs(entries: Seq<ThumbEntry>, keep: Set<u32>) -> Seq<ThumbEntry>
    decreases entries.len(),
{
    if entries.len() == 0 {
        Seq::empty()
    } else if keep.contains(entries.last().page) {
        only_thumbs(entries.drop_last(), keep).push(entries.last())
    } else {
        only_thumbs(entries.drop_last(), keep)
    }
}

/// A small bitmap put in: those that the page had in any scale go.
pub open spec fn with_thumb(
    entries: Seq<ThumbEntry>,
    page: PageNo,
    scale: Scale,
    surface: PageSurface,
) -> Seq<ThumbEntry> {
    only_thumbs(entries, all_but(page.0)).push(
        ThumbEntry { page: page.0, scale, surface: kept(surface, 0) },
    )
}

proof fn lemma_thumb_stays(entries: Seq<ThumbEntry>, page: u32, scale: Scale, m: int, n: int)
    requires
        m <= n,
        thumb_entry(entries, page, scale, m) is Some,
    ensures
        thumb_entry(entries, page, scale, n) == thumb_entry(entries, page, scale, m),
    decreases n,
{
    if m < n {
        lemma_thumb_stays(entries, page, scale, m, n - 1);
    }
}

proof fn lemma_only_thumbs(entries: Seq<ThumbEntry>, keep: Set<u32>)
    ensures
        only_thumbs(entries, keep).len() <= entries.len(),
        forall|i: int|
            0 <= i < only_thumbs(entries, keep).len() ==> keep.contains(
                (#[trigger] only_thumbs(entries, keep)[i]).page,
            ),
    decreases entries.len(),
{
    if entries.len() > 0 {
        lemma_only_thumbs(entries.drop_last(), keep);
    }
}

/// A page has a small bitmap in one scale at most: the one put in last.
pub proof fn law_one_thumb_to_a_page(
    entries: Seq<ThumbEntry>,
    page: PageNo,
    scale: Scale,
    other: Scale,
    surface: PageSurface,
)
    ensures
        thumb_of(with_thumb(entries, page, scale, surface), page, scale) == Some(kept(surface, 0)),
        other != scale ==> thumb_of(with_thumb(entries, page, scale, surface), page, other) is None,
{
    let rest = only_thumbs(entries, all_but(page.0));
    let out = with_thumb(entries, page, scale, surface);
    lemma_only_thumbs(entries, all_but(page.0));
    assert forall|i: int| 0 <= i < rest.len() implies (#[trigger] out[i]).page != page.0 by {
        assert(all_but(page.0).contains(rest[i].page));
    }
    lemma_no_thumb(out, page.0, scale, rest.len() as int);
    lemma_no_thumb(out, page.0, other, rest.len() as int);
}

proof fn lemma_no_thumb(entries: Seq<ThumbEntry>, page: u32, scale: Scale, n: int)
    requires
        forall|i: int| 0 <= i < n ==> (#[trigger] entries[i]).page != page,
    ensures
        thumb_entry(entries, page, scale, n) is None,
    decreases n,
{
    if n > 0 {
        lemma_no_thumb(entries, page, scale, n - 1);
        assert(entries[n - 1].page != page);
    }
}

impl ThumbCache {
    pub fn new() -> (cache: ThumbCache)
        ensures
            cache.entries@ == Seq::<ThumbEntry>::empty(),
    {
        ThumbCache { entries: Vec::new() }
    }

    /// The small bitmap of a page in a scale.
    pub fn get(&self, page: PageNo, scale: Scale) -> (r: Option<&CachedSurface>)
        ensures
            match thumb_of(self.entries@, page, scale) {
                Some(s) => r == Some(&s),
                None => r is None,
            },
    {
        let mut i: usize = 0;
        while i < self.entries.len()
            invariant
                i <= self.entries@.len(),
                thumb_entry(self.entries@, page.0, scale, i as int) is None,
            decreases self.entries@.len() - i,
        {
            if self.entries[i].page == page.0 && self.entries[i].scale == scale {
                proof {
                    lemma_thumb_stays(
                        self.entries@,
                        page.0,
                        scale,
                        i + 1,
                        self.entries@.len() as int,
                    );
                }
                return Some(&self.entries[i].surface);
            }
            i += 1;
        }
        None
    }

    fn drop_where(&mut self, keep: &Vec<u32>, but: Option<u32>)
        ensures
            match but {
                Some(page) => final(self).entries@ == only_thumbs(
                    old(self).entries@,
                    all_but(page),
                ),
                None => final(self).entries@ == only_thumbs(old(self).entries@, keep@.to_set()),
            },
    {
        let ghost set = match but {
            Some(page) => all_but(page),
            None => keep@.to_set(),
        };
        let mut n: usize = self.entries.len();
        let ghost whole = self.entries@;
        proof {
            assert(whole.take(n as int) =~= whole);
            assert(only_thumbs(whole, set) =~= only_thumbs(whole.take(n as int), set) + Seq::<
                ThumbEntry,
            >::empty());
            assert(self.entries@.skip(n as int) =~= Seq::<ThumbEntry>::empty());
        }
        while n > 0
            invariant
                set == (match but {
                    Some(page) => all_but(page),
                    None => keep@.to_set(),
                }),
                n <= self.entries@.len(),
                n <= whole.len(),
                self.entries@.take(n as int) == whole.take(n as int),
                only_thumbs(whole, set) == only_thumbs(whole.take(n as int), set)
                    + self.entries@.skip(n as int),
            decreases n,
        {
            n -= 1;
            let page: u32 = self.entries[n].page;
            proof {
                let front = whole.take(n + 1);
                assert(self.entries@[n as int] == self.entries@.take(n + 1)[n as int]);
                assert(front.last() == self.entries@[n as int]);
                assert(front.drop_last() =~= whole.take(n as int));
            }
            let ghost before = self.entries@;
            let stays = match but {
                Some(gone) => page != gone,
                None => listed(keep, page),
            };
            if !stays {
                self.entries.remove(n);
                assert(self.entries@.skip(n as int) =~= before.skip(n + 1));
            } else {
                assert(only_thumbs(whole.take(n as int), set).push(before[n as int]) + before.skip(
                    n + 1,
                ) =~= only_thumbs(whole.take(n as int), set) + before.skip(n as int));
            }
            assert(self.entries@.take(n as int) =~= whole.take(n as int)) by {
                assert(before.take(n + 1).take(n as int) =~= before.take(n as int));
                assert(whole.take(n + 1).take(n as int) =~= whole.take(n as int));
            }
        }
        assert(only_thumbs(whole.take(0), set) =~= Seq::<ThumbEntry>::empty());
        assert(self.entries@ =~= only_thumbs(whole, set));
    }

    /// Keeps a small bitmap; those that the page had in any scale go.
    pub fn insert(&mut self, page: PageNo, scale: Scale, surface: PageSurface)
        ensures
            final(self).entries@ == with_thumb(old(self).entries@, page, scale, surface),
    {
        let none: Vec<u32> = Vec::new();
        self.drop_where(&none, Some(page.index()));
        self.entries.push(
            ThumbEntry {
                page: page.index(),
                scale,
                surface: CachedSurface::from_page(surface, 0),
            },
        );
    }

    pub fn clear(&mut self)
        ensures
            final(self).entries@ == Seq::<ThumbEntry>::empty(),
    {
        self.entries.clear();
    }

    /// Drops the small bitmaps of every page that is not to be kept.
    pub fn retain_pages(&mut self, keep: &Vec<u32>)
        ensures
            final(self).entries@ == only_thumbs(old(self).entries@, keep@.to_set()),
    {
        self.drop_where(keep, None);
    }
}

/// A set of pages.
#[derive(Debug)]
pub struct PageSet {
    pub pages: Vec<u32>,
}

impl View for PageSet {
    type V = Set<u32>;

    open spec fn view(&self) -> Set<u32> {
        self.pages@.to_set()
    }
}

impl PageSet {
    pub fn new() -> (set: PageSet)
        ensures
            set@ == Set::<u32>::empty(),
    {
        let set = PageSet { pages: Vec::new() };
        assert(set@ =~= Set::<u32>::empty());
        set
    }

    pub fn contains(&self, page: u32) -> (r: bool)
        ensures
            r == self@.contains(page),
    {
        listed(&self.pages, page)
    }

    pub fn is_empty(&self) -> (r: bool)
        ensures
            r == (self@ == Set::<u32>::empty()),
    {
        proof {
            if self.pages@.len() == 0 {
                assert(self@ =~= Set::<u32>::empty());
            } else {
                assert(self.pages@.contains(self.pages@[0]));
                assert(self@.contains(self.pages@[0]));
            }
        }
        self.pages.len() == 0
    }

    pub fn insert(&mut self, page: u32)
        ensures
            final(self)@ == old(self)@.insert(page),
    {
        let ghost before = self.pages@;
        self.pages.push(page);
        proof {
            assert forall|p: u32| before.to_set().insert(page).contains(p) implies self.pages@.contains(
                p,
            ) by {
                if p == page {
                    assert(self.pages@[before.len() as int] == p);
                } else {
                    let i = choose|i: int| 0 <= i < before.len() && before[i] == p;
                    assert(self.pages@[i] == p);
                }
            }
            assert(self@ =~= old(self)@.insert(page));
        }
    }

    pub fn remove(&mut self, page: u32)
        ensures
            final(self)@ == old(self)@.remove(page),
    {
        let mut kept: Vec<u32> = Vec::new();
        let mut i: usize = 0;
        while i < self.pages.len()
            invariant
                *self == *old(self),
                i <= self.pages@.len(),
                forall|p: u32| #[trigger]
                    kept@.contains(p) ==> p != page && self.pages@.contains(p),
                forall|j: int| 0 <= j < i && self.pages@[j] != page ==> kept@.contains(
                    #[trigger] self.pages@[j],
                ),
            decreases self.pages@.len() - i,
        {
            let p = self.pages[i];
            let ghost before = kept@;
            if p != page {
                kept.push(p);
                assert forall|q: u32| #[trigger] kept@.contains(q) implies q != page
                    && self.pages@.contains(q) by {
                    let k = choose|k: int| 0 <= k < kept@.len() && kept@[k] == q;
                    if k < before.len() {
                        assert(before.contains(before[k]));
                    } else {
                        assert(self.pages@[i as int] == q);
                    }
                }
                assert forall|j: int| 0 <= j < i + 1 && self.pages@[j] != page implies kept@.contains(
                    #[trigger] self.pages@[j],
                ) by {
                    if j < i {
                        let k = choose|k: int| 0 <= k < before.len() && before[k] == self.pages@[j];
                        assert(kept@[k] == self.pages@[j]);
                    } else {
                        assert(kept@[before.len() as int] == p);
                    }
                }
            }
            i += 1;
        }
        proof {
            assert forall|p: u32| kept@.to_set().contains(p) <==> self.pages@.to_set().remove(
                page,
            ).contains(p) by {
                if self.pages@.contains(p) && p != page {
                    let j = choose|j: int| 0 <= j < self.pages@.len() && self.pages@[j] == p;
                    assert(kept@.contains(self.pages@[j]));
                }
            }
            assert(kept@.to_set() =~= self.pages@.to_set().remove(page));
        }
        self.pages = kept;
    }
}

/// A set of renders.
#[derive(Debug)]
pub struct KeySet {
    pub keys: Vec<RenderKey>,
}

impl View for KeySet {
    type V = Set<RenderKey>;

    open spec fn view(&self) -> Set<RenderKey> {
        self.keys@.to_set()
    }
}

fn same_key(a: RenderKey, b: RenderKey) -> (r: bool)
    ensures
        r == (a == b),
{
    a.0 == b.0 && a.1 == b.1 && a.2 == b.2
}

impl KeySet {
    pub fn new() -> (set: KeySet)
        ensures
            set@ == Set::<RenderKey>::empty(),
    {
        let set = KeySet { keys: Vec::new() };
        assert(set@ =~= Set::<RenderKey>::empty());
        set
    }

    pub fn contains(&self, key: RenderKey) -> (r: bool)
        ensures
            r == self@.contains(key),
    {
        let mut i: usize = 0;
        while i < self.keys.len()
            invariant
                i <= self.keys@.len(),
                forall|j: int| 0 <= j < i ==> self.keys@[j] != key,
            decreases self.keys@.len() - i,
        {
            if same_key(self.keys[i], key) {
                assert(self.keys@[i as int] == key);
                return true;
            }
            i += 1;
        }
        false
    }

    pub fn clear(&mut self)
        ensures
            final(self)@ == Set::<RenderKey>::empty(),
    {
        self.keys.clear();
        assert(self@ =~= Set::<RenderKey>::empty());
    }

    pub fn insert(&mut self, key: RenderKey)
        ensures
            final(self)@ == old(self)@.insert(key),
    {
        let ghost before = self.keys@;
        self.keys.push(key);
        proof {
            assert forall|p: RenderKey|
                before.to_set().insert(key).contains(p) implies self.keys@.contains(p) by {
                if p == key {
                    assert(self.keys@[before.len() as int] == p);
                } else {
                    let i = choose|i: int| 0 <= i < before.len() && before[i] == p;
                    assert(self.keys@[i] == p);
                }
            }
            assert(self@ =~= old(self)@.insert(key));
        }
    }

    pub fn remove(&mut self, key: RenderKey)
        ensures
            final(self)@ == old(self)@.remove(key),
    {
        let mut kept: Vec<RenderKey> = Vec::new();
        let mut i: usize = 0;
        while i < self.keys.len()
            invariant
                *self == *old(self),
                i <= self.keys@.len(),
                forall|p: RenderKey| #[trigger]
                    kept@.contains(p) ==> p != key && self.keys@.contains(p),
                forall|j: int| 0 <= j < i && self.keys@[j] != key ==> kept@.contains(
                    #[trigger] self.keys@[j],
                ),
            decreases self.keys@.len() - i,
        {
            let p = self.keys[i];
            let ghost before = kept@;
            if !same_key(p, key) {
                kept.push(p);
                assert forall|q: RenderKey| #[trigger] kept@.contains(q) implies q != key
                    && self.keys@.contains(q) by {
                    let k = choose|k: int| 0 <= k < kept@.len() && kept@[k] == q;
                    if k < before.len() {
                        assert(before.contains(before[k]));
                    } else {
                        assert(self.keys@[i as int] == q);
                    }
                }
                assert forall|j: int| 0 <= j < i + 1 && self.keys@[j] != key implies kept@.contains(
                    #[trigger] self.keys@[j],
                ) by {
                    if j < i {
                        let k = choose|k: int| 0 <= k < before.len() && before[k] == self.keys@[j];
                        assert(kept@[k] == self.keys@[j]);
                    } else {
                        assert(kept@[before.len() as int] == p);
                    }
                }
            }
            i += 1;
        }
        proof {
            assert forall|p: RenderKey| kept@.to_set().contains(p) <==> self.keys@.to_set().remove(
                key,
            ).contains(p) by {
                if self.keys@.contains(p) && p != key {
                    let j = choose|j: int| 0 <= j < self.keys@.len() && self.keys@[j] == p;
                    assert(kept@.contains(self.keys@[j]));
                }
            }
            assert(kept@.to_set() =~= self.keys@.to_set().remove(key));
        }
        self.keys = kept;
    }

    pub fn is_empty(&self) -> (r: bool)
        ensures
            r == (self@ == Set::<RenderKey>::empty()),
    {
        proof {
            if self.keys@.len() == 0 {
                assert(self@ =~= Set::<RenderKey>::empty());
            } else {
                assert(self.keys@.contains(self.keys@[0]));
                assert(self@.contains(self.keys@[0]));
            }
        }
        self.keys.len() == 0
    }
}

} // verus!
