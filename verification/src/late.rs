//! Pages whose text comes after a search was made.

use vstd::prelude::*;

use crate::page::TextLayer;
use crate::search::{after, in_order, in_reading_order, with_page_hits, Hit};

verus! {

/// What is found on the first `n` pages, page by page, for the pages whose
/// text is there.
pub open spec fn gathered(
    found: spec_fn(TextLayer) -> Seq<Hit>,
    pages: Seq<Option<TextLayer>>,
    n: int,
) -> Seq<Hit>
    decreases n,
{
    if n <= 0 {
        Seq::empty()
    } else {
        match pages[n - 1] {
            Some(layer) => gathered(found, pages, n - 1) + found(layer),
            None => gathered(found, pages, n - 1),
        }
    }
}

/// Whether what is found in a text is on its page, and in reading order.
pub open spec fn orderly(found: spec_fn(TextLayer) -> Seq<Hit>, layer: TextLayer) -> bool {
    &&& in_reading_order(found(layer))
    &&& forall|i: int| 0 <= i < found(layer).len() ==> (#[trigger] found(layer)[i]).page == layer.page
}

/// Whether each text stands in its place, and what is found in it is orderly.
pub open spec fn orderly_pages(
    found: spec_fn(TextLayer) -> Seq<Hit>,
    pages: Seq<Option<TextLayer>>,
) -> bool {
    forall|i: int|
        0 <= i < pages.len() && (#[trigger] pages[i]) is Some ==> pages[i]->0.page.0 == i
            && orderly(found, pages[i]->0)
}

proof fn lemma_gathered(
    found: spec_fn(TextLayer) -> Seq<Hit>,
    pages: Seq<Option<TextLayer>>,
    n: int,
)
    requires
        orderly_pages(found, pages),
        0 <= n <= pages.len(),
    ensures
        in_reading_order(gathered(found, pages, n)),
        forall|i: int|
            0 <= i < gathered(found, pages, n).len() ==> (#[trigger] gathered(
                found,
                pages,
                n,
            )[i]).page.0 < n,
    decreases n,
{
    if n > 0 {
        lemma_gathered(found, pages, n - 1);
        if let Some(layer) = pages[n - 1] {
            let front = gathered(found, pages, n - 1);
            let fresh = found(layer);
            let out = gathered(found, pages, n);
            assert(orderly(found, pages[n - 1]->0));
            assert(out =~= front + fresh);
            assert forall|i: int, j: int| 0 <= i < j < out.len() implies !after(
                #[trigger] out[i],
                #[trigger] out[j],
            ) by {
                if j < front.len() {
                    assert(out[i] == front[i] && out[j] == front[j]);
                } else if i >= front.len() {
                    assert(out[i] == fresh[i - front.len()] && out[j] == fresh[j - front.len()]);
                } else {
                    assert(out[i] == front[i] && out[j] == fresh[j - front.len()]);
                }
            }
        }
    }
}

/// Hits that are in order already stay as they are.
proof fn lemma_sorted_stays(hits: Seq<Hit>)
    requires
        in_reading_order(hits),
    ensures
        in_order(hits) == hits,
    decreases hits.len(),
{
    if hits.len() > 0 {
        let front = hits.drop_last();
        assert forall|i: int, j: int| 0 <= i < j < front.len() implies !after(
            #[trigger] front[i],
            #[trigger] front[j],
        ) by {
            assert(!after(hits[i], hits[j]));
        }
        lemma_sorted_stays(front);
        if front.len() > 0 {
            assert(!after(hits[hits.len() - 2], hits[hits.len() - 1]));
        }
        assert(front.push(hits.last()) =~= hits);
    } else {
        assert(hits =~= Seq::<Hit>::empty());
    }
}

pub(crate) proof fn lemma_filter_split(a: Seq<Hit>, b: Seq<Hit>, keep: spec_fn(Hit) -> bool)
    ensures
        (a + b).filter(keep) == a.filter(keep) + b.filter(keep),
    decreases b.len(),
{
    reveal(Seq::filter);
    if b.len() == 0 {
        assert(a + b =~= a);
        assert(a.filter(keep) + b.filter(keep) =~= a.filter(keep));
    } else {
        assert((a + b).drop_last() =~= a + b.drop_last());
        lemma_filter_split(a, b.drop_last(), keep);
        assert((a + b).filter(keep) =~= a.filter(keep) + b.filter(keep));
    }
}

proof fn lemma_filter_all(a: Seq<Hit>, keep: spec_fn(Hit) -> bool)
    ensures
        (forall|i: int| 0 <= i < a.len() ==> keep(#[trigger] a[i])) ==> a.filter(keep) == a,
        (forall|i: int| 0 <= i < a.len() ==> !keep(#[trigger] a[i])) ==> a.filter(keep)
            == Seq::<Hit>::empty(),
    decreases a.len(),
{
    reveal(Seq::filter);
    if a.len() > 0 {
        let front = a.drop_last();
        lemma_filter_all(front, keep);
        assert(front.push(a.last()) =~= a);
        if forall|i: int| 0 <= i < a.len() ==> keep(#[trigger] a[i]) {
            assert forall|i: int| 0 <= i < front.len() implies keep(#[trigger] front[i]) by {
                assert(keep(a[i]));
            }
            assert(keep(a[a.len() - 1]));
        }
        if forall|i: int| 0 <= i < a.len() ==> !keep(#[trigger] a[i]) {
            assert forall|i: int| 0 <= i < front.len() implies !keep(#[trigger] front[i]) by {
                assert(!keep(a[i]));
            }
            assert(!keep(a[a.len() - 1]));
        }
    } else {
        assert(a =~= Seq::<Hit>::empty());
        assert(a.filter(keep) =~= Seq::<Hit>::empty());
    }
}

proof fn lemma_same_prefix(
    found: spec_fn(TextLayer) -> Seq<Hit>,
    a: Seq<Option<TextLayer>>,
    b: Seq<Option<TextLayer>>,
    n: int,
)
    requires
        forall|i: int| 0 <= i < n ==> a[i] == b[i],
    ensures
        gathered(found, a, n) == gathered(found, b, n),
    decreases n,
{
    if n > 0 {
        lemma_same_prefix(found, a, b, n - 1);
    }
}

proof fn lemma_page_replaced(
    found: spec_fn(TextLayer) -> Seq<Hit>,
    pages: Seq<Option<TextLayer>>,
    layer: TextLayer,
    n: int,
)
    requires
        orderly_pages(found, pages),
        orderly(found, layer),
        layer.page.0 < n <= pages.len(),
    ensures
        with_page_hits(gathered(found, pages, n), layer.page, found(layer)) == gathered(
            found,
            pages.update(layer.page.0 as int, Some(layer)),
            n,
        ),
    decreases n,
{
    let p = layer.page.0 as int;
    let fresh = found(layer);
    let lower = |hit: Hit| hit.page.0 < layer.page.0;
    let higher = |hit: Hit| hit.page.0 > layer.page.0;
    let updated = pages.update(p, Some(layer));
    let front = gathered(found, pages, n - 1);
    let whole = gathered(found, pages, n);
    lemma_sorted_stays(fresh);
    lemma_gathered(found, pages, n - 1);
    let last = match pages[n - 1] {
        Some(l) => found(l),
        None => Seq::empty(),
    };
    if pages[n - 1] is Some {
        assert(orderly(found, pages[n - 1]->0));
    }
    assert(whole =~= front + last);
    lemma_filter_split(front, last, lower);
    lemma_filter_split(front, last, higher);
    lemma_filter_all(last, lower);
    lemma_filter_all(last, higher);
    if n - 1 == p {
        lemma_filter_all(front, lower);
        lemma_filter_all(front, higher);
        lemma_same_prefix(found, pages, updated, n - 1);
        assert(with_page_hits(whole, layer.page, fresh) =~= front + fresh);
    } else {
        lemma_page_replaced(found, pages, layer, n - 1);
        assert(with_page_hits(whole, layer.page, fresh) =~= with_page_hits(
            front,
            layer.page,
            fresh,
        ) + last);
        assert(gathered(found, updated, n) =~= gathered(found, updated, n - 1) + last);
    }
}

/// What is found on one more page goes among what was found on the others as
/// if all the pages had been there.
pub(crate) proof fn lemma_late_page(
    found: spec_fn(TextLayer) -> Seq<Hit>,
    pages: Seq<Option<TextLayer>>,
    layer: TextLayer,
)
    requires
        orderly_pages(found, pages),
        orderly(found, layer),
        layer.page.0 < pages.len(),
    ensures
        with_page_hits(
            in_order(gathered(found, pages, pages.len() as int)),
            layer.page,
            found(layer),
        ) == in_order(
            gathered(
                found,
                pages.update(layer.page.0 as int, Some(layer)),
                pages.len() as int,
            ),
        ),
{
    let n = pages.len() as int;
    let updated = pages.update(layer.page.0 as int, Some(layer));
    assert(orderly_pages(found, updated));
    lemma_gathered(found, pages, n);
    lemma_sorted_stays(gathered(found, pages, n));
    lemma_gathered(found, updated, n);
    lemma_sorted_stays(gathered(found, updated, n));
    lemma_page_replaced(found, pages, layer, n);
}

} // verus!
