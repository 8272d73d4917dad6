//! Searching: what is found, where, how often, and where it takes the reader.

use vstd::prelude::*;

use crate::find::{hits_upto, SearchView};
use crate::laws::moving::{only_moved, stores_place};
use crate::messages::Message;
use crate::numbers::shown;
use crate::page::TextLayer;
use crate::ready::ReadyView;
use crate::search::{
    hit_at, in_order, in_place, law_every_match_is_found, law_every_range_matches,
    law_in_order_sorts, law_search_form_is_composed, lemma_lowered_concat, letters, lowercase_of,
    lowered, match_ranges, matches_at, nfc_of, page_hits, plain_map, ranges_upto, search_form, Hit,
    LowerChar, Search,
};
use crate::text::byte_len;

verus! {

/// A text is put in lower case letter by letter.
pub proof fn law_lower_case_goes_letter_by_letter(a: Seq<char>, ch: char, b: Seq<char>)
    ensures
        lowered(Seq::<char>::empty()) == Seq::<char>::empty(),
        lowered(seq![ch]) == lowercase_of(ch),
        lowered(a + b) == lowered(a) + lowered(b),
{
    lemma_lowered_concat(a, b);
    assert(seq![ch].drop_last() =~= Seq::<char>::empty());
    assert(lowered(seq![ch].drop_last()) =~= Seq::<char>::empty());
    assert(lowered(seq![ch]) =~= lowercase_of(ch));
}

/// Whether a text stands in another from `i` on.
pub open spec fn occurs(text: Seq<char>, needle: Seq<char>, i: int) -> bool {
    0 <= i && i + needle.len() <= text.len() && text.subrange(i, i + needle.len()) == needle
}

/// How often a text stands in another, among the first `n` places.
pub open spec fn times(text: Seq<char>, needle: Seq<char>, n: int) -> nat
    decreases n,
{
    if n <= 0 {
        0
    } else if occurs(text, needle, n - 1) {
        times(text, needle, n - 1) + 1
    } else {
        times(text, needle, n - 1)
    }
}

proof fn lemma_matches_occur(mapped: Seq<LowerChar>, needle: Seq<char>, i: int)
    ensures
        matches_at(mapped, needle, i) <==> occurs(letters(mapped), needle, i),
{
    let text = letters(mapped);
    if 0 <= i && i + needle.len() <= mapped.len() {
        if matches_at(mapped, needle, i) {
            assert forall|k: int| 0 <= k < needle.len() implies text.subrange(
                i,
                i + needle.len(),
            )[k] == needle[k] by {
                assert(mapped[i + k].lower == needle[k]);
            }
            assert(text.subrange(i, i + needle.len()) =~= needle);
        }
        if occurs(text, needle, i) {
            assert forall|k: int| 0 <= k < needle.len() implies (#[trigger] mapped[i + k]).lower
                == needle[k] by {
                assert(text.subrange(i, i + needle.len())[k] == needle[k]);
            }
        }
    }
}

proof fn lemma_ranges_counted(mapped: Seq<LowerChar>, needle: Seq<char>, n: int)
    ensures
        ranges_upto(mapped, needle, n).len() == times(letters(mapped), needle, n),
    decreases n,
{
    if n > 0 {
        lemma_ranges_counted(mapped, needle, n - 1);
        lemma_matches_occur(mapped, needle, n - 1);
    }
}

/// On a page there are as many hits as the query stands in the text, the two
/// compared in composed form and in lower case.
pub proof fn law_every_occurrence_is_a_hit(query: Seq<char>, layer: TextLayer)
    requires
        layer.plain@.len() > 0,
        byte_len(layer.plain@) <= usize::MAX,
    ensures
        page_hits(query, layer).len() == if lowered(nfc_of(query)).len() == 0 {
            0
        } else {
            times(
                lowered(nfc_of(layer.plain@)),
                lowered(nfc_of(query)),
                lowered(nfc_of(layer.plain@)).len() as int,
            )
        },
{
    let composed = nfc_of(layer.plain@);
    let mapped = search_form(layer.plain@, composed);
    law_search_form_is_composed(layer.plain@, composed);
    lemma_ranges_counted(mapped, lowered(nfc_of(query)), mapped.len() as int);
}

/// Where the query stands in the text of a page there is a hit, with the bytes
/// of the letters that it begins and ends with.
pub proof fn law_occurrences_are_found(query: Seq<char>, layer: TextLayer, i: int)
    requires
        layer.plain@.len() > 0,
        byte_len(layer.plain@) <= usize::MAX,
        lowered(nfc_of(query)).len() > 0,
        occurs(lowered(nfc_of(layer.plain@)), lowered(nfc_of(query)), i),
    ensures
        exists|k: int| #[trigger]
            is_hit_at(page_hits(query, layer), k, layer, i, lowered(nfc_of(query)).len() as int),
{
    let composed = nfc_of(layer.plain@);
    let needle = lowered(nfc_of(query));
    let mapped = search_form(layer.plain@, composed);
    law_search_form_is_composed(layer.plain@, composed);
    lemma_matches_occur(mapped, needle, i);
    law_every_match_is_found(mapped, needle, i);
    let ranges = match_ranges(mapped, needle);
    let range = (mapped[i].byte_start, mapped[i + needle.len() - 1].byte_end);
    let k = choose|k: int| 0 <= k < ranges.len() && ranges[k] == range;
    assert(page_hits(query, layer)[k] == hit_at(layer, ranges[k]));
    assert(is_hit_at(page_hits(query, layer), k, layer, i, needle.len() as int));
}

/// Whether the `k`-th hit is the one on a page whose letters begin at `i`.
pub open spec fn is_hit_at(hits: Seq<Hit>, k: int, layer: TextLayer, i: int, len: int) -> bool {
    let mapped = search_form(layer.plain@, nfc_of(layer.plain@));
    &&& 0 <= k < hits.len()
    &&& 0 <= i < i + len <= mapped.len()
    &&& hits[k].page == layer.page
    &&& hits[k].range.start == mapped[i].byte_start
    &&& hits[k].range.end == mapped[i + len - 1].byte_end
}

/// Every hit on a page is a place at which the query stands.
pub proof fn law_hits_are_occurrences(query: Seq<char>, layer: TextLayer, k: int)
    requires
        layer.plain@.len() > 0,
        byte_len(layer.plain@) <= usize::MAX,
        0 <= k < page_hits(query, layer).len(),
    ensures
        exists|i: int| #[trigger]
            occurs(lowered(nfc_of(layer.plain@)), lowered(nfc_of(query)), i) && is_hit_at(
                page_hits(query, layer),
                k,
                layer,
                i,
                lowered(nfc_of(query)).len() as int,
            ),
{
    let composed = nfc_of(layer.plain@);
    let needle = lowered(nfc_of(query));
    let mapped = search_form(layer.plain@, composed);
    law_search_form_is_composed(layer.plain@, composed);
    let ranges = match_ranges(mapped, needle);
    assert(page_hits(query, layer)[k] == hit_at(layer, ranges[k]));
    law_every_range_matches(mapped, needle, k);
    let i = choose|i: int|
        #![trigger mapped[i]]
        matches_at(mapped, needle, i) && ranges[k] == (
            mapped[i].byte_start,
            mapped[i + needle.len() - 1].byte_end,
        );
    lemma_matches_occur(mapped, needle, i);
    assert(occurs(lowered(composed), needle, i));
}

proof fn lemma_plain_letters(plain: Seq<char>, n: int, i: int)
    requires
        0 <= i < n <= plain.len(),
        forall|j: int| 0 <= j < plain.len() ==> lowercase_of(#[trigger] plain[j]).len() == 1,
    ensures
        plain_map(plain, n).len() == n,
        plain_map(plain, n)[i].byte_start == byte_len(plain.take(i)) as usize,
        plain_map(plain, n)[i].byte_end == byte_len(plain.take(i + 1)) as usize,
    decreases n,
{
    assert(lowercase_of(plain[n - 1]).len() == 1);
    if i < n - 1 {
        lemma_plain_letters(plain, n - 1, i);
    } else if n > 1 {
        lemma_plain_letters(plain, n - 1, 0);
    } else {
        assert(plain_map(plain, 0).len() == 0);
    }
}

/// In a text that is composed and whose letters have one lower-case letter
/// each, a hit is exactly the bytes of the letters that match.
pub proof fn law_hits_have_the_bytes_of_their_letters(query: Seq<char>, layer: TextLayer, i: int)
    requires
        layer.plain@.len() > 0,
        byte_len(layer.plain@) <= usize::MAX,
        nfc_of(layer.plain@) == layer.plain@,
        forall|j: int|
            0 <= j < layer.plain@.len() ==> lowercase_of(#[trigger] layer.plain@[j]).len() == 1,
        lowered(nfc_of(query)).len() > 0,
        occurs(lowered(layer.plain@), lowered(nfc_of(query)), i),
    ensures
        exists|k: int|
            0 <= k < page_hits(query, layer).len() && (#[trigger] page_hits(
                query,
                layer,
            )[k]).range.start == byte_len(layer.plain@.take(i)) && page_hits(query, layer)[k].range.end
                == byte_len(layer.plain@.take(i + lowered(nfc_of(query)).len())),
{
    let plain = layer.plain@;
    let len = lowered(nfc_of(query)).len() as int;
    law_occurrences_are_found(query, layer, i);
    let k = choose|k: int| #[trigger] is_hit_at(page_hits(query, layer), k, layer, i, len);
    lemma_plain_letters(plain, plain.len() as int, 0);
    lemma_plain_letters(plain, plain.len() as int, i);
    lemma_plain_letters(plain, plain.len() as int, i + len - 1);
    crate::text::lemma_byte_len_prefix(plain, i, plain.len() as int);
    crate::text::lemma_byte_len_prefix(plain, i + len, plain.len() as int);
    assert(plain.take(plain.len() as int) =~= plain);
    assert(page_hits(query, layer)[k].range.start == byte_len(plain.take(i)));
}

/// Queries that differ only in case, or in how accents are stored, find the
/// same.
pub proof fn law_case_and_form_of_the_query_do_not_count(
    a: Seq<char>,
    b: Seq<char>,
    layer: TextLayer,
)
    requires
        lowered(nfc_of(a)) == lowered(nfc_of(b)),
    ensures
        page_hits(a, layer) == page_hits(b, layer),
{
}

/// Texts that differ only in case, or in how accents are stored, have as many
/// hits.
pub proof fn law_case_and_form_of_the_text_do_not_count(
    query: Seq<char>,
    a: TextLayer,
    b: TextLayer,
)
    requires
        a.plain@.len() > 0,
        b.plain@.len() > 0,
        byte_len(a.plain@) <= usize::MAX,
        byte_len(b.plain@) <= usize::MAX,
        lowered(nfc_of(a.plain@)) == lowered(nfc_of(b.plain@)),
    ensures
        page_hits(query, a).len() == page_hits(query, b).len(),
{
    law_every_occurrence_is_a_hit(query, a);
    law_every_occurrence_is_a_hit(query, b);
}

/// How many hits the first `n` pages have together.
pub open spec fn hits_together(query: Seq<char>, pages: Seq<Option<TextLayer>>, n: int) -> nat
    decreases n,
{
    if n <= 0 {
        0
    } else {
        hits_together(query, pages, n - 1) + match pages[n - 1] {
            Some(layer) => page_hits(query, layer).len(),
            None => 0,
        }
    }
}

proof fn lemma_gathered_hits(query: Seq<char>, pages: Seq<Option<TextLayer>>, n: int)
    requires
        0 <= n <= pages.len(),
    ensures
        hits_upto(query, pages, n).len() == hits_together(query, pages, n),
        forall|h: Hit|
            hits_upto(query, pages, n).contains(h) ==> exists|p: int|
                0 <= p < n && (#[trigger] pages[p]) is Some && page_hits(
                    query,
                    pages[p]->0,
                ).contains(h),
        forall|p: int, k: int|
            0 <= p < n && pages[p] is Some && 0 <= k < page_hits(query, pages[p]->0).len()
                ==> hits_upto(query, pages, n).contains(
                #[trigger] page_hits(query, pages[p]->0)[k],
            ),
    decreases n,
{
    if n > 0 {
        lemma_gathered_hits(query, pages, n - 1);
        let front = hits_upto(query, pages, n - 1);
        let all = hits_upto(query, pages, n);
        assert forall|h: Hit| all.contains(h) implies exists|p: int|
            0 <= p < n && (#[trigger] pages[p]) is Some && page_hits(query, pages[p]->0).contains(
                h,
            ) by {
            let k = choose|k: int| 0 <= k < all.len() && all[k] == h;
            if k < front.len() {
                assert(front[k] == h);
                assert(front.contains(h));
            } else {
                assert(pages[n - 1] is Some);
                assert(page_hits(query, pages[n - 1]->0)[k - front.len()] == h);
                assert(page_hits(query, pages[n - 1]->0).contains(h));
            }
        }
        assert forall|p: int, k: int|
            0 <= p < n && pages[p] is Some && 0 <= k < page_hits(query, pages[p]->0).len() implies all.contains(
            #[trigger] page_hits(query, pages[p]->0)[k],
        ) by {
            let h = page_hits(query, pages[p]->0)[k];
            if p < n - 1 {
                assert(front.contains(h));
                let j = choose|j: int| 0 <= j < front.len() && front[j] == h;
                assert(all[j] == h);
            } else {
                assert(all[front.len() + k] == h);
            }
        }
    }
}

proof fn lemma_sorted_contains(hits: Seq<Hit>, h: Hit)
    ensures
        hits.contains(h) <==> in_order(hits).contains(h),
        hits.len() == in_order(hits).len(),
{
    broadcast use vstd::seq_lib::group_to_multiset_ensures;

    law_in_order_sorts(hits);
    assert(hits.to_multiset().count(h) > 0 <==> hits.contains(h));
    assert(in_order(hits).to_multiset().count(h) > 0 <==> in_order(hits).contains(h));
    assert(hits.to_multiset().len() == hits.len());
    assert(in_order(hits).to_multiset().len() == in_order(hits).len());
}

/// A search finds the hits of every page that was read, each of them, and no
/// others; and as many as the pages have together.
pub proof fn law_search_finds_the_hits_of_all_pages(
    query: Seq<char>,
    pages: Seq<Option<TextLayer>>,
    p: int,
    k: int,
)
    requires
        query.len() > 0,
    ensures
        SearchView::of(query, pages).hits.len() == hits_together(query, pages, pages.len() as int),
        0 <= p < pages.len() && pages[p] is Some && 0 <= k < page_hits(query, pages[p]->0).len()
            ==> SearchView::of(query, pages).hits.contains(page_hits(query, pages[p]->0)[k]),
        0 <= k < SearchView::of(query, pages).hits.len() ==> exists|q: int|
            0 <= q < pages.len() && (#[trigger] pages[q]) is Some && page_hits(
                query,
                pages[q]->0,
            ).contains(SearchView::of(query, pages).hits[k]),
{
    let all = hits_upto(query, pages, pages.len() as int);
    lemma_gathered_hits(query, pages, pages.len() as int);
    if 0 <= p < pages.len() && pages[p] is Some && 0 <= k < page_hits(query, pages[p]->0).len() {
        lemma_sorted_contains(all, page_hits(query, pages[p]->0)[k]);
    }
    if 0 <= k < SearchView::of(query, pages).hits.len() {
        lemma_sorted_contains(all, in_order(all)[k]);
        assert(in_order(all).contains(in_order(all)[k]));
    }
    lemma_sorted_contains(all, arbitrary());
}

/// The hits come page by page, and on a page in the order of the text.
pub proof fn law_hits_come_in_reading_order(
    query: Seq<char>,
    pages: Seq<Option<TextLayer>>,
    i: int,
    j: int,
)
    requires
        0 <= i < j < SearchView::of(query, pages).hits.len(),
    ensures
        ({
            let a = SearchView::of(query, pages).hits[i];
            let b = SearchView::of(query, pages).hits[j];
            a.page.0 < b.page.0 || (a.page.0 == b.page.0 && a.range.start <= b.range.start)
        }),
{
    let all = hits_upto(query, pages, pages.len() as int);
    law_in_order_sorts(all);
    let hits = in_order(all);
    assert(!crate::search::after(hits[i], hits[j]));
}

proof fn lemma_hits_in_document(query: Seq<char>, pages: Seq<Option<TextLayer>>, k: int)
    requires
        in_place(pages),
        0 <= k < SearchView::of(query, pages).hits.len(),
    ensures
        SearchView::of(query, pages).hits[k].page.0 < pages.len(),
{
    law_search_finds_the_hits_of_all_pages(query, pages, 0, k);
    let h = SearchView::of(query, pages).hits[k];
    let q = choose|q: int|
        0 <= q < pages.len() && (#[trigger] pages[q]) is Some && page_hits(
            query,
            pages[q]->0,
        ).contains(h);
    let m = choose|m: int|
        0 <= m < page_hits(query, pages[q]->0).len() && page_hits(query, pages[q]->0)[m] == h;
    crate::search::lemma_page_hits(query, pages[q]->0);
}

/// A query takes the reader to a page that has a hit, and no page before it
/// has one; a query without hits leaves the reader where they are.
pub proof fn law_query_leads_to_the_first_hit(v: ReadyView, query: String, k: int)
    requires
        v.wf(),
        in_place(v.pages.text),
    ensures
        ({
            let after = v.handled(Message::SearchChanged { query });
            let hits = after.0.search.hits;
            &&& hits.len() > 0 ==> exists|j: int|
                0 <= j < hits.len() && (#[trigger] hits[j]).page == after.0.visible
            &&& 0 <= k < hits.len() ==> after.0.visible.0 <= hits[k].page.0
            &&& hits.len() == 0 ==> after.0.visible == v.visible
            &&& after.0.search.query == query@
            &&& after.0.search.hits == SearchView::of(query@, v.pages.text).hits
            &&& stores_place(v, after.0, after.1)
            &&& only_moved(ReadyView { search: after.0.search, ..v }, after.0)
            &&& hits.len() > 0 ==> after.0.page_input == shown((after.0.visible.0 + 1) as nat)
        }),
{
    let after = v.handled(Message::SearchChanged { query });
    let hits = SearchView::of(query@, v.pages.text).hits;
    if hits.len() > 0 {
        lemma_hits_in_document(query@, v.pages.text, 0);
        assert(hits[0].page == after.0.visible);
        if 0 < k < hits.len() {
            law_hits_come_in_reading_order(query@, v.pages.text, 0, k);
        }
    }
    if after.0.visible != v.visible {
        assert(after.1[0] is SavePosition);
    }
}

/// An empty query has no hits.
pub proof fn law_empty_query_finds_nothing(pages: Seq<Option<TextLayer>>)
    ensures
        SearchView::of(Seq::empty(), pages).hits.len() == 0,
{
}

/// A step goes on by so many hits, round the ends; where the reader stands on
/// no hit, a step on leads to the first and one back to the last.
pub proof fn law_steps_go_from_hit_to_hit(i: usize, len: int)
    requires
        0 <= i < len,
    ensures
        Search::stepped(Some(i), len, 1) == Some(
            if i + 1 < len {
                i + 1
            } else {
                0
            },
        ),
        Search::stepped(Some(i), len, -1) == Some(
            if i > 0 {
                i - 1
            } else {
                len - 1
            },
        ),
        Search::stepped(None, len, 1) == Some(0int),
        Search::stepped(None, len, -1) == Some(len - 1),
        Search::stepped(Some(i), len, 0) == Some(i as int),
        Search::stepped(None, 0, 1) is None,
{
    if i + 1 < len {
        vstd::arithmetic::div_mod::lemma_small_mod((i + 1) as nat, len as nat);
    } else {
        vstd::arithmetic::div_mod::lemma_mod_self_0(len);
    }
    if i > 0 {
        vstd::arithmetic::div_mod::lemma_small_mod((i - 1) as nat, len as nat);
    } else {
        vstd::arithmetic::div_mod::lemma_fundamental_div_mod_converse(-1, len, -1, len - 1);
    }
    vstd::arithmetic::div_mod::lemma_small_mod(i as nat, len as nat);
}

proof fn lemma_same_hits(query: Seq<char>, pages: Seq<Option<TextLayer>>, n: int)
    ensures
        crate::search::hits_upto(query, pages, n) == hits_upto(query, pages, n),
    decreases n,
{
    if n > 0 {
        lemma_same_hits(query, pages, n - 1);
    }
}

/// However a document is searched, the hits are the same.
pub proof fn law_both_searches_find_the_same(query: Seq<char>, pages: Seq<Option<TextLayer>>)
    ensures
        crate::search::all_hits(query, pages) == SearchView::of(query, pages).hits,
        SearchView::of(query, pages).query == query,
{
    lemma_same_hits(query, pages, pages.len() as int);
}

} // verus!
