//! The search of an open document: a query and its hits, which grow as the
//! text of the pages comes.

use vstd::prelude::*;

use crate::late::{gathered, lemma_late_page, orderly};
use crate::page::TextLayer;
use crate::search::{
    extended, find_hits, in_order, in_place, in_reading_order, law_in_order_sorts,
    lemma_fresh_on_page, lemma_page_again, lemma_page_hits, lemma_with_page_hits_in_order,
    page_hits, replace_page_hits, sort_hits, Hit,
};
use crate::text::byte_len;

verus! {

/// The hits of a query on the first `n` pages, page by page, for the pages
/// whose text is there.
pub open spec fn hits_upto(query: Seq<char>, pages: Seq<Option<TextLayer>>, n: int) -> Seq<Hit>
    decreases n,
{
    if n <= 0 {
        Seq::empty()
    } else {
        match pages[n - 1] {
            Some(layer) => hits_upto(query, pages, n - 1) + page_hits(query, layer),
            None => hits_upto(query, pages, n - 1),
        }
    }
}

/// A query and its hits in a document.
#[derive(Debug)]
pub struct Search {
    pub query: String,
    pub hits: Vec<Hit>,
}

/// What a search holds.
pub struct SearchView {
    pub query: Seq<char>,
    pub hits: Seq<Hit>,
}

impl View for Search {
    type V = SearchView;

    open spec fn view(&self) -> SearchView {
        SearchView { query: self.query@, hits: self.hits@ }
    }
}

impl SearchView {
    pub open spec fn wf(self) -> bool {
        in_reading_order(self.hits)
    }

    /// The search for a query: an empty one finds nothing.
    pub open spec fn of(query: Seq<char>, pages: Seq<Option<TextLayer>>) -> SearchView {
        SearchView {
            query,
            hits: if query.len() == 0 {
                Seq::empty()
            } else {
                in_order(hits_upto(query, pages, pages.len() as int))
            },
        }
    }

    /// The search once the text of one more page came.
    pub open spec fn with_page(self, layer: TextLayer) -> SearchView {
        SearchView { hits: extended(self.query, self.hits, layer), ..self }
    }
}

impl Search {
    pub fn query(&self) -> (query: &str)
        ensures
            query@ == self@.query,
    {
        self.query.as_str()
    }

    pub fn hits(&self) -> (hits: &Vec<Hit>)
        ensures
            hits@ == self@.hits,
    {
        &self.hits
    }

    /// The hits of a query in a document.
    pub fn derive(query: &str, pages: &Vec<Option<TextLayer>>) -> (search: Search)
        ensures
            search@ == SearchView::of(query@, pages@),
            search@.wf(),
    {
        if query.is_empty() {
            return Search { query: query.to_owned(), hits: Vec::new() };
        }
        let mut hits: Vec<Hit> = Vec::new();
        let mut i: usize = 0;
        while i < pages.len()
            invariant
                i <= pages@.len(),
                hits@ == hits_upto(query@, pages@, i as int),
            decreases pages@.len() - i,
        {
            if let Some(layer) = &pages[i] {
                let mut more = find_hits(query, layer);
                hits.append(&mut more);
            }
            i += 1;
        }
        proof {
            law_in_order_sorts(hits@);
        }
        Search { query: query.to_owned(), hits: sort_hits(&hits) }
    }

    /// The text of one more page came: its hits go among the others.
    pub fn extend_page(&mut self, layer: &TextLayer)
        requires
            old(self)@.wf(),
        ensures
            final(self)@ == old(self)@.with_page(*layer),
            final(self)@.wf(),
    {
        if self.query.as_str().is_empty() {
            return;
        }
        let fresh = find_hits(self.query.as_str(), layer);
        let hits = replace_page_hits(&self.hits, layer.page, &fresh);
        proof {
            lemma_fresh_on_page(layer, self.query@);
            lemma_with_page_hits_in_order(self.hits@, layer.page, fresh@);
        }
        self.hits = hits;
    }
}

proof fn lemma_gathered_hits(query: Seq<char>, pages: Seq<Option<TextLayer>>, n: int)
    ensures
        hits_upto(query, pages, n) == gathered(|l: TextLayer| page_hits(query, l), pages, n),
    decreases n,
{
    if n > 0 {
        lemma_gathered_hits(query, pages, n - 1);
    }
}

/// A search that is told of each page as its text comes finds what a search
/// of all the pages finds.
pub proof fn law_pages_may_come_late(
    query: Seq<char>,
    pages: Seq<Option<TextLayer>>,
    layer: TextLayer,
)
    requires
        in_place(pages),
        layer.page.0 < pages.len(),
        byte_len(layer.plain@) <= usize::MAX,
    ensures
        SearchView::of(query, pages).with_page(layer) == SearchView::of(
            query,
            pages.update(layer.page.0 as int, Some(layer)),
        ),
{
    if query.len() > 0 {
        let n = pages.len() as int;
        let found = |l: TextLayer| page_hits(query, l);
        assert forall|i: int| 0 <= i < n && (#[trigger] pages[i]) is Some implies orderly(
            found,
            pages[i]->0,
        ) by {
            lemma_page_hits(query, pages[i]->0);
        }
        lemma_page_hits(query, layer);
        lemma_late_page(found, pages, layer);
        lemma_gathered_hits(query, pages, n);
        lemma_gathered_hits(query, pages.update(layer.page.0 as int, Some(layer)), n);
    }
}

/// A page that comes a second time changes nothing.
pub proof fn law_page_twice_changes_nothing(search: SearchView, layer: TextLayer)
    ensures
        search.with_page(layer).with_page(layer) == search.with_page(layer),
{
    lemma_page_again(search.query, search.hits, layer);
}

} // verus!
