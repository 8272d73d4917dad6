//! A document as it is read: its first page, its table of contents, its size
//! in pixels.

use vstd::prelude::*;

use crate::cache::quarter;
use crate::engine::{
    all_in_document, clusters_kept, clusters_text, gone, invalid, made_of, out_of_range, target_of,
    too_large, Bookmark, RegistryView, Side,
};
use crate::annot::AnnotationView;
use crate::marking::on_page;
use crate::page::{Coord, MediaBox, OutlineItem, PageNo, Point, Quad, TextLayer, ONE};
use crate::ready::ReadyView;
use crate::search::nfc_of;
use crate::state::{CatalogView, OpenSource, PdfAnalysis, ViewMode, Zoom};

verus! {

/// A document that was just read shows its first page, as wide as the window,
/// unturned and without marks, hits, selection, panels or dialogs.
pub proof fn law_documents_begin_on_their_first_page(
    source: OpenSource,
    engine: u64,
    pages: CatalogView,
    signatures: PdfAnalysis,
)
    ensures
        ({
            let v = ReadyView::opened(source, engine, pages, signatures);
            &&& v.source == source
            &&& v.engine == engine
            &&& v.pages == pages
            &&& v.signatures == signatures
            &&& v.visible.0 == 0
            &&& v.zoom == Zoom::Width
            &&& v.view_mode == ViewMode::Single
            &&& v.view_rotation == 0
            &&& v.history.pages == seq![PageNo(0)]
            &&& v.history.pos == 0
            &&& pages.total > 0 ==> v.page_input == crate::numbers::shown(1)
            &&& v.marks.annotations.len() == 0
            &&& v.marks.undo.len() == 0
            &&& v.marks.redo.len() == 0
            &&& v.search.query.len() == 0
            &&& v.search.hits.len() == 0
            &&& v.selection is None
            &&& v.note_draft is None
            &&& v.print_dialog is None
            &&& !v.pages_open && !v.signatures_open && !v.outline_open && !v.overflow_open
            &&& v.outline is None
            &&& !v.outline_load_issued
        }),
{
}

/// Of a document that was just read the first page is known, and no other.
pub proof fn law_first_page_is_read_at_first(
    total: u32,
    media: MediaBox,
    text: TextLayer,
    i: int,
)
    requires
        0 <= i < total,
    ensures
        ({
            let pages = CatalogView::opened(total, Some((media, text)));
            &&& pages.total == total
            &&& pages.media.len() == total
            &&& pages.text.len() == total
            &&& pages.media[0] == Some(media)
            &&& pages.text[0] == Some(text)
            &&& i > 0 ==> pages.media[i] is None && pages.text[i] is None
        }),
{
}

/// A page on its side is as wide as it is high, and as high as it is wide.
pub proof fn law_turned_pages_lie_on_their_side(v: ReadyView, page: PageNo, media: MediaBox)
    requires
        v.wf(),
        page.0 < v.pages.total,
        v.pages.media[page.0 as int] == Some(media),
    ensures
        v.view_rotation == 0 || v.view_rotation == 2 ==> v.rotated_media(page) == media,
        v.view_rotation == 1 || v.view_rotation == 3 ==> v.rotated_media(page).width == media.height
            && v.rotated_media(page).height == media.width,
{
    let r = v.view_rotation;
    assert(r & 1 == r % 2) by (bit_vector)
        requires
            r < 4,
    ;
}

/// An entry of the table of contents leads to the page that the document names,
/// if it has it, and else to the first.
pub proof fn law_entries_name_pages_of_the_document(
    item: OutlineItem,
    bookmark: Bookmark,
    total: u32,
    i: int,
)
    requires
        made_of(item, bookmark, total),
    ensures
        match bookmark.page {
            Some(page) => if page < total {
                item.page.0 == page
            } else {
                item.page.0 == 0
            },
            None => item.page.0 == 0,
        },
        match bookmark.title {
            Some(title) => item.title@ == title@,
            None => item.title@.len() == 0,
        },
        item.children@.len() == bookmark.children@.len(),
        0 <= i < bookmark.children@.len() ==> made_of(
            item.children@[i],
            bookmark.children[i],
            total,
        ),
{
}

/// A page is rendered in the pixels that its sides come to, one at least; where
/// a length is no number above zero, a side is longer than allowed or the two
/// are too many pixels, it is not.
pub proof fn law_pages_are_rendered_in_their_size(width: Side, height: Side, factor: Coord)
    ensures
        ({
            let sound = width.length.finite() && width.length.0 > 0 && height.length.finite()
                && height.length.0 > 0 && factor.finite() && factor.0 > 0 && width.scaled.finite()
                && height.scaled.finite() && width.effective.finite() && width.effective.0 > 0
                && height.effective.finite() && height.effective.0 > 0 && width.rounded >= 0
                && height.rounded >= 0;
            let w = if width.rounded < 1 { 1 } else { width.rounded as int };
            let h = if height.rounded < 1 { 1 } else { height.rounded as int };
            let small = w <= 16_384 && h <= 16_384 && w * h <= 64_000_000;
            &&& target_of(width, height, factor) is Ok <==> sound && small
            &&& sound && small ==> target_of(width, height, factor)->Ok_0.width == w && target_of(
                width,
                height,
                factor,
            )->Ok_0.height == h
        }),
{
}

/// Documents are served under numbers of their own: a new one under one that
/// was never given out, until it is closed; the others stay.
pub proof fn law_open_documents_are_served(r: RegistryView, doc_id: u64, other: u64)
    requires
        r.wf(),
        r.next_id < u64::MAX,
    ensures
        r.opened().open.contains(r.next_id),
        !r.open.contains(r.next_id),
        other != r.next_id ==> r.opened().open.contains(other) == r.open.contains(other),
        r.opened().next_id == r.next_id + 1,
        !r.closed(doc_id).open.contains(doc_id),
        other != doc_id ==> r.closed(doc_id).open.contains(other) == r.open.contains(other),
        r.closed(doc_id).next_id == r.next_id,
{
}

/// Marks can be written if every one of them is on a page of the document.
pub proof fn law_marks_must_lie_in_the_document(list: Seq<AnnotationView>, page_count: u32)
    ensures
        all_in_document(list, page_count) <==> forall|i: int|
            0 <= i < list.len() ==> (#[trigger] list[i]).page.0 < page_count,
{
}

/// A marker that lies on its page stays where it is; one beyond an edge is
/// brought to that edge.
pub proof fn law_markers_are_brought_to_the_edge(pt: Point, media: MediaBox)
    requires
        pt.x.number(),
        pt.y.number(),
        media.width.finite(),
        media.height.finite(),
        media.width.0 >= ONE,
        media.height.0 >= ONE,
    ensures
        on_page(pt, media).x.0 == if pt.x.0 < 0 {
            0
        } else if pt.x.0 > media.width.0 {
            media.width.0
        } else {
            pt.x.0
        },
        on_page(pt, media).y.0 == if pt.y.0 < 0 {
            0
        } else if pt.y.0 > media.height.0 {
            media.height.0
        } else {
            pt.y.0
        },
{
}

/// Quarter turns are counted up to three.
pub proof fn law_quarter_turns_are_counted_by_four(turns: u8)
    ensures
        quarter(turns) == turns % 4,
{
    assert(turns & 3 == turns % 4) by (bit_vector);
}

proof fn lemma_clusters_prefix(a: Seq<(String, Quad)>, b: Seq<(String, Quad)>, n: int)
    requires
        n <= a.len(),
        n <= b.len(),
        forall|i: int| 0 <= i < n ==> a[i] == b[i],
    ensures
        clusters_text(a, n) == clusters_text(b, n),
        clusters_kept(a, n) == clusters_kept(b, n),
    decreases n,
{
    if n > 0 {
        lemma_clusters_prefix(a, b, n - 1);
    }
}

proof fn lemma_clusters_joined(a: Seq<(String, Quad)>, b: Seq<(String, Quad)>, n: int)
    requires
        0 <= n <= b.len(),
    ensures
        clusters_text(a + b, a.len() + n) == clusters_text(a, a.len() as int) + clusters_text(b, n),
        clusters_kept(a + b, a.len() + n) == clusters_kept(a, a.len() as int) + clusters_kept(b, n),
    decreases n,
{
    let all = a + b;
    if n == 0 {
        lemma_clusters_prefix(all, a, a.len() as int);
        assert(clusters_text(all, a.len() as int) =~= clusters_text(a, a.len() as int)
            + clusters_text(b, 0));
        assert(clusters_kept(all, a.len() as int) =~= clusters_kept(a, a.len() as int)
            + clusters_kept(b, 0));
    } else {
        lemma_clusters_joined(a, b, n - 1);
        assert(all[a.len() + n - 1] == b[n - 1]);
        assert(clusters_text(all, a.len() + n) =~= clusters_text(a, a.len() as int)
            + clusters_text(b, n));
        assert(clusters_kept(all, a.len() + n) =~= clusters_kept(a, a.len() as int)
            + clusters_kept(b, n));
    }
}

/// The text of a page comes cluster by cluster: each adds its composed text,
/// and a glyph with that text where the cluster stands, unless it is empty;
/// what stands before and behind it stays as it is.
pub proof fn law_text_comes_cluster_by_cluster(
    a: Seq<(String, Quad)>,
    cluster: String,
    quad: Quad,
    b: Seq<(String, Quad)>,
)
    ensures
        ({
            let all = a + seq![(cluster, quad)] + b;
            let n = all.len() as int;
            let text = nfc_of(cluster@);
            &&& clusters_text(all, n) == clusters_text(a, a.len() as int) + text + clusters_text(
                b,
                b.len() as int,
            )
            &&& text.len() > 0 ==> clusters_kept(all, n) == clusters_kept(a, a.len() as int)
                + seq![(text, quad)] + clusters_kept(b, b.len() as int)
            &&& text.len() == 0 ==> clusters_kept(all, n) == clusters_kept(a, a.len() as int)
                + clusters_kept(b, b.len() as int)
        }),
        clusters_text(Seq::empty(), 0).len() == 0,
        clusters_kept(Seq::empty(), 0).len() == 0,
{
    let one = seq![(cluster, quad)];
    let text = nfc_of(cluster@);
    lemma_clusters_joined(a, one, 1);
    lemma_clusters_joined(a + one, b, b.len() as int);
    assert(clusters_text(one, 0) + text =~= text);
    assert(clusters_text(one, 1) == text);
    assert(clusters_kept(one, 0) =~= Seq::<(Seq<char>, Quad)>::empty());
    if text.len() > 0 {
        assert(clusters_kept(one, 1) =~= seq![(text, quad)]);
    } else {
        assert(clusters_kept(one, 1) =~= Seq::<(Seq<char>, Quad)>::empty());
        assert(clusters_kept(a, a.len() as int) + clusters_kept(one, 1) =~= clusters_kept(
            a,
            a.len() as int,
        ));
    }
}

/// What is said of a page that cannot be rendered, of a document that is not
/// open any more and of a mark that lies outside.
pub proof fn law_failures_are_named()
    ensures
        too_large() == "página grande demais para renderizar nesta escala"@,
        invalid() == "dimensão de render inválida"@,
        gone() == "documento fechado"@,
        out_of_range() == "página da marcação fora do intervalo"@,
{
}

} // verus!
