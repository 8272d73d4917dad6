//! Selecting text with the pointer, and copying it.

use vstd::prelude::*;

use crate::messages::Message;
use crate::page::{
    glyph_bytes, glyph_offset, glyphs_text, law_hit_is_first, law_nearest_is_first_least,
    lemma_boundary, lemma_glyph_offset_grows, Coord, PageNo, Point, TextLayer, TextRange,
};
use crate::ready::ReadyView;
use crate::state::{ActionView, Selection};
use crate::text::{byte_len, lemma_byte_len_concat, lemma_byte_len_prefix};

verus! {

/// Whether a page was read, and has this text layer.
pub open spec fn page_reads(v: ReadyView, page: PageNo, layer: TextLayer) -> bool {
    page.0 < v.pages.text.len() && v.pages.text[page.0 as int] == Some(layer)
}

pub(crate) proof fn lemma_slice(before: Seq<char>, t: Seq<char>, after: Seq<char>, range: TextRange)
    requires
        range.start == byte_len(before),
        range.end == byte_len(before) + byte_len(t),
    ensures
        crate::page::sliced(before + t + after, range) == t,
{
    let chars = before + t + after;
    let n = chars.len() as int;
    let a = before.len() as int;
    let b = a + t.len();
    assert(chars.take(a) =~= before);
    assert(chars.take(b) =~= before + t);
    lemma_byte_len_concat(before, t);
    if a > 0 {
        lemma_byte_len_prefix(chars, a - 1, a);
    }
    if b > 0 {
        lemma_byte_len_prefix(chars, b - 1, b);
    }
    lemma_boundary(chars, range.start as int, n, a);
    lemma_boundary(chars, range.end as int, n, b);
    assert(chars.subrange(a, b) =~= t);
    assert(t.len() == 0 ==> t =~= Seq::<char>::empty());
}

/// All of the selected text is copied, and nothing else: what stands in the
/// text of the page between the bytes of the selection.
pub proof fn law_all_of_the_selection_is_copied(
    v: ReadyView,
    sel: Selection,
    layer: TextLayer,
    before: Seq<char>,
    t: Seq<char>,
    after: Seq<char>,
)
    requires
        v.selection == Some(sel),
        page_reads(v, sel.page, layer),
        layer.plain@ == before + t + after,
        sel.range.start == byte_len(before),
        sel.range.end == byte_len(before) + byte_len(t),
    ensures
        t.len() > 0 ==> v.handled(Message::CopySelection).1 == seq![ActionView::Copy { text: t }],
        t.len() == 0 ==> v.handled(Message::CopySelection).1.len() == 0,
        v.handled(Message::CopySelection).0 == (ReadyView { overflow_open: false, ..v }),
{
    lemma_slice(before, t, after, sel.range);
}

/// Without a selection, or on a page that was not read, nothing is copied.
pub proof fn law_nothing_is_copied_of_nothing(v: ReadyView)
    requires
        match v.selection {
            Some(sel) => sel.page.0 < v.pages.text.len() && v.pages.text[sel.page.0 as int] is None,
            None => true,
        },
    ensures
        v.handled(Message::CopySelection).1.len() == 0,
{
}

/// Whether a glyph is the one at a point: it lies there, and none before it
/// does.
pub open spec fn glyph_there(layer: TextLayer, pt: Point, i: int) -> bool {
    &&& 0 <= i < layer.glyphs@.len()
    &&& layer.glyphs@[i].quad.covers(pt.x, pt.y)
    &&& forall|j: int|
        0 <= j < i ==> !(#[trigger] layer.glyphs@[j]).quad.covers(pt.x, pt.y)
}

/// Whether no glyph lies at a point.
pub open spec fn no_glyph_there(layer: TextLayer, pt: Point) -> bool {
    forall|j: int|
        0 <= j < layer.glyphs@.len() ==> !(#[trigger] layer.glyphs@[j]).quad.covers(pt.x, pt.y)
}

/// Whether a glyph is the one with the least distance, the first of those.
pub open spec fn nearest_glyph(layer: TextLayer, distances: Seq<Coord>, i: int) -> bool {
    &&& distances.len() == layer.glyphs@.len()
    &&& 0 <= i < distances.len()
    &&& forall|j: int| 0 <= j < distances.len() ==> (#[trigger] distances[j]).number()
    &&& forall|j: int| 0 <= j < distances.len() ==> distances[i].0 <= (#[trigger] distances[j]).0
    &&& forall|j: int| 0 <= j < i ==> distances[i].0 < (#[trigger] distances[j]).0
}

/// Whether a press is on no marker of a note.
pub open spec fn off_markers(v: ReadyView, page: PageNo, markers: Seq<u64>) -> bool {
    forall|i: int|
        0 <= i < v.marks.annotations.len() ==> !((#[trigger] v.marks.annotations[i]).kind
            == crate::annot::AnnotKind::Note && v.marks.annotations[i].page == page
            && markers.contains(v.marks.annotations[i].id))
}

pub(crate) proof fn lemma_no_marker(v: ReadyView, page: PageNo, markers: Seq<u64>, n: int)
    requires
        off_markers(v, page, markers),
        0 <= n <= v.marks.annotations.len(),
    ensures
        crate::marking::marker_upto(v.marks.annotations, page, markers, n) is None,
    decreases n,
{
    if n > 0 {
        lemma_no_marker(v, page, markers, n - 1);
    }
}

proof fn lemma_hit(layer: TextLayer, pt: Point, i: int)
    requires
        glyph_there(layer, pt, i),
    ensures
        crate::page::hit_upto(layer.glyphs@, pt, layer.glyphs@.len() as int) == Some(i),
{
    law_hit_is_first(layer.glyphs@, pt, layer.glyphs@.len() as int);
    let found = crate::page::hit_upto(layer.glyphs@, pt, layer.glyphs@.len() as int);
    if found is None {
        assert(!layer.glyphs@[i].quad.covers(pt.x, pt.y));
    }
    let k = found->0;
    if k < i {
        assert(!layer.glyphs@[k].quad.covers(pt.x, pt.y));
    } else if i < k {
        assert(!layer.glyphs@[i].quad.covers(pt.x, pt.y));
    }
}

proof fn lemma_nearest(layer: TextLayer, distances: Seq<Coord>, i: int)
    requires
        nearest_glyph(layer, distances, i),
    ensures
        crate::page::nearest(distances, layer.measured(distances)) == Some(i),
{
    let n = distances.len() as int;
    law_nearest_is_first_least(distances, n);
    let k = crate::page::nearest(distances, n)->0;
    if k < i {
        assert(distances[i].0 < distances[k].0);
    } else if i < k {
        assert(distances[k].0 < distances[i].0);
    }
}

proof fn lemma_offsets(layer: TextLayer, i: int)
    requires
        0 <= i < layer.glyphs@.len(),
        glyph_bytes(layer.glyphs@, layer.glyphs@.len() as int) <= usize::MAX,
    ensures
        glyph_offset(layer.glyphs@, i) == glyph_bytes(layer.glyphs@, i),
        glyph_offset(layer.glyphs@, i + 1) == glyph_bytes(layer.glyphs@, i + 1),
        glyph_bytes(layer.glyphs@, i) <= glyph_bytes(layer.glyphs@, i + 1),
{
    lemma_glyph_offset_grows(layer.glyphs@, i, i + 1);
    lemma_glyph_offset_grows(layer.glyphs@, i + 1, layer.glyphs@.len() as int);
}

/// A press on a glyph selects the bytes of that glyph; one beside the text
/// those of the nearest.
pub proof fn law_press_selects_the_glyph(
    v: ReadyView,
    page: PageNo,
    pt: Point,
    sheet: Point,
    distances: Vec<Coord>,
    markers: Vec<u64>,
    layer: TextLayer,
    i: int,
)
    requires
        page_reads(v, page, layer),
        off_markers(v, page, markers@),
        glyph_bytes(layer.glyphs@, layer.glyphs@.len() as int) <= usize::MAX,
        glyph_there(layer, pt, i) || (no_glyph_there(layer, pt) && nearest_glyph(
            layer,
            distances@,
            i,
        )),
    ensures
        ({
            let after = v.handled(
                Message::PointerDown { page, pt, sheet, distances, markers },
            ).0;
            &&& after.selection is Some
            &&& after.selection->0.page == page
            &&& after.selection->0.range.start == glyph_bytes(layer.glyphs@, i)
            &&& after.selection->0.range.end == glyph_bytes(layer.glyphs@, i + 1)
            &&& after.press_anchor is Some
            &&& after.press_anchor->0.sel == after.selection->0
            &&& after.press_anchor->0.exact <==> glyph_there(layer, pt, i)
            &&& after == (ReadyView {
                selection: after.selection,
                press_anchor: after.press_anchor,
                sheet_at: sheet,
                sheet_scroll: v.doc_scroll_y,
                ..v
            })
        }),
{
    lemma_no_marker(v, page, markers@, v.marks.annotations.len() as int);
    lemma_offsets(layer, i);
    if glyph_there(layer, pt, i) {
        lemma_hit(layer, pt, i);
    } else {
        law_hit_is_first(layer.glyphs@, pt, layer.glyphs@.len() as int);
        let found = crate::page::hit_upto(layer.glyphs@, pt, layer.glyphs@.len() as int);
        if found is Some {
            assert(!layer.glyphs@[found->0].quad.covers(pt.x, pt.y));
        }
        lemma_nearest(layer, distances@, i);
    }
}

/// A drag selects all from the glyph that was pressed to the one nearest to
/// the pointer, whichever comes first.
pub proof fn law_drag_selects_from_press_to_pointer(
    v: ReadyView,
    page: PageNo,
    pt: Point,
    distances: Vec<Coord>,
    layer: TextLayer,
    i: int,
    j: int,
)
    requires
        v.note_drag is None,
        page_reads(v, page, layer),
        glyph_bytes(layer.glyphs@, layer.glyphs@.len() as int) <= usize::MAX,
        0 <= i < layer.glyphs@.len(),
        nearest_glyph(layer, distances@, j),
        v.selection is Some,
        v.selection->0.page == page,
        v.press_anchor is Some,
        v.press_anchor->0.sel.page == page,
        v.press_anchor->0.sel.range.start == glyph_bytes(layer.glyphs@, i),
        v.press_anchor->0.sel.range.end == glyph_bytes(layer.glyphs@, i + 1),
    ensures
        ({
            let after = v.handled(Message::PointerMove { page, pt, distances }).0;
            let (first, last) = if i <= j { (i, j) } else { (j, i) };
            &&& after.selection is Some
            &&& after.selection->0.page == page
            &&& after.selection->0.range.start == glyph_bytes(layer.glyphs@, first)
            &&& after.selection->0.range.end == glyph_bytes(layer.glyphs@, last + 1)
            &&& after == (ReadyView { selection: after.selection, ..v })
        }),
{
    lemma_nearest(layer, distances@, j);
    lemma_offsets(layer, i);
    lemma_offsets(layer, j);
    if i <= j {
        lemma_glyph_offset_grows(layer.glyphs@, i, j);
        lemma_glyph_offset_grows(layer.glyphs@, i + 1, j + 1);
    } else {
        lemma_glyph_offset_grows(layer.glyphs@, j, i);
        lemma_glyph_offset_grows(layer.glyphs@, j + 1, i + 1);
    }
}

/// The text of glyphs `i` up to `j`.
pub open spec fn text_between(layer: TextLayer, i: int, j: int) -> Seq<char>
    decreases j - i,
{
    if j <= i {
        Seq::empty()
    } else {
        text_between(layer, i, j - 1) + layer.glyphs@[j - 1].cluster@
    }
}

proof fn lemma_text_between(layer: TextLayer, i: int, j: int)
    requires
        0 <= i <= j,
    ensures
        glyphs_text(layer.glyphs@, j) == glyphs_text(layer.glyphs@, i) + text_between(layer, i, j),
        byte_len(glyphs_text(layer.glyphs@, j)) == glyph_bytes(layer.glyphs@, j),
    decreases j,
{
    let glyphs = layer.glyphs@;
    if j > 0 {
        lemma_text_between(layer, if i < j { i } else { j - 1 }, j - 1);
        lemma_byte_len_concat(glyphs_text(glyphs, j - 1), glyphs[j - 1].cluster@);
    } else {
        assert(byte_len(glyphs_text(glyphs, 0)) == 0);
    }
    if i < j {
        assert(glyphs_text(glyphs, j) =~= glyphs_text(glyphs, i) + text_between(layer, i, j));
    } else {
        assert(glyphs_text(glyphs, j) =~= glyphs_text(glyphs, i) + text_between(layer, i, j));
    }
}

/// What was selected from one glyph to another is copied glyph by glyph.
pub proof fn law_selected_glyphs_are_copied(
    v: ReadyView,
    sel: Selection,
    layer: TextLayer,
    i: int,
    j: int,
)
    requires
        v.selection == Some(sel),
        page_reads(v, sel.page, layer),
        layer.plain@ == glyphs_text(layer.glyphs@, layer.glyphs@.len() as int),
        0 <= i < j <= layer.glyphs@.len(),
        sel.range.start == glyph_bytes(layer.glyphs@, i),
        sel.range.end == glyph_bytes(layer.glyphs@, j),
        text_between(layer, i, j).len() > 0,
    ensures
        v.handled(Message::CopySelection).1 == seq![
            ActionView::Copy { text: text_between(layer, i, j) },
        ],
{
    let n = layer.glyphs@.len() as int;
    let before = glyphs_text(layer.glyphs@, i);
    let t = text_between(layer, i, j);
    let after = text_between(layer, j, n);
    lemma_text_between(layer, i, i);
    lemma_text_between(layer, i, j);
    lemma_text_between(layer, j, n);
    lemma_byte_len_concat(before, t);
    assert(layer.plain@ =~= before + t + after);
    law_all_of_the_selection_is_copied(v, sel, layer, before, t, after);
}

/// The pointer that leaves the window ends the drag and keeps the selection.
pub proof fn law_lost_pointer_ends_the_drag(v: ReadyView)
    ensures
        v.handled(Message::DragCancelled).0 == (ReadyView {
            press_anchor: None,
            note_drag: None,
            ..v
        }),
        v.handled(Message::DragCancelled).1.len() == 0,
{
}

/// The escape key takes the selection away where no dialog is open, and closes
/// what lies over the document; a dialog that waits for an answer stays.
pub proof fn law_escape_closes_what_is_open(v: ReadyView)
    ensures
        ({
            let after = v.handled(Message::ClosePrintDialog).0;
            &&& after.note_draft is None
            &&& after.note_drag is None
            &&& !after.save_warning
            &&& !after.overflow_open
            &&& v.print_dialog is None ==> after.selection is None && after.press_anchor is None
                && after.print_dialog is None
            &&& v.print_dialog is Some ==> after.selection == v.selection
            &&& v.print_dialog is Some && v.print_dialog->0.busy ==> after.print_dialog
                == v.print_dialog
            &&& v.print_dialog is Some && !v.print_dialog->0.busy ==> after.print_dialog is None
            &&& after == (ReadyView {
                note_draft: None,
                note_drag: None,
                save_warning: false,
                overflow_open: false,
                selection: after.selection,
                press_anchor: after.press_anchor,
                print_dialog: after.print_dialog,
                ..v
            })
        }),
{
}

/// A press where there is no text selects nothing.
pub proof fn law_press_without_text_selects_nothing(
    v: ReadyView,
    page: PageNo,
    pt: Point,
    sheet: Point,
    distances: Vec<Coord>,
    markers: Vec<u64>,
)
    requires
        off_markers(v, page, markers@),
        page.0 < v.pages.text.len(),
        v.pages.text[page.0 as int] is None || v.pages.text[page.0 as int]->0.glyphs@.len() == 0,
    ensures
        ({
            let after = v.handled(
                Message::PointerDown { page, pt, sheet, distances, markers },
            ).0;
            after == (ReadyView {
                selection: None,
                press_anchor: None,
                sheet_at: sheet,
                sheet_scroll: v.doc_scroll_y,
                ..v
            })
        }),
{
    lemma_no_marker(v, page, markers@, v.marks.annotations.len() as int);
}

/// The pointer that moves over another page, or with nothing pressed, leaves
/// the selection as it is.
pub proof fn law_pointer_needs_a_press(
    v: ReadyView,
    page: PageNo,
    pt: Point,
    distances: Vec<Coord>,
)
    requires
        v.note_drag is None,
        v.selection is None || v.selection->0.page != page,
    ensures
        v.handled(Message::PointerMove { page, pt, distances }).0 == v,
{
}

} // verus!
