//! Marking text, and the notes on it.

use vstd::prelude::*;

use crate::annot::{has_id, without_id, AnnotActionView, AnnotKind, AnnotationView};
use crate::laws::geometry::{
    box_of, finite_quad, law_lines_hold_no_more, law_lines_hold_their_glyphs, lies_within, overlaps,
};
use crate::laws::moving::lemma_trimmed_keeps;
use crate::laws::selecting::{lemma_slice, page_reads};
use crate::messages::Message;
use crate::numbers::{trimmed, trimmed_end, white};
use crate::page::{glyph_bytes, Coord, LineBox, PageNo, Point, TextLayer};
use crate::ready::ReadyView;
use crate::state::{ActionView, NoteDraftView, NoteDrag, Selection};
use crate::text::byte_len;

verus! {

/// Whether a selection holds text that can be marked: characters other than
/// white space, and a glyph.
pub open spec fn holds_text(
    v: ReadyView,
    sel: Selection,
    layer: TextLayer,
    before: Seq<char>,
    t: Seq<char>,
    after: Seq<char>,
    letter: int,
    glyph: int,
) -> bool {
    &&& v.selection == Some(sel)
    &&& page_reads(v, sel.page, layer)
    &&& layer.plain@ == before + t + after
    &&& sel.range.start == byte_len(before)
    &&& sel.range.end == byte_len(before) + byte_len(t)
    &&& 0 <= letter < t.len()
    &&& !white(t[letter])
    &&& 0 <= glyph < layer.glyphs@.len()
    &&& glyph_bytes(layer.glyphs@, layer.glyphs@.len() as int) <= usize::MAX
    &&& forall|j: int|
        0 <= j < layer.glyphs@.len() ==> finite_quad((#[trigger] layer.glyphs@[j]).quad)
    &&& overlaps(layer.glyphs@, sel.range.start as int, sel.range.end as int, glyph)
}

proof fn lemma_lines(
    v: ReadyView,
    sel: Selection,
    layer: TextLayer,
    before: Seq<char>,
    t: Seq<char>,
    after: Seq<char>,
    letter: int,
    glyph: int,
)
    requires
        holds_text(v, sel, layer, before, t, after, letter, glyph),
    ensures
        v.selected_lines() == Some(
            crate::page::line_quads(
                layer.glyphs@,
                sel.range.start as int,
                sel.range.end as int,
            ),
        ),
{
    lemma_slice(before, t, after, sel.range);
    lemma_trimmed_keeps(t, letter);
    law_lines_hold_their_glyphs(
        layer.glyphs@,
        sel.range.start as int,
        sel.range.end as int,
        glyph,
    );
}

/// What is selected is marked in the way that was asked for: one more mark, of
/// that kind, on the page and the bytes of the selection, whose rectangles
/// hold the glyphs of the selection and no more. The other marks stay, and
/// nothing is selected any more.
pub proof fn law_selection_is_marked(
    v: ReadyView,
    kind: AnnotKind,
    sel: Selection,
    layer: TextLayer,
    before: Seq<char>,
    t: Seq<char>,
    after: Seq<char>,
    letter: int,
    glyph: int,
    outer: LineBox,
)
    requires
        v.wf(),
        v.marks.next_id < u64::MAX,
        kind != AnnotKind::Note,
        holds_text(v, sel, layer, before, t, after, letter, glyph),
        forall|j: int|
            0 <= j < layer.glyphs@.len() && overlaps(
                layer.glyphs@,
                sel.range.start as int,
                sel.range.end as int,
                j,
            ) ==> lies_within((#[trigger] layer.glyphs@[j]).quad, outer),
    ensures
        ({
            let there = v.handled(Message::Annotate { kind });
            let marks = there.0.marks.annotations;
            let mark = marks.last();
            &&& marks.len() == v.marks.annotations.len() + 1
            &&& forall|i: int|
                0 <= i < v.marks.annotations.len() ==> #[trigger] marks[i]
                    == v.marks.annotations[i]
            &&& mark.kind == kind
            &&& mark.page == sel.page
            &&& mark.range == sel.range
            &&& mark.text.len() == 0
            &&& mark.marker is None
            &&& forall|i: int|
                0 <= i < v.marks.annotations.len() ==> (#[trigger] v.marks.annotations[i]).id
                    != mark.id
            &&& exists|k: int|
                0 <= k < mark.quads.len() && lies_within(
                    layer.glyphs@[glyph].quad,
                    box_of(#[trigger] mark.quads[k]),
                )
            &&& forall|k: int|
                0 <= k < mark.quads.len() ==> lies_within(#[trigger] mark.quads[k], outer)
            &&& there.0 == (ReadyView {
                marks: there.0.marks,
                selection: None,
                press_anchor: None,
                overflow_open: false,
                ..v
            })
            &&& there.1.len() == 0
        }),
{
    let there = v.handled(Message::Annotate { kind });
    lemma_lines(v, sel, layer, before, t, after, letter, glyph);
    let (start, end) = (sel.range.start as int, sel.range.end as int);
    let quads = crate::page::line_quads(layer.glyphs@, start, end);
    law_lines_hold_their_glyphs(layer.glyphs@, start, end, glyph);
    assert forall|k: int| 0 <= k < quads.len() implies lies_within(#[trigger] quads[k], outer) by {
        law_lines_hold_no_more(layer.glyphs@, start, end, outer, k);
    }
    let w = ReadyView { overflow_open: false, ..v };
    assert(w.selected_lines() == v.selected_lines());
    assert(!has_id(v.marks.annotations, v.marks.next_id));
    assert(there.0.marks.annotations =~= v.marks.annotations.push(there.0.marks.annotations.last()));
    let mark = there.0.marks.annotations.last();
    assert(mark.quads == quads);
    let k = choose|k: int|
        0 <= k < quads.len() && lies_within(layer.glyphs@[glyph].quad, box_of(#[trigger] quads[k]));
    assert(lies_within(layer.glyphs@[glyph].quad, box_of(mark.quads[k])));
    assert(there.0.marks == v.marks.annotated(sel.page, sel.range, quads, kind));
}

/// What is marked and undone is as it was before, mark by mark; what is then
/// redone is as it was marked.
pub proof fn law_marking_is_undone_and_redone(
    v: ReadyView,
    kind: AnnotKind,
    sel: Selection,
    layer: TextLayer,
    before: Seq<char>,
    t: Seq<char>,
    after: Seq<char>,
    letter: int,
    glyph: int,
)
    requires
        v.wf(),
        v.marks.next_id < u64::MAX,
        kind != AnnotKind::Note,
        holds_text(v, sel, layer, before, t, after, letter, glyph),
    ensures
        ({
            let marked = v.handled(Message::Annotate { kind }).0;
            let undone = marked.handled(Message::AnnotUndo).0;
            let redone = undone.handled(Message::AnnotRedo).0;
            &&& marked.marks.annotations.len() == v.marks.annotations.len() + 1
            &&& undone.marks.annotations == v.marks.annotations
            &&& redone.marks.annotations == marked.marks.annotations
        }),
{
    let marked = v.handled(Message::Annotate { kind }).0;
    lemma_lines(v, sel, layer, before, t, after, letter, glyph);
    let w = ReadyView { overflow_open: false, ..v };
    assert(w.selected_lines() == v.selected_lines());
    assert(!has_id(v.marks.annotations, v.marks.next_id));
    let list = v.marks.annotations;
    let mark = marked.marks.annotations.last();
    assert(marked.marks.annotations =~= list.push(mark));
    assert(marked.marks.undo.last() == AnnotActionView::Add(mark));
    lemma_remove_at(list.push(mark), list.len() as int);
    assert(list.push(mark).remove(list.len() as int) =~= list);
    let undone = marked.handled(Message::AnnotUndo).0;
    assert(undone.marks.annotations == list);
    assert(undone.marks.redo.last() == AnnotActionView::Add(mark));
}

pub(crate) proof fn lemma_remove_at(list: Seq<AnnotationView>, i: int)
    requires
        0 <= i < list.len(),
        forall|a: int, b: int|
            0 <= a < b < list.len() ==> (#[trigger] list[a]).id != (#[trigger] list[b]).id,
    ensures
        without_id(list, list[i].id) == list.remove(i),
    decreases list.len(),
{
    let front = list.drop_last();
    let id = list[i].id;
    if i == list.len() - 1 {
        lemma_none_removed(front, id);
        assert(list.remove(i) =~= front);
    } else {
        assert(list.last().id != id);
        lemma_remove_at(front, i);
        assert(list.remove(i) =~= front.remove(i).push(list.last()));
    }
}

proof fn lemma_none_removed(list: Seq<AnnotationView>, id: u64)
    requires
        forall|a: int| 0 <= a < list.len() ==> (#[trigger] list[a]).id != id,
    ensures
        without_id(list, id) == list,
    decreases list.len(),
{
    if list.len() > 0 {
        lemma_none_removed(list.drop_last(), id);
        assert(list.drop_last().push(list.last()) =~= list);
    } else {
        assert(without_id(list, id) =~= list);
    }
}

proof fn lemma_found(list: Seq<AnnotationView>, i: int, n: int)
    requires
        0 <= i < list.len(),
        n <= list.len(),
        forall|a: int, b: int|
            0 <= a < b < list.len() ==> (#[trigger] list[a]).id != (#[trigger] list[b]).id,
    ensures
        crate::annot::found(list, list[i].id, n) == if n > i {
            Some(list[i])
        } else {
            None
        },
    decreases n,
{
    if n > 0 {
        lemma_found(list, i, n - 1);
    }
}

/// Whether a point is on a mark that is no note: in one of its rectangles.
pub open spec fn on_mark(a: AnnotationView, page: PageNo, pt: Point, markers: Seq<u64>) -> bool {
    &&& a.page == page
    &&& a.kind == AnnotKind::Note ==> markers.contains(a.id)
    &&& a.kind != AnnotKind::Note ==> exists|k: int|
        0 <= k < a.quads.len() && (#[trigger] a.quads[k]).covers(pt.x, pt.y)
}

proof fn lemma_mark_at(
    list: Seq<AnnotationView>,
    page: PageNo,
    pt: Point,
    markers: Seq<u64>,
    i: int,
    n: int,
)
    requires
        0 <= i < list.len(),
        n <= list.len(),
        on_mark(list[i], page, pt, markers),
        forall|j: int| 0 <= j < i ==> !on_mark(#[trigger] list[j], page, pt, markers),
    ensures
        crate::marking::mark_upto(list, page, pt, markers, n) == if n > i {
            Some(list[i].id)
        } else {
            None::<u64>
        },
    decreases n,
{
    if n > 0 {
        lemma_mark_at(list, page, pt, markers, i, n - 1);
        if n - 1 < i {
            assert(!on_mark(list[n - 1], page, pt, markers));
        }
    }
}

proof fn lemma_no_mark_at(
    list: Seq<AnnotationView>,
    page: PageNo,
    pt: Point,
    markers: Seq<u64>,
    n: int,
)
    requires
        0 <= n <= list.len(),
        forall|j: int| 0 <= j < list.len() ==> !on_mark(#[trigger] list[j], page, pt, markers),
    ensures
        crate::marking::mark_upto(list, page, pt, markers, n) is None,
    decreases n,
{
    if n > 0 {
        lemma_no_mark_at(list, page, pt, markers, n - 1);
        assert(!on_mark(list[n - 1], page, pt, markers));
    }
}

/// A click on a mark that is no note takes that mark away and no other; a
/// click on a note opens it, and takes none away. The first mark at the point
/// counts.
pub proof fn law_click_on_a_mark(
    v: ReadyView,
    page: PageNo,
    pt: Point,
    markers: Vec<u64>,
    far: bool,
    drop_at: Point,
    i: int,
)
    requires
        v.wf(),
        v.note_drag is None,
        v.press_anchor is Some,
        v.selection == Some(v.press_anchor->0.sel),
        0 <= i < v.marks.annotations.len(),
        on_mark(v.marks.annotations[i], page, pt, markers@),
        forall|j: int|
            0 <= j < i ==> !on_mark(#[trigger] v.marks.annotations[j], page, pt, markers@),
    ensures
        ({
            let after = v.handled(Message::PointerUp { page, pt, markers, far, drop_at });
            let mark = v.marks.annotations[i];
            &&& mark.kind != AnnotKind::Note ==> after.0.marks.annotations
                == v.marks.annotations.remove(i) && after.0.note_draft == v.note_draft
                && after.1.len() == 0 && after.0 == (ReadyView {
                press_anchor: None,
                marks: after.0.marks,
                ..v
            })
            &&& mark.kind == AnnotKind::Note ==> after.0.marks == v.marks
            &&& mark.kind == AnnotKind::Note && v.note_draft is None ==> {
                &&& after.0.note_draft is Some
                &&& after.0.note_draft->0.editing == Some(mark.id)
                &&& after.0.note_draft->0.content == mark.text
                &&& after.0.note_draft->0.page == mark.page
                &&& after.0.note_draft->0.range == mark.range
                &&& after.0.note_draft->0.quads == mark.quads
                &&& after.1 == seq![ActionView::FocusPostit]
            }
        }),
{
    let list = v.marks.annotations;
    lemma_mark_at(list, page, pt, markers@, i, list.len() as int);
    lemma_found(list, i, list.len() as int);
    lemma_remove_at(list, i);
}

/// A click where no mark is changes no mark.
pub proof fn law_click_beside_the_marks(
    v: ReadyView,
    page: PageNo,
    pt: Point,
    markers: Vec<u64>,
    far: bool,
    drop_at: Point,
)
    requires
        v.note_drag is None,
        forall|j: int|
            0 <= j < v.marks.annotations.len() ==> !on_mark(
                #[trigger] v.marks.annotations[j],
                page,
                pt,
                markers@,
            ),
    ensures
        ({
            let after = v.handled(Message::PointerUp { page, pt, markers, far, drop_at });
            &&& after.0.marks == v.marks
            &&& after.0.note_draft == v.note_draft
            &&& after.0.press_anchor is None
            &&& after.1.len() == 0
            &&& after.0.selection == v.selection || after.0.selection is None
            &&& v.press_anchor is Some && v.press_anchor->0.exact ==> after.0.selection
                == v.selection
            &&& v.press_anchor is Some && !v.press_anchor->0.exact && v.selection == Some(
                v.press_anchor->0.sel,
            ) ==> after.0.selection is None
        }),
{
    lemma_no_mark_at(v.marks.annotations, page, pt, markers@, v.marks.annotations.len() as int);
}

/// A selection that was dragged stays when the pointer is released, and takes
/// no mark away.
pub proof fn law_released_drag_keeps_the_selection(
    v: ReadyView,
    page: PageNo,
    pt: Point,
    markers: Vec<u64>,
    far: bool,
    drop_at: Point,
)
    requires
        v.note_drag is None,
        v.press_anchor is Some,
        v.selection != Some(v.press_anchor->0.sel),
    ensures
        v.handled(Message::PointerUp { page, pt, markers, far, drop_at }).0 == (ReadyView {
            press_anchor: None,
            ..v
        }),
{
}

/// Undoing and redoing take back one step each; without steps they change
/// nothing.
pub proof fn law_undo_takes_one_step(v: ReadyView)
    ensures
        ({
            let undone = v.handled(Message::AnnotUndo).0;
            let redone = v.handled(Message::AnnotRedo).0;
            &&& v.marks.undo.len() == 0 ==> undone.marks == v.marks
            &&& v.marks.redo.len() == 0 ==> redone.marks == v.marks
            &&& v.marks.undo.len() > 0 ==> undone.marks.undo.len() + 1 == v.marks.undo.len()
                && undone.marks.redo.len() == v.marks.redo.len() + 1
            &&& v.marks.redo.len() > 0 ==> redone.marks.redo.len() + 1 == v.marks.redo.len()
                && redone.marks.undo.len() == v.marks.undo.len() + 1
            &&& undone == (ReadyView { overflow_open: false, marks: undone.marks, ..v })
            &&& redone == (ReadyView { overflow_open: false, marks: redone.marks, ..v })
        }),
{
}

/// A mark that a click took away is there again once that was undone, with all
/// that it held.
pub proof fn law_undo_brings_a_mark_back(
    v: ReadyView,
    page: PageNo,
    pt: Point,
    markers: Vec<u64>,
    far: bool,
    drop_at: Point,
    i: int,
)
    requires
        v.wf(),
        v.note_drag is None,
        v.press_anchor is Some,
        v.selection == Some(v.press_anchor->0.sel),
        0 <= i < v.marks.annotations.len(),
        v.marks.annotations[i].kind != AnnotKind::Note,
        on_mark(v.marks.annotations[i], page, pt, markers@),
        forall|j: int|
            0 <= j < i ==> !on_mark(#[trigger] v.marks.annotations[j], page, pt, markers@),
    ensures
        ({
            let gone = v.handled(Message::PointerUp { page, pt, markers, far, drop_at }).0;
            let back = gone.handled(Message::AnnotUndo).0;
            back.marks.annotations == v.marks.annotations.remove(i).push(v.marks.annotations[i])
        }),
{
    let list = v.marks.annotations;
    law_click_on_a_mark(v, page, pt, markers, far, drop_at, i);
    lemma_mark_at(list, page, pt, markers@, i, list.len() as int);
    lemma_found(list, i, list.len() as int);
    let gone = v.handled(Message::PointerUp { page, pt, markers, far, drop_at }).0;
    assert(gone.marks.undo.last() == AnnotActionView::Remove(list[i]));
    let rest = list.remove(i);
    assert forall|k: int| 0 <= k < rest.len() implies (#[trigger] rest[k]).id != list[i].id by {
        if k < i {
            assert(rest[k] == list[k]);
        } else {
            assert(rest[k] == list[k + 1]);
        }
    }
    assert(!has_id(rest, list[i].id));
}

/// A note on the selection begins empty, or with what the note on exactly that
/// text says, and changes no mark until it is saved.
pub proof fn law_note_begins_on_the_selection(
    v: ReadyView,
    sel: Selection,
    layer: TextLayer,
    before: Seq<char>,
    t: Seq<char>,
    after: Seq<char>,
    letter: int,
    glyph: int,
    i: int,
)
    requires
        v.note_draft is None,
        holds_text(v, sel, layer, before, t, after, letter, glyph),
    ensures
        ({
            let there = v.handled(Message::Annotate { kind: AnnotKind::Note });
            let draft = there.0.note_draft;
            &&& draft is Some
            &&& draft->0.page == sel.page
            &&& draft->0.range == sel.range
            &&& draft->0.quads.len() > 0
            &&& there.1 == seq![ActionView::FocusPostit]
            &&& there.0 == (ReadyView { note_draft: draft, overflow_open: false, ..v })
            &&& (forall|k: int|
                0 <= k < v.marks.annotations.len() ==> !note_on(
                    #[trigger] v.marks.annotations[k],
                    sel,
                )) ==> draft->0.content.len() == 0 && draft->0.editing is None
            &&& 0 <= i < v.marks.annotations.len() && note_on(v.marks.annotations[i], sel) && (
            forall|k: int|
                0 <= k < i ==> !note_on(#[trigger] v.marks.annotations[k], sel))
                ==> draft->0.content == v.marks.annotations[i].text && draft->0.editing == Some(
                v.marks.annotations[i].id,
            )
        }),
{
    lemma_lines(v, sel, layer, before, t, after, letter, glyph);
    law_lines_hold_their_glyphs(
        layer.glyphs@,
        sel.range.start as int,
        sel.range.end as int,
        glyph,
    );
    let w = ReadyView { overflow_open: false, ..v };
    assert(w.selected_lines() == v.selected_lines());
    let list = v.marks.annotations;
    lemma_note_upto(list, sel, list.len() as int, i);
}

/// Whether a mark is a note on exactly what is selected.
pub open spec fn note_on(a: AnnotationView, sel: Selection) -> bool {
    a.kind == AnnotKind::Note && a.page == sel.page && a.range == sel.range
}

proof fn lemma_note_upto(list: Seq<AnnotationView>, sel: Selection, n: int, i: int)
    requires
        0 <= n <= list.len(),
    ensures
        (forall|k: int| 0 <= k < n ==> !note_on(#[trigger] list[k], sel))
            ==> crate::annot::note_upto(list, sel.page, sel.range, n) is None,
        0 <= i < n && note_on(list[i], sel) && (forall|k: int|
            0 <= k < i ==> !note_on(#[trigger] list[k], sel)) ==> crate::annot::note_upto(
            list,
            sel.page,
            sel.range,
            n,
        ) == Some(list[i]),
    decreases n,
{
    if n > 0 {
        lemma_note_upto(list, sel, n - 1, i);
        if 0 <= i < n && note_on(list[i], sel) && (forall|k: int|
            0 <= k < i ==> !note_on(#[trigger] list[k], sel)) {
            if i == n - 1 {
                assert(forall|k: int| 0 <= k < n - 1 ==> !note_on(#[trigger] list[k], sel));
            }
        }
    }
}

/// A note holds what is typed into it.
pub proof fn law_note_holds_what_is_typed(v: ReadyView, text: String)
    requires
        v.note_draft is Some,
    ensures
        v.handled(Message::NoteEdit { text }).0 == (ReadyView {
            note_draft: Some(NoteDraftView { content: text@, ..v.note_draft->0 }),
            ..v
        }),
        v.handled(Message::NoteEdit { text }).1.len() == 0,
{
}

/// A new note that says something becomes the last mark: a note on the text
/// that it was begun on, with what was typed, but for the white space at its
/// end. The other marks stay.
pub proof fn law_new_note_is_kept(v: ReadyView, body: Seq<char>, tail: Seq<char>)
    requires
        v.wf(),
        v.marks.next_id < u64::MAX,
        v.note_draft is Some,
        v.note_draft->0.editing is None,
        v.note_draft->0.content == body + tail,
        body.len() > 0,
        !white(body.last()),
        forall|i: int| 0 <= i < tail.len() ==> white(#[trigger] tail[i]),
    ensures
        ({
            let after = v.handled(Message::NoteSave).0;
            let draft = v.note_draft->0;
            let note = after.marks.annotations.last();
            &&& after.marks.annotations == v.marks.annotations.push(note)
            &&& note.kind == AnnotKind::Note
            &&& note.page == draft.page
            &&& note.range == draft.range
            &&& note.quads == draft.quads
            &&& note.text == body
            &&& note.marker is None
            &&& after == (ReadyView { note_draft: None, marks: after.marks, ..v })
        }),
{
    let draft = v.note_draft->0;
    lemma_says(draft.content, body, tail);
    assert(!has_id(v.marks.annotations, v.marks.next_id));
    let after = v.handled(Message::NoteSave).0;
    assert(after.marks.annotations =~= v.marks.annotations.push(after.marks.annotations.last()));
}

proof fn lemma_says(content: Seq<char>, body: Seq<char>, tail: Seq<char>)
    requires
        content == body + tail,
        body.len() > 0,
        !white(body.last()),
        forall|i: int| 0 <= i < tail.len() ==> white(#[trigger] tail[i]),
    ensures
        trimmed(content).len() > 0,
        trimmed_end(content) == body,
{
    assert(content[body.len() - 1] == body.last());
    lemma_trimmed_keeps(content, body.len() - 1);
    lemma_tail_cut(body, tail);
}

proof fn lemma_tail_cut(body: Seq<char>, tail: Seq<char>)
    requires
        body.len() > 0,
        !white(body.last()),
        forall|i: int| 0 <= i < tail.len() ==> white(#[trigger] tail[i]),
    ensures
        trimmed_end(body + tail) == body,
    decreases tail.len(),
{
    let all = body + tail;
    if tail.len() > 0 {
        assert(white(tail[tail.len() - 1]));
        assert(all.drop_last() =~= body + tail.drop_last());
        lemma_tail_cut(body, tail.drop_last());
    } else {
        assert(all =~= body);
    }
}

/// A note that was edited takes the place of the one that it was: the old one
/// is gone, the new one says what was typed and keeps the marker, and the
/// other marks stay.
pub proof fn law_edited_note_replaces_the_old_one(
    v: ReadyView,
    i: int,
    body: Seq<char>,
    tail: Seq<char>,
)
    requires
        v.wf(),
        v.marks.next_id < u64::MAX,
        v.note_draft is Some,
        0 <= i < v.marks.annotations.len(),
        v.note_draft->0.editing == Some(v.marks.annotations[i].id),
        v.note_draft->0.content == body + tail,
        body.len() > 0,
        !white(body.last()),
        forall|k: int| 0 <= k < tail.len() ==> white(#[trigger] tail[k]),
    ensures
        ({
            let after = v.handled(Message::NoteSave).0;
            let draft = v.note_draft->0;
            let note = after.marks.annotations.last();
            &&& after.marks.annotations == v.marks.annotations.remove(i).push(note)
            &&& note.kind == AnnotKind::Note
            &&& note.page == draft.page
            &&& note.range == draft.range
            &&& note.quads == draft.quads
            &&& note.text == body
            &&& note.marker == v.marks.annotations[i].marker
            &&& after == (ReadyView { note_draft: None, marks: after.marks, ..v })
        }),
{
    let list = v.marks.annotations;
    lemma_says(v.note_draft->0.content, body, tail);
    lemma_found(list, i, list.len() as int);
    lemma_remove_at(list, i);
    let rest = list.remove(i);
    assert forall|k: int| 0 <= k < rest.len() implies (#[trigger] rest[k]).id != v.marks.next_id by {
        if k < i {
            assert(rest[k] == list[k]);
        } else {
            assert(rest[k] == list[k + 1]);
        }
    }
    assert(!has_id(rest, v.marks.next_id));
    let after = v.handled(Message::NoteSave).0;
    assert(after.marks.annotations =~= rest.push(after.marks.annotations.last()));
}

/// A note that says nothing is not kept, and one that is given up changes
/// nothing.
pub proof fn law_empty_notes_are_not_kept(v: ReadyView)
    ensures
        v.handled(Message::NoteCancel).0 == (ReadyView { note_draft: None, ..v }),
        v.note_draft is Some && (forall|i: int|
            0 <= i < v.note_draft->0.content.len() ==> white(
                #[trigger] v.note_draft->0.content[i],
            )) ==> v.handled(Message::NoteSave).0 == (ReadyView { note_draft: None, ..v }),
{
    if v.note_draft is Some && forall|i: int|
        0 <= i < v.note_draft->0.content.len() ==> white(#[trigger] v.note_draft->0.content[i]) {
        lemma_all_white(v.note_draft->0.content);
    }
}

proof fn lemma_all_white(text: Seq<char>)
    requires
        forall|i: int| 0 <= i < text.len() ==> white(#[trigger] text[i]),
    ensures
        trimmed_end(text).len() == 0,
        trimmed(text).len() == 0,
    decreases text.len(),
{
    if text.len() > 0 {
        assert(white(text[text.len() - 1]));
        lemma_all_white(text.drop_last());
    }
}

/// A note that is deleted is gone, and the other marks stay.
pub proof fn law_deleted_note_is_gone(v: ReadyView, i: int)
    requires
        v.wf(),
        v.note_draft is Some,
        0 <= i < v.marks.annotations.len(),
        v.note_draft->0.editing == Some(v.marks.annotations[i].id),
    ensures
        v.handled(Message::NoteDelete).0.marks.annotations == v.marks.annotations.remove(i),
        v.handled(Message::NoteDelete).0.note_draft is None,
        v.handled(Message::NoteDelete).0 == (ReadyView {
            note_draft: None,
            marks: v.handled(Message::NoteDelete).0.marks,
            ..v
        }),
{
    let list = v.marks.annotations;
    lemma_found(list, i, list.len() as int);
    lemma_remove_at(list, i);
}

/// A press on the marker of a note takes hold of it, and selects nothing; the
/// marker follows the pointer on its page.
pub proof fn law_press_takes_hold_of_a_marker(
    v: ReadyView,
    page: PageNo,
    pt: Point,
    sheet: Point,
    distances: Vec<Coord>,
    markers: Vec<u64>,
    i: int,
    to: Point,
    more: Vec<Coord>,
)
    requires
        0 <= i < v.marks.annotations.len(),
        v.marks.annotations[i].kind == AnnotKind::Note,
        v.marks.annotations[i].page == page,
        markers@.contains(v.marks.annotations[i].id),
        forall|j: int|
            0 <= j < i ==> !((#[trigger] v.marks.annotations[j]).kind == AnnotKind::Note
                && v.marks.annotations[j].page == page && markers@.contains(
                v.marks.annotations[j].id,
            )),
    ensures
        ({
            let held = v.handled(
                Message::PointerDown { page, pt, sheet, distances, markers },
            ).0;
            let moved = held.handled(Message::PointerMove { page, pt: to, distances: more }).0;
            &&& held.selection is None
            &&& held.press_anchor is None
            &&& held.marks == v.marks
            &&& held.note_drag is Some
            &&& held.note_drag->0.id == v.marks.annotations[i].id
            &&& held.note_drag->0.page == page
            &&& held.note_drag->0.from == pt
            &&& held.note_drag->0.at == pt
            &&& moved.note_drag == Some(NoteDrag { at: to, ..held.note_drag->0 })
            &&& moved.selection is None
            &&& moved.marks == v.marks
        }),
{
    lemma_marker_found(v.marks.annotations, page, markers@, i, v.marks.annotations.len() as int);
}

proof fn lemma_marker_found(
    list: Seq<AnnotationView>,
    page: PageNo,
    markers: Seq<u64>,
    i: int,
    n: int,
)
    requires
        0 <= i < list.len(),
        n <= list.len(),
        list[i].kind == AnnotKind::Note,
        list[i].page == page,
        markers.contains(list[i].id),
        forall|j: int|
            0 <= j < i ==> !((#[trigger] list[j]).kind == AnnotKind::Note && list[j].page == page
                && markers.contains(list[j].id)),
    ensures
        crate::marking::marker_upto(list, page, markers, n) == if n > i {
            Some(i)
        } else {
            None::<int>
        },
    decreases n,
{
    if n > 0 {
        lemma_marker_found(list, page, markers, i, n - 1);
    }
}

/// A marker that was dragged far enough stands where it was dropped; the note
/// keeps its number, its text and the lines that it is on, and the other marks
/// stay. One that was hardly moved is a click, which opens the note.
pub proof fn law_dropped_marker_stands_where_it_was_dropped(
    v: ReadyView,
    page: PageNo,
    pt: Point,
    markers: Vec<u64>,
    drop_at: Point,
    i: int,
)
    requires
        v.wf(),
        v.press_anchor is None,
        v.note_drag is Some,
        0 <= i < v.marks.annotations.len(),
        v.note_drag->0.id == v.marks.annotations[i].id,
        v.marks.annotations[i].kind == AnnotKind::Note,
    ensures
        ({
            let note = v.marks.annotations[i];
            let moved = v.handled(
                Message::PointerUp { page, pt, markers, far: true, drop_at },
            ).0;
            let clicked = v.handled(
                Message::PointerUp { page, pt, markers, far: false, drop_at },
            ).0;
            &&& moved.note_drag is None
            &&& moved.note_draft == v.note_draft
            &&& !note.corner().equals(drop_at) ==> moved.marks.annotations
                == v.marks.annotations.remove(i).push(
                AnnotationView { marker: Some(drop_at), ..note },
            )
            &&& note.corner().equals(drop_at) ==> moved.marks == v.marks
            &&& clicked.note_drag is None
            &&& clicked.marks == v.marks
            &&& v.note_draft is None ==> clicked.note_draft is Some
                && clicked.note_draft->0.editing == Some(note.id)
                && clicked.note_draft->0.content == note.text
        }),
{
    let list = v.marks.annotations;
    let note = list[i];
    lemma_found(list, i, list.len() as int);
    lemma_remove_at(list, i);
    let rest = list.remove(i);
    assert forall|k: int| 0 <= k < rest.len() implies (#[trigger] rest[k]).id != note.id by {
        if k < i {
            assert(rest[k] == list[k]);
        } else {
            assert(rest[k] == list[k + 1]);
        }
    }
    assert(!has_id(rest, note.id));
}

/// The marker of a note stands where it was dropped last; before that, at the
/// left and the top of the first line that the note is on.
pub proof fn law_markers_begin_at_their_text(a: AnnotationView)
    requires
        a.quads.len() > 0,
    ensures
        a.marker is Some ==> a.corner() == a.marker->0,
        a.marker is None ==> a.corner().x == a.quads[0].bounds().0 && a.corner().y
            == a.quads[0].bounds().3,
{
}

/// Without a selection nothing is marked, and no note begins.
pub proof fn law_nothing_is_marked_without_a_selection(v: ReadyView, kind: AnnotKind)
    requires
        match v.selection {
            Some(sel) => sel.page.0 < v.pages.text.len() && v.pages.text[sel.page.0 as int] is None,
            None => true,
        },
    ensures
        v.handled(Message::Annotate { kind }).0 == (ReadyView { overflow_open: false, ..v }),
        v.handled(Message::Annotate { kind }).1.len() == 0,
{
}

/// While a note is open no other begins, so that what was typed stays.
pub proof fn law_open_note_stays(v: ReadyView)
    requires
        v.note_draft is Some,
    ensures
        v.handled(Message::Annotate { kind: AnnotKind::Note }).0 == (ReadyView {
            overflow_open: false,
            ..v
        }),
        v.handled(Message::Annotate { kind: AnnotKind::Note }).1.len() == 0,
{
}

/// A note opens beside its marker: at the corner of the sheet that was pressed,
/// scrolled as the document is.
pub proof fn law_note_opens_at_its_marker(v: ReadyView, i: int)
    requires
        v.wf(),
        v.note_draft is None,
        0 <= i < v.marks.annotations.len(),
        v.marks.annotations[i].kind == AnnotKind::Note,
    ensures
        ({
            let after = v.note_opened(v.marks.annotations[i].id);
            &&& after.note_draft is Some
            &&& after.note_draft->0.marker == v.marks.annotations[i].corner()
            &&& after.note_draft->0.anchor == v.sheet_at
            &&& after.note_draft->0.anchor_scroll == v.doc_scroll_y
            &&& after == (ReadyView { note_draft: after.note_draft, ..v })
        }),
{
    lemma_found(v.marks.annotations, i, v.marks.annotations.len() as int);
}

} // verus!
