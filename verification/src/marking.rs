//! Selecting text, marking it, and writing notes on it.

use vstd::prelude::*;

use crate::annot::{
    by_number, derived_marker_pt, first_corner, law_changes_keep_marks_fit, law_new_marks_fit, note_upto, AnnotKind,
    Annotation, AnnotationView,
};
use crate::numbers::{trim, trim_end, trimmed, trimmed_end};
use crate::page::{
    extend_range, extended, glyph_byte_range, glyph_range, hit_upto, line_quads, nearest,
    quads_for_range_by_line, sliced, Coord, MediaBox, PageNo, Point, Quad, TextLayer, TextRange, ONE,
};
use crate::ready::{Ready, ReadyView};
use crate::state::{NoteDraft, NoteDraftView, NoteDrag, PressAnchor, Selection};

verus! {

/// Whether a list of numbers holds one.
pub fn lists(ids: &Vec<u64>, id: u64) -> (r: bool)
    ensures
        r == ids@.contains(id),
{
    let mut i: usize = 0;
    while i < ids.len()
        invariant
            i <= ids@.len(),
            forall|j: int| 0 <= j < i ==> ids@[j] != id,
        decreases ids@.len() - i,
    {
        if ids[i] == id {
            return true;
        }
        i += 1;
    }
    false
}

/// The first of the first `n` marks that is a note on a page and whose marker
/// is among those given.
pub open spec fn marker_upto(list: Seq<AnnotationView>, page: PageNo, markers: Seq<u64>, n: int) -> Option<
    int,
>
    decreases n,
{
    if n <= 0 {
        None
    } else {
        match marker_upto(list, page, markers, n - 1) {
            Some(i) => Some(i),
            None => if list[n - 1].kind == AnnotKind::Note && list[n - 1].page == page
                && markers.contains(list[n - 1].id) {
                Some(n - 1)
            } else {
                None
            },
        }
    }
}

/// Whether one of the rectangles covers a point.
pub open spec fn any_covers(quads: Seq<Quad>, pt: Point) -> bool {
    exists|i: int| 0 <= i < quads.len() && (#[trigger] quads[i]).covers(pt.x, pt.y)
}

/// Whether a mark is under a point: a note where its marker is, another mark
/// where its text is.
pub open spec fn under(a: AnnotationView, page: PageNo, pt: Point, markers: Seq<u64>) -> bool {
    a.page == page && if a.kind == AnnotKind::Note {
        markers.contains(a.id)
    } else {
        any_covers(a.quads, pt)
    }
}

/// The first of the first `n` marks that is under a point.
pub open spec fn mark_upto(
    list: Seq<AnnotationView>,
    page: PageNo,
    pt: Point,
    markers: Seq<u64>,
    n: int,
) -> Option<u64>
    decreases n,
{
    if n <= 0 {
        None
    } else {
        match mark_upto(list, page, pt, markers, n - 1) {
            Some(id) => Some(id),
            None => if under(list[n - 1], page, pt, markers) {
                Some(list[n - 1].id)
            } else {
                None
            },
        }
    }
}

/// The note with a number.
pub open spec fn note_numbered(list: Seq<AnnotationView>, id: u64) -> Option<AnnotationView> {
    match by_number(list, id) {
        Some(a) if a.kind == AnnotKind::Note => Some(a),
        _ => None,
    }
}

/// The glyph at a point, else the one nearest to it.
pub open spec fn snapped(layer: TextLayer, pt: Point, distances: Seq<Coord>) -> Option<int> {
    match hit_upto(layer.glyphs@, pt, layer.glyphs@.len() as int) {
        Some(i) => Some(i),
        None => nearest(distances, layer.measured(distances)),
    }
}

proof fn lemma_marker_stays(
    list: Seq<AnnotationView>,
    page: PageNo,
    markers: Seq<u64>,
    m: int,
    n: int,
)
    requires
        m <= n,
        marker_upto(list, page, markers, m) is Some,
    ensures
        marker_upto(list, page, markers, n) == marker_upto(list, page, markers, m),
    decreases n,
{
    if m < n {
        lemma_marker_stays(list, page, markers, m, n - 1);
    }
}

proof fn lemma_mark_stays(
    list: Seq<AnnotationView>,
    page: PageNo,
    pt: Point,
    markers: Seq<u64>,
    m: int,
    n: int,
)
    requires
        m <= n,
        mark_upto(list, page, pt, markers, m) is Some,
    ensures
        mark_upto(list, page, pt, markers, n) == mark_upto(list, page, pt, markers, m),
    decreases n,
{
    if m < n {
        lemma_mark_stays(list, page, pt, markers, m, n - 1);
    }
}

impl ReadyView {
    /// The text that is selected; none where it is empty or its page was not
    /// read.
    pub open spec fn selected_text(self) -> Option<Seq<char>> {
        match self.selection {
            Some(sel) => match self.pages.layer_of(sel.page) {
                Some(layer) => {
                    let text = sliced(layer.plain@, sel.range);
                    if text.len() == 0 {
                        None
                    } else {
                        Some(text)
                    }
                },
                None => None,
            },
            None => None,
        }
    }

    /// The lines of the selection; none where it holds no text but white
    /// space.
    pub open spec fn selected_lines(self) -> Option<Seq<Quad>> {
        match self.selection {
            Some(sel) => match self.pages.layer_of(sel.page) {
                Some(layer) => {
                    let quads = line_quads(
                        layer.glyphs@,
                        sel.range.start as int,
                        sel.range.end as int,
                    );
                    if trimmed(sliced(layer.plain@, sel.range)).len() == 0 || quads.len() == 0 {
                        None
                    } else {
                        Some(quads)
                    }
                },
                None => None,
            },
            None => None,
        }
    }

    /// The selection marked.
    pub open spec fn annotated(self, kind: AnnotKind) -> ReadyView {
        match self.selected_lines() {
            Some(quads) => ReadyView {
                marks: self.marks.annotated(
                    self.selection->0.page,
                    self.selection->0.range,
                    quads,
                    kind,
                ),
                ..self
            },
            None => self,
        }
    }

    /// A note that is opened: its corner stands until it was placed.
    pub open spec fn with_draft(
        self,
        page: PageNo,
        range: TextRange,
        quads: Seq<Quad>,
        content: Seq<char>,
        editing: Option<u64>,
        marker: Point,
    ) -> ReadyView {
        ReadyView {
            note_draft: Some(
                NoteDraftView {
                    page,
                    range,
                    quads,
                    content,
                    editing,
                    marker,
                    anchor: self.sheet_at,
                    anchor_scroll: self.doc_scroll_y,
                },
            ),
            ..self
        }
    }

    /// Whether a note on the selection can be opened.
    pub open spec fn can_draft(self) -> bool {
        self.note_draft is None && self.selected_lines() is Some
    }

    /// A note on the selection opened: the one that is there already, else a
    /// new one.
    pub open spec fn draft_opened(self) -> ReadyView {
        if !self.can_draft() {
            self
        } else {
            let sel = self.selection->0;
            let quads = self.selected_lines()->0;
            match note_upto(
                self.marks.annotations,
                sel.page,
                sel.range,
                self.marks.annotations.len() as int,
            ) {
                Some(a) => self.with_draft(
                    sel.page,
                    sel.range,
                    quads,
                    a.text,
                    Some(a.id),
                    a.corner(),
                ),
                None => self.with_draft(
                    sel.page,
                    sel.range,
                    quads,
                    Seq::empty(),
                    None,
                    first_corner(quads),
                ),
            }
        }
    }

    /// Whether the note with a number can be opened.
    pub open spec fn can_edit(self, id: u64) -> bool {
        note_numbered(self.marks.annotations, id) is Some && self.note_draft is None
    }

    /// The note with a number opened.
    pub open spec fn note_opened(self, id: u64) -> ReadyView {
        if !self.can_edit(id) {
            self
        } else {
            let a = note_numbered(self.marks.annotations, id)->0;
            self.with_draft(a.page, a.range, a.quads, a.text, Some(a.id), a.corner())
        }
    }

    /// Whether the note that is open says anything.
    pub open spec fn draft_says(self) -> bool {
        self.note_draft is Some && trimmed(self.note_draft->0.content).len() > 0
    }

    /// The note that is open written down, if it says anything, and closed.
    pub open spec fn draft_saved(self) -> ReadyView {
        let closed = ReadyView { note_draft: None, ..self };
        if !self.draft_says() {
            closed
        } else {
            let draft = self.note_draft->0;
            ReadyView {
                marks: self.marks.note_saved(
                    draft.editing,
                    draft.page,
                    draft.range,
                    draft.quads,
                    trimmed_end(draft.content),
                ),
                ..closed
            }
        }
    }

    /// Whether the note that is open is one that can be deleted.
    pub open spec fn can_delete(self) -> bool {
        &&& self.note_draft is Some
        &&& self.note_draft->0.editing is Some
        &&& by_number(self.marks.annotations, self.note_draft->0.editing->0) is Some
    }

    /// The note that is open deleted, and closed.
    pub open spec fn draft_deleted(self) -> ReadyView {
        if self.can_delete() {
            ReadyView {
                marks: self.marks.removed(self.note_draft->0.editing->0),
                note_draft: None,
                ..self
            }
        } else {
            self
        }
    }

    /// A press: on a note's marker it may become a drag; else it selects the
    /// glyph there, or the nearest.
    pub open spec fn pressed(
        self,
        page: PageNo,
        pt: Point,
        sheet: Point,
        distances: Seq<Coord>,
        markers: Seq<u64>,
    ) -> ReadyView {
        let v = ReadyView { sheet_at: sheet, sheet_scroll: self.doc_scroll_y, ..self };
        let list = self.marks.annotations;
        match marker_upto(list, page, markers, list.len() as int) {
            Some(i) => ReadyView {
                selection: None,
                press_anchor: None,
                note_drag: Some(
                    NoteDrag {
                        id: list[i].id,
                        page,
                        from: pt,
                        marker0: list[i].corner(),
                        at: pt,
                    },
                ),
                ..v
            },
            None => {
                let glyph = match self.pages.layer_of(page) {
                    Some(layer) => snapped(layer, pt, distances),
                    None => None,
                };
                match glyph {
                    Some(i) => {
                        let layer = self.pages.layer_of(page)->0;
                        let sel = Selection { page, range: glyph_range(layer.glyphs@, i) };
                        ReadyView {
                            press_anchor: Some(
                                PressAnchor {
                                    sel,
                                    exact: hit_upto(
                                        layer.glyphs@,
                                        pt,
                                        layer.glyphs@.len() as int,
                                    ) is Some,
                                },
                            ),
                            selection: Some(sel),
                            ..v
                        }
                    },
                    None => ReadyView { selection: None, press_anchor: None, ..v },
                }
            },
        }
    }

    /// Whether a marker of this page is being dragged.
    pub open spec fn dragging(self, page: PageNo) -> bool {
        self.note_drag is Some && self.note_drag->0.page == page
    }

    /// A drag that follows the pointer.
    pub open spec fn dragged(self, page: PageNo, pt: Point) -> ReadyView {
        if self.dragging(page) {
            ReadyView { note_drag: Some(NoteDrag { at: pt, ..self.note_drag->0 }), ..self }
        } else {
            self
        }
    }

    /// The pointer moved: a marker goes along, else the selection grows or
    /// shrinks.
    pub open spec fn pointed(self, page: PageNo, pt: Point, distances: Seq<Coord>) -> ReadyView {
        if self.dragging(page) {
            self.dragged(page, pt)
        } else {
            match (self.selection, self.pages.layer_of(page)) {
                (Some(sel), Some(layer)) => if sel.page == page {
                    match nearest(distances, layer.measured(distances)) {
                        Some(i) => {
                            let cursor = glyph_range(layer.glyphs@, i);
                            let anchor = match self.press_anchor {
                                Some(a) if a.sel.page == page => Some(a.sel.range),
                                _ => None,
                            };
                            ReadyView {
                                selection: Some(
                                    Selection {
                                        range: extended(anchor, (cursor.start, cursor.end)),
                                        ..sel
                                    },
                                ),
                                ..self
                            }
                        },
                        None => self,
                    }
                } else {
                    self
                },
                _ => self,
            }
        }
    }

    /// A note's marker dropped.
    pub open spec fn marker_dropped(self, id: u64, to: Point) -> ReadyView {
        match note_numbered(self.marks.annotations, id) {
            Some(old) => if old.corner().equals(to) {
                self
            } else {
                ReadyView { marks: self.marks.marker_moved(old, to), ..self }
            },
            None => self,
        }
    }

    /// A drag that ended: far enough off it moves the marker, else it was a
    /// click that opens the note.
    pub open spec fn drag_ended(self, far: bool, to: Point) -> ReadyView {
        match self.note_drag {
            None => self,
            Some(drag) => {
                let v = ReadyView { note_drag: None, ..self };
                if far {
                    v.marker_dropped(drag.id, to)
                } else {
                    v.note_opened(drag.id)
                }
            },
        }
    }

    /// Whether the drag that ended opened a note.
    pub open spec fn drag_opens(self, far: bool) -> bool {
        self.note_drag is Some && !far && self.can_edit(self.note_drag->0.id)
    }

    /// Whether the pointer was released where it was pressed.
    pub open spec fn clicked(self) -> bool {
        self.press_anchor is Some && self.selection == Some(self.press_anchor->0.sel)
    }

    /// The mark that a click is on.
    pub open spec fn mark_at(self, page: PageNo, pt: Point, markers: Seq<u64>) -> Option<u64> {
        mark_upto(self.marks.annotations, page, pt, markers, self.marks.annotations.len() as int)
    }

    /// A mark that was clicked: a note is opened, unless one is open already;
    /// another mark is taken away.
    pub open spec fn mark_clicked(self, id: u64) -> ReadyView {
        if self.can_edit(id) {
            self.note_opened(id)
        } else if note_numbered(self.marks.annotations, id) is Some {
            ReadyView { press_anchor: None, ..self }
        } else {
            ReadyView { press_anchor: None, marks: self.marks.removed(id), ..self }
        }
    }

    /// A click that ended: on a note it opens the note, unless one is open
    /// already; on another mark it takes the mark away, and beside the text
    /// it selects nothing.
    pub open spec fn click_ended(self, page: PageNo, pt: Point, markers: Seq<u64>) -> ReadyView {
        let mark = self.mark_at(page, pt, markers);
        if !self.clicked() {
            ReadyView { press_anchor: None, ..self }
        } else if mark is Some {
            self.mark_clicked(mark->0)
        } else {
            self.beside_clicked()
        }
    }

    /// A click that met no mark: beside the text it selects nothing.
    pub open spec fn beside_clicked(self) -> ReadyView {
        if self.press_anchor is Some && !self.press_anchor->0.exact {
            ReadyView { selection: None, press_anchor: None, ..self }
        } else {
            ReadyView { press_anchor: None, ..self }
        }
    }

    /// Whether a click that ended opened a note.
    pub open spec fn click_opens(self, page: PageNo, pt: Point, markers: Seq<u64>) -> bool {
        let mark = self.mark_at(page, pt, markers);
        self.clicked() && mark is Some && self.can_edit(mark->0)
    }

    /// The pointer was released.
    pub open spec fn released(
        self,
        page: PageNo,
        pt: Point,
        markers: Seq<u64>,
        far: bool,
        to: Point,
    ) -> ReadyView {
        let v = self.drag_ended(far, to);
        if self.drag_opens(far) {
            v
        } else {
            v.click_ended(page, pt, markers)
        }
    }

    /// Whether the pointer that was released opened a note.
    pub open spec fn release_opens(
        self,
        page: PageNo,
        pt: Point,
        markers: Seq<u64>,
        far: bool,
        to: Point,
    ) -> bool {
        self.drag_opens(far) || self.drag_ended(far, to).click_opens(page, pt, markers)
    }
}

fn mark_under(a: &Annotation, page: PageNo, pt: Point, markers: &Vec<u64>) -> (r: bool)
    ensures
        r == under(a@, page, pt, markers@),
{
    if a.page != page {
        return false;
    }
    if a.kind == AnnotKind::Note {
        return lists(markers, a.id);
    }
    let mut i: usize = 0;
    while i < a.quads.len()
        invariant
            a.page == page,
            a.kind != AnnotKind::Note,
            i <= a.quads@.len(),
            forall|j: int| 0 <= j < i ==> !(#[trigger] a.quads@[j]).covers(pt.x, pt.y),
        decreases a.quads@.len() - i,
    {
        if a.quads[i].contains(pt.x, pt.y) {
            assert(a@.quads[i as int].covers(pt.x, pt.y));
            assert(any_covers(a@.quads, pt));
            return true;
        }
        i += 1;
    }
    assert(!any_covers(a@.quads, pt));
    false
}

impl Ready {
    /// The text that is selected.
    pub fn selection_plain_text(&self) -> (r: Option<String>)
        ensures
            crate::text::maybe_text(r) == self@.selected_text(),
    {
        match self.selection {
            Some(sel) => match self.pages.layer(sel.page) {
                Some(layer) => {
                    let text = layer.slice(sel.range);
                    if text.as_str().is_empty() {
                        None
                    } else {
                        Some(text)
                    }
                },
                None => None,
            },
            None => None,
        }
    }

    /// The lines of the selection; none where it holds no text but white
    /// space.
    pub fn selection_quads(&self) -> (r: Option<Vec<Quad>>)
        ensures
            match self@.selected_lines() {
                Some(quads) => r is Some && r->0@ == quads,
                None => r is None,
            },
    {
        match self.selection {
            Some(sel) => match self.pages.layer(sel.page) {
                Some(layer) => {
                    let text = layer.slice(sel.range);
                    let said = trim(text.as_str());
                    if said.as_str().is_empty() {
                        return None;
                    }
                    let quads = quads_for_range_by_line(
                        &layer.glyphs,
                        sel.range.start,
                        sel.range.end,
                    );
                    if quads.len() == 0 {
                        None
                    } else {
                        Some(quads)
                    }
                },
                None => None,
            },
            None => None,
        }
    }

    /// Marks the selection; `false` where it holds no text.
    pub fn annotate_selection(&mut self, kind: AnnotKind) -> (r: bool)
        requires
            old(self).wf(),
            old(self)@.selected_lines() is Some ==> old(self)@.room(),
        ensures
            final(self)@ == old(self)@.annotated(kind),
            final(self).wf(),
            r == (old(self)@.selected_lines() is Some),
    {
        match self.selection_quads() {
            Some(quads) => {
                let sel: Selection = match self.selection {
                    Some(sel) => sel,
                    None => {
                        return false;
                    },
                };
                proof {
                    law_new_marks_fit(
                        self@.marks,
                        None,
                        sel.page,
                        sel.range,
                        quads@,
                        kind,
                        Seq::empty(),
                    );
                }
                self.marks.annotate(sel.page, sel.range, quads, kind);
                true
            },
            None => false,
        }
    }

    /// Opens a note on the selection: the one that is there already, else a
    /// new one. `false` where there is no text, or a note is open.
    pub fn open_note_draft(&mut self) -> (r: bool)
        requires
            old(self).wf(),
        ensures
            final(self)@ == old(self)@.draft_opened(),
            final(self).wf(),
            r == old(self)@.can_draft(),
    {
        if self.note_draft.is_some() {
            return false;
        }
        match self.selection_quads() {
            Some(quads) => {
                let sel: Selection = match self.selection {
                    Some(sel) => sel,
                    None => {
                        return false;
                    },
                };
                let (editing, content, marker): (Option<u64>, String, Point) =
                    match self.marks.find_note(sel.page, sel.range) {
                    Some(i) => {
                        let a = &self.marks.annotations[i];
                        (Some(a.id), a.text.clone(), a.marker_pt())
                    },
                    None => (None, String::new(), derived_marker_pt(&quads)),
                };
                assert(editing is None ==> content@ =~= Seq::<char>::empty());
                self.note_draft = Some(
                    NoteDraft {
                        page: sel.page,
                        range: sel.range,
                        quads,
                        content,
                        editing,
                        marker,
                        anchor: self.sheet_at,
                        anchor_scroll: self.doc_scroll_y,
                    },
                );
                true
            },
            None => false,
        }
    }

    /// Opens the note with a number; `false` where there is none, or a note
    /// is open.
    pub fn open_note_draft_for_id(&mut self, id: u64) -> (r: bool)
        requires
            old(self).wf(),
        ensures
            final(self)@ == old(self)@.note_opened(id),
            final(self).wf(),
            r == old(self)@.can_edit(id),
    {
        match self.marks.find(id) {
            None => false,
            Some(i) => {
                if self.marks.annotations[i].kind != AnnotKind::Note || self.note_draft.is_some() {
                    return false;
                }
                let a = self.marks.annotations[i].clone();
                let marker = a.marker_pt();
                self.note_draft = Some(
                    NoteDraft {
                        page: a.page,
                        range: a.range,
                        quads: a.quads,
                        content: a.text,
                        editing: Some(a.id),
                        marker,
                        anchor: self.sheet_at,
                        anchor_scroll: self.doc_scroll_y,
                    },
                );
                true
            },
        }
    }

    /// Writes down the note that is open and closes it; one that says nothing
    /// is only closed.
    pub fn save_note_draft(&mut self) -> (r: bool)
        requires
            old(self).wf(),
            old(self)@.draft_says() ==> old(self)@.room(),
        ensures
            final(self)@ == old(self)@.draft_saved(),
            final(self).wf(),
            r == old(self)@.draft_says(),
    {
        match self.note_draft.take() {
            None => false,
            Some(draft) => {
                let said = trim(draft.content.as_str());
                if said.as_str().is_empty() {
                    return false;
                }
                let text = trim_end(draft.content.as_str());
                proof {
                    law_new_marks_fit(
                        self@.marks,
                        draft.editing,
                        draft.page,
                        draft.range,
                        draft.quads@,
                        AnnotKind::Note,
                        text@,
                    );
                }
                self.marks.save_note(draft.editing, draft.page, draft.range, draft.quads, text);
                true
            },
        }
    }

    /// Takes a mark away; `false` where there is none with that number.
    pub fn remove_annotation(&mut self, id: u64) -> (r: bool)
        requires
            old(self).wf(),
        ensures
            final(self)@ == (ReadyView { marks: old(self)@.marks.removed(id), ..old(self)@ }),
            final(self).wf(),
            r == (by_number(old(self)@.marks.annotations, id) is Some),
    {
        proof {
            law_changes_keep_marks_fit(self@.marks, id, Point { x: Coord(0), y: Coord(0) });
        }
        self.marks.remove_annotation(id)
    }

    /// Deletes the note that is open, if it was there before, and closes it.
    pub fn delete_draft_note(&mut self) -> (r: bool)
        requires
            old(self).wf(),
        ensures
            final(self)@ == old(self)@.draft_deleted(),
            final(self).wf(),
            r == old(self)@.can_delete(),
    {
        let editing: Option<u64> = match &self.note_draft {
            Some(draft) => draft.editing,
            None => None,
        };
        match editing {
            Some(id) => {
                if self.remove_annotation(id) {
                    self.note_draft = None;
                    true
                } else {
                    false
                }
            },
            None => false,
        }
    }

    /// Undoes the last change of the marks.
    pub fn annot_undo_once(&mut self) -> (r: bool)
        requires
            old(self).wf(),
        ensures
            final(self)@ == (ReadyView { marks: old(self)@.marks.undone(), ..old(self)@ }),
            final(self).wf(),
            r == (old(self)@.marks.undo.len() > 0),
    {
        proof {
            law_changes_keep_marks_fit(self@.marks, 0, Point { x: Coord(0), y: Coord(0) });
        }
        self.marks.annot_undo_once()
    }

    /// Redoes the change of the marks undone last.
    pub fn annot_redo_once(&mut self) -> (r: bool)
        requires
            old(self).wf(),
        ensures
            final(self)@ == (ReadyView { marks: old(self)@.marks.redone(), ..old(self)@ }),
            final(self).wf(),
            r == (old(self)@.marks.redo.len() > 0),
    {
        proof {
            law_changes_keep_marks_fit(self@.marks, 0, Point { x: Coord(0), y: Coord(0) });
        }
        self.marks.annot_redo_once()
    }

    fn marker_under(&self, page: PageNo, markers: &Vec<u64>) -> (r: Option<usize>)
        ensures
            match marker_upto(
                self@.marks.annotations,
                page,
                markers@,
                self@.marks.annotations.len() as int,
            ) {
                Some(i) => r is Some && r->0 == i && 0 <= i < self.marks.annotations@.len(),
                None => r is None,
            },
    {
        let ghost list = self@.marks.annotations;
        let mut i: usize = 0;
        while i < self.marks.annotations.len()
            invariant
                list == self@.marks.annotations,
                i <= self.marks.annotations@.len(),
                marker_upto(list, page, markers@, i as int) is None,
            decreases self.marks.annotations@.len() - i,
        {
            let a = &self.marks.annotations[i];
            assert(list[i as int] == a@);
            if a.kind == AnnotKind::Note && a.page == page && lists(markers, a.id) {
                proof {
                    lemma_marker_stays(list, page, markers@, i + 1, list.len() as int);
                }
                return Some(i);
            }
            i += 1;
        }
        None
    }

    /// The mark at a point: a note where its marker is, which must be among
    /// those given; another mark where its text is.
    pub fn annotation_at(&self, page: PageNo, pt: Point, markers: &Vec<u64>) -> (r: Option<u64>)
        ensures
            r == self@.mark_at(page, pt, markers@),
    {
        let ghost list = self@.marks.annotations;
        let mut i: usize = 0;
        while i < self.marks.annotations.len()
            invariant
                list == self@.marks.annotations,
                i <= self.marks.annotations@.len(),
                mark_upto(list, page, pt, markers@, i as int) is None,
            decreases self.marks.annotations@.len() - i,
        {
            let a = &self.marks.annotations[i];
            assert(list[i as int] == a@);
            if mark_under(a, page, pt, markers) {
                proof {
                    lemma_mark_stays(list, page, pt, markers@, i + 1, list.len() as int);
                }
                return Some(a.id);
            }
            i += 1;
        }
        None
    }

    /// A press of the pointer. Given are the distance from the point to each
    /// glyph of the page and the notes whose marker is there.
    pub fn pointer_down(
        &mut self,
        page: PageNo,
        pt: Point,
        sheet: Point,
        distances: &Vec<Coord>,
        markers: &Vec<u64>,
    )
        requires
            old(self).wf(),
        ensures
            final(self)@ == old(self)@.pressed(page, pt, sheet, distances@, markers@),
            final(self).wf(),
    {
        self.sheet_at = sheet;
        self.sheet_scroll = self.doc_scroll_y;
        match self.marker_under(page, markers) {
            Some(i) => {
                let id: u64 = self.marks.annotations[i].id;
                let marker0 = self.marks.annotations[i].marker_pt();
                assert(self@.marks.annotations[i as int] == self.marks.annotations@[i as int]@);
                self.selection = None;
                self.press_anchor = None;
                self.note_drag = Some(NoteDrag { id, page, from: pt, marker0, at: pt });
            },
            None => {
                let pressed: Option<PressAnchor> = match self.pages.layer(page) {
                    Some(layer) => {
                        let exact = layer.hit(pt);
                        let glyph: Option<usize> = match exact {
                            Some(i) => Some(i),
                            None => layer.hit_nearest(distances),
                        };
                        match glyph {
                            Some(i) => {
                                let (start, end) = glyph_byte_range(layer, i);
                                Some(
                                    PressAnchor {
                                        sel: Selection { page, range: TextRange { start, end } },
                                        exact: exact.is_some(),
                                    },
                                )
                            },
                            None => None,
                        }
                    },
                    None => None,
                };
                match pressed {
                    Some(anchor) => {
                        self.press_anchor = Some(anchor);
                        self.selection = Some(anchor.sel);
                    },
                    None => {
                        self.selection = None;
                        self.press_anchor = None;
                    },
                }
            },
        }
    }

    /// The pointer moved while it was pressed. Given is the distance from the
    /// point to each glyph of the page.
    pub fn pointer_move(&mut self, page: PageNo, pt: Point, distances: &Vec<Coord>)
        requires
            old(self).wf(),
        ensures
            final(self)@ == old(self)@.pointed(page, pt, distances@),
            final(self).wf(),
    {
        if let Some(drag) = self.note_drag {
            if drag.page == page {
                self.note_drag = Some(NoteDrag { at: pt, ..drag });
                return;
            }
        }
        let sel: Selection = match self.selection {
            Some(sel) => sel,
            None => {
                return;
            },
        };
        if sel.page != page {
            return;
        }
        let range: Option<TextRange> = match self.pages.layer(page) {
            Some(layer) => match layer.hit_nearest(distances) {
                Some(i) => {
                    let cursor = glyph_byte_range(layer, i);
                    let anchor: Option<TextRange> = match self.press_anchor {
                        Some(a) => if a.sel.page == page {
                            Some(a.sel.range)
                        } else {
                            None
                        },
                        None => None,
                    };
                    Some(extend_range(anchor, cursor))
                },
                None => None,
            },
            None => None,
        };
        if let Some(range) = range {
            self.selection = Some(Selection { page: sel.page, range });
        }
    }

    /// Drops a note's marker; `false` where it did not move.
    pub fn move_note_marker(&mut self, id: u64, to: Point) -> (r: bool)
        requires
            old(self).wf(),
        ensures
            final(self)@ == old(self)@.marker_dropped(id, to),
            final(self).wf(),
            r == (match note_numbered(old(self)@.marks.annotations, id) {
                Some(note) => !note.corner().equals(to),
                None => false,
            }),
    {
        match self.marks.find(id) {
            None => false,
            Some(i) => {
                if self.marks.annotations[i].kind != AnnotKind::Note {
                    return false;
                }
                if self.marks.annotations[i].marker_pt().is_equal(to) {
                    return false;
                }
                proof {
                    law_changes_keep_marks_fit(self@.marks, id, to);
                }
                self.marks.move_marker(i, to);
                true
            },
        }
    }

    /// Ends a drag of a note's marker: far enough off it moves the marker to
    /// `to`, else it opens the note. Whether it did that.
    pub fn finish_note_drag(&mut self, far: bool, to: Point) -> (r: bool)
        requires
            old(self).wf(),
        ensures
            final(self)@ == old(self)@.drag_ended(far, to),
            final(self).wf(),
            r == old(self)@.drag_opens(far),
    {
        match self.note_drag.take() {
            None => false,
            Some(drag) => {
                if !far {
                    self.open_note_draft_for_id(drag.id)
                } else {
                    self.move_note_marker(drag.id, to);
                    false
                }
            },
        }
    }

    /// Whether a number is that of a note.
    fn is_note(&self, id: u64) -> (r: bool)
        requires
            self.wf(),
        ensures
            r == (note_numbered(self@.marks.annotations, id) is Some),
    {
        match self.marks.find(id) {
            Some(i) => self.marks.annotations[i].kind == AnnotKind::Note,
            None => false,
        }
    }

    /// Clicks a mark: a note is opened, unless one is open already; another
    /// mark is taken away. Whether a note was opened.
    fn click_mark(&mut self, id: u64) -> (opened: bool)
        requires
            old(self).wf(),
        ensures
            final(self)@ == old(self)@.mark_clicked(id),
            final(self).wf(),
            opened == old(self)@.can_edit(id),
    {
        if self.open_note_draft_for_id(id) {
            return true;
        }
        assert(self@ == old(self)@);
        if !self.is_note(id) {
            self.remove_annotation(id);
        }
        self.press_anchor = None;
        false
    }

    /// Clicks where no mark is: beside the text it selects nothing.
    fn click_beside(&mut self)
        requires
            old(self).wf(),
        ensures
            final(self)@ == old(self)@.beside_clicked(),
            final(self).wf(),
    {
        let exact: bool = match self.press_anchor {
            Some(anchor) => anchor.exact,
            None => true,
        };
        if !exact {
            self.selection = None;
        }
        self.press_anchor = None;
    }

    /// Ends a click: on a note it opens the note, unless one is open already;
    /// on another mark it takes the mark away, and beside the text it selects
    /// nothing. Whether a note was opened.
    fn finish_click(&mut self, page: PageNo, pt: Point, markers: &Vec<u64>) -> (opened: bool)
        requires
            old(self).wf(),
        ensures
            final(self)@ == old(self)@.click_ended(page, pt, markers@),
            final(self).wf(),
            opened == old(self)@.click_opens(page, pt, markers@),
    {
        let clicked: bool = match (self.press_anchor, self.selection) {
            (Some(anchor), Some(sel)) => anchor.sel == sel,
            _ => false,
        };
        assert(clicked == self@.clicked());
        if !clicked {
            self.press_anchor = None;
            return false;
        }
        match self.annotation_at(page, pt, markers) {
            Some(id) => self.click_mark(id),
            None => {
                self.click_beside();
                false
            },
        }
    }

    /// The pointer was released. Given are the notes whose marker is there,
    /// whether a marker was dragged far enough off to move, and where to.
    /// Whether a note was opened.
    pub fn pointer_up(
        &mut self,
        page: PageNo,
        pt: Point,
        markers: &Vec<u64>,
        far: bool,
        to: Point,
    ) -> (opened: bool)
        requires
            old(self).wf(),
        ensures
            final(self)@ == old(self)@.released(page, pt, markers@, far, to),
            final(self).wf(),
            opened == old(self)@.release_opens(page, pt, markers@, far, to),
    {
        if self.finish_note_drag(far, to) {
            return true;
        }
        self.finish_click(page, pt, markers)
    }
}

/// A number brought between two others; what is no number stays.
pub open spec fn between(value: Coord, low: Coord, high: Coord) -> Coord {
    if value.below(low) {
        low
    } else if high.below(value) {
        high
    } else {
        value
    }
}

fn bring_between(value: Coord, low: Coord, high: Coord) -> (r: Coord)
    ensures
        r == between(value, low, high),
{
    if value.is_below(low) {
        low
    } else if high.is_below(value) {
        high
    } else {
        value
    }
}

/// A marker's corner kept on its page, which counts as a point wide and high
/// at the least.
pub open spec fn on_page(pt: Point, media: MediaBox) -> Point {
    Point {
        x: between(pt.x, Coord(0), media.width.high(Coord(ONE))),
        y: between(pt.y, Coord(0), media.height.high(Coord(ONE))),
    }
}

/// A marker's corner kept on its page.
pub fn clamped_marker_pt(pt: Point, media: MediaBox) -> (r: Point)
    ensures
        r == on_page(pt, media),
{
    Point {
        x: bring_between(pt.x, Coord(0), media.width.higher(Coord(ONE))),
        y: bring_between(pt.y, Coord(0), media.height.higher(Coord(ONE))),
    }
}

/// A marker that is kept on its page never leaves it.
pub proof fn law_marker_stays_on_page(pt: Point, media: MediaBox)
    requires
        pt.x.number(),
        pt.y.number(),
    ensures
        0 <= on_page(pt, media).x.0 <= media.width.high(Coord(ONE)).0,
        0 <= on_page(pt, media).y.0 <= media.height.high(Coord(ONE)).0,
{
}

/// A click on text, with nothing marked there, keeps the glyph selected that
/// was pressed.
pub proof fn law_click_keeps_glyph(
    v: ReadyView,
    page: PageNo,
    pt: Point,
    sheet: Point,
    distances: Seq<Coord>,
    markers: Seq<u64>,
    to: Point,
)
    requires
        v.wf(),
        v.note_drag is None,
        v.pages.layer_of(page) is Some,
        hit_upto(
            v.pages.layer_of(page)->0.glyphs@,
            pt,
            v.pages.layer_of(page)->0.glyphs@.len() as int,
        ) is Some,
        v.mark_at(page, pt, markers) is None,
    ensures
        v.pressed(page, pt, sheet, distances, markers).released(page, pt, markers, false, to).selection
            == v.pressed(page, pt, sheet, distances, markers).selection,
        v.pressed(page, pt, sheet, distances, markers).selection is Some,
{
    lemma_no_marker(v.marks.annotations, page, pt, markers, v.marks.annotations.len() as int);
}

proof fn lemma_no_marker(
    list: Seq<AnnotationView>,
    page: PageNo,
    pt: Point,
    markers: Seq<u64>,
    n: int,
)
    requires
        mark_upto(list, page, pt, markers, n) is None,
    ensures
        marker_upto(list, page, markers, n) is None,
    decreases n,
{
    if n > 0 {
        lemma_no_marker(list, page, pt, markers, n - 1);
    }
}

/// A click beside the text, with nothing marked there, selects nothing.
pub proof fn law_click_beside_text_clears(
    v: ReadyView,
    page: PageNo,
    pt: Point,
    sheet: Point,
    distances: Seq<Coord>,
    markers: Seq<u64>,
    to: Point,
)
    requires
        v.wf(),
        v.note_drag is None,
        v.pages.layer_of(page) is Some,
        hit_upto(
            v.pages.layer_of(page)->0.glyphs@,
            pt,
            v.pages.layer_of(page)->0.glyphs@.len() as int,
        ) is None,
        v.mark_at(page, pt, markers) is None,
    ensures
        v.pressed(page, pt, sheet, distances, markers).released(page, pt, markers, false, to).selection
            is None,
{
    lemma_no_marker(v.marks.annotations, page, pt, markers, v.marks.annotations.len() as int);
}

/// However a marker is dragged, the note keeps its number, its text, its lines
/// and what it says.
pub proof fn law_drag_moves_marker_only(v: ReadyView, id: u64, to: Point)
    requires
        v.wf(),
        note_numbered(v.marks.annotations, id) is Some,
        !note_numbered(v.marks.annotations, id)->0.corner().equals(to),
    ensures
        ({
            let old = note_numbered(v.marks.annotations, id)->0;
            let after = v.marker_dropped(id, to).marks.annotations;
            after.len() > 0 && after.last() == AnnotationView { marker: Some(to), ..old }
        }),
{
    let old = note_numbered(v.marks.annotations, id)->0;
    let rest = crate::annot::without_id(v.marks.annotations, old.id);
    crate::annot::lemma_without(v.marks.annotations, old.id);
    assert(!crate::annot::has_id(rest, old.id));
    crate::annot::lemma_by_number(v.marks.annotations, id, v.marks.annotations.len() as int);
}

/// Dragging a marker is undone in two steps: the note is where it was.
pub proof fn law_undo_twice_returns_marker(v: ReadyView, id: u64, to: Point)
    requires
        v.wf(),
        note_numbered(v.marks.annotations, id) is Some,
        !note_numbered(v.marks.annotations, id)->0.corner().equals(to),
    ensures
        crate::annot::numbered(v.marker_dropped(id, to).marks.undone().undone().annotations)
            == crate::annot::numbered(v.marks.annotations),
{
    let m = v.marks;
    let old = note_numbered(m.annotations, id)->0;
    let moved = AnnotationView { marker: Some(to), ..old };
    let base = m.step(crate::annot::AnnotActionView::Remove(old));
    let after = v.marker_dropped(id, to).marks;
    crate::annot::lemma_by_number(m.annotations, id, m.annotations.len() as int);
    crate::annot::lemma_without(m.annotations, id);
    assert(!crate::annot::has_id(base.annotations, id));
    assert(after.annotations =~= base.annotations.push(moved));
    assert(after.annotations.drop_last() =~= base.annotations);
    crate::annot::lemma_without(base.annotations, id);
    let once = after.undone();
    assert(once.annotations == base.annotations);
    assert(once.undo =~= base.undo);
    crate::annot::lemma_pushed(base.annotations, old);
    assert(crate::annot::numbered(m.annotations).remove(id).insert(id, old)
        =~= crate::annot::numbered(m.annotations));
}

/// While a note is open, a click on a note takes nothing away: the marks, the
/// steps that can be undone and the open note stay.
pub proof fn law_click_leaves_note(v: ReadyView, page: PageNo, pt: Point, markers: Seq<u64>)
    requires
        v.wf(),
        v.note_draft is Some,
        v.mark_at(page, pt, markers) is Some,
        note_numbered(v.marks.annotations, v.mark_at(page, pt, markers)->0) is Some,
    ensures
        v.click_ended(page, pt, markers) == (ReadyView { press_anchor: None, ..v }),
        !v.click_opens(page, pt, markers),
{
}

} // verus!
