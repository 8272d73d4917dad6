//! Marks on the text of a document, and how they are undone and redone.

use vstd::prelude::*;

use crate::page::{Coord, PageNo, Point, Quad, TextRange};

verus! {

/// What a mark is.
#[derive(Debug, Clone, Copy, PartialEq, Eq, Structural)]
pub enum AnnotKind {
    Highlight,
    Underline,
    Strikeout,
    /// A note on a piece of text; the mark holds what it says.
    Note,
}

/// A mark on a piece of text, with one rectangle to each line of it.
#[derive(Debug)]
pub struct Annotation {
    pub id: u64,
    pub page: PageNo,
    pub range: TextRange,
    pub quads: Vec<Quad>,
    pub kind: AnnotKind,
    /// What a note says; empty on the other marks.
    pub text: String,
    /// Where a note's marker was dragged to; without it, the marker stands
    /// where the first rectangle begins.
    pub marker: Option<Point>,
}

/// What a mark holds.
pub struct AnnotationView {
    pub id: u64,
    pub page: PageNo,
    pub range: TextRange,
    pub quads: Seq<Quad>,
    pub kind: AnnotKind,
    pub text: Seq<char>,
    pub marker: Option<Point>,
}

impl View for Annotation {
    type V = AnnotationView;

    open spec fn view(&self) -> AnnotationView {
        AnnotationView {
            id: self.id,
            page: self.page,
            range: self.range,
            quads: self.quads@,
            kind: self.kind,
            text: self.text@,
            marker: self.marker,
        }
    }
}

/// Where the marker of a note on some lines stands as long as it was not
/// dragged: at the left and top of the first of them.
pub open spec fn first_corner(quads: Seq<Quad>) -> Point {
    if quads.len() == 0 {
        Point { x: Coord(0), y: Coord(0) }
    } else {
        Point { x: quads[0].bounds().0, y: quads[0].bounds().3 }
    }
}

/// Where the marker of a note on the given lines stands at first.
pub fn derived_marker_pt(quads: &Vec<Quad>) -> (pt: Point)
    ensures
        pt == first_corner(quads@),
{
    if quads.len() == 0 {
        Point { x: Coord(0), y: Coord(0) }
    } else {
        let sides = quads[0].bbox();
        Point { x: sides.0, y: sides.3 }
    }
}

impl AnnotationView {
    pub open spec fn corner(self) -> Point {
        match self.marker {
            Some(pt) => pt,
            None => first_corner(self.quads),
        }
    }
}

/// The same rectangles again.
pub fn copy_quads(quads: &Vec<Quad>) -> (r: Vec<Quad>)
    ensures
        r@ == quads@,
{
    let mut r: Vec<Quad> = Vec::new();
    let mut i: usize = 0;
    while i < quads.len()
        invariant
            i <= quads@.len(),
            r@ == quads@.take(i as int),
        decreases quads@.len() - i,
    {
        r.push(quads[i]);
        i += 1;
        assert(r@ =~= quads@.take(i as int));
    }
    assert(r@ =~= quads@);
    r
}

impl Clone for Annotation {
    fn clone(&self) -> (r: Annotation)
        ensures
            r@ == self@,
    {
        Annotation {
            id: self.id,
            page: self.page,
            range: self.range,
            quads: copy_quads(&self.quads),
            kind: self.kind,
            text: self.text.clone(),
            marker: self.marker,
        }
    }
}

impl Annotation {
    /// The top left corner of the marker.
    pub fn marker_pt(&self) -> (pt: Point)
        ensures
            pt == self@.corner(),
    {
        match self.marker {
            Some(pt) => pt,
            None => derived_marker_pt(&self.quads),
        }
    }
}

/// A step that can be undone.
#[derive(Debug)]
pub enum AnnotAction {
    Add(Annotation),
    Remove(Annotation),
}

/// What a step does.
pub enum AnnotActionView {
    Add(AnnotationView),
    Remove(AnnotationView),
}

impl View for AnnotAction {
    type V = AnnotActionView;

    open spec fn view(&self) -> AnnotActionView {
        match self {
            AnnotAction::Add(a) => AnnotActionView::Add(a@),
            AnnotAction::Remove(a) => AnnotActionView::Remove(a@),
        }
    }
}

impl Clone for AnnotAction {
    fn clone(&self) -> (r: AnnotAction)
        ensures
            r@ == self@,
    {
        match self {
            AnnotAction::Add(a) => AnnotAction::Add(a.clone()),
            AnnotAction::Remove(a) => AnnotAction::Remove(a.clone()),
        }
    }
}

impl AnnotActionView {
    pub open spec fn subject(self) -> AnnotationView {
        match self {
            AnnotActionView::Add(a) => a,
            AnnotActionView::Remove(a) => a,
        }
    }

    pub open spec fn inverse(self) -> AnnotActionView {
        match self {
            AnnotActionView::Add(a) => AnnotActionView::Remove(a),
            AnnotActionView::Remove(a) => AnnotActionView::Add(a),
        }
    }
}

/// The marks of a document in the order in which they are drawn, the number
/// of the next one, and the steps to undo and to redo.
#[derive(Debug)]
pub struct Marks {
    pub annotations: Vec<Annotation>,
    pub next_annot_id: u64,
    pub annot_undo: Vec<AnnotAction>,
    pub annot_redo: Vec<AnnotAction>,
}

/// What the marks of a document are.
pub struct MarksView {
    pub annotations: Seq<AnnotationView>,
    pub next_id: u64,
    pub undo: Seq<AnnotActionView>,
    pub redo: Seq<AnnotActionView>,
}

/// What each mark holds.
pub open spec fn annots(list: Seq<Annotation>) -> Seq<AnnotationView> {
    list.map_values(|a: Annotation| a@)
}

/// What each step does.
pub open spec fn steps(list: Seq<AnnotAction>) -> Seq<AnnotActionView> {
    list.map_values(|a: AnnotAction| a@)
}

impl View for Marks {
    type V = MarksView;

    open spec fn view(&self) -> MarksView {
        MarksView {
            annotations: annots(self.annotations@),
            next_id: self.next_annot_id,
            undo: steps(self.annot_undo@),
            redo: steps(self.annot_redo@),
        }
    }
}

/// Whether a mark with this number is there.
pub open spec fn has_id(list: Seq<AnnotationView>, id: u64) -> bool {
    exists|i: int| 0 <= i < list.len() && (#[trigger] list[i]).id == id
}

/// The marks with other numbers.
pub open spec fn without_id(list: Seq<AnnotationView>, id: u64) -> Seq<AnnotationView>
    decreases list.len(),
{
    if list.len() == 0 {
        Seq::empty()
    } else if list.last().id == id {
        without_id(list.drop_last(), id)
    } else {
        without_id(list.drop_last(), id).push(list.last())
    }
}

/// The marks after a step. A mark that is there already is not added again.
pub open spec fn after_step(list: Seq<AnnotationView>, action: AnnotActionView) -> Seq<
    AnnotationView,
> {
    match action {
        AnnotActionView::Add(a) => if has_id(list, a.id) {
            list
        } else {
            list.push(a)
        },
        AnnotActionView::Remove(a) => without_id(list, a.id),
    }
}

/// The first of the first `n` marks with the given number.
pub open spec fn found(list: Seq<AnnotationView>, id: u64, n: int) -> Option<AnnotationView>
    decreases n,
{
    if n <= 0 {
        None
    } else {
        match found(list, id, n - 1) {
            Some(a) => Some(a),
            None => if list[n - 1].id == id {
                Some(list[n - 1])
            } else {
                None
            },
        }
    }
}

/// The first mark with the given number.
pub open spec fn by_number(list: Seq<AnnotationView>, id: u64) -> Option<AnnotationView> {
    found(list, id, list.len() as int)
}

/// The first of the first `n` marks that is a note on exactly this text.
pub open spec fn note_upto(
    list: Seq<AnnotationView>,
    page: PageNo,
    range: TextRange,
    n: int,
) -> Option<AnnotationView>
    decreases n,
{
    if n <= 0 {
        None
    } else {
        match note_upto(list, page, range, n - 1) {
            Some(a) => Some(a),
            None => if list[n - 1].kind == AnnotKind::Note && list[n - 1].page == page
                && list[n - 1].range == range {
                Some(list[n - 1])
            } else {
                None
            },
        }
    }
}

impl MarksView {
    pub open spec fn none() -> MarksView {
        MarksView {
            annotations: Seq::empty(),
            next_id: 0,
            undo: Seq::empty(),
            redo: Seq::empty(),
        }
    }

    /// A step taken, to be undone later.
    pub open spec fn step(self, action: AnnotActionView) -> MarksView {
        MarksView {
            annotations: after_step(self.annotations, action),
            undo: self.undo.push(action),
            ..self
        }
    }

    /// Nothing left to redo.
    pub open spec fn settled(self) -> MarksView {
        MarksView { redo: Seq::empty(), ..self }
    }

    /// A new mark, under the next number.
    pub open spec fn added(self, a: AnnotationView) -> MarksView {
        MarksView { next_id: (self.next_id + 1) as u64, ..self.step(AnnotActionView::Add(a)) }
            .settled()
    }

    /// A mark of a kind that holds no text.
    pub open spec fn annotated(
        self,
        page: PageNo,
        range: TextRange,
        quads: Seq<Quad>,
        kind: AnnotKind,
    ) -> MarksView {
        self.added(
            AnnotationView {
                id: self.next_id,
                page,
                range,
                quads,
                kind,
                text: Seq::empty(),
                marker: None,
            },
        )
    }

    /// A mark taken away.
    pub open spec fn removed(self, id: u64) -> MarksView {
        match by_number(self.annotations, id) {
            Some(a) => self.step(AnnotActionView::Remove(a)).settled(),
            None => self,
        }
    }

    /// A note written anew, or in the place of the one that was edited, whose
    /// marker it takes over.
    pub open spec fn note_saved(
        self,
        editing: Option<u64>,
        page: PageNo,
        range: TextRange,
        quads: Seq<Quad>,
        text: Seq<char>,
    ) -> MarksView {
        let previous = match editing {
            Some(id) => by_number(self.annotations, id),
            None => None,
        };
        let base = match previous {
            Some(old) => self.step(AnnotActionView::Remove(old)),
            None => self,
        };
        base.added(
            AnnotationView {
                id: self.next_id,
                page,
                range,
                quads,
                kind: AnnotKind::Note,
                text,
                marker: match previous {
                    Some(old) => old.marker,
                    None => None,
                },
            },
        )
    }

    /// A note's marker put elsewhere; the note itself keeps its number and
    /// its text.
    pub open spec fn marker_moved(self, old: AnnotationView, to: Point) -> MarksView {
        self.step(AnnotActionView::Remove(old)).step(
            AnnotActionView::Add(AnnotationView { marker: Some(to), ..old }),
        ).settled()
    }

    pub open spec fn undone(self) -> MarksView {
        if self.undo.len() == 0 {
            self
        } else {
            MarksView {
                annotations: after_step(self.annotations, self.undo.last().inverse()),
                undo: self.undo.drop_last(),
                redo: self.redo.push(self.undo.last()),
                ..self
            }
        }
    }

    pub open spec fn redone(self) -> MarksView {
        if self.redo.len() == 0 {
            self
        } else {
            MarksView {
                annotations: after_step(self.annotations, self.redo.last()),
                undo: self.undo.push(self.redo.last()),
                redo: self.redo.drop_last(),
                ..self
            }
        }
    }
}

impl Marks {
    pub fn new() -> (marks: Marks)
        ensures
            marks@ == MarksView::none(),
    {
        let marks = Marks {
            annotations: Vec::new(),
            next_annot_id: 0,
            annot_undo: Vec::new(),
            annot_redo: Vec::new(),
        };
        assert(marks@.annotations =~= Seq::<AnnotationView>::empty());
        assert(marks@.undo =~= Seq::<AnnotActionView>::empty());
        assert(marks@.redo =~= Seq::<AnnotActionView>::empty());
        marks
    }

    fn has(&self, id: u64) -> (r: bool)
        ensures
            r == has_id(self@.annotations, id),
    {
        let mut i: usize = 0;
        while i < self.annotations.len()
            invariant
                i <= self.annotations@.len(),
                forall|j: int| 0 <= j < i ==> (#[trigger] self@.annotations[j]).id != id,
            decreases self.annotations@.len() - i,
        {
            assert(self@.annotations[i as int] == self.annotations@[i as int]@);
            if self.annotations[i].id == id {
                return true;
            }
            i += 1;
        }
        false
    }

    fn apply_add(&mut self, a: Annotation)
        ensures
            final(self)@ == (MarksView {
                annotations: after_step(old(self)@.annotations, AnnotActionView::Add(a@)),
                ..old(self)@
            }),
    {
        if !self.has(a.id) {
            self.annotations.push(a);
            assert(annots(self.annotations@) =~= annots(old(self).annotations@).push(a@));
        }
    }

    fn apply_remove(&mut self, id: u64)
        ensures
            final(self)@ == (MarksView {
                annotations: without_id(old(self)@.annotations, id),
                ..old(self)@
            }),
    {
        let mut kept: Vec<Annotation> = Vec::new();
        let mut i: usize = 0;
        while i < self.annotations.len()
            invariant
                i <= self.annotations@.len(),
                *self == *old(self),
                annots(kept@) == without_id(self@.annotations.take(i as int), id),
            decreases self.annotations@.len() - i,
        {
            assert(self@.annotations.take(i + 1).drop_last() =~= self@.annotations.take(i as int));
            assert(self@.annotations[i as int] == self.annotations@[i as int]@);
            if self.annotations[i].id != id {
                let ghost before = kept@;
                let a = self.annotations[i].clone();
                kept.push(a);
                assert(annots(kept@) =~= annots(before).push(a@));
            }
            i += 1;
        }
        assert(self@.annotations.take(i as int) =~= self@.annotations);
        self.annotations = kept;
    }

    /// Carries out a step.
    pub fn apply_annot_action(&mut self, action: AnnotAction)
        ensures
            final(self)@ == (MarksView {
                annotations: after_step(old(self)@.annotations, action@),
                ..old(self)@
            }),
    {
        match action {
            AnnotAction::Add(a) => self.apply_add(a),
            AnnotAction::Remove(a) => self.apply_remove(a.id),
        }
    }

    fn take_step(&mut self, action: AnnotAction)
        ensures
            final(self)@ == old(self)@.step(action@),
    {
        let again = action.clone();
        self.apply_annot_action(again);
        let ghost before = self.annot_undo@;
        self.annot_undo.push(action);
        assert(steps(self.annot_undo@) =~= steps(before).push(action@));
    }

    fn settle(&mut self)
        ensures
            final(self)@ == old(self)@.settled(),
    {
        self.annot_redo.clear();
        assert(steps(self.annot_redo@) =~= Seq::<AnnotActionView>::empty());
    }

    /// The first mark with a number.
    pub fn find(&self, id: u64) -> (r: Option<usize>)
        ensures
            match r {
                Some(i) => i < self.annotations@.len() && by_number(self@.annotations, id) == Some(
                    self.annotations@[i as int]@,
                ),
                None => by_number(self@.annotations, id) is None,
            },
    {
        let mut i: usize = 0;
        while i < self.annotations.len()
            invariant
                i <= self.annotations@.len(),
                found(self@.annotations, id, i as int) is None,
            decreases self.annotations@.len() - i,
        {
            assert(self@.annotations[i as int] == self.annotations@[i as int]@);
            if self.annotations[i].id == id {
                proof {
                    lemma_found_stays(self@.annotations, id, i + 1, self@.annotations.len() as int);
                }
                return Some(i);
            }
            i += 1;
        }
        None
    }

    /// The first note on exactly this text.
    pub fn find_note(&self, page: PageNo, range: TextRange) -> (r: Option<usize>)
        ensures
            match r {
                Some(i) => i < self.annotations@.len() && note_upto(
                    self@.annotations,
                    page,
                    range,
                    self@.annotations.len() as int,
                ) == Some(self.annotations@[i as int]@),
                None => note_upto(self@.annotations, page, range, self@.annotations.len() as int)
                    is None,
            },
    {
        let mut i: usize = 0;
        while i < self.annotations.len()
            invariant
                i <= self.annotations@.len(),
                note_upto(self@.annotations, page, range, i as int) is None,
            decreases self.annotations@.len() - i,
        {
            assert(self@.annotations[i as int] == self.annotations@[i as int]@);
            let a = &self.annotations[i];
            if a.kind == AnnotKind::Note && a.page == page && a.range == range {
                proof {
                    lemma_note_stays(
                        self@.annotations,
                        page,
                        range,
                        i + 1,
                        self@.annotations.len() as int,
                    );
                }
                return Some(i);
            }
            i += 1;
        }
        None
    }

    /// Marks a piece of text.
    pub fn annotate(&mut self, page: PageNo, range: TextRange, quads: Vec<Quad>, kind: AnnotKind)
        requires
            old(self)@.next_id < u64::MAX,
        ensures
            final(self)@ == old(self)@.annotated(page, range, quads@, kind),
    {
        let text = String::new();
        assert(text@ =~= Seq::<char>::empty());
        let a = Annotation {
            id: self.next_annot_id,
            page,
            range,
            quads,
            kind,
            text,
            marker: None,
        };
        self.next_annot_id = self.next_annot_id + 1;
        self.take_step(AnnotAction::Add(a));
        self.settle();
    }

    /// Takes a mark away; `false` where there is none with that number.
    pub fn remove_annotation(&mut self, id: u64) -> (r: bool)
        ensures
            r == (by_number(old(self)@.annotations, id) is Some),
            final(self)@ == old(self)@.removed(id),
    {
        match self.find(id) {
            None => false,
            Some(i) => {
                let a = self.annotations[i].clone();
                self.take_step(AnnotAction::Remove(a));
                self.settle();
                true
            },
        }
    }

    /// Writes a note, in the place of the one that was edited if there is one.
    pub fn save_note(
        &mut self,
        editing: Option<u64>,
        page: PageNo,
        range: TextRange,
        quads: Vec<Quad>,
        text: String,
    )
        requires
            old(self)@.next_id < u64::MAX,
        ensures
            final(self)@ == old(self)@.note_saved(editing, page, range, quads@, text@),
    {
        let at: Option<usize> = match editing {
            Some(id) => self.find(id),
            None => None,
        };
        let mut marker: Option<Point> = None;
        if let Some(i) = at {
            let old_note = self.annotations[i].clone();
            marker = old_note.marker;
            self.take_step(AnnotAction::Remove(old_note));
        }
        let a = Annotation {
            id: self.next_annot_id,
            page,
            range,
            quads,
            kind: AnnotKind::Note,
            text,
            marker,
        };
        self.next_annot_id = self.next_annot_id + 1;
        self.take_step(AnnotAction::Add(a));
        self.settle();
    }

    /// Puts the marker of the `i`-th mark elsewhere.
    pub fn move_marker(&mut self, i: usize, to: Point)
        requires
            i < old(self).annotations@.len(),
        ensures
            final(self)@ == old(self)@.marker_moved(old(self).annotations@[i as int]@, to),
    {
        let old_note = self.annotations[i].clone();
        let mut moved = self.annotations[i].clone();
        moved.marker = Some(to);
        self.take_step(AnnotAction::Remove(old_note));
        self.take_step(AnnotAction::Add(moved));
        self.settle();
    }

    /// Undoes the last step; `false` where there is none.
    pub fn annot_undo_once(&mut self) -> (r: bool)
        ensures
            r == (old(self)@.undo.len() > 0),
            final(self)@ == old(self)@.undone(),
    {
        match self.annot_undo.pop() {
            None => false,
            Some(action) => {
                assert(steps(old(self).annot_undo@).last() == action@);
                assert(steps(self.annot_undo@) =~= steps(old(self).annot_undo@).drop_last());
                let inverse = match &action {
                    AnnotAction::Add(a) => AnnotAction::Remove(a.clone()),
                    AnnotAction::Remove(a) => AnnotAction::Add(a.clone()),
                };
                self.apply_annot_action(inverse);
                let ghost before = self.annot_redo@;
                self.annot_redo.push(action);
                assert(steps(self.annot_redo@) =~= steps(before).push(action@));
                true
            },
        }
    }

    /// Redoes the step undone last; `false` where there is none.
    pub fn annot_redo_once(&mut self) -> (r: bool)
        ensures
            r == (old(self)@.redo.len() > 0),
            final(self)@ == old(self)@.redone(),
    {
        match self.annot_redo.pop() {
            None => false,
            Some(action) => {
                assert(steps(old(self).annot_redo@).last() == action@);
                assert(steps(self.annot_redo@) =~= steps(old(self).annot_redo@).drop_last());
                self.take_step(action);
                true
            },
        }
    }

    pub fn can_annot_undo(&self) -> (r: bool)
        ensures
            r == (self@.undo.len() > 0),
    {
        self.annot_undo.len() > 0
    }

    pub fn can_annot_redo(&self) -> (r: bool)
        ensures
            r == (self@.redo.len() > 0),
    {
        self.annot_redo.len() > 0
    }
}

proof fn lemma_found_stays(list: Seq<AnnotationView>, id: u64, m: int, n: int)
    requires
        m <= n,
        found(list, id, m) is Some,
    ensures
        found(list, id, n) == found(list, id, m),
    decreases n,
{
    if m < n {
        lemma_found_stays(list, id, m, n - 1);
    }
}

proof fn lemma_note_stays(list: Seq<AnnotationView>, page: PageNo, range: TextRange, m: int, n: int)
    requires
        m <= n,
        note_upto(list, page, range, m) is Some,
    ensures
        note_upto(list, page, range, n) == note_upto(list, page, range, m),
    decreases n,
{
    if m < n {
        lemma_note_stays(list, page, range, m, n - 1);
    }
}

/// The marks by their numbers.
pub open spec fn numbered(list: Seq<AnnotationView>) -> Map<u64, AnnotationView>
    decreases list.len(),
{
    if list.len() == 0 {
        Map::empty()
    } else {
        numbered(list.drop_last()).insert(list.last().id, list.last())
    }
}

/// Whether every step to undo fits the marks that it will find: what was
/// added is there, what was removed is not.
pub open spec fn undo_fits(marks: Map<u64, AnnotationView>, undo: Seq<AnnotActionView>) -> bool
    decreases undo.len(),
{
    if undo.len() == 0 {
        true
    } else {
        match undo.last() {
            AnnotActionView::Add(a) => marks.contains_pair(a.id, a) && undo_fits(
                marks.remove(a.id),
                undo.drop_last(),
            ),
            AnnotActionView::Remove(a) => !marks.contains_key(a.id) && undo_fits(
                marks.insert(a.id, a),
                undo.drop_last(),
            ),
        }
    }
}

/// Whether every step to redo fits the marks that it will find.
pub open spec fn redo_fits(marks: Map<u64, AnnotationView>, redo: Seq<AnnotActionView>) -> bool
    decreases redo.len(),
{
    if redo.len() == 0 {
        true
    } else {
        match redo.last() {
            AnnotActionView::Add(a) => !marks.contains_key(a.id) && redo_fits(
                marks.insert(a.id, a),
                redo.drop_last(),
            ),
            AnnotActionView::Remove(a) => marks.contains_pair(a.id, a) && redo_fits(
                marks.remove(a.id),
                redo.drop_last(),
            ),
        }
    }
}

/// Whether every number that a row of steps speaks of was given out.
pub open spec fn given_out(list: Seq<AnnotActionView>, next_id: u64) -> bool {
    forall|i: int| 0 <= i < list.len() ==> (#[trigger] list[i]).subject().id < next_id
}

impl MarksView {
    /// No number occurs twice or was not given out yet, and the steps to undo
    /// and to redo fit the marks.
    pub open spec fn wf(self) -> bool {
        &&& forall|i: int, j: int|
            0 <= i < j < self.annotations.len() ==> (#[trigger] self.annotations[i]).id != (
            #[trigger] self.annotations[j]).id
        &&& forall|i: int|
            0 <= i < self.annotations.len() ==> (#[trigger] self.annotations[i]).id < self.next_id
        &&& given_out(self.undo, self.next_id)
        &&& given_out(self.redo, self.next_id)
        &&& undo_fits(numbered(self.annotations), self.undo)
        &&& redo_fits(numbered(self.annotations), self.redo)
    }
}

/// Whether no number occurs twice.
pub open spec fn distinct(list: Seq<AnnotationView>) -> bool {
    forall|i: int, j: int|
        0 <= i < j < list.len() ==> (#[trigger] list[i]).id != (#[trigger] list[j]).id
}

proof fn lemma_numbered_domain(list: Seq<AnnotationView>)
    ensures
        forall|id: u64| #[trigger] numbered(list).contains_key(id) <==> has_id(list, id),
        forall|id: u64| #[trigger]
            numbered(list).contains_key(id) ==> numbered(list)[id].id == id,
    decreases list.len(),
{
    if list.len() > 0 {
        let front = list.drop_last();
        lemma_numbered_domain(front);
        assert forall|id: u64| #[trigger] numbered(list).contains_key(id) <==> has_id(list, id) by {
            if has_id(front, id) {
                let i = choose|i: int| 0 <= i < front.len() && (#[trigger] front[i]).id == id;
                assert(list[i].id == id);
            }
            if has_id(list, id) {
                let i = choose|i: int| 0 <= i < list.len() && (#[trigger] list[i]).id == id;
                if i < front.len() {
                    assert(front[i].id == id);
                }
            }
            if list.last().id == id {
                assert(list[list.len() - 1].id == id);
            }
        }
    }
}

pub(crate) proof fn lemma_without(list: Seq<AnnotationView>, id: u64)
    requires
        distinct(list),
    ensures
        distinct(without_id(list, id)),
        numbered(without_id(list, id)) == numbered(list).remove(id),
        forall|i: int|
            0 <= i < without_id(list, id).len() ==> (#[trigger] without_id(list, id)[i]).id != id
                && list.contains(without_id(list, id)[i]),
        !has_id(list, id) ==> without_id(list, id) == list,
    decreases list.len(),
{
    if list.len() > 0 {
        let front = list.drop_last();
        let rest = without_id(front, id);
        let out = without_id(list, id);
        assert forall|i: int, j: int| 0 <= i < j < front.len() implies (#[trigger] front[i]).id != (
        #[trigger] front[j]).id by {
            assert(list[i].id != list[j].id);
        }
        lemma_without(front, id);
        assert forall|i: int| 0 <= i < out.len() implies (#[trigger] out[i]).id != id
            && list.contains(out[i]) by {
            if i < rest.len() {
                assert(out[i] == rest[i]);
                let k = choose|k: int| 0 <= k < front.len() && front[k] == rest[i];
                assert(list[k] == out[i]);
            } else {
                assert(list[list.len() - 1] == out[i]);
            }
        }
        if list.last().id == id {
            assert(numbered(out) =~= numbered(list).remove(id)) by {
                lemma_numbered_domain(front);
            }
            assert(list[list.len() - 1].id == id);
        } else {
            assert(out.drop_last() =~= rest);
            assert(numbered(out) =~= numbered(list).remove(id));
            assert forall|i: int, j: int| 0 <= i < j < out.len() implies (#[trigger] out[i]).id != (
            #[trigger] out[j]).id by {
                if j == rest.len() {
                    let k = choose|k: int| 0 <= k < front.len() && front[k] == rest[i];
                    assert(list[k].id != list[list.len() - 1].id);
                }
            }
            if !has_id(list, id) {
                assert forall|i: int| 0 <= i < front.len() implies (#[trigger] front[i]).id != id by {
                    assert(list[i].id != id);
                }
                assert(out =~= list);
            }
        }
    }
}

pub(crate) proof fn lemma_pushed(list: Seq<AnnotationView>, a: AnnotationView)
    requires
        distinct(list),
        !has_id(list, a.id),
    ensures
        distinct(list.push(a)),
        numbered(list.push(a)) == numbered(list).insert(a.id, a),
{
    assert(list.push(a).drop_last() =~= list);
}

/// A step that fits the marks keeps the numbers apart, and does to the marks
/// by their numbers what it says.
proof fn lemma_step_numbered(list: Seq<AnnotationView>, action: AnnotActionView, limit: u64)
    requires
        distinct(list),
        forall|i: int| 0 <= i < list.len() ==> (#[trigger] list[i]).id < limit,
        action.subject().id < limit,
        action is Add ==> !has_id(list, action.subject().id),
    ensures
        distinct(after_step(list, action)),
        forall|i: int|
            0 <= i < after_step(list, action).len() ==> (#[trigger] after_step(list, action)[i]).id
                < limit,
        numbered(after_step(list, action)) == (match action {
            AnnotActionView::Add(a) => numbered(list).insert(a.id, a),
            AnnotActionView::Remove(a) => numbered(list).remove(a.id),
        }),
{
    match action {
        AnnotActionView::Add(a) => {
            lemma_pushed(list, a);
        },
        AnnotActionView::Remove(a) => {
            lemma_without(list, a.id);
        },
    }
}

pub(crate) proof fn lemma_by_number(list: Seq<AnnotationView>, id: u64, n: int)
    requires
        distinct(list),
        0 <= n <= list.len(),
    ensures
        match found(list, id, n) {
            Some(a) => a.id == id && numbered(list).contains_pair(id, a) && list.contains(a),
            None => forall|i: int| 0 <= i < n ==> (#[trigger] list[i]).id != id,
        },
    decreases n,
{
    if n > 0 {
        lemma_by_number(list, id, n - 1);
        if found(list, id, n - 1) is None && list[n - 1].id == id {
            lemma_numbered_at(list, n - 1);
        }
    }
}

proof fn lemma_numbered_at(list: Seq<AnnotationView>, i: int)
    requires
        distinct(list),
        0 <= i < list.len(),
    ensures
        numbered(list).contains_pair(list[i].id, list[i]),
    decreases list.len(),
{
    let front = list.drop_last();
    if i < front.len() {
        assert forall|i: int, j: int| 0 <= i < j < front.len() implies (#[trigger] front[i]).id != (
        #[trigger] front[j]).id by {
            assert(list[i].id != list[j].id);
        }
        lemma_numbered_at(front, i);
        assert(list[i].id != list[list.len() - 1].id);
    }
}

/// A document begins without marks, and there is nothing to undo or redo.
pub proof fn law_no_marks_fit()
    ensures
        MarksView::none().wf(),
{
}

proof fn lemma_take_step(m: MarksView, action: AnnotActionView, limit: u64)
    requires
        m.wf(),
        m.next_id <= limit,
        action.subject().id < limit,
        match action {
            AnnotActionView::Add(a) => !has_id(m.annotations, a.id),
            AnnotActionView::Remove(a) => numbered(m.annotations).contains_pair(a.id, a),
        },
    ensures
        (MarksView { next_id: limit, ..m.step(action) }).settled().wf(),
        m.next_id == limit ==> m.step(action).settled().wf(),
{
    lemma_step_numbered(m.annotations, action, limit);
    lemma_numbered_domain(m.annotations);
    let after = m.step(action);
    assert(after.undo.drop_last() =~= m.undo);
    let marks = numbered(m.annotations);
    match action {
        AnnotActionView::Add(a) => {
            assert(marks.insert(a.id, a).remove(a.id) =~= marks);
        },
        AnnotActionView::Remove(a) => {
            assert(marks.remove(a.id).insert(a.id, a) =~= marks);
        },
    }
}

proof fn lemma_settle(m: MarksView)
    requires
        m.wf(),
    ensures
        m.settled().wf(),
{
}

/// Every way to change the marks that are there keeps their numbers apart and
/// leaves steps that can all be undone, and redone.
pub proof fn law_changes_keep_marks_fit(m: MarksView, id: u64, to: Point)
    requires
        m.wf(),
    ensures
        m.removed(id).wf(),
        by_number(m.annotations, id) is Some ==> m.marker_moved(
            by_number(m.annotations, id)->0,
            to,
        ).wf(),
        m.undone().wf(),
        m.redone().wf(),
{
    lemma_by_number(m.annotations, id, m.annotations.len() as int);
    lemma_settle(m);
    if let Some(old) = by_number(m.annotations, id) {
        let rest = m.step(AnnotActionView::Remove(old)).settled();
        lemma_take_step(m, AnnotActionView::Remove(old), m.next_id);
        lemma_without(m.annotations, id);
        lemma_numbered_domain(rest.annotations);
        let moved = AnnotationView { marker: Some(to), ..old };
        lemma_take_step(rest, AnnotActionView::Add(moved), m.next_id);
        assert(m.marker_moved(old, to) == rest.step(AnnotActionView::Add(moved)).settled());
    }
    lemma_undo_fits_after(m);
    lemma_redo_fits_after(m);
}

/// A new mark keeps the numbers apart and leaves steps that can all be undone,
/// and redone, as long as there is a number for it.
pub proof fn law_new_marks_fit(
    m: MarksView,
    editing: Option<u64>,
    page: PageNo,
    range: TextRange,
    quads: Seq<Quad>,
    kind: AnnotKind,
    text: Seq<char>,
)
    requires
        m.wf(),
        m.next_id < u64::MAX,
    ensures
        m.annotated(page, range, quads, kind).wf(),
        m.note_saved(editing, page, range, quads, text).wf(),
{
    let next = (m.next_id + 1) as u64;
    let mark = AnnotationView {
        id: m.next_id,
        page,
        range,
        quads,
        kind,
        text: Seq::empty(),
        marker: None,
    };
    lemma_take_step(m, AnnotActionView::Add(mark), next);
    lemma_settle(m);
    lemma_save_fits(m, editing, page, range, quads, text);
}

proof fn lemma_save_fits(
    m: MarksView,
    editing: Option<u64>,
    page: PageNo,
    range: TextRange,
    quads: Seq<Quad>,
    text: Seq<char>,
)
    requires
        m.wf(),
        m.next_id < u64::MAX,
    ensures
        m.note_saved(editing, page, range, quads, text).wf(),
{
    let next = (m.next_id + 1) as u64;
    let previous = match editing {
        Some(id) => by_number(m.annotations, id),
        None => None,
    };
    let base = match previous {
        Some(old) => m.step(AnnotActionView::Remove(old)),
        None => m,
    };
    lemma_settle(m);
    if let Some(old) = previous {
        lemma_by_number(m.annotations, editing->0, m.annotations.len() as int);
        lemma_take_step(m, AnnotActionView::Remove(old), m.next_id);
        lemma_without(m.annotations, old.id);
    }
    let note = AnnotationView {
        id: m.next_id,
        page,
        range,
        quads,
        kind: AnnotKind::Note,
        text,
        marker: match previous {
            Some(old) => old.marker,
            None => None,
        },
    };
    lemma_take_step(base.settled(), AnnotActionView::Add(note), next);
    assert(m.note_saved(editing, page, range, quads, text) == (MarksView {
        next_id: next,
        ..base.settled().step(AnnotActionView::Add(note))
    }).settled());
}

proof fn lemma_undo_fits_after(m: MarksView)
    requires
        m.wf(),
    ensures
        m.undone().wf(),
{
    if m.undo.len() > 0 {
        let action = m.undo.last();
        let marks = numbered(m.annotations);
        assert(m.undo[m.undo.len() - 1].subject().id < m.next_id);
        lemma_numbered_domain(m.annotations);
        lemma_step_numbered(m.annotations, action.inverse(), m.next_id);
        let after = m.undone();
        assert(after.redo.drop_last() =~= m.redo);
        match action {
            AnnotActionView::Add(a) => {
                assert(marks.remove(a.id).insert(a.id, a) =~= marks);
            },
            AnnotActionView::Remove(a) => {
                assert(marks.insert(a.id, a).remove(a.id) =~= marks);
            },
        }
    }
}

proof fn lemma_redo_fits_after(m: MarksView)
    requires
        m.wf(),
    ensures
        m.redone().wf(),
{
    if m.redo.len() > 0 {
        let action = m.redo.last();
        let marks = numbered(m.annotations);
        assert(m.redo[m.redo.len() - 1].subject().id < m.next_id);
        lemma_numbered_domain(m.annotations);
        lemma_step_numbered(m.annotations, action, m.next_id);
        let after = m.redone();
        assert(after.undo.drop_last() =~= m.undo);
        match action {
            AnnotActionView::Add(a) => {
                assert(marks.insert(a.id, a).remove(a.id) =~= marks);
            },
            AnnotActionView::Remove(a) => {
                assert(marks.remove(a.id).insert(a.id, a) =~= marks);
            },
        }
    }
}

/// What is undone and then redone is as it was: the same marks under the same
/// numbers, and the same steps to undo and to redo.
pub proof fn law_redo_reverts_undo(m: MarksView)
    requires
        m.wf(),
        m.undo.len() > 0,
    ensures
        numbered(m.undone().redone().annotations) == numbered(m.annotations),
        m.undone().redone().undo == m.undo,
        m.undone().redone().redo == m.redo,
{
    let action = m.undo.last();
    let marks = numbered(m.annotations);
    assert(m.undo[m.undo.len() - 1].subject().id < m.next_id);
    lemma_undo_fits_after(m);
    lemma_numbered_domain(m.annotations);
    lemma_step_numbered(m.annotations, action.inverse(), m.next_id);
    let u = m.undone();
    lemma_numbered_domain(u.annotations);
    assert(u.redo.drop_last() =~= m.redo);
    lemma_step_numbered(u.annotations, action, m.next_id);
    assert(u.redone().undo =~= m.undo);
    match action {
        AnnotActionView::Add(a) => {
            assert(marks.remove(a.id).insert(a.id, a) =~= marks);
        },
        AnnotActionView::Remove(a) => {
            assert(marks.insert(a.id, a).remove(a.id) =~= marks);
        },
    }
}

/// What is redone and then undone is as it was.
pub proof fn law_undo_reverts_redo(m: MarksView)
    requires
        m.wf(),
        m.redo.len() > 0,
    ensures
        numbered(m.redone().undone().annotations) == numbered(m.annotations),
        m.redone().undone().undo == m.undo,
        m.redone().undone().redo == m.redo,
{
    let action = m.redo.last();
    let marks = numbered(m.annotations);
    assert(m.redo[m.redo.len() - 1].subject().id < m.next_id);
    lemma_redo_fits_after(m);
    lemma_numbered_domain(m.annotations);
    lemma_step_numbered(m.annotations, action, m.next_id);
    let r = m.redone();
    lemma_numbered_domain(r.annotations);
    assert(r.undo.drop_last() =~= m.undo);
    lemma_step_numbered(r.annotations, action.inverse(), m.next_id);
    assert(r.undone().redo =~= m.redo);
    match action {
        AnnotActionView::Add(a) => {
            assert(marks.insert(a.id, a).remove(a.id) =~= marks);
        },
        AnnotActionView::Remove(a) => {
            assert(marks.remove(a.id).insert(a.id, a) =~= marks);
        },
    }
}

/// Undoing takes a new mark away again: the marks are those from before, in
/// the same order.
pub proof fn law_undo_takes_mark_away(
    m: MarksView,
    page: PageNo,
    range: TextRange,
    quads: Seq<Quad>,
    kind: AnnotKind,
)
    requires
        m.wf(),
        m.next_id < u64::MAX,
    ensures
        m.annotated(page, range, quads, kind).undone().annotations == m.annotations,
        m.annotated(page, range, quads, kind).undone().undo == m.undo,
{
    let after = m.annotated(page, range, quads, kind);
    let a = after.undo.last().subject();
    assert(after.annotations =~= m.annotations.push(a));
    assert(after.annotations.drop_last() =~= m.annotations);
    lemma_without(m.annotations, a.id);
    assert(after.undo.drop_last() =~= m.undo);
}

/// Undoing brings a mark back that was taken away.
pub proof fn law_undo_brings_mark_back(m: MarksView, id: u64)
    requires
        m.wf(),
        by_number(m.annotations, id) is Some,
    ensures
        numbered(m.removed(id).undone().annotations) == numbered(m.annotations),
        m.removed(id).undone().undo == m.undo,
{
    lemma_by_number(m.annotations, id, m.annotations.len() as int);
    let a = by_number(m.annotations, id)->0;
    let marks = numbered(m.annotations);
    lemma_take_step(m, AnnotActionView::Remove(a), m.next_id);
    lemma_without(m.annotations, id);
    let after = m.removed(id);
    lemma_numbered_domain(after.annotations);
    lemma_step_numbered(after.annotations, AnnotActionView::Add(a), m.next_id);
    assert(marks.remove(a.id).insert(a.id, a) =~= marks);
    assert(after.undo.drop_last() =~= m.undo);
}

/// Undoing an edited note twice brings back what it said before.
pub proof fn law_undo_twice_restores_note(
    m: MarksView,
    id: u64,
    page: PageNo,
    range: TextRange,
    quads: Seq<Quad>,
    text: Seq<char>,
)
    requires
        m.wf(),
        m.next_id < u64::MAX,
        by_number(m.annotations, id) is Some,
    ensures
        numbered(
            m.note_saved(Some(id), page, range, quads, text).undone().undone().annotations,
        ) == numbered(m.annotations),
        m.note_saved(Some(id), page, range, quads, text).undone().undone().undo == m.undo,
{
    let old = by_number(m.annotations, id)->0;
    let base = m.step(AnnotActionView::Remove(old));
    let after = m.note_saved(Some(id), page, range, quads, text);
    let note = after.undo.last().subject();
    lemma_by_number(m.annotations, id, m.annotations.len() as int);
    lemma_without(m.annotations, id);
    lemma_numbered_domain(base.annotations);
    assert(!has_id(base.annotations, note.id));
    assert(after.annotations =~= base.annotations.push(note));
    assert(after.annotations.drop_last() =~= base.annotations);
    lemma_without(base.annotations, note.id);
    let once = after.undone();
    assert(once.annotations == base.annotations);
    assert(once.undo =~= base.undo);
    assert(base.undo.drop_last() =~= m.undo);
    lemma_step_numbered(base.annotations, AnnotActionView::Add(old), m.next_id);
    assert(numbered(m.annotations).remove(id).insert(id, old) =~= numbered(m.annotations));
}

/// A new mark leaves nothing to redo, and so does one that is taken away.
pub proof fn law_new_steps_end_redo(
    m: MarksView,
    id: u64,
    page: PageNo,
    range: TextRange,
    quads: Seq<Quad>,
    kind: AnnotKind,
)
    ensures
        m.annotated(page, range, quads, kind).redo.len() == 0,
        by_number(m.annotations, id) is Some ==> m.removed(id).redo.len() == 0,
{
}

} // verus!
