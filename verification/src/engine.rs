//! What the page engine decides: which documents it serves, how large a page
//! may be rendered, what is written into a marked copy, and what is made of
//! the text and the table of contents that it reads.

use vstd::prelude::*;

use crate::annot::{annots, AnnotKind, Annotation, AnnotationView};
use crate::cache::quarter;
use crate::numbers::{trim, trimmed};
use crate::native::{kind_of, look_at, PathKind};
use crate::page::{
    glyphs_text, grown, Coord, EngineError, Glyph, LineBox, Outline, OutlineItem, PageNo, Quad, TextLayer,
};
use crate::paths::{below, file_name, folder_of, join_path, name_of, parent_of};
use crate::search::{nfc, nfc_of};
use crate::text::{chars_of, joined, push_text};

verus! {

/// The most pixels on a side.
pub const MAX_RENDER_SIDE: u32 = 16_384;

/// The most pixels of a bitmap.
pub const MAX_RENDER_PIXELS: u32 = 64_000_000;

/// What is said of a page that would be too large.
pub open spec fn too_large() -> Seq<char> {
    "página grande demais para renderizar nesta escala"@
}

/// What is said of a size that makes no sense.
pub open spec fn invalid() -> Seq<char> {
    "dimensão de render inválida"@
}

/// What is said to a request for a document that is not open any more.
pub open spec fn gone() -> Seq<char> {
    "documento fechado"@
}

/// What is said of a mark on a page that is not there.
pub open spec fn out_of_range() -> Seq<char> {
    "página da marcação fora do intervalo"@
}

fn fail_too_large() -> (e: EngineError)
    ensures
        e.0@ == too_large(),
{
    EngineError("página grande demais para renderizar nesta escala".to_owned())
}

fn fail_invalid() -> (e: EngineError)
    ensures
        e.0@ == invalid(),
{
    EngineError("dimensão de render inválida".to_owned())
}

/// The documents that the engine serves, by the numbers that it gave out.
#[derive(Debug)]
pub struct Registry {
    pub open: Vec<u64>,
    pub next_id: u64,
}

/// What the engine serves.
pub struct RegistryView {
    pub open: Set<u64>,
    pub next_id: u64,
}

impl View for Registry {
    type V = RegistryView;

    open spec fn view(&self) -> RegistryView {
        RegistryView { open: self.open@.to_set(), next_id: self.next_id }
    }
}

impl RegistryView {
    /// Every document that is served has a number that was given out.
    pub open spec fn wf(self) -> bool {
        forall|id: u64| #[trigger] self.open.contains(id) ==> id < self.next_id
    }

    pub open spec fn opened(self) -> RegistryView {
        RegistryView {
            open: self.open.insert(self.next_id),
            next_id: (self.next_id + 1) as u64,
        }
    }

    pub open spec fn closed(self, doc_id: u64) -> RegistryView {
        RegistryView { open: self.open.remove(doc_id), ..self }
    }
}

impl Registry {
    pub fn new() -> (r: Registry)
        ensures
            r@ == (RegistryView { open: Set::empty(), next_id: 1 }),
            r@.wf(),
    {
        let r = Registry { open: Vec::new(), next_id: 1 };
        assert(r@.open =~= Set::<u64>::empty());
        r
    }

    /// A document was loaded, or was not; `library` says why none can be.
    /// The number that it is served under, and how many pages it has.
    pub fn open(&mut self, library: Result<(), String>, loaded: Result<u32, String>) -> (r: Result<
        (u64, u32),
        EngineError,
    >)
        requires
            old(self)@.wf(),
            library is Ok && loaded is Ok ==> old(self)@.next_id < u64::MAX,
        ensures
            final(self)@.wf(),
            match (library, loaded) {
                (Err(e), _) => r is Err && r->Err_0.0@ == e@ && final(self)@ == old(self)@,
                (Ok(_), Err(e)) => r is Err && r->Err_0.0@ == "não foi possível abrir o PDF: "@
                    + e@ && final(self)@ == old(self)@,
                (Ok(_), Ok(count)) => r == Ok::<(u64, u32), EngineError>(
                    (old(self)@.next_id, count),
                ) && final(self)@ == old(self)@.opened(),
            },
    {
        if let Err(e) = library {
            return Err(EngineError(e));
        }
        match loaded {
            Err(e) => Err(EngineError(joined("não foi possível abrir o PDF: ", e.as_str()))),
            Ok(count) => {
                let doc_id: u64 = self.next_id;
                let ghost before = self.open@;
                self.open.push(doc_id);
                self.next_id = doc_id + 1;
                proof {
                    assert forall|id: u64| before.to_set().insert(doc_id).contains(id) implies self.open@.contains(
                        id,
                    ) by {
                        if id == doc_id {
                            assert(self.open@[before.len() as int] == id);
                        } else {
                            let k = choose|k: int| 0 <= k < before.len() && before[k] == id;
                            assert(self.open@[k] == id);
                        }
                    }
                    assert(self@.open =~= old(self)@.open.insert(doc_id));
                }
                Ok((doc_id, count))
            },
        }
    }

    /// Lets go of a document.
    pub fn close(&mut self, doc_id: u64)
        requires
            old(self)@.wf(),
        ensures
            final(self)@ == old(self)@.closed(doc_id),
            final(self)@.wf(),
    {
        let mut kept: Vec<u64> = Vec::new();
        let mut i: usize = 0;
        while i < self.open.len()
            invariant
                *self == *old(self),
                i <= self.open@.len(),
                forall|id: u64| #[trigger]
                    kept@.contains(id) ==> id != doc_id && self.open@.contains(id),
                forall|j: int| 0 <= j < i && self.open@[j] != doc_id ==> kept@.contains(
                    #[trigger] self.open@[j],
                ),
            decreases self.open@.len() - i,
        {
            let id: u64 = self.open[i];
            let ghost before = kept@;
            if id != doc_id {
                kept.push(id);
                assert forall|q: u64| #[trigger] kept@.contains(q) implies q != doc_id
                    && self.open@.contains(q) by {
                    let k = choose|k: int| 0 <= k < kept@.len() && kept@[k] == q;
                    if k < before.len() {
                        assert(before.contains(before[k]));
                    } else {
                        assert(self.open@[i as int] == q);
                    }
                }
                assert forall|j: int| 0 <= j < i + 1 && self.open@[j] != doc_id implies kept@.contains(
                    #[trigger] self.open@[j],
                ) by {
                    if j < i {
                        let k = choose|k: int| 0 <= k < before.len() && before[k] == self.open@[j];
                        assert(kept@[k] == self.open@[j]);
                    } else {
                        assert(kept@[before.len() as int] == id);
                    }
                }
            }
            i += 1;
        }
        proof {
            assert forall|id: u64| kept@.to_set().contains(id) <==> self.open@.to_set().remove(
                doc_id,
            ).contains(id) by {
                if self.open@.contains(id) && id != doc_id {
                    let j = choose|j: int| 0 <= j < self.open@.len() && self.open@[j] == id;
                    assert(kept@.contains(self.open@[j]));
                }
            }
            assert(kept@.to_set() =~= self.open@.to_set().remove(doc_id));
        }
        self.open = kept;
    }

    /// Whether a request can be answered: its document is still open.
    pub fn with_doc(&self, doc_id: u64) -> (r: Result<(), EngineError>)
        ensures
            r is Ok <==> self@.open.contains(doc_id),
            r is Err ==> r->Err_0.0@ == gone(),
    {
        let mut i: usize = 0;
        while i < self.open.len()
            invariant
                i <= self.open@.len(),
                forall|j: int| 0 <= j < i ==> self.open@[j] != doc_id,
            decreases self.open@.len() - i,
        {
            if self.open[i] == doc_id {
                return Ok(());
            }
            i += 1;
        }
        Err(EngineError("documento fechado".to_owned()))
    }
}

/// A document that is opened gets a number that no other has or had, and is
/// served until it is closed, and not after.
pub proof fn law_documents_keep_apart(r: RegistryView, doc_id: u64)
    requires
        r.wf(),
        r.next_id < u64::MAX,
    ensures
        r.opened().wf(),
        !r.open.contains(r.next_id),
        r.opened().open.contains(r.next_id),
        r.opened().next_id > r.next_id,
        !r.closed(doc_id).open.contains(doc_id),
        r.closed(doc_id).next_id == r.next_id,
        forall|other: u64|
            other != doc_id ==> (#[trigger] r.closed(doc_id).open.contains(other)
                <==> r.open.contains(other)),
{
}

/// A size in pixels.
#[derive(Debug, Clone, Copy, PartialEq, Eq, Structural)]
pub struct RenderTarget {
    pub width: i32,
    pub height: i32,
}

/// Whether a measure is a number above zero.
pub open spec fn usable(value: Coord) -> bool {
    value.finite() && value.0 > 0
}

fn is_usable(value: Coord) -> (r: bool)
    ensures
        r == usable(value),
{
    value.is_finite() && value.0 > 0
}

/// The pixels of a side, from its length and that length rounded: one at
/// least, and no more than is allowed.
pub open spec fn side_px(value: Coord, rounded: i64) -> Result<u32, Seq<char>> {
    if !value.finite() || rounded < 0 {
        Err(invalid())
    } else if rounded < 1 {
        Ok(1)
    } else if rounded > MAX_RENDER_SIDE {
        Err(too_large())
    } else {
        Ok(rounded as u32)
    }
}

/// The pixels of a side, from its length and that length rounded.
pub fn px_from_rounded(value: Coord, rounded: i64) -> (r: Result<u32, EngineError>)
    ensures
        match side_px(value, rounded) {
            Ok(px) => r == Ok::<u32, EngineError>(px),
            Err(e) => r is Err && r->Err_0.0@ == e,
        },
{
    if !value.is_finite() || rounded < 0 {
        return Err(fail_invalid());
    }
    if rounded < 1 {
        return Ok(1);
    }
    if rounded > MAX_RENDER_SIDE as i64 {
        return Err(fail_too_large());
    }
    Ok(rounded as u32)
}

/// A side of a page that is to be rendered: its length, that length scaled,
/// the scaled length rounded, and the scale that the rounded length comes to.
#[derive(Debug, Clone, Copy, PartialEq, Eq, Structural)]
pub struct Side {
    pub length: Coord,
    pub scaled: Coord,
    pub rounded: i64,
    pub effective: Coord,
}

/// The size of a page in pixels, or why it cannot be rendered: lengths and
/// factor are to be numbers above zero, the sides and the pixels no more than
/// is allowed, and the scale that comes of it a number above zero.
pub open spec fn target_of(width: Side, height: Side, factor: Coord) -> Result<
    RenderTarget,
    Seq<char>,
> {
    if !usable(width.length) || !usable(height.length) || !usable(factor) {
        Err(invalid())
    } else if !width.scaled.finite() || !height.scaled.finite() {
        Err(invalid())
    } else {
        match (
            side_px(width.scaled, width.rounded),
            side_px(height.scaled, height.rounded),
        ) {
            (Err(e), _) => Err(e),
            (Ok(_), Err(e)) => Err(e),
            (Ok(w), Ok(h)) => if w * h > MAX_RENDER_PIXELS {
                Err(too_large())
            } else if !usable(width.effective) || !usable(height.effective) {
                Err(invalid())
            } else {
                Ok(RenderTarget { width: w as i32, height: h as i32 })
            },
        }
    }
}

/// The size of a page in pixels, or why it cannot be rendered.
pub fn render_target_px(width: Side, height: Side, factor: Coord) -> (r: Result<
    RenderTarget,
    EngineError,
>)
    ensures
        match target_of(width, height, factor) {
            Ok(target) => r == Ok::<RenderTarget, EngineError>(target),
            Err(e) => r is Err && r->Err_0.0@ == e,
        },
{
    if !is_usable(width.length) || !is_usable(height.length) || !is_usable(factor) {
        return Err(fail_invalid());
    }
    if !width.scaled.is_finite() || !height.scaled.is_finite() {
        return Err(fail_invalid());
    }
    let w: u32 = match px_from_rounded(width.scaled, width.rounded) {
        Ok(px) => px,
        Err(e) => {
            return Err(e);
        },
    };
    let h: u32 = match px_from_rounded(height.scaled, height.rounded) {
        Ok(px) => px,
        Err(e) => {
            return Err(e);
        },
    };
    assert(w * h <= 16_384 * 16_384) by (nonlinear_arith)
        requires
            w <= 16_384,
            h <= 16_384,
    ;
    if w * h > MAX_RENDER_PIXELS {
        return Err(fail_too_large());
    }
    if !is_usable(width.effective) || !is_usable(height.effective) {
        return Err(fail_invalid());
    }
    Ok(RenderTarget { width: w as i32, height: h as i32 })
}

/// What is rendered is never larger than is allowed, and never empty.
pub proof fn law_targets_are_bounded(width: Side, height: Side, factor: Coord)
    ensures
        target_of(width, height, factor) is Ok ==> {
            let target = target_of(width, height, factor)->Ok_0;
            &&& 1 <= target.width <= MAX_RENDER_SIDE
            &&& 1 <= target.height <= MAX_RENDER_SIDE
            &&& target.width * target.height <= MAX_RENDER_PIXELS
        },
{
}

/// The number of a page as the engine takes it.
pub fn page_index(page: PageNo) -> (r: Result<u16, EngineError>)
    ensures
        page.0 <= u16::MAX ==> r == Ok::<u16, EngineError>(page.0 as u16),
        page.0 > u16::MAX ==> r is Err && r->Err_0.0@ == "página fora do intervalo"@,
{
    if page.0 <= 0xffff {
        Ok(page.0 as u16)
    } else {
        Err(EngineError("página fora do intervalo".to_owned()))
    }
}

/// A turn of a page, clockwise.
#[derive(Debug, Clone, Copy, PartialEq, Eq, Structural)]
pub enum Rotation {
    Degrees0,
    Degrees90,
    Degrees180,
    Degrees270,
}

/// The turn that a number of quarter turns comes to.
pub fn rotation_for(quarter_turns: u8) -> (r: Rotation)
    ensures
        r == (match quarter(quarter_turns) {
            0u8 => Rotation::Degrees0,
            1u8 => Rotation::Degrees90,
            2u8 => Rotation::Degrees180,
            _ => Rotation::Degrees270,
        }),
{
    match quarter_turns & 3 {
        0 => Rotation::Degrees0,
        1 => Rotation::Degrees90,
        2 => Rotation::Degrees180,
        _ => Rotation::Degrees270,
    }
}

/// The box round the first `n` of some rectangles.
pub open spec fn box_upto(quads: Seq<Quad>, n: int) -> Option<LineBox>
    decreases n,
{
    if n <= 0 {
        None
    } else {
        match box_upto(quads, n - 1) {
            None => Some(quads[n - 1].bounds()),
            Some(b) => Some(grown(b, quads[n - 1].bounds())),
        }
    }
}

/// The box round some rectangles; none round none.
pub fn quads_bounds(quads: &Vec<Quad>) -> (r: Option<LineBox>)
    ensures
        r == box_upto(quads@, quads@.len() as int),
        r is Some <==> quads@.len() > 0,
{
    let mut r: Option<LineBox> = None;
    let mut i: usize = 0;
    while i < quads.len()
        invariant
            i <= quads@.len(),
            r == box_upto(quads@, i as int),
            r is Some <==> i > 0,
        decreases quads@.len() - i,
    {
        let b = quads[i].bbox();
        r = Some(
            match r {
                None => b,
                Some(a) => (
                    a.0.lower(b.0),
                    a.1.lower(b.1),
                    a.2.higher(b.2),
                    a.3.higher(b.3),
                ),
            },
        );
        i += 1;
    }
    r
}

/// What is written into a copy for a mark: lines with the box round them, or
/// a note with the corner that it stands at.
#[derive(Debug)]
pub enum MarkPlan {
    Lines { kind: AnnotKind, bounds: LineBox, quads: Vec<Quad> },
    Note { left: Coord, top: Coord, text: String },
}

/// What is written for a mark.
pub enum MarkPlanView {
    Lines { kind: AnnotKind, bounds: LineBox, quads: Seq<Quad> },
    Note { left: Coord, top: Coord, text: Seq<char> },
}

impl View for MarkPlan {
    type V = MarkPlanView;

    open spec fn view(&self) -> MarkPlanView {
        match self {
            MarkPlan::Lines { kind, bounds, quads } => MarkPlanView::Lines {
                kind: *kind,
                bounds: *bounds,
                quads: quads@,
            },
            MarkPlan::Note { left, top, text } => MarkPlanView::Note {
                left: *left,
                top: *top,
                text: text@,
            },
        }
    }
}

/// What is written for a mark; nothing for one without lines, nor for a note
/// that says nothing.
pub open spec fn plan_of(a: AnnotationView) -> Option<MarkPlanView> {
    if a.quads.len() == 0 {
        None
    } else if a.kind == AnnotKind::Note {
        if trimmed(a.text).len() == 0 {
            None
        } else {
            Some(
                MarkPlanView::Note {
                    left: a.quads[0].bounds().0,
                    top: a.quads[0].bounds().3,
                    text: a.text,
                },
            )
        }
    } else {
        Some(
            MarkPlanView::Lines {
                kind: a.kind,
                bounds: box_upto(a.quads, a.quads.len() as int)->0,
                quads: a.quads,
            },
        )
    }
}

fn plan_mark(a: &Annotation) -> (r: Option<MarkPlan>)
    ensures
        match plan_of(a@) {
            Some(plan) => r is Some && r->0@ == plan,
            None => r is None,
        },
{
    if a.kind == AnnotKind::Note {
        let said = trim(a.text.as_str());
        if a.quads.len() == 0 || said.as_str().is_empty() {
            return None;
        }
        let b = a.quads[0].bbox();
        return Some(MarkPlan::Note { left: b.0, top: b.3, text: a.text.clone() });
    }
    match quads_bounds(&a.quads) {
        None => None,
        Some(bounds) => Some(
            MarkPlan::Lines {
                kind: a.kind,
                bounds,
                quads: crate::annot::copy_quads(&a.quads),
            },
        ),
    }
}

/// What is written on a page.
#[derive(Debug)]
pub struct PagePlan {
    pub page: PageNo,
    pub marks: Vec<MarkPlan>,
}

/// What is written on a page.
pub struct PagePlanView {
    pub page: PageNo,
    pub marks: Seq<MarkPlanView>,
}

/// What is written for each mark.
pub open spec fn mark_views(list: Seq<MarkPlan>) -> Seq<MarkPlanView> {
    list.map_values(|m: MarkPlan| m@)
}

impl View for PagePlan {
    type V = PagePlanView;

    open spec fn view(&self) -> PagePlanView {
        PagePlanView { page: self.page, marks: mark_views(self.marks@) }
    }
}

/// What is written on each page.
pub open spec fn page_views(list: Seq<PagePlan>) -> Seq<PagePlanView> {
    list.map_values(|p: PagePlan| p@)
}

/// What is written on a page for the first `n` marks, in their order.
pub open spec fn marks_upto(list: Seq<AnnotationView>, page: PageNo, n: int) -> Seq<MarkPlanView>
    decreases n,
{
    if n <= 0 {
        Seq::empty()
    } else {
        let front = marks_upto(list, page, n - 1);
        match plan_of(list[n - 1]) {
            Some(plan) if list[n - 1].page == page => front.push(plan),
            _ => front,
        }
    }
}

/// Whether a page has a mark among the first `n`.
pub open spec fn marked_upto(list: Seq<AnnotationView>, page: PageNo, n: int) -> bool
    decreases n,
{
    n > 0 && (list[n - 1].page == page || marked_upto(list, page, n - 1))
}

/// What is written on the first `n` pages: those without marks are left alone.
pub open spec fn pages_upto(list: Seq<AnnotationView>, n: int) -> Seq<PagePlanView>
    decreases n,
{
    if n <= 0 {
        Seq::empty()
    } else {
        let page = PageNo((n - 1) as u32);
        let front = pages_upto(list, n - 1);
        if marked_upto(list, page, list.len() as int) {
            front.push(PagePlanView { page, marks: marks_upto(list, page, list.len() as int) })
        } else {
            front
        }
    }
}

/// Whether every mark is on a page of the document.
pub open spec fn all_in_document(list: Seq<AnnotationView>, page_count: u32) -> bool {
    forall|i: int| 0 <= i < list.len() ==> (#[trigger] list[i]).page.0 < page_count
}

fn page_plan(annotations: &Vec<Annotation>, page: PageNo) -> (r: Option<PagePlan>)
    ensures
        match r {
            Some(plan) => marked_upto(
                annots(annotations@),
                page,
                annotations@.len() as int,
            ) && plan@ == (PagePlanView {
                page,
                marks: marks_upto(annots(annotations@), page, annotations@.len() as int),
            }),
            None => !marked_upto(annots(annotations@), page, annotations@.len() as int),
        },
{
    let ghost list = annots(annotations@);
    let mut marks: Vec<MarkPlan> = Vec::new();
    let mut marked = false;
    let mut i: usize = 0;
    assert(mark_views(marks@) =~= marks_upto(list, page, 0));
    while i < annotations.len()
        invariant
            list == annots(annotations@),
            i <= annotations@.len(),
            marked == marked_upto(list, page, i as int),
            mark_views(marks@) == marks_upto(list, page, i as int),
        decreases annotations@.len() - i,
    {
        assert(list[i as int] == annotations@[i as int]@);
        if annotations[i].page == page {
            marked = true;
            let ghost before = marks@;
            match plan_mark(&annotations[i]) {
                Some(plan) => {
                    marks.push(plan);
                    assert(mark_views(marks@) =~= mark_views(before).push(plan@));
                },
                None => {},
            }
        }
        i += 1;
    }
    if marked {
        Some(PagePlan { page, marks })
    } else {
        None
    }
}

/// What is written into a marked copy, page by page. A mark on a page that is
/// not there stops it before anything is written.
pub fn plan_copy(annotations: &Vec<Annotation>, page_count: u16) -> (r: Result<
    Vec<PagePlan>,
    EngineError,
>)
    ensures
        all_in_document(annots(annotations@), page_count as u32) ==> r is Ok && page_views(
            r->Ok_0@,
        ) == pages_upto(annots(annotations@), page_count as int),
        !all_in_document(annots(annotations@), page_count as u32) ==> r is Err && r->Err_0.0@
            == out_of_range(),
{
    let ghost list = annots(annotations@);
    let mut i: usize = 0;
    while i < annotations.len()
        invariant
            list == annots(annotations@),
            i <= annotations@.len(),
            forall|j: int| 0 <= j < i ==> (#[trigger] list[j]).page.0 < page_count,
        decreases annotations@.len() - i,
    {
        assert(list[i as int] == annotations@[i as int]@);
        if annotations[i].page.0 >= page_count as u32 {
            assert(list[i as int].page.0 >= page_count);
            return Err(EngineError("página da marcação fora do intervalo".to_owned()));
        }
        i += 1;
    }
    let mut pages: Vec<PagePlan> = Vec::new();
    let mut n: u16 = 0;
    assert(page_views(pages@) =~= pages_upto(list, 0));
    while n < page_count
        invariant
            list == annots(annotations@),
            n <= page_count,
            page_views(pages@) == pages_upto(list, n as int),
        decreases page_count - n,
    {
        let ghost before = pages@;
        match page_plan(annotations, PageNo::from_index(n as u32)) {
            Some(plan) => {
                pages.push(plan);
                assert(page_views(pages@) =~= page_views(before).push(plan@));
            },
            None => {},
        }
        n += 1;
    }
    Ok(pages)
}

proof fn lemma_mark_planned(list: Seq<AnnotationView>, page: PageNo, n: int, i: int)
    requires
        0 <= i < n <= list.len(),
        list[i].page == page,
        plan_of(list[i]) is Some,
    ensures
        marks_upto(list, page, n).contains(plan_of(list[i])->0),
        marked_upto(list, page, n),
    decreases n,
{
    let plan = plan_of(list[i])->0;
    if i == n - 1 {
        let front = marks_upto(list, page, n - 1);
        assert(marks_upto(list, page, n)[front.len() as int] == plan);
    } else {
        lemma_mark_planned(list, page, n - 1, i);
        let front = marks_upto(list, page, n - 1);
        let k = choose|k: int| 0 <= k < front.len() && front[k] == plan;
        assert(marks_upto(list, page, n)[k] == plan);
    }
}

proof fn lemma_page_planned(list: Seq<AnnotationView>, page: PageNo, n: int)
    requires
        page.0 < n <= 0x1_0000_0000,
        marked_upto(list, page, list.len() as int),
    ensures
        pages_upto(list, n).contains(
            PagePlanView { page, marks: marks_upto(list, page, list.len() as int) },
        ),
    decreases n,
{
    let plan = PagePlanView { page, marks: marks_upto(list, page, list.len() as int) };
    let front = pages_upto(list, n - 1);
    if page.0 == n - 1 {
        assert(pages_upto(list, n)[front.len() as int] == plan);
    } else {
        lemma_page_planned(list, page, n - 1);
        let k = choose|k: int| 0 <= k < front.len() && front[k] == plan;
        assert(pages_upto(list, n)[k] == plan);
    }
}

/// Every mark that can be written is written on its page.
pub proof fn law_every_mark_is_written(list: Seq<AnnotationView>, page_count: u16, i: int)
    requires
        all_in_document(list, page_count as u32),
        0 <= i < list.len(),
        plan_of(list[i]) is Some,
    ensures
        exists|k: int|
            0 <= k < pages_upto(list, page_count as int).len() && (#[trigger] pages_upto(
                list,
                page_count as int,
            )[k]).page == list[i].page && pages_upto(list, page_count as int)[k].marks.contains(
                plan_of(list[i])->0,
            ),
{
    let page = list[i].page;
    lemma_mark_planned(list, page, list.len() as int, i);
    lemma_page_planned(list, page, page_count as int);
    let plan = PagePlanView { page, marks: marks_upto(list, page, list.len() as int) };
    let pages = pages_upto(list, page_count as int);
    let k = choose|k: int| 0 <= k < pages.len() && pages[k] == plan;
    assert(pages[k].page == page);
}

/// A document without marks is copied as it is.
pub proof fn law_copy_without_marks_changes_nothing(page_count: u16)
    ensures
        pages_upto(Seq::empty(), page_count as int) == Seq::<PagePlanView>::empty(),
{
    lemma_no_pages(page_count as int);
}

proof fn lemma_no_pages(n: int)
    ensures
        pages_upto(Seq::empty(), n) == Seq::<PagePlanView>::empty(),
    decreases n,
{
    if n > 0 {
        lemma_no_pages(n - 1);
    }
}

/// An entry of a table of contents as it is read.
#[derive(Debug)]
pub struct Bookmark {
    pub title: Option<String>,
    pub page: Option<u32>,
    pub children: Vec<Bookmark>,
}

/// The page of an entry; the first where it names none of the document's.
pub open spec fn bookmark_page(page: Option<u32>, total: u32) -> PageNo {
    match page {
        Some(i) if i < total => PageNo(i),
        _ => PageNo(0),
    }
}

/// Whether an entry is made of a bookmark: its title, a page of the document,
/// and the entries below it.
pub open spec fn made_of(item: OutlineItem, bookmark: Bookmark, total: u32) -> bool
    decreases bookmark,
{
    &&& item.title@ == (match bookmark.title {
        Some(t) => t@,
        None => Seq::empty(),
    })
    &&& item.page == bookmark_page(bookmark.page, total)
    &&& item.children@.len() == bookmark.children@.len()
    &&& forall|i: int|
        0 <= i < bookmark.children@.len() ==> made_of(
            #[trigger] item.children@[i],
            bookmark.children[i],
            total,
        )
}

/// The entry that is made of a bookmark.
pub fn outline_node(bookmark: &Bookmark, total: u32) -> (item: OutlineItem)
    ensures
        made_of(item, *bookmark, total),
    decreases *bookmark,
{
    let page = match bookmark.page {
        Some(i) => if i < total {
            PageNo::from_index(i)
        } else {
            PageNo::first()
        },
        None => PageNo::first(),
    };
    let title = match &bookmark.title {
        Some(t) => t.clone(),
        None => String::new(),
    };
    assert(bookmark.title is None ==> title@ =~= Seq::<char>::empty());
    let children = outline_level(&bookmark.children, total);
    OutlineItem { title, page, children }
}

fn outline_level(bookmarks: &Vec<Bookmark>, total: u32) -> (items: Vec<OutlineItem>)
    ensures
        items@.len() == bookmarks@.len(),
        forall|i: int|
            0 <= i < bookmarks@.len() ==> made_of(#[trigger] items@[i], bookmarks[i], total),
    decreases *bookmarks,
{
    let mut items: Vec<OutlineItem> = Vec::new();
    let mut i: usize = 0;
    while i < bookmarks.len()
        invariant
            i <= bookmarks@.len(),
            items@.len() == i,
            forall|j: int| 0 <= j < i ==> made_of(#[trigger] items@[j], bookmarks[j], total),
        decreases bookmarks@.len() - i,
    {
        assert(decreases_to!(*bookmarks => bookmarks[i as int]));
        let item = outline_node(&bookmarks[i], total);
        items.push(item);
        i += 1;
    }
    items
}

/// The table of contents that is made of bookmarks; none of none.
pub fn outline_from(bookmarks: &Vec<Bookmark>, total: u32) -> (r: Option<Outline>)
    ensures
        r is None <==> bookmarks@.len() == 0,
        r is Some ==> r->0.items@.len() == bookmarks@.len() && (forall|i: int|
            0 <= i < bookmarks@.len() ==> made_of(
                #[trigger] r->0.items@[i],
                bookmarks[i],
                total,
            )),
{
    if bookmarks.len() == 0 {
        return None;
    }
    Some(Outline { items: outline_level(bookmarks, total) })
}

/// The text that the first `n` clusters of a page come to, each composed.
pub open spec fn clusters_text(clusters: Seq<(String, Quad)>, n: int) -> Seq<char>
    decreases n,
{
    if n <= 0 {
        Seq::empty()
    } else {
        clusters_text(clusters, n - 1) + nfc_of(clusters[n - 1].0@)
    }
}

/// The clusters among the first `n` that hold anything, composed, with the
/// places that they stand at.
pub open spec fn clusters_kept(clusters: Seq<(String, Quad)>, n: int) -> Seq<(Seq<char>, Quad)>
    decreases n,
{
    if n <= 0 {
        Seq::empty()
    } else {
        let front = clusters_kept(clusters, n - 1);
        let text = nfc_of(clusters[n - 1].0@);
        if text.len() == 0 {
            front
        } else {
            front.push((text, clusters[n - 1].1))
        }
    }
}

/// What each glyph holds, and where it stands.
pub open spec fn glyph_views(glyphs: Seq<Glyph>) -> Seq<(Seq<char>, Quad)> {
    glyphs.map_values(|g: Glyph| (g.cluster@, g.quad))
}

/// The text layer that the clusters of a page come to, each composed on its
/// own. The text is what the glyphs hold, one after the other: a character
/// that is spread over several of them stays as they have it, so that the
/// bytes of each lie in the text.
pub fn text_layer_from(page: PageNo, clusters: &Vec<(String, Quad)>) -> (layer: TextLayer)
    ensures
        layer.page == page,
        layer.plain@ == clusters_text(clusters@, clusters@.len() as int),
        layer.plain@ == glyphs_text(layer.glyphs@, layer.glyphs@.len() as int),
        glyph_views(layer.glyphs@) == clusters_kept(clusters@, clusters@.len() as int),
{
    let mut plain = String::new();
    let mut glyphs: Vec<Glyph> = Vec::new();
    let mut i: usize = 0;
    assert(plain@ =~= clusters_text(clusters@, 0));
    assert(glyph_views(glyphs@) =~= clusters_kept(clusters@, 0));
    while i < clusters.len()
        invariant
            i <= clusters@.len(),
            plain@ == clusters_text(clusters@, i as int),
            plain@ == glyphs_text(glyphs@, glyphs@.len() as int),
            glyph_views(glyphs@) == clusters_kept(clusters@, i as int),
        decreases clusters@.len() - i,
    {
        let cluster = nfc(clusters[i].0.as_str());
        let ghost before = glyphs@;
        let ghost said = plain@;
        if !cluster.as_str().is_empty() {
            push_text(&mut plain, cluster.as_str());
            let glyph = Glyph { cluster, quad: clusters[i].1 };
            glyphs.push(glyph);
            assert(glyph_views(glyphs@) =~= glyph_views(before).push((glyph.cluster@, glyph.quad)));
            proof {
                lemma_same_glyphs(before, glyphs@, before.len() as int);
            }
        } else {
            assert(said + cluster@ =~= said);
        }
        i += 1;
    }
    TextLayer { page, plain, glyphs }
}

proof fn lemma_same_glyphs(a: Seq<Glyph>, b: Seq<Glyph>, n: int)
    requires
        0 <= n <= a.len(),
        n <= b.len(),
        forall|i: int| 0 <= i < n ==> a[i] == b[i],
    ensures
        glyphs_text(a, n) == glyphs_text(b, n),
    decreases n,
{
    if n > 0 {
        lemma_same_glyphs(a, b, n - 1);
    }
}

/// The folder of libraries beside the folder of a program. Where dots count,
/// the way up is taken at once.
pub open spec fn beside(folder: Seq<char>) -> Seq<char> {
    if kind_of(folder) != PathKind::Verbatim {
        below(folder, "../Frameworks"@)
    } else {
        match (name_of(folder), folder_of(folder)) {
            (Some(_), Some(up)) => below(up, "Frameworks"@),
            _ => below(folder, "Frameworks"@),
        }
    }
}

fn libraries_beside(folder: &str) -> (r: String)
    ensures
        r@ == beside(folder@),
{
    if look_at(&chars_of(folder)).0 != PathKind::Verbatim {
        return join_path(folder, "../Frameworks");
    }
    match (file_name(folder), parent_of(folder)) {
        (Some(_), Some(up)) => join_path(up.as_str(), "Frameworks"),
        _ => join_path(folder, "Frameworks"),
    }
}

/// Where the engine's library lies in an application bundle.
pub open spec fn bundled(exe: Seq<char>, library: Seq<char>) -> Seq<char> {
    let folder = match folder_of(exe) {
        Some(f) => f,
        None => Seq::empty(),
    };
    below(beside(folder), library)
}

/// Where the engine's library lies in an application bundle.
pub fn frameworks_lib_path(exe: &str, library: &str) -> (r: String)
    ensures
        r@ == bundled(exe@, library@),
{
    let folder = match parent_of(exe) {
        Some(f) => f,
        None => String::new(),
    };
    assert(folder_of(exe@) is None ==> folder@ =~= Seq::<char>::empty());
    join_path(libraries_beside(folder.as_str()).as_str(), library)
}

/// Where the engine's library is looked for: in the bundle, then beside the
/// program. The folder that the program was started in is not among them.
pub fn pdfium_candidates_for(exe: &str, library: &str) -> (r: Vec<String>)
    ensures
        match folder_of(exe@) {
            Some(folder) => crate::browse::texts(r@) == seq![
                bundled(exe@, library@),
                below(folder, library@),
            ],
            None => crate::browse::texts(r@) == seq![bundled(exe@, library@)],
        },
{
    let mut r: Vec<String> = Vec::new();
    r.push(frameworks_lib_path(exe, library));
    match parent_of(exe) {
        Some(folder) => {
            r.push(join_path(folder.as_str(), library));
            assert(crate::browse::texts(r@) =~= seq![
                bundled(exe@, library@),
                below(folder@, library@),
            ]);
        },
        None => {
            assert(crate::browse::texts(r@) =~= seq![bundled(exe@, library@)]);
        },
    }
    r
}

} // verus!
