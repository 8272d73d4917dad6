//! Saving a copy of a document with its marks.

use vstd::prelude::*;

use crate::annot::{AnnotKind, AnnotationView};
use crate::engine::{
    box_upto, law_every_mark_is_written, marked_upto, marks_upto, pages_upto, plan_of, MarkPlanView,
    PagePlanView,
};
use crate::laws::geometry::{finite_box, finite_quad, lies_within};
use crate::laws::moving::lemma_trimmed_keeps;
use crate::messages::Message;
use crate::numbers::white;
use crate::page::{PageNo, Quad};
use crate::paths::same_place;
use crate::ready::ReadyView;

verus! {

/// Whether what is written for a mark with lines is that mark: its kind, its
/// rectangles, and a box that holds them.
pub open spec fn writes_lines(plan: MarkPlanView, a: AnnotationView) -> bool {
    &&& plan is Lines
    &&& plan->Lines_kind == a.kind
    &&& plan->Lines_quads == a.quads
    &&& (forall|k: int| 0 <= k < a.quads.len() ==> finite_quad(#[trigger] a.quads[k]))
        ==> forall|k: int|
        0 <= k < a.quads.len() ==> lies_within(#[trigger] a.quads[k], plan->Lines_bounds)
}

/// Whether what is written for a note is that note: what it says, at the left
/// and the top of the first line that it is on.
pub open spec fn writes_note(plan: MarkPlanView, a: AnnotationView) -> bool {
    &&& plan is Note
    &&& plan->Note_text == a.text
    &&& plan->Note_left == a.quads[0].bounds().0
    &&& plan->Note_top == a.quads[0].bounds().3
}

/// Whether there is anything to write for a mark: it has lines and, if it is a
/// note, says something.
pub open spec fn worth_writing(a: AnnotationView) -> bool {
    &&& a.quads.len() > 0
    &&& a.kind == AnnotKind::Note ==> exists|i: int|
        0 <= i < a.text.len() && !white(#[trigger] a.text[i])
}

/// Whether what is written for a mark is that mark.
pub open spec fn writes(plan: MarkPlanView, a: AnnotationView) -> bool {
    if a.kind == AnnotKind::Note {
        writes_note(plan, a)
    } else {
        writes_lines(plan, a)
    }
}

proof fn lemma_box(quads: Seq<Quad>, n: int)
    requires
        0 < n <= quads.len(),
        forall|k: int| 0 <= k < quads.len() ==> finite_quad(#[trigger] quads[k]),
    ensures
        box_upto(quads, n) is Some,
        finite_box(box_upto(quads, n)->0),
        forall|k: int| 0 <= k < n ==> lies_within(#[trigger] quads[k], box_upto(quads, n)->0),
    decreases n,
{
    let last = quads[n - 1];
    assert(finite_quad(last));
    assert(finite_box(last.bounds()) && lies_within(last, last.bounds()));
    if n > 1 {
        lemma_box(quads, n - 1);
        let before = box_upto(quads, n - 1)->0;
        let all = box_upto(quads, n)->0;
        assert(all.0.0 <= before.0.0 && all.1.0 <= before.1.0 && before.2.0 <= all.2.0
            && before.3.0 <= all.3.0);
        assert(all.0.0 <= last.bounds().0.0 && all.1.0 <= last.bounds().1.0 && last.bounds().2.0
            <= all.2.0 && last.bounds().3.0 <= all.3.0);
        assert forall|k: int| 0 <= k < n implies lies_within(#[trigger] quads[k], all) by {
            if k < n - 1 {
                assert(lies_within(quads[k], before));
            }
        }
    } else {
        assert(box_upto(quads, 0) is None);
    }
}

proof fn lemma_plan(a: AnnotationView)
    ensures
        worth_writing(a) ==> plan_of(a) is Some,
        plan_of(a) is Some ==> writes(plan_of(a)->0, a) && worth_writing(a),
{
    if a.kind == AnnotKind::Note {
        if exists|i: int| 0 <= i < a.text.len() && !white(#[trigger] a.text[i]) {
            let i = choose|i: int| 0 <= i < a.text.len() && !white(#[trigger] a.text[i]);
            lemma_trimmed_keeps(a.text, i);
        } else {
            lemma_blank(a.text);
        }
    } else if a.quads.len() > 0 && forall|k: int|
        0 <= k < a.quads.len() ==> finite_quad(#[trigger] a.quads[k]) {
        lemma_box(a.quads, a.quads.len() as int);
    }
}

proof fn lemma_blank(text: Seq<char>)
    requires
        forall|i: int| 0 <= i < text.len() ==> white(#[trigger] text[i]),
    ensures
        crate::numbers::trimmed(text).len() == 0,
    decreases text.len(),
{
    if text.len() > 0 {
        assert(white(text[text.len() - 1]));
        lemma_blank(text.drop_last());
    }
}

/// Every mark is written on its own page, as what it is: a mark with lines with
/// its own kind and its own rectangles, a note with what it says.
pub proof fn law_marks_are_written_as_what_they_are(
    list: Seq<AnnotationView>,
    page_count: u16,
    i: int,
)
    requires
        forall|j: int| 0 <= j < list.len() ==> (#[trigger] list[j]).page.0 < page_count,
        0 <= i < list.len(),
        worth_writing(list[i]),
    ensures
        exists|k: int, m: int| #[trigger]
            written_at(pages_upto(list, page_count as int), k, m, list[i]),
{
    lemma_plan(list[i]);
    law_every_mark_is_written(list, page_count, i);
    let pages = pages_upto(list, page_count as int);
    let k = choose|k: int|
        0 <= k < pages.len() && (#[trigger] pages[k]).page == list[i].page && pages[k].marks.contains(
            plan_of(list[i])->0,
        );
    let m = choose|m: int|
        0 <= m < pages[k].marks.len() && pages[k].marks[m] == plan_of(list[i])->0;
    assert(written_at(pages, k, m, list[i]));
}

/// Whether the `m`-th thing written on the `k`-th page is a mark.
pub open spec fn written_at(pages: Seq<PagePlanView>, k: int, m: int, a: AnnotationView) -> bool {
    &&& 0 <= k < pages.len()
    &&& 0 <= m < pages[k].marks.len()
    &&& pages[k].page == a.page
    &&& writes(pages[k].marks[m], a)
}

/// How many of the first `n` marks are written on a page.
pub open spec fn worth_on_page(list: Seq<AnnotationView>, page: PageNo, n: int) -> nat
    decreases n,
{
    if n <= 0 {
        0
    } else {
        worth_on_page(list, page, n - 1) + if list[n - 1].page == page && worth_writing(
            list[n - 1],
        ) {
            1nat
        } else {
            0
        }
    }
}

/// Whether what is written is one of the first `n` marks, and on its page.
pub open spec fn of_mark(list: Seq<AnnotationView>, page: PageNo, n: int, plan: MarkPlanView) -> bool {
    exists|i: int| 0 <= i < n && (#[trigger] list[i]).page == page && writes(plan, list[i])
}

proof fn lemma_marks(list: Seq<AnnotationView>, page: PageNo, n: int)
    requires
        0 <= n <= list.len(),
    ensures
        marks_upto(list, page, n).len() == worth_on_page(list, page, n),
        forall|m: int|
            0 <= m < marks_upto(list, page, n).len() ==> of_mark(
                list,
                page,
                n,
                #[trigger] marks_upto(list, page, n)[m],
            ),
    decreases n,
{
    if n > 0 {
        lemma_marks(list, page, n - 1);
        lemma_plan(list[n - 1]);
        let front = marks_upto(list, page, n - 1);
        let all = marks_upto(list, page, n);
        assert forall|m: int| 0 <= m < all.len() implies of_mark(
            list,
            page,
            n,
            #[trigger] all[m],
        ) by {
            if m < front.len() {
                assert(all[m] == front[m]);
                assert(of_mark(list, page, n - 1, front[m]));
                let i = choose|i: int|
                    0 <= i < n - 1 && (#[trigger] list[i]).page == page && writes(
                        front[m],
                        list[i],
                    );
                assert(list[i].page == page && writes(all[m], list[i]));
            } else {
                assert(list[n - 1].page == page && writes(all[m], list[n - 1]));
            }
        }
    }
}

proof fn lemma_pages(list: Seq<AnnotationView>, n: int)
    requires
        0 <= n <= u16::MAX,
    ensures
        forall|k: int|
            0 <= k < pages_upto(list, n).len() ==> (#[trigger] pages_upto(list, n)[k]).page.0 < n
                && pages_upto(list, n)[k].marks == marks_upto(
                list,
                pages_upto(list, n)[k].page,
                list.len() as int,
            ) && marked_upto(list, pages_upto(list, n)[k].page, list.len() as int),
        forall|a: int, b: int|
            0 <= a < b < pages_upto(list, n).len() ==> (#[trigger] pages_upto(list, n)[a]).page.0
                < (#[trigger] pages_upto(list, n)[b]).page.0,
    decreases n,
{
    if n > 0 {
        lemma_pages(list, n - 1);
        let front = pages_upto(list, n - 1);
        let all = pages_upto(list, n);
        assert forall|a: int, b: int| 0 <= a < b < all.len() implies (#[trigger] all[a]).page.0 < (
        #[trigger] all[b]).page.0 by {
            assert(all[a] == front[a]);
            if b < front.len() {
                assert(all[b] == front[b]);
            }
        }
        assert forall|k: int| 0 <= k < all.len() implies (#[trigger] all[k]).page.0 < n
            && all[k].marks == marks_upto(list, all[k].page, list.len() as int) && marked_upto(
            list,
            all[k].page,
            list.len() as int,
        ) by {
            if k < front.len() {
                assert(all[k] == front[k]);
            }
        }
    }
}

/// Nothing is written but marks: each thing that is written is a mark of that
/// page, there are as many as the page has marks that are worth it, and the
/// pages come in order, each once.
pub proof fn law_nothing_but_marks_is_written(
    list: Seq<AnnotationView>,
    page_count: u16,
    k: int,
    m: int,
    other: int,
)
    requires
        0 <= k < pages_upto(list, page_count as int).len(),
    ensures
        ({
            let pages = pages_upto(list, page_count as int);
            &&& pages[k].page.0 < page_count
            &&& pages[k].marks.len() == worth_on_page(list, pages[k].page, list.len() as int)
            &&& 0 <= m < pages[k].marks.len() ==> of_mark(
                list,
                pages[k].page,
                list.len() as int,
                pages[k].marks[m],
            )
            &&& k < other < pages.len() ==> pages[k].page.0 < pages[other].page.0
        }),
{
    let pages = pages_upto(list, page_count as int);
    lemma_pages(list, page_count as int);
    lemma_marks(list, pages[k].page, list.len() as int);
}

proof fn lemma_marks_so_far(list: Seq<AnnotationView>, a: AnnotationView, page: PageNo, n: int)
    requires
        0 <= n <= list.len(),
    ensures
        marks_upto(list.push(a), page, n) == marks_upto(list, page, n),
    decreases n,
{
    if n > 0 {
        lemma_marks_so_far(list, a, page, n - 1);
        assert(list.push(a)[n - 1] == list[n - 1]);
    }
}

/// A mark is written behind those that were there before it, and changes none
/// of them.
pub proof fn law_marks_are_written_in_their_order(
    list: Seq<AnnotationView>,
    a: AnnotationView,
    page: PageNo,
)
    ensures
        ({
            let before = marks_upto(list, page, list.len() as int);
            let after = marks_upto(list.push(a), page, (list.len() + 1) as int);
            if a.page == page && worth_writing(a) {
                after.len() == before.len() + 1 && after.drop_last() == before && writes(
                    after.last(),
                    a,
                )
            } else {
                after == before
            }
        }),
{
    let n = list.len() as int;
    lemma_marks_so_far(list, a, page, n);
    lemma_plan(a);
    assert(list.push(a)[n] == a);
    let before = marks_upto(list, page, n);
    if let Some(plan) = plan_of(a) {
        assert(before.push(plan).drop_last() =~= before);
    }
}

/// A copy can be asked for where there is something to save: without marks the
/// reader is told so, a signed document is warned of, and else the question is
/// where the copy goes.
pub proof fn law_copies_need_marks(v: ReadyView)
    ensures
        ({
            let after = v.handled(Message::SaveCopyRequested);
            &&& v.marks.annotations.len() == 0 ==> after.1.len() == 0 && after.0.save_status is Some
                && after.0.save_warning == v.save_warning
            &&& v.marks.annotations.len() > 0 && v.signatures.signatures@.len() > 0
                ==> after.1.len() == 0 && after.0.save_warning && after.0.save_status is None
            &&& v.marks.annotations.len() > 0 && v.signatures.signatures@.len() == 0
                ==> after.1.len() == 1 && after.1[0] is AskSave && after.1[0]->AskSave_source
                == v.source.place() && after.0.save_warning == v.save_warning
                && after.0.save_status is None
            &&& after.0 == (ReadyView {
                overflow_open: false,
                save_status: after.0.save_status,
                save_warning: after.0.save_warning,
                ..v
            })
        }),
        v.handled(Message::SaveCopyConfirmed).1.len() == 1,
        v.handled(Message::SaveCopyConfirmed).1[0] is AskSave,
        v.handled(Message::SaveCopyConfirmed).1[0]->AskSave_source == v.source.place(),
        v.handled(Message::SaveCopyConfirmed).0 == (ReadyView { save_warning: false, ..v }),
        v.handled(Message::SaveCopyCancelled).0 == (ReadyView { save_warning: false, ..v }),
        v.handled(Message::SaveCopyCancelled).1.len() == 0,
{
}

/// The copy that is saved holds all the marks and goes where the reader said;
/// over the document itself nothing is written, whichever way its path is
/// written and whatever links lead to it.
pub proof fn law_copy_holds_all_marks(
    v: ReadyView,
    dest: String,
    real_dest: Option<String>,
    real_source: Option<String>,
)
    ensures
        ({
            let after = v.handled(Message::SaveChosen { dest, real_dest, real_source });
            let same = same_place(dest@, v.source.place()) || (real_dest is Some && real_source is Some
                && same_place(real_dest->0@, real_source->0@));
            &&& same ==> after.1.len() == 0 && after.0.save_status is Some
            &&& !same ==> after.1.len() == 1 && after.1[0] is SaveCopy
                && after.1[0]->SaveCopy_marks == v.marks.annotations && after.1[0]->SaveCopy_dest
                == dest@ && after.1[0]->SaveCopy_engine == v.engine && after.1[0]->SaveCopy_doc_gen
                == v.open_gen && after.0.save_status is None
            &&& after.0 == (ReadyView { save_status: after.0.save_status, ..v })
        }),
{
}

} // verus!
