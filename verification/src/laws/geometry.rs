//! Where glyphs, lines and hits lie on a page.

use vstd::prelude::*;

use crate::page::{
    glyph_bytes, glyph_offset, grown, lemma_glyph_offset_grows, line_quads, rect_quad,
    touched_lines, touched_quad, touches, Coord, Glyph, LineBox, Quad, INFINITY,
};
use crate::search::hit_at;

verus! {

/// Whether every corner of a quad is a number other than the infinities.
pub open spec fn finite_quad(q: Quad) -> bool {
    &&& q.x0.finite() && q.x1.finite() && q.x2.finite() && q.x3.finite()
    &&& q.y0.finite() && q.y1.finite() && q.y2.finite() && q.y3.finite()
}

/// Whether a quad lies within a box.
pub open spec fn lies_within(q: Quad, outer: LineBox) -> bool {
    &&& outer.0.0 <= q.x0.0 <= outer.2.0 && outer.0.0 <= q.x1.0 <= outer.2.0
    &&& outer.0.0 <= q.x2.0 <= outer.2.0 && outer.0.0 <= q.x3.0 <= outer.2.0
    &&& outer.1.0 <= q.y0.0 <= outer.3.0 && outer.1.0 <= q.y1.0 <= outer.3.0
    &&& outer.1.0 <= q.y2.0 <= outer.3.0 && outer.1.0 <= q.y3.0 <= outer.3.0
}

pub open spec fn finite_box(b: LineBox) -> bool {
    b.0.finite() && b.1.finite() && b.2.finite() && b.3.finite()
}

/// The box of an upright quad.
pub open spec fn box_of(q: Quad) -> LineBox {
    (q.x0, q.y0, q.x2, q.y2)
}

/// Whether glyph `i` holds a byte of a range.
pub open spec fn overlaps(glyphs: Seq<Glyph>, start: int, end: int, i: int) -> bool {
    glyph_bytes(glyphs, i) < end && glyph_bytes(glyphs, i + 1) > start
}

proof fn lemma_touches(glyphs: Seq<Glyph>, start: int, end: int, i: int)
    requires
        0 <= i < glyphs.len(),
        glyph_bytes(glyphs, glyphs.len() as int) <= usize::MAX,
    ensures
        touches(glyphs, start, end, i) == overlaps(glyphs, start, end, i),
        glyph_offset(glyphs, i) == glyph_bytes(glyphs, i),
        glyph_offset(glyphs, i + 1) == glyph_bytes(glyphs, i + 1),
{
    lemma_glyph_offset_grows(glyphs, i, i + 1);
    lemma_glyph_offset_grows(glyphs, i + 1, glyphs.len() as int);
}

proof fn lemma_bounds(q: Quad, outer: LineBox)
    requires
        finite_quad(q),
    ensures
        finite_box(q.bounds()),
        lies_within(q, q.bounds()),
        lies_within(q, outer) <==> (outer.0.0 <= q.bounds().0.0 && outer.1.0 <= q.bounds().1.0
            && q.bounds().2.0 <= outer.2.0 && q.bounds().3.0 <= outer.3.0),
{
}

/// The box round the corners of a quad is the smallest that it lies within.
pub proof fn law_bounds_are_the_smallest_box(q: Quad, outer: LineBox)
    requires
        finite_quad(q),
        lies_within(q, outer),
    ensures
        lies_within(q, q.bounds()),
        outer.0.0 <= q.bounds().0.0,
        outer.1.0 <= q.bounds().1.0,
        q.bounds().2.0 <= outer.2.0,
        q.bounds().3.0 <= outer.3.0,
{
    lemma_bounds(q, outer);
}

/// A point lies in an upright rectangle if and only if it lies between its
/// sides.
pub proof fn law_rectangles_hold_what_lies_between_their_sides(
    left: Coord,
    bottom: Coord,
    right: Coord,
    top: Coord,
    x: Coord,
    y: Coord,
)
    requires
        left.finite() && bottom.finite() && right.finite() && top.finite(),
        x.finite() && y.finite(),
        left.0 <= right.0,
        bottom.0 <= top.0,
    ensures
        rect_quad(left, bottom, right, top).covers(x, y) <==> left.0 <= x.0 <= right.0 && bottom.0
            <= y.0 <= top.0,
{
}

proof fn lemma_lines(glyphs: Seq<Glyph>, start: int, end: int, n: int, outer: LineBox)
    requires
        0 <= n <= glyphs.len(),
        forall|i: int| 0 <= i < n ==> finite_quad((#[trigger] glyphs[i]).quad),
        forall|i: int|
            0 <= i < n && touches(glyphs, start, end, i) ==> lies_within(
                (#[trigger] glyphs[i]).quad,
                outer,
            ),
    ensures
        forall|k: int|
            0 <= k < touched_lines(glyphs, start, end, n).len() ==> {
                let line = #[trigger] touched_lines(glyphs, start, end, n)[k];
                &&& finite_box(line)
                &&& line.0.0 <= line.2.0
                &&& line.1.0 <= line.3.0
                &&& outer.0.0 <= line.0.0
                &&& outer.1.0 <= line.1.0
                &&& line.2.0 <= outer.2.0
                &&& line.3.0 <= outer.3.0
            },
    decreases n,
{
    if n > 0 {
        lemma_lines(glyphs, start, end, n - 1, outer);
        let lines = touched_lines(glyphs, start, end, n - 1);
        let all = touched_lines(glyphs, start, end, n);
        let glyph = glyphs[n - 1].quad;
        lemma_bounds(glyph, outer);
        if touches(glyphs, start, end, n - 1) {
            assert(lies_within(glyph, outer));
            assert forall|k: int| 0 <= k < all.len() implies ({
                let line = #[trigger] all[k];
                &&& finite_box(line)
                &&& line.0.0 <= line.2.0
                &&& line.1.0 <= line.3.0
                &&& outer.0.0 <= line.0.0
                &&& outer.1.0 <= line.1.0
                &&& line.2.0 <= outer.2.0
                &&& line.3.0 <= outer.3.0
            }) by {
                if k < lines.len() {
                    let old = lines[k];
                    assert(finite_box(old));
                }
            }
        }
    }
}

proof fn lemma_lines_hold(glyphs: Seq<Glyph>, start: int, end: int, n: int, i: int)
    requires
        0 <= i < n <= glyphs.len(),
        forall|j: int| 0 <= j < n ==> finite_quad((#[trigger] glyphs[j]).quad),
        touches(glyphs, start, end, i),
    ensures
        exists|k: int|
            0 <= k < touched_lines(glyphs, start, end, n).len() && lies_within(
                glyphs[i].quad,
                #[trigger] touched_lines(glyphs, start, end, n)[k],
            ),
    decreases n,
{
    let lines = touched_lines(glyphs, start, end, n - 1);
    let all = touched_lines(glyphs, start, end, n);
    let glyph = glyphs[n - 1].quad;
    let world = (
        Coord((-INFINITY) as i32),
        Coord((-INFINITY) as i32),
        Coord(INFINITY),
        Coord(INFINITY),
    );
    assert forall|j: int| 0 <= j < n && touches(glyphs, start, end, j) implies lies_within(
        (#[trigger] glyphs[j]).quad,
        world,
    ) by {
        assert(finite_quad(glyphs[j].quad));
    }
    lemma_lines(glyphs, start, end, n - 1, world);
    lemma_bounds(glyph, glyph.bounds());
    if i == n - 1 {
        let k = all.len() - 1;
        if lines.len() > 0 {
            assert(finite_box(lines[lines.len() - 1]));
        }
        assert(lies_within(glyph, all[k]));
    } else {
        lemma_lines_hold(glyphs, start, end, n - 1, i);
        let k = choose|k: int|
            0 <= k < lines.len() && lies_within(glyphs[i].quad, #[trigger] lines[k]);
        assert(finite_box(lines[k]));
        if touches(glyphs, start, end, n - 1) && lines.len() > 0 && k == lines.len() - 1
            && crate::page::same_line(lines.last(), glyph.bounds()) {
            let wider = grown(lines.last(), glyph.bounds());
            assert(wider.0.0 <= lines[k].0.0 && wider.1.0 <= lines[k].1.0 && lines[k].2.0
                <= wider.2.0 && lines[k].3.0 <= wider.3.0);
            assert(all[k] == wider);
            assert(lies_within(glyphs[i].quad, all[k]));
        } else {
            assert(all[k] == lines[k]);
            assert(lies_within(glyphs[i].quad, all[k]));
        }
    }
}

/// Each glyph that a range touches lies within one of the range's rectangles.
pub proof fn law_lines_hold_their_glyphs(glyphs: Seq<Glyph>, start: int, end: int, i: int)
    requires
        0 <= i < glyphs.len(),
        glyph_bytes(glyphs, glyphs.len() as int) <= usize::MAX,
        forall|j: int| 0 <= j < glyphs.len() ==> finite_quad((#[trigger] glyphs[j]).quad),
        overlaps(glyphs, start, end, i),
    ensures
        line_quads(glyphs, start, end).len() > 0,
        exists|k: int|
            0 <= k < line_quads(glyphs, start, end).len() && lies_within(
                glyphs[i].quad,
                box_of(#[trigger] line_quads(glyphs, start, end)[k]),
            ),
{
    lemma_touches(glyphs, start, end, i);
    let n = glyphs.len() as int;
    lemma_lines_hold(glyphs, start, end, n, i);
    let lines = touched_lines(glyphs, start, end, n);
    let k = choose|k: int| 0 <= k < lines.len() && lies_within(glyphs[i].quad, #[trigger] lines[k]);
    assert(box_of(line_quads(glyphs, start, end)[k]) == lines[k]);
}

/// The rectangles of a range lie within every box that holds the glyphs which
/// the range touches.
pub proof fn law_lines_hold_no_more(
    glyphs: Seq<Glyph>,
    start: int,
    end: int,
    outer: LineBox,
    k: int,
)
    requires
        glyph_bytes(glyphs, glyphs.len() as int) <= usize::MAX,
        forall|j: int| 0 <= j < glyphs.len() ==> finite_quad((#[trigger] glyphs[j]).quad),
        forall|j: int|
            0 <= j < glyphs.len() && overlaps(glyphs, start, end, j) ==> lies_within(
                (#[trigger] glyphs[j]).quad,
                outer,
            ),
        0 <= k < line_quads(glyphs, start, end).len(),
    ensures
        lies_within(line_quads(glyphs, start, end)[k], outer),
{
    let n = glyphs.len() as int;
    assert forall|j: int| 0 <= j < n && touches(glyphs, start, end, j) implies lies_within(
        (#[trigger] glyphs[j]).quad,
        outer,
    ) by {
        lemma_touches(glyphs, start, end, j);
    }
    lemma_lines(glyphs, start, end, n, outer);
    let line = touched_lines(glyphs, start, end, n)[k];
    assert(line_quads(glyphs, start, end)[k] == rect_quad(line.0, line.1, line.2, line.3));
}

/// A range that touches no glyph has no rectangles.
pub proof fn law_lines_need_glyphs(glyphs: Seq<Glyph>, start: int, end: int)
    requires
        glyph_bytes(glyphs, glyphs.len() as int) <= usize::MAX,
        forall|j: int| 0 <= j < glyphs.len() ==> !overlaps(glyphs, start, end, j),
    ensures
        line_quads(glyphs, start, end).len() == 0,
{
    lemma_no_lines(glyphs, start, end, glyphs.len() as int);
}

proof fn lemma_no_lines(glyphs: Seq<Glyph>, start: int, end: int, n: int)
    requires
        0 <= n <= glyphs.len(),
        glyph_bytes(glyphs, glyphs.len() as int) <= usize::MAX,
        forall|j: int| 0 <= j < glyphs.len() ==> !overlaps(glyphs, start, end, j),
    ensures
        touched_lines(glyphs, start, end, n).len() == 0,
    decreases n,
{
    if n > 0 {
        lemma_no_lines(glyphs, start, end, n - 1);
        lemma_touches(glyphs, start, end, n - 1);
    }
}

proof fn lemma_touched_quad(glyphs: Seq<Glyph>, start: int, end: int, n: int, outer: LineBox)
    requires
        0 <= n <= glyphs.len(),
        forall|i: int| 0 <= i < n ==> finite_quad((#[trigger] glyphs[i]).quad),
        forall|i: int|
            0 <= i < n && touches(glyphs, start, end, i) ==> lies_within(
                (#[trigger] glyphs[i]).quad,
                outer,
            ),
    ensures
        match touched_quad(glyphs, start, end, n) {
            Some(q) => {
                &&& finite_quad(q)
                &&& lies_within(q, outer)
                &&& forall|i: int|
                    0 <= i < n && touches(glyphs, start, end, i) ==> lies_within(
                        (#[trigger] glyphs[i]).quad,
                        q.bounds(),
                    )
            },
            None => forall|i: int| 0 <= i < n ==> !#[trigger] touches(glyphs, start, end, i),
        },
    decreases n,
{
    if n > 0 {
        lemma_touched_quad(glyphs, start, end, n - 1, outer);
        let glyph = glyphs[n - 1].quad;
        lemma_bounds(glyph, outer);
        if touches(glyphs, start, end, n - 1) {
            assert(lies_within(glyph, outer));
            let all = touched_quad(glyphs, start, end, n)->0;
            match touched_quad(glyphs, start, end, n - 1) {
                Some(q) => {
                    lemma_bounds(q, outer);
                    assert(all == q.joined(glyph));
                    assert(finite_quad(all));
                    lemma_bounds(all, outer);
                    assert(all.bounds().0.0 <= q.bounds().0.0 && all.bounds().1.0
                        <= q.bounds().1.0 && q.bounds().2.0 <= all.bounds().2.0 && q.bounds().3.0
                        <= all.bounds().3.0);
                    assert forall|i: int|
                        0 <= i < n && touches(glyphs, start, end, i) implies lies_within(
                        (#[trigger] glyphs[i]).quad,
                        all.bounds(),
                    ) by {
                        lemma_bounds(glyphs[i].quad, all.bounds());
                        if i < n - 1 {
                            lemma_bounds(glyphs[i].quad, q.bounds());
                        }
                    }
                },
                None => {
                    assert forall|i: int|
                        0 <= i < n && touches(glyphs, start, end, i) implies lies_within(
                        (#[trigger] glyphs[i]).quad,
                        all.bounds(),
                    ) by {}
                },
            }
        }
    }
}

/// The rectangle of a hit holds each glyph that the hit touches, and lies
/// within every box that holds them all.
pub proof fn law_hits_lie_where_their_glyphs_do(
    layer: crate::page::TextLayer,
    range: (usize, usize),
    i: int,
    outer: LineBox,
)
    requires
        0 <= i < layer.glyphs@.len(),
        glyph_bytes(layer.glyphs@, layer.glyphs@.len() as int) <= usize::MAX,
        forall|j: int|
            0 <= j < layer.glyphs@.len() ==> finite_quad((#[trigger] layer.glyphs@[j]).quad),
        overlaps(layer.glyphs@, range.0 as int, range.1 as int, i),
        forall|j: int|
            0 <= j < layer.glyphs@.len() && overlaps(
                layer.glyphs@,
                range.0 as int,
                range.1 as int,
                j,
            ) ==> lies_within((#[trigger] layer.glyphs@[j]).quad, outer),
    ensures
        hit_at(layer, range).page == layer.page,
        hit_at(layer, range).range.start == range.0,
        hit_at(layer, range).range.end == range.1,
        lies_within(hit_at(layer, range).quad, outer),
        lies_within(layer.glyphs@[i].quad, hit_at(layer, range).quad.bounds()),
{
    let glyphs = layer.glyphs@;
    let (start, end) = (range.0 as int, range.1 as int);
    assert forall|j: int| 0 <= j < glyphs.len() && touches(glyphs, start, end, j) implies lies_within(
        (#[trigger] glyphs[j]).quad,
        outer,
    ) by {
        lemma_touches(glyphs, start, end, j);
    }
    lemma_touches(glyphs, start, end, i);
    lemma_touched_quad(glyphs, start, end, glyphs.len() as int, outer);
}

/// A glyph goes on the line that the glyphs before it end in where it stands
/// level with it and not further left; else it begins a line of its own.
pub proof fn law_each_line_has_its_rectangle(glyphs: Seq<Glyph>, start: int, end: int, n: int)
    requires
        0 < n <= glyphs.len(),
        glyph_bytes(glyphs, glyphs.len() as int) <= usize::MAX,
        forall|j: int| 0 <= j < glyphs.len() ==> finite_quad((#[trigger] glyphs[j]).quad),
        overlaps(glyphs, start, end, n - 1),
    ensures
        ({
            let before = touched_lines(glyphs, start, end, n - 1);
            let after = touched_lines(glyphs, start, end, n);
            let b = glyphs[n - 1].quad.bounds();
            &&& before.len() == 0 ==> after == seq![b]
            &&& before.len() > 0 ==> {
                let last = before.last();
                let level = b.1.0 <= last.3.0 && last.1.0 <= b.3.0 && last.0.0 <= b.0.0;
                &&& !level ==> after == before.push(b)
                &&& level ==> {
                    &&& after.len() == before.len()
                    &&& after.drop_last() == before.drop_last()
                    &&& after.last().0.0 == if last.0.0 <= b.0.0 { last.0.0 } else { b.0.0 }
                    &&& after.last().1.0 == if last.1.0 <= b.1.0 { last.1.0 } else { b.1.0 }
                    &&& after.last().2.0 == if last.2.0 >= b.2.0 { last.2.0 } else { b.2.0 }
                    &&& after.last().3.0 == if last.3.0 >= b.3.0 { last.3.0 } else { b.3.0 }
                }
            }
        }),
{
    lemma_touches(glyphs, start, end, n - 1);
    let before = touched_lines(glyphs, start, end, n - 1);
    let after = touched_lines(glyphs, start, end, n);
    let b = glyphs[n - 1].quad.bounds();
    lemma_bounds(glyphs[n - 1].quad, b);
    let world = (
        Coord((-INFINITY) as i32),
        Coord((-INFINITY) as i32),
        Coord(INFINITY),
        Coord(INFINITY),
    );
    assert forall|j: int| 0 <= j < n - 1 && touches(glyphs, start, end, j) implies lies_within(
        (#[trigger] glyphs[j]).quad,
        world,
    ) by {
        assert(finite_quad(glyphs[j].quad));
    }
    lemma_lines(glyphs, start, end, n - 1, world);
    if before.len() == 0 {
        assert(before.push(b) =~= seq![b]);
    } else {
        assert(finite_box(before[before.len() - 1]));
        assert(before.drop_last().push(grown(before.last(), b)).drop_last()
            =~= before.drop_last());
    }
}

/// The rectangles of a range are its lines, one each.
pub proof fn law_rectangles_are_the_lines(glyphs: Seq<Glyph>, start: int, end: int, k: int)
    requires
        0 <= k < line_quads(glyphs, start, end).len(),
    ensures
        line_quads(glyphs, start, end).len() == touched_lines(
            glyphs,
            start,
            end,
            glyphs.len() as int,
        ).len(),
        box_of(line_quads(glyphs, start, end)[k]) == touched_lines(
            glyphs,
            start,
            end,
            glyphs.len() as int,
        )[k],
{
}

} // verus!
