//! Pages and what is on them: numbers, scales, geometry, text layers.

use core::cmp::Ordering;

use vstd::prelude::*;
use vstd::std_specs::cmp::{PartialOrdSpec, PartialOrdSpecImpl};

use crate::text::{
    byte_len, byte_length, char_bytes, chars_of, lemma_byte_len_concat, lemma_byte_len_prefix,
    lemma_byte_len_push, sub_text,
};

verus! {

/// The number of a page, counted from zero.
#[derive(Debug, Clone, Copy, PartialEq, Eq, Structural, Ord, Hash)]
pub struct PageNo(pub u32);

impl PartialOrd for PageNo {
    /// Pages come in the order of their numbers.
    fn partial_cmp(&self, other: &PageNo) -> (r: Option<Ordering>) {
        if self.0 < other.0 {
            Some(Ordering::Less)
        } else if self.0 > other.0 {
            Some(Ordering::Greater)
        } else {
            Some(Ordering::Equal)
        }
    }
}

impl PartialOrdSpecImpl for PageNo {
    open spec fn obeys_partial_cmp_spec() -> bool {
        true
    }

    open spec fn partial_cmp_spec(&self, other: &PageNo) -> Option<Ordering> {
        if self.0 < other.0 {
            Some(Ordering::Less)
        } else if self.0 > other.0 {
            Some(Ordering::Greater)
        } else {
            Some(Ordering::Equal)
        }
    }
}

/// Pages compare as their indices do.
pub proof fn law_pages_are_ordered_by_index(p: PageNo, q: PageNo)
    ensures
        PartialOrdSpec::partial_cmp_spec(&p, &q) == Some(Ordering::Less) <==> p.0 < q.0,
        PartialOrdSpec::partial_cmp_spec(&p, &q) == Some(Ordering::Equal) <==> p == q,
        PartialOrdSpec::partial_cmp_spec(&p, &q) == Some(Ordering::Greater) <==> q.0 < p.0,
{
}

impl PageNo {
    pub fn first() -> (page: PageNo)
        ensures
            page == PageNo(0),
    {
        PageNo(0)
    }

    pub fn from_index(i: u32) -> (page: PageNo)
        ensures
            page == PageNo(i),
    {
        PageNo(i)
    }

    pub fn index(self) -> (i: u32)
        ensures
            i == self.0,
    {
        self.0
    }
}

/// The bits of one quarter.
pub const QUARTER: i32 = 0x3e80_0000;

/// The bits of one.
pub const ONE: i32 = 0x3f80_0000;

/// The bits of four.
pub const FOUR: i32 = 0x4080_0000;

/// The bits of eight.
pub const EIGHT: i32 = 0x4100_0000;

/// The bits of infinity.
pub const INFINITY: i32 = 0x7f80_0000;

/// A measure on a page or a screen (a coordinate, a length, a factor), held
/// as the sign and the magnitude of the bits of a single-precision number.
/// Two measures compare as their integers do; a magnitude above that of
/// infinity is no number, and compares with nothing.
#[derive(Debug, Clone, Copy, PartialEq, Eq, Structural, Hash)]
pub struct Coord(pub i32);

impl Coord {
    /// Whether this is a number at all.
    pub open spec fn number(self) -> bool {
        -INFINITY <= self.0 <= INFINITY
    }

    /// Whether this is a number other than the infinities.
    pub open spec fn finite(self) -> bool {
        -INFINITY < self.0 < INFINITY
    }

    pub open spec fn below(self, other: Coord) -> bool {
        self.number() && other.number() && self.0 < other.0
    }

    pub open spec fn at_most(self, other: Coord) -> bool {
        self.number() && other.number() && self.0 <= other.0
    }

    /// Equal as numbers: what is no number equals nothing.
    pub open spec fn equals(self, other: Coord) -> bool {
        self.number() && self.0 == other.0
    }

    /// The lower of two; where one is no number, the other.
    pub open spec fn low(self, other: Coord) -> Coord {
        if !self.number() {
            other
        } else if !other.number() || self.0 <= other.0 {
            self
        } else {
            other
        }
    }

    /// The higher of two; where one is no number, the other.
    pub open spec fn high(self, other: Coord) -> Coord {
        if !self.number() {
            other
        } else if !other.number() || self.0 >= other.0 {
            self
        } else {
            other
        }
    }

    pub fn is_number(self) -> (r: bool)
        ensures
            r == self.number(),
    {
        -INFINITY <= self.0 && self.0 <= INFINITY
    }

    pub fn is_finite(self) -> (r: bool)
        ensures
            r == self.finite(),
    {
        -INFINITY < self.0 && self.0 < INFINITY
    }

    pub fn is_below(self, other: Coord) -> (r: bool)
        ensures
            r == self.below(other),
    {
        self.is_number() && other.is_number() && self.0 < other.0
    }

    pub fn is_at_most(self, other: Coord) -> (r: bool)
        ensures
            r == self.at_most(other),
    {
        self.is_number() && other.is_number() && self.0 <= other.0
    }

    pub fn is_equal(self, other: Coord) -> (r: bool)
        ensures
            r == self.equals(other),
    {
        self.is_number() && self.0 == other.0
    }

    pub fn lower(self, other: Coord) -> (r: Coord)
        ensures
            r == self.low(other),
    {
        if !self.is_number() {
            other
        } else if !other.is_number() || self.0 <= other.0 {
            self
        } else {
            other
        }
    }

    pub fn higher(self, other: Coord) -> (r: Coord)
        ensures
            r == self.high(other),
    {
        if !self.is_number() {
            other
        } else if !other.is_number() || self.0 >= other.0 {
            self
        } else {
            other
        }
    }
}

/// A point of a page or of the window.
#[derive(Debug, Clone, Copy, PartialEq, Eq, Structural, Hash)]
pub struct Point {
    pub x: Coord,
    pub y: Coord,
}

impl Point {
    pub open spec fn equals(self, other: Point) -> bool {
        self.x.equals(other.x) && self.y.equals(other.y)
    }

    pub fn is_equal(self, other: Point) -> (r: bool)
        ensures
            r == self.equals(other),
    {
        self.x.is_equal(other.x) && self.y.is_equal(other.y)
    }
}

/// The size of a page in user space, one unit to the point.
#[derive(Debug, Clone, Copy, PartialEq, Eq, Structural)]
pub struct MediaBox {
    pub width: Coord,
    pub height: Coord,
}

/// The size of the area that a document is shown in.
#[derive(Debug, Clone, Copy, PartialEq, Eq, Structural)]
pub struct Viewport {
    pub width: Coord,
    pub height: Coord,
}

/// A render scale in thousandths, so that cache keys are exact.
#[derive(Debug, Clone, Copy, PartialEq, Eq, Structural, Hash)]
pub struct Scale(pub u16);

impl Scale {
    /// The scale nearest to a factor that was rounded to thousandths: at
    /// least one thousandth and at most sixty-five.
    pub fn from_factor(thousandths: u32) -> (scale: Scale)
        ensures
            thousandths < 1 ==> scale.0 == 1,
            1 <= thousandths <= 65_000 ==> scale.0 == thousandths,
            thousandths > 65_000 ==> scale.0 == 65_000,
    {
        if thousandths < 1 {
            Scale(1)
        } else if thousandths > 65_000 {
            Scale(65_000)
        } else {
            Scale(thousandths as u16)
        }
    }

    /// The factor in thousandths.
    pub fn factor(self) -> (thousandths: u32)
        ensures
            thousandths == self.0,
    {
        self.0 as u32
    }

    pub fn key(self) -> (key: u16)
        ensures
            key == self.0,
    {
        self.0
    }
}

/// Four corners on a page.
#[derive(Debug, Clone, Copy, PartialEq, Eq, Structural)]
pub struct Quad {
    pub x0: Coord,
    pub y0: Coord,
    pub x1: Coord,
    pub y1: Coord,
    pub x2: Coord,
    pub y2: Coord,
    pub x3: Coord,
    pub y3: Coord,
}

/// The upright rectangle with the given sides.
pub open spec fn rect_quad(left: Coord, bottom: Coord, right: Coord, top: Coord) -> Quad {
    Quad { x0: left, y0: bottom, x1: right, y1: bottom, x2: right, y2: top, x3: left, y3: top }
}

impl Quad {
    pub open spec fn left(self) -> Coord {
        self.x0.low(self.x1).low(self.x2).low(self.x3)
    }

    pub open spec fn right(self) -> Coord {
        self.x0.high(self.x1).high(self.x2).high(self.x3)
    }

    pub open spec fn bottom(self) -> Coord {
        self.y0.low(self.y1).low(self.y2).low(self.y3)
    }

    pub open spec fn top(self) -> Coord {
        self.y0.high(self.y1).high(self.y2).high(self.y3)
    }

    /// Whether a point lies within the outermost corners.
    pub open spec fn covers(self, x: Coord, y: Coord) -> bool {
        &&& self.left().at_most(x)
        &&& x.at_most(self.right())
        &&& self.bottom().at_most(y)
        &&& y.at_most(self.top())
    }

    /// The upright rectangle round two quads.
    pub open spec fn joined(self, other: Quad) -> Quad {
        rect_quad(
            self.left().low(other.left()),
            self.bottom().low(other.bottom()),
            self.right().high(other.right()),
            self.top().high(other.top()),
        )
    }

    pub fn from_rect(left: Coord, bottom: Coord, right: Coord, top: Coord) -> (quad: Quad)
        ensures
            quad == rect_quad(left, bottom, right, top),
    {
        Quad { x0: left, y0: bottom, x1: right, y1: bottom, x2: right, y2: top, x3: left, y3: top }
    }

    /// The sides of the rectangle round the four corners, as
    /// `(left, bottom, right, top)`.
    pub fn sides(self) -> (r: (Coord, Coord, Coord, Coord))
        ensures
            r == (self.left(), self.bottom(), self.right(), self.top()),
    {
        (
            self.x0.lower(self.x1).lower(self.x2).lower(self.x3),
            self.y0.lower(self.y1).lower(self.y2).lower(self.y3),
            self.x0.higher(self.x1).higher(self.x2).higher(self.x3),
            self.y0.higher(self.y1).higher(self.y2).higher(self.y3),
        )
    }

    /// The box round the four corners; a side on which no corner is a number
    /// lies at infinity.
    pub open spec fn bounds(self) -> (Coord, Coord, Coord, Coord) {
        (
            Coord(INFINITY).low(self.x0).low(self.x1).low(self.x2).low(self.x3),
            Coord(INFINITY).low(self.y0).low(self.y1).low(self.y2).low(self.y3),
            Coord((-INFINITY) as i32).high(self.x0).high(self.x1).high(self.x2).high(self.x3),
            Coord((-INFINITY) as i32).high(self.y0).high(self.y1).high(self.y2).high(self.y3),
        )
    }

    /// The box round the four corners, as `(left, bottom, right, top)`.
    pub fn bbox(self) -> (r: (Coord, Coord, Coord, Coord))
        ensures
            r == self.bounds(),
    {
        let high = Coord(INFINITY);
        let low = Coord(-INFINITY);
        (
            high.lower(self.x0).lower(self.x1).lower(self.x2).lower(self.x3),
            high.lower(self.y0).lower(self.y1).lower(self.y2).lower(self.y3),
            low.higher(self.x0).higher(self.x1).higher(self.x2).higher(self.x3),
            low.higher(self.y0).higher(self.y1).higher(self.y2).higher(self.y3),
        )
    }

    pub fn contains(self, x: Coord, y: Coord) -> (r: bool)
        ensures
            r == self.covers(x, y),
    {
        let (left, bottom, right, top) = self.sides();
        left.is_at_most(x) && x.is_at_most(right) && bottom.is_at_most(y) && y.is_at_most(top)
    }

    pub fn union(self, other: Quad) -> (r: Quad)
        ensures
            r == self.joined(other),
    {
        let (l0, b0, r0, t0) = self.sides();
        let (l1, b1, r1, t1) = other.sides();
        Quad::from_rect(l0.lower(l1), b0.lower(b1), r0.higher(r1), t0.higher(t1))
    }
}

/// The rectangle round two quads holds every point that either of them holds.
pub proof fn law_union_covers_both(a: Quad, b: Quad, x: Coord, y: Coord)
    ensures
        a.covers(x, y) ==> a.joined(b).covers(x, y),
        b.covers(x, y) ==> a.joined(b).covers(x, y),
{
}

/// An image of a page, four bytes to the pixel.
#[derive(Debug, Clone)]
pub struct Bitmap {
    pub width: u32,
    pub height: u32,
    pub rgba: Vec<u8>,
}

/// A cluster of characters and where it stands on the page.
#[derive(Debug, Clone)]
pub struct Glyph {
    pub cluster: String,
    pub quad: Quad,
}

/// The text of a page: as one string, and glyph by glyph.
#[derive(Debug, Clone)]
pub struct TextLayer {
    pub page: PageNo,
    pub plain: String,
    pub glyphs: Vec<Glyph>,
}

/// A byte offset, as far as one can be held.
pub open spec fn capped(offset: nat) -> nat {
    if offset <= usize::MAX {
        offset
    } else {
        usize::MAX as nat
    }
}

/// The bytes of the first `n` glyphs together.
pub open spec fn glyph_bytes(glyphs: Seq<Glyph>, n: int) -> nat
    decreases n,
{
    if n <= 0 {
        0
    } else {
        glyph_bytes(glyphs, n - 1) + byte_len(glyphs[n - 1].cluster@)
    }
}

/// The byte at which glyph `n` begins in the text of its layer.
pub open spec fn glyph_offset(glyphs: Seq<Glyph>, n: int) -> nat {
    capped(glyph_bytes(glyphs, n))
}

/// Glyphs begin in the order in which they stand.
pub proof fn lemma_glyph_offset_grows(glyphs: Seq<Glyph>, i: int, j: int)
    requires
        0 <= i <= j,
    ensures
        glyph_bytes(glyphs, i) <= glyph_bytes(glyphs, j),
        glyph_offset(glyphs, i) <= glyph_offset(glyphs, j),
    decreases j - i,
{
    if i < j {
        lemma_glyph_offset_grows(glyphs, i, j - 1);
    }
}

/// The place of the least of the first `n` distances, the first of them
/// where several are least.
pub open spec fn nearest(distances: Seq<Coord>, n: int) -> Option<int>
    decreases n,
{
    if n <= 0 {
        None
    } else {
        match nearest(distances, n - 1) {
            None => Some(n - 1),
            Some(best) => if distances[n - 1].below(distances[best]) {
                Some(n - 1)
            } else {
                Some(best)
            },
        }
    }
}

/// Among distances that are all numbers, the chosen one is the least, and
/// those before it are greater.
pub proof fn law_nearest_is_first_least(distances: Seq<Coord>, n: int)
    requires
        0 < n <= distances.len(),
        forall|i: int| 0 <= i < n ==> (#[trigger] distances[i]).number(),
    ensures
        nearest(distances, n) is Some,
        0 <= nearest(distances, n)->0 < n,
        forall|i: int|
            0 <= i < n ==> distances[nearest(distances, n)->0].0 <= (#[trigger] distances[i]).0,
        forall|i: int|
            0 <= i < nearest(distances, n)->0 ==> distances[nearest(distances, n)->0].0 < (
            #[trigger] distances[i]).0,
    decreases n,
{
    if n > 1 {
        law_nearest_is_first_least(distances, n - 1);
    } else {
        assert(nearest(distances, 0) is None);
    }
}

/// The first of the first `n` glyphs that stands at a point.
pub open spec fn hit_upto(glyphs: Seq<Glyph>, page_pt: Point, n: int) -> Option<int>
    decreases n,
{
    if n <= 0 {
        None
    } else {
        match hit_upto(glyphs, page_pt, n - 1) {
            Some(i) => Some(i),
            None => if glyphs[n - 1].quad.covers(page_pt.x, page_pt.y) {
                Some(n - 1)
            } else {
                None
            },
        }
    }
}

proof fn lemma_hit_stays(glyphs: Seq<Glyph>, page_pt: Point, m: int, n: int)
    requires
        m <= n,
        hit_upto(glyphs, page_pt, m) is Some,
    ensures
        hit_upto(glyphs, page_pt, n) == hit_upto(glyphs, page_pt, m),
    decreases n,
{
    if m < n {
        lemma_hit_stays(glyphs, page_pt, m, n - 1);
    }
}

/// A glyph that is hit covers the point, and none before it does.
pub proof fn law_hit_is_first(glyphs: Seq<Glyph>, page_pt: Point, n: int)
    requires
        0 <= n <= glyphs.len(),
    ensures
        match hit_upto(glyphs, page_pt, n) {
            Some(i) => 0 <= i < n && glyphs[i].quad.covers(page_pt.x, page_pt.y) && (forall|j: int|
                0 <= j < i ==> !(#[trigger] glyphs[j]).quad.covers(page_pt.x, page_pt.y)),
            None => forall|j: int|
                0 <= j < n ==> !(#[trigger] glyphs[j]).quad.covers(page_pt.x, page_pt.y),
        },
    decreases n,
{
    if n > 0 {
        law_hit_is_first(glyphs, page_pt, n - 1);
    }
}

/// Where the distances are none exactly for the glyphs that a point lies in,
/// the nearest glyph is there as soon as there is a glyph, no glyph is nearer,
/// those before it are further off, and a glyph that is hit is the nearest.
pub proof fn law_hit_is_nearest(layer: TextLayer, page_pt: Point, distances: Seq<Coord>)
    requires
        distances.len() == layer.glyphs@.len(),
        forall|i: int|
            0 <= i < distances.len() ==> (#[trigger] distances[i]).number() && 0
                <= distances[i].0 && (distances[i].0 == 0
                <==> layer.glyphs@[i].quad.covers(page_pt.x, page_pt.y)),
    ensures
        nearest(distances, layer.measured(distances)) is None <==> layer.glyphs@.len() == 0,
        match nearest(distances, layer.measured(distances)) {
            Some(n) => {
                &&& 0 <= n < distances.len()
                &&& forall|i: int|
                    0 <= i < distances.len() ==> distances[n].0 <= (#[trigger] distances[i]).0
                &&& forall|i: int| 0 <= i < n ==> distances[n].0 < (#[trigger] distances[i]).0
            },
            None => true,
        },
        match hit_upto(layer.glyphs@, page_pt, layer.glyphs@.len() as int) {
            Some(i) => nearest(distances, layer.measured(distances)) == Some(i),
            None => true,
        },
{
    let n = distances.len() as int;
    law_hit_is_first(layer.glyphs@, page_pt, n);
    if n > 0 {
        law_nearest_is_first_least(distances, n);
        let best = nearest(distances, n)->0;
        match hit_upto(layer.glyphs@, page_pt, n) {
            Some(i) => {
                assert(distances[i].0 == 0);
                assert(distances[best].0 == 0);
                assert(layer.glyphs@[best].quad.covers(page_pt.x, page_pt.y));
            },
            None => {},
        }
    }
}

impl TextLayer {
    /// The first glyph at a point of the page.
    pub fn hit(&self, page_pt: Point) -> (r: Option<usize>)
        ensures
            match hit_upto(self.glyphs@, page_pt, self.glyphs@.len() as int) {
                Some(i) => r is Some && r->0 == i && 0 <= i < self.glyphs@.len(),
                None => r is None,
            },
    {
        let mut i: usize = 0;
        while i < self.glyphs.len()
            invariant
                i <= self.glyphs@.len(),
                hit_upto(self.glyphs@, page_pt, i as int) is None,
            decreases self.glyphs@.len() - i,
        {
            if self.glyphs[i].quad.contains(page_pt.x, page_pt.y) {
                proof {
                    lemma_hit_stays(self.glyphs@, page_pt, i + 1, self.glyphs@.len() as int);
                }
                return Some(i);
            }
            i += 1;
        }
        None
    }

    /// The glyph nearest to a point, given the distance from the point to
    /// each glyph (zero where it lies inside). A drag follows the pointer with
    /// it even between two lines. Glyphs without a distance are not looked at.
    pub fn hit_nearest(&self, distances: &Vec<Coord>) -> (r: Option<usize>)
        ensures
            match nearest(distances@, self.measured(distances@)) {
                Some(i) => r is Some && r->0 == i && 0 <= i < self.glyphs@.len(),
                None => r is None,
            },
            r is None <==> self.measured(distances@) == 0,
    {
        let mut best: Option<usize> = None;
        let mut i: usize = 0;
        while i < distances.len() && i < self.glyphs.len()
            invariant
                i <= self.measured(distances@),
                match nearest(distances@, i as int) {
                    Some(b) => best is Some && best->0 == b && 0 <= b < i,
                    None => best is None && i == 0,
                },
            decreases distances@.len() - i,
        {
            match best {
                None => {
                    best = Some(i);
                },
                Some(b) => {
                    if distances[i].is_below(distances[b]) {
                        best = Some(i);
                    }
                },
            }
            i += 1;
        }
        best
    }

    /// How many glyphs have a distance.
    pub open spec fn measured(&self, distances: Seq<Coord>) -> int {
        if distances.len() <= self.glyphs@.len() {
            distances.len() as int
        } else {
            self.glyphs@.len() as int
        }
    }

    /// The text between two bytes, each moved on to where the next character
    /// begins.
    pub fn slice(&self, range: TextRange) -> (s: String)
        ensures
            s@ == sliced(self.plain@, range),
    {
        let chars = chars_of(self.plain.as_str());
        let start = char_at(&chars, range.start);
        let end = char_at(&chars, range.end);
        if start >= end {
            String::new()
        } else {
            sub_text(&chars, start, end)
        }
    }
}

/// A piece of a layer's text, from one byte up to another.
#[derive(Debug, Clone, Copy, PartialEq, Eq, Structural)]
pub struct TextRange {
    pub start: usize,
    pub end: usize,
}

/// The first character that begins at a byte or after it, looked for among
/// the first `n`; the end of the text where there is none.
pub open spec fn boundary(chars: Seq<char>, byte: int, n: int) -> int
    decreases n,
{
    if n <= 0 {
        0
    } else if byte_len(chars.take(n - 1)) >= byte {
        boundary(chars, byte, n - 1)
    } else {
        n
    }
}

/// What a range cuts out of a text.
pub open spec fn sliced(chars: Seq<char>, range: TextRange) -> Seq<char> {
    let start = boundary(chars, range.start as int, chars.len() as int);
    let end = boundary(chars, range.end as int, chars.len() as int);
    if start >= end {
        Seq::empty()
    } else {
        chars.subrange(start, end)
    }
}

/// A boundary is the first character that begins at the byte or after it.
pub proof fn lemma_boundary(chars: Seq<char>, byte: int, n: int, at: int)
    requires
        0 <= at <= n <= chars.len(),
        at < n ==> byte_len(chars.take(at)) >= byte,
        at > 0 ==> byte_len(chars.take(at - 1)) < byte,
    ensures
        boundary(chars, byte, n) == at,
    decreases n,
{
    if n > at {
        lemma_byte_len_prefix(chars, at, n - 1);
        lemma_boundary(chars, byte, n - 1, at);
    }
}

/// The characters of a range that ends where another begins, and those of
/// that other one, are those of the two together.
pub proof fn law_slices_join(chars: Seq<char>, a: usize, b: usize, c: usize)
    requires
        a <= b <= c,
    ensures
        sliced(chars, TextRange { start: a, end: b }) + sliced(chars, TextRange { start: b, end: c })
            == sliced(chars, TextRange { start: a, end: c }),
{
    let n = chars.len() as int;
    lemma_boundary_grows(chars, a as int, b as int, n);
    lemma_boundary_grows(chars, b as int, c as int, n);
    assert(sliced(chars, TextRange { start: a, end: b }) + sliced(
        chars,
        TextRange { start: b, end: c },
    ) =~= sliced(chars, TextRange { start: a, end: c }));
}

proof fn lemma_boundary_grows(chars: Seq<char>, a: int, b: int, n: int)
    requires
        a <= b,
        0 <= n <= chars.len(),
    ensures
        0 <= boundary(chars, a, n) <= boundary(chars, b, n) <= n,
    decreases n,
{
    if n > 0 {
        lemma_boundary_grows(chars, a, b, n - 1);
    }
}

/// The first character of `chars` that begins at `byte` or after it.
pub fn char_at(chars: &Vec<char>, byte: usize) -> (at: usize)
    ensures
        at == boundary(chars@, byte as int, chars@.len() as int),
        at <= chars@.len(),
{
    let mut at: usize = 0;
    let mut cursor: usize = 0;
    while at < chars.len() && cursor < byte
        invariant
            at <= chars@.len(),
            cursor < byte ==> cursor == byte_len(chars@.take(at as int)),
            cursor >= byte ==> byte_len(chars@.take(at as int)) >= byte,
            at > 0 ==> byte_len(chars@.take(at - 1)) < byte,
        decreases chars@.len() - at,
    {
        let width = char_bytes(chars[at]);
        proof {
            lemma_byte_len_push(chars@.take(at as int), chars@[at as int]);
            assert(chars@.take(at as int).push(chars@[at as int]) =~= chars@.take(at + 1));
        }
        cursor = cursor.saturating_add(width);
        at += 1;
    }
    proof {
        lemma_boundary(chars@, byte as int, chars@.len() as int, at as int);
    }
    at
}

/// The byte of the first character that begins at byte `i` or after it; the
/// length of the text where there is none.
pub fn next_char_boundary(s: &str, i: usize) -> (r: usize)
    ensures
        r == byte_len(s@.take(boundary(s@, i as int, s@.len() as int))),
{
    let total = byte_length(s);
    let chars = chars_of(s);
    let at = char_at(&chars, i);
    let mut k: usize = 0;
    let mut cursor: usize = 0;
    proof {
        assert(s@.take(s@.len() as int) =~= s@);
    }
    while k < at
        invariant
            k <= at <= chars@.len(),
            chars@ == s@,
            cursor == byte_len(s@.take(k as int)),
            total == byte_len(s@.take(s@.len() as int)),
        decreases at - k,
    {
        proof {
            lemma_byte_len_push(s@.take(k as int), s@[k as int]);
            assert(s@.take(k as int).push(s@[k as int]) =~= s@.take(k + 1));
            lemma_byte_len_prefix(s@, k + 1, s@.len() as int);
        }
        cursor += char_bytes(chars[k]);
        k += 1;
    }
    cursor
}

/// Whether glyph `i` holds a byte of the range from `start` up to `end`.
pub open spec fn touches(glyphs: Seq<Glyph>, start: int, end: int, i: int) -> bool {
    glyph_offset(glyphs, i) < end && glyph_offset(glyphs, i + 1) > start
}

/// The rectangle round those of the first `n` glyphs that a range touches.
pub open spec fn touched_quad(glyphs: Seq<Glyph>, start: int, end: int, n: int) -> Option<Quad>
    decreases n,
{
    if n <= 0 {
        None
    } else if !touches(glyphs, start, end, n - 1) {
        touched_quad(glyphs, start, end, n - 1)
    } else {
        match touched_quad(glyphs, start, end, n - 1) {
            None => Some(glyphs[n - 1].quad),
            Some(quad) => Some(quad.joined(glyphs[n - 1].quad)),
        }
    }
}

/// The rectangle round the glyphs of a range; an empty one at the origin
/// where the range touches none.
pub open spec fn range_quad(glyphs: Seq<Glyph>, start: int, end: int) -> Quad {
    match touched_quad(glyphs, start, end, glyphs.len() as int) {
        Some(quad) => quad,
        None => rect_quad(Coord(0), Coord(0), Coord(0), Coord(0)),
    }
}

proof fn lemma_untouched_before(glyphs: Seq<Glyph>, start: int, end: int, n: int)
    requires
        0 <= n,
        glyph_offset(glyphs, n) <= start,
    ensures
        touched_quad(glyphs, start, end, n) is None,
    decreases n,
{
    if n > 0 {
        lemma_glyph_offset_grows(glyphs, n - 1, n);
        lemma_untouched_before(glyphs, start, end, n - 1);
    }
}

proof fn lemma_untouched_after(glyphs: Seq<Glyph>, start: int, end: int, m: int, n: int)
    requires
        0 <= m <= n,
        glyph_offset(glyphs, m) >= end,
    ensures
        touched_quad(glyphs, start, end, n) == touched_quad(glyphs, start, end, m),
    decreases n,
{
    if n > m {
        lemma_glyph_offset_grows(glyphs, m, n - 1);
        lemma_untouched_after(glyphs, start, end, m, n - 1);
    }
}

/// The rectangle round the glyphs of a range, for ranges asked for in the
/// order in which they begin: the walk over the glyphs goes on from where the
/// last one left it.
pub fn quads_for_range_monotonic(
    glyphs: &Vec<Glyph>,
    start: usize,
    end: usize,
    glyph_idx: &mut usize,
    byte_cursor: &mut usize,
) -> (quad: Quad)
    requires
        *old(glyph_idx) <= glyphs@.len(),
        *old(byte_cursor) == glyph_offset(glyphs@, *old(glyph_idx) as int),
        *old(byte_cursor) <= start,
    ensures
        *final(glyph_idx) <= glyphs@.len(),
        *final(byte_cursor) == glyph_offset(glyphs@, *final(glyph_idx) as int),
        *final(byte_cursor) <= start,
        quad == range_quad(glyphs@, start as int, end as int),
{
    while *glyph_idx < glyphs.len()
        invariant
            *glyph_idx <= glyphs@.len(),
            *byte_cursor == glyph_offset(glyphs@, *glyph_idx as int),
            *byte_cursor <= start,
        decreases glyphs@.len() - *glyph_idx,
    {
        let next = byte_cursor.saturating_add(byte_length(glyphs[*glyph_idx].cluster.as_str()));
        if next > start {
            break ;
        }
        *byte_cursor = next;
        *glyph_idx = *glyph_idx + 1;
    }
    let mut acc: Option<Quad> = None;
    let mut cursor: usize = *byte_cursor;
    let mut i: usize = *glyph_idx;
    proof {
        lemma_untouched_before(glyphs@, start as int, end as int, i as int);
    }
    while i < glyphs.len()
        invariant
            i <= glyphs@.len(),
            cursor == glyph_offset(glyphs@, i as int),
            acc == touched_quad(glyphs@, start as int, end as int, i as int),
        ensures
            acc == touched_quad(glyphs@, start as int, end as int, glyphs@.len() as int),
        decreases glyphs@.len() - i,
    {
        let next = cursor.saturating_add(byte_length(glyphs[i].cluster.as_str()));
        if cursor < end && next > start {
            acc = Some(match acc {
                None => glyphs[i].quad,
                Some(q) => q.union(glyphs[i].quad),
            });
        }
        cursor = next;
        i += 1;
        if cursor >= end {
            proof {
                lemma_untouched_after(
                    glyphs@,
                    start as int,
                    end as int,
                    i as int,
                    glyphs@.len() as int,
                );
            }
            break ;
        }
    }
    match acc {
        Some(quad) => quad,
        None => Quad::from_rect(Coord(0), Coord(0), Coord(0), Coord(0)),
    }
}

/// The rectangle round the glyphs of any range.
pub fn quad_for_range(glyphs: &Vec<Glyph>, start: usize, end: usize) -> (quad: Quad)
    ensures
        quad == range_quad(glyphs@, start as int, end as int),
{
    let mut glyph_idx: usize = 0;
    let mut byte_cursor: usize = 0;
    quads_for_range_monotonic(glyphs, start, end, &mut glyph_idx, &mut byte_cursor)
}

/// A box of a line: left, bottom, right and top.
pub type LineBox = (Coord, Coord, Coord, Coord);

/// Whether a glyph goes on the line that ends in `last`: it overlaps the line
/// vertically and does not begin to the left of it.
pub open spec fn same_line(last: LineBox, glyph: LineBox) -> bool {
    glyph.1.at_most(last.3) && last.1.at_most(glyph.3) && last.0.at_most(glyph.0)
}

/// A line with one more glyph.
pub open spec fn grown(last: LineBox, glyph: LineBox) -> LineBox {
    (last.0.low(glyph.0), last.1.low(glyph.1), last.2.high(glyph.2), last.3.high(glyph.3))
}

/// The lines of those of the first `n` glyphs that a range touches.
pub open spec fn touched_lines(glyphs: Seq<Glyph>, start: int, end: int, n: int) -> Seq<LineBox>
    decreases n,
{
    if n <= 0 {
        Seq::empty()
    } else {
        let lines = touched_lines(glyphs, start, end, n - 1);
        let glyph = glyphs[n - 1].quad.bounds();
        if !touches(glyphs, start, end, n - 1) {
            lines
        } else if lines.len() > 0 && same_line(lines.last(), glyph) {
            lines.drop_last().push(grown(lines.last(), glyph))
        } else {
            lines.push(glyph)
        }
    }
}

/// One rectangle to each line of a range.
pub open spec fn line_quads(glyphs: Seq<Glyph>, start: int, end: int) -> Seq<Quad> {
    touched_lines(glyphs, start, end, glyphs.len() as int).map_values(
        |line: LineBox| rect_quad(line.0, line.1, line.2, line.3),
    )
}

proof fn lemma_lines_after(glyphs: Seq<Glyph>, start: int, end: int, m: int, n: int)
    requires
        0 <= m <= n,
        glyph_offset(glyphs, m) >= end,
    ensures
        touched_lines(glyphs, start, end, n) == touched_lines(glyphs, start, end, m),
    decreases n,
{
    if n > m {
        lemma_glyph_offset_grows(glyphs, m, n - 1);
        lemma_lines_after(glyphs, start, end, m, n - 1);
    }
}

/// One rectangle to each line of a range, so that the gap between two lines
/// is never painted. Glyphs that follow each other and overlap vertically
/// share a line; one that steps back to the left begins another.
pub fn quads_for_range_by_line(glyphs: &Vec<Glyph>, start: usize, end: usize) -> (quads: Vec<Quad>)
    ensures
        quads@ == line_quads(glyphs@, start as int, end as int),
{
    let mut lines: Vec<LineBox> = Vec::new();
    let mut cursor: usize = 0;
    let mut i: usize = 0;
    while i < glyphs.len()
        invariant
            i <= glyphs@.len(),
            cursor == glyph_offset(glyphs@, i as int),
            lines@ == touched_lines(glyphs@, start as int, end as int, i as int),
        ensures
            lines@ == touched_lines(glyphs@, start as int, end as int, glyphs@.len() as int),
        decreases glyphs@.len() - i,
    {
        let next = cursor.saturating_add(byte_length(glyphs[i].cluster.as_str()));
        if cursor < end && next > start {
            let (x0, y0, x1, y1) = glyphs[i].quad.bbox();
            let count = lines.len();
            let merge = if count > 0 {
                let last = lines[count - 1];
                y0.is_at_most(last.3) && last.1.is_at_most(y1) && last.0.is_at_most(x0)
            } else {
                false
            };
            if merge {
                let last = lines[count - 1];
                lines.pop();
                lines.push(
                    (last.0.lower(x0), last.1.lower(y0), last.2.higher(x1), last.3.higher(y1)),
                );
            } else {
                lines.push((x0, y0, x1, y1));
            }
        }
        cursor = next;
        i += 1;
        if cursor >= end {
            proof {
                lemma_lines_after(
                    glyphs@,
                    start as int,
                    end as int,
                    i as int,
                    glyphs@.len() as int,
                );
            }
            break ;
        }
    }
    let mut quads: Vec<Quad> = Vec::new();
    let mut k: usize = 0;
    while k < lines.len()
        invariant
            k <= lines@.len(),
            quads@ == lines@.map_values(
                |line: LineBox| rect_quad(line.0, line.1, line.2, line.3),
            ).take(k as int),
        decreases lines@.len() - k,
    {
        let line = lines[k];
        quads.push(Quad::from_rect(line.0, line.1, line.2, line.3));
        k += 1;
        assert(quads@ =~= lines@.map_values(
            |line: LineBox| rect_quad(line.0, line.1, line.2, line.3),
        ).take(k as int));
    }
    assert(quads@ =~= line_quads(glyphs@, start as int, end as int));
    quads
}

/// The bytes of a glyph in its layer's text.
pub open spec fn glyph_range(glyphs: Seq<Glyph>, i: int) -> TextRange {
    TextRange {
        start: glyph_offset(glyphs, i) as usize,
        end: glyph_offset(glyphs, i + 1) as usize,
    }
}

/// What the first `n` glyphs hold, one after the other.
pub open spec fn glyphs_text(glyphs: Seq<Glyph>, n: int) -> Seq<char>
    decreases n,
{
    if n <= 0 {
        Seq::empty()
    } else {
        glyphs_text(glyphs, n - 1) + glyphs[n - 1].cluster@
    }
}

proof fn lemma_glyphs_text(glyphs: Seq<Glyph>, m: int, n: int)
    requires
        0 <= m <= n,
    ensures
        byte_len(glyphs_text(glyphs, m)) == glyph_bytes(glyphs, m),
        glyphs_text(glyphs, m).len() <= glyphs_text(glyphs, n).len(),
        glyphs_text(glyphs, n).take(glyphs_text(glyphs, m).len() as int) == glyphs_text(glyphs, m),
    decreases n,
{
    if m < n {
        lemma_glyphs_text(glyphs, m, n - 1);
        assert(glyphs_text(glyphs, n).take(glyphs_text(glyphs, m).len() as int)
            =~= glyphs_text(glyphs, n - 1).take(glyphs_text(glyphs, m).len() as int));
    } else if n > 0 {
        lemma_glyphs_text(glyphs, n - 1, n - 1);
        lemma_byte_len_concat(glyphs_text(glyphs, n - 1), glyphs[n - 1].cluster@);
        assert(glyphs_text(glyphs, n).take(glyphs_text(glyphs, n).len() as int)
            =~= glyphs_text(glyphs, n));
    } else {
        assert(glyphs_text(glyphs, 0).take(0) =~= glyphs_text(glyphs, 0));
    }
}

/// Where the text of a page is what its glyphs hold, the bytes of a glyph cut
/// out of the text what the glyph holds.
pub proof fn law_glyph_bytes_index_text(layer: TextLayer, i: int)
    requires
        0 <= i < layer.glyphs@.len(),
        layer.plain@ == glyphs_text(layer.glyphs@, layer.glyphs@.len() as int),
        byte_len(layer.plain@) <= usize::MAX,
    ensures
        sliced(layer.plain@, glyph_range(layer.glyphs@, i)) == layer.glyphs@[i].cluster@,
{
    let glyphs = layer.glyphs@;
    let n = glyphs.len() as int;
    let chars = layer.plain@;
    let a = glyphs_text(glyphs, i).len() as int;
    let b = glyphs_text(glyphs, i + 1).len() as int;
    lemma_glyphs_text(glyphs, i, n);
    lemma_glyphs_text(glyphs, i + 1, n);
    lemma_glyphs_text(glyphs, i, i + 1);
    lemma_glyphs_text(glyphs, n, n);
    lemma_byte_len_prefix(chars, a, b);
    lemma_byte_len_prefix(chars, b, chars.len() as int);
    assert(chars.take(chars.len() as int) =~= chars);
    if a > 0 {
        lemma_byte_len_prefix(chars, a - 1, a);
    }
    if b > 0 {
        lemma_byte_len_prefix(chars, b - 1, b);
    }
    lemma_boundary(chars, glyph_bytes(glyphs, i) as int, chars.len() as int, a);
    lemma_boundary(chars, glyph_bytes(glyphs, i + 1) as int, chars.len() as int, b);
    assert(chars.subrange(a, b) =~= chars.take(b).skip(a));
    assert(glyphs_text(glyphs, i + 1).skip(a) =~= glyphs[i].cluster@);
}

/// The bytes of glyph `index` in its layer's text; none where there is no such
/// glyph.
pub fn glyph_byte_range(layer: &TextLayer, index: usize) -> (r: (usize, usize))
    ensures
        index < layer.glyphs@.len() ==> r.0 == glyph_offset(layer.glyphs@, index as int) && r.1
            == glyph_offset(layer.glyphs@, index + 1),
        index >= layer.glyphs@.len() ==> r == (0usize, 0usize),
{
    let mut cursor: usize = 0;
    let mut i: usize = 0;
    while i < layer.glyphs.len()
        invariant
            i <= layer.glyphs@.len(),
            i <= index,
            cursor == glyph_offset(layer.glyphs@, i as int),
        decreases layer.glyphs@.len() - i,
    {
        let next = cursor.saturating_add(byte_length(layer.glyphs[i].cluster.as_str()));
        if i == index {
            return (cursor, next);
        }
        cursor = next;
        i += 1;
    }
    (0, 0)
}

/// What a selection covers: the piece under the press and that under the
/// pointer, and what lies between them. Without a press, only the latter.
pub open spec fn extended(anchor: Option<TextRange>, cursor: (usize, usize)) -> TextRange {
    let from = match anchor {
        Some(a) => (a.start, a.end),
        None => cursor,
    };
    TextRange {
        start: if from.0 <= cursor.0 {
            from.0
        } else {
            cursor.0
        },
        end: if from.1 >= cursor.1 {
            from.1
        } else {
            cursor.1
        },
    }
}

/// Extends a selection from where it was pressed: pulled back, it shrinks.
pub fn extend_range(anchor: Option<TextRange>, cursor: (usize, usize)) -> (r: TextRange)
    ensures
        r == extended(anchor, cursor),
{
    let (start, end) = match anchor {
        Some(a) => (a.start, a.end),
        None => cursor,
    };
    TextRange {
        start: if start <= cursor.0 {
            start
        } else {
            cursor.0
        },
        end: if end >= cursor.1 {
            end
        } else {
            cursor.1
        },
    }
}

/// However the pointer moved, a selection holds the piece that was pressed,
/// and it holds no more than that piece once the pointer is back on it.
pub proof fn law_selection_keeps_anchor(anchor: TextRange, cursor: (usize, usize))
    ensures
        extended(Some(anchor), cursor).start <= anchor.start,
        extended(Some(anchor), cursor).end >= anchor.end,
        extended(Some(anchor), cursor).start <= cursor.0,
        extended(Some(anchor), cursor).end >= cursor.1,
        extended(Some(anchor), (anchor.start, anchor.end)) == anchor,
{
}

/// A page as it was rendered.
#[derive(Debug, Clone)]
pub struct PageSurface {
    pub bitmap: Bitmap,
    pub scale: Scale,
}

/// An entry of a document's table of contents, with the entries below it.
#[derive(Debug)]
pub struct OutlineItem {
    pub title: String,
    pub page: PageNo,
    pub children: Vec<OutlineItem>,
}

/// A document's table of contents.
#[derive(Debug)]
pub struct Outline {
    pub items: Vec<OutlineItem>,
}

/// What went wrong in the page engine, in words.
#[derive(Debug, Clone)]
pub struct EngineError(pub String);

} // verus!
