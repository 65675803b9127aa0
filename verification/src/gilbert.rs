//! The generalized Hilbert ("Gilbert") curve on an arbitrary rectangle.
//!
//! The curve is defined by recursive subdivision of an oriented rectangle, a
//! [`Frame`]: an origin cell and two axis-aligned edge vectors. [`walk`] is the
//! mathematical curve and [`gilbert_d2xy`] computes it. The lemmas show that
//! the curve visits every cell of the rectangle exactly once, and that it goes
//! from each cell to one that touches it.

use vstd::prelude::*;

verus! {

/// A grid coordinate.
#[derive(Clone, Copy, Debug, PartialEq, Eq, Structural)]
pub struct Point {
    pub x: i32,
    pub y: i32,
}

/// A cell of the unbounded integer grid, or a displacement between two cells.
pub struct Cell {
    pub x: int,
    pub y: int,
}

impl View for Point {
    type V = Cell;

    open spec fn view(&self) -> Cell {
        Cell { x: self.x as int, y: self.y as int }
    }
}

/// The absolute value.
pub open spec fn abs(v: int) -> int {
    if v >= 0 { v } else { -v }
}

/// The sign: 1, 0 or -1.
pub open spec fn sign(v: int) -> int {
    if v > 0 { 1 } else if v < 0 { -1 } else { 0 }
}

/// Half of `v`, rounded toward zero.
pub open spec fn half(v: int) -> int {
    if v >= 0 { v / 2 } else { -((-v) / 2) }
}

impl Cell {
    pub open spec fn plus(self, o: Cell) -> Cell {
        Cell { x: self.x + o.x, y: self.y + o.y }
    }

    pub open spec fn minus(self, o: Cell) -> Cell {
        Cell { x: self.x - o.x, y: self.y - o.y }
    }

    pub open spec fn negated(self) -> Cell {
        Cell { x: -self.x, y: -self.y }
    }

    pub open spec fn scaled(self, k: int) -> Cell {
        Cell { x: self.x * k, y: self.y * k }
    }

    pub open spec fn halved(self) -> Cell {
        Cell { x: half(self.x), y: half(self.y) }
    }

    /// The unit step in the direction of an axis-aligned vector.
    pub open spec fn unit(self) -> Cell {
        Cell { x: sign(self.x), y: sign(self.y) }
    }

    /// The length of an axis-aligned vector.
    pub open spec fn span(self) -> int {
        abs(self.x + self.y)
    }

    /// Half of an axis-aligned vector, made one step longer where the half is
    /// odd and the whole is longer than two: the pieces of a split then tend to
    /// have even length.
    pub open spec fn even_half(self) -> Cell {
        if self.halved().span() % 2 != 0 && self.span() > 2 {
            self.halved().plus(self.unit())
        } else {
            self.halved()
        }
    }
}

/// An oriented rectangle: the cells `p + i * unit(a) + j * unit(b)` with
/// `0 <= i < span(a)` and `0 <= j < span(b)`.
pub struct Frame {
    pub p: Cell,
    pub a: Cell,
    pub b: Cell,
}

/// The first cell of the range that a signed extent `s` covers from `p`.
pub open spec fn range_lo(p: int, s: int) -> int {
    if s > 0 { p } else { p + s + 1 }
}

/// One past the last cell of the range that a signed extent `s` covers from `p`.
pub open spec fn range_hi(p: int, s: int) -> int {
    if s > 0 { p + s } else { p + 1 }
}

impl Frame {
    /// The two edges are axis-aligned, perpendicular and not empty.
    pub open spec fn oriented(self) -> bool {
        ||| (self.a.y == 0 && self.b.x == 0 && self.a.x != 0 && self.b.y != 0)
        ||| (self.a.x == 0 && self.b.y == 0 && self.a.y != 0 && self.b.x != 0)
    }

    pub open spec fn w(self) -> int {
        self.a.span()
    }

    pub open spec fn h(self) -> int {
        self.b.span()
    }

    pub open spec fn area(self) -> int {
        self.w() * self.h()
    }

    pub open spec fn x_lo(self) -> int {
        range_lo(self.p.x, self.a.x + self.b.x)
    }

    pub open spec fn x_hi(self) -> int {
        range_hi(self.p.x, self.a.x + self.b.x)
    }

    pub open spec fn y_lo(self) -> int {
        range_lo(self.p.y, self.a.y + self.b.y)
    }

    pub open spec fn y_hi(self) -> int {
        range_hi(self.p.y, self.a.y + self.b.y)
    }

    pub open spec fn contains(self, q: Cell) -> bool {
        self.x_lo() <= q.x < self.x_hi() && self.y_lo() <= q.y < self.y_hi()
    }

    /// Every coordinate of the frame is a non-negative `i32`.
    pub open spec fn fits(self) -> bool {
        &&& 0 <= self.x_lo()
        &&& self.x_hi() <= i32::MAX
        &&& 0 <= self.y_lo()
        &&& self.y_hi() <= i32::MAX
    }

    /// Every cell of `self` is a cell of `o`.
    pub open spec fn within(self, o: Frame) -> bool {
        &&& o.x_lo() <= self.x_lo()
        &&& self.x_hi() <= o.x_hi()
        &&& o.y_lo() <= self.y_lo()
        &&& self.y_hi() <= o.y_hi()
    }

    /// No cell belongs to both frames.
    pub open spec fn apart(self, o: Frame) -> bool {
        ||| self.x_hi() <= o.x_lo()
        ||| o.x_hi() <= self.x_lo()
        ||| self.y_hi() <= o.y_lo()
        ||| o.y_hi() <= self.y_lo()
    }

    /// A single row or column, which the curve walks in a straight line.
    pub open spec fn line(self) -> bool {
        self.h() == 1 || self.w() == 1
    }

    /// A frame that is split in two along its first edge.
    pub open spec fn wide(self) -> bool {
        2 * self.w() > 3 * self.h()
    }

    /// The near half of a wide frame.
    pub open spec fn wide_first(self) -> Frame {
        Frame { p: self.p, a: self.a.even_half(), b: self.b }
    }

    /// The far half of a wide frame.
    pub open spec fn wide_second(self) -> Frame {
        Frame {
            p: self.p.plus(self.a.even_half()),
            a: self.a.minus(self.a.even_half()),
            b: self.b,
        }
    }

    /// The first of the three parts of a frame that is not wide: a step along
    /// the second edge, walked with the edges exchanged.
    pub open spec fn tall_first(self) -> Frame {
        Frame { p: self.p, a: self.b.even_half(), b: self.a.halved() }
    }

    /// The second part: the long run along the first edge.
    pub open spec fn tall_second(self) -> Frame {
        Frame {
            p: self.p.plus(self.b.even_half()),
            a: self.a,
            b: self.b.minus(self.b.even_half()),
        }
    }

    /// The third part: the step back, walked from the far corner.
    pub open spec fn tall_third(self) -> Frame {
        Frame {
            p: self.p.plus(self.a.minus(self.a.unit())).plus(
                self.b.even_half().minus(self.b.unit()),
            ),
            a: self.b.even_half().negated(),
            b: self.a.minus(self.a.halved()).negated(),
        }
    }
}

/// The cell that the curve through `f` visits at position `i`, counted from the
/// frame's first cell.
pub open spec fn walk(f: Frame, i: int) -> Cell
    decreases f.w() + f.h(),
    when f.oriented()
{
    if f.h() == 1 {
        f.p.plus(f.a.unit().scaled(i))
    } else if f.w() == 1 {
        f.p.plus(f.b.unit().scaled(i))
    } else if f.wide() {
        if i < f.wide_first().area() {
            walk(f.wide_first(), i)
        } else {
            walk(f.wide_second(), i - f.wide_first().area())
        }
    } else {
        let n1 = f.tall_first().area();
        let n2 = n1 + f.tall_second().area();
        if i < n1 {
            walk(f.tall_first(), i)
        } else if i < n2 {
            walk(f.tall_second(), i - n1)
        } else {
            walk(f.tall_third(), i - n2)
        }
    }
}

/// The frame of a whole `w` by `h` grid: the longer side is walked first.
pub open spec fn grid_frame(w: int, h: int) -> Frame {
    if w >= h {
        Frame { p: Cell { x: 0, y: 0 }, a: Cell { x: w, y: 0 }, b: Cell { x: 0, y: h } }
    } else {
        Frame { p: Cell { x: 0, y: 0 }, a: Cell { x: 0, y: h }, b: Cell { x: w, y: 0 } }
    }
}

/// The cell at position `i` of the curve that fills a `w` by `h` grid.
pub open spec fn curve_point(i: int, w: int, h: int) -> Cell {
    walk(grid_frame(w, h), i)
}

/// The area of an oriented frame is positive, and a product of its sides.
pub proof fn lemma_area_positive(f: Frame)
    requires
        f.oriented(),
    ensures
        f.w() >= 1,
        f.h() >= 1,
        f.area() >= 1,
        f.area() >= f.w(),
        f.area() >= f.h(),
{
    assert(f.w() >= 1 && f.h() >= 1 ==> f.w() * f.h() >= f.w() && f.w() * f.h() >= f.h())
        by (nonlinear_arith);
}

/// The two halves of a wide frame are frames that partition it.
pub proof fn lemma_wide_split(f: Frame)
    requires
        f.oriented(),
        !f.line(),
        f.wide(),
    ensures
        f.wide_first().oriented(),
        f.wide_second().oriented(),
        f.wide_first().within(f),
        f.wide_second().within(f),
        f.wide_first().apart(f.wide_second()),
        f.wide_first().area() + f.wide_second().area() == f.area(),
        f.wide_first().w() + f.wide_first().h() < f.w() + f.h(),
        f.wide_second().w() + f.wide_second().h() < f.w() + f.h(),
        forall|q: Cell| #[trigger]
            f.contains(q) ==> f.wide_first().contains(q) || f.wide_second().contains(q),
{
    let w1 = f.wide_first().w();
    let w2 = f.wide_second().w();
    let h = f.h();
    assert(w1 + w2 == f.w());
    assert(w1 * h + w2 * h == (w1 + w2) * h) by (nonlinear_arith);
}

/// The three parts of a frame that is not wide are frames that partition it.
pub proof fn lemma_tall_split(f: Frame)
    requires
        f.oriented(),
        !f.line(),
        !f.wide(),
    ensures
        f.tall_first().oriented(),
        f.tall_second().oriented(),
        f.tall_third().oriented(),
        f.tall_first().within(f),
        f.tall_second().within(f),
        f.tall_third().within(f),
        f.tall_first().apart(f.tall_second()),
        f.tall_first().apart(f.tall_third()),
        f.tall_second().apart(f.tall_third()),
        f.tall_first().area() + f.tall_second().area() + f.tall_third().area() == f.area(),
        f.tall_first().w() + f.tall_first().h() < f.w() + f.h(),
        f.tall_second().w() + f.tall_second().h() < f.w() + f.h(),
        f.tall_third().w() + f.tall_third().h() < f.w() + f.h(),
        forall|q: Cell| #[trigger]
            f.contains(q) ==> f.tall_first().contains(q) || f.tall_second().contains(q)
                || f.tall_third().contains(q),
{
    let w = f.w();
    let h = f.h();
    let h1 = f.b.even_half().span();
    let w1 = f.a.halved().span();
    assert(f.tall_first().w() == h1 && f.tall_first().h() == w1);
    assert(f.tall_second().w() == w && f.tall_second().h() == h - h1);
    assert(f.tall_third().w() == h1 && f.tall_third().h() == w - w1);
    assert(h1 * w1 + w * (h - h1) + h1 * (w - w1) == w * h) by (nonlinear_arith);
}

/// A step along a unit vector, taken `k` times.
pub proof fn lemma_unit_scaled(v: Cell, k: int)
    ensures
        v.unit().scaled(k).x == (if v.x > 0 { k } else if v.x < 0 { -k } else { 0 }),
        v.unit().scaled(k).y == (if v.y > 0 { k } else if v.y < 0 { -k } else { 0 }),
{
    assert(1 * k == k && (-1) * k == -k && 0 * k == 0) by (nonlinear_arith);
}

/// Every position of a frame's curve lies in the frame.
pub proof fn lemma_walk_inside(f: Frame, i: int)
    requires
        f.oriented(),
        0 <= i < f.area(),
    ensures
        f.contains(walk(f, i)),
    decreases f.w() + f.h(),
{
    lemma_area_positive(f);
    lemma_unit_scaled(f.a, i);
    lemma_unit_scaled(f.b, i);
    if f.h() == 1 {
        assert(f.area() == f.w()) by (nonlinear_arith)
            requires
                f.area() == f.w() * f.h(),
                f.h() == 1,
        ;
    } else if f.w() == 1 {
        assert(f.area() == f.h()) by (nonlinear_arith)
            requires
                f.area() == f.w() * f.h(),
                f.w() == 1,
        ;
    } else if f.wide() {
        lemma_wide_split(f);
        if i < f.wide_first().area() {
            lemma_walk_inside(f.wide_first(), i);
        } else {
            lemma_walk_inside(f.wide_second(), i - f.wide_first().area());
        }
    } else {
        lemma_tall_split(f);
        let n1 = f.tall_first().area();
        let n2 = n1 + f.tall_second().area();
        if i < n1 {
            lemma_walk_inside(f.tall_first(), i);
        } else if i < n2 {
            lemma_walk_inside(f.tall_second(), i - n1);
        } else {
            lemma_walk_inside(f.tall_third(), i - n2);
        }
    }
}

/// Two different positions of a frame's curve are two different cells.
pub proof fn lemma_walk_injective(f: Frame, i: int, j: int)
    requires
        f.oriented(),
        0 <= i < j < f.area(),
    ensures
        walk(f, i) != walk(f, j),
    decreases f.w() + f.h(),
{
    lemma_area_positive(f);
    lemma_unit_scaled(f.a, i);
    lemma_unit_scaled(f.b, i);
    lemma_unit_scaled(f.a, j);
    lemma_unit_scaled(f.b, j);
    if f.line() {
    } else if f.wide() {
        lemma_wide_split(f);
        let n1 = f.wide_first().area();
        if j < n1 {
            lemma_walk_injective(f.wide_first(), i, j);
        } else if i >= n1 {
            lemma_walk_injective(f.wide_second(), i - n1, j - n1);
        } else {
            lemma_walk_inside(f.wide_first(), i);
            lemma_walk_inside(f.wide_second(), j - n1);
        }
    } else {
        lemma_tall_split(f);
        let n1 = f.tall_first().area();
        let n2 = n1 + f.tall_second().area();
        if j < n1 {
            lemma_walk_injective(f.tall_first(), i, j);
        } else if i < n1 {
            lemma_walk_inside(f.tall_first(), i);
            if j < n2 {
                lemma_walk_inside(f.tall_second(), j - n1);
            } else {
                lemma_walk_inside(f.tall_third(), j - n2);
            }
        } else if j < n2 {
            lemma_walk_injective(f.tall_second(), i - n1, j - n1);
        } else if i < n2 {
            lemma_walk_inside(f.tall_second(), i - n1);
            lemma_walk_inside(f.tall_third(), j - n2);
        } else {
            lemma_walk_injective(f.tall_third(), i - n2, j - n2);
        }
    }
}

/// Every cell of a frame is visited: the result is a position of the curve at
/// which it visits `q`.
pub proof fn lemma_walk_onto(f: Frame, q: Cell) -> (i: int)
    requires
        f.oriented(),
        f.contains(q),
    ensures
        0 <= i < f.area(),
        walk(f, i) == q,
    decreases f.w() + f.h(),
{
    lemma_area_positive(f);
    let k = abs(q.x - f.p.x + (q.y - f.p.y));
    lemma_unit_scaled(f.a, k);
    lemma_unit_scaled(f.b, k);
    if f.h() == 1 {
        assert(f.area() == f.w()) by (nonlinear_arith)
            requires
                f.area() == f.w() * f.h(),
                f.h() == 1,
        ;
        k
    } else if f.w() == 1 {
        assert(f.area() == f.h()) by (nonlinear_arith)
            requires
                f.area() == f.w() * f.h(),
                f.w() == 1,
        ;
        k
    } else if f.wide() {
        lemma_wide_split(f);
        lemma_area_positive(f.wide_first());
        lemma_area_positive(f.wide_second());
        if f.wide_first().contains(q) {
            lemma_walk_onto(f.wide_first(), q)
        } else {
            f.wide_first().area() + lemma_walk_onto(f.wide_second(), q)
        }
    } else {
        lemma_tall_split(f);
        lemma_area_positive(f.tall_first());
        lemma_area_positive(f.tall_second());
        lemma_area_positive(f.tall_third());
        if f.tall_first().contains(q) {
            lemma_walk_onto(f.tall_first(), q)
        } else if f.tall_second().contains(q) {
            f.tall_first().area() + lemma_walk_onto(f.tall_second(), q)
        } else {
            f.tall_first().area() + f.tall_second().area() + lemma_walk_onto(f.tall_third(), q)
        }
    }
}

/// Where a frame's curve ends, counted in steps along the frame's first edge.
/// A column ends where it began; a frame of two rows and an odd number of
/// columns ends one cell short of its corner; every other frame ends in the
/// corner at the far end of its first edge.
pub open spec fn last_along(w: int, h: int) -> int {
    if w == 1 {
        0
    } else if h == 2 && w % 2 == 1 {
        w - 2
    } else {
        w - 1
    }
}

/// Where a frame's curve ends, counted in steps along the frame's second edge:
/// at the far end in a column, and at the near end in every other frame.
pub open spec fn last_across(w: int, h: int) -> int {
    if w == 1 {
        h - 1
    } else {
        0
    }
}

impl Frame {
    /// The cell `u` steps along the first edge and `v` steps along the second
    /// edge from the origin.
    pub open spec fn place(self, u: int, v: int) -> Cell {
        self.p.plus(self.a.unit().scaled(u)).plus(self.b.unit().scaled(v))
    }

    /// The last cell of the frame's curve.
    pub open spec fn last(self) -> Cell {
        self.place(last_along(self.w(), self.h()), last_across(self.w(), self.h()))
    }
}

/// Two cells are the same or touch, at a side or at a corner.
pub open spec fn touching(q: Cell, r: Cell) -> bool {
    -1 <= q.x - r.x <= 1 && -1 <= q.y - r.y <= 1
}

/// The length of the half that prefers even steps: even in every frame that
/// is split along that edge, and neither empty nor the whole.
pub proof fn lemma_even_half(v: Cell)
    requires
        (v.x == 0) != (v.y == 0),
        v.span() >= 2,
    ensures
        (v.even_half().x == 0) == (v.x == 0),
        (v.even_half().y == 0) == (v.y == 0),
        1 <= v.even_half().span() < v.span(),
        v.span() > 2 ==> v.even_half().span() % 2 == 0,
        v.span() == 2 ==> v.even_half().span() == 1,
        v.span() >= 4 ==> v.span() - v.even_half().span() >= 2,
        v.even_half().unit() == v.unit(),
        v.minus(v.even_half()).unit() == v.unit(),
        v.minus(v.even_half()).span() == v.span() - v.even_half().span(),
{
}

/// Places that differ by a step at most in either direction touch.
pub proof fn lemma_places_touching(f: Frame, u1: int, v1: int, u2: int, v2: int)
    requires
        f.oriented(),
        -1 <= u1 - u2 <= 1,
        -1 <= v1 - v2 <= 1,
    ensures
        touching(f.place(u1, v1), f.place(u2, v2)),
{
    lemma_unit_scaled(f.a, u1);
    lemma_unit_scaled(f.a, u2);
    lemma_unit_scaled(f.b, v1);
    lemma_unit_scaled(f.b, v2);
}

/// The places of the halves of a wide frame, as places of the frame.
pub proof fn lemma_wide_places(f: Frame, u: int, v: int)
    requires
        f.oriented(),
        !f.line(),
        f.wide(),
    ensures
        f.wide_first().place(u, v) == f.place(u, v),
        f.wide_second().place(u, v) == f.place(u + f.wide_first().w(), v),
{
    lemma_even_half(f.a);
    lemma_unit_scaled(f.a, u);
    lemma_unit_scaled(f.a, u + f.wide_first().w());
    lemma_unit_scaled(f.b, v);
}

/// The places of the three parts of a frame that is not wide, as places of the
/// frame: the first part has the edges exchanged, the second lies above the
/// first, and the third comes back from the corner of the first two.
pub proof fn lemma_tall_places(f: Frame, u: int, v: int)
    requires
        f.oriented(),
        !f.line(),
        !f.wide(),
    ensures
        f.tall_first().place(u, v) == f.place(v, u),
        f.tall_second().place(u, v) == f.place(u, v + f.tall_first().w()),
        f.tall_third().place(u, v) == f.place(f.w() - 1 - v, f.tall_first().w() - 1 - u),
{
    let h1 = f.tall_first().w();
    lemma_even_half(f.b);
    lemma_unit_scaled(f.a, u);
    lemma_unit_scaled(f.a, v);
    lemma_unit_scaled(f.b, u);
    lemma_unit_scaled(f.b, v);
    lemma_unit_scaled(f.b, v + h1);
    lemma_unit_scaled(f.a, f.w() - 1 - v);
    lemma_unit_scaled(f.b, h1 - 1 - u);
    lemma_unit_scaled(f.tall_third().a, u);
    lemma_unit_scaled(f.tall_third().b, v);
}

/// The sides of the halves of a wide frame.
pub proof fn lemma_wide_sides(f: Frame)
    requires
        f.oriented(),
        !f.line(),
        f.wide(),
    ensures
        f.w() >= 4,
        f.h() >= 2,
        f.wide_first().h() == f.h(),
        f.wide_second().h() == f.h(),
        f.wide_first().w() % 2 == 0,
        f.wide_first().w() >= 2,
        f.wide_second().w() >= 2,
        f.wide_first().w() + f.wide_second().w() == f.w(),
{
    lemma_even_half(f.a);
}

/// The sides of the three parts of a frame that is not wide.
pub proof fn lemma_tall_sides(f: Frame)
    requires
        f.oriented(),
        !f.line(),
        !f.wide(),
    ensures
        f.w() >= 2,
        f.h() >= 2,
        f.tall_first().w() == f.tall_third().w(),
        f.tall_first().w() == 1 <==> f.h() == 2,
        f.tall_first().w() > 1 ==> f.tall_first().w() % 2 == 0,
        f.tall_first().h() == f.w() / 2,
        f.tall_second().w() == f.w(),
        f.tall_second().h() == f.h() - f.tall_first().w(),
        f.tall_second().h() >= 1,
        f.tall_third().h() == f.w() - f.w() / 2,
{
    lemma_even_half(f.b);
}

/// Where the halves of a wide frame end: the first next to the origin of the
/// second, the second where the frame ends.
pub proof fn lemma_last_wide(w: int, h: int, w1: int)
    requires
        w >= 4,
        h >= 2,
        w1 >= 2,
        w1 % 2 == 0,
        w - w1 >= 2,
    ensures
        w1 - 1 <= last_along(w1, h) <= w1,
        last_across(w1, h) == 0,
        last_along(w - w1, h) + w1 == last_along(w, h),
        last_across(w - w1, h) == last_across(w, h),
{
}

/// Where the three parts of a frame that is not wide end: each of the first
/// two next to the origin of its successor, the third where the frame ends.
/// The parts lie in the frame as [`lemma_tall_places`] says.
pub proof fn lemma_last_tall(w: int, h: int, h1: int)
    requires
        w >= 2,
        h >= 2,
        2 * w <= 3 * h,
        1 <= h1 < h,
        h1 == 1 <==> h == 2,
        h1 > 1 ==> h1 % 2 == 0,
    ensures
        0 <= last_across(h1, w / 2) <= 1,
        h1 - 1 <= last_along(h1, w / 2) <= h1,
        w - 2 <= last_along(w, h - h1) <= w - 1,
        last_across(w, h - h1) == 0,
        w - 1 - last_across(h1, w - w / 2) == last_along(w, h),
        h1 - 1 - last_along(h1, w - w / 2) == last_across(w, h),
{
}

/// The curve of a wide frame is the curve of its first half, then that of its
/// second half.
pub proof fn lemma_walk_wide(f: Frame, i: int)
    requires
        f.oriented(),
        !f.line(),
        f.wide(),
    ensures
        walk(f, i) == if i < f.wide_first().area() {
            walk(f.wide_first(), i)
        } else {
            walk(f.wide_second(), i - f.wide_first().area())
        },
{
}

/// The curve of a frame that is not wide is the curve of its first part, then
/// that of its second, then that of its third.
pub proof fn lemma_walk_tall(f: Frame, i: int)
    requires
        f.oriented(),
        !f.line(),
        !f.wide(),
    ensures
        walk(f, i) == if i < f.tall_first().area() {
            walk(f.tall_first(), i)
        } else if i < f.tall_first().area() + f.tall_second().area() {
            walk(f.tall_second(), i - f.tall_first().area())
        } else {
            walk(f.tall_third(), i - f.tall_first().area() - f.tall_second().area())
        },
{
}

/// The curve of a single row or column is a straight line.
pub proof fn lemma_walk_line(f: Frame, i: int)
    requires
        f.oriented(),
        f.line(),
    ensures
        walk(f, i) == if f.h() == 1 {
            f.place(i, 0)
        } else {
            f.place(0, i)
        },
        f.area() == if f.h() == 1 {
            f.w()
        } else {
            f.h()
        },
{
    lemma_unit_scaled(f.a, 0);
    lemma_unit_scaled(f.b, 0);
    assert(f.h() == 1 ==> f.w() * f.h() == f.w()) by (nonlinear_arith);
    assert(f.w() == 1 ==> f.w() * f.h() == f.h()) by (nonlinear_arith);
}

/// The origin of a frame is its place at no step along either edge.
pub proof fn lemma_place_origin(f: Frame)
    ensures
        f.place(0, 0) == f.p,
{
    lemma_unit_scaled(f.a, 0);
    lemma_unit_scaled(f.b, 0);
}

/// A frame's curve begins in the frame's origin and ends in its last cell.
pub proof fn lemma_walk_ends(f: Frame)
    requires
        f.oriented(),
    ensures
        walk(f, 0) == f.p,
        walk(f, f.area() - 1) == f.last(),
    decreases f.w() + f.h(),
{
    lemma_area_positive(f);
    lemma_place_origin(f);
    if f.line() {
        lemma_walk_line(f, 0);
        lemma_walk_line(f, f.area() - 1);
    } else if f.wide() {
        let first = f.wide_first();
        let second = f.wide_second();
        lemma_wide_split(f);
        lemma_wide_sides(f);
        lemma_area_positive(first);
        lemma_area_positive(second);
        lemma_walk_ends(first);
        lemma_walk_ends(second);
        lemma_walk_wide(f, 0);
        lemma_walk_wide(f, f.area() - 1);
        lemma_last_wide(f.w(), f.h(), first.w());
        lemma_wide_places(
            f,
            last_along(second.w(), second.h()),
            last_across(second.w(), second.h()),
        );
    } else {
        let first = f.tall_first();
        let second = f.tall_second();
        let third = f.tall_third();
        lemma_tall_split(f);
        lemma_tall_sides(f);
        lemma_area_positive(first);
        lemma_area_positive(second);
        lemma_area_positive(third);
        lemma_walk_ends(first);
        lemma_walk_ends(third);
        lemma_walk_tall(f, 0);
        lemma_walk_tall(f, f.area() - 1);
        lemma_last_tall(f.w(), f.h(), first.w());
        lemma_tall_places(f, last_along(third.w(), third.h()), last_across(third.w(), third.h()));
    }
}

/// Two positions of a frame's curve that follow each other are cells that
/// touch.
pub proof fn lemma_walk_touching(f: Frame, i: int)
    requires
        f.oriented(),
        0 <= i,
        i + 1 < f.area(),
    ensures
        touching(walk(f, i), walk(f, i + 1)),
    decreases f.w() + f.h(),
{
    lemma_area_positive(f);
    if f.line() {
        lemma_walk_line(f, i);
        lemma_walk_line(f, i + 1);
        lemma_places_touching(f, i, 0, i + 1, 0);
        lemma_places_touching(f, 0, i, 0, i + 1);
    } else if f.wide() {
        let first = f.wide_first();
        let second = f.wide_second();
        let n1 = first.area();
        lemma_wide_split(f);
        lemma_wide_sides(f);
        lemma_area_positive(first);
        lemma_area_positive(second);
        lemma_walk_wide(f, i);
        lemma_walk_wide(f, i + 1);
        if i + 1 < n1 {
            lemma_walk_touching(first, i);
        } else if i >= n1 {
            lemma_walk_touching(second, i - n1);
        } else {
            lemma_walk_ends(first);
            lemma_walk_ends(second);
            lemma_last_wide(f.w(), f.h(), first.w());
            let u = last_along(first.w(), first.h());
            let v = last_across(first.w(), first.h());
            lemma_wide_places(f, u, v);
            lemma_wide_places(f, 0, 0);
            lemma_place_origin(second);
            lemma_places_touching(f, u, v, first.w(), 0);
        }
    } else {
        let first = f.tall_first();
        let second = f.tall_second();
        let third = f.tall_third();
        let n1 = first.area();
        let n2 = n1 + second.area();
        lemma_tall_split(f);
        lemma_tall_sides(f);
        lemma_area_positive(first);
        lemma_area_positive(second);
        lemma_area_positive(third);
        lemma_walk_tall(f, i);
        lemma_walk_tall(f, i + 1);
        lemma_last_tall(f.w(), f.h(), first.w());
        if i + 1 < n1 {
            lemma_walk_touching(first, i);
        } else if i < n1 {
            lemma_walk_ends(first);
            lemma_walk_ends(second);
            let u = last_along(first.w(), first.h());
            let v = last_across(first.w(), first.h());
            lemma_tall_places(f, u, v);
            lemma_tall_places(f, 0, 0);
            lemma_place_origin(second);
            lemma_places_touching(f, v, u, 0, first.w());
        } else if i + 1 < n2 {
            lemma_walk_touching(second, i - n1);
        } else if i < n2 {
            lemma_walk_ends(second);
            lemma_walk_ends(third);
            let u = last_along(second.w(), second.h());
            let v = last_across(second.w(), second.h());
            lemma_tall_places(f, u, v);
            lemma_tall_places(f, 0, 0);
            lemma_place_origin(third);
            lemma_places_touching(f, u, v + first.w(), f.w() - 1, first.w() - 1);
        } else {
            lemma_walk_touching(third, i - n2);
        }
    }
}

/// The curve in a grid stays in the grid.
pub proof fn lemma_curve_in_grid(i: int, w: int, h: int)
    requires
        w >= 1,
        h >= 1,
        0 <= i < w * h,
    ensures
        0 <= curve_point(i, w, h).x < w,
        0 <= curve_point(i, w, h).y < h,
{
    let f = grid_frame(w, h);
    assert(f.area() == w * h) by (nonlinear_arith)
        requires
            f.area() == f.w() * f.h(),
            (f.w() == w && f.h() == h) || (f.w() == h && f.h() == w),
    ;
    lemma_walk_inside(f, i);
}

/// The curve in a grid visits no cell twice.
pub proof fn lemma_curve_injective(i: int, j: int, w: int, h: int)
    requires
        w >= 1,
        h >= 1,
        0 <= i < w * h,
        0 <= j < w * h,
        i != j,
    ensures
        curve_point(i, w, h) != curve_point(j, w, h),
{
    let f = grid_frame(w, h);
    assert(f.area() == w * h) by (nonlinear_arith)
        requires
            f.area() == f.w() * f.h(),
            (f.w() == w && f.h() == h) || (f.w() == h && f.h() == w),
    ;
    if i < j {
        lemma_walk_injective(f, i, j);
    } else {
        lemma_walk_injective(f, j, i);
    }
}

/// The curve in a grid begins in the grid's origin, and two positions that
/// follow each other are cells that touch, at a side or at a corner.
pub proof fn lemma_curve_touching(i: int, w: int, h: int)
    requires
        w >= 1,
        h >= 1,
        0 <= i,
        i + 1 < w * h,
    ensures
        curve_point(0, w, h) == (Cell { x: 0, y: 0 }),
        touching(curve_point(i, w, h), curve_point(i + 1, w, h)),
        curve_point(i, w, h) != curve_point(i + 1, w, h),
{
    let f = grid_frame(w, h);
    assert(f.area() == w * h) by (nonlinear_arith)
        requires
            f.area() == f.w() * f.h(),
            (f.w() == w && f.h() == h) || (f.w() == h && f.h() == w),
    ;
    lemma_walk_ends(f);
    lemma_walk_touching(f, i);
    lemma_walk_injective(f, i, i + 1);
}

/// The curve in a grid visits every cell: the result is a position at which it
/// visits the cell `(x, y)`.
pub proof fn lemma_curve_onto(x: int, y: int, w: int, h: int) -> (i: int)
    requires
        0 <= x < w,
        0 <= y < h,
    ensures
        0 <= i < w * h,
        curve_point(i, w, h) == (Cell { x, y }),
{
    let f = grid_frame(w, h);
    assert(f.area() == w * h) by (nonlinear_arith)
        requires
            f.area() == f.w() * f.h(),
            (f.w() == w && f.h() == h) || (f.w() == h && f.h() == w),
    ;
    lemma_walk_onto(f, Cell { x, y })
}

fn magnitude(v: i32) -> (r: i64)
    ensures
        r == abs(v as int),
{
    let wide: i64 = v as i64;
    if wide >= 0 {
        wide
    } else {
        -wide
    }
}

fn signum(v: i32) -> (r: i32)
    ensures
        r == sign(v as int),
{
    if v > 0 {
        1
    } else if v < 0 {
        -1
    } else {
        0
    }
}

fn halve(v: i32) -> (r: i32)
    requires
        v > i32::MIN,
    ensures
        r == half(v as int),
{
    if v >= 0 {
        v / 2
    } else {
        -((-v) / 2)
    }
}

/// The frame with origin `p` and edges `a` and `b`.
pub open spec fn frame_of(p: Point, a: Point, b: Point) -> Frame {
    Frame { p: p@, a: a@, b: b@ }
}

/// The cell at position `i` of a straight frame that runs along `d` from `p`.
fn along(p: Point, d: Point, i: i64) -> (q: Point)
    requires
        (d.x == 0) != (d.y == 0),
        0 <= i,
        i < abs(d.x + d.y),
        i32::MIN <= p.x + d.x <= i32::MAX,
        i32::MIN <= p.y + d.y <= i32::MAX,
    ensures
        q@ == p@.plus(d@.unit().scaled(i as int)),
{
    proof {
        lemma_unit_scaled(d@, i as int);
    }
    let k: i32 = i as i32;
    Point { x: p.x + signum(d.x) * k, y: p.y + signum(d.y) * k }
}

/// Half of an axis-aligned edge, with the correction that prefers even steps.
fn even_half_of(v: Point) -> (r: Point)
    requires
        (v.x == 0) != (v.y == 0),
        v.x > i32::MIN,
        v.y > i32::MIN,
    ensures
        r@ == v@.even_half(),
{
    let r = Point { x: halve(v.x), y: halve(v.y) };
    if magnitude(r.x + r.y) % 2 != 0 && magnitude(v.x + v.y) > 2 {
        Point { x: r.x + signum(v.x), y: r.y + signum(v.y) }
    } else {
        r
    }
}

fn gilbert_d2xy_r(dst_idx: i64, cur_idx: i64, p: Point, a: Point, b: Point) -> (q: Point)
    requires
        frame_of(p, a, b).oriented(),
        frame_of(p, a, b).fits(),
        0 <= cur_idx <= dst_idx < cur_idx + frame_of(p, a, b).area() <= i64::MAX,
    ensures
        q@ == walk(frame_of(p, a, b), dst_idx - cur_idx),
    decreases frame_of(p, a, b).w() + frame_of(p, a, b).h(), 1nat,
{
    let ghost f = frame_of(p, a, b);
    proof {
        lemma_area_positive(f);
    }
    let w: i64 = magnitude(a.x + a.y);
    let h: i64 = magnitude(b.x + b.y);
    let i: i64 = dst_idx - cur_idx;

    if h == 1 {
        assert(f.area() == w) by (nonlinear_arith)
            requires
                f.area() == w * h,
                h == 1,
        ;
        return along(p, a, i);
    }
    if w == 1 {
        assert(f.area() == h) by (nonlinear_arith)
            requires
                f.area() == w * h,
                w == 1,
        ;
        return along(p, b, i);
    }
    if 2 * w > 3 * h {
        split_wide(dst_idx, cur_idx, p, a, b)
    } else {
        split_tall(dst_idx, cur_idx, p, a, b)
    }
}

/// A wide frame: the position lies in one of two halves along the first edge.
fn split_wide(dst_idx: i64, cur_idx: i64, p: Point, a: Point, b: Point) -> (q: Point)
    requires
        frame_of(p, a, b).oriented(),
        frame_of(p, a, b).fits(),
        !frame_of(p, a, b).line(),
        frame_of(p, a, b).wide(),
        0 <= cur_idx <= dst_idx < cur_idx + frame_of(p, a, b).area() <= i64::MAX,
    ensures
        q@ == walk(frame_of(p, a, b), dst_idx - cur_idx),
    decreases frame_of(p, a, b).w() + frame_of(p, a, b).h(), 0nat,
{
    let ghost f = frame_of(p, a, b);
    proof {
        lemma_wide_split(f);
        lemma_area_positive(f.wide_first());
        lemma_area_positive(f.wide_second());
    }
    let h: i64 = magnitude(b.x + b.y);
    let a2 = even_half_of(a);
    assert(frame_of(p, a2, b) == f.wide_first());
    let nxt_idx: i64 = cur_idx + magnitude(a2.x + a2.y) * h;
    if dst_idx < nxt_idx {
        return gilbert_d2xy_r(dst_idx, cur_idx, p, a2, b);
    }
    let far = Point { x: p.x + a2.x, y: p.y + a2.y };
    let rest = Point { x: a.x - a2.x, y: a.y - a2.y };
    assert(frame_of(far, rest, b) == f.wide_second());
    gilbert_d2xy_r(dst_idx, nxt_idx, far, rest, b)
}

/// Any other frame: one step up, one long horizontal, one step down.
fn split_tall(dst_idx: i64, cur_idx: i64, p: Point, a: Point, b: Point) -> (q: Point)
    requires
        frame_of(p, a, b).oriented(),
        frame_of(p, a, b).fits(),
        !frame_of(p, a, b).line(),
        !frame_of(p, a, b).wide(),
        0 <= cur_idx <= dst_idx < cur_idx + frame_of(p, a, b).area() <= i64::MAX,
    ensures
        q@ == walk(frame_of(p, a, b), dst_idx - cur_idx),
    decreases frame_of(p, a, b).w() + frame_of(p, a, b).h(), 0nat,
{
    let ghost f = frame_of(p, a, b);
    proof {
        lemma_tall_split(f);
        lemma_area_positive(f.tall_first());
        lemma_area_positive(f.tall_second());
        lemma_area_positive(f.tall_third());
    }
    let w: i64 = magnitude(a.x + a.y);
    let a2 = Point { x: halve(a.x), y: halve(a.y) };
    let b2 = even_half_of(b);
    assert(frame_of(p, b2, a2) == f.tall_first());

    let nxt_idx: i64 = cur_idx + magnitude(b2.x + b2.y) * magnitude(a2.x + a2.y);
    if dst_idx < nxt_idx {
        return gilbert_d2xy_r(dst_idx, cur_idx, p, b2, a2);
    }
    let cur_idx = nxt_idx;

    let up = Point { x: p.x + b2.x, y: p.y + b2.y };
    let rest = Point { x: b.x - b2.x, y: b.y - b2.y };
    assert(frame_of(up, a, rest) == f.tall_second());
    let nxt_idx: i64 = cur_idx + w * magnitude(rest.x + rest.y);
    if dst_idx < nxt_idx {
        return gilbert_d2xy_r(dst_idx, cur_idx, up, a, rest);
    }
    let corner = Point {
        x: p.x + (a.x - signum(a.x)) + (b2.x - signum(b.x)),
        y: p.y + (a.y - signum(a.y)) + (b2.y - signum(b.y)),
    };
    let down = Point { x: -b2.x, y: -b2.y };
    let back = Point { x: -(a.x - a2.x), y: -(a.y - a2.y) };
    assert(frame_of(corner, down, back) == f.tall_third());
    gilbert_d2xy_r(dst_idx, nxt_idx, corner, down, back)
}

/// The cell at position `idx` of the curve that fills a `w` by `h` grid.
pub(crate) fn locate(idx: i64, w: i32, h: i32) -> (q: Point)
    requires
        w >= 1,
        h >= 1,
        0 <= idx < w * h,
    ensures
        q@ == curve_point(idx as int, w as int, h as int),
        0 <= q.x < w,
        0 <= q.y < h,
{
    let p = Point { x: 0, y: 0 };
    let mut a = Point { x: 0, y: h };
    let mut b = Point { x: w, y: 0 };
    if w >= h {
        a = Point { x: w, y: 0 };
        b = Point { x: 0, y: h };
    }
    proof {
        let f = grid_frame(w as int, h as int);
        assert(frame_of(p, a, b) == f);
        assert(f.area() == w * h && f.area() <= i64::MAX) by (nonlinear_arith)
            requires
                f.area() == f.w() * f.h(),
                (f.w() == w && f.h() == h) || (f.w() == h && f.h() == w),
                w <= i32::MAX,
                h <= i32::MAX,
                w >= 1,
                h >= 1,
        ;
        lemma_curve_in_grid(idx as int, w as int, h as int);
    }
    gilbert_d2xy_r(idx, 0, p, a, b)
}

/// Maps a position along the curve that fills a `w` by `h` grid to the cell
/// visited there.
pub fn gilbert_d2xy(idx: i32, w: i32, h: i32) -> (q: Point)
    requires
        w >= 1,
        h >= 1,
        0 <= idx < w * h,
    ensures
        q@ == curve_point(idx as int, w as int, h as int),
        0 <= q.x < w,
        0 <= q.y < h,
{
    locate(idx as i64, w, h)
}

} // verus!
