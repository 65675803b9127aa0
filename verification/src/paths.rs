//! The path functions, each of which maps a position of a traversal to a grid
//! coordinate, and the path of pixel offsets that a traversal gives: it holds
//! the offset of every pixel of the image exactly once.

use vstd::prelude::*;
use vstd::arithmetic::div_mod::{
    lemma_fundamental_div_mod, lemma_fundamental_div_mod_converse, lemma_small_mod,
};
use crate::gilbert::{
    curve_point, lemma_curve_in_grid, lemma_curve_injective, lemma_curve_onto, locate, Cell,
};
use crate::renderer::Point;
use crate::rotation::{offsets_distinct, offsets_valid};

verus! {

/// The traversal orders that a path can follow.
#[derive(Clone, Copy, Debug, PartialEq, Eq, Structural)]
pub enum PathFn {
    /// The generalized Hilbert curve.
    Gilbert,
    /// Row-major order, each cell moved down by its column.
    Shift,
}

/// The sheared row-major order: cell `idx` of row-major order, moved down by
/// its column.
pub open spec fn shift_point(idx: int, w: int) -> Cell {
    Cell { x: idx % w, y: idx / w + idx % w }
}

/// Maps a position to a coordinate of the sheared row-major order. The row may
/// lie below the image: the caller wraps it.
pub fn shift(idx: u32, w: u32, h: u32) -> (q: Point)
    requires
        w >= 1,
        idx / w + idx % w <= i32::MAX,
    ensures
        q@ == shift_point(idx as int, w as int),
{
    let x: u32 = idx % w;
    let y: u32 = idx / w + x;
    Point(x as i32, y as i32)
}

/// Maps a position along the generalized Hilbert curve that fills a `w` by `h`
/// grid to the cell visited there.
pub fn gilbert_d2xy(idx: u32, w: u32, h: u32) -> (q: Point)
    requires
        1 <= w <= i32::MAX,
        1 <= h <= i32::MAX,
        idx < w * h,
    ensures
        q@ == curve_point(idx as int, w as int, h as int),
        0 <= q.0 < w,
        0 <= q.1 < h,
{
    let cell = locate(idx as i64, w as i32, h as i32);
    Point(cell.x, cell.y)
}

/// The cell that a path function visits at position `idx`.
pub open spec fn path_point(path_fn: PathFn, idx: int, w: int, h: int) -> Cell {
    match path_fn {
        PathFn::Gilbert => curve_point(idx, w, h),
        PathFn::Shift => shift_point(idx, w),
    }
}

/// The byte offset of a cell's pixel in a `w` by `h` RGBA buffer. A coordinate
/// outside the image wraps around.
pub open spec fn pixel_offset(q: Cell, w: int, h: int) -> int {
    ((q.y % h) * w + (q.x % w)) * 4
}

/// The offsets of all positions of a traversal, in order.
pub open spec fn raw_path(path_fn: PathFn, w: int, h: int) -> Seq<usize> {
    Seq::new((w * h) as nat, |i: int| pixel_offset(path_point(path_fn, i, w, h), w, h) as usize)
}

/// A sequence without the elements that repeat their predecessor.
pub open spec fn collapse(s: Seq<usize>) -> Seq<usize>
    decreases s.len(),
{
    if s.len() <= 1 {
        s
    } else if s[s.len() - 1] == s[s.len() - 2] {
        collapse(s.drop_last())
    } else {
        collapse(s.drop_last()).push(s.last())
    }
}

/// Collapsing keeps the ends of a sequence and does not lengthen it.
pub proof fn lemma_collapse_ends(s: Seq<usize>)
    requires
        s.len() > 0,
    ensures
        1 <= collapse(s).len() <= s.len(),
        collapse(s).last() == s.last(),
        collapse(s).first() == s.first(),
    decreases s.len(),
{
    if s.len() > 1 {
        lemma_collapse_ends(s.drop_last());
    }
}

/// A sequence in which no element repeats its predecessor collapses to itself.
pub proof fn lemma_collapse_unchanged(s: Seq<usize>)
    requires
        forall|i: int| 0 < i < s.len() ==> #[trigger] s[i] != s[i - 1],
    ensures
        collapse(s) == s,
    decreases s.len(),
{
    if s.len() > 1 {
        lemma_collapse_unchanged(s.drop_last());
        assert(s.drop_last().push(s.last()) =~= s);
    }
}

/// A cell of the grid is determined by its row-major number.
pub proof fn lemma_row_major_injective(x1: int, y1: int, x2: int, y2: int, w: int)
    requires
        0 <= x1 < w,
        0 <= x2 < w,
        y1 * w + x1 == y2 * w + x2,
    ensures
        x1 == x2,
        y1 == y2,
{
    lemma_fundamental_div_mod_converse(y1 * w + x1, w, y1, x1);
    lemma_fundamental_div_mod_converse(y2 * w + x2, w, y2, x2);
}

/// The offset of a cell of the grid needs no wrapping, and is the start of one
/// of the buffer's pixels.
pub proof fn lemma_pixel_offset_in_grid(q: Cell, w: int, h: int)
    requires
        0 <= q.x < w,
        0 <= q.y < h,
    ensures
        pixel_offset(q, w, h) == (q.y * w + q.x) * 4,
        0 <= pixel_offset(q, w, h),
        pixel_offset(q, w, h) + 4 <= w * h * 4,
{
    lemma_small_mod(q.x as nat, w as nat);
    lemma_small_mod(q.y as nat, h as nat);
    assert(q.y * w + q.x + 1 <= w * h && q.y * w >= 0) by (nonlinear_arith)
        requires
            0 <= q.x < w,
            0 <= q.y < h,
    ;
}

/// The offset of any cell, inside the image or not, is the start of one of the
/// buffer's pixels.
pub proof fn lemma_pixel_offset_valid(q: Cell, w: int, h: int)
    requires
        w >= 1,
        h >= 1,
    ensures
        pixel_offset(q, w, h) % 4 == 0,
        0 <= pixel_offset(q, w, h),
        pixel_offset(q, w, h) + 4 <= w * h * 4,
{
    let wrapped = Cell { x: q.x % w, y: q.y % h };
    lemma_pixel_offset_in_grid(wrapped, w, h);
    lemma_small_mod(wrapped.x as nat, w as nat);
    lemma_small_mod(wrapped.y as nat, h as nat);
    assert(pixel_offset(q, w, h) == pixel_offset(wrapped, w, h));
}

/// Two rows that the same shift wraps to one row are one row.
pub proof fn lemma_shifted_rows(r1: int, r2: int, c: int, h: int)
    requires
        0 <= r1 < h,
        0 <= r2 < h,
        (r1 + c) % h == (r2 + c) % h,
    ensures
        r1 == r2,
{
    lemma_fundamental_div_mod(r1 + c, h);
    lemma_fundamental_div_mod(r2 + c, h);
    let q1 = (r1 + c) / h;
    let q2 = (r2 + c) / h;
    assert(r1 - r2 == h * (q1 - q2)) by (nonlinear_arith)
        requires
            r1 + c == h * q1 + (r1 + c) % h,
            r2 + c == h * q2 + (r2 + c) % h,
            (r1 + c) % h == (r2 + c) % h,
    ;
    assert(q1 == q2) by (nonlinear_arith)
        requires
            r1 - r2 == h * (q1 - q2),
            -h < r1 - r2 < h,
            h > 0,
    ;
}

/// Either traversal visits no pixel twice.
pub proof fn lemma_path_injective(path_fn: PathFn, i: int, j: int, w: int, h: int)
    requires
        w >= 1,
        h >= 1,
        0 <= i < w * h,
        0 <= j < w * h,
        i != j,
    ensures
        pixel_offset(path_point(path_fn, i, w, h), w, h) != pixel_offset(
            path_point(path_fn, j, w, h),
            w,
            h,
        ),
{
    let qi = path_point(path_fn, i, w, h);
    let qj = path_point(path_fn, j, w, h);
    let wi = Cell { x: qi.x % w, y: qi.y % h };
    let wj = Cell { x: qj.x % w, y: qj.y % h };
    lemma_pixel_offset_in_grid(wi, w, h);
    lemma_pixel_offset_in_grid(wj, w, h);
    lemma_small_mod(wi.x as nat, w as nat);
    lemma_small_mod(wi.y as nat, h as nat);
    lemma_small_mod(wj.x as nat, w as nat);
    lemma_small_mod(wj.y as nat, h as nat);
    assert(pixel_offset(qi, w, h) == pixel_offset(wi, w, h));
    assert(pixel_offset(qj, w, h) == pixel_offset(wj, w, h));
    if pixel_offset(qi, w, h) == pixel_offset(qj, w, h) {
        lemma_row_major_injective(wi.x, wi.y, wj.x, wj.y, w);
        match path_fn {
            PathFn::Gilbert => {
                lemma_curve_in_grid(i, w, h);
                lemma_curve_in_grid(j, w, h);
                lemma_curve_injective(i, j, w, h);
                lemma_small_mod(qi.x as nat, w as nat);
                lemma_small_mod(qi.y as nat, h as nat);
                lemma_small_mod(qj.x as nat, w as nat);
                lemma_small_mod(qj.y as nat, h as nat);
            },
            PathFn::Shift => {
                lemma_fundamental_div_mod(i, w);
                lemma_fundamental_div_mod(j, w);
                vstd::arithmetic::div_mod::lemma_mod_twice(i, w);
                vstd::arithmetic::div_mod::lemma_mod_twice(j, w);
                lemma_row_in_grid(i, w, h);
                lemma_row_in_grid(j, w, h);
                lemma_shifted_rows(i / w, j / w, i % w, h);
            },
        }
    }
}

/// The row of a position of row-major order lies in the grid.
pub proof fn lemma_row_in_grid(i: int, w: int, h: int)
    requires
        w >= 1,
        0 <= i < w * h,
    ensures
        0 <= i / w < h,
        0 <= i % w < w,
{
    lemma_fundamental_div_mod(i, w);
    assert(i / w < h && i / w >= 0) by (nonlinear_arith)
        requires
            i == w * (i / w) + i % w,
            0 <= i % w < w,
            0 <= i < w * h,
            w >= 1,
    ;
}

/// The Hilbert traversal visits every pixel: the result is a position whose
/// offset is that of the cell `(x, y)`.
pub proof fn lemma_gilbert_path_onto(x: int, y: int, w: int, h: int) -> (i: int)
    requires
        0 <= x < w,
        0 <= y < h,
    ensures
        0 <= i < w * h,
        pixel_offset(path_point(PathFn::Gilbert, i, w, h), w, h) == (y * w + x) * 4,
{
    let i = lemma_curve_onto(x, y, w, h);
    lemma_pixel_offset_in_grid(Cell { x, y }, w, h);
    i
}

/// What holds of the offsets of either traversal of a grid whose buffer can be
/// addressed: each is the start of a pixel, none occurs twice, and collapsing
/// removes nothing, so that the path has one offset for each pixel.
pub proof fn lemma_raw_path(path_fn: PathFn, w: int, h: int)
    requires
        w >= 1,
        h >= 1,
        w * h * 4 <= usize::MAX,
    ensures
        raw_path(path_fn, w, h).len() == w * h,
        offsets_valid(raw_path(path_fn, w, h), w * h * 4),
        offsets_distinct(raw_path(path_fn, w, h)),
        collapse(raw_path(path_fn, w, h)) == raw_path(path_fn, w, h),
{
    let raw = raw_path(path_fn, w, h);
    assert(w * h >= 1) by (nonlinear_arith)
        requires
            w >= 1,
            h >= 1,
    ;
    assert forall|i: int| 0 <= i < raw.len() implies #[trigger] raw[i] % 4 == 0 && raw[i] + 4 <= w
        * h * 4 by {
        lemma_pixel_offset_valid(path_point(path_fn, i, w, h), w, h);
    }
    assert forall|i: int, j: int| 0 <= i < j < raw.len() implies raw[i] != raw[j] by {
        lemma_pixel_offset_valid(path_point(path_fn, i, w, h), w, h);
        lemma_pixel_offset_valid(path_point(path_fn, j, w, h), w, h);
        lemma_path_injective(path_fn, i, j, w, h);
    }
    lemma_collapse_unchanged(raw);
}

} // verus!
