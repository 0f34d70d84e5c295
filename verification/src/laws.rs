//! What holds of the rules on every grid: proved once, for all inputs.

use crate::rules::{
    alive_after, is_born, live_count, live_count_by_neighbor, next_alive, survives,
};
use crate::torus::{
    in_bounds, neighbor, neighbors, offset, wrap_axis, wrap_axis_fixes_range,
    wrap_axis_in_range, wrap_point,
};
use vstd::arithmetic::div_mod::{
    lemma_add_mod_noop_right, lemma_fundamental_div_mod, lemma_fundamental_div_mod_converse,
    lemma_mod_multiples_basic, lemma_mod_self_0,
};
use vstd::prelude::*;

verus! {

/// Wrapping a canonical cell returns it unchanged.
pub proof fn wrap_fixes_canonical_cells(p: (int, int), w: int, h: int)
    requires
        in_bounds(p, w, h),
    ensures
        wrap_point(p, w, h) == p,
{
    wrap_axis_fixes_range(p.0, w);
    wrap_axis_fixes_range(p.1, h);
}

/// Wrapping lands on a canonical cell, and wrapping twice is wrapping once.
pub proof fn wrap_is_canonical(p: (int, int), w: int, h: int)
    requires
        w >= 1,
        h >= 1,
    ensures
        in_bounds(wrap_point(p, w, h), w, h),
        wrap_point(wrap_point(p, w, h), w, h) == wrap_point(p, w, h),
{
    wrap_axis_in_range(p.0, w);
    wrap_axis_in_range(p.1, h);
    wrap_fixes_canonical_cells(wrap_point(p, w, h), w, h);
}

/// A wrapped coordinate is congruent to the coordinate that was wrapped, and
/// it is the only coordinate of `[1, len]` that is.
pub proof fn wrap_is_the_canonical_representative(v: int, len: int, c: int)
    requires
        len >= 1,
    ensures
        (wrap_axis(v, len) - v) % len == 0,
        1 <= c <= len && (c - v) % len == 0 ==> wrap_axis(v, len) == c,
{
    lemma_fundamental_div_mod(v - 1, len);
    let q = (v - 1) / len;
    assert(wrap_axis(v, len) - v == (-q) * len) by (nonlinear_arith)
        requires
            v - 1 == len * q + (v - 1) % len,
            wrap_axis(v, len) == (v - 1) % len + 1,
    ;
    lemma_mod_multiples_basic(-q, len);
    if 1 <= c <= len && (c - v) % len == 0 {
        lemma_fundamental_div_mod(c - v, len);
        let k = (c - v) / len;
        assert(len * (-k) + (c - 1) == v - 1) by (nonlinear_arith)
            requires
                c - v == len * k,
        ;
        lemma_fundamental_div_mod_converse(v - 1, len, -k, c - 1);
    }
}

/// Wrapping commutes with a step: the wrap of `v + d` is the wrap of a step
/// of `d` from the wrap of `v`.
pub proof fn wrap_then_step(v: int, d: int, len: int)
    requires
        len >= 1,
    ensures
        wrap_axis(v + d, len) == wrap_axis(wrap_axis(v, len) + d, len),
{
    lemma_add_mod_noop_right(d, v - 1, len);
}

/// One step of `d` from the coordinate `v` of `[1, len]`, around the edge.
spec fn step(v: int, d: int, len: int) -> int {
    if v + d == 0 {
        len
    } else if v + d == len + 1 {
        1
    } else {
        v + d
    }
}

/// The wrap of a coordinate that is at most one step outside `[1, len]`.
proof fn wrap_axis_near(v: int, len: int)
    requires
        len >= 1,
        0 <= v <= len + 1,
    ensures
        wrap_axis(v, len) == if v == 0 {
            len
        } else if v == len + 1 {
            1
        } else {
            v
        },
{
    if v == 0 {
        assert(len * (-1) + (len - 1) == -1) by (nonlinear_arith);
        lemma_fundamental_div_mod_converse(-1, len, -1, len - 1);
    } else if v == len + 1 {
        lemma_mod_self_0(len);
    } else {
        wrap_axis_fixes_range(v, len);
    }
}

/// The neighbours of a canonical cell, without the remainder.
proof fn neighbors_of_canonical(p: (int, int), w: int, h: int)
    requires
        w >= 1,
        h >= 1,
        in_bounds(p, w, h),
    ensures
        forall|k: int|
            0 <= k < 8 ==> #[trigger] neighbor(p, k, w, h) == (
                step(p.0, offset(k).0, w),
                step(p.1, offset(k).1, h),
            ),
{
    assert forall|k: int| 0 <= k < 8 implies #[trigger] neighbor(p, k, w, h) == (
        step(p.0, offset(k).0, w),
        step(p.1, offset(k).1, h),
    ) by {
        wrap_axis_near(p.0 + offset(k).0, w);
        wrap_axis_near(p.1 + offset(k).1, h);
    }
}

/// On a grid of at least three columns and three rows the eight neighbours
/// of a cell are eight different cells. Only a narrower or lower grid brings
/// the wrap back onto a cell that was counted already.
pub proof fn neighbors_are_distinct(p: (int, int), w: int, h: int)
    requires
        w >= 3,
        h >= 3,
    ensures
        neighbors(p, w, h).no_duplicates(),
{
    let c = wrap_point(p, w, h);
    wrap_axis_in_range(p.0, w);
    wrap_axis_in_range(p.1, h);
    assert forall|k: int| 0 <= k < 8 implies #[trigger] neighbor(p, k, w, h) == (
        step(c.0, offset(k).0, w),
        step(c.1, offset(k).1, h),
    ) by {
        wrap_then_step(p.0, offset(k).0, w);
        wrap_then_step(p.1, offset(k).1, h);
        wrap_axis_near(c.0 + offset(k).0, w);
        wrap_axis_near(c.1 + offset(k).1, h);
    }
    assert forall|i: int, j: int| 0 <= i < 8 && 0 <= j < 8 && i != j implies neighbors(p, w, h)[i]
        != neighbors(p, w, h)[j] by {
        assert(neighbors(p, w, h)[i] == neighbor(p, i, w, h));
        assert(neighbors(p, w, h)[j] == neighbor(p, j, w, h));
    }
}

/// A cell has at most eight live neighbours, whatever the grid and
/// whichever cells are alive.
pub proof fn live_count_at_most_eight(alive: Set<(int, int)>, p: (int, int), w: int, h: int)
    ensures
        0 <= live_count(alive, p, w, h) <= 8,
{
    live_count_by_neighbor(alive, p, w, h);
}

/// A live cell is alive in the next generation exactly if it has two or
/// three live neighbours: with fewer than two or more than three it is gone.
pub proof fn survivor_rule(alive: Set<(int, int)>, p: (int, int), w: int, h: int)
    requires
        alive.contains(p),
    ensures
        next_alive(alive, w, h).contains(p)
            <==> live_count(alive, p, w, h) == 2 || live_count(alive, p, w, h) == 3,
{
}

/// An empty cell is alive in the next generation exactly if it is a
/// canonical cell with three live neighbours.
///
/// A position outside the grid is never born, whatever its count: the
/// canonical cell that it wraps to is the one that the rule looks at.
pub proof fn birth_rule(alive: Set<(int, int)>, p: (int, int), w: int, h: int)
    requires
        !alive.contains(p),
    ensures
        next_alive(alive, w, h).contains(p)
            <==> in_bounds(p, w, h) && live_count(alive, p, w, h) == 3,
{
}

/// Where every live cell is canonical, every live cell of the next
/// generation is canonical too.
pub proof fn canonical_cells_stay_canonical(alive: Set<(int, int)>, w: int, h: int)
    requires
        forall|p: (int, int)| alive.contains(p) ==> in_bounds(p, w, h),
    ensures
        forall|p: (int, int)| next_alive(alive, w, h).contains(p) ==> in_bounds(p, w, h),
{
}

/// No cell is both a survivor and a birth.
pub proof fn survivors_and_births_are_disjoint(
    alive: Set<(int, int)>,
    p: (int, int),
    w: int,
    h: int,
)
    ensures
        !(survives(alive, p, w, h) && is_born(alive, p, w, h)),
{
}

/// The two-by-two block whose top-left cell is `(x, y)`. Its right column
/// and its bottom row are one step further, around the edge where `x` is the
/// last column or `y` the last row.
pub open spec fn block(x: int, y: int, w: int, h: int) -> Set<(int, int)> {
    set![
        (x, y),
        (wrap_axis(x + 1, w), y),
        (x, wrap_axis(y + 1, h)),
        (wrap_axis(x + 1, w), wrap_axis(y + 1, h)),
    ]
}

/// Away from the last column and the last row, a block is the four cells
/// `(x, y)`, `(x + 1, y)`, `(x, y + 1)` and `(x + 1, y + 1)`.
pub proof fn block_inside_the_grid(x: int, y: int, w: int, h: int)
    requires
        1 <= x < w,
        1 <= y < h,
    ensures
        block(x, y, w, h) == set![(x, y), (x + 1, y), (x, y + 1), (x + 1, y + 1)],
{
    wrap_axis_fixes_range(x + 1, w);
    wrap_axis_fixes_range(y + 1, h);
}

/// A two-by-two block is a still life: on a grid of at least three columns
/// and three rows, where the block does not meet itself around the edge, the
/// next generation is the block again.
pub proof fn block_is_still_life(x: int, y: int, w: int, h: int)
    requires
        w >= 3,
        h >= 3,
        in_bounds((x, y), w, h),
    ensures
        next_alive(block(x, y, w, h), w, h) == block(x, y, w, h),
{
    let alive = block(x, y, w, h);
    wrap_axis_near(x + 1, w);
    wrap_axis_near(y + 1, h);
    assert forall|p: (int, int)| next_alive(alive, w, h).contains(p) <==> alive.contains(p) by {
        if in_bounds(p, w, h) {
            neighbors_of_canonical(p, w, h);
            live_count_by_neighbor(alive, p, w, h);
            assert(neighbor(p, 0, w, h) == (step(p.0, -1, w), step(p.1, -1, h)));
            assert(neighbor(p, 1, w, h) == (step(p.0, 0, w), step(p.1, -1, h)));
            assert(neighbor(p, 2, w, h) == (step(p.0, 1, w), step(p.1, -1, h)));
            assert(neighbor(p, 3, w, h) == (step(p.0, -1, w), step(p.1, 0, h)));
            assert(neighbor(p, 4, w, h) == (step(p.0, 1, w), step(p.1, 0, h)));
            assert(neighbor(p, 5, w, h) == (step(p.0, -1, w), step(p.1, 1, h)));
            assert(neighbor(p, 6, w, h) == (step(p.0, 0, w), step(p.1, 1, h)));
            assert(neighbor(p, 7, w, h) == (step(p.0, 1, w), step(p.1, 1, h)));
        }
    }
    assert(next_alive(alive, w, h) =~= alive);
}

/// A two-by-two block stays as it is through every number of generations.
pub proof fn block_stays_forever(x: int, y: int, w: int, h: int, n: nat)
    requires
        w >= 3,
        h >= 3,
        in_bounds((x, y), w, h),
    ensures
        alive_after(block(x, y, w, h), w, h, n) == block(x, y, w, h),
    decreases n,
{
    if n > 0 {
        block_stays_forever(x, y, w, h, (n - 1) as nat);
        block_is_still_life(x, y, w, h);
    }
}

} // verus!
