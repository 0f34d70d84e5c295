//! The rules of the game, stated over sets of points.

use crate::torus::{
    in_bounds, neighbor, neighbors, offset, wrap_axis_fixes_range, wrap_axis_in_range,
    wrap_axis_step_back,
};
use vstd::prelude::*;

verus! {

/// Membership in `alive`, as a predicate on points.
pub open spec fn member_of(alive: Set<(int, int)>) -> spec_fn((int, int)) -> bool {
    |c: (int, int)| alive.contains(c)
}

/// 1 if `c` is alive, else 0.
pub open spec fn lit(alive: Set<(int, int)>, c: (int, int)) -> nat {
    if alive.contains(c) {
        1
    } else {
        0
    }
}

/// The number of live neighbours of `p`: how many of its eight wrapped
/// neighbours are in `alive`. A cell that the wrap reaches twice counts
/// twice.
pub open spec fn live_count(alive: Set<(int, int)>, p: (int, int), w: int, h: int) -> nat {
    neighbors(p, w, h).filter(member_of(alive)).len()
}

/// A live cell stays alive with two or three live neighbours.
pub open spec fn survives(alive: Set<(int, int)>, p: (int, int), w: int, h: int) -> bool {
    alive.contains(p) && (live_count(alive, p, w, h) == 2 || live_count(alive, p, w, h) == 3)
}

/// An empty canonical cell comes alive with exactly three live neighbours.
pub open spec fn is_born(alive: Set<(int, int)>, p: (int, int), w: int, h: int) -> bool {
    in_bounds(p, w, h) && !alive.contains(p) && live_count(alive, p, w, h) == 3
}

/// The live cells of the generation that follows `alive` on a `w` by `h`
/// grid: the survivors together with the births.
pub open spec fn next_alive(alive: Set<(int, int)>, w: int, h: int) -> Set<(int, int)> {
    Set::new(|p: (int, int)| survives(alive, p, w, h) || is_born(alive, p, w, h))
}

/// The live cells `n` generations after `alive`.
pub open spec fn alive_after(alive: Set<(int, int)>, w: int, h: int, n: nat) -> Set<(int, int)>
    decreases n,
{
    if n == 0 {
        alive
    } else {
        next_alive(alive_after(alive, w, h, (n - 1) as nat), w, h)
    }
}

/// Whether `p` is an empty cell next to a live one: the wrapped neighbour of
/// some cell of `alive`, and not in `alive` itself.
pub open spec fn is_candidate(alive: Set<(int, int)>, p: (int, int), w: int, h: int) -> bool {
    !alive.contains(p) && exists|a: (int, int), k: int|
        alive.contains(a) && 0 <= k < 8 && p == #[trigger] neighbor(a, k, w, h)
}

/// Counting the live cells among the first `k + 1` of `cells` adds the
/// `k`-th to the count among the first `k`.
pub proof fn count_prefix_step(alive: Set<(int, int)>, cells: Seq<(int, int)>, k: int)
    requires
        0 <= k < cells.len(),
    ensures
        cells.take(k + 1).filter(member_of(alive)).len()
            == cells.take(k).filter(member_of(alive)).len() + lit(alive, cells[k]),
{
    assert(cells.take(k + 1) =~= cells.take(k).push(cells[k]));
    cells.take(k).lemma_filter_len_push(member_of(alive), cells[k]);
}

/// The live-neighbour count is the sum over the eight neighbours.
pub proof fn live_count_by_neighbor(alive: Set<(int, int)>, p: (int, int), w: int, h: int)
    ensures
        live_count(alive, p, w, h) == lit(alive, neighbor(p, 0, w, h))
            + lit(alive, neighbor(p, 1, w, h))
            + lit(alive, neighbor(p, 2, w, h))
            + lit(alive, neighbor(p, 3, w, h))
            + lit(alive, neighbor(p, 4, w, h))
            + lit(alive, neighbor(p, 5, w, h))
            + lit(alive, neighbor(p, 6, w, h))
            + lit(alive, neighbor(p, 7, w, h)),
{
    let ns = neighbors(p, w, h);
    ns.take(0).lemma_filter_len(member_of(alive));
    count_prefix_step(alive, ns, 0);
    count_prefix_step(alive, ns, 1);
    count_prefix_step(alive, ns, 2);
    count_prefix_step(alive, ns, 3);
    count_prefix_step(alive, ns, 4);
    count_prefix_step(alive, ns, 5);
    count_prefix_step(alive, ns, 6);
    count_prefix_step(alive, ns, 7);
    assert(ns.take(8) =~= ns);
}

/// Every neighbour is a canonical cell.
pub proof fn neighbor_in_bounds(p: (int, int), k: int, w: int, h: int)
    requires
        w >= 1,
        h >= 1,
    ensures
        in_bounds(neighbor(p, k, w, h), w, h),
{
    wrap_axis_in_range(p.0 + offset(k).0, w);
    wrap_axis_in_range(p.1 + offset(k).1, h);
}

/// On canonical cells the neighbour relation is symmetric: the neighbour in
/// the opposite direction of the `k`-th neighbour of `p` is `p`.
pub proof fn neighbor_opposite(p: (int, int), k: int, w: int, h: int)
    requires
        w >= 1,
        h >= 1,
        in_bounds(p, w, h),
        0 <= k < 8,
    ensures
        neighbor(neighbor(p, k, w, h), 7 - k, w, h) == p,
{
    let d = offset(k);
    wrap_axis_step_back(p.0, d.0, w);
    wrap_axis_step_back(p.1, d.1, h);
    wrap_axis_fixes_range(p.0, w);
    wrap_axis_fixes_range(p.1, h);
}

/// The cells that are born are the candidates with three live neighbours.
pub proof fn born_iff_candidate(alive: Set<(int, int)>, p: (int, int), w: int, h: int)
    requires
        w >= 1,
        h >= 1,
    ensures
        is_born(alive, p, w, h)
            <==> is_candidate(alive, p, w, h) && live_count(alive, p, w, h) == 3,
{
    if is_born(alive, p, w, h) {
        live_count_by_neighbor(alive, p, w, h);
        let k = choose|k: int| 0 <= k < 8 && alive.contains(neighbor(p, k, w, h));
        neighbor_opposite(p, k, w, h);
        assert(p == neighbor(neighbor(p, k, w, h), 7 - k, w, h));
    }
    if is_candidate(alive, p, w, h) {
        let (a, k) = choose|a: (int, int), k: int|
            alive.contains(a) && 0 <= k < 8 && p == #[trigger] neighbor(a, k, w, h);
        neighbor_in_bounds(a, k, w, h);
    }
}

} // verus!
