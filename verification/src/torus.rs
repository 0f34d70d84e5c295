//! Arithmetic of the toroidal grid: wrapping and the Moore neighbourhood.

use vstd::prelude::*;
use vstd::arithmetic::div_mod::{
    lemma_add_mod_noop_right, lemma_fundamental_div_mod, lemma_fundamental_div_mod_converse,
    lemma_mod_bound, lemma_small_mod,
};

verus! {

/// The canonical representative in `[1, len]` of `v` modulo `len`.
///
/// `%` is the Euclidean remainder here, so the result is in range for
/// negative `v` as well.
pub open spec fn wrap_axis(v: int, len: int) -> int {
    (v - 1) % len + 1
}

/// `p` wrapped on both axes of a `w` by `h` grid.
pub open spec fn wrap_point(p: (int, int), w: int, h: int) -> (int, int) {
    (wrap_axis(p.0, w), wrap_axis(p.1, h))
}

/// Whether `p` is a canonical cell of a `w` by `h` grid.
pub open spec fn in_bounds(p: (int, int), w: int, h: int) -> bool {
    1 <= p.0 <= w && 1 <= p.1 <= h
}

/// The eight offsets of the Moore neighbourhood, row by row from the top
/// left: top-left, top, top-right, left, right, bottom-left, bottom,
/// bottom-right.
pub open spec fn offset(k: int) -> (int, int) {
    if k == 0 {
        (-1, -1)
    } else if k == 1 {
        (0, -1)
    } else if k == 2 {
        (1, -1)
    } else if k == 3 {
        (-1, 0)
    } else if k == 4 {
        (1, 0)
    } else if k == 5 {
        (-1, 1)
    } else if k == 6 {
        (0, 1)
    } else {
        (1, 1)
    }
}

/// The `k`-th neighbour of `p`, wrapped into the grid.
pub open spec fn neighbor(p: (int, int), k: int, w: int, h: int) -> (int, int) {
    wrap_point((p.0 + offset(k).0, p.1 + offset(k).1), w, h)
}

/// The eight wrapped neighbours of `p`, in the order of [`offset`].
pub open spec fn neighbors(p: (int, int), w: int, h: int) -> Seq<(int, int)> {
    Seq::new(8, |k: int| neighbor(p, k, w, h))
}

/// A wrapped coordinate lies in `[1, len]`.
pub proof fn wrap_axis_in_range(v: int, len: int)
    requires
        len >= 1,
    ensures
        1 <= wrap_axis(v, len) <= len,
{
    lemma_mod_bound(v - 1, len);
}

/// Wrapping leaves a coordinate of `[1, len]` as it is.
pub proof fn wrap_axis_fixes_range(v: int, len: int)
    requires
        1 <= v <= len,
    ensures
        wrap_axis(v, len) == v,
{
    lemma_small_mod((v - 1) as nat, len as nat);
}

/// Stepping by `d` and back by `d`, wrapping after each step, ends at the
/// wrapped starting point.
pub proof fn wrap_axis_step_back(v: int, d: int, len: int)
    requires
        len >= 1,
    ensures
        wrap_axis(wrap_axis(v + d, len) - d, len) == wrap_axis(v, len),
{
    lemma_add_mod_noop_right(-d, v + d - 1, len);
}

/// The truncating remainder of the machine, corrected to the Euclidean one.
proof fn truncated_remainder(a: int, m: int)
    requires
        a < 0,
        m >= 1,
    ensures
        a % m == if (-a) % m == 0 { 0 } else { m - (-a) % m },
{
    let b = -a;
    let q = b / m;
    let r = b % m;
    lemma_fundamental_div_mod(b, m);
    lemma_mod_bound(b, m);
    assert(a == -(m * q) - r);
    if r == 0 {
        assert(m * (-q) == -(m * q)) by (nonlinear_arith);
        lemma_fundamental_div_mod_converse(a, m, -q, 0);
    } else {
        assert(m * (-q - 1) == -(m * q) - m) by (nonlinear_arith);
        lemma_fundamental_div_mod_converse(a, m, -q - 1, m - r);
    }
}

/// Wraps `v + delta` into `[1, len]`.
///
/// The sum is taken in 128 bits, so a coordinate at either end of the `i64`
/// range has neighbours too.
pub fn wrap_shifted(v: i64, delta: i64, len: u32) -> (r: i64)
    requires
        len >= 1,
    ensures
        r == wrap_axis(v + delta, len as int),
        1 <= r <= len,
{
    let m: i128 = len as i128;
    let a: i128 = v as i128 + delta as i128 - 1;
    let t: i128 = a % m;
    proof {
        wrap_axis_in_range(v + delta, len as int);
        if a < 0 {
            truncated_remainder(a as int, m as int);
        }
    }
    let e: i128 = if t < 0 {
        t + m
    } else {
        t
    };
    (e + 1) as i64
}

} // verus!
