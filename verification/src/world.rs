//! The simulation state and its one-generation step.

use crate::cell_set::CellSet;
use crate::position::Position;
use crate::rules::{
    born_iff_candidate, count_prefix_step, is_born, is_candidate, live_count, member_of,
    next_alive, survives,
};
use crate::torus::{
    in_bounds, neighbor, neighbors, offset, wrap_axis_fixes_range, wrap_point, wrap_shifted,
};
use vstd::prelude::*;

verus! {

/// A toroidal grid and the cells that are alive on it.
///
/// The grid is at least one cell wide and one cell high, and its size never
/// changes. The live cells form a set. They are stored as given: a position
/// outside `[1, width] x [1, height]` is kept as it is, and only neighbour
/// lookups wrap.
pub struct World {
    width: u32,
    height: u32,
    alive: CellSet,
}

impl View for World {
    type V = Set<(int, int)>;

    /// The live cells.
    closed spec fn view(&self) -> Set<(int, int)> {
        self.alive@
    }
}

/// The offset of the `k`-th neighbour.
fn offset_at(k: usize) -> (d: (i64, i64))
    requires
        k < 8,
    ensures
        d.0 == offset(k as int).0,
        d.1 == offset(k as int).1,
        -1 <= d.0 <= 1,
        -1 <= d.1 <= 1,
{
    if k == 0 {
        (-1, -1)
    } else if k == 1 {
        (0, -1)
    } else if k == 2 {
        (1, -1)
    } else if k == 3 {
        (-1, 0)
    } else if k == 4 {
        (1, 0)
    } else if k == 5 {
        (-1, 1)
    } else if k == 6 {
        (0, 1)
    } else {
        (1, 1)
    }
}

impl World {
    #[verifier::type_invariant]
    spec fn inv(&self) -> bool {
        self.width >= 1 && self.height >= 1 && self.alive.wf()
    }

    /// The number of columns.
    pub closed spec fn spec_width(&self) -> u32 {
        self.width
    }

    /// The number of rows.
    pub closed spec fn spec_height(&self) -> u32 {
        self.height
    }

    /// A world of the given size with the given cells alive.
    ///
    /// A position listed more than once is alive once.
    pub fn new(width: u32, height: u32, alive: Vec<Position>) -> (world: World)
        requires
            width >= 1,
            height >= 1,
        ensures
            world.width() == width,
            world.height() == height,
            world@ == alive.deep_view().to_set(),
    {
        let mut cells = CellSet::new();
        let mut i: usize = 0;
        while i < alive.len()
            invariant
                i <= alive.len(),
                cells.wf(),
                cells@ == alive.deep_view().take(i as int).to_set(),
            decreases alive.len() - i,
        {
            cells.insert(alive[i]);
            proof {
                let points = alive.deep_view();
                assert(points.take(i + 1) =~= points.take(i as int).push(points[i as int]));
                seq_push_to_set(points.take(i as int), points[i as int]);
            }
            i += 1;
        }
        assert(alive.deep_view().take(i as int) =~= alive.deep_view());
        World { width, height, alive: cells }
    }

    /// A world of the given size with the given cells alive, or `None` where
    /// the grid would have no column or no row.
    pub fn try_new(width: u32, height: u32, alive: Vec<Position>) -> (made: Option<World>)
        ensures
            made.is_some() <==> width >= 1 && height >= 1,
            made matches Some(world) ==> world.width() == width && world.height() == height
                && world@ == alive.deep_view().to_set(),
    {
        if width == 0 || height == 0 {
            None
        } else {
            Some(World::new(width, height, alive))
        }
    }

    /// The number of columns.
    #[verifier::when_used_as_spec(spec_width)]
    pub fn width(&self) -> (w: u32)
        ensures
            w == self.width(),
            w >= 1,
    {
        proof {
            use_type_invariant(self);
        }
        self.width
    }

    /// The number of rows.
    #[verifier::when_used_as_spec(spec_height)]
    pub fn height(&self) -> (h: u32)
        ensures
            h == self.height(),
            h >= 1,
    {
        proof {
            use_type_invariant(self);
        }
        self.height
    }

    /// Whether `position`, taken as it is, is a live cell.
    pub fn is_alive(&self, position: Position) -> (r: bool)
        ensures
            r == self@.contains(position@),
    {
        proof {
            use_type_invariant(self);
        }
        self.alive.contains(position)
    }

    /// Whether `position`, taken as it is, is not a live cell.
    pub fn is_empty(&self, position: Position) -> (r: bool)
        ensures
            r == !self@.contains(position@),
    {
        !self.is_alive(position)
    }

    /// The canonical cell that `position` falls on.
    ///
    /// A position that is canonical already comes back unchanged.
    pub fn wrap(&self, position: Position) -> (r: Position)
        ensures
            r@ == wrap_point(position@, self.width() as int, self.height() as int),
            in_bounds(r@, self.width() as int, self.height() as int),
            in_bounds(position@, self.width() as int, self.height() as int) ==> r == position,
    {
        proof {
            use_type_invariant(self);
            if in_bounds(position@, self.width() as int, self.height() as int) {
                wrap_axis_fixes_range(position.x as int, self.width() as int);
                wrap_axis_fixes_range(position.y as int, self.height() as int);
            }
        }
        let x = wrap_shifted(position.x, 0, self.width);
        let y = wrap_shifted(position.y, 0, self.height);
        Position::new(x, y)
    }

    /// The eight cells around `position`, each wrapped into the grid, row by
    /// row from the top left.
    pub fn neighbors(&self, position: Position) -> (r: Vec<Position>)
        ensures
            r.deep_view() == neighbors(position@, self.width() as int, self.height() as int),
    {
        proof {
            use_type_invariant(self);
        }
        let mut r: Vec<Position> = Vec::with_capacity(8);
        let mut k: usize = 0;
        while k < 8
            invariant
                k <= 8,
                self.width >= 1,
                self.height >= 1,
                r.deep_view() == neighbors(
                    position@,
                    self.width() as int,
                    self.height() as int,
                ).take(k as int),
            decreases 8 - k,
        {
            let ghost before = r.deep_view();
            let d = offset_at(k);
            let x = wrap_shifted(position.x, d.0, self.width);
            let y = wrap_shifted(position.y, d.1, self.height);
            r.push(Position::new(x, y));
            proof {
                let all = neighbors(position@, self.width() as int, self.height() as int);
                assert(all[k as int] == neighbor(
                    position@,
                    k as int,
                    self.width() as int,
                    self.height() as int,
                ));
                assert(r.deep_view() =~= before.push((x as int, y as int)));
                assert(all.take(k + 1) =~= all.take(k as int).push(all[k as int]));
            }
            k += 1;
        }
        assert(r.deep_view() =~= neighbors(position@, self.width() as int, self.height() as int));
        r
    }

    /// How many of the eight neighbours of `position` are alive.
    pub fn live_neighbors(&self, position: Position) -> (count: usize)
        ensures
            count == live_count(self@, position@, self.width() as int, self.height() as int),
            count <= 8,
    {
        let around = self.neighbors(position);
        assert(around.len() == around.deep_view().len());
        let mut count: usize = 0;
        let mut k: usize = 0;
        assert(around.deep_view().take(0).filter(member_of(self@)).len() == 0) by {
            around.deep_view().take(0).lemma_filter_len(member_of(self@));
        }
        while k < 8
            invariant
                k <= 8,
                count <= k,
                around.len() == 8,
                around.deep_view() == neighbors(
                    position@,
                    self.width() as int,
                    self.height() as int,
                ),
                count == around.deep_view().take(k as int).filter(member_of(self@)).len(),
            decreases 8 - k,
        {
            proof {
                count_prefix_step(self@, around.deep_view(), k as int);
                assert(around.deep_view()[k as int] == around[k as int]@);
            }
            if self.is_alive(around[k]) {
                count += 1;
            }
            k += 1;
        }
        assert(around.deep_view().take(8) =~= around.deep_view());
        count
    }

    /// The cells of `from` whose live-neighbour count lies in `[lo, hi]`, in
    /// the order in which `from` lists them.
    fn with_count(&self, from: &CellSet, lo: usize, hi: usize) -> (r: Vec<Position>)
        requires
            from.wf(),
        ensures
            r.deep_view().no_duplicates(),
            r.deep_view().to_set() == Set::new(
                |p: (int, int)|
                    from@.contains(p)
                        && lo <= live_count(self@, p, self.width() as int, self.height() as int)
                        <= hi,
            ),
    {
        proof {
            from.order_is_duplicate_free();
        }
        let ghost w = self.width() as int;
        let ghost h = self.height() as int;
        let ghost order = from.order();
        let mut r: Vec<Position> = Vec::new();
        let n = from.len();
        let mut i: usize = 0;
        while i < n
            invariant
                i <= n,
                n == order.len(),
                order == from.order(),
                order.no_duplicates(),
                w == self.width() as int,
                h == self.height() as int,
                r.deep_view().no_duplicates(),
                forall|j: int|
                    0 <= j < r.len() ==> exists|m: int|
                        0 <= m < i && order[m] == #[trigger] r.deep_view()[j],
                forall|m: int|
                    0 <= m < i && lo <= live_count(self@, #[trigger] order[m], w, h) <= hi
                        ==> r.deep_view().contains(order[m]),
                forall|j: int|
                    0 <= j < r.len() ==> lo <= live_count(self@, #[trigger] r.deep_view()[j], w, h)
                        <= hi,
            decreases n - i,
        {
            let cell = from.get(i);
            let count = self.live_neighbors(cell);
            let ghost before = r.deep_view();
            if lo <= count && count <= hi {
                r.push(cell);
                proof {
                    let after = r.deep_view();
                    assert(after =~= before.push(cell@));
                    assert forall|m: int|
                        0 <= m < i + 1 && lo <= live_count(self@, #[trigger] order[m], w, h)
                            <= hi implies after.contains(order[m]) by {
                        if m < i {
                            let j = choose|j: int| 0 <= j < before.len() && before[j] == order[m];
                            assert(after[j] == order[m]);
                        } else {
                            assert(after[before.len() as int] == order[m]);
                        }
                    }
                }
            }
            i += 1;
        }
        proof {
            let kept = Set::new(
                |p: (int, int)| from@.contains(p) && lo <= live_count(self@, p, w, h) <= hi,
            );
            assert forall|p: (int, int)| r.deep_view().to_set().contains(p) <==> kept.contains(
                p,
            ) by {
                if r.deep_view().contains(p) {
                    let j = choose|j: int| 0 <= j < r.len() && r.deep_view()[j] == p;
                    let m = choose|m: int| 0 <= m < order.len() && order[m] == r.deep_view()[j];
                    assert(order.contains(p));
                }
                if kept.contains(p) {
                    let m = choose|m: int| 0 <= m < order.len() && order[m] == p;
                    assert(r.deep_view().contains(order[m]));
                }
            }
            assert(r.deep_view().to_set() =~= kept);
        }
        r
    }

    /// The live cells that stay alive: those with two or three live
    /// neighbours.
    pub fn survivors(&self) -> (r: Vec<Position>)
        ensures
            r.deep_view().no_duplicates(),
            r.deep_view().to_set() == Set::new(
                |p: (int, int)| survives(self@, p, self.width() as int, self.height() as int),
            ),
    {
        proof {
            use_type_invariant(self);
        }
        let r = self.with_count(&self.alive, 2, 3);
        assert(r.deep_view().to_set() =~= Set::new(
            |p: (int, int)| survives(self@, p, self.width() as int, self.height() as int),
        ));
        r
    }

    /// The empty cells next to a live one: every wrapped neighbour of a
    /// live cell that is not alive itself, each once.
    fn birth_candidates(&self) -> (found: CellSet)
        ensures
            found.wf(),
            found@ == Set::new(
                |p: (int, int)| is_candidate(self@, p, self.width() as int, self.height() as int),
            ),
    {
        proof {
            use_type_invariant(self);
        }
        let ghost w = self.width() as int;
        let ghost h = self.height() as int;
        let ghost order = self.alive.order();
        let mut found = CellSet::new();
        let n = self.alive.len();
        let mut i: usize = 0;
        assert(found@ =~= Set::new(
            |p: (int, int)| !self@.contains(p) && reached(order, 0, 0, p, w, h),
        ));
        while i < n
            invariant
                i <= n,
                n == order.len(),
                order == self.alive.order(),
                order.to_set() == self@,
                w == self.width() as int,
                h == self.height() as int,
                found.wf(),
                found@ == Set::new(
                    |p: (int, int)| !self@.contains(p) && reached(order, i as int, 0, p, w, h),
                ),
            decreases n - i,
        {
            let cell = self.alive.get(i);
            let around = self.neighbors(cell);
            assert(around.len() == around.deep_view().len());
            let mut k: usize = 0;
            while k < 8
                invariant
                    k <= 8,
                    i < n,
                    n == order.len(),
                    around.len() == 8,
                    around.deep_view() == neighbors(order[i as int], w, h),
                    found.wf(),
                    found@ == Set::new(
                        |p: (int, int)|
                            !self@.contains(p) && reached(order, i as int, k as int, p, w, h),
                    ),
                decreases 8 - k,
            {
                let next = around[k];
                proof {
                    assert(around.deep_view()[k as int] == next@);
                    assert(next@ == neighbor(order[i as int], k as int, w, h));
                    assert forall|p: (int, int)|
                        reached(order, i as int, k + 1, p, w, h)
                            <==> reached(order, i as int, k as int, p, w, h) || p == next@ by {
                        reached_step(order, i as int, k as int, p, w, h);
                    }
                }
                if self.is_empty(next) {
                    found.insert(next);
                }
                assert(found@ =~= Set::new(
                    |p: (int, int)|
                        !self@.contains(p) && reached(order, i as int, k + 1, p, w, h),
                ));
                k += 1;
            }
            proof {
                assert forall|p: (int, int)|
                    reached(order, i as int, 8, p, w, h)
                        <==> reached(order, i + 1, 0, p, w, h) by {
                    reached_row(order, i as int, p, w, h);
                }
                assert(found@ =~= Set::new(
                    |p: (int, int)| !self@.contains(p) && reached(order, i + 1, 0, p, w, h),
                ));
            }
            i += 1;
        }
        proof {
            assert forall|p: (int, int)|
                reached(order, n as int, 0, p, w, h) <==> (exists|a: (int, int), k: int|
                    self@.contains(a) && 0 <= k < 8 && p == #[trigger] neighbor(a, k, w, h)) by {
                reached_all(order, p, w, h);
            }
            assert(found@ =~= Set::new(|p: (int, int)| is_candidate(self@, p, w, h)));
        }
        found
    }

    /// The empty cells that come alive: the canonical cells with exactly
    /// three live neighbours that are not alive now.
    pub fn births(&self) -> (r: Vec<Position>)
        ensures
            r.deep_view().no_duplicates(),
            r.deep_view().to_set() == Set::new(
                |p: (int, int)| is_born(self@, p, self.width() as int, self.height() as int),
            ),
    {
        let candidates = self.birth_candidates();
        let r = self.with_count(&candidates, 3, 3);
        proof {
            let w = self.width() as int;
            let h = self.height() as int;
            use_type_invariant(self);
            assert forall|p: (int, int)|
                is_born(self@, p, w, h)
                    <==> candidates@.contains(p) && 3 <= live_count(self@, p, w, h) <= 3 by {
                born_iff_candidate(self@, p, w, h);
            }
            assert(r.deep_view().to_set() =~= Set::new(|p: (int, int)| is_born(self@, p, w, h)));
        }
        r
    }

    /// The world one generation later. `self` is left as it is.
    pub fn next_generation(&self) -> (next: World)
        ensures
            next.width() == self.width(),
            next.height() == self.height(),
            next@ == next_alive(self@, self.width() as int, self.height() as int),
    {
        proof {
            use_type_invariant(self);
        }
        let mut new_alive = self.survivors();
        let mut born = self.births();
        let ghost kept = new_alive.deep_view();
        let ghost fresh = born.deep_view();
        new_alive.append(&mut born);
        proof {
            assert(new_alive.deep_view() =~= kept + fresh);
            seq_add_to_set(kept, fresh);
            assert(kept.to_set().union(fresh.to_set()) =~= next_alive(
                self@,
                self.width() as int,
                self.height() as int,
            ));
        }
        World::new(self.width, self.height, new_alive)
    }

    /// The live cells, each once.
    pub fn alive_positions(&self) -> (r: Vec<Position>)
        ensures
            r.deep_view().no_duplicates(),
            r.deep_view().to_set() == self@,
    {
        proof {
            use_type_invariant(self);
            self.alive.order_is_duplicate_free();
        }
        self.alive.to_vec()
    }

    /// Advances the world by one generation, in place.
    pub fn tick(&mut self)
        ensures
            final(self).width() == old(self).width(),
            final(self).height() == old(self).height(),
            final(self)@ == next_alive(
                old(self)@,
                old(self).width() as int,
                old(self).height() as int,
            ),
    {
        let next = self.next_generation();
        proof {
            use_type_invariant(&next);
            use_type_invariant(&*self);
        }
        self.alive = next.alive;
    }
}

/// Whether `p` is among the neighbours looked at so far: all eight of the
/// cells before place `i` of `order`, and the first `k` of the cell at `i`.
spec fn reached(order: Seq<(int, int)>, i: int, k: int, p: (int, int), w: int, h: int) -> bool {
    exists|m: int, j: int|
        0 <= m < order.len() && 0 <= j < 8 && (m < i || (m == i && j < k)) && p
            == #[trigger] neighbor(order[m], j, w, h)
}

/// Looking at one more neighbour of the cell at place `i` adds that
/// neighbour and nothing else.
proof fn reached_step(order: Seq<(int, int)>, i: int, k: int, p: (int, int), w: int, h: int)
    requires
        0 <= i < order.len(),
        0 <= k < 8,
    ensures
        reached(order, i, k + 1, p, w, h)
            <==> reached(order, i, k, p, w, h) || p == neighbor(order[i], k, w, h),
{
    if reached(order, i, k + 1, p, w, h) {
        let (m, j) = choose|m: int, j: int|
            0 <= m < order.len() && 0 <= j < 8 && (m < i || (m == i && j < k + 1)) && p
                == #[trigger] neighbor(order[m], j, w, h);
        if !(m == i && j == k) {
            assert(reached(order, i, k, p, w, h));
        }
    }
    if reached(order, i, k, p, w, h) {
        let (m, j) = choose|m: int, j: int|
            0 <= m < order.len() && 0 <= j < 8 && (m < i || (m == i && j < k)) && p
                == #[trigger] neighbor(order[m], j, w, h);
        assert(p == neighbor(order[m], j, w, h));
    }
    if p == neighbor(order[i], k, w, h) {
        assert(reached(order, i, k + 1, p, w, h));
    }
}

/// Having looked at all eight neighbours of the cell at place `i` is having
/// looked at none of the cell at place `i + 1`.
proof fn reached_row(order: Seq<(int, int)>, i: int, p: (int, int), w: int, h: int)
    requires
        0 <= i < order.len(),
    ensures
        reached(order, i, 8, p, w, h) <==> reached(order, i + 1, 0, p, w, h),
{
    if reached(order, i, 8, p, w, h) {
        let (m, j) = choose|m: int, j: int|
            0 <= m < order.len() && 0 <= j < 8 && (m < i || (m == i && j < 8)) && p
                == #[trigger] neighbor(order[m], j, w, h);
        assert(p == neighbor(order[m], j, w, h));
    }
    if reached(order, i + 1, 0, p, w, h) {
        let (m, j) = choose|m: int, j: int|
            0 <= m < order.len() && 0 <= j < 8 && (m < i + 1 || (m == i + 1 && j < 0)) && p
                == #[trigger] neighbor(order[m], j, w, h);
        assert(p == neighbor(order[m], j, w, h));
    }
}

/// Once every cell is done, the neighbours looked at are the neighbours of
/// the elements of `order`.
proof fn reached_all(order: Seq<(int, int)>, p: (int, int), w: int, h: int)
    ensures
        reached(order, order.len() as int, 0, p, w, h) <==> (exists|a: (int, int), k: int|
            order.to_set().contains(a) && 0 <= k < 8 && p == #[trigger] neighbor(a, k, w, h)),
{
    if reached(order, order.len() as int, 0, p, w, h) {
        let (m, j) = choose|m: int, j: int|
            0 <= m < order.len() && 0 <= j < 8 && (m < order.len() || (m == order.len() && j < 0))
                && p == #[trigger] neighbor(order[m], j, w, h);
        assert(order.contains(order[m]));
        assert(p == neighbor(order[m], j, w, h));
    }
    if exists|a: (int, int), k: int|
        order.to_set().contains(a) && 0 <= k < 8 && p == #[trigger] neighbor(a, k, w, h) {
        let (a, k) = choose|a: (int, int), k: int|
            order.to_set().contains(a) && 0 <= k < 8 && p == #[trigger] neighbor(a, k, w, h);
        let m = choose|m: int| 0 <= m < order.len() && order[m] == a;
        assert(p == neighbor(order[m], k, w, h));
    }
}

/// The elements of a concatenation are those of its two parts.
proof fn seq_add_to_set(s: Seq<(int, int)>, t: Seq<(int, int)>)
    ensures
        (s + t).to_set() == s.to_set().union(t.to_set()),
{
    assert forall|a: (int, int)| (s + t).to_set().contains(a) <==> s.to_set().union(
        t.to_set(),
    ).contains(a) by {
        if (s + t).contains(a) {
            let i = choose|i: int| 0 <= i < (s + t).len() && (s + t)[i] == a;
            if i < s.len() {
                assert(s[i] == a);
            } else {
                assert(t[i - s.len()] == a);
            }
        }
        if s.contains(a) {
            let i = choose|i: int| 0 <= i < s.len() && s[i] == a;
            assert((s + t)[i] == a);
        }
        if t.contains(a) {
            let i = choose|i: int| 0 <= i < t.len() && t[i] == a;
            assert((s + t)[s.len() + i] == a);
        }
    }
    assert((s + t).to_set() =~= s.to_set().union(t.to_set()));
}

/// Pushing onto a sequence inserts into its set of elements.
proof fn seq_push_to_set(s: Seq<(int, int)>, c: (int, int))
    ensures
        s.push(c).to_set() == s.to_set().insert(c),
{
    assert forall|a: (int, int)| s.push(c).to_set().contains(a) <==> s.to_set().insert(
        c,
    ).contains(a) by {
        if s.push(c).contains(a) {
            let i = choose|i: int| 0 <= i < s.push(c).len() && s.push(c)[i] == a;
            if i < s.len() {
                assert(s[i] == a);
            }
        }
        if s.contains(a) {
            let i = choose|i: int| 0 <= i < s.len() && s[i] == a;
            assert(s.push(c)[i] == a);
        }
        if a == c {
            assert(s.push(c)[s.len() as int] == a);
        }
    }
    assert(s.push(c).to_set() =~= s.to_set().insert(c));
}

} // verus!
