//! A set of positions that remembers the order of insertion and answers
//! membership queries in constant expected time.

use crate::position::Position;
use std::collections::HashSet;
use vstd::prelude::*;

verus! {

broadcast use vstd::std_specs::hash::group_hash_axioms;

/// The integer under which a point is indexed: both coordinates, moved into
/// `[0, 2^64)`, side by side in 128 bits.
pub open spec fn cell_key(c: (int, int)) -> int {
    (c.0 + 0x8000_0000_0000_0000) * 0x1_0000_0000_0000_0000 + (c.1 + 0x8000_0000_0000_0000)
}

/// Distinct points of the `i64` plane have distinct keys.
pub proof fn cell_key_injective(a: Position, b: Position)
    requires
        cell_key(a@) == cell_key(b@),
    ensures
        a == b,
{
}

fn key_of(p: Position) -> (k: u128)
    ensures
        k == cell_key(p@),
{
    let hi: u128 = (p.x as i128 + 0x8000_0000_0000_0000i128) as u128;
    let lo: u128 = (p.y as i128 + 0x8000_0000_0000_0000i128) as u128;
    hi * 0x1_0000_0000_0000_0000u128 + lo
}

/// A finite set of positions.
///
/// The cells are kept in the order in which they were first inserted, so
/// walking the set is deterministic; a hash index over [`cell_key`] answers
/// membership without scanning them.
pub struct CellSet {
    cells: Vec<Position>,
    index: HashSet<u128>,
}

impl View for CellSet {
    type V = Set<(int, int)>;

    /// The points that the set holds.
    open spec fn view(&self) -> Set<(int, int)> {
        self.order().to_set()
    }
}

impl CellSet {
    /// The index holds the keys of the cells, and no cell is listed twice.
    pub closed spec fn wf(&self) -> bool {
        &&& self.cells@.no_duplicates()
        &&& forall|i: int|
            0 <= i < self.cells@.len() ==> self.index@.contains(
                cell_key((#[trigger] self.cells@[i])@) as u128,
            )
        &&& forall|k: u128| #[trigger]
            self.index@.contains(k) ==> exists|i: int|
                0 <= i < self.cells@.len() && cell_key((#[trigger] self.cells@[i])@) == k
    }

    /// The points of the set in the order of their first insertion.
    pub closed spec fn order(&self) -> Seq<(int, int)> {
        self.cells.deep_view()
    }

    /// The empty set.
    pub fn new() -> (s: CellSet)
        ensures
            s.wf(),
            s.order() == Seq::<(int, int)>::empty(),
            s@ == Set::<(int, int)>::empty(),
    {
        let s = CellSet { cells: Vec::new(), index: HashSet::new() };
        assert(s.order() =~= Seq::<(int, int)>::empty());
        assert(s@ =~= Set::<(int, int)>::empty());
        s
    }

    /// The number of cells.
    pub fn len(&self) -> (n: usize)
        ensures
            n == self.order().len(),
    {
        self.cells.len()
    }

    /// The cell at place `i` of the insertion order.
    pub fn get(&self, i: usize) -> (p: Position)
        requires
            i < self.order().len(),
        ensures
            p@ == self.order()[i as int],
    {
        self.cells[i]
    }

    /// Whether `p` is in the set.
    pub fn contains(&self, p: Position) -> (r: bool)
        requires
            self.wf(),
        ensures
            r == self@.contains(p@),
    {
        let k = key_of(p);
        let r = self.index.contains(&k);
        proof {
            if r {
                let i = choose|i: int|
                    0 <= i < self.cells@.len() && cell_key((#[trigger] self.cells@[i])@) == k;
                cell_key_injective(self.cells@[i], p);
                assert(self.order()[i] == p@);
            } else if self.order().contains(p@) {
                let i = choose|i: int| 0 <= i < self.order().len() && self.order()[i] == p@;
                assert(self.cells@[i]@ == p@);
            }
        }
        r
    }

    /// Adds `p` and says whether it was new.
    ///
    /// A new cell goes to the end of the insertion order; a cell that the set
    /// already holds changes nothing.
    pub fn insert(&mut self, p: Position) -> (fresh: bool)
        requires
            old(self).wf(),
        ensures
            final(self).wf(),
            fresh == !old(self)@.contains(p@),
            final(self).order() == if fresh {
                old(self).order().push(p@)
            } else {
                old(self).order()
            },
            final(self)@ == old(self)@.insert(p@),
    {
        if self.contains(p) {
            assert(self@.insert(p@) =~= self@);
            return false;
        }
        let k = key_of(p);
        let ghost before = self.cells@;
        self.index.insert(k);
        self.cells.push(p);
        proof {
            assert(self.order() =~= old(self).order().push(p@));
            assert(self@ =~= old(self)@.insert(p@)) by {
                assert forall|c: (int, int)| self@.contains(c) <==> old(self)@.insert(p@).contains(
                    c,
                ) by {
                    if self.order().contains(c) {
                        let i = choose|i: int| 0 <= i < self.order().len() && self.order()[i] == c;
                        if i < before.len() {
                            assert(old(self).order()[i] == c);
                        }
                    }
                    if old(self).order().contains(c) {
                        let i = choose|i: int|
                            0 <= i < old(self).order().len() && old(self).order()[i] == c;
                        assert(self.order()[i] == c);
                    }
                    if c == p@ {
                        assert(self.order()[before.len() as int] == c);
                    }
                }
            }
            assert forall|i: int, j: int|
                0 <= i < self.cells@.len() && 0 <= j < self.cells@.len() && i != j
                    implies self.cells@[i] != self.cells@[j] by {
                if i == before.len() && j < before.len() {
                    assert(old(self).order()[j] == before[j]@);
                }
                if j == before.len() && i < before.len() {
                    assert(old(self).order()[i] == before[i]@);
                }
            }
            assert forall|i: int| 0 <= i < self.cells@.len() implies self.index@.contains(
                cell_key((#[trigger] self.cells@[i])@) as u128,
            ) by {
                if i < before.len() {
                    assert(before[i] == self.cells@[i]);
                }
            }
            assert forall|j: u128| #[trigger] self.index@.contains(j) implies exists|i: int|
                0 <= i < self.cells@.len() && cell_key((#[trigger] self.cells@[i])@) == j by {
                if j == k {
                    assert(cell_key(self.cells@[before.len() as int]@) == j);
                } else {
                    let i = choose|i: int|
                        0 <= i < before.len() && cell_key((#[trigger] before[i])@) == j;
                    assert(cell_key(self.cells@[i]@) == j);
                }
            }
        }
        true
    }

    /// The cells as a vector, in insertion order.
    pub fn to_vec(&self) -> (v: Vec<Position>)
        ensures
            v.deep_view() == self.order(),
    {
        let v = self.cells.clone();
        assert(v@ =~= self.cells@);
        assert(v.deep_view() =~= self.order());
        v
    }

    /// No point occurs twice in the insertion order.
    pub proof fn order_is_duplicate_free(&self)
        requires
            self.wf(),
        ensures
            self.order().no_duplicates(),
    {
        assert forall|i: int, j: int|
            0 <= i < self.order().len() && 0 <= j < self.order().len() && i != j
                implies self.order()[i] != self.order()[j] by {
            if self.order()[i] == self.order()[j] {
                crate::position::position_view_injective(self.cells@[i], self.cells@[j]);
            }
        }
    }
}

} // verus!
