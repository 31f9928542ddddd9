//! Sets of names and of cells.

use vstd::hash_set::StringHashSet;
use vstd::prelude::*;

verus! {

/// A set of names.
pub struct IdSet {
    set: StringHashSet,
}

impl DeepView for IdSet {
    type V = Set<Seq<char>>;

    closed spec fn deep_view(&self) -> Set<Seq<char>> {
        self.set@
    }
}

impl IdSet {
    /// The empty set.
    pub fn new() -> (r: Self)
        ensures
            r.deep_view() == Set::<Seq<char>>::empty(),
    {
        IdSet { set: StringHashSet::new() }
    }

    /// Whether a name is in the set.
    pub fn contains(&self, id: &str) -> (r: bool)
        ensures
            r == self.deep_view().contains(id@),
    {
        self.set.contains(id)
    }

    /// Puts a name into the set; tells whether it was not there before.
    pub fn insert(&mut self, id: String) -> (r: bool)
        ensures
            final(self).deep_view() == old(self).deep_view().insert(id@),
            r == !old(self).deep_view().contains(id@),
    {
        self.set.insert(id)
    }

    /// Takes a name out of the set; tells whether it was there.
    pub fn remove(&mut self, id: &str) -> (r: bool)
        ensures
            final(self).deep_view() == old(self).deep_view().remove(id@),
            r == old(self).deep_view().contains(id@),
    {
        self.set.remove(id)
    }

    /// Takes all names out of the set.
    pub fn clear(&mut self)
        ensures
            final(self).deep_view() == Set::<Seq<char>>::empty(),
    {
        self.set.clear();
    }
}

/// A set of grid cells, each a row and a column.
pub struct CellSet {
    cells: Vec<(usize, usize)>,
}

impl DeepView for CellSet {
    type V = Set<(usize, usize)>;

    closed spec fn deep_view(&self) -> Set<(usize, usize)> {
        self.cells@.to_set()
    }
}

impl CellSet {
    /// The empty set.
    pub fn new() -> (r: Self)
        ensures
            r.deep_view() == Set::<(usize, usize)>::empty(),
    {
        let r = CellSet { cells: Vec::new() };
        proof {
            assert(r.deep_view() =~= Set::<(usize, usize)>::empty());
        }
        r
    }

    /// Whether a cell is in the set.
    pub fn contains(&self, cell: (usize, usize)) -> (r: bool)
        ensures
            r == self.deep_view().contains(cell),
    {
        for i in 0..self.cells.len()
            invariant
                forall|j: int| 0 <= j < i ==> self.cells@[j] != cell,
        {
            if self.cells[i].0 == cell.0 && self.cells[i].1 == cell.1 {
                proof {
                    assert(self.cells@.contains(self.cells@[i as int]));
                }
                return true;
            }
        }
        false
    }

    /// Puts a cell into the set.
    pub fn insert(&mut self, cell: (usize, usize))
        ensures
            final(self).deep_view() == old(self).deep_view().insert(cell),
    {
        if !self.contains(cell) {
            self.cells.push(cell);
            proof {
                let before = old(self).cells@;
                let after = self.cells@;
                assert forall|c: (usize, usize)| after.contains(c) == (before.contains(c) || c
                    == cell) by {
                    if before.contains(c) {
                        let k = choose|k: int| 0 <= k < before.len() && before[k] == c;
                        assert(after[k] == c);
                    }
                    assert(after[before.len() as int] == cell);
                }
                assert(self.deep_view() =~= old(self).deep_view().insert(cell));
            }
        } else {
            proof {
                assert(self.deep_view() =~= old(self).deep_view().insert(cell));
            }
        }
    }

    /// Takes a cell out of the set.
    pub fn remove(&mut self, cell: (usize, usize))
        ensures
            final(self).deep_view() == old(self).deep_view().remove(cell),
    {
        let mut kept: Vec<(usize, usize)> = Vec::new();
        let ghost all = self.cells@;
        for i in 0..self.cells.len()
            invariant
                all == self.cells@,
                forall|c: (usize, usize)| #[trigger]
                    kept@.contains(c) == (c != cell && all.take(i as int).contains(c)),
        {
            let ghost before = kept@;
            let c = self.cells[i];
            proof {
                assert forall|x: (usize, usize)| #[trigger]
                    all.take(i + 1).contains(x) == (all.take(i as int).contains(x) || x == c) by {
                    let a = all.take(i as int);
                    let b = all.take(i + 1);
                    if a.contains(x) {
                        let k = choose|k: int| 0 <= k < a.len() && a[k] == x;
                        assert(b[k] == x);
                    }
                    assert(b[i as int] == c);
                    if b.contains(x) && x != c {
                        let k = choose|k: int| 0 <= k < b.len() && b[k] == x;
                        assert(a[k] == x);
                    }
                }
            }
            if c.0 != cell.0 || c.1 != cell.1 {
                kept.push(c);
                proof {
                    assert forall|x: (usize, usize)| #[trigger]
                        kept@.contains(x) == (before.contains(x) || x == c) by {
                        if before.contains(x) {
                            let k = choose|k: int| 0 <= k < before.len() && before[k] == x;
                            assert(kept@[k] == x);
                        }
                        assert(kept@[before.len() as int] == c);
                    }
                }
            }
        }
        proof {
            assert(all.take(all.len() as int) =~= all);
        }
        self.cells = kept;
        proof {
            assert forall|c: (usize, usize)| self.deep_view().contains(c) == old(
                self,
            ).deep_view().remove(cell).contains(c) by {
                assert(kept@.contains(c) == (c != cell && all.contains(c)));
            }
            assert(self.deep_view() =~= old(self).deep_view().remove(cell));
        }
    }

    /// Takes all cells out of the set.
    pub fn clear(&mut self)
        ensures
            final(self).deep_view() == Set::<(usize, usize)>::empty(),
    {
        self.cells.clear();
        proof {
            assert(self.deep_view() =~= Set::<(usize, usize)>::empty());
        }
    }
}

} // verus!
