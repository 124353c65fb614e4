//! K-way lazy merge over ordered sequences: repeatedly hands out the
//! smallest remaining head among the added sources.

use vstd::prelude::*;

verus! {

/// There is still at least one unconsumed item among the sources.
pub open spec fn has_item(ss: Seq<Seq<u64>>) -> bool {
    exists|i: int| 0 <= i < ss.len() && ss[i].len() > 0
}

/// `m` is the first source whose head is minimal among all non-empty
/// sources.
pub open spec fn is_first_min(ss: Seq<Seq<u64>>, m: int) -> bool {
    &&& 0 <= m < ss.len()
    &&& ss[m].len() > 0
    &&& forall|i: int| 0 <= i < ss.len() && (#[trigger] ss[i]).len() > 0 ==> ss[m][0] <= ss[i][0]
    &&& forall|i: int| 0 <= i < m && (#[trigger] ss[i]).len() > 0 ==> ss[m][0] < ss[i][0]
}

/// Merges any number of sources, each an ordered run of items, by
/// always yielding the smallest remaining head.  Sources are consumed
/// lazily, one item per call.
pub struct MergedIterator {
    /// The unconsumed remainder of each added source, in the order the
    /// sources were added.
    pub sources: Vec<Vec<u64>>,
}

impl View for MergedIterator {
    type V = Seq<Seq<u64>>;

    open spec fn view(&self) -> Seq<Seq<u64>> {
        Seq::new(self.sources@.len(), |i: int| self.sources@[i]@)
    }
}

impl MergedIterator {
    /// A merge over no sources; it yields nothing until sources are
    /// added.
    pub fn new() -> (r: Self)
        ensures
            r@ == Seq::<Seq<u64>>::empty(),
    {
        let r = MergedIterator { sources: Vec::new() };
        proof {
            assert(r@ =~= Seq::<Seq<u64>>::empty());
        }
        r
    }

    /// Registers one more source; its items are yielded interleaved
    /// with the items of the sources already present.
    pub fn add(&mut self, new: Vec<u64>)
        ensures
            final(self)@ == old(self)@.push(new@),
    {
        let ghost pre = self@;
        self.sources.push(new);
        proof {
            assert(self@ =~= pre.push(new@));
        }
    }

    /// Yields the smallest remaining head, taken from the first source
    /// that attains it, or nothing once every source is exhausted.
    pub fn next(&mut self) -> (r: Option<u64>)
        ensures
            !has_item(old(self)@) ==> r is None && final(self)@ == old(self)@,
            has_item(old(self)@) ==> exists|m: int|
                is_first_min(old(self)@, m) && r == Some(old(self)@[m][0]) && final(self)@ == old(
                    self,
                )@.update(m, old(self)@[m].drop_first()),
    {
        let ghost pre = self@;
        let n = self.sources.len();
        let mut best: usize = 0;
        let mut found = false;
        let mut i: usize = 0;
        while i < n
            invariant
                n == self.sources.len(),
                self@ == pre,
                0 <= i <= n,
                found ==> best < i,
                found ==> pre[best as int].len() > 0,
                found ==> forall|j: int|
                    0 <= j < i && (#[trigger] pre[j]).len() > 0 ==> pre[best as int][0] <= pre[j][0],
                found ==> forall|j: int|
                    0 <= j < best && (#[trigger] pre[j]).len() > 0 ==> pre[best as int][0]
                        < pre[j][0],
                !found ==> forall|j: int| 0 <= j < i ==> (#[trigger] pre[j]).len() == 0,
            decreases n - i,
        {
            let row_len = self.sources[i].len();
            if row_len > 0 {
                if !found {
                    best = i;
                    found = true;
                } else {
                    let candidate = self.sources[i][0];
                    let current = self.sources[best][0];
                    if candidate < current {
                        best = i;
                    }
                }
            }
            i = i + 1;
        }
        if !found {
            return None;
        }
        let mut row = self.sources.remove(best);
        let val = row.remove(0);
        self.sources.insert(best, row);
        proof {
            assert(is_first_min(pre, best as int));
            assert(self@ =~= pre.update(best as int, pre[best as int].drop_first()));
        }
        Some(val)
    }
}

} // verus!
