use vstd::prelude::*;

verus! {

/// The set of flattened cell indices changed since the last redraw.
///
/// A flag per cell answers membership at once; a list of the flagged indices,
/// each once, lets a redraw visit only the changed cells.
pub struct DirtySet {
    flags: Vec<bool>,
    list: Vec<usize>,
}

impl View for DirtySet {
    type V = Set<int>;

    closed spec fn view(&self) -> Set<int> {
        Set::new(|i: int| 0 <= i < self.flags@.len() && self.flags@[i])
    }
}

impl DirtySet {
    /// Number of cells that the set ranges over.
    pub closed spec fn size(&self) -> nat {
        self.flags@.len()
    }

    /// The flags and the list agree: the list holds each flagged index once
    /// and nothing else.
    pub closed spec fn wf(&self) -> bool {
        &&& self.flags@.len() <= usize::MAX
        &&& self.list@.no_duplicates()
        &&& forall|k: int|
            0 <= k < self.list@.len() ==> {
                let i = #[trigger] self.list@[k];
                i < self.flags@.len() && self.flags@[i as int]
            }
        &&& forall|i: int|
            0 <= i < self.flags@.len() && #[trigger] self.flags@[i] ==> self.list@.contains(
                i as usize,
            )
    }

    /// The marked indices are indices of cells.
    pub proof fn lemma_in_range(&self)
        ensures
            forall|i: int| #[trigger] self@.contains(i) ==> 0 <= i < self.size(),
            self.wf() ==> self.size() <= usize::MAX,
    {
    }

    /// Every index in `0..n` is in `self`.
    pub open spec fn is_full(&self, n: nat) -> bool {
        forall|i: int| 0 <= i < n <==> #[trigger] self@.contains(i)
    }

    /// The set of all `n` cells: everything is to be drawn.
    pub fn full(n: usize) -> (s: DirtySet)
        ensures
            s.wf(),
            s.size() == n,
            s.is_full(n as nat),
    {
        let mut flags: Vec<bool> = Vec::new();
        let mut list: Vec<usize> = Vec::new();
        let mut i: usize = 0;
        while i < n
            invariant
                i <= n,
                flags@.len() == i,
                list@.len() == i,
                forall|k: int| 0 <= k < i ==> #[trigger] list@[k] == k,
                forall|k: int| 0 <= k < i ==> #[trigger] flags@[k],
            decreases n - i,
        {
            flags.push(true);
            list.push(i);
            i = i + 1;
        }
        let s = DirtySet { flags, list };
        assert(s.wf()) by {
            assert forall|k: int| 0 <= k < i implies #[trigger] s.list@.contains(k as usize) by {
                assert(s.list@[k] == k as usize);
            }
        }
        s
    }

    /// Marks cell `i` as changed.
    pub fn insert(&mut self, i: usize)
        requires
            old(self).wf(),
            i < old(self).size(),
        ensures
            final(self).wf(),
            final(self).size() == old(self).size(),
            final(self)@ == old(self)@.insert(i as int),
    {
        if !self.flags[i] {
            self.flags.set(i, true);
            self.list.push(i);
            proof {
                assert(!old(self).list@.contains(i)) by {
                    if old(self).list@.contains(i) {
                        let k = choose|k: int|
                            0 <= k < old(self).list@.len() && old(self).list@[k] == i;
                        assert(old(self).flags@[old(self).list@[k] as int]);
                    }
                }
                assert forall|j: int|
                    0 <= j < self.flags@.len() && #[trigger] self.flags@[j] implies self.list@.contains(
                    j as usize,
                ) by {
                    if j != i {
                        assert(old(self).flags@[j]);
                        let k = choose|k: int|
                            0 <= k < old(self).list@.len() && old(self).list@[k] == j as usize;
                        assert(self.list@[k] == j as usize);
                    } else {
                        assert(self.list@[self.list@.len() - 1] == i);
                    }
                }
            }
        }
        assert(self@ =~= old(self)@.insert(i as int));
    }

    /// Whether cell `i` is marked.
    pub fn contains(&self, i: usize) -> (b: bool)
        ensures
            b == self@.contains(i as int),
    {
        i < self.flags.len() && self.flags[i]
    }

    /// The marked indices, each once.
    pub fn pending(&self) -> (r: &Vec<usize>)
        requires
            self.wf(),
        ensures
            r@.no_duplicates(),
            forall|k: int| 0 <= k < r@.len() ==> self@.contains(#[trigger] r@[k] as int),
            forall|i: int| #[trigger] self@.contains(i) ==> r@.contains(i as usize),
    {
        proof {
            assert forall|i: int| #[trigger] self@.contains(i) implies self.list@.contains(
                i as usize,
            ) by {
                assert(self.flags@[i]);
            }
        }
        &self.list
    }

    /// Empties the set.
    pub fn clear(&mut self)
        requires
            old(self).wf(),
        ensures
            final(self).wf(),
            final(self).size() == old(self).size(),
            final(self)@ == Set::<int>::empty(),
    {
        let mut k: usize = 0;
        while k < self.list.len()
            invariant
                self.list@ == old(self).list@,
                self.flags@.len() == old(self).flags@.len(),
                old(self).wf(),
                k <= self.list@.len(),
                forall|m: int| 0 <= m < k ==> !self.flags@[#[trigger] self.list@[m] as int],
                forall|i: int|
                    0 <= i < self.flags@.len() && #[trigger] self.flags@[i] ==> old(self).flags@[i],
            decreases self.list@.len() - k,
        {
            let i = self.list[k];
            self.flags.set(i, false);
            k = k + 1;
        }
        proof {
            assert forall|i: int| 0 <= i < self.flags@.len() implies !#[trigger] self.flags@[i] by {
                if self.flags@[i] {
                    assert(old(self).flags@[i]);
                    assert(old(self).list@.contains(i as usize));
                    let m = choose|m: int|
                        0 <= m < old(self).list@.len() && old(self).list@[m] == i as usize;
                    assert(!self.flags@[self.list@[m] as int]);
                }
            }
        }
        self.list.clear();
        assert(self@ =~= Set::<int>::empty());
    }
}

} // verus!
