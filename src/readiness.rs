//! The readiness table shared between a merge and the wake relays of its
//! sources: one flag per source and a count of the flags that are set.
use vstd::prelude::*;

verus! {

/// The number of `true` entries in `s`.
pub open spec fn count_true(s: Seq<bool>) -> nat
    decreases s.len(),
{
    if s.len() == 0 {
        0
    } else {
        count_true(s.drop_last()) + if s.last() { 1nat } else { 0nat }
    }
}

/// There are never more set flags than flags.
pub proof fn lemma_count_true_bound(s: Seq<bool>)
    ensures
        count_true(s) <= s.len(),
    decreases s.len(),
{
    if s.len() > 0 {
        lemma_count_true_bound(s.drop_last());
    }
}

/// Overwriting one flag changes the count by the difference it makes.
pub proof fn lemma_count_true_update(s: Seq<bool>, i: int, b: bool)
    requires
        0 <= i < s.len(),
    ensures
        count_true(s.update(i, b)) + (if s[i] { 1int } else { 0int }) == count_true(s) + (if b {
            1int
        } else {
            0int
        }),
    decreases s.len(),
{
    let t = s.update(i, b);
    if i == s.len() - 1 {
        assert(t.drop_last() =~= s.drop_last());
    } else {
        assert(t.drop_last() =~= s.drop_last().update(i, b));
        lemma_count_true_update(s.drop_last(), i, b);
    }
}

/// The count is zero exactly when no flag is set.
pub proof fn lemma_count_true_zero(s: Seq<bool>)
    ensures
        (count_true(s) == 0) == (forall|i: int| 0 <= i < s.len() ==> !s[i]),
    decreases s.len(),
{
    if s.len() > 0 {
        lemma_count_true_zero(s.drop_last());
        if count_true(s) == 0 {
            assert forall|i: int| 0 <= i < s.len() implies !s[i] by {
                if i < s.len() - 1 {
                    assert(s[i] == s.drop_last()[i]);
                }
            }
        } else {
            if !s.last() {
                let i = choose|i: int| 0 <= i < s.len() - 1 && s.drop_last()[i];
                assert(s[i]);
            }
        }
    }
}

/// A sequence of set flags counts its length.
pub proof fn lemma_count_true_all(s: Seq<bool>)
    requires
        forall|i: int| 0 <= i < s.len() ==> s[i],
    ensures
        count_true(s) == s.len(),
    decreases s.len(),
{
    if s.len() > 0 {
        lemma_count_true_all(s.drop_last());
    }
}

/// The count equals the length exactly when every flag is set.
pub proof fn lemma_count_true_full(s: Seq<bool>)
    ensures
        (count_true(s) == s.len()) == (forall|i: int| 0 <= i < s.len() ==> s[i]),
    decreases s.len(),
{
    if s.len() > 0 {
        lemma_count_true_full(s.drop_last());
        lemma_count_true_bound(s.drop_last());
        if count_true(s) == s.len() {
            assert forall|i: int| 0 <= i < s.len() implies s[i] by {
                if i < s.len() - 1 {
                    assert(s[i] == s.drop_last()[i]);
                }
            }
        } else if s.last() {
            let i = choose|i: int| 0 <= i < s.len() - 1 && !s.drop_last()[i];
            assert(!s[i]);
        }
    }
}

/// One ready flag per source, and the number of flags that are set.
pub struct Readiness {
    count: usize,
    ready: Vec<bool>,
}

impl Readiness {
    /// The ready flags, by source index.
    pub closed spec fn flags(&self) -> Seq<bool> {
        self.ready@
    }

    /// The stored count of set flags.
    pub closed spec fn ready_count(&self) -> nat {
        self.count as nat
    }

    /// The stored count equals the number of set flags.
    pub open spec fn wf(&self) -> bool {
        self.ready_count() == count_true(self.flags())
    }

    /// A table of `len` sources, every one of them flagged ready.
    pub fn new(len: usize) -> (r: Readiness)
        ensures
            r.wf(),
            r.flags() == Seq::new(len as nat, |_i: int| true),
    {
        let mut ready: Vec<bool> = Vec::new();
        let mut i: usize = 0;
        while i < len
            invariant
                i <= len,
                ready@ == Seq::new(i as nat, |_j: int| true),
            decreases len - i,
        {
            ready.push(true);
            i = i + 1;
            assert(ready@ =~= Seq::new(i as nat, |_j: int| true));
        }
        proof {
            lemma_count_true_all(ready@);
        }
        Readiness { count: len, ready }
    }

    /// The number of sources the table tracks.
    pub fn len(&self) -> (r: usize)
        ensures
            r == self.flags().len(),
    {
        self.ready.len()
    }

    /// Whether source `id` is flagged ready.
    pub fn is_ready(&self, id: usize) -> (r: bool)
        requires
            id < self.flags().len(),
        ensures
            r == self.flags()[id as int],
    {
        self.ready[id]
    }

    /// Flags source `id` ready and returns whether it already was.
    pub fn set_ready(&mut self, id: usize) -> (r: bool)
        requires
            old(self).wf(),
            id < old(self).flags().len(),
        ensures
            final(self).wf(),
            final(self).flags() == old(self).flags().update(id as int, true),
            r == old(self).flags()[id as int],
    {
        if !self.ready[id] {
            let len = self.ready.len();
            proof {
                assert(len == self.ready@.len());
                lemma_count_true_update(self.ready@, id as int, true);
                lemma_count_true_bound(self.ready@.update(id as int, true));
            }
            self.count = self.count + 1;
            self.ready.set(id, true);
            false
        } else {
            proof {
                assert(self.ready@.update(id as int, true) =~= self.ready@);
            }
            true
        }
    }

    /// Clears the flag of source `id` and returns whether it was set.
    pub fn clear_ready(&mut self, id: usize) -> (r: bool)
        requires
            old(self).wf(),
            id < old(self).flags().len(),
        ensures
            final(self).wf(),
            final(self).flags() == old(self).flags().update(id as int, false),
            r == old(self).flags()[id as int],
    {
        if self.ready[id] {
            proof {
                lemma_count_true_update(self.ready@, id as int, false);
            }
            self.count = self.count - 1;
            self.ready.set(id, false);
            true
        } else {
            proof {
                assert(self.ready@.update(id as int, false) =~= self.ready@);
            }
            false
        }
    }

    /// Whether any source is flagged ready.
    pub fn any_ready(&self) -> (r: bool)
        requires
            self.wf(),
        ensures
            r == (exists|i: int| 0 <= i < self.flags().len() && self.flags()[i]),
    {
        proof {
            lemma_count_true_zero(self.flags());
        }
        self.count > 0
    }
}

} // verus!
