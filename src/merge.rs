//! The decisions of a fair merge over a list of sources. The caller drives the
//! sources; this core picks which one to drive next, records which have
//! terminated, and says when the merged sequence yields, ends or waits.
use vstd::prelude::*;

use crate::readiness::{count_true, lemma_count_true_bound, lemma_count_true_full, lemma_count_true_update, Readiness};

verus! {

/// What driving one source gave.
pub enum SourceOutcome {
    /// The source produced an item.
    Item,
    /// The source signaled that it has no more items.
    Done,
    /// The source is not ready.
    Pending,
}

/// What the caller of the merge does next.
pub enum MergeAction {
    /// Drive the source with this index and report what it gave.
    Poll(usize),
    /// Hand the item just produced to the merge's consumer.
    Yield,
    /// Every source has terminated: the merged sequence ends.
    Finish,
    /// No source is ready: wait for a wake.
    Suspend,
}

/// Where index `j` comes in a scan over `len` sources that begins just
/// after `start`: `0` for the index after `start`, `len - 1` for `start`.
pub open spec fn scan_rank(start: int, j: int, len: int) -> int {
    if j > start {
        j - start - 1
    } else {
        j + len - start - 1
    }
}

/// `pick` is what a scan that begins after `start` chooses: the first index
/// in scan order whose flag is set in `before` and whose source has not
/// terminated, or `None` if there is no such index. `after` is the table once
/// the scan has cleared the flag of the chosen index and of every terminated
/// source it passed; with `None` no flag is left set.
pub open spec fn scan_picks(
    fused: Seq<bool>,
    before: Seq<bool>,
    after: Seq<bool>,
    start: int,
    pick: Option<usize>,
) -> bool {
    let len = fused.len() as int;
    &&& before.len() == len
    &&& after.len() == len
    &&& match pick {
        Some(i) => {
            &&& i < len
            &&& before[i as int]
            &&& !fused[i as int]
            &&& forall|j: int|
                0 <= j < len && scan_rank(start, j, len) < scan_rank(start, i as int, len)
                    ==> (before[j] ==> fused[j])
            &&& forall|j: int|
                0 <= j < len ==> after[j] == (before[j] && scan_rank(start, j, len) > scan_rank(
                    start,
                    i as int,
                    len,
                ))
        },
        None => {
            &&& forall|j: int| 0 <= j < len ==> (before[j] ==> fused[j])
            &&& forall|j: int| 0 <= j < len ==> !after[j]
        },
    }
}

/// The action that a scan's choice leads to.
pub open spec fn action_of_pick(pick: Option<usize>) -> MergeAction {
    match pick {
        Some(i) => MergeAction::Poll(i),
        None => MergeAction::Suspend,
    }
}

/// The action that a scan's choice leads to.
fn action_for(pick: Option<usize>) -> (r: MergeAction)
    ensures
        r == action_of_pick(pick),
{
    match pick {
        Some(i) => MergeAction::Poll(i),
        None => MergeAction::Suspend,
    }
}

/// Which sources have terminated, how many, and whether the end of the
/// merged sequence has been reported.
pub struct MergeCore {
    fused: Vec<bool>,
    complete: usize,
    ended: bool,
}

impl MergeCore {
    /// For each source, whether it has signaled termination.
    pub closed spec fn fused(&self) -> Seq<bool> {
        self.fused@
    }

    /// The stored number of terminated sources.
    pub closed spec fn completed(&self) -> nat {
        self.complete as nat
    }

    /// The end of the merged sequence has been reported.
    pub closed spec fn end_reported(&self) -> bool {
        self.ended
    }

    /// The number of sources.
    pub open spec fn len(&self) -> nat {
        self.fused().len()
    }

    /// The stored count equals the number of terminated sources, and the end
    /// is reported only once every source has terminated.
    pub open spec fn wf(&self) -> bool {
        &&& self.completed() == count_true(self.fused())
        &&& self.end_reported() ==> self.finished()
    }

    /// The merged sequence has ended.
    pub open spec fn finished(&self) -> bool {
        self.completed() == self.len()
    }

    /// A merge of `len` sources, none of which has terminated.
    pub fn new(len: usize) -> (r: MergeCore)
        ensures
            r.wf(),
            r.fused() == Seq::new(len as nat, |_i: int| false),
            r.completed() == 0,
            !r.end_reported(),
    {
        let mut fused: Vec<bool> = Vec::new();
        let mut i: usize = 0;
        while i < len
            invariant
                i <= len,
                fused@ == Seq::new(i as nat, |_j: int| false),
            decreases len - i,
        {
            fused.push(false);
            i = i + 1;
            assert(fused@ =~= Seq::new(i as nat, |_j: int| false));
        }
        proof {
            crate::readiness::lemma_count_true_zero(fused@);
        }
        MergeCore { fused, complete: 0, ended: false }
    }

    /// The number of sources.
    pub fn source_count(&self) -> (r: usize)
        ensures
            r == self.len(),
    {
        self.fused.len()
    }

    /// Whether source `id` has terminated.
    pub fn is_fused(&self, id: usize) -> (r: bool)
        requires
            id < self.len(),
        ensures
            r == self.fused()[id as int],
    {
        self.fused[id]
    }

    /// Whether the merged sequence has ended.
    pub fn is_finished(&self) -> (r: bool)
        ensures
            r == self.finished(),
    {
        self.complete == self.fused.len()
    }

    /// Scans the sources once around, beginning just after `start`, for one
    /// that is flagged ready and has not terminated. Clears the flag of the one
    /// it returns, and of every terminated source it passes on the way.
    pub fn select(&self, readiness: &mut Readiness, start: usize) -> (r: Option<usize>)
        requires
            old(readiness).wf(),
            old(readiness).flags().len() == self.len(),
            start < self.len(),
        ensures
            final(readiness).wf(),
            scan_picks(self.fused(), old(readiness).flags(), final(readiness).flags(), start as int, r),
    {
        let len = self.fused.len();
        let ghost before = readiness.flags();
        let mut index: usize = start;
        let mut steps: usize = 0;
        while steps < len
            invariant
                len == self.len(),
                start < len,
                steps <= len,
                index < len,
                steps == 0 ==> index == start,
                steps > 0 ==> scan_rank(start as int, index as int, len as int) == steps - 1,
                readiness.wf(),
                readiness.flags().len() == len,
                before == old(readiness).flags(),
                before.len() == len,
                forall|j: int|
                    0 <= j < len && #[trigger] scan_rank(start as int, j, len as int) < steps
                        ==> !readiness.flags()[j] && (before[j] ==> self.fused()[j]),
                forall|j: int|
                    0 <= j < len && #[trigger] scan_rank(start as int, j, len as int) >= steps
                        ==> readiness.flags()[j] == before[j],
            decreases len - steps,
        {
            if !readiness.any_ready() {
                proof {
                    assert forall|j: int| 0 <= j < len implies (before[j] ==> self.fused()[j])
                        && !readiness.flags()[j] by {
                        if scan_rank(start as int, j, len as int) < steps {
                        }
                    }
                }
                return None;
            }
            index = if index + 1 == len { 0 } else { index + 1 };
            steps = steps + 1;
            let ghost prev = readiness.flags();
            let was_ready = readiness.clear_ready(index);
            proof {
                assert(scan_rank(start as int, index as int, len as int) == steps - 1);
                assert(before[index as int] == prev[index as int]);
            }
            if was_ready && !self.fused[index] {
                proof {
                    assert forall|j: int| 0 <= j < len implies #[trigger] readiness.flags()[j] == (before[j]
                        && scan_rank(start as int, j, len as int) > scan_rank(start as int, index as int, len as int)) by {
                        if j != index && scan_rank(start as int, j, len as int) < steps {
                            assert(scan_rank(start as int, j, len as int) < steps - 1);
                            assert(!prev[j]);
                        }
                    }
                    assert forall|j: int| 0 <= j < len && scan_rank(start as int, j, len as int) < scan_rank(start as int, index as int, len as int)
                        && before[j] implies self.fused()[j] by {
                        assert(scan_rank(start as int, j, len as int) < steps - 1);
                    }
                }
                return Some(index);
            }
            proof {
                assert forall|j: int|
                    0 <= j < len && scan_rank(start as int, j, len as int) < steps implies !readiness.flags()[j]
                        && (before[j] ==> self.fused()[j]) by {
                    if j != index {
                        assert(scan_rank(start as int, j, len as int) < steps - 1);
                        assert(!prev[j] && (before[j] ==> self.fused()[j]));
                    }
                }
                assert forall|j: int|
                    0 <= j < len && scan_rank(start as int, j, len as int) >= steps implies readiness.flags()[j]
                        == before[j] by {
                    assert(scan_rank(start as int, j, len as int) >= steps - 1);
                }
            }
        }
        proof {
            assert forall|j: int| 0 <= j < len implies !#[trigger] readiness.flags()[j] by {
                assert(scan_rank(start as int, j, len as int) < steps);
            }
            assert forall|j: int| 0 <= j < len && #[trigger] before[j] implies self.fused()[j] by {
                assert(scan_rank(start as int, j, len as int) < steps);
            }
        }
        None
    }

    /// Begins one drive of the merged sequence. `offset` is a fresh random
    /// number; the scan begins just after `offset % len`. A merge whose sources
    /// have all terminated (or that has none) reports its end once, at the
    /// first drive that finds it so; a merge that has reported its end
    /// suspends. Neither touches the table.
    pub fn drive(&mut self, readiness: &mut Readiness, offset: usize) -> (r: MergeAction)
        requires
            old(self).wf(),
            old(readiness).wf(),
            old(readiness).flags().len() == old(self).len(),
        ensures
            final(self).wf(),
            final(readiness).wf(),
            final(self).fused() == old(self).fused(),
            final(self).completed() == old(self).completed(),
            final(self).end_reported() == (old(self).end_reported() || old(self).finished()),
            old(self).end_reported() ==> r == MergeAction::Suspend && final(readiness).flags() == old(
                readiness,
            ).flags(),
            old(self).finished() && !old(self).end_reported() ==> r == MergeAction::Finish
                && final(readiness).flags() == old(readiness).flags(),
            !old(self).finished() ==> exists|pick: Option<usize>|
                scan_picks(
                    old(self).fused(),
                    old(readiness).flags(),
                    final(readiness).flags(),
                    offset as int % old(self).len() as int,
                    pick,
                ) && r == action_of_pick(pick),
    {
        if self.ended {
            return MergeAction::Suspend;
        }
        if self.complete == self.fused.len() {
            self.ended = true;
            return MergeAction::Finish;
        }
        let start = offset % self.fused.len();
        let pick = self.select(readiness, start);
        assert(start as int == offset as int % self.len() as int);
        assert(scan_picks(self.fused(), old(readiness).flags(), readiness.flags(), start as int, pick));
        action_for(pick)
    }

    /// Takes in what driving source `id` gave and says what to do next. An
    /// item flags the source ready again, as it may hold more, and is handed
    /// on. A termination marks the source terminated, and ends the merge when
    /// it was the last; otherwise, and when the source was not ready, the scan
    /// goes on after `id`.
    pub fn report(&mut self, readiness: &mut Readiness, id: usize, outcome: SourceOutcome) -> (r:
        MergeAction)
        requires
            old(self).wf(),
            old(readiness).wf(),
            old(readiness).flags().len() == old(self).len(),
            id < old(self).len(),
            !old(self).fused()[id as int],
        ensures
            final(self).wf(),
            final(readiness).wf(),
            final(self).len() == old(self).len(),
            final(self).end_reported() == (outcome is Done && final(self).finished()),
            match outcome {
                SourceOutcome::Item => {
                    &&& r == MergeAction::Yield
                    &&& final(self).fused() == old(self).fused()
                    &&& final(readiness).flags() == old(readiness).flags().update(id as int, true)
                },
                SourceOutcome::Done => {
                    &&& final(self).fused() == old(self).fused().update(id as int, true)
                    &&& final(self).completed() == old(self).completed() + 1
                    &&& final(self).finished() ==> r == MergeAction::Finish && final(readiness).flags()
                        == old(readiness).flags()
                    &&& !final(self).finished() ==> exists|pick: Option<usize>|
                        scan_picks(
                            final(self).fused(),
                            old(readiness).flags(),
                            final(readiness).flags(),
                            id as int,
                            pick,
                        ) && r == action_of_pick(pick)
                },
                SourceOutcome::Pending => {
                    &&& final(self).fused() == old(self).fused()
                    &&& exists|pick: Option<usize>|
                        scan_picks(
                            old(self).fused(),
                            old(readiness).flags(),
                            final(readiness).flags(),
                            id as int,
                            pick,
                        ) && r == action_of_pick(pick)
                },
            },
    {
        proof {
            lemma_count_true_full(self.fused@);
        }
        match outcome {
            SourceOutcome::Item => {
                readiness.set_ready(id);
                MergeAction::Yield
            },
            SourceOutcome::Done => {
                proof {
                    lemma_count_true_update(self.fused@, id as int, true);
                    lemma_count_true_bound(self.fused@.update(id as int, true));
                }
                let n = self.fused.len();
                self.fused.set(id, true);
                self.complete = self.complete + 1;
                if self.complete == n {
                    self.ended = true;
                    return MergeAction::Finish;
                }
                let pick = self.select(readiness, id);
                assert(scan_picks(self.fused(), old(readiness).flags(), readiness.flags(), id as int, pick));
                action_for(pick)
            },
            SourceOutcome::Pending => {
                let pick = self.select(readiness, id);
                assert(scan_picks(self.fused(), old(readiness).flags(), readiness.flags(), id as int, pick));
                action_for(pick)
            },
        }
    }
}

/// A merge ends exactly when every one of its sources has terminated; after
/// that no source is left that may be driven, so no item can follow.
pub proof fn merge_ends_iff_all_sources_end(core: MergeCore)
    requires
        core.wf(),
    ensures
        core.finished() <==> (forall|i: int| 0 <= i < core.len() ==> core.fused()[i]),
{
    lemma_count_true_full(core.fused());
}

/// Once a merge has ended, every source has terminated: `report` takes in no
/// source of it any more, so no item can follow the end.
pub proof fn ended_merge_takes_no_report(core: MergeCore)
    requires
        core.wf(),
        core.finished(),
    ensures
        forall|id: int| 0 <= id < core.len() ==> core.fused()[id],
{
    lemma_count_true_full(core.fused());
}

} // verus!
