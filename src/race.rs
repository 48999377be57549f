//! The decisions of a race to the first success over a fixed number of
//! operations. The caller drives the operations; this core says which one to
//! drive next, keeps each failure in its operation's slot, and says when the
//! race is won, lost or has to wait.
use vstd::prelude::*;

use crate::readiness::{count_true, lemma_count_true_bound, lemma_count_true_full, lemma_count_true_update};

verus! {

/// What driving one operation gave.
pub enum Outcome<T, E> {
    /// The operation succeeded with this value.
    Success(T),
    /// The operation failed with this error.
    Failure(E),
    /// The operation is not ready.
    Pending,
}

/// What the caller of the race does next.
pub enum RaceAction<T, E> {
    /// Drive the operation with this index and report what it gave.
    Drive(usize),
    /// The race is won with this value.
    Won(T),
    /// Every operation failed: their errors, in the operations' order.
    AllFailed(AggregateError<E>),
    /// No operation finished the race this time: wait for a wake.
    Suspend,
}

/// One error per operation of a race, in the operations' order.
pub struct AggregateError<E> {
    errors: Vec<E>,
}

impl<E> View for AggregateError<E> {
    type V = Seq<E>;

    closed spec fn view(&self) -> Seq<E> {
        self.errors@
    }
}

impl<E> AggregateError<E> {
    /// The number of errors.
    pub fn len(&self) -> (r: usize)
        ensures
            r == self@.len(),
    {
        self.errors.len()
    }

    /// The error of the operation at position `i`.
    pub fn get(&self, i: usize) -> (r: &E)
        requires
            i < self@.len(),
        ensures
            *r == self@[i as int],
    {
        &self.errors[i]
    }

    /// The errors, in the operations' order.
    pub fn into_vec(self) -> (r: Vec<E>)
        ensures
            r@ == self@,
    {
        self.errors
    }
}

/// Which slots hold an error.
pub open spec fn failed_flags<E>(slots: Seq<Option<E>>) -> Seq<bool> {
    slots.map_values(|o: Option<E>| o is Some)
}

/// The errors held in the slots, in order.
pub open spec fn slot_errors<E>(slots: Seq<Option<E>>) -> Seq<E> {
    slots.map_values(|o: Option<E>| o->0)
}

/// The index visited at step `k` of a round over `n` operations that begins
/// at `offset`.
pub open spec fn round_index(offset: nat, k: nat, n: nat) -> int {
    if offset + k < n {
        (offset + k) as int
    } else {
        offset + k - n
    }
}

/// Where the round after one that began at `offset` begins.
pub open spec fn next_offset(offset: nat, n: nat) -> nat {
    if offset + 1 < n {
        offset + 1
    } else {
        0
    }
}

/// The race goes on from step `from` of its round, with these `slots` and
/// `offset`, and ends in state `after` with action `r`: it drives the next
/// operation of the round that has not failed; with none left, it ends the
/// round, and is lost if every operation has failed.
pub open spec fn round_goes_on<T, E>(
    slots: Seq<Option<E>>,
    offset: nat,
    from: nat,
    after: RaceCore<E>,
    r: RaceAction<T, E>,
) -> bool {
    let n = slots.len();
    match r {
        RaceAction::Drive(i) => {
            &&& after.can_report()
            &&& i < n
            &&& after.current() == Some(i)
            &&& after.slots() == slots
            &&& after.offset() == offset
            &&& from < after.steps() <= n
            &&& i == round_index(offset, (after.steps() - 1) as nat, n)
            &&& slots[i as int] is None
            &&& forall|k: nat|
                from <= k < after.steps() - 1 ==> slots[round_index(offset, k, n)] is Some
        },
        RaceAction::Suspend => {
            &&& after.can_drive()
            &&& after.slots() == slots
            &&& after.offset() == next_offset(offset, n)
            &&& forall|k: nat| from <= k < n ==> slots[round_index(offset, k, n)] is Some
            &&& exists|j: int| 0 <= j < n && slots[j] is None
        },
        RaceAction::AllFailed(agg) => {
            &&& after.is_done()
            &&& forall|j: int| 0 <= j < n ==> slots[j] is Some
            &&& agg@ == slot_errors(slots)
        },
        RaceAction::Won(_) => false,
    }
}

/// The state of a race over a fixed number of operations.
pub struct RaceCore<E> {
    n: usize,
    slots: Vec<Option<E>>,
    completed: usize,
    done: bool,
    offset: usize,
    steps: usize,
    current: Option<usize>,
}

impl<E> RaceCore<E> {
    /// The number of operations.
    pub closed spec fn len(&self) -> nat {
        self.n as nat
    }

    /// For each operation, the error it failed with, if it has.
    pub closed spec fn slots(&self) -> Seq<Option<E>> {
        self.slots@
    }

    /// The race is over: it was won or lost.
    pub closed spec fn is_done(&self) -> bool {
        self.done
    }

    /// Where the current round began.
    pub closed spec fn offset(&self) -> nat {
        self.offset as nat
    }

    /// How many steps of the current round were taken.
    pub closed spec fn steps(&self) -> nat {
        self.steps as nat
    }

    /// The operation whose outcome the race waits for.
    pub closed spec fn current(&self) -> Option<usize> {
        self.current
    }

    /// The state is consistent.
    pub closed spec fn wf(&self) -> bool {
        &&& self.done ==> self.current is None
        &&& !self.done ==> {
            &&& self.slots@.len() == self.n
            &&& self.completed == count_true(failed_flags(self.slots@))
            &&& (self.n > 0 ==> self.offset < self.n)
            &&& (self.n == 0 ==> self.offset == 0)
            &&& self.steps <= self.n
            &&& match self.current {
                Some(i) => {
                    &&& self.steps > 0
                    &&& i == round_index(self.offset as nat, (self.steps - 1) as nat, self.n as nat)
                    &&& self.slots@[i as int] is None
                },
                None => true,
            }
        }
    }

    /// The bounds that every state of a race that is not over keeps: one
    /// slot per operation, and the round's start, its steps and the operation
    /// waited for within range.
    pub open spec fn in_bounds(&self) -> bool {
        &&& self.slots().len() == self.len()
        &&& (self.len() > 0 ==> self.offset() < self.len())
        &&& (self.len() == 0 ==> self.offset() == 0)
        &&& self.steps() <= self.len()
        &&& (self.current() matches Some(i) ==> i < self.len() && self.slots()[i as int] is None)
    }

    /// The race may be driven: it is neither over nor waiting for an outcome.
    pub open spec fn can_drive(&self) -> bool {
        self.wf() && self.in_bounds() && !self.is_done() && self.current() is None
    }

    /// The race waits for the outcome of an operation.
    pub open spec fn can_report(&self) -> bool {
        self.wf() && self.in_bounds() && !self.is_done() && self.current() is Some
    }

    /// A race over `n` operations, none of which has been driven.
    pub fn new(n: usize) -> (r: RaceCore<E>)
        ensures
            r.can_drive(),
            r.len() == n,
            r.slots() == Seq::new(n as nat, |_i: int| None::<E>),
            r.offset() == 0,
    {
        let mut slots: Vec<Option<E>> = Vec::new();
        let mut i: usize = 0;
        while i < n
            invariant
                i <= n,
                slots@ == Seq::new(i as nat, |_j: int| None::<E>),
            decreases n - i,
        {
            slots.push(None);
            i = i + 1;
            assert(slots@ =~= Seq::new(i as nat, |_j: int| None::<E>));
        }
        proof {
            crate::readiness::lemma_count_true_zero(failed_flags(slots@));
        }
        RaceCore { n, slots, completed: 0, done: false, offset: 0, steps: 0, current: None }
    }

    /// Whether the race is over.
    pub fn finished(&self) -> (r: bool)
        ensures
            r == self.is_done(),
    {
        self.done
    }

    /// Begins a round: drives the first operation of it that has not failed,
    /// or, with none left, ends the race as lost.
    pub fn drive<T>(&mut self) -> (r: RaceAction<T, E>)
        requires
            old(self).can_drive(),
        ensures
            final(self).len() == old(self).len(),
            round_goes_on(old(self).slots(), old(self).offset(), 0, *final(self), r),
    {
        self.steps = 0;
        self.advance()
    }

    /// Takes in what driving the current operation gave. A success wins the
    /// race at once. A failure is kept in the operation's slot, and then, as
    /// when the operation is not ready, the round goes on.
    pub fn report<T>(&mut self, outcome: Outcome<T, E>) -> (r: RaceAction<T, E>)
        requires
            old(self).can_report(),
        ensures
            final(self).len() == old(self).len(),
            match outcome {
                Outcome::Success(v) => {
                    &&& r == RaceAction::<T, E>::Won(v)
                    &&& final(self).wf()
                    &&& final(self).is_done()
                },
                Outcome::Failure(e) => round_goes_on(
                    old(self).slots().update(old(self).current()->0 as int, Some(e)),
                    old(self).offset(),
                    old(self).steps(),
                    *final(self),
                    r,
                ),
                Outcome::Pending => round_goes_on(
                    old(self).slots(),
                    old(self).offset(),
                    old(self).steps(),
                    *final(self),
                    r,
                ),
            },
    {
        let i = self.current.unwrap();
        self.current = None;
        match outcome {
            Outcome::Success(v) => {
                self.done = true;
                RaceAction::Won(v)
            },
            Outcome::Failure(e) => {
                proof {
                    let f = failed_flags(self.slots@);
                    assert(failed_flags(self.slots@.update(i as int, Some(e))) =~= f.update(i as int, true));
                    lemma_count_true_update(f, i as int, true);
                    lemma_count_true_bound(f.update(i as int, true));
                }
                self.slots.set(i, Some(e));
                self.completed = self.completed + 1;
                self.advance()
            },
            Outcome::Pending => self.advance(),
        }
    }

    /// Goes on with the current round from the step it stands at.
    fn advance<T>(&mut self) -> (r: RaceAction<T, E>)
        requires
            old(self).wf(),
            !old(self).is_done(),
            old(self).current() is None,
        ensures
            final(self).len() == old(self).len(),
            round_goes_on(old(self).slots(), old(self).offset(), old(self).steps(), *final(self), r),
    {
        let n = self.n;
        while self.steps < n
            invariant
                self.wf(),
                !self.done,
                self.current is None,
                self.n == n,
                n == old(self).n,
                self.slots@ == old(self).slots@,
                self.offset == old(self).offset,
                old(self).steps <= self.steps <= n,
                forall|k: nat|
                    old(self).steps <= k < self.steps ==> self.slots@[round_index(
                        self.offset as nat,
                        k,
                        n as nat,
                    )] is Some,
            decreases n - self.steps,
        {
            let idx = if self.steps < n - self.offset {
                self.offset + self.steps
            } else {
                self.steps - (n - self.offset)
            };
            self.steps = self.steps + 1;
            if self.slots[idx].is_none() {
                self.current = Some(idx);
                return RaceAction::Drive(idx);
            }
        }
        self.offset = if self.offset + 1 < n { self.offset + 1 } else { 0 };
        proof {
            let f = failed_flags(self.slots@);
            lemma_count_true_full(f);
            assert forall|j: int| 0 <= j < n implies (#[trigger] self.slots@[j] is Some) == f[j] by {}
        }
        if self.completed == n {
            let agg = self.take_errors();
            self.done = true;
            RaceAction::AllFailed(agg)
        } else {
            RaceAction::Suspend
        }
    }

    /// Moves every error out of the slots, which must all hold one.
    fn take_errors(&mut self) -> (r: AggregateError<E>)
        requires
            forall|j: int| 0 <= j < old(self).slots@.len() ==> old(self).slots@[j] is Some,
        ensures
            r@ == slot_errors(old(self).slots@),
            final(self).n == old(self).n,
            final(self).done == old(self).done,
            final(self).current == old(self).current,
    {
        let mut slots: Vec<Option<E>> = Vec::new();
        std::mem::swap(&mut slots, &mut self.slots);
        let ghost s = slots@;
        let mut rev: Vec<E> = Vec::new();
        while slots.len() > 0
            invariant
                s == old(self).slots@,
                forall|j: int| 0 <= j < s.len() ==> s[j] is Some,
                s.len() == slots@.len() + rev@.len(),
                slots@ == s.take(slots@.len() as int),
                forall|k: int| 0 <= k < rev@.len() ==> rev@[k] == s[s.len() - 1 - k]->0,
            decreases slots@.len(),
        {
            let x = slots.pop();
            match x {
                Some(Some(e)) => rev.push(e),
                _ => {},
            }
        }
        let mut errors: Vec<E> = Vec::new();
        while rev.len() > 0
            invariant
                s == old(self).slots@,
                s.len() == errors@.len() + rev@.len(),
                errors@ == slot_errors(s).take(errors@.len() as int),
                forall|k: int| 0 <= k < rev@.len() ==> rev@[k] == s[s.len() - 1 - k]->0,
            decreases rev@.len(),
        {
            let x = rev.pop();
            match x {
                Some(e) => errors.push(e),
                None => {},
            }
            assert(errors@ =~= slot_errors(s).take(errors@.len() as int));
        }
        assert(errors@ =~= slot_errors(s));
        AggregateError { errors }
    }
}

/// Two actions say the same: the same operation to drive, the same errors in
/// the same order, or both wait.
pub open spec fn same_action<T, E>(a: RaceAction<T, E>, b: RaceAction<T, E>) -> bool {
    match (a, b) {
        (RaceAction::Drive(i), RaceAction::Drive(j)) => i == j,
        (RaceAction::Won(v), RaceAction::Won(w)) => v == w,
        (RaceAction::AllFailed(x), RaceAction::AllFailed(y)) => x@ == y@,
        (RaceAction::Suspend, RaceAction::Suspend) => true,
        _ => false,
    }
}

/// Once a race is over, by a win or by a loss, it admits neither another
/// drive nor another outcome: no second value can come out of it.
pub proof fn race_over_admits_nothing<E>(core: RaceCore<E>)
    requires
        core.wf(),
        core.is_done(),
    ensures
        !core.can_drive(),
        !core.can_report(),
{
}

/// The race is deterministic: from the same slots, at the same point of a
/// round, it always goes on with the same action, and into states that agree
/// on all that the next step reads (slots, start of round, step, operation
/// waited for), so that the law applies again at the next step. In
/// particular a lost race always gives the same errors, each in its
/// operation's position, whatever order the failures came in.
pub proof fn race_goes_on_deterministically<T, E>(
    slots: Seq<Option<E>>,
    offset: nat,
    from: nat,
    a1: RaceCore<E>,
    r1: RaceAction<T, E>,
    a2: RaceCore<E>,
    r2: RaceAction<T, E>,
)
    requires
        round_goes_on(slots, offset, from, a1, r1),
        round_goes_on(slots, offset, from, a2, r2),
    ensures
        same_action(r1, r2),
        r1 is Drive ==> a1.slots() == a2.slots() && a1.offset() == a2.offset() && a1.steps()
            == a2.steps() && a1.current() == a2.current(),
        r1 is Suspend ==> a1.slots() == a2.slots() && a1.offset() == a2.offset() && a1.can_drive()
            && a2.can_drive(),
        r1 is AllFailed ==> a1.is_done() && a2.is_done(),
        r1 matches RaceAction::AllFailed(agg) ==> forall|j: int|
            0 <= j < slots.len() ==> agg@[j] == slots[j]->0,
{
    let n = slots.len();
    match (r1, r2) {
        (RaceAction::Drive(i), RaceAction::Drive(j)) => {
            let s1 = (a1.steps() - 1) as nat;
            let s2 = (a2.steps() - 1) as nat;
            if s1 < s2 {
                assert(slots[round_index(offset, s1, n)] is Some);
            } else if s2 < s1 {
                assert(slots[round_index(offset, s2, n)] is Some);
            }
        },
        (RaceAction::Drive(i), _) => {
            let s1 = (a1.steps() - 1) as nat;
            assert(slots[round_index(offset, s1, n)] is None);
        },
        (_, RaceAction::Drive(j)) => {
            let s2 = (a2.steps() - 1) as nat;
            assert(slots[round_index(offset, s2, n)] is None);
        },
        _ => {},
    }
}

/// When an operation fails, the race is lost exactly when every operation
/// has now failed. It is then lost with one error per operation, each in its
/// operation's position, the new one included, whatever order the failures
/// came in.
pub proof fn failure_loses_race_iff_all_failed<T, E>(
    core: RaceCore<E>,
    e: E,
    after: RaceCore<E>,
    r: RaceAction<T, E>,
)
    requires
        core.can_report(),
        round_goes_on(
            core.slots().update(core.current()->0 as int, Some(e)),
            core.offset(),
            core.steps(),
            after,
            r,
        ),
    ensures
        ({
            let slots = core.slots().update(core.current()->0 as int, Some(e));
            &&& (r is AllFailed) == (forall|j: int| 0 <= j < core.len() ==> slots[j] is Some)
            &&& r matches RaceAction::AllFailed(agg) ==> {
                &&& agg@.len() == core.len()
                &&& agg@[core.current()->0 as int] == e
                &&& forall|j: int| 0 <= j < core.len() ==> agg@[j] == slots[j]->0
            }
        }),
{
    let slots = core.slots().update(core.current()->0 as int, Some(e));
    match r {
        RaceAction::Drive(i) => {
            assert(slots[i as int] is None);
        },
        RaceAction::Suspend => {
            let j = choose|j: int| 0 <= j < slots.len() && slots[j] is None;
            assert(slots[j] is None);
        },
        _ => {},
    }
}

} // verus!
