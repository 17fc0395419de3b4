//! Tasks that take requirements from one another.

use core::marker::PhantomData;
use vstd::prelude::*;
use vstd::string::StringExecFns;
use crate::error::PreemptionError;
use crate::requirement::{Claim, Ownership, Requirement};

verus! {

/// Contains metadata about a task. Two tasks may carry the same name: a task
/// is told apart from the others by the claims it was given, never by this.
#[derive(Debug, Clone, Copy)]
pub struct ThiefInfo {
    pub name: &'static str,
}

impl ThiefInfo {
    /// The text that [`ThiefInfo::to_string`] produces.
    pub open spec fn text(self) -> Seq<char> {
        "Thief { name: "@ + self.name@ + " } "@
    }

    /// Renders the token for diagnostics.
    pub fn to_string(&self) -> (s: String)
        ensures
            s@ == self.text(),
    {
        let mut s = String::from_str("Thief { name: ");
        s.append(self.name);
        s.append(" } ");
        s
    }
}

/// What one step of a computation came to: a value, or a request to be
/// stepped again later.
#[derive(Debug, PartialEq, Eq)]
pub enum Progress<T> {
    Ready(T),
    Pending,
}

/// The ownership records of a list of requirements, in the order of the list.
pub open spec fn ownerships<R: Requirement + ?Sized>(requirements: Seq<&mut R>) -> Seq<
    Ownership,
> {
    Seq::new(requirements.len(), |k: int| requirements[k].ownership())
}

/// Whether `k` is a place in a list of `n` entries.
pub open spec fn place(k: int, n: int) -> bool {
    0 <= k < n
}

/// Whether every requirement in `after` is as it is in `before`.
pub open spec fn untouched<R: Requirement + ?Sized>(
    after: Seq<&mut R>,
    before: Seq<&mut R>,
) -> bool {
    &&& after.len() == before.len()
    &&& forall|k: int| 0 <= k < after.len() ==> &*(#[trigger] after[k]) == &*before[k]
}

/// The records after their owners let go of every requirement in the list.
pub open spec fn relinquished(owners: Seq<Ownership>) -> Seq<Ownership> {
    owners.map_values(|o: Ownership| o.release())
}

/// What a step comes to, given what the inner computation came to: its value
/// is handed on under `Ok`.
pub open spec fn resolution<T>(outcome: Progress<T>) -> Progress<Result<T, PreemptionError>> {
    match outcome {
        Progress::Ready(value) => Progress::Ready(Ok(value)),
        Progress::Pending => Progress::Pending,
    }
}

/// The records at the end of a step in which the inner computation came to
/// `outcome`: released where it resolved, left with the task where it
/// suspended.
pub open spec fn settled<T>(owners: Seq<Ownership>, outcome: Progress<T>) -> Seq<Ownership> {
    if outcome is Ready {
        relinquished(owners)
    } else {
        owners
    }
}

/// What a task is to the arbitration: its token, whether it has yet to take
/// its first step, and the numbers of the claims it made on that step, one for
/// each of its requirements.
pub struct Standing {
    pub thief: ThiefInfo,
    pub fresh: bool,
    pub serials: Seq<u64>,
}

impl Standing {
    /// Whether the task holds its `k`-th requirement: it has made a claim on
    /// it, and that claim is still the one in force.
    pub open spec fn holds(self, k: int, owners: Seq<Ownership>) -> bool {
        !self.fresh && owners[k].honors(self.serials[k])
    }

    /// Whether the task still holds every requirement.
    pub open spec fn holds_all(self, owners: Seq<Ownership>) -> bool {
        forall|k: int| 0 <= k < owners.len() ==> self.holds(k, owners)
    }

    /// Whether the `k`-th requirement is the first in the list that the task
    /// no longer holds.
    pub open spec fn first_lost(self, k: int, owners: Seq<Ownership>) -> bool {
        &&& 0 <= k < owners.len()
        &&& !self.holds(k, owners)
        &&& forall|j: int| 0 <= j < k ==> self.holds(j, owners)
    }

    /// Whether a step can be opened: a first step needs every requirement to
    /// have a number left for one more claim.
    pub open spec fn can_step(self, owners: Seq<Ownership>) -> bool {
        self.fresh ==> forall|k: int|
            0 <= k < owners.len() ==> (#[trigger] owners[k]).claims < u64::MAX
    }

    /// The error with which the task ends when it finds `lost` in other hands.
    pub open spec fn fault(self, lost: Ownership) -> PreemptionError {
        PreemptionError { incoming: lost.owner, outgoing: self.thief, requirement: lost.info }
    }

    /// What the arbitration at the start of a step decides. A first step never
    /// fails. A later step fails unless the task still holds every
    /// requirement, and then names the first that it lost.
    pub open spec fn verdict(self, owners: Seq<Ownership>) -> Result<(), PreemptionError> {
        if self.fresh || self.holds_all(owners) {
            Ok(())
        } else {
            Err(self.fault(owners[choose|k: int| self.first_lost(k, owners)]))
        }
    }

    /// The task after the arbitration: a first step leaves it with one new
    /// claim on each requirement, a later step leaves it as it was.
    pub open spec fn arbitrated(self, owners: Seq<Ownership>) -> Standing {
        if self.fresh {
            Standing {
                thief: self.thief,
                fresh: false,
                serials: owners.map_values(|o: Ownership| o.steal(self.thief).claims),
            }
        } else {
            self
        }
    }

    /// The requirements after the arbitration: a first step takes them all, a
    /// later step leaves them as they were.
    pub open spec fn claimed(self, owners: Seq<Ownership>) -> Seq<Ownership> {
        if self.fresh {
            owners.map_values(|o: Ownership| o.steal(self.thief))
        } else {
            owners
        }
    }
}

/// At most one requirement is the first that a task lost.
pub proof fn lemma_first_lost_unique(task: Standing, owners: Seq<Ownership>, k1: int, k2: int)
    requires
        task.first_lost(k1, owners),
        task.first_lost(k2, owners),
    ensures
        k1 == k2,
{
    if k1 < k2 {
        assert(task.holds(k1, owners));
    } else if k2 < k1 {
        assert(task.holds(k2, owners));
    }
}

/// Wraps a computation so that it can be preempted by other tasks whose
/// requirements overlap with its own. Used as the protocol asks, this
/// provides the following guarantees:
///
/// - each requirement has at most one owner task
/// - each task owns all of its requirements when it is first stepped
/// - a task that no longer owns one of its requirements is cancelled when it
///   is next stepped
///
/// One step of the task is one call of [`PreemptibleFuture::poll`]. A driver
/// that has to let go of the requirements while the inner computation runs
/// makes the step in two halves: one call of
/// [`PreemptibleFuture::arbitrate`], one step of the inner computation where
/// the verdict was `Ok`, and one call of [`PreemptibleFuture::resolve`] with
/// what the inner step came to. Either way the driver hands the same
/// requirements, in the same order, to every call.
pub struct PreemptibleFuture<Fut, Output, const N: usize> {
    inner: Fut,
    info: ThiefInfo,
    claims: [u64; N],
    first_run: bool,
    output: PhantomData<Output>,
}

impl<Fut, Output, const N: usize> View for PreemptibleFuture<Fut, Output, N> {
    type V = Standing;

    closed spec fn view(&self) -> Standing {
        Standing { thief: self.info, fresh: self.first_run, serials: self.claims@ }
    }
}

impl<Fut, Output, const N: usize> PreemptibleFuture<Fut, Output, N> {
    /// The inner computation.
    pub closed spec fn computation(&self) -> Fut {
        self.inner
    }

    /// Wraps `inner` in a task called `name` that has yet to take its first
    /// step.
    pub fn new(inner: Fut, name: &'static str) -> (task: Self)
        ensures
            task.computation() == inner,
            task@.thief == (ThiefInfo { name }),
            task@.fresh,
            task@.serials.len() == N,
    {
        PreemptibleFuture {
            inner,
            info: ThiefInfo { name },
            claims: [0u64; N],
            first_run: true,
            output: PhantomData,
        }
    }

    /// Returns the task's token.
    pub fn info(&self) -> (info: ThiefInfo)
        ensures
            info == self@.thief,
    {
        self.info
    }

    /// Reaches the inner computation, for the driver to step it.
    pub fn inner_mut(&mut self) -> (inner: &mut Fut)
        ensures
            *inner == old(self).computation(),
            final(self).computation() == *final(inner),
            final(self)@ == old(self)@,
    {
        &mut self.inner
    }

    /// Tells whether a step can be opened: it cannot where the task has yet
    /// to take its first step and one of the requirements has counted as many
    /// claims as it can.
    pub fn can_arbitrate<R: Requirement + ?Sized>(&self, requirements: &[&mut R; N]) -> (can: bool)
        ensures
            can == self@.can_step(ownerships(requirements@)),
    {
        if !self.first_run {
            return true;
        }
        let mut i: usize = 0;
        while i < N
            invariant
                i <= N,
                self@.fresh,
                forall|k: int|
                    0 <= k < i ==> (#[trigger] ownerships(requirements@)[k]).claims < u64::MAX,
            decreases N - i,
        {
            if requirements[i].claims_made() == u64::MAX {
                assert(ownerships(requirements@)[i as int].claims == u64::MAX);
                return false;
            }
            assert(ownerships(requirements@)[i as int].claims < u64::MAX);
            i = i + 1;
        }
        true
    }

    /// Opens a step. On the task's first step this takes every requirement,
    /// whoever owned it, and cannot fail. On a later step it compares, in the
    /// order of the list, each requirement's claim in force with the claim the
    /// task made, changes nothing, and fails at the first that differs.
    ///
    /// The inner computation may be stepped only where this returns `Ok`.
    pub fn arbitrate<R: Requirement + ?Sized>(
        &mut self,
        requirements: &mut [&mut R; N],
    ) -> (verdict: Result<(), PreemptionError>)
        requires
            old(self)@.can_step(ownerships(old(requirements)@)),
        ensures
            verdict == old(self)@.verdict(ownerships(old(requirements)@)),
            final(self)@ == old(self)@.arbitrated(ownerships(old(requirements)@)),
            final(self).computation() == old(self).computation(),
            ownerships(final(requirements)@) == old(self)@.claimed(
                ownerships(old(requirements)@),
            ),
            // a later step changes no requirement
            !old(self)@.fresh ==> untouched(final(requirements)@, old(requirements)@),
            // a first step changes each requirement by one call of its own
            // `steal_ownership`, and by nothing else
            old(self)@.fresh ==> forall|k: int| #[trigger]
                place(k, N as int) ==> (exists|lent: &mut R, claim: Claim|
                    &*lent == &*old(requirements)@[k]
                        && &*final(lent) == &*final(requirements)@[k]
                        && #[trigger] call_ensures(
                        R::steal_ownership,
                        (lent, &old(self)@.thief),
                        claim,
                    )),
            // the list holds the requirements that it held
            forall|k: int|
                0 <= k < N ==> &*final(#[trigger] final(requirements)@[k])
                    == &*final(old(requirements)@[k]),
    {
        let ghost before = ownerships(requirements@);
        if self.first_run {
            assert forall|k: int| 0 <= k < N implies (
            #[trigger] requirements@[k].ownership()).claims < u64::MAX by {
                assert(before[k].claims < u64::MAX);
            }
            let mut i: usize = 0;
            while i < N
                invariant
                    i <= N,
                    self.inner == old(self).inner,
                    self.info == old(self).info,
                    self.first_run,
                    forall|k: int|
                        0 <= k < N ==> &*final(#[trigger] requirements@[k])
                            == &*final(old(requirements)@[k]),
                    forall|k: int|
                        i <= k < N ==> #[trigger] requirements@[k].ownership()
                            == old(requirements)@[k].ownership(),
                    forall|k: int|
                        i <= k < N ==> (#[trigger] old(requirements)@[k].ownership()).claims
                            < u64::MAX,
                    forall|k: int|
                        0 <= k < i ==> #[trigger] requirements@[k].ownership()
                            == old(requirements)@[k].ownership().steal(self.info),
                    forall|k: int|
                        0 <= k < i ==> self.claims@[k]
                            == (#[trigger] requirements@[k].ownership()).claims,
                    forall|k: int|
                        i <= k < N ==> &*(#[trigger] requirements@[k])
                            == &*old(requirements)@[k],
                    forall|k: int| #[trigger]
                        place(k, i as int) ==> (exists|lent: &mut R, claim: Claim|
                            &*lent == &*old(requirements)@[k]
                                && &*final(lent) == &*requirements@[k]
                                && #[trigger] call_ensures(
                                R::steal_ownership,
                                (lent, &self.info),
                                claim,
                            )),
                decreases N - i,
            {
                let ghost serials = self.claims@;
                let claim = requirements[i].steal_ownership(&self.info);
                self.claims[i] = claim.serial;
                assert(self.claims@ == serials.update(i as int, claim.serial));
                assert forall|k: int| #[trigger] place(k, i + 1) implies (exists|
                    lent: &mut R,
                    claim: Claim,
                |
                    &*lent == &*old(requirements)@[k]
                        && &*final(lent) == &*requirements@[k]
                        && #[trigger] call_ensures(
                        R::steal_ownership,
                        (lent, &self.info),
                        claim,
                    )) by {
                    if k < i {
                        assert(place(k, i as int));
                    }
                }
                i = i + 1;
            }
            self.first_run = false;
            assert(ownerships(requirements@) =~= old(self)@.claimed(before));
            assert forall|k: int| 0 <= k < N implies self@.serials[k]
                == old(self)@.arbitrated(before).serials[k] by {
                assert(self.claims@[k] == requirements@[k].ownership().claims);
            }
            assert(self@.serials =~= old(self)@.arbitrated(before).serials);
            Ok(())
        } else {
            let mut i: usize = 0;
            while i < N
                invariant
                    i <= N,
                    *self == *old(self),
                    !self.first_run,
                    requirements@ == old(requirements)@,
                    before == ownerships(requirements@),
                    forall|k: int| 0 <= k < i ==> self@.holds(k, before),
                decreases N - i,
            {
                let owner = requirements[i].current_owner();
                let incoming = match owner {
                    Some(claim) => {
                        if claim.serial == self.claims[i] {
                            i = i + 1;
                            continue ;
                        }
                        Some(claim.thief)
                    },
                    None => None,
                };
                let err = PreemptionError {
                    incoming,
                    outgoing: self.info,
                    requirement: requirements[i].info(),
                };
                proof {
                    assert(self@.first_lost(i as int, before));
                    let k = choose|k: int| self@.first_lost(k, before);
                    lemma_first_lost_unique(self@, before, i as int, k);
                }
                return Err(err);
            }
            Ok(())
        }
    }

    /// Closes a step in which the inner computation was stepped and came to
    /// `outcome`. Where it resolved to a value, this releases every
    /// requirement and hands the value on under `Ok`. Where it suspended, this
    /// leaves the requirements with the task.
    pub fn resolve<R: Requirement + ?Sized>(
        &self,
        outcome: Progress<Output>,
        requirements: &mut [&mut R; N],
    ) -> (result: Progress<Result<Output, PreemptionError>>)
        ensures
            result == resolution(outcome),
            ownerships(final(requirements)@) == settled(ownerships(old(requirements)@), outcome),
            // a suspension changes no requirement
            outcome is Pending ==> untouched(final(requirements)@, old(requirements)@),
            // a completion changes each requirement by one call of its own
            // `release_ownership`, and by nothing else
            outcome is Ready ==> forall|k: int| #[trigger]
                place(k, N as int) ==> (exists|lent: &mut R|
                    &*lent == &*old(requirements)@[k]
                        && &*final(lent) == &*final(requirements)@[k]
                        && #[trigger] call_ensures(R::release_ownership, (lent,), ())),
            // the list holds the requirements that it held
            forall|k: int|
                0 <= k < N ==> &*final(#[trigger] final(requirements)@[k])
                    == &*final(old(requirements)@[k]),
    {
        match outcome {
            Progress::Ready(value) => {
                let mut i: usize = 0;
                while i < N
                    invariant
                        i <= N,
                        forall|k: int|
                            0 <= k < N ==> &*final(#[trigger] requirements@[k])
                                == &*final(old(requirements)@[k]),
                        forall|k: int|
                            i <= k < N ==> #[trigger] requirements@[k].ownership()
                                == old(requirements)@[k].ownership(),
                        forall|k: int|
                            0 <= k < i ==> #[trigger] requirements@[k].ownership()
                                == old(requirements)@[k].ownership().release(),
                        forall|k: int|
                            i <= k < N ==> &*(#[trigger] requirements@[k])
                                == &*old(requirements)@[k],
                        forall|k: int| #[trigger]
                            place(k, i as int) ==> (exists|lent: &mut R|
                                &*lent == &*old(requirements)@[k]
                                    && &*final(lent) == &*requirements@[k]
                                    && #[trigger] call_ensures(
                                    R::release_ownership,
                                    (lent,),
                                    (),
                                )),
                    decreases N - i,
                {
                    requirements[i].release_ownership();
                    assert forall|k: int| #[trigger] place(k, i + 1) implies (exists|
                        lent: &mut R,
                    |
                        &*lent == &*old(requirements)@[k]
                            && &*final(lent) == &*requirements@[k]
                            && #[trigger] call_ensures(R::release_ownership, (lent,), ())) by {
                        if k < i {
                            assert(place(k, i as int));
                        }
                    }
                    i = i + 1;
                }
                assert(ownerships(requirements@) =~= relinquished(
                    ownerships(old(requirements)@),
                ));
                Progress::Ready(Ok(value))
            },
            Progress::Pending => Progress::Pending,
        }
    }

    /// Takes one whole step: the arbitration, then one step of the inner
    /// computation, made by `step`, then the release where the computation
    /// resolved.
    ///
    /// Where the arbitration fails, `step` is not called: the inner
    /// computation and the requirements stay as they were, and the error is
    /// the result. Otherwise the requirements are what
    /// [`PreemptibleFuture::arbitrate`] and [`PreemptibleFuture::resolve`]
    /// make of them.
    pub fn poll<R: Requirement + ?Sized, S: FnOnce(&mut Fut) -> Progress<Output>>(
        &mut self,
        requirements: &mut [&mut R; N],
        step: S,
    ) -> (result: Progress<Result<Output, PreemptionError>>)
        requires
            old(self)@.can_step(ownerships(old(requirements)@)),
            old(self)@.verdict(ownerships(old(requirements)@)) is Ok ==> forall|inner: &mut Fut|
                *inner == old(self).computation() ==> call_requires(step, (inner,)),
        ensures
            final(self)@ == old(self)@.arbitrated(ownerships(old(requirements)@)),
            old(self)@.verdict(ownerships(old(requirements)@)) matches Err(error) ==> ({
                &&& result == Progress::Ready(Err::<Output, PreemptionError>(error))
                &&& final(self).computation() == old(self).computation()
                &&& untouched(final(requirements)@, old(requirements)@)
            }),
            old(self)@.verdict(ownerships(old(requirements)@)) is Ok ==> (exists|
                inner: &mut Fut,
                outcome: Progress<Output>,
            |
                {
                    &&& *inner == old(self).computation()
                    &&& *final(inner) == final(self).computation()
                    &&& #[trigger] call_ensures(step, (inner,), outcome)
                    &&& result == resolution(outcome)
                    &&& ownerships(final(requirements)@) == settled(
                        old(self)@.claimed(ownerships(old(requirements)@)),
                        outcome,
                    )
                }),
            // the requirements are what the arbitration and, where it went
            // well, the resolution have made of them
            (exists|
                task: &mut Self,
                list: &mut [&mut R; N],
                verdict: Result<(), PreemptionError>,
            |
                {
                    &&& *task == *old(self)
                    &&& *list == *old(requirements)
                    &&& #[trigger] call_ensures(Self::arbitrate::<R>, (task, list), verdict)
                    &&& verdict is Err ==> *final(requirements) == *final(list)
                    &&& verdict is Ok ==> (exists|
                        after: &mut [&mut R; N],
                        outcome: Progress<Output>,
                    |
                        {
                            &&& *after == *final(list)
                            &&& *final(after) == *final(requirements)
                            &&& #[trigger] call_ensures(
                                Self::resolve::<R>,
                                (&*final(self), outcome, after),
                                result,
                            )
                        })
                }),
            // the list holds the requirements that it held
            forall|k: int|
                0 <= k < N ==> &*final(#[trigger] final(requirements)@[k])
                    == &*final(old(requirements)@[k]),
    {
        match self.arbitrate(requirements) {
            Err(error) => Progress::Ready(Err(error)),
            Ok(()) => {
                let outcome = step(&mut self.inner);
                self.resolve(outcome, requirements)
            },
        }
    }
}

} // verus!
