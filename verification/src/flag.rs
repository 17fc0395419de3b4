//! The mechanism in its simplest form: one requirement for each task, and a
//! flag that the requirement hands to whoever takes it.
//!
//! A cell numbers the flags it hands out. Only the flag handed out last is
//! valid, and the cell counts as claimed for as long as that flag has not been
//! handed back.

use core::marker::PhantomData;
use vstd::prelude::*;
use crate::thief::Progress;

verus! {

/// The flag that a task holds for the cell it took. It is valid until the
/// cell is taken again.
#[derive(Debug)]
pub struct OwnershipFlag {
    serial: u64,
}

impl View for OwnershipFlag {
    type V = u64;

    /// The number under which the cell handed out the flag.
    closed spec fn view(&self) -> u64 {
        self.serial
    }
}

/// Returned by a task that finds its flag revoked.
#[derive(Debug, Clone, Copy, PartialEq, Eq, Structural)]
pub struct PreemptionError;

/// A protected value that is revoked from its holder when another takes it.
///
/// Steps of different tasks must never overlap: the mechanism is meant for a
/// single thread that steps one task at a time.
pub struct RevocableCell<T> {
    data: T,
    issued: u64,
    held: bool,
}

impl<T> RevocableCell<T> {
    /// The protected value.
    pub closed spec fn value(&self) -> T {
        self.data
    }

    /// How many flags the cell has handed out.
    pub closed spec fn issued(&self) -> u64 {
        self.issued
    }

    /// Whether the flag handed out last is still with its holder.
    pub closed spec fn held(&self) -> bool {
        self.held
    }

    /// The number of the flag that is with its holder, if one is.
    pub open spec fn flag_in_force(&self) -> Option<u64> {
        if self.held() {
            Some(self.issued())
        } else {
            None
        }
    }

    /// Whether `flag` is valid: it is the one that the cell handed out last.
    pub open spec fn honors(&self, flag: OwnershipFlag) -> bool {
        flag@ == self.issued()
    }

    pub fn new(data: T) -> (cell: Self)
        ensures
            cell.value() == data,
            cell.issued() == 0,
            !cell.held(),
    {
        RevocableCell { data, issued: 0, held: false }
    }

    /// Takes the cell. The flag handed out before, if any, is revoked, and a
    /// new valid flag is returned.
    pub fn steal_flag(&mut self) -> (flag: OwnershipFlag)
        requires
            old(self).issued() < u64::MAX,
        ensures
            final(self).issued() == old(self).issued() + 1,
            final(self).held(),
            final(self).honors(flag),
            final(self).value() == old(self).value(),
    {
        self.issued = self.issued + 1;
        self.held = true;
        OwnershipFlag { serial: self.issued }
    }

    /// Whether some task holds a valid flag for the cell.
    pub fn is_claimed(&self) -> (claimed: bool)
        ensures
            claimed == self.held(),
    {
        self.held
    }

    /// The number of the flag that is with its holder, if one is.
    pub fn current_flag(&self) -> (flag: Option<u64>)
        ensures
            flag == self.flag_in_force(),
    {
        if self.held {
            Some(self.issued)
        } else {
            None
        }
    }

    /// How many flags the cell has handed out.
    pub fn flags_issued(&self) -> (issued: u64)
        ensures
            issued == self.issued(),
    {
        self.issued
    }

    /// Whether `flag` is still valid.
    pub fn is_valid(&self, flag: &OwnershipFlag) -> (valid: bool)
        ensures
            valid == self.honors(*flag),
    {
        flag.serial == self.issued
    }

    /// Takes back a flag that its holder has no more use for. Where the flag
    /// was valid, the cell is no longer claimed.
    pub fn return_flag(&mut self, flag: OwnershipFlag)
        ensures
            final(self).issued() == old(self).issued(),
            final(self).held() == (old(self).held() && !old(self).honors(flag)),
            final(self).value() == old(self).value(),
    {
        if flag.serial == self.issued {
            self.held = false;
        }
    }

    /// Reads the protected value.
    pub fn data(&self) -> (data: &T)
        ensures
            *data == self.value(),
    {
        &self.data
    }

    /// Reaches the protected value for writing.
    pub fn data_mut(&mut self) -> (data: &mut T)
        ensures
            *data == old(self).value(),
            final(self).value() == *final(data),
            final(self).issued() == old(self).issued(),
            final(self).held() == old(self).held(),
    {
        &mut self.data
    }
}

/// A computation bound to one cell, which it takes when it is first stepped.
pub struct PreemptableFuture<F, T> {
    inner: F,
    valid_flag: Option<OwnershipFlag>,
    requirement: PhantomData<T>,
}

impl<F, T> PreemptableFuture<F, T> {
    /// The inner computation.
    pub closed spec fn computation(&self) -> F {
        self.inner
    }

    /// The flag that the task took on its first step, if it has taken that step.
    pub closed spec fn flag(&self) -> Option<OwnershipFlag> {
        self.valid_flag
    }

    /// Whether the task has a flag and `requirement` still honors it.
    pub open spec fn holds(&self, requirement: &RevocableCell<T>) -> bool {
        self.flag() matches Some(flag) && requirement.honors(flag)
    }

    /// Whether a step of the task on `requirement` goes on to the inner
    /// computation: the task has no flag yet and will take the cell, or its
    /// flag is still valid.
    pub open spec fn goes_on(&self, requirement: &RevocableCell<T>) -> bool {
        match self.flag() {
            Some(flag) => requirement.honors(flag),
            None => true,
        }
    }

    /// What a step comes to, given what the inner computation came to: its
    /// value is handed on under `Ok`.
    pub open spec fn resolution<Output>(outcome: Progress<Output>) -> Progress<
        Result<Output, PreemptionError>,
    > {
        match outcome {
            Progress::Ready(value) => Progress::Ready(Ok(value)),
            Progress::Pending => Progress::Pending,
        }
    }

    /// Whether a step can be opened: a task without a flag needs the cell to
    /// have a number left for one more flag.
    pub open spec fn can_step(&self, requirement: &RevocableCell<T>) -> bool {
        self.flag() is None ==> requirement.issued() < u64::MAX
    }

    /// Binds `inner` to `requirement`. The cell is taken only when the task is
    /// first stepped.
    pub fn new(inner: F, requirement: &RevocableCell<T>) -> (task: Self)
        ensures
            task.computation() == inner,
            task.flag() is None,
    {
        PreemptableFuture { inner, valid_flag: None, requirement: PhantomData }
    }

    /// Reaches the inner computation, for the driver to step it.
    pub fn inner_mut(&mut self) -> (inner: &mut F)
        ensures
            *inner == old(self).computation(),
            final(self).computation() == *final(inner),
            final(self).flag() == old(self).flag(),
    {
        &mut self.inner
    }

    /// Ends the task: its flag goes back to the cell, which is no longer
    /// claimed where the flag was valid, and the inner computation is handed
    /// out.
    pub fn discard(self, requirement: &mut RevocableCell<T>) -> (inner: F)
        ensures
            inner == self.computation(),
            final(requirement).issued() == old(requirement).issued(),
            final(requirement).value() == old(requirement).value(),
            final(requirement).held() == (old(requirement).held() && !self.holds(
                old(requirement),
            )),
    {
        match self.valid_flag {
            Some(flag) => requirement.return_flag(flag),
            None => {},
        }
        self.inner
    }

    /// Tells whether [`PreemptableFuture::arbitrate`] can be called: it cannot
    /// where the task has no flag yet and the cell has handed out as many
    /// flags as it can.
    pub fn can_arbitrate(&self, requirement: &RevocableCell<T>) -> (can: bool)
        ensures
            can == self.can_step(requirement),
    {
        self.valid_flag.is_some() || requirement.flags_issued() < u64::MAX
    }

    /// Opens a step. A task without a flag takes the cell and cannot fail. A
    /// task with a flag changes nothing and fails if the flag was revoked.
    ///
    /// The inner computation may be stepped only where this returns `Ok`.
    pub fn arbitrate(&mut self, requirement: &mut RevocableCell<T>) -> (verdict: Result<
        (),
        PreemptionError,
    >)
        requires
            old(self).can_step(old(requirement)),
        ensures
            verdict is Ok <==> old(self).goes_on(old(requirement)),
            final(self).computation() == old(self).computation(),
            final(requirement).value() == old(requirement).value(),
            old(self).flag() is None ==> ({
                &&& final(requirement).issued() == old(requirement).issued() + 1
                &&& final(requirement).held()
                &&& final(self).flag() matches Some(flag) && final(requirement).honors(flag)
            }),
            old(self).flag() is Some ==> ({
                &&& final(self).flag() == old(self).flag()
                &&& final(requirement).issued() == old(requirement).issued()
                &&& final(requirement).held() == old(requirement).held()
            }),
    {
        if self.valid_flag.is_none() {
            let flag = requirement.steal_flag();
            self.valid_flag = Some(flag);
            Ok(())
        } else {
            let valid = match &self.valid_flag {
                Some(flag) => requirement.is_valid(flag),
                None => true,
            };
            if valid {
                Ok(())
            } else {
                Err(PreemptionError)
            }
        }
    }

    /// Takes one whole step: the arbitration, then one step of the inner
    /// computation, made by `step`, which is handed the protected value.
    ///
    /// Where the task's flag was revoked, `step` is not called: the inner
    /// computation and the protected value stay as they were.
    pub fn poll<Output, S: FnOnce(&mut F, &mut T) -> Progress<Output>>(
        &mut self,
        requirement: &mut RevocableCell<T>,
        step: S,
    ) -> (result: Progress<Result<Output, PreemptionError>>)
        requires
            old(self).can_step(old(requirement)),
            old(self).goes_on(old(requirement)) ==> forall|inner: &mut F, data: &mut T|
                *inner == old(self).computation() && *data == old(requirement).value()
                    ==> call_requires(step, (inner, data)),
        ensures
            old(self).flag() is None ==> ({
                &&& final(requirement).issued() == old(requirement).issued() + 1
                &&& final(requirement).held()
                &&& final(self).flag() matches Some(flag) && final(requirement).honors(flag)
            }),
            old(self).flag() is Some ==> ({
                &&& final(self).flag() == old(self).flag()
                &&& final(requirement).issued() == old(requirement).issued()
                &&& final(requirement).held() == old(requirement).held()
            }),
            !old(self).goes_on(old(requirement)) ==> ({
                &&& result == Progress::Ready(Err::<Output, PreemptionError>(PreemptionError))
                &&& final(self).computation() == old(self).computation()
                &&& final(requirement).value() == old(requirement).value()
            }),
            old(self).goes_on(old(requirement)) ==> (exists|
                inner: &mut F,
                data: &mut T,
                outcome: Progress<Output>,
            |
                {
                    &&& *inner == old(self).computation()
                    &&& *data == old(requirement).value()
                    &&& *final(inner) == final(self).computation()
                    &&& *final(data) == final(requirement).value()
                    &&& #[trigger] call_ensures(step, (inner, data), outcome)
                    &&& result == Self::resolution(outcome)
                }),
    {
        match self.arbitrate(requirement) {
            Err(error) => Progress::Ready(Err(error)),
            Ok(()) => {
                match step(&mut self.inner, requirement.data_mut()) {
                    Progress::Ready(value) => Progress::Ready(Ok(value)),
                    Progress::Pending => Progress::Pending,
                }
            },
        }
    }
}

/// An operation on a requirement that can be turned into a task.
pub trait StandardTask<Requirement> {
    /// The computation that the operation starts.
    type Future;

    /// Whether the operation can be started on `requirement`.
    spec fn accepts(&self, requirement: &RevocableCell<Requirement>) -> bool;

    /// Whether `computation` is what the operation may start on `requirement`.
    spec fn starts(
        &self,
        requirement: &RevocableCell<Requirement>,
        computation: Self::Future,
    ) -> bool;

    /// Starts the operation on `requirement` and binds the computation to it.
    /// The cell is not yet taken.
    fn with_requirement(
        &mut self,
        requirement: &RevocableCell<Requirement>,
    ) -> (task: PreemptableFuture<Self::Future, Requirement>)
        requires
            old(self).accepts(requirement),
        ensures
            task.flag() is None,
            old(self).starts(requirement, task.computation()),
    ;
}

/// A function that looks at the protected value and starts a computation is
/// such an operation.
impl<Func, Requirement, Fut> StandardTask<Requirement> for Func where
    Func: Fn(&Requirement) -> Fut,
{
    type Future = Fut;

    open spec fn accepts(&self, requirement: &RevocableCell<Requirement>) -> bool {
        call_requires(*self, (&requirement.value(),))
    }

    open spec fn starts(&self, requirement: &RevocableCell<Requirement>, computation: Fut) -> bool {
        call_ensures(*self, (&requirement.value(),), computation)
    }

    fn with_requirement(
        &mut self,
        requirement: &RevocableCell<Requirement>,
    ) -> (task: PreemptableFuture<Fut, Requirement>) {
        let inner = (*self)(requirement.data());
        PreemptableFuture::new(inner, requirement)
    }
}

} // verus!
