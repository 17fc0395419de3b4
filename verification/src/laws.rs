//! What the protocol guarantees, proved of the functions that decide it.
//!
//! The first part follows one task through a step. The second part follows
//! one requirement through everything that any number of tasks may do to it.

use vstd::prelude::*;
use crate::error::PreemptionError;
use crate::requirement::Ownership;
use crate::thief::{lemma_first_lost_unique, relinquished, Standing, ThiefInfo};

verus! {

/// A task's first step never fails, whoever owns its requirements, and leaves
/// the task holding every one of them.
pub proof fn first_step_never_fails(task: Standing, owners: Seq<Ownership>)
    requires
        task.fresh,
    ensures
        task.verdict(owners) is Ok,
        !task.arbitrated(owners).fresh,
        task.arbitrated(owners).holds_all(task.claimed(owners)),
{
    let after = task.arbitrated(owners);
    let taken = task.claimed(owners);
    assert forall|k: int| 0 <= k < taken.len() implies after.holds(k, taken) by {
        assert(taken[k] == owners[k].steal(task.thief));
        assert(after.serials[k] == owners[k].steal(task.thief).claims);
    }
}

/// A later step succeeds exactly where the task still holds every
/// requirement, and then changes nothing.
pub proof fn later_step_checks_every_claim(task: Standing, owners: Seq<Ownership>)
    requires
        !task.fresh,
    ensures
        task.verdict(owners) is Ok <==> task.holds_all(owners),
        task.arbitrated(owners) == task,
        task.claimed(owners) == owners,
{
}

/// A failing step names the first requirement in the list that the task no
/// longer holds, the owner recorded for it, and the task itself.
pub proof fn failure_names_the_first_loss(task: Standing, owners: Seq<Ownership>, k: int)
    requires
        !task.fresh,
        task.first_lost(k, owners),
    ensures
        task.verdict(owners) == Err::<(), PreemptionError>(task.fault(owners[k])),
        task.fault(owners[k]).incoming == owners[k].owner,
        task.fault(owners[k]).outgoing == task.thief,
        task.fault(owners[k]).requirement == owners[k].info,
{
    assert(!task.holds(k, owners));
    let chosen = choose|i: int| task.first_lost(i, owners);
    lemma_first_lost_unique(task, owners, k, chosen);
}

/// If a task owns a requirement and another task takes its first step on
/// that requirement, the first task's very next step fails. Where the
/// requirement is the first in its list that it lost, the error names the
/// other task as incoming and the requirement as the one contested.
///
/// `theirs` and `j` are the list of the task that steals and the place of the
/// requirement in it; `now` and `k` are the list of the task that loses, as it
/// stands at that task's next step, and the place of the requirement in it.
pub proof fn next_step_detects_theft(
    victim: Standing,
    now: Seq<Ownership>,
    k: int,
    thief: Standing,
    theirs: Seq<Ownership>,
    j: int,
)
    requires
        0 <= k < now.len(),
        0 <= j < theirs.len(),
        !victim.fresh,
        theirs[j].honors(victim.serials[k]),
        thief.fresh,
        theirs[j].claims < u64::MAX,
        now[k] == thief.claimed(theirs)[j],
    ensures
        victim.verdict(now) is Err,
        (forall|i: int| 0 <= i < k ==> victim.holds(i, now)) ==> victim.verdict(now) == Err::<
            (),
            PreemptionError,
        >(
            PreemptionError {
                incoming: Some(thief.thief),
                outgoing: victim.thief,
                requirement: theirs[j].info,
            },
        ),
{
    assert(now[k] == theirs[j].steal(thief.thief));
    assert(!victim.holds(k, now));
    if forall|i: int| 0 <= i < k ==> victim.holds(i, now) {
        failure_names_the_first_loss(victim, now, k);
    }
}

/// When the inner computation resolves, no requirement of the task has an
/// owner any more. Nothing else about the requirement changes.
pub proof fn completion_releases_every_requirement(owners: Seq<Ownership>, k: int)
    requires
        0 <= k < owners.len(),
    ensures
        relinquished(owners).len() == owners.len(),
        relinquished(owners)[k].owner is None,
        relinquished(owners)[k].current() is None,
        relinquished(owners)[k].claims == owners[k].claims,
        relinquished(owners)[k].info == owners[k].info,
{
}

/// A requirement without an owner reports none, and goes on reporting none
/// for as long as nobody takes it: asking changes nothing.
pub proof fn unowned_reports_none(record: Ownership)
    requires
        record.owner is None,
    ensures
        record.current() is None,
        forall|serial: u64| !record.honors(serial),
{
}

/// A task as one of its requirements sees it: the task's token, and the
/// number of the claim that the task made on the requirement, once it has
/// taken its first step.
pub struct Party {
    pub thief: ThiefInfo,
    pub claim: Option<u64>,
}

/// One requirement and all the tasks that were ever bound to it.
pub struct World {
    pub record: Ownership,
    pub parties: Seq<Party>,
}

/// What a step of a task can do to a requirement: take it, on the task's
/// first step, or release it, when the inner computation resolves. A later
/// step that only checks the task's claim changes nothing.
pub enum Event {
    FirstStep(int),
    Completion,
}

impl World {
    /// A requirement whose record is `record`, and tasks that have yet to
    /// take their first steps.
    pub open spec fn begin(record: Ownership, thieves: Seq<ThiefInfo>) -> World {
        World {
            record,
            parties: Seq::new(thieves.len(), |i: int| Party { thief: thieves[i], claim: None }),
        }
    }

    /// Whether the `i`-th task is the recorded owner.
    pub open spec fn owned_by(self, i: int) -> bool {
        &&& 0 <= i < self.parties.len()
        &&& self.parties[i].claim matches Some(serial)
        &&& self.record.honors(serial)
    }

    /// The world after `event`.
    pub open spec fn step(self, event: Event) -> World {
        match event {
            Event::FirstStep(i) => {
                if 0 <= i < self.parties.len() && self.parties[i].claim is None {
                    let record = self.record.steal(self.parties[i].thief);
                    let party = Party { thief: self.parties[i].thief, claim: Some(record.claims) };
                    World { record, parties: self.parties.update(i, party) }
                } else {
                    self
                }
            },
            Event::Completion => World { record: self.record.release(), parties: self.parties },
        }
    }

    /// The world after `events`, in their order.
    pub open spec fn run(self, events: Seq<Event>) -> World
        decreases events.len(),
    {
        if events.len() == 0 {
            self
        } else {
            self.run(events.drop_last()).step(events.last())
        }
    }

    /// Whether the `i`-th task's claim, if it has made one, was made after
    /// the requirement had counted `floor` claims and is one that the
    /// requirement has counted.
    pub open spec fn counted(self, floor: int, i: int) -> bool {
        self.parties[i].claim matches Some(serial) ==> floor < serial <= self.record.claims
    }

    /// Whether the `i`-th and the `j`-th task hold different claims, if they
    /// hold any.
    pub open spec fn apart(self, i: int, j: int) -> bool {
        self.parties[i].claim is Some ==> self.parties[i].claim != self.parties[j].claim
    }

    /// Whether the owner that the requirement records, if it records one, is
    /// the `i`-th task where that task's claim is the latest.
    pub open spec fn named(self, i: int) -> bool {
        self.parties[i].claim == Some(self.record.claims) && self.record.owner is Some
            ==> self.record.owner == Some(self.parties[i].thief)
    }

    /// Whether every claim that a task holds was made after the requirement
    /// had counted `floor` claims, is one that the requirement has counted,
    /// and is held by that task alone, and whether the owner that the
    /// requirement records is the task whose claim is in force.
    pub open spec fn orderly(self, floor: int) -> bool {
        &&& floor <= self.record.claims
        &&& forall|i: int| 0 <= i < self.parties.len() ==> #[trigger] self.counted(floor, i)
        &&& forall|i: int| 0 <= i < self.parties.len() ==> #[trigger] self.named(i)
        &&& forall|i: int, j: int|
            0 <= i < self.parties.len() && 0 <= j < self.parties.len() && i != j
                ==> #[trigger] self.apart(i, j)
    }
}

/// An orderly world stays orderly, and its count of claims grows by at most
/// one with each event. A task that has made its claim keeps it.
pub proof fn lemma_step_keeps_order(world: World, floor: int, event: Event)
    requires
        world.orderly(floor),
        world.record.claims < u64::MAX,
    ensures
        world.step(event).orderly(floor),
        world.step(event).parties.len() == world.parties.len(),
        world.record.claims <= world.step(event).record.claims <= world.record.claims + 1,
        forall|i: int|
            0 <= i < world.parties.len() && world.parties[i].claim is Some
                ==> #[trigger] world.step(event).parties[i] == world.parties[i],
        forall|i: int|
            0 <= i < world.parties.len() ==> (#[trigger] world.step(event).parties[i]).thief
                == world.parties[i].thief,
{
    let next = world.step(event);
    assert forall|i: int| 0 <= i < next.parties.len() implies #[trigger] next.counted(
        floor,
        i,
    ) by {
        assert(world.counted(floor, i));
    }
    assert forall|i: int| 0 <= i < next.parties.len() implies #[trigger] next.named(i) by {
        assert(world.named(i));
        assert(world.counted(floor, i));
    }
    assert forall|i: int, j: int|
        0 <= i < next.parties.len() && 0 <= j < next.parties.len() && i != j
        implies #[trigger] next.apart(i, j) by {
        assert(world.apart(i, j));
        assert(world.counted(floor, i));
        assert(world.counted(floor, j));
    }
}

/// Running an orderly world keeps it orderly, as long as the requirement
/// does not run out of numbers for its claims.
pub proof fn lemma_run_keeps_order(world: World, floor: int, events: Seq<Event>)
    requires
        world.orderly(floor),
        world.record.claims + events.len() <= u64::MAX,
    ensures
        world.run(events).orderly(floor),
        world.run(events).parties.len() == world.parties.len(),
        world.record.claims <= world.run(events).record.claims <= world.record.claims
            + events.len(),
        forall|i: int|
            0 <= i < world.parties.len() && world.parties[i].claim is Some
                ==> #[trigger] world.run(events).parties[i] == world.parties[i],
        forall|i: int|
            0 <= i < world.parties.len() ==> (#[trigger] world.run(events).parties[i]).thief
                == world.parties[i].thief,
    decreases events.len(),
{
    if events.len() > 0 {
        lemma_run_keeps_order(world, floor, events.drop_last());
        let before = world.run(events.drop_last());
        lemma_step_keeps_order(before, floor, events.last());
        assert forall|i: int|
            0 <= i < world.parties.len() && world.parties[i].claim is Some
            implies #[trigger] world.run(events).parties[i] == world.parties[i] by {
            assert(before.parties[i] == world.parties[i]);
        }
        assert forall|i: int| 0 <= i < world.parties.len() implies (
        #[trigger] world.run(events).parties[i]).thief == world.parties[i].thief by {
            assert(before.parties[i].thief == world.parties[i].thief);
        }
    }
}

/// A world in which no task has taken its first step is orderly.
pub proof fn lemma_begin_is_orderly(record: Ownership, thieves: Seq<ThiefInfo>)
    ensures
        World::begin(record, thieves).orderly(record.claims as int),
        World::begin(record, thieves).parties.len() == thieves.len(),
        forall|i: int|
            0 <= i < thieves.len() ==> (#[trigger] World::begin(record, thieves).parties[i]).thief
                == thieves[i],
{
    let start = World::begin(record, thieves);
    assert forall|i: int| 0 <= i < start.parties.len() implies #[trigger] start.counted(
        record.claims as int,
        i,
    ) by {}
    assert forall|i: int| 0 <= i < start.parties.len() implies #[trigger] start.named(i) by {}
    assert forall|i: int, j: int|
        0 <= i < start.parties.len() && 0 <= j < start.parties.len() && i != j
        implies #[trigger] start.apart(i, j) by {}
}

/// At every moment, at most one task is the recorded owner of a requirement.
///
/// Whatever record the requirement starts from, whichever tasks are bound to
/// it, and in whatever order they take their first steps and complete, no two
/// of them are its owner at once.
pub proof fn single_ownership(
    record: Ownership,
    thieves: Seq<ThiefInfo>,
    events: Seq<Event>,
    i: int,
    j: int,
)
    requires
        record.claims + events.len() <= u64::MAX,
        World::begin(record, thieves).run(events).owned_by(i),
        World::begin(record, thieves).run(events).owned_by(j),
    ensures
        i == j,
{
    let start = World::begin(record, thieves);
    lemma_begin_is_orderly(record, thieves);
    lemma_run_keeps_order(start, record.claims as int, events);
    let world = start.run(events);
    if i != j {
        assert(world.apart(i, j));
    }
}

/// The owner that a requirement records is the task whose claim is in force:
/// where a task is the owner, it is that task's token that the requirement
/// reports, and that a task which lost the requirement finds in its error.
pub proof fn owner_is_reported(
    record: Ownership,
    thieves: Seq<ThiefInfo>,
    events: Seq<Event>,
    i: int,
)
    requires
        record.claims + events.len() <= u64::MAX,
        World::begin(record, thieves).run(events).owned_by(i),
    ensures
        0 <= i < thieves.len(),
        World::begin(record, thieves).run(events).record.owner == Some(thieves[i]),
{
    let start = World::begin(record, thieves);
    lemma_begin_is_orderly(record, thieves);
    lemma_run_keeps_order(start, record.claims as int, events);
    let world = start.run(events);
    assert(world.named(i));
    assert(world.parties[i].thief == start.parties[i].thief);
}

/// A task that lost a requirement never owns it again.
///
/// If, after `so_far`, the `victim` owns the requirement and the `thief` has
/// yet to take its first step, then once the `thief` has taken that step the
/// `thief` is the owner, and the `victim` is not, whatever happens `later`:
/// each of its later steps fails.
pub proof fn theft_is_final(
    record: Ownership,
    thieves: Seq<ThiefInfo>,
    so_far: Seq<Event>,
    victim: int,
    thief: int,
    later: Seq<Event>,
)
    requires
        record.claims + so_far.len() + 1 + later.len() <= u64::MAX,
        World::begin(record, thieves).run(so_far).owned_by(victim),
        0 <= thief < thieves.len(),
        World::begin(record, thieves).run(so_far).parties[thief].claim is None,
    ensures
        World::begin(record, thieves).run(so_far).step(Event::FirstStep(thief)).owned_by(thief),
        !World::begin(record, thieves).run(so_far).step(Event::FirstStep(thief)).run(
            later,
        ).owned_by(victim),
{
    let start = World::begin(record, thieves);
    let floor = record.claims as int;
    lemma_begin_is_orderly(record, thieves);
    lemma_run_keeps_order(start, floor, so_far);
    let world = start.run(so_far);
    let stolen = world.step(Event::FirstStep(thief));
    lemma_step_keeps_order(world, floor, Event::FirstStep(thief));
    assert(stolen.parties[victim] == world.parties[victim]);
    lemma_run_keeps_order(stolen, floor, later);
    assert(stolen.run(later).parties[victim] == stolen.parties[victim]);
}

/// The first step of a task is, to each of its requirements, the event
/// [`Event::FirstStep`], and the completion of its inner computation is the
/// event [`Event::Completion`].
pub proof fn steps_are_events(task: Standing, owners: Seq<Ownership>, k: int)
    requires
        task.fresh,
        0 <= k < owners.len(),
    ensures
        ({
            let world = World::begin(owners[k], seq![task.thief]);
            let next = world.step(Event::FirstStep(0));
            &&& next.record == task.claimed(owners)[k]
            &&& next.parties[0].claim == Some(task.arbitrated(owners).serials[k])
            &&& next.owned_by(0) <==> task.arbitrated(owners).holds(k, task.claimed(owners))
            &&& world.step(Event::Completion).record == relinquished(owners)[k]
        }),
{
}

} // verus!
