//! Requirements: shared resources that record which task holds them.

use vstd::prelude::*;
use vstd::string::StringExecFns;
use crate::thief::ThiefInfo;

verus! {

/// Contains metadata about a requirement. Names may collide and decide nothing.
#[derive(Debug, Clone, Copy)]
pub struct RequirementInfo {
    pub name: &'static str,
}

impl RequirementInfo {
    /// The text that [`RequirementInfo::to_string`] produces.
    pub open spec fn text(self) -> Seq<char> {
        "Requirement { name: "@ + self.name@ + " } "@
    }

    /// Renders the identity for diagnostics.
    pub fn to_string(&self) -> (s: String)
        ensures
            s@ == self.text(),
    {
        let mut s = String::from_str("Requirement { name: ");
        s.append(self.name);
        s.append(" } ");
        s
    }
}

/// One taking of a requirement: who took it, and the number that the
/// requirement gave to this taking. A requirement numbers its claims
/// 1, 2, 3, ... in the order in which they are made, so no two claims on the
/// same requirement are equal, even where two tasks share a name.
#[derive(Debug, Clone, Copy)]
pub struct Claim {
    pub serial: u64,
    pub thief: ThiefInfo,
}

/// What a requirement records about who holds it.
#[derive(Debug, Clone, Copy)]
pub struct Ownership {
    /// How many claims have been made on the requirement so far.
    pub claims: u64,
    /// The token of the task whose claim is in force, if any.
    pub owner: Option<ThiefInfo>,
    /// The requirement's own identity.
    pub info: RequirementInfo,
}

impl Ownership {
    /// A requirement that nobody has claimed yet.
    pub open spec fn unclaimed(info: RequirementInfo) -> Ownership {
        Ownership { claims: 0, owner: None, info }
    }

    /// The record after `thief` takes the requirement: the claim gets the next
    /// number, and whatever claim was in force is no longer.
    pub open spec fn steal(self, thief: ThiefInfo) -> Ownership {
        Ownership { claims: (self.claims + 1) as u64, owner: Some(thief), info: self.info }
    }

    /// The record after the owner lets go.
    pub open spec fn release(self) -> Ownership {
        Ownership { claims: self.claims, owner: None, info: self.info }
    }

    /// The claim in force, if any: the latest one, unless it was released.
    pub open spec fn current(self) -> Option<Claim> {
        match self.owner {
            Some(thief) => Some(Claim { serial: self.claims, thief }),
            None => None,
        }
    }

    /// Whether the claim numbered `serial` is the one in force.
    pub open spec fn honors(self, serial: u64) -> bool {
        self.owner is Some && self.claims == serial
    }
}

/// Keeps track of the current owner of a requirement.
///
/// This is the interface through which a task deals with requirements of any
/// protected type: it reaches the ownership record and nothing else.
pub trait Requirement {
    /// The ownership record. The contracts of the other methods are stated
    /// over it.
    spec fn ownership(&self) -> Ownership;

    /// Makes `thief` the owner, whoever held the requirement before, and
    /// returns the new claim. The previous owner is not told: it finds out
    /// when it next compares its own claim with [`Requirement::current_owner`].
    fn steal_ownership(&mut self, thief: &ThiefInfo) -> (claim: Claim)
        requires
            old(self).ownership().claims < u64::MAX,
        ensures
            final(self).ownership() == old(self).ownership().steal(*thief),
            Some(claim) == final(self).ownership().current(),
    ;

    /// Releases the requirement: no task owns it afterwards.
    fn release_ownership(&mut self)
        ensures
            final(self).ownership() == old(self).ownership().release(),
    ;

    /// Returns the claim in force, or `None` where nobody owns the requirement.
    fn current_owner(&self) -> (owner: Option<Claim>)
        ensures
            owner == self.ownership().current(),
    ;

    /// Returns how many claims have been made so far.
    fn claims_made(&self) -> (claims: u64)
        ensures
            claims == self.ownership().claims,
    ;

    /// Returns the requirement's identity.
    fn info(&self) -> (info: RequirementInfo)
        ensures
            info == self.ownership().info,
    ;
}

/// The ownership record of a requirement, apart from what the requirement
/// protects. Only taking and releasing change it.
pub struct OwnerRecord {
    owner: Option<ThiefInfo>,
    claims: u64,
    name: &'static str,
}

impl View for OwnerRecord {
    type V = Ownership;

    closed spec fn view(&self) -> Ownership {
        Ownership {
            claims: self.claims,
            owner: self.owner,
            info: RequirementInfo { name: self.name },
        }
    }
}

impl OwnerRecord {
    /// Creates the record of a requirement that nobody has claimed yet.
    pub fn new(name: &'static str) -> (record: Self)
        ensures
            record@ == Ownership::unclaimed(RequirementInfo { name }),
    {
        OwnerRecord { owner: None, claims: 0, name }
    }
}

impl Requirement for OwnerRecord {
    open spec fn ownership(&self) -> Ownership {
        self@
    }

    fn steal_ownership(&mut self, thief: &ThiefInfo) -> (claim: Claim) {
        self.claims = self.claims + 1;
        self.owner = Some(*thief);
        Claim { serial: self.claims, thief: *thief }
    }

    fn release_ownership(&mut self) {
        self.owner = None;
    }

    fn current_owner(&self) -> (owner: Option<Claim>) {
        match self.owner {
            Some(thief) => Some(Claim { serial: self.claims, thief }),
            None => None,
        }
    }

    fn claims_made(&self) -> (claims: u64) {
        self.claims
    }

    fn info(&self) -> (info: RequirementInfo) {
        RequirementInfo { name: self.name }
    }
}

/// A protected value together with the record of who owns it.
///
/// The value is reached through [`RevocableCell::data`] and
/// [`RevocableCell::data_mut`], which leave the ownership record alone. A task
/// may use them only during a step in which it has confirmed its claim.
///
/// The cell is a requirement itself. It also lends its record alone, through
/// [`RevocableCell::record_mut`]: a list of such records serves cells that
/// protect values of different types, and whoever is handed the list cannot
/// reach the values.
pub struct RevocableCell<T> {
    data: T,
    record: OwnerRecord,
}

impl<T> RevocableCell<T> {
    /// The protected value.
    pub closed spec fn value(&self) -> T {
        self.data
    }

    /// Creates a new cell with ownership of `data`. The cell has no owner.
    pub fn new(data: T, name: &'static str) -> (cell: Self)
        ensures
            cell.value() == data,
            cell.ownership() == Ownership::unclaimed(RequirementInfo { name }),
    {
        RevocableCell { data, record: OwnerRecord::new(name) }
    }

    /// Reads the protected value.
    pub fn data(&self) -> (data: &T)
        ensures
            *data == self.value(),
    {
        &self.data
    }

    /// Reaches the protected value for writing.
    pub fn data_mut(&mut self) -> (data: &mut T)
        ensures
            *data == old(self).value(),
            final(self).value() == *final(data),
            final(self).ownership() == old(self).ownership(),
    {
        &mut self.data
    }

    /// Lends the protected value and the ownership record apart from one
    /// another, so that a step can be handed the record while the inner
    /// computation is handed the value.
    pub fn parts_mut(&mut self) -> (parts: (&mut T, &mut OwnerRecord))
        ensures
            *parts.0 == old(self).value(),
            parts.1@ == old(self).ownership(),
            final(self).value() == *final(parts.0),
            final(self).ownership() == final(parts.1)@,
    {
        (&mut self.data, &mut self.record)
    }

    /// Lends the ownership record, without the protected value.
    pub fn record_mut(&mut self) -> (record: &mut OwnerRecord)
        ensures
            record@ == old(self).ownership(),
            final(self).ownership() == final(record)@,
            final(self).value() == old(self).value(),
    {
        &mut self.record
    }
}

impl<T> Requirement for RevocableCell<T> {
    closed spec fn ownership(&self) -> Ownership {
        self.record@
    }

    fn steal_ownership(&mut self, thief: &ThiefInfo) -> (claim: Claim)
        ensures
            final(self).value() == old(self).value(),
    {
        self.record.steal_ownership(thief)
    }

    fn release_ownership(&mut self)
        ensures
            final(self).value() == old(self).value(),
    {
        self.record.release_ownership()
    }

    fn current_owner(&self) -> (owner: Option<Claim>) {
        self.record.current_owner()
    }

    fn claims_made(&self) -> (claims: u64) {
        self.record.claims_made()
    }

    fn info(&self) -> (info: RequirementInfo) {
        self.record.info()
    }
}

} // verus!
