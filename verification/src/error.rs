//! The failure with which a task that lost a requirement ends.

use vstd::prelude::*;
use vstd::string::StringExecFns;
use crate::requirement::RequirementInfo;
use crate::thief::ThiefInfo;

verus! {

/// Contains information about a preemption: the task that lost the
/// requirement, the task that took it where one is recorded, and the
/// requirement itself.
#[derive(Debug, Clone, Copy)]
pub struct PreemptionError {
    pub incoming: Option<ThiefInfo>,
    pub outgoing: ThiefInfo,
    pub requirement: RequirementInfo,
}

impl PreemptionError {
    /// The text that [`PreemptionError::to_string`] produces.
    pub open spec fn text(self) -> Seq<char> {
        match self.incoming {
            Some(incoming) => "outgoing task "@ + self.outgoing.text()
                + " was preempted by incoming task "@ + incoming.text()
                + " stealing its requirement "@ + self.requirement.text(),
            None => "outgoing task "@ + self.outgoing.text()
                + " was preempted by an unknown incoming task stealing its requirement "@
                + self.requirement.text(),
        }
    }

    /// Renders the error for logs.
    pub fn to_string(&self) -> (s: String)
        ensures
            s@ == self.text(),
    {
        let mut s = String::from_str("outgoing task ");
        let outgoing = self.outgoing.to_string();
        s.append(outgoing.as_str());
        match self.incoming {
            Some(incoming) => {
                s.append(" was preempted by incoming task ");
                let incoming = incoming.to_string();
                s.append(incoming.as_str());
                s.append(" stealing its requirement ");
            },
            None => {
                s.append(" was preempted by an unknown incoming task stealing its requirement ");
            },
        }
        let requirement = self.requirement.to_string();
        s.append(requirement.as_str());
        s
    }
}

} // verus!
