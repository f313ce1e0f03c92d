//! What callers hand to a membership register and what they get back.
use vstd::prelude::*;

verus! {

/// The number of an organisation.
pub type DaoId = u32;

/// What the policy of an organisation asks of whoever changes its membership: for each kind of
/// change a pair of numbers, which whoever looks at origins understands.
#[derive(Debug, Clone, Copy, PartialEq, Eq)]
pub struct DaoPolicy {
    /// Asked for adding a member.
    pub add_origin: (u32, u32),
    /// Asked for removing a member.
    pub remove_origin: (u32, u32),
    /// Asked for exchanging a member.
    pub swap_origin: (u32, u32),
    /// Asked for replacing the whole membership.
    pub reset_origin: (u32, u32),
    /// Asked for setting or clearing the prime member.
    pub prime_origin: (u32, u32),
}

/// The kinds of change that a policy tells apart.
#[derive(Debug, Clone, Copy, PartialEq, Eq, Structural)]
pub enum Change {
    /// A member is added.
    Add,
    /// A member is removed.
    Remove,
    /// A member is exchanged.
    Swap,
    /// The whole membership is replaced.
    Reset,
    /// The prime member is set or cleared.
    Prime,
}

impl DaoPolicy {
    /// What the policy asks for a change.
    pub open spec fn required(self, change: Change) -> (u32, u32) {
        match change {
            Change::Add => self.add_origin,
            Change::Remove => self.remove_origin,
            Change::Swap => self.swap_origin,
            Change::Reset => self.reset_origin,
            Change::Prime => self.prime_origin,
        }
    }

    /// What the policy asks for a change.
    pub fn required_origin(&self, change: Change) -> (r: (u32, u32))
        ensures
            r == self.required(change),
    {
        match change {
            Change::Add => self.add_origin,
            Change::Remove => self.remove_origin,
            Change::Swap => self.swap_origin,
            Change::Reset => self.reset_origin,
            Change::Prime => self.prime_origin,
        }
    }
}

/// What is deposited when a membership changes.
#[derive(Debug, Clone, Copy, PartialEq, Eq, Structural)]
pub enum Event {
    /// The given member was added; see the transaction for who.
    MemberAdded,
    /// The given member was removed; see the transaction for who.
    MemberRemoved,
    /// Two members were swapped; see the transaction for who.
    MembersSwapped,
    /// The membership was reset; see the transaction for who the new set is.
    MembersReset,
    /// One of the members' keys changed.
    KeyChanged,
}

/// Why a change of a membership is refused.
#[derive(Debug, Clone, Copy, PartialEq, Eq, Structural)]
pub enum Error {
    /// Already a member.
    AlreadyMember,
    /// Not a member.
    NotMember,
    /// Too many members.
    TooManyMembers,
}

}
