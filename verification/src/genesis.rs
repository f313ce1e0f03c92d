//! The first members of an organisation, as a chain starts with them.
use crate::bounded::as_slice;
use crate::laws::lemma_distinct_ordered;
use crate::membership::Membership;
use crate::order::{
    account_order, copied, is_ordered, lawful_order, lemma_comparisons,
    lemma_ordered,
};
use crate::pallet::{CallError, CallResult, Config, Pallet};
use crate::types::DaoId;
use vstd::prelude::*;

verus! {

/// The members that an organisation starts with.
pub struct GenesisConfig<T: Config> {
    /// The organisation.
    pub dao_id: DaoId,
    /// Its members, in any order.
    pub members: Vec<T::AccountId>,
}

/// Why a register cannot start as configured.
#[derive(Debug, PartialEq, Eq)]
pub enum GenesisError {
    /// Members cannot contain duplicate accounts.
    DuplicateMembers,
    /// The members were refused.
    Refused(CallError),
}

/// What the outcome of handing out first members makes of a start.
pub open spec fn passed_on(outcome: CallResult) -> Result<(), GenesisError> {
    match outcome {
        Ok(_) => Ok(()),
        Err(error) => Err(GenesisError::Refused(error)),
    }
}

/// Whether an ordered list holds no account twice.
pub fn is_distinct<A: Ord>(s: &[A]) -> (r: bool)
    requires
        lawful_order::<A>(),
        is_ordered(s@),
    ensures
        r == s@.no_duplicates(),
{
    let mut i: usize = 1;
    while i < s.len()
        invariant
            lawful_order::<A>(),
            is_ordered(s@),
            1 <= i,
            s@.len() > 0 ==> i <= s@.len(),
            forall|j: int, k: int| 0 <= j < k < i && k < s@.len() ==> s@[j] != s@[k],
        decreases s@.len() - i,
    {
        proof {
            lemma_comparisons::<A>();
        }
        if s[i - 1] == s[i] {
            assert(s@[i - 1] == s@[i as int]);
            return false;
        }
        let ghost le = account_order::<A>();
        assert forall|j: int| 0 <= j < i implies s@[j] != s@[i as int] by {
            if j < i - 1 {
                assert(le(s@[j], s@[i - 1]));
                assert(le(s@[i - 1], s@[i as int]));
            }
        }
        i = i + 1;
    }
    true
}

impl<T: Config> GenesisConfig<T> {
    /// Gives the organisation its first members, unless one is listed twice.
    pub fn assimilate_storage<const MAX_MEMBERS: u32>(
        self,
        pallet: &mut Pallet<T, MAX_MEMBERS>,
    ) -> (r: Result<(), GenesisError>)
        requires
            old(pallet).wf(),
            self.members@.len() > 0 ==> old(pallet)@.members_of(self.dao_id).len() == 0,
        ensures
            final(pallet).wf(),
            if self.members@.len() <= MAX_MEMBERS && !self.members@.no_duplicates() {
                &&& r == Err::<(), GenesisError>(GenesisError::DuplicateMembers)
                &&& *final(pallet) == *old(pallet)
            } else {
                exists|outcome: CallResult|
                    {
                        &&& r == #[trigger] passed_on(outcome)
                        &&& old(pallet).initialized(
                            *final(pallet),
                            self.dao_id,
                            self.members@,
                            outcome,
                        )
                    }
            },
    {
        let GenesisConfig { dao_id, members } = self;
        let list = copied(members.as_slice());
        let prepared = match Membership::<T::AccountId, MAX_MEMBERS>::prepare_members(list) {
            Ok(prepared) => prepared,
            Err(error) => {
                let r = Err(GenesisError::Refused(CallError::Module(error)));
                assert(r == passed_on(Err(CallError::Module(error))));
                return r;
            },
        };
        proof {
            lemma_ordered(members@);
            lemma_distinct_ordered(members@);
        }
        if !is_distinct(as_slice(&prepared)) {
            return Err(GenesisError::DuplicateMembers);
        }
        let outcome = pallet.initialize_members(dao_id, members);
        let r = match outcome {
            Ok(_) => Ok(()),
            Err(error) => Err(GenesisError::Refused(error)),
        };
        assert(r == passed_on(outcome));
        r
    }
}

}
