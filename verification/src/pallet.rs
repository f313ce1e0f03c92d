//! The calls that change memberships: who may make them, what they do, and who is told.
use crate::bounded::{as_slice, contents, into_vec};
use crate::membership::{notice_views, Membership, Notice};
use crate::model::{NoticeView, State, Step};
use crate::order::{
    binary_search, copied, is_ordered, lawful_account, lawful_order, lemma_ordered,
    lemma_ordered_unique, ordered,
};
use crate::origin::signer_of;
use crate::receiver::{HandOver, Inquiry, Receiver};
use crate::types::{Change, DaoId, DaoPolicy, Error, Event};
use frame_support::dispatch::RawOrigin;
use frame_support::sp_runtime::traits::BadOrigin;
use frame_support::sp_runtime::DispatchError;
use frame_support::traits::ConstU32;
use frame_support::BoundedVec;
use vstd::prelude::*;

verus! {

/// What the surroundings of a register provide.
pub trait Config {
    /// The accounts that can be members.
    type AccountId: Ord + Clone;

    /// Where calls come from.
    type Origin: Into<Result<RawOrigin<Self::AccountId>, Self::Origin>>;

    /// The policy of an organisation, if it has one.
    fn policy(&self, dao_id: DaoId) -> Result<DaoPolicy, DispatchError>;

    /// Whether `origin` meets what a policy asks for.
    fn ensure_origin(&self, origin: Self::Origin, required: &(u32, u32)) -> Result<(), BadOrigin>;

    /// The receiver of the signal that a membership gets its first members, in order. It may
    /// refuse them.
    fn initialize_members(&self, dao_id: DaoId, members: Vec<Self::AccountId>) -> Result<
        (),
        DispatchError,
    >;

    /// The receiver of the signal that `incoming` joined and `outgoing` left, which makes
    /// `sorted_new` the membership.
    fn change_members_sorted(
        &self,
        dao_id: DaoId,
        incoming: &[Self::AccountId],
        outgoing: &[Self::AccountId],
        sorted_new: &[Self::AccountId],
    );

    /// The receiver of the signal that `new_members`, in order, took the place of `old_members`.
    fn set_members_sorted(
        &self,
        dao_id: DaoId,
        new_members: &[Self::AccountId],
        old_members: &[Self::AccountId],
    );

    /// The receiver of the signal that `prime` is the prime member now, if there is one.
    fn set_prime(&self, dao_id: DaoId, prime: Option<Self::AccountId>);
}

/// Why a call fails.
#[derive(Debug, PartialEq, Eq)]
pub enum CallError {
    /// The origin may not make the call.
    BadOrigin,
    /// The register refuses the change.
    Module(Error),
    /// The surroundings failed.
    Other(DispatchError),
}

/// What a call gives back.
pub type CallResult = Result<(), CallError>;

/// What the surroundings are to be asked for a change, once they gave the policy.
pub fn requirement(policy: Result<DaoPolicy, DispatchError>, change: Change) -> (r: Result<
    (u32, u32),
    CallError,
>)
    ensures
        match policy {
            Ok(policy) => r matches Ok(required) && required == policy.required(change),
            Err(error) => r matches Err(e) && e == CallError::Other(error),
        },
{
    match policy {
        Ok(policy) => Ok(policy.required_origin(change)),
        Err(error) => Err(CallError::Other(error)),
    }
}

/// What becomes of a call once its origin has been looked at.
pub open spec fn origin_result(verdict: Result<(), BadOrigin>) -> CallResult {
    match verdict {
        Ok(_) => Ok(()),
        Err(_) => Err(CallError::BadOrigin),
    }
}

/// What becomes of a call once its origin has been looked at.
pub fn origin_outcome(verdict: Result<(), BadOrigin>) -> (r: CallResult)
    ensures
        r == origin_result(verdict),
{
    match verdict {
        Ok(_) => Ok(()),
        Err(_) => Err(CallError::BadOrigin),
    }
}

/// What the replies of the surroundings make of a call: without a policy it fails as they did, else
/// their word on the origin decides.
pub open spec fn approval(
    policy: Result<DaoPolicy, DispatchError>,
    verdict: Result<(), BadOrigin>,
) -> CallResult {
    match policy {
        Ok(_) => origin_result(verdict),
        Err(error) => Err(CallError::Other(error)),
    }
}

/// What the surroundings are asked before a change: for the policy of the organisation, and if
/// there is one, whether the origin meets what the policy asks for that change.
pub open spec fn inquiries<O>(
    origin: O,
    dao_id: DaoId,
    change: Change,
    policy: Result<DaoPolicy, DispatchError>,
    verdict: Result<(), BadOrigin>,
) -> Seq<Inquiry<O>> {
    let first = Inquiry::Policy { dao_id, policy };
    match policy {
        Ok(policy) => seq![
            first,
            Inquiry::Origin { origin, required: policy.required(change), verdict },
        ],
        Err(_) => seq![first],
    }
}

/// The replies are ones that the surroundings can give when they are asked before a change.
pub open spec fn possible_replies<T: Config>(
    config: T,
    origin: T::Origin,
    dao_id: DaoId,
    change: Change,
    policy: Result<DaoPolicy, DispatchError>,
    verdict: Result<(), BadOrigin>,
) -> bool {
    &&& call_ensures(T::policy, (&config, dao_id), policy)
    &&& policy matches Ok(policy) ==> call_ensures(
        T::ensure_origin,
        (&config, origin, &policy.required(change)),
        verdict,
    )
}

/// The verdict is one that the surroundings can give on first members.
pub open spec fn possible_verdict<T: Config>(config: T, handed: HandOver<T::AccountId>) -> bool {
    exists|list: Vec<T::AccountId>|
        {
            &&& #[trigger] call_ensures(
                T::initialize_members,
                (&config, handed.dao_id, list),
                handed.verdict,
            )
            &&& list@ == handed.members
        }
}

/// The register of memberships in its surroundings.
#[verifier::reject_recursive_types(MAX_MEMBERS)]
pub struct Pallet<T: Config, const MAX_MEMBERS: u32> {
    receiver: Receiver<T>,
    membership: Membership<T::AccountId, MAX_MEMBERS>,
}

impl<T: Config, const MAX_MEMBERS: u32> View for Pallet<T, MAX_MEMBERS> {
    type V = State<T::AccountId>;

    closed spec fn view(&self) -> State<T::AccountId> {
        self.membership@
    }
}

impl<T: Config, const MAX_MEMBERS: u32> Pallet<T, MAX_MEMBERS> {
    /// The surroundings.
    pub closed spec fn surroundings(&self) -> T {
        self.receiver.config()
    }

    /// What the surroundings were asked, oldest first.
    pub closed spec fn asked(&self) -> Seq<Inquiry<T::Origin>> {
        self.receiver.asked()
    }

    /// The first members that the surroundings were handed, oldest first.
    pub closed spec fn handed(&self) -> Seq<HandOver<T::AccountId>> {
        self.receiver.handed()
    }

    /// What the receiver of changes was told, oldest first.
    pub closed spec fn heard(&self) -> Seq<NoticeView<T::AccountId>> {
        self.receiver.heard()
    }

    /// The accounts are lawful, and what is registered is valid.
    pub open spec fn wf(&self) -> bool {
        &&& lawful_account::<T::AccountId>()
        &&& self@.valid(MAX_MEMBERS as nat)
    }

    /// What a call leads to: nothing where it is not approved or the change is refused, else the
    /// expected state, of which the receiver is told. Nothing but that is told, and no first
    /// members are handed over.
    pub open spec fn settled(
        self,
        after: Self,
        approval: CallResult,
        expected: Result<Step<T::AccountId>, Error>,
        r: CallResult,
    ) -> bool {
        &&& after.surroundings() == self.surroundings()
        &&& after.handed() == self.handed()
        &&& match approval {
            Err(error) => {
                &&& r == Err::<(), CallError>(error)
                &&& after@ == self@
                &&& after.heard() == self.heard()
            },
            Ok(_) => match expected {
                Err(error) => {
                    &&& r == Err::<(), CallError>(CallError::Module(error))
                    &&& after@ == self@
                    &&& after.heard() == self.heard()
                },
                Ok(step) => {
                    &&& r == Ok::<(), CallError>(())
                    &&& after@ == step.state
                    &&& after.heard() == self.heard() + step.notices
                },
            },
        }
    }

    /// What a call of `origin` leads to that needs the approval of the surroundings: they are asked
    /// once, and whatever they reply, it settles the call.
    pub open spec fn decided(
        self,
        after: Self,
        origin: T::Origin,
        dao_id: DaoId,
        change: Change,
        expected: Result<Step<T::AccountId>, Error>,
        r: CallResult,
    ) -> bool {
        exists|policy: Result<DaoPolicy, DispatchError>, verdict: Result<(), BadOrigin>|
            {
                &&& #[trigger] possible_replies(
                    self.surroundings(),
                    origin,
                    dao_id,
                    change,
                    policy,
                    verdict,
                )
                &&& after.asked() == self.asked() + inquiries(
                    origin,
                    dao_id,
                    change,
                    policy,
                    verdict,
                )
                &&& self.settled(after, approval(policy, verdict), expected, r)
            }
    }

    /// What becomes of first members. None, and too many, are not handed over; all others are, in
    /// order and once, and the surroundings decide. The receiver of changes is told nothing.
    pub open spec fn initialized(
        self,
        after: Self,
        dao_id: DaoId,
        list: Seq<T::AccountId>,
        r: CallResult,
    ) -> bool {
        &&& after.surroundings() == self.surroundings()
        &&& after.asked() == self.asked()
        &&& after.heard() == self.heard()
        &&& if list.len() == 0 {
            &&& r == Ok::<(), CallError>(())
            &&& after@ == self@
            &&& after.handed() == self.handed()
        } else if list.len() > MAX_MEMBERS {
            &&& r == Err::<(), CallError>(CallError::Module(Error::TooManyMembers))
            &&& after@ == self@
            &&& after.handed() == self.handed()
        } else {
            let verdict = after.handed().last().verdict;
            let handed = HandOver { dao_id, members: ordered(list), verdict };
            &&& possible_verdict(self.surroundings(), handed)
            &&& after.handed() == self.handed().push(handed)
            &&& match verdict {
                Ok(_) => {
                    &&& r == Ok::<(), CallError>(())
                    &&& after@ == self@.initialize_members(dao_id, list)
                },
                Err(error) => {
                    &&& r == Err::<(), CallError>(CallError::Other(error))
                    &&& after@ == self@
                },
            }
        }
    }

    /// A register without members, prime members and events.
    pub fn new(receiver: Receiver<T>) -> (r: Self)
        requires
            lawful_account::<T::AccountId>(),
        ensures
            r.wf(),
            r.surroundings() == receiver.config(),
            r.asked() == receiver.asked(),
            r.handed() == receiver.handed(),
            r.heard() == receiver.heard(),
            r@ == State::<T::AccountId>::vacant(),
    {
        Pallet { receiver, membership: Membership::new() }
    }

    /// The register goes on in its surroundings.
    pub fn resume(
        receiver: Receiver<T>,
        membership: Membership<T::AccountId, MAX_MEMBERS>,
    ) -> (r: Self)
        requires
            membership.wf(),
        ensures
            r.wf(),
            r.surroundings() == receiver.config(),
            r.asked() == receiver.asked(),
            r.handed() == receiver.handed(),
            r.heard() == receiver.heard(),
            r@ == membership@,
    {
        Pallet { receiver, membership }
    }

    /// Asks the surroundings whether `origin` may make a change.
    fn ensure_approved(&mut self, origin: T::Origin, dao_id: DaoId, change: Change) -> (r:
        CallResult)
        ensures
            final(self).surroundings() == old(self).surroundings(),
            final(self)@ == old(self)@,
            final(self).handed() == old(self).handed(),
            final(self).heard() == old(self).heard(),
            exists|policy: Result<DaoPolicy, DispatchError>, verdict: Result<(), BadOrigin>|
                {
                    &&& #[trigger] possible_replies(
                        old(self).surroundings(),
                        origin,
                        dao_id,
                        change,
                        policy,
                        verdict,
                    )
                    &&& final(self).asked() == old(self).asked() + inquiries(
                        origin,
                        dao_id,
                        change,
                        policy,
                        verdict,
                    )
                    &&& r == approval(policy, verdict)
                },
    {
        let ghost config = self.receiver.config();
        let policy = self.receiver.policy(dao_id);
        match requirement(policy, change) {
            Ok(required) => {
                let verdict = self.receiver.ensure_origin(origin, required);
                assert(possible_replies(config, origin, dao_id, change, policy, verdict));
                assert(self.asked() =~= old(self).asked() + inquiries(
                    origin,
                    dao_id,
                    change,
                    policy,
                    verdict,
                ));
                origin_outcome(verdict)
            },
            Err(error) => {
                assert(possible_replies(config, origin, dao_id, change, policy, Ok(())));
                assert(self.asked() =~= old(self).asked() + inquiries(
                    origin,
                    dao_id,
                    change,
                    policy,
                    Ok(()),
                ));
                Err(error)
            },
        }
    }

    /// Tells the receiver of what a change came to, and of nothing where it was refused.
    fn conclude(&mut self, outcome: Result<Vec<Notice<T::AccountId>>, Error>) -> (r: CallResult)
        requires
            lawful_account::<T::AccountId>(),
        ensures
            final(self).surroundings() == old(self).surroundings(),
            final(self)@ == old(self)@,
            final(self).asked() == old(self).asked(),
            final(self).handed() == old(self).handed(),
            match outcome {
                Ok(notices) => {
                    &&& r == Ok::<(), CallError>(())
                    &&& final(self).heard() == old(self).heard() + notice_views(notices@)
                },
                Err(error) => {
                    &&& r == Err::<(), CallError>(CallError::Module(error))
                    &&& final(self).heard() == old(self).heard()
                },
            },
    {
        match outcome {
            Ok(notices) => {
                self.receiver.tell(&notices);
                Ok(())
            },
            Err(error) => Err(CallError::Module(error)),
        }
    }

    /// The current membership.
    pub fn members(&self, dao_id: DaoId) -> (r: BoundedVec<T::AccountId, ConstU32<MAX_MEMBERS>>)
        requires
            self.wf(),
        ensures
            contents(r) == self@.members_of(dao_id),
    {
        self.membership.members(dao_id)
    }

    /// The current prime member, if one exists.
    pub fn prime(&self, dao_id: DaoId) -> (r: Option<T::AccountId>)
        requires
            self.wf(),
        ensures
            r == self@.prime_of(dao_id),
    {
        self.membership.prime(dao_id)
    }

    /// What was deposited, oldest first.
    pub fn events(&self) -> (r: &Vec<Event>)
        ensures
            r@ == self@.events,
    {
        self.membership.events()
    }

    /// Add a member `who` to the set.
    ///
    /// May only be called by an origin that meets what the policy asks for adding a member.
    pub fn add_member(
        &mut self,
        origin: T::Origin,
        dao_id: DaoId,
        who: T::AccountId,
    ) -> (r: CallResult)
        requires
            old(self).wf(),
        ensures
            final(self).wf(),
            old(self).decided(
                *final(self),
                origin,
                dao_id,
                Change::Add,
                old(self)@.add_member(MAX_MEMBERS as nat, dao_id, who),
                r,
            ),
    {
        match self.ensure_approved(origin, dao_id, Change::Add) {
            Ok(_) => {},
            Err(error) => return Err(error),
        }
        let outcome = self.membership.add_member(dao_id, who);
        self.conclude(outcome)
    }

    /// Remove a member `who` from the set.
    ///
    /// May only be called by an origin that meets what the policy asks for removing a member.
    pub fn remove_member(
        &mut self,
        origin: T::Origin,
        dao_id: DaoId,
        who: T::AccountId,
    ) -> (r: CallResult)
        requires
            old(self).wf(),
        ensures
            final(self).wf(),
            old(self).decided(
                *final(self),
                origin,
                dao_id,
                Change::Remove,
                old(self)@.remove_member(dao_id, who),
                r,
            ),
    {
        match self.ensure_approved(origin, dao_id, Change::Remove) {
            Ok(_) => {},
            Err(error) => return Err(error),
        }
        let outcome = self.membership.remove_member(dao_id, who);
        self.conclude(outcome)
    }

    /// Swap out one member `remove` for another `add`.
    ///
    /// May only be called by an origin that meets what the policy asks for exchanging a member.
    ///
    /// Prime membership is *not* passed from `remove` to `add`, if extant.
    pub fn swap_member(
        &mut self,
        origin: T::Origin,
        dao_id: DaoId,
        remove: T::AccountId,
        add: T::AccountId,
    ) -> (r: CallResult)
        requires
            old(self).wf(),
        ensures
            final(self).wf(),
            old(self).decided(
                *final(self),
                origin,
                dao_id,
                Change::Swap,
                old(self)@.swap_member(dao_id, remove, add),
                r,
            ),
    {
        match self.ensure_approved(origin, dao_id, Change::Swap) {
            Ok(_) => {},
            Err(error) => return Err(error),
        }
        let outcome = self.membership.swap_member(dao_id, remove, add);
        self.conclude(outcome)
    }

    /// Change the membership to a new set, disregarding the existing membership. Be nice and
    /// pass `members` pre-sorted.
    ///
    /// May only be called by an origin that meets what the policy asks for replacing the whole
    /// membership.
    pub fn reset_members(
        &mut self,
        origin: T::Origin,
        dao_id: DaoId,
        members: Vec<T::AccountId>,
    ) -> (r: CallResult)
        requires
            old(self).wf(),
        ensures
            final(self).wf(),
            old(self).decided(
                *final(self),
                origin,
                dao_id,
                Change::Reset,
                old(self)@.reset_members(MAX_MEMBERS as nat, dao_id, members@),
                r,
            ),
    {
        match self.ensure_approved(origin, dao_id, Change::Reset) {
            Ok(_) => {},
            Err(error) => return Err(error),
        }
        let outcome = self.membership.reset_members(dao_id, members);
        self.conclude(outcome)
    }

    /// Swap out the sending member for some other key `new`.
    ///
    /// May only be called from `Signed` origin of a current member.
    ///
    /// Prime membership is passed from the origin account to `new`, if extant.
    pub fn change_key(&mut self, origin: T::Origin, dao_id: DaoId, new: T::AccountId) -> (r:
        CallResult)
        requires
            old(self).wf(),
        ensures
            final(self).wf(),
            final(self).asked() == old(self).asked(),
            exists|signer: Result<T::AccountId, BadOrigin>|
                {
                    &&& #[trigger] signer_of(origin, signer)
                    &&& match signer {
                        Ok(remove) => old(self).settled(
                            *final(self),
                            Ok(()),
                            old(self)@.change_key(dao_id, remove, new),
                            r,
                        ),
                        Err(_) => {
                            &&& r == Err::<(), CallError>(CallError::BadOrigin)
                            &&& *final(self) == *old(self)
                        },
                    }
                },
    {
        let remove = match frame_system::ensure_signed(origin) {
            Ok(remove) => remove,
            Err(_) => return Err(CallError::BadOrigin),
        };
        let outcome = self.membership.change_key(dao_id, remove, new);
        self.conclude(outcome)
    }

    /// Set the prime member. Must be a current member.
    ///
    /// May only be called by an origin that meets what the policy asks for the prime member.
    pub fn set_prime(
        &mut self,
        origin: T::Origin,
        dao_id: DaoId,
        who: T::AccountId,
    ) -> (r: CallResult)
        requires
            old(self).wf(),
        ensures
            final(self).wf(),
            old(self).decided(
                *final(self),
                origin,
                dao_id,
                Change::Prime,
                old(self)@.set_prime(dao_id, who),
                r,
            ),
    {
        match self.ensure_approved(origin, dao_id, Change::Prime) {
            Ok(_) => {},
            Err(error) => return Err(error),
        }
        let outcome = self.membership.set_prime(dao_id, who);
        self.conclude(outcome)
    }

    /// Remove the prime member if it exists.
    ///
    /// May only be called by an origin that meets what the policy asks for the prime member.
    pub fn clear_prime(&mut self, origin: T::Origin, dao_id: DaoId) -> (r: CallResult)
        requires
            old(self).wf(),
        ensures
            final(self).wf(),
            old(self).decided(
                *final(self),
                origin,
                dao_id,
                Change::Prime,
                Ok(old(self)@.clear_prime(dao_id)),
                r,
            ),
    {
        match self.ensure_approved(origin, dao_id, Change::Prime) {
            Ok(_) => {},
            Err(error) => return Err(error),
        }
        let notices = self.membership.clear_prime(dao_id);
        self.conclude(Ok(notices))
    }

    /// Gives an organisation without members its first ones, unless there are none to give, there
    /// are too many, or the receiver of them refuses.
    pub fn initialize_members(&mut self, dao_id: DaoId, source_members: Vec<T::AccountId>) -> (r:
        CallResult)
        requires
            old(self).wf(),
            source_members@.len() > 0 ==> old(self)@.members_of(dao_id).len() == 0,
        ensures
            final(self).wf(),
            old(self).initialized(*final(self), dao_id, source_members@, r),
    {
        if source_members.len() == 0 {
            return Ok(());
        }
        let members = match Membership::<T::AccountId, MAX_MEMBERS>::prepare_members(
            source_members,
        ) {
            Ok(members) => members,
            Err(error) => return Err(CallError::Module(error)),
        };
        proof {
            lemma_ordered(source_members@);
        }
        let list = copied(as_slice(&members));
        let verdict = self.receiver.hand_over(dao_id, list);
        proof {
            lemma_ordered_unique(ordered(source_members@), ordered(source_members@));
        }
        match self.membership.initialize_members(dao_id, members, verdict) {
            Ok(_) => Ok(()),
            Err(error) => Err(CallError::Other(error)),
        }
    }
}

/// A trait for a set which can enumerate its members in order.
pub trait DaoSortedMembers<A: Ord> {
    /// The members of an organisation, in order.
    spec fn listed(&self, dao_id: DaoId) -> Seq<A>;

    /// The set can be enumerated.
    spec fn enumerable(&self) -> bool;

    /// Get a vector of all members in the set, ordered.
    fn sorted_members(&self, dao_id: DaoId) -> (r: Vec<A>)
        requires
            lawful_order::<A>(),
            self.enumerable(),
        ensures
            r@ == self.listed(dao_id),
            is_ordered(r@),
    ;

    /// Return `true` if this "contains" the given value `t`.
    fn contains(&self, dao_id: DaoId, t: &A) -> (r: bool)
        requires
            lawful_order::<A>(),
            self.enumerable(),
        ensures
            r == self.listed(dao_id).contains(*t),
    {
        binary_search(self.sorted_members(dao_id).as_slice(), t).is_ok()
    }

    /// Get the number of items in the set.
    fn count(&self, dao_id: DaoId) -> (r: usize)
        requires
            lawful_order::<A>(),
            self.enumerable(),
        ensures
            r == self.listed(dao_id).len(),
    {
        self.sorted_members(dao_id).len()
    }
}

impl<T: Config, const MAX_MEMBERS: u32> DaoSortedMembers<T::AccountId> for Pallet<T, MAX_MEMBERS> {
    open spec fn listed(&self, dao_id: DaoId) -> Seq<T::AccountId> {
        self@.members_of(dao_id)
    }

    open spec fn enumerable(&self) -> bool {
        self.wf()
    }

    fn sorted_members(&self, dao_id: DaoId) -> (r: Vec<T::AccountId>) {
        into_vec(self.members(dao_id))
    }

    fn count(&self, dao_id: DaoId) -> (r: usize) {
        self.membership.count(dao_id)
    }
}

}
