//! Memberships as mathematical values, and what each change makes of them.
use crate::order::{
    is_ordered, lawful_order, lemma_ordered, lemma_ordered_remove, lemma_remove_value, ordered,
};
use crate::types::{DaoId, Error, Event};
use vstd::prelude::*;

verus! {

/// What a receiver is told of a membership.
#[verifier::ext_equal]
pub enum NoticeView<A> {
    /// `incoming` joined and `outgoing` left, which makes `members` the membership.
    MembersChanged { dao_id: DaoId, incoming: Seq<A>, outgoing: Seq<A>, members: Seq<A> },
    /// `members` is the membership now, and `before` was until now.
    MembersSet { dao_id: DaoId, members: Seq<A>, before: Seq<A> },
    /// `prime` is the prime member now, if there is one.
    PrimeSet { dao_id: DaoId, prime: Option<A> },
}

impl<A> NoticeView<A> {
    /// The organisation that it is about.
    pub open spec fn about(self) -> DaoId {
        match self {
            NoticeView::MembersChanged { dao_id, .. } => dao_id,
            NoticeView::MembersSet { dao_id, .. } => dao_id,
            NoticeView::PrimeSet { dao_id, .. } => dao_id,
        }
    }
}

/// The memberships of all organisations, their prime members, and the events of the past.
#[verifier::ext_equal]
pub struct State<A> {
    /// The members of each organisation that has ever had some.
    pub members: Map<DaoId, Seq<A>>,
    /// The prime member of each organisation that has one.
    pub prime: Map<DaoId, A>,
    /// What was deposited, oldest first.
    pub events: Seq<Event>,
}

/// What a change that is not refused leads to.
#[verifier::ext_equal]
pub struct Step<A> {
    /// The state afterwards.
    pub state: State<A>,
    /// What the receiver is told, in this order.
    pub notices: Seq<NoticeView<A>>,
}

impl<A: Ord> State<A> {
    /// Nobody is a member of anything, and nothing was deposited.
    pub open spec fn vacant() -> State<A> {
        State { members: Map::empty(), prime: Map::empty(), events: Seq::empty() }
    }

    /// The members of an organisation, none if it is unknown.
    pub open spec fn members_of(self, dao_id: DaoId) -> Seq<A> {
        if self.members.contains_key(dao_id) {
            self.members[dao_id]
        } else {
            Seq::empty()
        }
    }

    /// The prime member of an organisation.
    pub open spec fn prime_of(self, dao_id: DaoId) -> Option<A> {
        if self.prime.contains_key(dao_id) {
            Some(self.prime[dao_id])
        } else {
            None
        }
    }

    /// Every membership is ordered and has at most `max` members, and every prime member is a
    /// member.
    pub open spec fn valid(self, max: nat) -> bool {
        &&& forall|d: DaoId| is_ordered(#[trigger] self.members_of(d))
        &&& forall|d: DaoId| (#[trigger] self.members_of(d)).len() <= max
        &&& forall|d: DaoId|
            #[trigger] self.prime_of(d) matches Some(p) ==> self.members_of(d).contains(p)
    }

    /// The state with other members of one organisation.
    pub open spec fn with_members(self, dao_id: DaoId, members: Seq<A>) -> State<A> {
        State { members: self.members.insert(dao_id, members), ..self }
    }

    /// The state with another prime member of one organisation, or with none.
    pub open spec fn with_prime(self, dao_id: DaoId, prime: Option<A>) -> State<A> {
        match prime {
            Some(p) => State { prime: self.prime.insert(dao_id, p), ..self },
            None => State { prime: self.prime.remove(dao_id), ..self },
        }
    }

    /// The state with one more event.
    pub open spec fn with_event(self, event: Event) -> State<A> {
        State { events: self.events.push(event), ..self }
    }

    /// Whether the prime member of an organisation is among `members`.
    pub open spec fn prime_among(self, dao_id: DaoId, members: Seq<A>) -> bool {
        self.prime_of(dao_id) matches Some(p) && members.contains(p)
    }

    /// The state in which a prime member that is not among `members` has lost that place.
    pub open spec fn rejigged(self, dao_id: DaoId, members: Seq<A>) -> State<A> {
        if self.prime_among(dao_id, members) {
            self
        } else {
            self.with_prime(dao_id, None)
        }
    }

    /// What is told of a prime member that keeps its place among `members`.
    pub open spec fn rejig_notices(self, dao_id: DaoId, members: Seq<A>) -> Seq<NoticeView<A>> {
        if self.prime_among(dao_id, members) {
            seq![NoticeView::PrimeSet { dao_id, prime: self.prime_of(dao_id) }]
        } else {
            seq![]
        }
    }

    /// `who` joins.
    pub open spec fn add_member(self, max: nat, dao_id: DaoId, who: A) -> Result<Step<A>, Error> {
        let before = self.members_of(dao_id);
        let after = ordered(before.push(who));
        if before.contains(who) {
            Err(Error::AlreadyMember)
        } else if before.len() >= max {
            Err(Error::TooManyMembers)
        } else {
            Ok(
                Step {
                    state: self.with_members(dao_id, after).with_event(Event::MemberAdded),
                    notices: seq![
                        NoticeView::MembersChanged {
                            dao_id,
                            incoming: seq![who],
                            outgoing: seq![],
                            members: after,
                        },
                    ],
                },
            )
        }
    }

    /// `who` leaves, and with it its place as the prime member.
    pub open spec fn remove_member(self, dao_id: DaoId, who: A) -> Result<Step<A>, Error> {
        let before = self.members_of(dao_id);
        let after = before.remove_value(who);
        if !before.contains(who) {
            Err(Error::NotMember)
        } else {
            Ok(
                Step {
                    state: self.with_members(dao_id, after).rejigged(dao_id, after).with_event(
                        Event::MemberRemoved,
                    ),
                    notices: seq![
                        NoticeView::MembersChanged {
                            dao_id,
                            incoming: seq![],
                            outgoing: seq![who],
                            members: after,
                        },
                    ] + self.rejig_notices(dao_id, after),
                },
            )
        }
    }

    /// `add` takes the seat of `remove`, but not its place as the prime member.
    pub open spec fn swap_member(self, dao_id: DaoId, remove: A, add: A) -> Result<Step<A>, Error> {
        let before = self.members_of(dao_id);
        let after = ordered(before.remove_value(remove).push(add));
        if remove == add {
            Ok(Step { state: self, notices: seq![] })
        } else if !before.contains(remove) {
            Err(Error::NotMember)
        } else if before.contains(add) {
            Err(Error::AlreadyMember)
        } else {
            Ok(
                Step {
                    state: self.with_members(dao_id, after).rejigged(dao_id, after).with_event(
                        Event::MembersSwapped,
                    ),
                    notices: seq![
                        NoticeView::MembersChanged {
                            dao_id,
                            incoming: seq![add],
                            outgoing: seq![remove],
                            members: after,
                        },
                    ] + self.rejig_notices(dao_id, after),
                },
            )
        }
    }

    /// `members` becomes the membership, whatever it was before.
    pub open spec fn reset_members(self, max: nat, dao_id: DaoId, members: Seq<A>) -> Result<
        Step<A>,
        Error,
    > {
        let after = ordered(members);
        if members.len() > max {
            Err(Error::TooManyMembers)
        } else {
            Ok(
                Step {
                    state: self.with_members(dao_id, after).rejigged(dao_id, after).with_event(
                        Event::MembersReset,
                    ),
                    notices: seq![
                        NoticeView::MembersSet {
                            dao_id,
                            members: after,
                            before: self.members_of(dao_id),
                        },
                    ] + self.rejig_notices(dao_id, after),
                },
            )
        }
    }

    /// `remove` goes on as `new`, and as the prime member if it was that.
    pub open spec fn change_key(self, dao_id: DaoId, remove: A, new: A) -> Result<Step<A>, Error> {
        let before = self.members_of(dao_id);
        let after = ordered(before.remove_value(remove).push(new));
        let told = NoticeView::MembersChanged {
            dao_id,
            incoming: seq![new],
            outgoing: seq![remove],
            members: after,
        };
        if !before.contains(remove) {
            Err(Error::NotMember)
        } else if remove == new {
            Ok(Step { state: self.with_event(Event::KeyChanged), notices: seq![] })
        } else if before.contains(new) {
            Err(Error::AlreadyMember)
        } else if self.prime_of(dao_id) == Some(remove) {
            Ok(
                Step {
                    state: self.with_members(dao_id, after).with_prime(
                        dao_id,
                        Some(new),
                    ).with_event(Event::KeyChanged),
                    notices: seq![told, NoticeView::PrimeSet { dao_id, prime: Some(new) }],
                },
            )
        } else {
            Ok(
                Step {
                    state: self.with_members(dao_id, after).with_event(Event::KeyChanged),
                    notices: seq![told],
                },
            )
        }
    }

    /// An organisation without members gets its first ones.
    pub open spec fn initialize_members(self, dao_id: DaoId, members: Seq<A>) -> State<A> {
        self.with_members(dao_id, ordered(members))
    }

    /// `who` becomes the prime member.
    pub open spec fn set_prime(self, dao_id: DaoId, who: A) -> Result<Step<A>, Error> {
        if !self.members_of(dao_id).contains(who) {
            Err(Error::NotMember)
        } else {
            Ok(
                Step {
                    state: self.with_prime(dao_id, Some(who)),
                    notices: seq![NoticeView::PrimeSet { dao_id, prime: Some(who) }],
                },
            )
        }
    }

    /// Nobody is the prime member any more.
    pub open spec fn clear_prime(self, dao_id: DaoId) -> Step<A> {
        Step {
            state: self.with_prime(dao_id, None),
            notices: seq![NoticeView::PrimeSet { dao_id, prime: None }],
        }
    }
}

/// A state stays valid when what changes of one organisation, members and prime member, is valid.
proof fn lemma_still_valid<A: Ord>(before: State<A>, after: State<A>, max: nat, dao_id: DaoId)
    requires
        before.valid(max),
        forall|d: DaoId| d != dao_id ==> #[trigger] after.members_of(d) == before.members_of(d),
        forall|d: DaoId| d != dao_id ==> #[trigger] after.prime_of(d) == before.prime_of(d),
        is_ordered(after.members_of(dao_id)),
        after.members_of(dao_id).len() <= max,
        after.prime_of(dao_id) matches Some(p) ==> after.members_of(dao_id).contains(p),
    ensures
        after.valid(max),
{
    assert forall|d: DaoId|
        (#[trigger] after.prime_of(d) matches Some(p) ==> after.members_of(d).contains(p)) by {
        if d != dao_id {
            assert(before.prime_of(d) == after.prime_of(d));
            assert(after.members_of(d) == before.members_of(d));
        }
    }
    assert forall|d: DaoId| is_ordered(#[trigger] after.members_of(d)) by {
        assert(is_ordered(before.members_of(d)));
    }
    assert forall|d: DaoId| (#[trigger] after.members_of(d)).len() <= max by {
        assert(before.members_of(d).len() <= max);
    }
}

/// Adding a member keeps a state valid: the membership stays ordered and within its bound, and
/// the prime member stays a member.
pub proof fn lemma_add_member_valid<A: Ord>(
    state: State<A>,
    max: nat,
    dao_id: DaoId,
    who: A,
)
    requires
        lawful_order::<A>(),
        state.valid(max),
        state.add_member(max, dao_id, who) is Ok,
    ensures
        state.add_member(max, dao_id, who)->Ok_0.state.valid(max),
{
    let before = state.members_of(dao_id);
    let after = state.add_member(max, dao_id, who)->Ok_0.state;
    lemma_ordered(before.push(who));
    if let Some(p) = state.prime_of(dao_id) {
        assert(before.contains(p));
        assert(before.push(who)[before.index_of(p)] == p);
    }
    lemma_still_valid(state, after, max, dao_id);
}

/// Removing a member keeps a state valid.
pub proof fn lemma_remove_member_valid<A: Ord>(
    state: State<A>,
    max: nat,
    dao_id: DaoId,
    who: A,
)
    requires
        lawful_order::<A>(),
        state.valid(max),
        state.remove_member(dao_id, who) is Ok,
    ensures
        state.remove_member(dao_id, who)->Ok_0.state.valid(max),
{
    let before = state.members_of(dao_id);
    let after = state.remove_member(dao_id, who)->Ok_0.state;
    lemma_remove_value(before, who);
    lemma_ordered_remove(before, before.index_of(who));
    lemma_still_valid(state, after, max, dao_id);
}

/// Exchanging a member keeps a state valid.
pub proof fn lemma_swap_member_valid<A: Ord>(
    state: State<A>,
    max: nat,
    dao_id: DaoId,
    remove: A,
    add: A,
)
    requires
        lawful_order::<A>(),
        state.valid(max),
        state.swap_member(dao_id, remove, add) is Ok,
    ensures
        state.swap_member(dao_id, remove, add)->Ok_0.state.valid(max),
{
    if remove != add {
        let before = state.members_of(dao_id);
        let after = state.swap_member(dao_id, remove, add)->Ok_0.state;
        lemma_remove_value(before, remove);
        lemma_ordered(before.remove_value(remove).push(add));
        lemma_still_valid(state, after, max, dao_id);
    }
}

/// Replacing the whole membership keeps a state valid.
pub proof fn lemma_reset_members_valid<A: Ord>(
    state: State<A>,
    max: nat,
    dao_id: DaoId,
    members: Seq<A>,
)
    requires
        lawful_order::<A>(),
        state.valid(max),
        state.reset_members(max, dao_id, members) is Ok,
    ensures
        state.reset_members(max, dao_id, members)->Ok_0.state.valid(max),
{
    let after = state.reset_members(max, dao_id, members)->Ok_0.state;
    lemma_ordered(members);
    lemma_still_valid(state, after, max, dao_id);
}

/// A change of a member's key keeps a state valid.
pub proof fn lemma_change_key_valid<A: Ord>(
    state: State<A>,
    max: nat,
    dao_id: DaoId,
    remove: A,
    new: A,
)
    requires
        lawful_order::<A>(),
        state.valid(max),
        state.change_key(dao_id, remove, new) is Ok,
    ensures
        state.change_key(dao_id, remove, new)->Ok_0.state.valid(max),
{
    let before = state.members_of(dao_id);
    let after = state.change_key(dao_id, remove, new)->Ok_0.state;
    if remove != new {
        let rest = before.remove_value(remove);
        lemma_remove_value(before, remove);
        lemma_ordered(rest.push(new));
        assert(rest.push(new).last() == new);
        if let Some(p) = state.prime_of(dao_id) {
            if p != remove {
                assert(before.contains(p));
                assert(rest.push(new)[rest.index_of(p)] == p);
            }
        }
    } else if let Some(p) = state.prime_of(dao_id) {
        assert(before.contains(p));
    }
    lemma_still_valid(state, after, max, dao_id);
}

/// Setting a prime member keeps a state valid.
pub proof fn lemma_set_prime_valid<A: Ord>(state: State<A>, max: nat, dao_id: DaoId, who: A)
    requires
        state.valid(max),
        state.set_prime(dao_id, who) is Ok,
    ensures
        state.set_prime(dao_id, who)->Ok_0.state.valid(max),
{
    lemma_still_valid(state, state.set_prime(dao_id, who)->Ok_0.state, max, dao_id);
}

/// Clearing the prime member keeps a state valid.
pub proof fn lemma_clear_prime_valid<A: Ord>(state: State<A>, max: nat, dao_id: DaoId)
    requires
        state.valid(max),
    ensures
        state.clear_prime(dao_id).state.valid(max),
{
    assert(is_ordered(state.members_of(dao_id)));
    lemma_still_valid(state, state.clear_prime(dao_id).state, max, dao_id);
}

/// First members keep a state valid.
pub proof fn lemma_initialize_members_valid<A: Ord>(
    state: State<A>,
    max: nat,
    dao_id: DaoId,
    members: Seq<A>,
)
    requires
        lawful_order::<A>(),
        state.valid(max),
        state.members_of(dao_id).len() == 0,
        members.len() <= max,
    ensures
        state.initialize_members(dao_id, members).valid(max),
{
    lemma_ordered(members);
    if let Some(p) = state.prime_of(dao_id) {
        assert(state.members_of(dao_id).contains(p));
    }
    lemma_still_valid(state, state.initialize_members(dao_id, members), max, dao_id);
}

}
