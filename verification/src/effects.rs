//! What each change does, seen from outside: when it is refused, who the members and the prime
//! member are afterwards, what is deposited and what is told.
//!
//! All of this is said of what can be observed of a [`State`] before and after, its members, prime
//! members and events, and of the calls' record of what was asked, handed over and told.
use crate::bounded::contents;
use crate::genesis::{passed_on, GenesisConfig, GenesisError};
use crate::laws::law_add_adds_one;
use crate::membership::{carried_out, notice_views, Membership, Notice};
use crate::model::{NoticeView, State, Step};
use crate::order::{
    account_order, is_ordered, lawful_account, lawful_order, lemma_ordered, lemma_ordered_remove,
    lemma_ordered_unique, lemma_remove_value, ordered,
};
use crate::origin::signer_of;
use crate::pallet::{CallError, CallResult, Config, DaoSortedMembers, Pallet};
use crate::receiver::{Inquiry, Receiver};
use crate::types::{Change, DaoId, DaoPolicy, Error, Event};
use frame_support::sp_runtime::traits::BadOrigin;
use frame_support::sp_runtime::DispatchError;
use frame_support::traits::ConstU32;
use frame_support::BoundedVec;
use vstd::laws_cmp::obeys_cmp;
use vstd::laws_eq::obeys_concrete_eq;
use vstd::multiset::Multiset;
use vstd::prelude::*;
use vstd::std_specs::cmp::OrdSpec;

verus! {

/// A list is ordered exactly if none of its accounts compares greater than a later one.
pub proof fn law_ordered_by_comparison<A: Ord>(s: Seq<A>)
    ensures
        is_ordered(s) <==> forall|i: int, j: int|
            #![trigger s[i], s[j]]
            0 <= i < j < s.len() ==> !(s[i].cmp_spec(&s[j]) is Greater),
{
    let r = account_order::<A>();
    if is_ordered(s) {
        assert forall|i: int, j: int|
            #![trigger s[i], s[j]]
            0 <= i < j < s.len() implies !(s[i].cmp_spec(&s[j]) is Greater) by {
            assert(r(s[i], s[j]));
        }
    }
}

/// A type of accounts is lawful exactly if its comparisons are, and clones are the same account.
pub proof fn law_lawful_accounts<A: Ord + Clone>()
    ensures
        lawful_order::<A>() <==> obeys_cmp::<A>() && obeys_concrete_eq::<A>(),
        lawful_account::<A>() <==> lawful_order::<A>() && (forall|a: A, b: A| #[trigger]
            cloned(a, b) ==> a == b),
{
}

/// A state is valid exactly if every membership is ordered and within its bound, and every prime
/// member is a member.
pub proof fn law_valid_states<A: Ord>(state: State<A>, max: nat)
    ensures
        state.valid(max) <==> {
            &&& forall|d: DaoId| is_ordered(#[trigger] state.members_of(d))
            &&& forall|d: DaoId| (#[trigger] state.members_of(d)).len() <= max
            &&& forall|d: DaoId, p: A| #[trigger]
                state.prime_of(d) == Some(p) ==> #[trigger] state.members_of(d).contains(p)
        },
{
    if forall|d: DaoId, p: A| #[trigger]
        state.prime_of(d) == Some(p) ==> #[trigger] state.members_of(d).contains(p) {
        assert forall|d: DaoId|
            (#[trigger] state.prime_of(d) matches Some(p) ==> state.members_of(d).contains(p)) by {
            if let Some(p) = state.prime_of(d) {
                assert(state.members_of(d).contains(p) || !state.members_of(d).contains(p));
            }
        }
    }
}

/// At first nobody is a member, nobody is the prime member, and nothing was deposited.
pub proof fn law_vacant_at_first<A: Ord>(dao_id: DaoId)
    ensures
        State::<A>::vacant().members_of(dao_id).len() == 0,
        State::<A>::vacant().prime_of(dao_id) is None,
        State::<A>::vacant().events.len() == 0,
{
}

/// Adding is refused to members and where the membership is full, and to nobody else, whoever the
/// prime member is and whatever happened before.
pub proof fn law_add_is_refused_to_members_and_when_full<A: Ord>(
    state: State<A>,
    max: nat,
    dao_id: DaoId,
    who: A,
)
    ensures
        state.add_member(max, dao_id, who) is Ok <==> !state.members_of(dao_id).contains(who)
            && state.members_of(dao_id).len() < max,
        state.add_member(max, dao_id, who) == Err::<Step<A>, Error>(Error::AlreadyMember)
            <==> state.members_of(dao_id).contains(who),
        state.add_member(max, dao_id, who) == Err::<Step<A>, Error>(Error::TooManyMembers)
            <==> !state.members_of(dao_id).contains(who) && state.members_of(dao_id).len() >= max,
{
}

/// Removing is refused for accounts that are no members, and for no others, whoever the prime
/// member is and whatever happened before.
pub proof fn law_remove_is_refused_for_strangers<A: Ord>(state: State<A>, dao_id: DaoId, who: A)
    ensures
        state.remove_member(dao_id, who) is Ok <==> state.members_of(dao_id).contains(who),
        state.remove_member(dao_id, who) == Err::<Step<A>, Error>(Error::NotMember)
            <==> !state.members_of(dao_id).contains(who),
{
}

/// Exchanging two accounts is refused where the one is no member, or the other is one already, and
/// never where they are the same.
pub proof fn law_swap_is_refused_for_strangers_and_to_members<A: Ord>(
    state: State<A>,
    dao_id: DaoId,
    remove: A,
    add: A,
)
    ensures
        state.swap_member(dao_id, remove, add) is Ok <==> remove == add || state.members_of(
            dao_id,
        ).contains(remove) && !state.members_of(dao_id).contains(add),
        state.swap_member(dao_id, remove, add) == Err::<Step<A>, Error>(Error::NotMember)
            <==> remove != add && !state.members_of(dao_id).contains(remove),
        state.swap_member(dao_id, remove, add) == Err::<Step<A>, Error>(Error::AlreadyMember)
            <==> remove != add && state.members_of(dao_id).contains(remove) && state.members_of(
            dao_id,
        ).contains(add),
{
}

/// A reset is refused exactly if the list is too long.
pub proof fn law_reset_is_refused_when_too_long<A: Ord>(
    state: State<A>,
    max: nat,
    dao_id: DaoId,
    list: Seq<A>,
)
    ensures
        state.reset_members(max, dao_id, list) is Ok <==> list.len() <= max,
        state.reset_members(max, dao_id, list) == Err::<Step<A>, Error>(Error::TooManyMembers)
            <==> list.len() > max,
{
}

/// A change of key is refused to accounts that are no members, and where the new key is another
/// member's.
pub proof fn law_change_key_is_refused_to_strangers_and_for_members<A: Ord>(
    state: State<A>,
    dao_id: DaoId,
    remove: A,
    new: A,
)
    ensures
        state.change_key(dao_id, remove, new) is Ok <==> state.members_of(dao_id).contains(remove)
            && (remove == new || !state.members_of(dao_id).contains(new)),
        state.change_key(dao_id, remove, new) == Err::<Step<A>, Error>(Error::NotMember)
            <==> !state.members_of(dao_id).contains(remove),
        state.change_key(dao_id, remove, new) == Err::<Step<A>, Error>(Error::AlreadyMember)
            <==> remove != new && state.members_of(dao_id).contains(remove) && state.members_of(
            dao_id,
        ).contains(new),
{
}

/// Setting the prime member is refused for accounts that are no members, and for no others.
pub proof fn law_set_prime_is_refused_for_strangers<A: Ord>(
    state: State<A>,
    dao_id: DaoId,
    who: A,
)
    ensures
        state.set_prime(dao_id, who) is Ok <==> state.members_of(dao_id).contains(who),
        state.set_prime(dao_id, who) == Err::<Step<A>, Error>(Error::NotMember)
            <==> !state.members_of(dao_id).contains(who),
{
}

/// `after` are the accounts of `before` in order, with one more `incoming` and one less `outgoing`,
/// each if there is one.
pub open spec fn exchanged_in_order<A: Ord>(
    before: Seq<A>,
    after: Seq<A>,
    incoming: Seq<A>,
    outgoing: Seq<A>,
) -> bool {
    &&& is_ordered(after)
    &&& after.len() + outgoing.len() == before.len() + incoming.len()
    &&& after.to_multiset().add(outgoing.to_multiset()) == before.to_multiset().add(
        incoming.to_multiset(),
    )
}

/// One account as a multiset.
proof fn lemma_single<A>(x: A)
    ensures
        seq![x].to_multiset() == Multiset::<A>::empty().insert(x),
        Seq::<A>::empty().to_multiset() == Multiset::<A>::empty(),
{
    broadcast use vstd::multiset::group_multiset_axioms;

    Seq::<A>::empty().to_multiset_ensures();
    assert(Seq::<A>::empty().to_multiset() =~= Multiset::<A>::empty());
    assert(seq![x] =~= Seq::<A>::empty().push(x));
}

/// The members after a change are those from before in order, with who joined and without who left,
/// each as often as before but for that. Exchanging an account for itself, and setting or clearing
/// a prime member, leave them as they were. A reset and first members make the list the membership,
/// in order.
pub proof fn law_members_after_a_change<A: Ord>(
    state: State<A>,
    max: nat,
    dao_id: DaoId,
    who: A,
    other: A,
    list: Seq<A>,
)
    requires
        lawful_order::<A>(),
        is_ordered(state.members_of(dao_id)),
    ensures
        state.add_member(max, dao_id, who) matches Ok(step) ==> exchanged_in_order(
            state.members_of(dao_id),
            step.state.members_of(dao_id),
            seq![who],
            seq![],
        ),
        state.remove_member(dao_id, who) matches Ok(step) ==> exchanged_in_order(
            state.members_of(dao_id),
            step.state.members_of(dao_id),
            seq![],
            seq![who],
        ),
        state.swap_member(dao_id, who, other) matches Ok(step) ==> if who == other {
            step.state.members_of(dao_id) == state.members_of(dao_id)
        } else {
            exchanged_in_order(
                state.members_of(dao_id),
                step.state.members_of(dao_id),
                seq![other],
                seq![who],
            )
        },
        state.change_key(dao_id, who, other) matches Ok(step) ==> exchanged_in_order(
            state.members_of(dao_id),
            step.state.members_of(dao_id),
            seq![other],
            seq![who],
        ),
        state.reset_members(max, dao_id, list) matches Ok(step) ==> exchanged_in_order(
            Seq::<A>::empty(),
            step.state.members_of(dao_id),
            list,
            seq![],
        ),
        exchanged_in_order(
            Seq::<A>::empty(),
            state.initialize_members(dao_id, list).members_of(dao_id),
            list,
            seq![],
        ),
        state.set_prime(dao_id, who) matches Ok(step) ==> step.state.members_of(dao_id)
            == state.members_of(dao_id),
        state.clear_prime(dao_id).state.members_of(dao_id) == state.members_of(dao_id),
{
    broadcast use vstd::multiset::group_multiset_axioms;

    let before = state.members_of(dao_id);
    let none = Multiset::<A>::empty();
    lemma_single(who);
    lemma_single(other);
    before.to_multiset_ensures();
    lemma_ordered(before.push(who));
    let added = ordered(before.push(who));
    assert(added.to_multiset().add(none) =~= before.to_multiset().add(none.insert(who)));
    if before.contains(who) {
        let rest = before.remove_value(who);
        let after = ordered(rest.push(other));
        lemma_remove_value(before, who);
        lemma_ordered_remove(before, before.index_of(who));
        rest.to_multiset_ensures();
        lemma_ordered(rest.push(other));
        assert(before.to_multiset().count(who) > 0);
        assert(rest.to_multiset().add(none.insert(who)) =~= before.to_multiset().add(none));
        assert(after.to_multiset().add(none.insert(who)) =~= before.to_multiset().add(
            none.insert(other),
        ));
        assert(before.to_multiset().add(none.insert(who)) =~= before.to_multiset().add(
            none.insert(who),
        ));
    }
    lemma_ordered(list);
    assert(ordered(list).to_multiset().add(none) =~= none.add(list.to_multiset()));
}

/// The prime member is who it was, wherever it is still a member; nobody becomes the prime member
/// but by being set, or as the new key of who was it.
pub proof fn law_prime_after_a_change<A: Ord>(
    state: State<A>,
    max: nat,
    dao_id: DaoId,
    who: A,
    other: A,
    list: Seq<A>,
    p: A,
)
    requires
        lawful_order::<A>(),
    ensures
        state.add_member(max, dao_id, who) matches Ok(step) ==> step.state.prime_of(dao_id)
            == state.prime_of(dao_id),
        state.remove_member(dao_id, who) matches Ok(step) ==> (step.state.prime_of(dao_id) == Some(
            p,
        ) <==> state.prime_of(dao_id) == Some(p) && step.state.members_of(dao_id).contains(p)),
        who == other ==> (state.swap_member(dao_id, who, other) matches Ok(step)
            ==> step.state.prime_of(dao_id) == state.prime_of(dao_id)),
        who != other ==> (state.swap_member(dao_id, who, other) matches Ok(step) ==> (
        step.state.prime_of(dao_id) == Some(p) <==> state.prime_of(dao_id) == Some(p)
            && step.state.members_of(dao_id).contains(p))),
        state.reset_members(max, dao_id, list) matches Ok(step) ==> (step.state.prime_of(dao_id)
            == Some(p) <==> state.prime_of(dao_id) == Some(p) && list.contains(p)),
        state.change_key(dao_id, who, other) matches Ok(step) ==> (step.state.prime_of(dao_id)
            == Some(p) <==> if p == other {
            state.prime_of(dao_id) == Some(who) || state.prime_of(dao_id) == Some(other)
        } else {
            state.prime_of(dao_id) == Some(p) && p != who
        }),
        state.set_prime(dao_id, who) matches Ok(step) ==> step.state.prime_of(dao_id) == Some(who),
        state.clear_prime(dao_id).state.prime_of(dao_id) is None,
        state.initialize_members(dao_id, list).prime_of(dao_id) == state.prime_of(dao_id),
{
    lemma_ordered(list);
}

/// Exchanging members, removing one or replacing all never makes a prime member: afterwards it is
/// the one from before, or there is none.
pub proof fn law_prime_is_never_made_in_passing<A: Ord>(
    state: State<A>,
    max: nat,
    dao_id: DaoId,
    who: A,
    other: A,
    list: Seq<A>,
    d: DaoId,
)
    ensures
        state.remove_member(dao_id, who) matches Ok(step) ==> step.state.prime_of(d)
            == state.prime_of(d) || step.state.prime_of(d) is None,
        state.swap_member(dao_id, who, other) matches Ok(step) ==> step.state.prime_of(d)
            == state.prime_of(d) || step.state.prime_of(d) is None,
        state.reset_members(max, dao_id, list) matches Ok(step) ==> step.state.prime_of(d)
            == state.prime_of(d) || step.state.prime_of(d) is None,
        state.add_member(max, dao_id, who) matches Ok(step) ==> step.state.prime_of(d)
            == state.prime_of(d),
        state.prime_of(d) is None ==> (state.change_key(dao_id, who, other) matches Ok(step)
            ==> step.state.prime_of(d) is None),
        state.initialize_members(dao_id, list).prime_of(d) == state.prime_of(d),
{
}

/// Every change of a membership deposits one event that says what kind it was, behind those from
/// before. Exchanging an account for itself, the prime member and first members deposit nothing.
pub proof fn law_one_event_for_each_change<A: Ord>(
    state: State<A>,
    max: nat,
    dao_id: DaoId,
    who: A,
    other: A,
    list: Seq<A>,
)
    ensures
        state.add_member(max, dao_id, who) matches Ok(step) ==> step.state.events
            == state.events.push(Event::MemberAdded),
        state.remove_member(dao_id, who) matches Ok(step) ==> step.state.events
            == state.events.push(Event::MemberRemoved),
        state.swap_member(dao_id, who, other) matches Ok(step) ==> step.state.events == (if who
            == other {
            state.events
        } else {
            state.events.push(Event::MembersSwapped)
        }),
        state.reset_members(max, dao_id, list) matches Ok(step) ==> step.state.events
            == state.events.push(Event::MembersReset),
        state.change_key(dao_id, who, other) matches Ok(step) ==> step.state.events
            == state.events.push(Event::KeyChanged),
        state.set_prime(dao_id, who) matches Ok(step) ==> step.state.events == state.events,
        state.clear_prime(dao_id).state.events == state.events,
        state.initialize_members(dao_id, list).events == state.events,
{
}

/// `notices` are `first`, and after it who the prime member is where there is one.
pub open spec fn told_with_prime<A>(
    notices: Seq<NoticeView<A>>,
    first: NoticeView<A>,
    dao_id: DaoId,
    prime: Option<A>,
) -> bool {
    &&& notices.len() == if prime is Some { 2int } else { 1 }
    &&& notices[0] == first
    &&& prime is Some ==> notices[1] == NoticeView::PrimeSet { dao_id, prime }
}

/// What is told of a change is who joined, who left and who the members are now, or with a reset
/// who they are and were; then the prime member that stays, or that a new key was made. Setting and
/// clearing the prime member is told, and nothing else is.
pub proof fn law_what_is_told_of_a_change<A: Ord>(
    state: State<A>,
    max: nat,
    dao_id: DaoId,
    who: A,
    other: A,
    list: Seq<A>,
)
    ensures
        state.add_member(max, dao_id, who) matches Ok(step) ==> told_with_prime(
            step.notices,
            NoticeView::MembersChanged {
                dao_id,
                incoming: seq![who],
                outgoing: seq![],
                members: step.state.members_of(dao_id),
            },
            dao_id,
            None,
        ),
        state.remove_member(dao_id, who) matches Ok(step) ==> told_with_prime(
            step.notices,
            NoticeView::MembersChanged {
                dao_id,
                incoming: seq![],
                outgoing: seq![who],
                members: step.state.members_of(dao_id),
            },
            dao_id,
            step.state.prime_of(dao_id),
        ),
        state.swap_member(dao_id, who, other) matches Ok(step) ==> if who == other {
            step.notices.len() == 0
        } else {
            told_with_prime(
                step.notices,
                NoticeView::MembersChanged {
                    dao_id,
                    incoming: seq![other],
                    outgoing: seq![who],
                    members: step.state.members_of(dao_id),
                },
                dao_id,
                step.state.prime_of(dao_id),
            )
        },
        state.reset_members(max, dao_id, list) matches Ok(step) ==> told_with_prime(
            step.notices,
            NoticeView::MembersSet {
                dao_id,
                members: step.state.members_of(dao_id),
                before: state.members_of(dao_id),
            },
            dao_id,
            step.state.prime_of(dao_id),
        ),
        state.change_key(dao_id, who, other) matches Ok(step) ==> if who == other {
            step.notices.len() == 0
        } else {
            told_with_prime(
                step.notices,
                NoticeView::MembersChanged {
                    dao_id,
                    incoming: seq![other],
                    outgoing: seq![who],
                    members: step.state.members_of(dao_id),
                },
                dao_id,
                if state.prime_of(dao_id) == Some(who) {
                    Some(other)
                } else {
                    None
                },
            )
        },
        state.set_prime(dao_id, who) matches Ok(step) ==> step.notices == seq![
            NoticeView::PrimeSet { dao_id, prime: Some(who) },
        ],
        state.clear_prime(dao_id).notices == seq![
            NoticeView::PrimeSet { dao_id, prime: None::<A> },
        ],
{
}

/// What a change does to an organisation depends on its own members and prime member alone, not on
/// other organisations or on the past.
pub proof fn law_changes_depend_on_one_organisation<A: Ord>(
    state: State<A>,
    elsewhere: State<A>,
    max: nat,
    dao_id: DaoId,
    who: A,
    other: A,
    list: Seq<A>,
)
    requires
        elsewhere.members_of(dao_id) == state.members_of(dao_id),
        elsewhere.prime_of(dao_id) == state.prime_of(dao_id),
    ensures
        same_outcome(
            state.add_member(max, dao_id, who),
            elsewhere.add_member(max, dao_id, who),
            dao_id,
        ),
        same_outcome(
            state.remove_member(dao_id, who),
            elsewhere.remove_member(dao_id, who),
            dao_id,
        ),
        same_outcome(
            state.swap_member(dao_id, who, other),
            elsewhere.swap_member(dao_id, who, other),
            dao_id,
        ),
        same_outcome(
            state.reset_members(max, dao_id, list),
            elsewhere.reset_members(max, dao_id, list),
            dao_id,
        ),
        same_outcome(
            state.change_key(dao_id, who, other),
            elsewhere.change_key(dao_id, who, other),
            dao_id,
        ),
        same_outcome(state.set_prime(dao_id, who), elsewhere.set_prime(dao_id, who), dao_id),
        same_outcome(Ok(state.clear_prime(dao_id)), Ok(elsewhere.clear_prime(dao_id)), dao_id),
{
}

/// Two changes came out alike for one organisation: refused for the same reason, or with the same
/// members, prime member and notices.
pub open spec fn same_outcome<A: Ord>(
    a: Result<Step<A>, Error>,
    b: Result<Step<A>, Error>,
    dao_id: DaoId,
) -> bool {
    match (a, b) {
        (Ok(a), Ok(b)) => {
            &&& a.state.members_of(dao_id) == b.state.members_of(dao_id)
            &&& a.state.prime_of(dao_id) == b.state.prime_of(dao_id)
            &&& a.notices == b.notices
        },
        (Err(a), Err(b)) => a == b,
        _ => false,
    }
}

/// Adding two accounts gives the same membership in either order.
pub proof fn law_additions_commute<A: Ord>(
    state: State<A>,
    max: nat,
    dao_id: DaoId,
    a: A,
    b: A,
)
    requires
        lawful_order::<A>(),
        is_ordered(state.members_of(dao_id)),
        a != b,
        !state.members_of(dao_id).contains(a),
        !state.members_of(dao_id).contains(b),
        state.members_of(dao_id).len() + 2 <= max,
    ensures
        state.add_member(max, dao_id, a)->Ok_0.state.add_member(max, dao_id, b) is Ok,
        state.add_member(max, dao_id, b)->Ok_0.state.add_member(max, dao_id, a) is Ok,
        state.add_member(max, dao_id, a)->Ok_0.state.add_member(
            max,
            dao_id,
            b,
        )->Ok_0.state.members_of(dao_id) == state.add_member(
            max,
            dao_id,
            b,
        )->Ok_0.state.add_member(max, dao_id, a)->Ok_0.state.members_of(dao_id),
{
    broadcast use vstd::multiset::group_multiset_axioms;

    let before = state.members_of(dao_id);
    let with_a = state.add_member(max, dao_id, a)->Ok_0.state;
    let with_b = state.add_member(max, dao_id, b)->Ok_0.state;
    law_add_adds_one(state, max, dao_id, a);
    law_add_adds_one(state, max, dao_id, b);
    lemma_ordered(before.push(a));
    lemma_ordered(before.push(b));
    before.to_multiset_ensures();
    let with_ab = with_a.members_of(dao_id).push(b);
    let with_ba = with_b.members_of(dao_id).push(a);
    with_a.members_of(dao_id).to_multiset_ensures();
    with_b.members_of(dao_id).to_multiset_ensures();
    lemma_ordered(with_ab);
    lemma_ordered(with_ba);
    assert(with_ab.to_multiset() =~= with_ba.to_multiset());
    lemma_ordered_unique(with_ba, ordered(with_ab));
}

/// The register refuses a change exactly if it is to be refused, for that reason, and is then as it
/// was. Else it is what the change makes of it, and the notices say one by one what is to be told.
pub proof fn law_register_follows_the_change<A: Ord>(
    before: State<A>,
    after: State<A>,
    expected: Result<Step<A>, Error>,
    r: Result<Vec<Notice<A>>, Error>,
    i: int,
)
    requires
        carried_out(before, after, expected, r),
    ensures
        r is Ok <==> expected is Ok,
        r matches Err(error) ==> expected == Err::<Step<A>, Error>(error) && after == before,
        r matches Ok(notices) ==> after == expected->Ok_0.state && notices@.len()
            == expected->Ok_0.notices.len(),
        r matches Ok(notices) ==> (0 <= i < notices@.len() ==> says(
            notices@[i],
            expected->Ok_0.notices[i],
        )),
{
    if let Ok(notices) = r {
        if 0 <= i < notices@.len() {
            assert(notice_views(notices@)[i] == notices@[i]@);
        }
    }
}

/// A notice says this.
pub open spec fn says<A>(notice: Notice<A>, told: NoticeView<A>) -> bool {
    match (notice, told) {
        (
            Notice::MembersChanged { dao_id, incoming, outgoing, members },
            NoticeView::MembersChanged { dao_id: d, incoming: i, outgoing: o, members: m },
        ) => dao_id == d && incoming@ == i && outgoing@ == o && members@ == m,
        (
            Notice::MembersSet { dao_id, members, before },
            NoticeView::MembersSet { dao_id: d, members: m, before: b },
        ) => dao_id == d && members@ == m && before@ == b,
        (
            Notice::PrimeSet { dao_id, prime },
            NoticeView::PrimeSet { dao_id: d, prime: p },
        ) => dao_id == d && prime == p,
        _ => false,
    }
}

/// Every kind of change has a requirement of its own in a policy.
pub proof fn law_policy_has_a_requirement_for_each_change(policy: DaoPolicy)
    ensures
        policy.required(Change::Add) == policy.add_origin,
        policy.required(Change::Remove) == policy.remove_origin,
        policy.required(Change::Swap) == policy.swap_origin,
        policy.required(Change::Reset) == policy.reset_origin,
        policy.required(Change::Prime) == policy.prime_origin,
{
}

/// What a settled call gives back is the refusal of its origin, else the refusal of the change,
/// else success. A failure leaves what is registered and told as it was; a success is the change,
/// and what is told of it is all that is told.
pub proof fn law_settled_calls<T: Config, const MAX_MEMBERS: u32>(
    before: Pallet<T, MAX_MEMBERS>,
    after: Pallet<T, MAX_MEMBERS>,
    approval: CallResult,
    expected: Result<Step<T::AccountId>, Error>,
    r: CallResult,
)
    requires
        before.settled(after, approval, expected, r),
    ensures
        approval matches Err(error) ==> r == Err::<(), CallError>(error),
        approval is Ok ==> (expected matches Err(error) ==> r == Err::<(), CallError>(
            CallError::Module(error),
        )),
        approval is Ok && expected is Ok ==> r is Ok,
        r is Ok ==> after@ == expected->Ok_0.state && after.heard() == before.heard()
            + expected->Ok_0.notices,
        r is Err ==> after@ == before@ && after.heard() == before.heard(),
        after.handed() == before.handed(),
        after.surroundings() == before.surroundings(),
{
}

/// A call asks the surroundings for the policy of the organisation. Without one it fails as they
/// did. With one it asks, once, whether the origin meets what the policy has for that kind of
/// change: if not, the origin is bad, and if so, the call succeeds exactly if the change does.
pub proof fn law_calls_ask_and_abide<T: Config, const MAX_MEMBERS: u32>(
    before: Pallet<T, MAX_MEMBERS>,
    after: Pallet<T, MAX_MEMBERS>,
    origin: T::Origin,
    dao_id: DaoId,
    change: Change,
    expected: Result<Step<T::AccountId>, Error>,
    r: CallResult,
)
    requires
        before.decided(after, origin, dao_id, change, expected, r),
    ensures
        ({
            let n = before.asked().len() as int;
            &&& after.surroundings() == before.surroundings()
            &&& after.asked().len() > n
            &&& after.asked().take(n) == before.asked()
            &&& after.asked()[n] matches Inquiry::Policy { dao_id: d, policy }
            &&& d == dao_id
            &&& call_ensures(T::policy, (&before.surroundings(), dao_id), policy)
            &&& match policy {
                Err(error) => {
                    &&& after.asked().len() == n + 1
                    &&& r == Err::<(), CallError>(CallError::Other(error))
                },
                Ok(policy) => {
                    &&& after.asked().len() == n + 2
                    &&& after.asked()[n + 1] matches Inquiry::Origin {
                        origin: o,
                        required,
                        verdict,
                    }
                    &&& o == origin
                    &&& required == match change {
                        Change::Add => policy.add_origin,
                        Change::Remove => policy.remove_origin,
                        Change::Swap => policy.swap_origin,
                        Change::Reset => policy.reset_origin,
                        Change::Prime => policy.prime_origin,
                    }
                    &&& call_ensures(
                        T::ensure_origin,
                        (&before.surroundings(), origin, &required),
                        verdict,
                    )
                    &&& match verdict {
                        Err(_) => r == Err::<(), CallError>(CallError::BadOrigin),
                        Ok(_) => match expected {
                            Err(error) => r == Err::<(), CallError>(CallError::Module(error)),
                            Ok(_) => r is Ok,
                        },
                    }
                },
            }
        }),
        r is Ok ==> after@ == expected->Ok_0.state && after.heard() == before.heard()
            + expected->Ok_0.notices,
        r is Err ==> after@ == before@ && after.heard() == before.heard(),
        after.handed() == before.handed(),
{
    assert(after.asked().take(before.asked().len() as int) =~= before.asked());
}

/// First members are handed over once and in order, unless there are none or too many, and become
/// the membership if the surroundings accept them. No prime member, no event and no other
/// organisation changes, and nothing is asked or told.
pub proof fn law_first_members<T: Config, const MAX_MEMBERS: u32>(
    before: Pallet<T, MAX_MEMBERS>,
    after: Pallet<T, MAX_MEMBERS>,
    dao_id: DaoId,
    list: Seq<T::AccountId>,
    r: CallResult,
    d: DaoId,
)
    requires
        lawful_order::<T::AccountId>(),
        before.initialized(after, dao_id, list, r),
    ensures
        after.surroundings() == before.surroundings(),
        after.asked() == before.asked(),
        after.heard() == before.heard(),
        after@.events == before@.events,
        after@.prime_of(d) == before@.prime_of(d),
        d != dao_id ==> after@.members_of(d) == before@.members_of(d),
        list.len() == 0 ==> r is Ok && after@ == before@ && after.handed() == before.handed(),
        list.len() > MAX_MEMBERS ==> {
            &&& r == Err::<(), CallError>(CallError::Module(Error::TooManyMembers))
            &&& after@ == before@
            &&& after.handed() == before.handed()
        },
        0 < list.len() <= MAX_MEMBERS ==> {
            let n = before.handed().len() as int;
            let handed = after.handed()[n];
            &&& after.handed().len() == n + 1
            &&& after.handed().take(n) == before.handed()
            &&& handed.dao_id == dao_id
            &&& is_ordered(handed.members)
            &&& handed.members.to_multiset() == list.to_multiset()
            &&& match handed.verdict {
                Ok(_) => r is Ok && after@.members_of(dao_id) == handed.members,
                Err(error) => {
                    &&& r == Err::<(), CallError>(CallError::Other(error))
                    &&& after@ == before@
                },
            }
        },
{
    lemma_ordered(list);
    if 0 < list.len() <= MAX_MEMBERS {
        assert(after.handed().take(before.handed().len() as int) =~= before.handed());
    }
}

/// A start fails for the reason for which its first members were refused, and only then.
pub proof fn law_start_passes_refusals_on(outcome: CallResult)
    ensures
        outcome is Ok <==> passed_on(outcome) is Ok,
        outcome matches Err(error) ==> passed_on(outcome) == Err::<(), GenesisError>(
            GenesisError::Refused(error),
        ),
{
}

/// What a register lists is who is registered, prime member or not; it can be asked for that
/// whenever it is well-formed.
pub proof fn law_all_members_are_listed<T: Config, const MAX_MEMBERS: u32>(
    pallet: Pallet<T, MAX_MEMBERS>,
    dao_id: DaoId,
)
    ensures
        pallet.listed(dao_id) == pallet@.members_of(dao_id),
        pallet.enumerable() <==> pallet.wf(),
        pallet.wf() <==> lawful_account::<T::AccountId>() && pallet@.valid(MAX_MEMBERS as nat),
{
}

/// What the register does when it is told to change a membership is that change, and nothing else.
pub proof fn law_register_makes_the_change<A: Ord + Clone, const MAX_MEMBERS: u32>(
    before: Membership<A, MAX_MEMBERS>,
    after: Membership<A, MAX_MEMBERS>,
    dao_id: DaoId,
    who: A,
    other: A,
    list: Vec<A>,
    r: Result<Vec<Notice<A>>, Error>,
)
    ensures
        (exists|m: &mut Membership<A, MAX_MEMBERS>|
            {
                &&& #[trigger] call_ensures(
                    Membership::<A, MAX_MEMBERS>::add_member,
                    (m, dao_id, who),
                    r,
                )
                &&& *m == before
                &&& *final(m) == after
            }) ==> carried_out(
            before@,
            after@,
            before@.add_member(MAX_MEMBERS as nat, dao_id, who),
            r,
        ),
        (exists|m: &mut Membership<A, MAX_MEMBERS>|
            {
                &&& #[trigger] call_ensures(
                    Membership::<A, MAX_MEMBERS>::remove_member,
                    (m, dao_id, who),
                    r,
                )
                &&& *m == before
                &&& *final(m) == after
            }) ==> carried_out(before@, after@, before@.remove_member(dao_id, who), r),
        (exists|m: &mut Membership<A, MAX_MEMBERS>|
            {
                &&& #[trigger] call_ensures(
                    Membership::<A, MAX_MEMBERS>::swap_member,
                    (m, dao_id, who, other),
                    r,
                )
                &&& *m == before
                &&& *final(m) == after
            }) ==> carried_out(before@, after@, before@.swap_member(dao_id, who, other), r),
        (exists|m: &mut Membership<A, MAX_MEMBERS>|
            {
                &&& #[trigger] call_ensures(
                    Membership::<A, MAX_MEMBERS>::reset_members,
                    (m, dao_id, list),
                    r,
                )
                &&& *m == before
                &&& *final(m) == after
            }) ==> carried_out(
            before@,
            after@,
            before@.reset_members(MAX_MEMBERS as nat, dao_id, list@),
            r,
        ),
        (exists|m: &mut Membership<A, MAX_MEMBERS>|
            {
                &&& #[trigger] call_ensures(
                    Membership::<A, MAX_MEMBERS>::change_key,
                    (m, dao_id, who, other),
                    r,
                )
                &&& *m == before
                &&& *final(m) == after
            }) ==> carried_out(before@, after@, before@.change_key(dao_id, who, other), r),
        (exists|m: &mut Membership<A, MAX_MEMBERS>|
            {
                &&& #[trigger] call_ensures(
                    Membership::<A, MAX_MEMBERS>::set_prime,
                    (m, dao_id, who),
                    r,
                )
                &&& *m == before
                &&& *final(m) == after
            }) ==> carried_out(before@, after@, before@.set_prime(dao_id, who), r),
{
}

/// When the register is told to clear a prime member, there is none afterwards and nothing else
/// changes; that is what is to be told.
pub proof fn law_register_clears_the_prime<A: Ord + Clone, const MAX_MEMBERS: u32>(
    before: Membership<A, MAX_MEMBERS>,
    after: Membership<A, MAX_MEMBERS>,
    dao_id: DaoId,
    r: Vec<Notice<A>>,
    d: DaoId,
)
    requires
        (exists|m: &mut Membership<A, MAX_MEMBERS>|
            {
                &&& #[trigger] call_ensures(
                    Membership::<A, MAX_MEMBERS>::clear_prime,
                    (m, dao_id),
                    r,
                )
                &&& *m == before
                &&& *final(m) == after
            }),
    ensures
        after@.prime_of(dao_id) is None,
        d != dao_id ==> after@.prime_of(d) == before@.prime_of(d),
        after@.members_of(d) == before@.members_of(d),
        after@.events == before@.events,
        r@.len() == 1,
        says(r@[0], NoticeView::PrimeSet { dao_id, prime: None }),
{
    let told = notice_views(r@);
    assert(told == before@.clear_prime(dao_id).notices);
    assert(told.len() == r@.len());
    assert(told[0] == r@[0]@);
}

/// When the register is given first members, they are the membership in their order, unless they
/// were refused. No prime member, no event and no other organisation changes.
pub proof fn law_register_enters_first_members<A: Ord + Clone, const MAX_MEMBERS: u32>(
    before: Membership<A, MAX_MEMBERS>,
    after: Membership<A, MAX_MEMBERS>,
    dao_id: DaoId,
    members: BoundedVec<A, ConstU32<MAX_MEMBERS>>,
    verdict: Result<(), DispatchError>,
    r: Result<(), DispatchError>,
    d: DaoId,
)
    requires
        lawful_order::<A>(),
        is_ordered(contents(members)),
        (exists|m: &mut Membership<A, MAX_MEMBERS>|
            {
                &&& #[trigger] call_ensures(
                    Membership::<A, MAX_MEMBERS>::initialize_members,
                    (m, dao_id, members, verdict),
                    r,
                )
                &&& *m == before
                &&& *final(m) == after
            }),
    ensures
        r == verdict,
        verdict is Ok ==> after@.members_of(dao_id) == contents(members),
        verdict is Err ==> after@ == before@,
        d != dao_id ==> after@.members_of(d) == before@.members_of(d),
        after@.prime_of(d) == before@.prime_of(d),
        after@.events == before@.events,
{
    lemma_ordered_unique(contents(members), contents(members));
}

/// A register starts vacant, and what is read from one is what is registered in it.
pub proof fn law_register_gives_back_what_it_holds<A: Ord + Clone, const MAX_MEMBERS: u32>(
    register: Membership<A, MAX_MEMBERS>,
    dao_id: DaoId,
    members: BoundedVec<A, ConstU32<MAX_MEMBERS>>,
    prime: Option<A>,
    count: usize,
    events: &Vec<Event>,
)
    ensures
        call_ensures(Membership::<A, MAX_MEMBERS>::new, (), register) ==> {
            &&& register@.members_of(dao_id).len() == 0
            &&& register@.prime_of(dao_id) is None
            &&& register@.events.len() == 0
        },
        call_ensures(Membership::<A, MAX_MEMBERS>::members, (&register, dao_id), members)
            ==> contents(members) == register@.members_of(dao_id),
        call_ensures(Membership::<A, MAX_MEMBERS>::prime, (&register, dao_id), prime) ==> prime
            == register@.prime_of(dao_id),
        call_ensures(Membership::<A, MAX_MEMBERS>::count, (&register, dao_id), count) ==> count
            == register@.members_of(dao_id).len(),
        call_ensures(Membership::<A, MAX_MEMBERS>::events, (&register,), events) ==> events@
            == register@.events,
{
}

/// A list is prepared as a membership exactly if it is not too long: the same accounts, in order.
pub proof fn law_lists_are_prepared_in_order<A: Ord + Clone, const MAX_MEMBERS: u32>(
    list: Vec<A>,
    r: Result<BoundedVec<A, ConstU32<MAX_MEMBERS>>, Error>,
)
    requires
        lawful_order::<A>(),
        call_ensures(Membership::<A, MAX_MEMBERS>::prepare_members, (list,), r),
    ensures
        r is Ok <==> list@.len() <= MAX_MEMBERS,
        r matches Ok(prepared) ==> is_ordered(contents(prepared)) && contents(
            prepared,
        ).to_multiset() == list@.to_multiset(),
        r matches Err(error) ==> error == Error::TooManyMembers,
{
    lemma_ordered(list@);
}

/// Every call is held against what the policy has for its kind of change, and makes that change.
/// A change of key is held against nothing but the signature, which says whose key it is.
pub proof fn law_calls_are_held_against_the_policy<T: Config, const MAX_MEMBERS: u32>(
    before: Pallet<T, MAX_MEMBERS>,
    after: Pallet<T, MAX_MEMBERS>,
    origin: T::Origin,
    dao_id: DaoId,
    who: T::AccountId,
    other: T::AccountId,
    list: Vec<T::AccountId>,
    r: CallResult,
)
    ensures
        (exists|p: &mut Pallet<T, MAX_MEMBERS>|
            {
                &&& #[trigger] call_ensures(
                    Pallet::<T, MAX_MEMBERS>::add_member,
                    (p, origin, dao_id, who),
                    r,
                )
                &&& *p == before
                &&& *final(p) == after
            }) ==> before.decided(
            after,
            origin,
            dao_id,
            Change::Add,
            before@.add_member(MAX_MEMBERS as nat, dao_id, who),
            r,
        ),
        (exists|p: &mut Pallet<T, MAX_MEMBERS>|
            {
                &&& #[trigger] call_ensures(
                    Pallet::<T, MAX_MEMBERS>::remove_member,
                    (p, origin, dao_id, who),
                    r,
                )
                &&& *p == before
                &&& *final(p) == after
            }) ==> before.decided(
            after,
            origin,
            dao_id,
            Change::Remove,
            before@.remove_member(dao_id, who),
            r,
        ),
        (exists|p: &mut Pallet<T, MAX_MEMBERS>|
            {
                &&& #[trigger] call_ensures(
                    Pallet::<T, MAX_MEMBERS>::swap_member,
                    (p, origin, dao_id, who, other),
                    r,
                )
                &&& *p == before
                &&& *final(p) == after
            }) ==> before.decided(
            after,
            origin,
            dao_id,
            Change::Swap,
            before@.swap_member(dao_id, who, other),
            r,
        ),
        (exists|p: &mut Pallet<T, MAX_MEMBERS>|
            {
                &&& #[trigger] call_ensures(
                    Pallet::<T, MAX_MEMBERS>::reset_members,
                    (p, origin, dao_id, list),
                    r,
                )
                &&& *p == before
                &&& *final(p) == after
            }) ==> before.decided(
            after,
            origin,
            dao_id,
            Change::Reset,
            before@.reset_members(MAX_MEMBERS as nat, dao_id, list@),
            r,
        ),
        (exists|p: &mut Pallet<T, MAX_MEMBERS>|
            {
                &&& #[trigger] call_ensures(
                    Pallet::<T, MAX_MEMBERS>::set_prime,
                    (p, origin, dao_id, who),
                    r,
                )
                &&& *p == before
                &&& *final(p) == after
            }) ==> before.decided(
            after,
            origin,
            dao_id,
            Change::Prime,
            before@.set_prime(dao_id, who),
            r,
        ),
        (exists|p: &mut Pallet<T, MAX_MEMBERS>|
            {
                &&& #[trigger] call_ensures(
                    Pallet::<T, MAX_MEMBERS>::clear_prime,
                    (p, origin, dao_id),
                    r,
                )
                &&& *p == before
                &&& *final(p) == after
            }) ==> before.decided(
            after,
            origin,
            dao_id,
            Change::Prime,
            Ok(before@.clear_prime(dao_id)),
            r,
        ),
        (exists|p: &mut Pallet<T, MAX_MEMBERS>|
            {
                &&& #[trigger] call_ensures(
                    Pallet::<T, MAX_MEMBERS>::change_key,
                    (p, origin, dao_id, other),
                    r,
                )
                &&& *p == before
                &&& *final(p) == after
            }) ==> {
            &&& after.asked() == before.asked()
            &&& exists|signer: Result<T::AccountId, BadOrigin>|
                {
                    &&& #[trigger] signer_of(origin, signer)
                    &&& match signer {
                        Ok(signer) => before.settled(
                            after,
                            Ok(()),
                            before@.change_key(dao_id, signer, other),
                            r,
                        ),
                        Err(_) => {
                            &&& r == Err::<(), CallError>(CallError::BadOrigin)
                            &&& after == before
                        },
                    }
                }
        },
        (exists|p: &mut Pallet<T, MAX_MEMBERS>|
            {
                &&& #[trigger] call_ensures(
                    Pallet::<T, MAX_MEMBERS>::initialize_members,
                    (p, dao_id, list),
                    r,
                )
                &&& *p == before
                &&& *final(p) == after
            }) ==> before.initialized(
            after,
            dao_id,
            list@,
            r,
        ),
{
}

/// A register goes on with what it was given, and what is read from it is what is registered.
pub proof fn law_calls_read_what_is_registered<T: Config, const MAX_MEMBERS: u32>(
    pallet: Pallet<T, MAX_MEMBERS>,
    receiver: Receiver<T>,
    membership: Membership<T::AccountId, MAX_MEMBERS>,
    dao_id: DaoId,
    who: &T::AccountId,
    members: BoundedVec<T::AccountId, ConstU32<MAX_MEMBERS>>,
    prime: Option<T::AccountId>,
    events: &Vec<Event>,
    sorted: Vec<T::AccountId>,
    contained: bool,
    count: usize,
)
    ensures
        call_ensures(Pallet::<T, MAX_MEMBERS>::new, (receiver,), pallet) ==> {
            &&& pallet@.members_of(dao_id).len() == 0
            &&& pallet@.prime_of(dao_id) is None
            &&& pallet@.events.len() == 0
            &&& pallet.surroundings() == receiver.config()
            &&& pallet.heard() == receiver.heard()
        },
        call_ensures(Pallet::<T, MAX_MEMBERS>::resume, (receiver, membership), pallet) ==> {
            &&& pallet@ == membership@
            &&& pallet.surroundings() == receiver.config()
            &&& pallet.heard() == receiver.heard()
        },
        call_ensures(Pallet::<T, MAX_MEMBERS>::members, (&pallet, dao_id), members) ==> contents(
            members,
        ) == pallet@.members_of(dao_id),
        call_ensures(Pallet::<T, MAX_MEMBERS>::prime, (&pallet, dao_id), prime) ==> prime
            == pallet@.prime_of(dao_id),
        call_ensures(Pallet::<T, MAX_MEMBERS>::events, (&pallet,), events) ==> events@
            == pallet@.events,
        call_ensures(Pallet::<T, MAX_MEMBERS>::sorted_members, (&pallet, dao_id), sorted)
            ==> sorted@ == pallet@.members_of(dao_id),
        call_ensures(Pallet::<T, MAX_MEMBERS>::contains, (&pallet, dao_id, who), contained) ==> (
        contained <==> pallet@.members_of(dao_id).contains(*who)),
        call_ensures(Pallet::<T, MAX_MEMBERS>::count, (&pallet, dao_id), count) ==> count
            == pallet@.members_of(dao_id).len(),
{
}

/// A start refuses a list that is too long, and one that names an account twice, without handing
/// anything over. Every other list but the empty one is handed over once and in order, and becomes
/// the membership exactly if the surroundings accept it. Nothing else changes.
pub proof fn law_start_with_first_members<T: Config, const MAX_MEMBERS: u32>(
    before: Pallet<T, MAX_MEMBERS>,
    after: Pallet<T, MAX_MEMBERS>,
    config: GenesisConfig<T>,
    r: Result<(), GenesisError>,
    d: DaoId,
)
    requires
        lawful_order::<T::AccountId>(),
        exists|p: &mut Pallet<T, MAX_MEMBERS>|
            {
                &&& #[trigger] call_ensures(
                    GenesisConfig::<T>::assimilate_storage::<MAX_MEMBERS>,
                    (config, p),
                    r,
                )
                &&& *p == before
                &&& *final(p) == after
            },
    ensures
        after.heard() == before.heard(),
        after@.events == before@.events,
        after@.prime_of(d) == before@.prime_of(d),
        d != config.dao_id ==> after@.members_of(d) == before@.members_of(d),
        r is Err ==> after@ == before@,
        config.members@.len() > MAX_MEMBERS ==> {
            &&& r == Err::<(), GenesisError>(
                GenesisError::Refused(CallError::Module(Error::TooManyMembers)),
            )
            &&& after.handed() == before.handed()
        },
        config.members@.len() <= MAX_MEMBERS && !config.members@.no_duplicates() ==> {
            &&& r == Err::<(), GenesisError>(GenesisError::DuplicateMembers)
            &&& after.handed() == before.handed()
        },
        config.members@.len() == 0 ==> r is Ok && after@ == before@ && after.handed()
            == before.handed(),
        0 < config.members@.len() <= MAX_MEMBERS && config.members@.no_duplicates() ==> {
            let n = before.handed().len() as int;
            let handed = after.handed()[n];
            &&& after.handed().len() == n + 1
            &&& after.handed().take(n) == before.handed()
            &&& handed.dao_id == config.dao_id
            &&& is_ordered(handed.members)
            &&& handed.members.to_multiset() == config.members@.to_multiset()
            &&& match handed.verdict {
                Ok(_) => r is Ok && after@.members_of(config.dao_id) == handed.members,
                Err(error) => r == Err::<(), GenesisError>(
                    GenesisError::Refused(CallError::Other(error)),
                ),
            }
        },
{
    let list = config.members@;
    if list.len() > MAX_MEMBERS || list.no_duplicates() {
        let outcome = choose|outcome: CallResult|
            r == #[trigger] passed_on(outcome) && before.initialized(
                after,
                config.dao_id,
                list,
                outcome,
            );
        law_first_members(before, after, config.dao_id, list, outcome, d);
    }
}

}
