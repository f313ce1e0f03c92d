//! What holds of memberships over one change or several, and of what is told of them.
//!
//! The changes are those of [`State`](crate::model::State), which the contracts of the register
//! and of its calls speak of. That every change keeps memberships ordered and bounded, and the
//! prime member a member, is proved beside them.
use crate::model::{NoticeView, State, Step};
use crate::order::{
    is_ordered, lawful_order, lemma_ordered, lemma_ordered_remove, lemma_ordered_unique,
    lemma_remove_value, ordered,
};
use crate::pallet::{CallResult, Config, Pallet};
use crate::types::{Change, DaoId, Error};
use vstd::prelude::*;

verus! {

/// No organisation but one is touched.
pub open spec fn only_touches<A: Ord>(before: State<A>, after: State<A>, dao_id: DaoId) -> bool {
    forall|d: DaoId|
        #![trigger after.members_of(d)]
        #![trigger after.prime_of(d)]
        d != dao_id ==> after.members_of(d) == before.members_of(d) && after.prime_of(d)
            == before.prime_of(d)
}

/// A change of one organisation leaves the members and the prime member of every other alone.
pub proof fn law_changes_touch_one_organisation<A: Ord>(
    state: State<A>,
    max: nat,
    dao_id: DaoId,
    who: A,
    other: A,
    list: Seq<A>,
)
    ensures
        state.add_member(max, dao_id, who) matches Ok(step) ==> only_touches(
            state,
            step.state,
            dao_id,
        ),
        state.remove_member(dao_id, who) matches Ok(step) ==> only_touches(
            state,
            step.state,
            dao_id,
        ),
        state.swap_member(dao_id, who, other) matches Ok(step) ==> only_touches(
            state,
            step.state,
            dao_id,
        ),
        state.reset_members(max, dao_id, list) matches Ok(step) ==> only_touches(
            state,
            step.state,
            dao_id,
        ),
        state.change_key(dao_id, who, other) matches Ok(step) ==> only_touches(
            state,
            step.state,
            dao_id,
        ),
        state.set_prime(dao_id, who) matches Ok(step) ==> only_touches(state, step.state, dao_id),
        only_touches(state, state.clear_prime(dao_id).state, dao_id),
        only_touches(state, state.initialize_members(dao_id, list), dao_id),
{
}

/// Who was added is a member, and everybody else is one exactly if they were before.
pub proof fn law_add_adds_one<A: Ord>(state: State<A>, max: nat, dao_id: DaoId, who: A)
    requires
        lawful_order::<A>(),
        state.add_member(max, dao_id, who) is Ok,
    ensures
        ({
            let before = state.members_of(dao_id);
            let after = state.add_member(max, dao_id, who)->Ok_0.state.members_of(dao_id);
            &&& after.len() == before.len() + 1
            &&& forall|x: A| #[trigger] after.contains(x) <==> x == who || before.contains(x)
        }),
{
    let before = state.members_of(dao_id);
    let after = state.add_member(max, dao_id, who)->Ok_0.state.members_of(dao_id);
    lemma_ordered(before.push(who));
    lemma_push_contains(before, who);
}

/// A list contains what was pushed and what it held before.
proof fn lemma_push_contains<A>(s: Seq<A>, x: A)
    ensures
        forall|y: A| #[trigger] s.push(x).contains(y) <==> y == x || s.contains(y),
{
    assert forall|y: A| #[trigger] s.push(x).contains(y) <==> y == x || s.contains(y) by {
        if s.contains(y) {
            assert(s.push(x)[s.index_of(y)] == y);
        }
        assert(s.push(x).last() == x);
    }
}

/// Taking one occurrence out of a list without repetitions leaves none, and no repetitions.
proof fn lemma_distinct_minus<A>(s: Seq<A>, x: A)
    requires
        s.no_duplicates(),
        s.contains(x),
    ensures
        s.remove_value(x).no_duplicates(),
        !s.remove_value(x).contains(x),
{
    s.index_of_first_ensures(x);
}

/// Putting a list without repetitions in order makes none.
pub proof fn lemma_distinct_ordered<A: Ord>(s: Seq<A>)
    requires
        lawful_order::<A>(),
    ensures
        ordered(s).no_duplicates() <==> s.no_duplicates(),
{
    lemma_ordered(s);
    if s.no_duplicates() {
        s.lemma_multiset_has_no_duplicates();
        ordered(s).lemma_multiset_has_no_duplicates_conv();
    }
    if ordered(s).no_duplicates() {
        ordered(s).lemma_multiset_has_no_duplicates();
        s.lemma_multiset_has_no_duplicates_conv();
    }
}

/// Who was removed from a membership without repetitions is no member, and everybody else is one
/// exactly if they were before.
pub proof fn law_remove_removes_one<A: Ord>(state: State<A>, dao_id: DaoId, who: A)
    requires
        state.members_of(dao_id).no_duplicates(),
        state.remove_member(dao_id, who) is Ok,
    ensures
        ({
            let before = state.members_of(dao_id);
            let after = state.remove_member(dao_id, who)->Ok_0.state.members_of(dao_id);
            &&& after.len() == before.len() - 1
            &&& forall|x: A| #[trigger] after.contains(x) <==> x != who && before.contains(x)
        }),
{
    let before = state.members_of(dao_id);
    lemma_remove_value(before, who);
    lemma_distinct_minus(before, who);
}

/// After a member of a membership without repetitions was exchanged, the newcomer is a member,
/// who left is none, and everybody else is one exactly if they were before; their number is the
/// same.
pub proof fn law_swap_exchanges_one<A: Ord>(state: State<A>, dao_id: DaoId, remove: A, add: A)
    requires
        lawful_order::<A>(),
        state.members_of(dao_id).no_duplicates(),
        remove != add,
        state.swap_member(dao_id, remove, add) is Ok,
    ensures
        ({
            let before = state.members_of(dao_id);
            let after = state.swap_member(dao_id, remove, add)->Ok_0.state.members_of(dao_id);
            &&& after.len() == before.len()
            &&& forall|x: A| #[trigger]
                after.contains(x) <==> x == add || x != remove && before.contains(x)
        }),
{
    let before = state.members_of(dao_id);
    let rest = before.remove_value(remove);
    lemma_remove_value(before, remove);
    lemma_distinct_minus(before, remove);
    lemma_push_contains(rest, add);
    lemma_ordered(rest.push(add));
}

/// A change of key makes of the membership what exchanging the two accounts makes of it, where the
/// two differ, and it succeeds and fails alike.
pub proof fn law_change_key_swaps<A: Ord>(state: State<A>, dao_id: DaoId, remove: A, new: A)
    requires
        remove != new,
    ensures
        state.change_key(dao_id, remove, new) is Ok <==> state.swap_member(
            dao_id,
            remove,
            new,
        ) is Ok,
        state.change_key(dao_id, remove, new) matches Err(e) ==> state.swap_member(
            dao_id,
            remove,
            new,
        ) == Err::<Step<A>, Error>(e),
        state.change_key(dao_id, remove, new) matches Ok(step)
            ==> step.state.members_of(dao_id) == state.swap_member(
            dao_id,
            remove,
            new,
        )->Ok_0.state.members_of(dao_id),
{
}

/// Only a current member can change its key, be it for the one that it has.
pub proof fn law_only_members_change_keys<A: Ord>(
    state: State<A>,
    dao_id: DaoId,
    signer: A,
    new: A,
)
    requires
        !state.members_of(dao_id).contains(signer),
    ensures
        state.change_key(dao_id, signer, new) == Err::<Step<A>, Error>(Error::NotMember),
{
}

/// A reset and first members make members of exactly the accounts that are listed, each as often
/// as it is.
pub proof fn law_lists_are_taken_whole<A: Ord>(
    state: State<A>,
    max: nat,
    dao_id: DaoId,
    list: Seq<A>,
)
    requires
        lawful_order::<A>(),
    ensures
        state.reset_members(max, dao_id, list) matches Ok(step) ==> step.state.members_of(
            dao_id,
        ).to_multiset() == list.to_multiset(),
        state.initialize_members(dao_id, list).members_of(dao_id).to_multiset()
            == list.to_multiset(),
{
    lemma_ordered(list);
}

/// Who is set is the prime member, and nobody is once it is cleared.
pub proof fn law_prime_is_what_was_set<A: Ord>(state: State<A>, dao_id: DaoId, who: A)
    ensures
        state.set_prime(dao_id, who) is Ok <==> state.members_of(dao_id).contains(who),
        state.set_prime(dao_id, who) matches Ok(step) ==> step.state.prime_of(dao_id) == Some(who),
        state.clear_prime(dao_id).state.prime_of(dao_id) is None,
{
}

/// Prime membership is passed on with a key, and only then: when the prime member of a membership
/// without repetitions is exchanged, there is none afterwards.
pub proof fn law_prime_follows_the_key<A: Ord>(
    state: State<A>,
    dao_id: DaoId,
    prime: A,
    new: A,
)
    requires
        lawful_order::<A>(),
        state.members_of(dao_id).no_duplicates(),
        state.prime_of(dao_id) == Some(prime),
        prime != new,
    ensures
        state.change_key(dao_id, prime, new) matches Ok(step) ==> step.state.prime_of(dao_id)
            == Some(new),
        state.swap_member(dao_id, prime, new) matches Ok(step) ==> step.state.prime_of(dao_id)
            is None,
        state.remove_member(dao_id, prime) matches Ok(step) ==> step.state.prime_of(dao_id)
            is None,
{
    if state.members_of(dao_id).contains(prime) {
        law_remove_removes_one(state, dao_id, prime);
        if state.swap_member(dao_id, prime, new) is Ok {
            law_swap_exchanges_one(state, dao_id, prime, new);
        }
    }
}

/// A prime member who stays a member stays the prime member, whatever else changes.
pub proof fn law_prime_stays_while_a_member<A: Ord>(
    state: State<A>,
    max: nat,
    dao_id: DaoId,
    prime: A,
    who: A,
    other: A,
    list: Seq<A>,
)
    requires
        lawful_order::<A>(),
        state.valid(max),
        state.prime_of(dao_id) == Some(prime),
        prime != who,
    ensures
        state.add_member(max, dao_id, who) matches Ok(step) ==> step.state.prime_of(dao_id)
            == Some(prime),
        state.remove_member(dao_id, who) matches Ok(step) ==> step.state.prime_of(dao_id)
            == Some(prime),
        state.swap_member(dao_id, who, other) matches Ok(step) ==> step.state.prime_of(dao_id)
            == Some(prime),
        state.change_key(dao_id, who, other) matches Ok(step) ==> step.state.prime_of(dao_id)
            == Some(prime),
        list.contains(prime) ==> (state.reset_members(max, dao_id, list) matches Ok(step)
            ==> step.state.prime_of(dao_id) == Some(prime)),
{
    let before = state.members_of(dao_id);
    assert(before.contains(prime));
    if before.contains(who) {
        let rest = before.remove_value(who);
        lemma_remove_value(before, who);
        lemma_push_contains(rest, other);
        lemma_ordered(rest.push(other));
    }
    lemma_ordered(list);
}

/// Removing who was just added gives the membership back that was there before, and the prime
/// member.
pub proof fn law_remove_undoes_add<A: Ord>(state: State<A>, max: nat, dao_id: DaoId, who: A)
    requires
        lawful_order::<A>(),
        state.valid(max),
        state.add_member(max, dao_id, who) is Ok,
    ensures
        state.add_member(max, dao_id, who)->Ok_0.state.remove_member(dao_id, who) is Ok,
        ({
            let after = state.add_member(max, dao_id, who)->Ok_0.state.remove_member(
                dao_id,
                who,
            )->Ok_0.state;
            &&& after.members_of(dao_id) == state.members_of(dao_id)
            &&& after.prime_of(dao_id) == state.prime_of(dao_id)
        }),
{
    broadcast use vstd::multiset::group_multiset_axioms;

    let before = state.members_of(dao_id);
    let added = state.add_member(max, dao_id, who)->Ok_0.state;
    let middle = added.members_of(dao_id);
    law_add_adds_one(state, max, dao_id, who);
    assert(middle.contains(who));
    lemma_remove_value(middle, who);
    let i = middle.index_of(who);
    lemma_ordered(before.push(who));
    lemma_ordered_remove(middle, i);
    before.to_multiset_ensures();
    assert(middle.remove_value(who).to_multiset() =~= before.to_multiset());
    lemma_ordered_unique(before, middle.remove_value(who));
    assert(is_ordered(before));
    lemma_ordered_unique(before, before);
    if let Some(p) = state.prime_of(dao_id) {
        assert(before.contains(p));
    }
}

/// Exchanging two accounts back gives the membership back that was there before.
pub proof fn law_swap_back_undoes_swap<A: Ord>(
    state: State<A>,
    max: nat,
    dao_id: DaoId,
    remove: A,
    add: A,
)
    requires
        lawful_order::<A>(),
        state.valid(max),
        state.members_of(dao_id).no_duplicates(),
        state.swap_member(dao_id, remove, add) is Ok,
    ensures
        state.swap_member(dao_id, remove, add)->Ok_0.state.swap_member(dao_id, add, remove) is Ok,
        state.swap_member(dao_id, remove, add)->Ok_0.state.swap_member(
            dao_id,
            add,
            remove,
        )->Ok_0.state.members_of(dao_id) == state.members_of(dao_id),
{
    broadcast use vstd::multiset::group_multiset_axioms;

    if remove != add {
        let before = state.members_of(dao_id);
        let swapped = state.swap_member(dao_id, remove, add)->Ok_0.state;
        let middle = swapped.members_of(dao_id);
        let rest = before.remove_value(remove);
        law_swap_exchanges_one(state, dao_id, remove, add);
        assert(middle.contains(add));
        assert(!middle.contains(remove));
        lemma_remove_value(before, remove);
        lemma_remove_value(middle, add);
        lemma_ordered(rest.push(add));
        rest.to_multiset_ensures();
        let back = middle.remove_value(add);
        back.to_multiset_ensures();
        before.to_multiset_ensures();
        assert(before.to_multiset().count(remove) > 0);
        assert(back.push(remove).to_multiset() =~= before.to_multiset());
        assert(is_ordered(before));
        lemma_ordered_unique(back.push(remove), before);
    }
}

/// A reset disregards the existing membership and the order in which the new one is given.
pub proof fn law_reset_disregards_the_past<A: Ord>(
    state: State<A>,
    other: State<A>,
    max: nat,
    dao_id: DaoId,
    list: Seq<A>,
    shuffled: Seq<A>,
)
    requires
        lawful_order::<A>(),
        shuffled.to_multiset() == list.to_multiset(),
    ensures
        state.reset_members(max, dao_id, list) is Ok <==> other.reset_members(
            max,
            dao_id,
            shuffled,
        ) is Ok,
        state.reset_members(max, dao_id, list) matches Ok(step)
            ==> step.state.members_of(dao_id) == other.reset_members(
            max,
            dao_id,
            shuffled,
        )->Ok_0.state.members_of(dao_id),
{
    list.to_multiset_ensures();
    shuffled.to_multiset_ensures();
    lemma_ordered(list);
    lemma_ordered_unique(shuffled, ordered(list));
}

/// No membership holds an account twice.
pub open spec fn all_distinct<A: Ord>(state: State<A>) -> bool {
    forall|d: DaoId| (#[trigger] state.members_of(d)).no_duplicates()
}

/// A membership cannot come to hold an account twice, unless it is reset or initialized with a
/// list that does.
pub proof fn law_members_stay_distinct<A: Ord>(
    state: State<A>,
    max: nat,
    dao_id: DaoId,
    who: A,
    other: A,
    list: Seq<A>,
)
    requires
        lawful_order::<A>(),
        all_distinct(state),
    ensures
        state.add_member(max, dao_id, who) matches Ok(step) ==> all_distinct(step.state),
        state.remove_member(dao_id, who) matches Ok(step) ==> all_distinct(step.state),
        state.swap_member(dao_id, who, other) matches Ok(step) ==> all_distinct(step.state),
        state.change_key(dao_id, who, other) matches Ok(step) ==> all_distinct(step.state),
        state.set_prime(dao_id, who) matches Ok(step) ==> all_distinct(step.state),
        all_distinct(state.clear_prime(dao_id).state),
        state.reset_members(max, dao_id, list) matches Ok(step) ==> (all_distinct(step.state)
            <==> list.no_duplicates()),
        all_distinct(state.initialize_members(dao_id, list)) <==> list.no_duplicates(),
{
    law_changes_touch_one_organisation(state, max, dao_id, who, other, list);
    let before = state.members_of(dao_id);
    lemma_distinct_ordered(before.push(who));
    lemma_distinct_ordered(list);
    if before.contains(who) {
        let rest = before.remove_value(who);
        lemma_remove_value(before, who);
        lemma_distinct_minus(before, who);
        lemma_distinct_ordered(rest.push(other));
        if !before.contains(other) {
            assert(!rest.contains(other));
            assert(rest.push(other).no_duplicates());
        }
    }
    if let Ok(step) = state.reset_members(max, dao_id, list) {
        assert(step.state.members_of(dao_id) == ordered(list));
    }
    assert(state.initialize_members(dao_id, list).members_of(dao_id) == ordered(list));
}

/// All of `notices` are about one organisation.
pub open spec fn all_about<A>(notices: Seq<NoticeView<A>>, dao_id: DaoId) -> bool {
    forall|i: int| 0 <= i < notices.len() ==> (#[trigger] notices[i]).about() == dao_id
}

/// What is told of a change names the organisation that changed.
pub proof fn law_notices_name_the_organisation<A: Ord>(
    state: State<A>,
    max: nat,
    dao_id: DaoId,
    who: A,
    other: A,
    list: Seq<A>,
)
    ensures
        state.add_member(max, dao_id, who) matches Ok(step) ==> all_about(step.notices, dao_id),
        state.remove_member(dao_id, who) matches Ok(step) ==> all_about(step.notices, dao_id),
        state.swap_member(dao_id, who, other) matches Ok(step) ==> all_about(step.notices, dao_id),
        state.reset_members(max, dao_id, list) matches Ok(step) ==> all_about(step.notices, dao_id),
        state.change_key(dao_id, who, other) matches Ok(step) ==> all_about(step.notices, dao_id),
        state.set_prime(dao_id, who) matches Ok(step) ==> all_about(step.notices, dao_id),
        all_about(state.clear_prime(dao_id).notices, dao_id),
{
}

/// What a receiver knows that believes what it is told: it keeps the members of one organisation
/// and its prime member, and forgets the latter whenever that membership changes.
#[verifier::ext_equal]
pub struct Follower<A> {
    /// The organisation that it follows.
    pub dao_id: DaoId,
    /// The members that it knows of.
    pub members: Seq<A>,
    /// The prime member that it knows of.
    pub prime: Option<A>,
}

impl<A: Ord> Follower<A> {
    /// What it knows once it was told of one thing more. What is about another organisation leaves
    /// it unmoved.
    pub open spec fn hears(self, notice: NoticeView<A>) -> Follower<A> {
        if notice.about() != self.dao_id {
            self
        } else {
            match notice {
                NoticeView::MembersChanged { dao_id, incoming: _, outgoing: _, members } => {
                    Follower { dao_id, members, prime: None }
                },
                NoticeView::MembersSet { dao_id, members, before: _ } => {
                    Follower { dao_id, members, prime: None }
                },
                NoticeView::PrimeSet { dao_id, prime } => {
                    Follower { dao_id, members: self.members, prime }
                },
            }
        }
    }

    /// What it knows once it was told of all of `notices`, one after the other.
    pub open spec fn hears_all(self, notices: Seq<NoticeView<A>>) -> Follower<A>
        decreases notices.len(),
    {
        if notices.len() == 0 {
            self
        } else {
            self.hears(notices[0]).hears_all(notices.drop_first())
        }
    }

    /// It knows the members of its organisation.
    pub open spec fn knows_members(self, state: State<A>) -> bool {
        self.members == state.members_of(self.dao_id)
    }

    /// It knows the members of its organisation and the prime member.
    pub open spec fn in_step(self, state: State<A>) -> bool {
        self.knows_members(state) && self.prime == state.prime_of(self.dao_id)
    }
}

/// What a receiver knows after two lists of notices.
proof fn lemma_hears_more<A: Ord>(f: Follower<A>, a: Seq<NoticeView<A>>, b: Seq<NoticeView<A>>)
    ensures
        f.hears_all(a + b) == f.hears_all(a).hears_all(b),
    decreases a.len(),
{
    if a.len() == 0 {
        assert(a + b =~= b);
    } else {
        assert((a + b).drop_first() =~= a.drop_first() + b);
        lemma_hears_more(f.hears(a[0]), a.drop_first(), b);
    }
}

/// A receiver keeps to its organisation.
proof fn lemma_hears_on<A: Ord>(f: Follower<A>, notices: Seq<NoticeView<A>>)
    ensures
        f.hears_all(notices).dao_id == f.dao_id,
    decreases notices.len(),
{
    if notices.len() > 0 {
        lemma_hears_on(f.hears(notices[0]), notices.drop_first());
    }
}

/// A receiver learns nothing from notices about another organisation.
proof fn lemma_hears_nothing<A: Ord>(f: Follower<A>, notices: Seq<NoticeView<A>>, dao_id: DaoId)
    requires
        all_about(notices, dao_id),
        f.dao_id != dao_id,
    ensures
        f.hears_all(notices) == f,
    decreases notices.len(),
{
    if notices.len() > 0 {
        assert(notices[0].about() == dao_id);
        assert forall|i: int| 0 <= i < notices.drop_first().len() implies (
        #[trigger] notices.drop_first()[i]).about() == dao_id by {
            assert(notices.drop_first()[i] == notices[i + 1]);
        }
        lemma_hears_nothing(f, notices.drop_first(), dao_id);
    }
}

/// What a receiver knows after one notice, and after two.
proof fn lemma_hears_few<A: Ord>(f: Follower<A>, notices: Seq<NoticeView<A>>)
    ensures
        notices.len() == 0 ==> f.hears_all(notices) == f,
        notices.len() == 1 ==> f.hears_all(notices) == f.hears(notices[0]),
        notices.len() == 2 ==> f.hears_all(notices) == f.hears(notices[0]).hears(notices[1]),
{
    reveal_with_fuel(Follower::hears_all, 3);
}

/// What a receiver knows after each change of its organisation: the members, and of the prime
/// member what it was told.
proof fn lemma_hears_a_change<A: Ord>(
    f: Follower<A>,
    state: State<A>,
    max: nat,
    who: A,
    other: A,
    list: Seq<A>,
)
    requires
        f.knows_members(state),
    ensures
        state.add_member(max, f.dao_id, who) matches Ok(step) ==> f.hears_all(step.notices)
            == (Follower { members: step.state.members_of(f.dao_id), prime: None, ..f }),
        state.remove_member(f.dao_id, who) matches Ok(step) ==> f.hears_all(step.notices) == (
        Follower {
            members: step.state.members_of(f.dao_id),
            prime: step.state.prime_of(f.dao_id),
            ..f
        }),
        state.swap_member(f.dao_id, who, other) matches Ok(step) ==> f.hears_all(step.notices) == (
        if who == other {
            f
        } else {
            Follower {
                members: step.state.members_of(f.dao_id),
                prime: step.state.prime_of(f.dao_id),
                ..f
            }
        }),
        state.reset_members(max, f.dao_id, list) matches Ok(step) ==> f.hears_all(step.notices) == (
        Follower {
            members: step.state.members_of(f.dao_id),
            prime: step.state.prime_of(f.dao_id),
            ..f
        }),
        state.change_key(f.dao_id, who, other) matches Ok(step) ==> f.hears_all(step.notices) == (
        if who == other {
            f
        } else {
            Follower {
                members: step.state.members_of(f.dao_id),
                prime: if state.prime_of(f.dao_id) == Some(who) {
                    Some(other)
                } else {
                    None
                },
                ..f
            }
        }),
        state.set_prime(f.dao_id, who) matches Ok(step) ==> f.hears_all(step.notices) == (
        Follower { prime: Some(who), ..f }),
        f.hears_all(state.clear_prime(f.dao_id).notices) == (Follower { prime: None, ..f }),
{
    if let Ok(step) = state.add_member(max, f.dao_id, who) {
        lemma_hears_few(f, step.notices);
    }
    if let Ok(step) = state.remove_member(f.dao_id, who) {
        lemma_hears_few(f, step.notices);
    }
    if let Ok(step) = state.swap_member(f.dao_id, who, other) {
        lemma_hears_few(f, step.notices);
    }
    if let Ok(step) = state.reset_members(max, f.dao_id, list) {
        lemma_hears_few(f, step.notices);
    }
    if let Ok(step) = state.change_key(f.dao_id, who, other) {
        lemma_hears_few(f, step.notices);
    }
    if let Ok(step) = state.set_prime(f.dao_id, who) {
        lemma_hears_few(f, step.notices);
    }
    lemma_hears_few(f, state.clear_prime(f.dao_id).notices);
}

/// A receiver of another organisation learns nothing of each change.
proof fn lemma_hears_no_change<A: Ord>(
    f: Follower<A>,
    state: State<A>,
    max: nat,
    dao_id: DaoId,
    who: A,
    other: A,
    list: Seq<A>,
)
    requires
        f.dao_id != dao_id,
    ensures
        state.add_member(max, dao_id, who) matches Ok(step) ==> f.hears_all(step.notices) == f,
        state.remove_member(dao_id, who) matches Ok(step) ==> f.hears_all(step.notices) == f,
        state.swap_member(dao_id, who, other) matches Ok(step) ==> f.hears_all(step.notices) == f,
        state.reset_members(max, dao_id, list) matches Ok(step) ==> f.hears_all(step.notices) == f,
        state.change_key(dao_id, who, other) matches Ok(step) ==> f.hears_all(step.notices) == f,
        state.set_prime(dao_id, who) matches Ok(step) ==> f.hears_all(step.notices) == f,
        f.hears_all(state.clear_prime(dao_id).notices) == f,
{
    law_notices_name_the_organisation(state, max, dao_id, who, other, list);
    if let Ok(step) = state.add_member(max, dao_id, who) {
        lemma_hears_nothing(f, step.notices, dao_id);
    }
    if let Ok(step) = state.remove_member(dao_id, who) {
        lemma_hears_nothing(f, step.notices, dao_id);
    }
    if let Ok(step) = state.swap_member(dao_id, who, other) {
        lemma_hears_nothing(f, step.notices, dao_id);
    }
    if let Ok(step) = state.reset_members(max, dao_id, list) {
        lemma_hears_nothing(f, step.notices, dao_id);
    }
    if let Ok(step) = state.change_key(dao_id, who, other) {
        lemma_hears_nothing(f, step.notices, dao_id);
    }
    if let Ok(step) = state.set_prime(dao_id, who) {
        lemma_hears_nothing(f, step.notices, dao_id);
    }
    lemma_hears_nothing(f, state.clear_prime(dao_id).notices, dao_id);
}

/// A receiver that knew the members of its organisation knows them after every change that it was
/// told of, of that organisation or another.
pub proof fn law_receiver_knows_the_members<A: Ord>(
    f: Follower<A>,
    state: State<A>,
    max: nat,
    dao_id: DaoId,
    who: A,
    other: A,
    list: Seq<A>,
)
    requires
        f.knows_members(state),
    ensures
        state.add_member(max, dao_id, who) matches Ok(step)
            ==> f.hears_all(step.notices).knows_members(step.state),
        state.remove_member(dao_id, who) matches Ok(step)
            ==> f.hears_all(step.notices).knows_members(step.state),
        state.swap_member(dao_id, who, other) matches Ok(step)
            ==> f.hears_all(step.notices).knows_members(step.state),
        state.reset_members(max, dao_id, list) matches Ok(step)
            ==> f.hears_all(step.notices).knows_members(step.state),
        state.change_key(dao_id, who, other) matches Ok(step)
            ==> f.hears_all(step.notices).knows_members(step.state),
        state.set_prime(dao_id, who) matches Ok(step)
            ==> f.hears_all(step.notices).knows_members(step.state),
        f.hears_all(state.clear_prime(dao_id).notices).knows_members(
            state.clear_prime(dao_id).state,
        ),
{
    if f.dao_id == dao_id {
        lemma_hears_a_change(f, state, max, who, other, list);
    } else {
        lemma_hears_no_change(f, state, max, dao_id, who, other, list);
        law_changes_touch_one_organisation(state, max, dao_id, who, other, list);
    }
}

/// A receiver that was in step with its organisation is in step after every change that it was told
/// of. This leaves out two changes that pass over a prime member in silence: a member is added, and
/// a member who is not the prime member changes its key.
pub proof fn law_receiver_stays_in_step<A: Ord>(
    f: Follower<A>,
    state: State<A>,
    max: nat,
    dao_id: DaoId,
    who: A,
    other: A,
    list: Seq<A>,
)
    requires
        f.in_step(state),
    ensures
        (f.dao_id != dao_id || state.prime_of(dao_id) is None) ==> (
        state.add_member(max, dao_id, who) matches Ok(step)
            ==> f.hears_all(step.notices).in_step(step.state)),
        state.remove_member(dao_id, who) matches Ok(step)
            ==> f.hears_all(step.notices).in_step(step.state),
        state.swap_member(dao_id, who, other) matches Ok(step)
            ==> f.hears_all(step.notices).in_step(step.state),
        state.reset_members(max, dao_id, list) matches Ok(step)
            ==> f.hears_all(step.notices).in_step(step.state),
        (f.dao_id != dao_id || state.prime_of(dao_id) is None || state.prime_of(dao_id) == Some(who)
            || who == other) ==> (state.change_key(dao_id, who, other) matches Ok(step)
                ==> f.hears_all(step.notices).in_step(step.state)),
        state.set_prime(dao_id, who) matches Ok(step)
            ==> f.hears_all(step.notices).in_step(step.state),
        f.hears_all(state.clear_prime(dao_id).notices).in_step(state.clear_prime(dao_id).state),
{
    if f.dao_id == dao_id {
        lemma_hears_a_change(f, state, max, who, other, list);
    } else {
        lemma_hears_no_change(f, state, max, dao_id, who, other, list);
        law_changes_touch_one_organisation(state, max, dao_id, who, other, list);
    }
}

/// A notice accounts for everybody: the members from before and who joined are the members now and
/// who left.
pub open spec fn balanced<A>(before: Seq<A>, notice: NoticeView<A>) -> bool {
    match notice {
        NoticeView::MembersChanged { dao_id: _, incoming, outgoing, members } => {
            (before + incoming).to_multiset() == (members + outgoing).to_multiset()
        },
        NoticeView::MembersSet { dao_id: _, members: _, before: told } => told == before,
        NoticeView::PrimeSet { .. } => true,
    }
}

/// All of `notices` are about one organisation, and account for everybody in it.
pub open spec fn all_balanced<A>(
    before: Seq<A>,
    notices: Seq<NoticeView<A>>,
    dao_id: DaoId,
) -> bool {
    &&& all_about(notices, dao_id)
    &&& forall|i: int| 0 <= i < notices.len() ==> balanced(before, #[trigger] notices[i])
}

/// What a receiver is told of a change names the organisation that changed, and accounts for
/// everybody in it.
pub proof fn law_notices_balance<A: Ord>(
    state: State<A>,
    max: nat,
    dao_id: DaoId,
    who: A,
    other: A,
    list: Seq<A>,
)
    requires
        lawful_order::<A>(),
    ensures
        state.add_member(max, dao_id, who) matches Ok(step)
            ==> all_balanced(state.members_of(dao_id), step.notices, dao_id),
        state.remove_member(dao_id, who) matches Ok(step)
            ==> all_balanced(state.members_of(dao_id), step.notices, dao_id),
        state.swap_member(dao_id, who, other) matches Ok(step)
            ==> all_balanced(state.members_of(dao_id), step.notices, dao_id),
        state.reset_members(max, dao_id, list) matches Ok(step)
            ==> all_balanced(state.members_of(dao_id), step.notices, dao_id),
        state.change_key(dao_id, who, other) matches Ok(step)
            ==> all_balanced(state.members_of(dao_id), step.notices, dao_id),
        state.set_prime(dao_id, who) matches Ok(step)
            ==> all_balanced(state.members_of(dao_id), step.notices, dao_id),
        all_balanced(state.members_of(dao_id), state.clear_prime(dao_id).notices, dao_id),
{
    broadcast use vstd::multiset::group_multiset_axioms;

    law_notices_name_the_organisation(state, max, dao_id, who, other, list);
    let before = state.members_of(dao_id);
    let none = Seq::<A>::empty();
    before.to_multiset_ensures();
    assert(before + none =~= before);
    assert(before + seq![who] =~= before.push(who));
    assert(before + seq![other] =~= before.push(other));
    lemma_ordered(before.push(who));
    assert(ordered(before.push(who)) + none =~= ordered(before.push(who)));
    if before.contains(who) {
        let rest = before.remove_value(who);
        let after = ordered(rest.push(other));
        lemma_remove_value(before, who);
        rest.to_multiset_ensures();
        after.to_multiset_ensures();
        lemma_ordered(rest.push(other));
        assert(before.to_multiset().count(who) > 0);
        assert(rest + seq![who] =~= rest.push(who));
        assert(after + seq![who] =~= after.push(who));
        assert(rest.push(who).to_multiset() =~= before.to_multiset());
        assert(after.push(who).to_multiset() =~= before.push(other).to_multiset());
    }
}

/// A call that fails changes nothing that is registered, and nobody is told anything. One that
/// succeeds was approved, makes the change that it is for, and what is told of that change is all
/// that is told.
pub proof fn law_failed_calls_change_nothing<T: Config, const MAX_MEMBERS: u32>(
    before: Pallet<T, MAX_MEMBERS>,
    after: Pallet<T, MAX_MEMBERS>,
    origin: T::Origin,
    dao_id: DaoId,
    change: Change,
    expected: Result<Step<T::AccountId>, Error>,
    r: CallResult,
)
    requires
        before.decided(after, origin, dao_id, change, expected, r),
    ensures
        after.handed() == before.handed(),
        r is Err ==> after@ == before@ && after.heard() == before.heard(),
        r is Ok ==> {
            &&& expected matches Ok(step)
            &&& after@ == step.state
            &&& after.heard() == before.heard() + step.notices
        },
{
}

/// What a receiver knows that heard all that a register told, once a call was settled.
proof fn lemma_hears_a_call<T: Config, const MAX_MEMBERS: u32>(
    f: Follower<T::AccountId>,
    before: Pallet<T, MAX_MEMBERS>,
    after: Pallet<T, MAX_MEMBERS>,
    expected: Result<Step<T::AccountId>, Error>,
    r: CallResult,
)
    requires
        r is Err ==> after.heard() == before.heard(),
        r is Ok ==> (expected matches Ok(step) && after.heard() == before.heard() + step.notices),
    ensures
        r is Err ==> f.hears_all(after.heard()) == f.hears_all(before.heard()),
        r is Ok ==> f.hears_all(after.heard()) == f.hears_all(before.heard()).hears_all(
            expected->Ok_0.notices,
        ),
{
    if let Ok(step) = expected {
        lemma_hears_more(f, before.heard(), step.notices);
    }
}

/// What becomes of a register and of a receiver that heard all that it told, once a call was
/// decided.
proof fn lemma_hears_a_decision<T: Config, const MAX_MEMBERS: u32>(
    f: Follower<T::AccountId>,
    before: Pallet<T, MAX_MEMBERS>,
    after: Pallet<T, MAX_MEMBERS>,
    origin: T::Origin,
    dao_id: DaoId,
    change: Change,
    expected: Result<Step<T::AccountId>, Error>,
    r: CallResult,
)
    ensures
        before.decided(after, origin, dao_id, change, expected, r) ==> {
            &&& r is Err ==> after@ == before@ && f.hears_all(after.heard()) == f.hears_all(
                before.heard(),
            )
            &&& r is Ok ==> {
                &&& expected matches Ok(step)
                &&& after@ == step.state
                &&& f.hears_all(after.heard()) == f.hears_all(before.heard()).hears_all(
                    step.notices,
                )
            }
        },
{
    if before.decided(after, origin, dao_id, change, expected, r) {
        law_failed_calls_change_nothing(before, after, origin, dao_id, change, expected, r);
        lemma_hears_a_call(f, before, after, expected, r);
    }
}

/// A receiver that knew the members of its organisation from what a register told so far knows them
/// after every call, whoever makes it and whatever becomes of it.
pub proof fn law_calls_keep_receivers_informed<T: Config, const MAX_MEMBERS: u32>(
    f: Follower<T::AccountId>,
    before: Pallet<T, MAX_MEMBERS>,
    after: Pallet<T, MAX_MEMBERS>,
    origin: T::Origin,
    dao_id: DaoId,
    who: T::AccountId,
    other: T::AccountId,
    list: Seq<T::AccountId>,
    r: CallResult,
)
    requires
        f.hears_all(before.heard()).knows_members(before@),
    ensures
        before.decided(
            after,
            origin,
            dao_id,
            Change::Add,
            before@.add_member(MAX_MEMBERS as nat, dao_id, who),
            r,
        ) ==> f.hears_all(after.heard()).knows_members(after@),
        before.decided(
            after,
            origin,
            dao_id,
            Change::Remove,
            before@.remove_member(dao_id, who),
            r,
        ) ==> f.hears_all(after.heard()).knows_members(after@),
        before.decided(
            after,
            origin,
            dao_id,
            Change::Swap,
            before@.swap_member(dao_id, who, other),
            r,
        ) ==> f.hears_all(after.heard()).knows_members(after@),
        before.decided(
            after,
            origin,
            dao_id,
            Change::Reset,
            before@.reset_members(MAX_MEMBERS as nat, dao_id, list),
            r,
        ) ==> f.hears_all(after.heard()).knows_members(after@),
        before.decided(
            after,
            origin,
            dao_id,
            Change::Prime,
            before@.set_prime(dao_id, who),
            r,
        ) ==> f.hears_all(after.heard()).knows_members(after@),
        before.decided(
            after,
            origin,
            dao_id,
            Change::Prime,
            Ok(before@.clear_prime(dao_id)),
            r,
        ) ==> f.hears_all(after.heard()).knows_members(after@),
        before.settled(
            after,
            Ok(()),
            before@.change_key(dao_id, who, other),
            r,
        ) ==> f.hears_all(after.heard()).knows_members(after@),
{
    let max = MAX_MEMBERS as nat;
    let knowing = f.hears_all(before.heard());
    let state = before@;
    law_receiver_knows_the_members(knowing, state, max, dao_id, who, other, list);
    let expected = state.add_member(max, dao_id, who);
    lemma_hears_a_decision(f, before, after, origin, dao_id, Change::Add, expected, r);
    let expected = state.remove_member(dao_id, who);
    lemma_hears_a_decision(f, before, after, origin, dao_id, Change::Remove, expected, r);
    let expected = state.swap_member(dao_id, who, other);
    lemma_hears_a_decision(f, before, after, origin, dao_id, Change::Swap, expected, r);
    let expected = state.reset_members(max, dao_id, list);
    lemma_hears_a_decision(f, before, after, origin, dao_id, Change::Reset, expected, r);
    let expected = state.set_prime(dao_id, who);
    lemma_hears_a_decision(f, before, after, origin, dao_id, Change::Prime, expected, r);
    let expected = Ok(state.clear_prime(dao_id));
    lemma_hears_a_decision(f, before, after, origin, dao_id, Change::Prime, expected, r);
    let expected = state.change_key(dao_id, who, other);
    if before.settled(after, Ok(()), expected, r) {
        lemma_hears_a_call(f, before, after, expected, r);
    }
}

/// A receiver that was in step with its organisation from what a register told so far is in step
/// after every call, whoever makes it and whatever becomes of it. This leaves out the two calls
/// that pass over a prime member in silence, where they succeed: a member is added, and a member
/// who is not the prime member changes its key.
pub proof fn law_calls_keep_receivers_in_step<T: Config, const MAX_MEMBERS: u32>(
    f: Follower<T::AccountId>,
    before: Pallet<T, MAX_MEMBERS>,
    after: Pallet<T, MAX_MEMBERS>,
    origin: T::Origin,
    dao_id: DaoId,
    who: T::AccountId,
    other: T::AccountId,
    list: Seq<T::AccountId>,
    r: CallResult,
)
    requires
        f.hears_all(before.heard()).in_step(before@),
    ensures
        before.decided(
            after,
            origin,
            dao_id,
            Change::Add,
            before@.add_member(MAX_MEMBERS as nat, dao_id, who),
            r,
        ) && (r is Err || f.dao_id != dao_id || before@.prime_of(dao_id) is None)
            ==> f.hears_all(after.heard()).in_step(after@),
        before.decided(
            after,
            origin,
            dao_id,
            Change::Remove,
            before@.remove_member(dao_id, who),
            r,
        ) ==> f.hears_all(after.heard()).in_step(after@),
        before.decided(
            after,
            origin,
            dao_id,
            Change::Swap,
            before@.swap_member(dao_id, who, other),
            r,
        ) ==> f.hears_all(after.heard()).in_step(after@),
        before.decided(
            after,
            origin,
            dao_id,
            Change::Reset,
            before@.reset_members(MAX_MEMBERS as nat, dao_id, list),
            r,
        ) ==> f.hears_all(after.heard()).in_step(after@),
        before.decided(
            after,
            origin,
            dao_id,
            Change::Prime,
            before@.set_prime(dao_id, who),
            r,
        ) ==> f.hears_all(after.heard()).in_step(after@),
        before.decided(
            after,
            origin,
            dao_id,
            Change::Prime,
            Ok(before@.clear_prime(dao_id)),
            r,
        ) ==> f.hears_all(after.heard()).in_step(after@),
        before.settled(
            after,
            Ok(()),
            before@.change_key(dao_id, who, other),
            r,
        ) && (r is Err || f.dao_id != dao_id || before@.prime_of(dao_id) is None
            || before@.prime_of(dao_id) == Some(who) || who == other)
                ==> f.hears_all(after.heard()).in_step(after@),
{
    let max = MAX_MEMBERS as nat;
    let knowing = f.hears_all(before.heard());
    let state = before@;
    lemma_hears_on(f, before.heard());
    law_receiver_stays_in_step(knowing, state, max, dao_id, who, other, list);
    let expected = state.add_member(max, dao_id, who);
    lemma_hears_a_decision(f, before, after, origin, dao_id, Change::Add, expected, r);
    let expected = state.remove_member(dao_id, who);
    lemma_hears_a_decision(f, before, after, origin, dao_id, Change::Remove, expected, r);
    let expected = state.swap_member(dao_id, who, other);
    lemma_hears_a_decision(f, before, after, origin, dao_id, Change::Swap, expected, r);
    let expected = state.reset_members(max, dao_id, list);
    lemma_hears_a_decision(f, before, after, origin, dao_id, Change::Reset, expected, r);
    let expected = state.set_prime(dao_id, who);
    lemma_hears_a_decision(f, before, after, origin, dao_id, Change::Prime, expected, r);
    let expected = Ok(state.clear_prime(dao_id));
    lemma_hears_a_decision(f, before, after, origin, dao_id, Change::Prime, expected, r);
    let expected = state.change_key(dao_id, who, other);
    if before.settled(after, Ok(()), expected, r) {
        lemma_hears_a_call(f, before, after, expected, r);
    }
}

}
