//! The register of memberships: it carries changes out that have been approved, and says what the
//! receivers of such changes are to be told.
use crate::bounded::{
    as_slice, contents, duplicate, empty, into_vec, remove, replace, sort, try_from_vec, try_insert,
};
use crate::model::{
    lemma_add_member_valid, lemma_change_key_valid, lemma_clear_prime_valid,
    lemma_initialize_members_valid, lemma_remove_member_valid, lemma_reset_members_valid,
    lemma_set_prime_valid, lemma_swap_member_valid, NoticeView, State, Step,
};
use crate::order::{
    binary_search, copied, is_ordered, lawful_account, lemma_comparisons, lemma_ordered,
    lemma_ordered_exchange, lemma_ordered_insert, lemma_ordered_remove, lemma_ordered_unique,
    ordered,
};
use crate::types::{DaoId, Error, Event};
use frame_support::sp_runtime::DispatchError;
use frame_support::traits::ConstU32;
use frame_support::BoundedVec;
use std::collections::BTreeMap;
use vstd::prelude::*;

verus! {

broadcast use {vstd::std_specs::btree::group_btree_axioms, vstd::laws_cmp::group_laws_cmp};

/// What the receiver of changes is told of a membership.
#[derive(Debug)]
pub enum Notice<A> {
    /// `incoming` joined and `outgoing` left, which makes `members` the membership, in order.
    MembersChanged { dao_id: DaoId, incoming: Vec<A>, outgoing: Vec<A>, members: Vec<A> },
    /// `members` is the membership now, in order, and `before` was until now.
    MembersSet { dao_id: DaoId, members: Vec<A>, before: Vec<A> },
    /// `prime` is the prime member now, if there is one.
    PrimeSet { dao_id: DaoId, prime: Option<A> },
}

impl<A> View for Notice<A> {
    type V = NoticeView<A>;

    open spec fn view(&self) -> NoticeView<A> {
        match *self {
            Notice::MembersChanged { dao_id, incoming, outgoing, members } => {
                NoticeView::MembersChanged {
                    dao_id,
                    incoming: incoming@,
                    outgoing: outgoing@,
                    members: members@,
                }
            },
            Notice::MembersSet { dao_id, members, before } => NoticeView::MembersSet {
                dao_id,
                members: members@,
                before: before@,
            },
            Notice::PrimeSet { dao_id, prime } => NoticeView::PrimeSet { dao_id, prime },
        }
    }
}

/// What a list of notices says.
pub open spec fn notice_views<A>(notices: Seq<Notice<A>>) -> Seq<NoticeView<A>> {
    notices.map_values(|n: Notice<A>| n@)
}

/// The memberships of all organisations, each of at most `MAX_MEMBERS` members.
#[verifier::reject_recursive_types(A)]
#[verifier::reject_recursive_types(MAX_MEMBERS)]
pub struct Membership<A, const MAX_MEMBERS: u32> {
    members: BTreeMap<DaoId, BoundedVec<A, ConstU32<MAX_MEMBERS>>>,
    prime: BTreeMap<DaoId, A>,
    events: Vec<Event>,
}

impl<A, const MAX_MEMBERS: u32> View for Membership<A, MAX_MEMBERS> {
    type V = State<A>;

    closed spec fn view(&self) -> State<A> {
        State {
            members: self.members@.map_values(
                |v: BoundedVec<A, ConstU32<MAX_MEMBERS>>| contents(v),
            ),
            prime: self.prime@,
            events: self.events@,
        }
    }
}

/// A change came out as expected: with the notices and the state that it leads to, or refused,
/// with the state as it was.
pub open spec fn carried_out<A: Ord>(
    before: State<A>,
    after: State<A>,
    expected: Result<Step<A>, Error>,
    r: Result<Vec<Notice<A>>, Error>,
) -> bool {
    match expected {
        Ok(step) => {
            &&& r matches Ok(notices) && notice_views(notices@) == step.notices
            &&& after == step.state
        },
        Err(error) => {
            &&& r matches Err(e) && e == error
            &&& after == before
        },
    }
}

impl<A: Ord + Clone, const MAX_MEMBERS: u32> Membership<A, MAX_MEMBERS> {
    /// The accounts are lawful, and what is registered is valid.
    pub open spec fn wf(&self) -> bool {
        &&& lawful_account::<A>()
        &&& self@.valid(MAX_MEMBERS as nat)
    }

    /// A register without members, prime members and events.
    pub fn new() -> (r: Self)
        requires
            lawful_account::<A>(),
        ensures
            r.wf(),
            r@ == State::<A>::vacant(),
    {
        let r = Membership { members: BTreeMap::new(), prime: BTreeMap::new(), events: Vec::new() };
        assert(r@ =~= State::vacant());
        r
    }

    /// The members of an organisation.
    pub fn members(&self, dao_id: DaoId) -> (r: BoundedVec<A, ConstU32<MAX_MEMBERS>>)
        requires
            lawful_account::<A>(),
        ensures
            contents(r) == self@.members_of(dao_id),
    {
        match self.members.get(&dao_id) {
            Some(members) => {
                let r = duplicate(members);
                assert(contents(r) =~= contents(*members));
                r
            },
            None => {
                let r = empty();
                assert(contents(r) =~= Seq::empty());
                r
            },
        }
    }

    /// The prime member of an organisation.
    pub fn prime(&self, dao_id: DaoId) -> (r: Option<A>)
        requires
            lawful_account::<A>(),
        ensures
            r == self@.prime_of(dao_id),
    {
        match self.prime.get(&dao_id) {
            Some(prime) => {
                let r = prime.clone();
                assert(cloned(*prime, r));
                Some(r)
            },
            None => None,
        }
    }

    /// Adds `who` to the members.
    pub fn add_member(&mut self, dao_id: DaoId, who: A) -> (r: Result<Vec<Notice<A>>, Error>)
        requires
            old(self).wf(),
        ensures
            final(self).wf(),
            carried_out(
                old(self)@,
                final(self)@,
                old(self)@.add_member(MAX_MEMBERS as nat, dao_id, who),
                r,
            ),
    {
        let ghost before = self@.members_of(dao_id);
        let mut members = self.members(dao_id);
        let location = match binary_search(as_slice(&members), &who) {
            Ok(_) => return Err(Error::AlreadyMember),
            Err(location) => location,
        };
        let newcomer = who.clone();
        assert(cloned(who, newcomer));
        if try_insert(&mut members, location, newcomer).is_err() {
            return Err(Error::TooManyMembers);
        }
        proof {
            lemma_ordered_insert(before, who, location as int);
            lemma_ordered(before.push(who));
        }
        let list = copied(as_slice(&members));
        self.members.insert(dao_id, members);
        self.events.push(Event::MemberAdded);
        let told = Notice::MembersChanged {
            dao_id,
            incoming: vec![who],
            outgoing: vec![],
            members: list,
        };
        let r = vec![told];
        proof {
            let expected = old(self)@.add_member(MAX_MEMBERS as nat, dao_id, who)->Ok_0;
            assert(self@ =~= expected.state);
            assert(notice_views(r@) =~~= expected.notices);
            lemma_add_member_valid(old(self)@, MAX_MEMBERS as nat, dao_id, who);
        }
        Ok(r)
    }

    /// The prime member loses its place unless it is among `members`; if it keeps the place, the
    /// receiver is to be told who it is.
    fn rejig_prime(&mut self, dao_id: DaoId, members: &[A], notices: &mut Vec<Notice<A>>)
        requires
            lawful_account::<A>(),
            is_ordered(members@),
        ensures
            final(self)@ == old(self)@.rejigged(dao_id, members@),
            notice_views(final(notices)@) == notice_views(old(notices)@)
                + old(self)@.rejig_notices(dao_id, members@),
    {
        match self.prime(dao_id) {
            Some(prime) => {
                match binary_search(members, &prime) {
                    Ok(_) => {
                        notices.push(Notice::PrimeSet { dao_id, prime: Some(prime) });
                    },
                    Err(_) => {
                        self.prime.remove(&dao_id);
                    },
                }
            },
            None => {},
        }
        assert(self@ =~= old(self)@.rejigged(dao_id, members@));
        assert(notice_views(notices@) =~~= notice_views(old(notices)@)
            + old(self)@.rejig_notices(dao_id, members@));
    }

    /// Removes `who` from the members.
    pub fn remove_member(&mut self, dao_id: DaoId, who: A) -> (r: Result<Vec<Notice<A>>, Error>)
        requires
            old(self).wf(),
        ensures
            final(self).wf(),
            carried_out(old(self)@, final(self)@, old(self)@.remove_member(dao_id, who), r),
    {
        let ghost before = self@.members_of(dao_id);
        let mut members = self.members(dao_id);
        let location = match binary_search(as_slice(&members), &who) {
            Ok(location) => location,
            Err(_) => return Err(Error::NotMember),
        };
        let _ = remove(&mut members, location);
        proof {
            lemma_ordered_remove(before, location as int);
        }
        let list = copied(as_slice(&members));
        let mut r = vec![
            Notice::MembersChanged {
                dao_id,
                incoming: vec![],
                outgoing: vec![who],
                members: copied(as_slice(&members)),
            },
        ];
        self.members.insert(dao_id, members);
        self.rejig_prime(dao_id, list.as_slice(), &mut r);
        self.events.push(Event::MemberRemoved);
        proof {
            let expected = old(self)@.remove_member(dao_id, who)->Ok_0;
            assert(self@ =~= expected.state);
            assert(notice_views(r@) =~~= expected.notices);
            lemma_remove_member_valid(old(self)@, MAX_MEMBERS as nat, dao_id, who);
        }
        Ok(r)
    }

    /// The members with `add` in the seat of `remove`, put in order.
    fn exchanged(&self, dao_id: DaoId, remove: &A, add: A) -> (r: Result<
        BoundedVec<A, ConstU32<MAX_MEMBERS>>,
        Error,
    >)
        requires
            self.wf(),
        ensures
            r == Err::<BoundedVec<A, ConstU32<MAX_MEMBERS>>, Error>(Error::NotMember)
                <==> !self@.members_of(dao_id).contains(*remove),
            r == Err::<BoundedVec<A, ConstU32<MAX_MEMBERS>>, Error>(Error::AlreadyMember)
                <==> self@.members_of(dao_id).contains(*remove) && self@.members_of(
                dao_id,
            ).contains(add),
            r matches Ok(members) ==> contents(members) == ordered(
                self@.members_of(dao_id).remove_value(*remove).push(add),
            ),
            !(r matches Err(Error::TooManyMembers)),
    {
        let ghost before = self@.members_of(dao_id);
        let mut members = self.members(dao_id);
        let location = match binary_search(as_slice(&members), remove) {
            Ok(location) => location,
            Err(_) => return Err(Error::NotMember),
        };
        if binary_search(as_slice(&members), &add).is_ok() {
            return Err(Error::AlreadyMember);
        }
        replace(&mut members, location, add);
        sort(&mut members);
        proof {
            lemma_ordered_unique(before.update(location as int, add), contents(members));
            lemma_ordered_exchange(before, location as int, add);
        }
        Ok(members)
    }

    /// Gives the seat of `remove` to `add`. Prime membership is not passed on.
    pub fn swap_member(&mut self, dao_id: DaoId, remove: A, add: A) -> (r: Result<
        Vec<Notice<A>>,
        Error,
    >)
        requires
            old(self).wf(),
        ensures
            final(self).wf(),
            carried_out(old(self)@, final(self)@, old(self)@.swap_member(dao_id, remove, add), r),
    {
        proof {
            lemma_comparisons::<A>();
        }
        if remove == add {
            let r: Vec<Notice<A>> = vec![];
            assert(notice_views(r@) =~~= seq![]);
            return Ok(r);
        }
        let newcomer = add.clone();
        assert(cloned(add, newcomer));
        let members = match self.exchanged(dao_id, &remove, newcomer) {
            Ok(members) => members,
            Err(error) => return Err(error),
        };
        proof {
            lemma_ordered(self@.members_of(dao_id).remove_value(remove).push(add));
        }
        let list = copied(as_slice(&members));
        let mut r = vec![
            Notice::MembersChanged {
                dao_id,
                incoming: vec![add],
                outgoing: vec![remove],
                members: copied(as_slice(&members)),
            },
        ];
        self.members.insert(dao_id, members);
        self.rejig_prime(dao_id, list.as_slice(), &mut r);
        self.events.push(Event::MembersSwapped);
        proof {
            let expected = old(self)@.swap_member(dao_id, remove, add)->Ok_0;
            assert(self@ =~= expected.state);
            assert(notice_views(r@) =~~= expected.notices);
            lemma_swap_member_valid(old(self)@, MAX_MEMBERS as nat, dao_id, remove, add);
        }
        Ok(r)
    }

    /// A list of accounts as a membership: put in order, if it is not too long.
    pub fn prepare_members(members: Vec<A>) -> (r: Result<
        BoundedVec<A, ConstU32<MAX_MEMBERS>>,
        Error,
    >)
        requires
            lawful_account::<A>(),
        ensures
            r is Ok <==> members@.len() <= MAX_MEMBERS,
            r matches Ok(prepared) ==> contents(prepared) == ordered(members@),
            r matches Err(error) ==> error == Error::TooManyMembers,
    {
        match try_from_vec(members) {
            Ok(bounded) => {
                let mut prepared = bounded;
                sort(&mut prepared);
                proof {
                    lemma_ordered_unique(members@, contents(prepared));
                }
                Ok(prepared)
            },
            Err(_) => Err(Error::TooManyMembers),
        }
    }

    /// Makes `members` the membership, whatever it was before.
    pub fn reset_members(&mut self, dao_id: DaoId, members: Vec<A>) -> (r: Result<
        Vec<Notice<A>>,
        Error,
    >)
        requires
            old(self).wf(),
        ensures
            final(self).wf(),
            carried_out(
                old(self)@,
                final(self)@,
                old(self)@.reset_members(MAX_MEMBERS as nat, dao_id, members@),
                r,
            ),
    {
        let prepared = match Self::prepare_members(members) {
            Ok(prepared) => prepared,
            Err(error) => return Err(error),
        };
        proof {
            lemma_ordered(members@);
        }
        let list = copied(as_slice(&prepared));
        let mut r = vec![
            Notice::MembersSet {
                dao_id,
                members: copied(as_slice(&prepared)),
                before: into_vec(self.members(dao_id)),
            },
        ];
        self.rejig_prime(dao_id, list.as_slice(), &mut r);
        self.members.insert(dao_id, prepared);
        self.events.push(Event::MembersReset);
        proof {
            let expected = old(self)@.reset_members(MAX_MEMBERS as nat, dao_id, members@)->Ok_0;
            assert(self@ =~= expected.state);
            assert(notice_views(r@) =~~= expected.notices);
            lemma_reset_members_valid(old(self)@, MAX_MEMBERS as nat, dao_id, members@);
        }
        Ok(r)
    }

    /// Lets the member `remove` go on as `new`. Prime membership is passed on.
    pub fn change_key(&mut self, dao_id: DaoId, remove: A, new: A) -> (r: Result<
        Vec<Notice<A>>,
        Error,
    >)
        requires
            old(self).wf(),
        ensures
            final(self).wf(),
            carried_out(old(self)@, final(self)@, old(self)@.change_key(dao_id, remove, new), r),
    {
        proof {
            lemma_comparisons::<A>();
        }
        if binary_search(as_slice(&self.members(dao_id)), &remove).is_err() {
            return Err(Error::NotMember);
        }
        let mut r: Vec<Notice<A>> = vec![];
        if remove != new {
            let newcomer = new.clone();
            assert(cloned(new, newcomer));
            let members = match self.exchanged(dao_id, &remove, newcomer) {
                Ok(members) => members,
                Err(error) => return Err(error),
            };
            let incoming = new.clone();
            assert(cloned(new, incoming));
            let outgoing = remove.clone();
            assert(cloned(remove, outgoing));
            r.push(
                Notice::MembersChanged {
                    dao_id,
                    incoming: vec![incoming],
                    outgoing: vec![outgoing],
                    members: copied(as_slice(&members)),
                },
            );
            self.members.insert(dao_id, members);
            let prime_leaves = match self.prime(dao_id) {
                Some(prime) => prime == remove,
                None => false,
            };
            if prime_leaves {
                let prime = new.clone();
                assert(cloned(new, prime));
                self.prime.insert(dao_id, prime);
                r.push(Notice::PrimeSet { dao_id, prime: Some(new) });
            }
        }
        self.events.push(Event::KeyChanged);
        proof {
            let expected = old(self)@.change_key(dao_id, remove, new)->Ok_0;
            assert(self@ =~= expected.state);
            assert(notice_views(r@) =~~= expected.notices);
            lemma_change_key_valid(old(self)@, MAX_MEMBERS as nat, dao_id, remove, new);
        }
        Ok(r)
    }

    /// Makes the member `who` the prime member.
    pub fn set_prime(&mut self, dao_id: DaoId, who: A) -> (r: Result<Vec<Notice<A>>, Error>)
        requires
            old(self).wf(),
        ensures
            final(self).wf(),
            carried_out(old(self)@, final(self)@, old(self)@.set_prime(dao_id, who), r),
    {
        if binary_search(as_slice(&self.members(dao_id)), &who).is_err() {
            return Err(Error::NotMember);
        }
        let prime = who.clone();
        assert(cloned(who, prime));
        self.prime.insert(dao_id, prime);
        let r = vec![Notice::PrimeSet { dao_id, prime: Some(who) }];
        proof {
            let expected = old(self)@.set_prime(dao_id, who)->Ok_0;
            assert(self@ =~= expected.state);
            assert(notice_views(r@) =~~= expected.notices);
            lemma_set_prime_valid(old(self)@, MAX_MEMBERS as nat, dao_id, who);
        }
        Ok(r)
    }

    /// Leaves an organisation without a prime member.
    pub fn clear_prime(&mut self, dao_id: DaoId) -> (r: Vec<Notice<A>>)
        requires
            old(self).wf(),
        ensures
            final(self).wf(),
            final(self)@ == old(self)@.clear_prime(dao_id).state,
            notice_views(r@) == old(self)@.clear_prime(dao_id).notices,
    {
        self.prime.remove(&dao_id);
        let r = vec![Notice::PrimeSet { dao_id, prime: None }];
        proof {
            let expected = old(self)@.clear_prime(dao_id);
            assert(self@ =~= expected.state);
            assert(notice_views(r@) =~~= expected.notices);
            lemma_clear_prime_valid(old(self)@, MAX_MEMBERS as nat, dao_id);
        }
        r
    }

    /// Enters the first members of an organisation, unless the receiver of them refused.
    pub fn initialize_members(
        &mut self,
        dao_id: DaoId,
        members: BoundedVec<A, ConstU32<MAX_MEMBERS>>,
        verdict: Result<(), DispatchError>,
    ) -> (r: Result<(), DispatchError>)
        requires
            old(self).wf(),
            old(self)@.members_of(dao_id).len() == 0,
            is_ordered(contents(members)),
            contents(members).len() <= MAX_MEMBERS,
        ensures
            final(self).wf(),
            r == verdict,
            verdict is Ok ==> final(self)@ == old(self)@.initialize_members(
                dao_id,
                contents(members),
            ),
            verdict is Err ==> final(self)@ == old(self)@,
    {
        if verdict.is_ok() {
            let ghost first = contents(members);
            self.members.insert(dao_id, members);
            proof {
                lemma_ordered_unique(first, first);
                assert(self@ =~= old(self)@.initialize_members(dao_id, first));
                lemma_initialize_members_valid(old(self)@, MAX_MEMBERS as nat, dao_id, first);
            }
        }
        verdict
    }

    /// How many members an organisation has.
    pub fn count(&self, dao_id: DaoId) -> (r: usize)
        ensures
            r == self@.members_of(dao_id).len(),
    {
        match self.members.get(&dao_id) {
            Some(members) => as_slice(members).len(),
            None => 0,
        }
    }

    /// What was deposited, oldest first.
    pub fn events(&self) -> (r: &Vec<Event>)
        ensures
            r@ == self@.events,
    {
        &self.events
    }
}

}
