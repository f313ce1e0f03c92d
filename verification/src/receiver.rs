//! The surroundings of a register, and a record of every exchange with them.
//!
//! A [`Receiver`] keeps the surroundings to itself: its methods are the only way to them, each
//! makes one call, and each enters that call in the record. So what the record says was asked,
//! handed over and told is all that was.
use crate::membership::{notice_views, Notice};
use crate::model::NoticeView;
use crate::order::lawful_account;
use crate::pallet::Config;
use crate::types::{DaoId, DaoPolicy};
use frame_support::sp_runtime::traits::BadOrigin;
use frame_support::sp_runtime::DispatchError;
use vstd::prelude::*;

verus! {

/// A question to the surroundings, with the reply.
pub enum Inquiry<O> {
    /// What is the policy of the organisation?
    Policy { dao_id: DaoId, policy: Result<DaoPolicy, DispatchError> },
    /// Does the origin meet what a policy asks for?
    Origin { origin: O, required: (u32, u32), verdict: Result<(), BadOrigin> },
}

/// First members handed over to the surroundings, with the reply.
pub struct HandOver<A> {
    /// The organisation.
    pub dao_id: DaoId,
    /// Its first members.
    pub members: Seq<A>,
    /// Whether they were accepted.
    pub verdict: Result<(), DispatchError>,
}

/// The surroundings of a register, with the record of what they were asked, handed and told.
pub struct Receiver<T: Config> {
    config: T,
    asked: Ghost<Seq<Inquiry<T::Origin>>>,
    handed: Ghost<Seq<HandOver<T::AccountId>>>,
    heard: Ghost<Seq<NoticeView<T::AccountId>>>,
}

impl<T: Config> Receiver<T> {
    /// The surroundings.
    pub closed spec fn config(&self) -> T {
        self.config
    }

    /// What the surroundings were asked, oldest first.
    pub closed spec fn asked(&self) -> Seq<Inquiry<T::Origin>> {
        self.asked@
    }

    /// The first members that were handed over, oldest first.
    pub closed spec fn handed(&self) -> Seq<HandOver<T::AccountId>> {
        self.handed@
    }

    /// What the receiver of changes was told, oldest first.
    pub closed spec fn heard(&self) -> Seq<NoticeView<T::AccountId>> {
        self.heard@
    }

    /// Surroundings that were not asked, handed or told anything yet.
    pub fn new(config: T) -> (r: Self)
        ensures
            r.config() == config,
            r.asked() == Seq::<Inquiry<T::Origin>>::empty(),
            r.handed() == Seq::<HandOver<T::AccountId>>::empty(),
            r.heard() == Seq::<NoticeView<T::AccountId>>::empty(),
    {
        Receiver {
            config,
            asked: Ghost(Seq::empty()),
            handed: Ghost(Seq::empty()),
            heard: Ghost(Seq::empty()),
        }
    }

    /// Asks for the policy of an organisation.
    pub fn policy(&mut self, dao_id: DaoId) -> (r: Result<DaoPolicy, DispatchError>)
        ensures
            call_ensures(T::policy, (&old(self).config(), dao_id), r),
            final(self).config() == old(self).config(),
            final(self).asked() == old(self).asked().push(Inquiry::Policy { dao_id, policy: r }),
            final(self).handed() == old(self).handed(),
            final(self).heard() == old(self).heard(),
    {
        let policy = self.config.policy(dao_id);
        self.asked = Ghost(self.asked@.push(Inquiry::Policy { dao_id, policy }));
        policy
    }

    /// Asks whether an origin meets what a policy asks for.
    pub fn ensure_origin(&mut self, origin: T::Origin, required: (u32, u32)) -> (r: Result<
        (),
        BadOrigin,
    >)
        ensures
            call_ensures(T::ensure_origin, (&old(self).config(), origin, &required), r),
            final(self).config() == old(self).config(),
            final(self).asked() == old(self).asked().push(
                Inquiry::Origin { origin, required, verdict: r },
            ),
            final(self).handed() == old(self).handed(),
            final(self).heard() == old(self).heard(),
    {
        let verdict = self.config.ensure_origin(origin, &required);
        self.asked = Ghost(self.asked@.push(Inquiry::Origin { origin, required, verdict }));
        verdict
    }

    /// Hands the first members of an organisation over.
    pub fn hand_over(&mut self, dao_id: DaoId, members: Vec<T::AccountId>) -> (r: Result<
        (),
        DispatchError,
    >)
        ensures
            call_ensures(T::initialize_members, (&old(self).config(), dao_id, members), r),
            final(self).config() == old(self).config(),
            final(self).asked() == old(self).asked(),
            final(self).handed() == old(self).handed().push(
                HandOver { dao_id, members: members@, verdict: r },
            ),
            final(self).heard() == old(self).heard(),
    {
        let ghost list = members@;
        let verdict = self.config.initialize_members(dao_id, members);
        self.handed = Ghost(self.handed@.push(HandOver { dao_id, members: list, verdict }));
        verdict
    }

    /// Tells the receiver of changes who joined, who left and who the members are.
    pub fn change_members_sorted(
        &mut self,
        dao_id: DaoId,
        incoming: &[T::AccountId],
        outgoing: &[T::AccountId],
        members: &[T::AccountId],
    )
        ensures
            call_ensures(
                T::change_members_sorted,
                (&old(self).config(), dao_id, incoming, outgoing, members),
                (),
            ),
            final(self).config() == old(self).config(),
            final(self).asked() == old(self).asked(),
            final(self).handed() == old(self).handed(),
            final(self).heard() == old(self).heard().push(
                NoticeView::MembersChanged {
                    dao_id,
                    incoming: incoming@,
                    outgoing: outgoing@,
                    members: members@,
                },
            ),
    {
        self.config.change_members_sorted(dao_id, incoming, outgoing, members);
        self.heard = Ghost(
            self.heard@.push(
                NoticeView::MembersChanged {
                    dao_id,
                    incoming: incoming@,
                    outgoing: outgoing@,
                    members: members@,
                },
            ),
        );
    }

    /// Tells the receiver of changes who the members are and who they were.
    pub fn set_members_sorted(
        &mut self,
        dao_id: DaoId,
        members: &[T::AccountId],
        before: &[T::AccountId],
    )
        ensures
            call_ensures(
                T::set_members_sorted,
                (&old(self).config(), dao_id, members, before),
                (),
            ),
            final(self).config() == old(self).config(),
            final(self).asked() == old(self).asked(),
            final(self).handed() == old(self).handed(),
            final(self).heard() == old(self).heard().push(
                NoticeView::MembersSet { dao_id, members: members@, before: before@ },
            ),
    {
        self.config.set_members_sorted(dao_id, members, before);
        self.heard = Ghost(
            self.heard@.push(
                NoticeView::MembersSet { dao_id, members: members@, before: before@ },
            ),
        );
    }

    /// Tells the receiver of changes who the prime member is.
    pub fn set_prime(&mut self, dao_id: DaoId, prime: Option<T::AccountId>)
        ensures
            call_ensures(T::set_prime, (&old(self).config(), dao_id, prime), ()),
            final(self).config() == old(self).config(),
            final(self).asked() == old(self).asked(),
            final(self).handed() == old(self).handed(),
            final(self).heard() == old(self).heard().push(NoticeView::PrimeSet { dao_id, prime }),
    {
        let ghost who = prime;
        self.config.set_prime(dao_id, prime);
        self.heard = Ghost(self.heard@.push(NoticeView::PrimeSet { dao_id, prime: who }));
    }

    /// Tells the receiver of changes of every notice, in the order of the list, and of nothing
    /// else.
    pub fn tell(&mut self, notices: &Vec<Notice<T::AccountId>>)
        requires
            lawful_account::<T::AccountId>(),
        ensures
            final(self).config() == old(self).config(),
            final(self).asked() == old(self).asked(),
            final(self).handed() == old(self).handed(),
            final(self).heard() == old(self).heard() + notice_views(notices@),
    {
        let ghost views = notice_views(notices@);
        let mut i: usize = 0;
        assert(self.heard() =~= old(self).heard() + views.take(0));
        while i < notices.len()
            invariant
                lawful_account::<T::AccountId>(),
                i <= notices@.len(),
                views == notice_views(notices@),
                self.config() == old(self).config(),
                self.asked() == old(self).asked(),
                self.handed() == old(self).handed(),
                self.heard() == old(self).heard() + views.take(i as int),
            decreases notices@.len() - i,
        {
            match &notices[i] {
                Notice::MembersChanged { dao_id, incoming, outgoing, members } => {
                    self.change_members_sorted(
                        *dao_id,
                        incoming.as_slice(),
                        outgoing.as_slice(),
                        members.as_slice(),
                    );
                },
                Notice::MembersSet { dao_id, members, before } => {
                    self.set_members_sorted(*dao_id, members.as_slice(), before.as_slice());
                },
                Notice::PrimeSet { dao_id, prime } => {
                    let who = match prime {
                        Some(who) => {
                            let copy = who.clone();
                            assert(cloned(*who, copy));
                            Some(copy)
                        },
                        None => None,
                    };
                    self.set_prime(*dao_id, who);
                },
            }
            assert(views[i as int] == notices@[i as int]@);
            assert(views.take(i + 1) =~= views.take(i as int).push(views[i as int]));
            assert(self.heard() =~= old(self).heard() + views.take(i + 1));
            i = i + 1;
        }
        assert(views.take(i as int) =~= views);
    }
}

}
