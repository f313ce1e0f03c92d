use dao_membership::genesis::{GenesisConfig, GenesisError};
use dao_membership::membership::Membership;
use dao_membership::pallet::{
    origin_outcome, requirement, CallError, CallResult, Config, DaoSortedMembers, Pallet,
};
use dao_membership::receiver::Receiver;
use dao_membership::types::{Change, DaoId, DaoPolicy, Error, Event};
use frame_support::dispatch::RawOrigin;
use frame_support::sp_runtime::traits::BadOrigin;
use frame_support::sp_runtime::DispatchError;
use frame_support::traits::ChangeMembers;
use std::cell::RefCell;
use std::ops::{Deref, DerefMut};
use std::rc::Rc;

/// The origin of a call in these tests.
#[derive(Debug, Clone)]
struct Origin(RawOrigin<u64>);

impl From<Origin> for Result<RawOrigin<u64>, Origin> {
    fn from(origin: Origin) -> Self {
        Ok(origin.0)
    }
}

fn signed(who: u64) -> Origin {
    Origin(RawOrigin::Signed(who))
}

/// What the surroundings remember of what they are asked, handed and told.
struct Book {
    members: RefCell<Vec<u64>>,
    prime: RefCell<Option<u64>>,
    asked: RefCell<Vec<(u32, u32)>>,
    initialized: RefCell<Vec<Vec<u64>>>,
    signals: RefCell<Vec<&'static str>>,
}

impl Book {
    fn new() -> Rc<Book> {
        Rc::new(Book {
            members: RefCell::new(vec![]),
            prime: RefCell::new(None),
            asked: RefCell::new(vec![]),
            initialized: RefCell::new(vec![]),
            signals: RefCell::new(vec![]),
        })
    }

    fn change(&self, incoming: &[u64], outgoing: &[u64], new: &[u64]) {
        let mut old_plus_incoming = self.members.borrow().clone();
        old_plus_incoming.extend_from_slice(incoming);
        old_plus_incoming.sort();
        let mut new_plus_outgoing = new.to_vec();
        new_plus_outgoing.extend_from_slice(outgoing);
        new_plus_outgoing.sort();
        assert_eq!(old_plus_incoming, new_plus_outgoing);

        *self.members.borrow_mut() = new.to_vec();
        *self.prime.borrow_mut() = None;
    }
}

/// Surroundings that approve of one account for each kind of change, and remember what they are
/// told.
struct Test {
    book: Rc<Book>,
    refuses_members: bool,
}

impl Config for Test {
    type AccountId = u64;
    type Origin = Origin;

    fn policy(&self, dao_id: DaoId) -> Result<DaoPolicy, DispatchError> {
        if dao_id == 99 {
            return Err(DispatchError::CannotLookup);
        }
        Ok(DaoPolicy {
            add_origin: (1, 10),
            remove_origin: (2, 20),
            swap_origin: (3, 30),
            reset_origin: (4, 40),
            prime_origin: (5, 50),
        })
    }

    fn ensure_origin(&self, origin: Origin, required: &(u32, u32)) -> Result<(), BadOrigin> {
        self.book.asked.borrow_mut().push(*required);
        match origin.0 {
            RawOrigin::Root => Ok(()),
            RawOrigin::Signed(who) if who == required.0 as u64 => Ok(()),
            _ => Err(BadOrigin),
        }
    }

    fn initialize_members(&self, _: DaoId, members: Vec<u64>) -> Result<(), DispatchError> {
        self.book.initialized.borrow_mut().push(members.clone());
        if self.refuses_members {
            return Err(DispatchError::Unavailable);
        }
        *self.book.members.borrow_mut() = members;
        Ok(())
    }

    fn change_members_sorted(&self, _: DaoId, incoming: &[u64], outgoing: &[u64], new: &[u64]) {
        self.book.signals.borrow_mut().push("change_members_sorted");
        self.book.change(incoming, outgoing, new);
    }

    fn set_members_sorted(&self, _: DaoId, new_members: &[u64], old_members: &[u64]) {
        self.book.signals.borrow_mut().push("set_members_sorted");
        let (incoming, outgoing) =
            <() as ChangeMembers<u64>>::compute_members_diff_sorted(new_members, old_members);
        self.book.change(&incoming, &outgoing, new_members);
    }

    fn set_prime(&self, _: DaoId, prime: Option<u64>) {
        self.book.signals.borrow_mut().push("set_prime");
        *self.book.prime.borrow_mut() = prime;
    }
}

type TestPallet = Pallet<Test, 10>;

/// A register, with what its surroundings remember.
struct Ext {
    pallet: TestPallet,
    book: Rc<Book>,
}

impl Ext {
    fn new(refuses_members: bool) -> Ext {
        let book = Book::new();
        let receiver = Receiver::new(Test { book: book.clone(), refuses_members });
        Ext { pallet: Pallet::new(receiver), book }
    }

    fn genesis(&mut self, members: Vec<u64>) -> Result<(), GenesisError> {
        GenesisConfig::<Test> { dao_id: 0, members }.assimilate_storage(&mut self.pallet)
    }
}

impl Deref for Ext {
    type Target = TestPallet;

    fn deref(&self) -> &TestPallet {
        &self.pallet
    }
}

impl DerefMut for Ext {
    fn deref_mut(&mut self) -> &mut TestPallet {
        &mut self.pallet
    }
}

fn new_test_ext() -> Ext {
    let mut ext = Ext::new(false);
    assert_eq!(ext.genesis(vec![10, 20, 30]), Ok(()));
    ext
}

fn known_members(ext: &Ext) -> Vec<u64> {
    ext.book.members.borrow().clone()
}

fn known_prime(ext: &Ext) -> Option<u64> {
    *ext.book.prime.borrow()
}

fn signals(ext: &Ext) -> Vec<&'static str> {
    ext.book.signals.borrow().clone()
}

fn handed(ext: &Ext) -> Vec<Vec<u64>> {
    ext.book.initialized.borrow().clone()
}

/// What is registered, and what the surroundings were told.
fn snapshot(ext: &Ext) -> (Vec<u64>, Option<u64>, Vec<Event>, Vec<&'static str>, Vec<Vec<u64>>) {
    (ext.sorted_members(0), ext.prime(0), ext.events().clone(), signals(ext), handed(ext))
}

/// The call fails in this way, changes nothing and tells nothing.
fn assert_noop<F: FnOnce(&mut Ext) -> CallResult>(ext: &mut Ext, call: F, error: CallError) {
    let before = snapshot(ext);
    assert_eq!(call(ext), Err(error));
    assert_eq!(snapshot(ext), before);
}

#[test]
fn query_membership_works() {
    let pallet = new_test_ext();
    assert_eq!(pallet.members(0), vec![10, 20, 30]);
    assert_eq!(known_members(&pallet), vec![10, 20, 30]);
}

#[test]
fn prime_member_works() {
    let mut p = new_test_ext();
    assert_noop(&mut p, |p| p.set_prime(signed(4), 0, 20), CallError::BadOrigin);
    assert_noop(&mut p, |p| p.set_prime(signed(5), 0, 15), CallError::Module(Error::NotMember));
    assert_eq!(p.set_prime(signed(5), 0, 20), Ok(()));
    assert_eq!(p.prime(0), Some(20));
    assert_eq!(known_prime(&p), p.prime(0));

    assert_eq!(p.clear_prime(signed(5), 0), Ok(()));
    assert_eq!(p.prime(0), None);
    assert_eq!(known_prime(&p), p.prime(0));
}

#[test]
fn add_member_works() {
    let mut p = new_test_ext();
    assert_noop(&mut p, |p| p.add_member(signed(5), 0, 15), CallError::BadOrigin);
    assert_noop(
        &mut p,
        |p| p.add_member(signed(1), 0, 10),
        CallError::Module(Error::AlreadyMember),
    );
    assert_eq!(p.add_member(signed(1), 0, 15), Ok(()));
    assert_eq!(p.members(0), vec![10, 15, 20, 30]);
    assert_eq!(known_members(&p), p.members(0).to_vec());
}

#[test]
fn remove_member_works() {
    let mut p = new_test_ext();
    assert_noop(&mut p, |p| p.remove_member(signed(5), 0, 20), CallError::BadOrigin);
    assert_noop(
        &mut p,
        |p| p.remove_member(signed(2), 0, 15),
        CallError::Module(Error::NotMember),
    );
    assert_eq!(p.set_prime(signed(5), 0, 20), Ok(()));
    assert_eq!(p.remove_member(signed(2), 0, 20), Ok(()));
    assert_eq!(p.members(0), vec![10, 30]);
    assert_eq!(known_members(&p), p.members(0).to_vec());
    assert_eq!(p.prime(0), None);
    assert_eq!(known_prime(&p), p.prime(0));
}

#[test]
fn swap_member_works() {
    let mut p = new_test_ext();
    assert_noop(&mut p, |p| p.swap_member(signed(5), 0, 10, 25), CallError::BadOrigin);
    assert_noop(
        &mut p,
        |p| p.swap_member(signed(3), 0, 15, 25),
        CallError::Module(Error::NotMember),
    );
    assert_noop(
        &mut p,
        |p| p.swap_member(signed(3), 0, 10, 30),
        CallError::Module(Error::AlreadyMember),
    );

    assert_eq!(p.set_prime(signed(5), 0, 20), Ok(()));
    assert_eq!(p.swap_member(signed(3), 0, 20, 20), Ok(()));
    assert_eq!(p.members(0), vec![10, 20, 30]);
    assert_eq!(p.prime(0), Some(20));
    assert_eq!(known_prime(&p), p.prime(0));

    assert_eq!(p.set_prime(signed(5), 0, 10), Ok(()));
    assert_eq!(p.swap_member(signed(3), 0, 10, 25), Ok(()));
    assert_eq!(p.members(0), vec![20, 25, 30]);
    assert_eq!(known_members(&p), p.members(0).to_vec());
    assert_eq!(p.prime(0), None);
    assert_eq!(known_prime(&p), p.prime(0));
}

#[test]
fn swap_member_works_that_does_not_change_order() {
    let mut p = new_test_ext();
    assert_eq!(p.swap_member(signed(3), 0, 10, 5), Ok(()));
    assert_eq!(p.members(0), vec![5, 20, 30]);
    assert_eq!(known_members(&p), p.members(0).to_vec());
}

#[test]
fn change_key_works() {
    let mut p = new_test_ext();
    assert_eq!(p.set_prime(signed(5), 0, 10), Ok(()));
    assert_noop(&mut p, |p| p.change_key(signed(3), 0, 25), CallError::Module(Error::NotMember));
    assert_noop(
        &mut p,
        |p| p.change_key(signed(10), 0, 20),
        CallError::Module(Error::AlreadyMember),
    );
    assert_eq!(p.change_key(signed(10), 0, 40), Ok(()));
    assert_eq!(p.members(0), vec![20, 30, 40]);
    assert_eq!(known_members(&p), p.members(0).to_vec());
    assert_eq!(p.prime(0), Some(40));
    assert_eq!(known_prime(&p), p.prime(0));
}

#[test]
fn change_key_works_that_does_not_change_order() {
    let mut p = new_test_ext();
    assert_eq!(p.change_key(signed(10), 0, 5), Ok(()));
    assert_eq!(p.members(0), vec![5, 20, 30]);
    assert_eq!(known_members(&p), p.members(0).to_vec());
}

#[test]
fn reset_members_works() {
    let mut p = new_test_ext();
    assert_eq!(p.set_prime(signed(5), 0, 20), Ok(()));
    assert_noop(&mut p, |p| p.reset_members(signed(1), 0, vec![20, 40, 30]), CallError::BadOrigin);

    assert_eq!(p.reset_members(signed(4), 0, vec![20, 40, 30]), Ok(()));
    assert_eq!(p.members(0), vec![20, 30, 40]);
    assert_eq!(known_members(&p), p.members(0).to_vec());
    assert_eq!(p.prime(0), Some(20));
    assert_eq!(known_prime(&p), p.prime(0));

    assert_eq!(p.reset_members(signed(4), 0, vec![10, 40, 30]), Ok(()));
    assert_eq!(p.members(0), vec![10, 30, 40]);
    assert_eq!(known_members(&p), p.members(0).to_vec());
    assert_eq!(p.prime(0), None);
    assert_eq!(known_prime(&p), p.prime(0));
}

#[test]
#[should_panic(expected = "Members cannot contain duplicate accounts.")]
fn genesis_build_panics_with_duplicate_members() {
    match Ext::new(false).genesis(vec![1, 2, 3, 1]) {
        Err(GenesisError::DuplicateMembers) => {
            panic!("Members cannot contain duplicate accounts.")
        }
        _ => {}
    }
}

#[test]
fn genesis_with_duplicate_members_hands_nothing_over() {
    let mut p = Ext::new(false);
    assert_eq!(p.genesis(vec![1, 2, 3, 1]), Err(GenesisError::DuplicateMembers));
    assert_eq!(p.count(0), 0);
    assert!(handed(&p).is_empty());
    assert!(signals(&p).is_empty());
}

#[test]
fn genesis_refuses_too_many_members() {
    let mut p = Ext::new(false);
    assert_eq!(
        p.genesis((0..11).collect()),
        Err(GenesisError::Refused(CallError::Module(Error::TooManyMembers)))
    );
    assert_eq!(p.count(0), 0);
    assert!(handed(&p).is_empty());
}

#[test]
fn genesis_passes_a_refusal_on() {
    let mut p = Ext::new(true);
    assert_eq!(
        p.genesis(vec![2, 1]),
        Err(GenesisError::Refused(CallError::Other(DispatchError::Unavailable)))
    );
    assert_eq!(p.count(0), 0);
    assert_eq!(handed(&p), vec![vec![1, 2]]);
}

#[test]
fn genesis_without_members_is_vacant() {
    let mut p = Ext::new(false);
    assert_eq!(p.genesis(vec![]), Ok(()));
    assert_eq!(p.count(0), 0);
    assert!(handed(&p).is_empty());
}

#[test]
fn genesis_hands_its_members_over_once() {
    let mut p = Ext::new(false);
    assert_eq!(p.genesis(vec![30, 10, 20]), Ok(()));
    assert_eq!(p.members(0), vec![10, 20, 30]);
    assert_eq!(handed(&p), vec![vec![10, 20, 30]]);
    assert!(signals(&p).is_empty());
    assert!(p.events().is_empty());
}

#[test]
fn every_call_asks_for_its_own_origin() {
    let mut p = new_test_ext();
    let root = Origin(RawOrigin::Root);
    assert_eq!(p.add_member(root.clone(), 0, 15), Ok(()));
    assert_eq!(p.remove_member(root.clone(), 0, 15), Ok(()));
    assert_eq!(p.swap_member(root.clone(), 0, 10, 11), Ok(()));
    assert_eq!(p.reset_members(root.clone(), 0, vec![10, 20, 30]), Ok(()));
    assert_eq!(p.set_prime(root.clone(), 0, 10), Ok(()));
    assert_eq!(p.clear_prime(root, 0), Ok(()));
    assert_eq!(
        *p.book.asked.borrow(),
        vec![(1, 10), (2, 20), (3, 30), (4, 40), (5, 50), (5, 50)]
    );
}

#[test]
fn every_call_fails_without_a_policy() {
    let mut p = new_test_ext();
    let root = Origin(RawOrigin::Root);
    let error = || CallError::Other(DispatchError::CannotLookup);
    assert_eq!(p.add_member(root.clone(), 99, 15), Err(error()));
    assert_eq!(p.remove_member(root.clone(), 99, 15), Err(error()));
    assert_eq!(p.swap_member(root.clone(), 99, 10, 11), Err(error()));
    assert_eq!(p.reset_members(root.clone(), 99, vec![1]), Err(error()));
    assert_eq!(p.set_prime(root.clone(), 99, 10), Err(error()));
    assert_eq!(p.clear_prime(root, 99), Err(error()));
    assert!(p.book.asked.borrow().is_empty());
    assert!(p.events().is_empty());
}

#[test]
fn keys_are_changed_by_signature_only() {
    let mut p = new_test_ext();
    assert_noop(&mut p, |p| p.change_key(Origin(RawOrigin::Root), 0, 40), CallError::BadOrigin);
    assert_noop(&mut p, |p| p.change_key(Origin(RawOrigin::None), 0, 40), CallError::BadOrigin);
    assert!(p.book.asked.borrow().is_empty());
}

#[test]
fn the_same_key_is_deposited_and_nothing_else() {
    let mut p = new_test_ext();
    assert_eq!(p.change_key(signed(10), 0, 10), Ok(()));
    assert_eq!(p.members(0), vec![10, 20, 30]);
    assert_eq!(*p.events(), vec![Event::KeyChanged]);
    assert!(signals(&p).is_empty());
}

#[test]
fn only_members_keep_their_key() {
    let mut p = new_test_ext();
    assert_noop(&mut p, |p| p.change_key(signed(77), 0, 77), CallError::Module(Error::NotMember));
    assert_noop(&mut p, |p| p.change_key(signed(10), 1, 10), CallError::Module(Error::NotMember));
    assert!(p.events().is_empty());
}

#[test]
fn swapping_an_account_for_itself_is_silent() {
    let mut p = new_test_ext();
    assert_eq!(p.swap_member(signed(3), 0, 77, 77), Ok(()));
    assert_eq!(p.members(0), vec![10, 20, 30]);
    assert!(p.events().is_empty());
    assert!(signals(&p).is_empty());
}

#[test]
fn events_are_deposited_in_order() {
    let mut p = new_test_ext();
    assert_eq!(p.add_member(signed(1), 0, 15), Ok(()));
    assert_eq!(p.set_prime(signed(5), 0, 20), Ok(()));
    assert_eq!(p.swap_member(signed(3), 0, 15, 16), Ok(()));
    assert_eq!(p.change_key(signed(16), 0, 17), Ok(()));
    assert_eq!(p.remove_member(signed(2), 0, 17), Ok(()));
    assert_eq!(p.reset_members(signed(4), 0, vec![3, 1, 2]), Ok(()));
    assert_eq!(p.clear_prime(signed(5), 0), Ok(()));
    assert_eq!(
        *p.events(),
        vec![
            Event::MemberAdded,
            Event::MembersSwapped,
            Event::KeyChanged,
            Event::MemberRemoved,
            Event::MembersReset,
        ]
    );
}

#[test]
fn the_receiver_is_told_in_order() {
    let mut p = new_test_ext();
    assert_eq!(p.set_prime(signed(5), 0, 20), Ok(()));
    assert_eq!(p.remove_member(signed(2), 0, 10), Ok(()));
    assert_eq!(known_prime(&p), Some(20));
    assert_eq!(p.reset_members(signed(4), 0, vec![20, 50]), Ok(()));
    assert_eq!(known_prime(&p), Some(20));
    assert_eq!(p.change_key(signed(20), 0, 60), Ok(()));
    assert_eq!(known_prime(&p), Some(60));
    assert_eq!(
        signals(&p),
        vec![
            "set_prime",
            "change_members_sorted",
            "set_prime",
            "set_members_sorted",
            "set_prime",
            "change_members_sorted",
            "set_prime",
        ]
    );
}

#[test]
fn adding_passes_over_the_prime_in_silence() {
    let mut p = new_test_ext();
    assert_eq!(p.set_prime(signed(5), 0, 20), Ok(()));
    assert_eq!(p.add_member(signed(1), 0, 15), Ok(()));
    assert_eq!(p.prime(0), Some(20));
    assert_eq!(known_prime(&p), None);
    assert_eq!(known_members(&p), vec![10, 15, 20, 30]);
}

#[test]
fn membership_is_bounded() {
    let mut p = new_test_ext();
    for who in 40..47 {
        assert_eq!(p.add_member(signed(1), 0, who), Ok(()));
    }
    assert_eq!(p.count(0), 10);
    assert_noop(
        &mut p,
        |p| p.add_member(signed(1), 0, 50),
        CallError::Module(Error::TooManyMembers),
    );
    assert_noop(
        &mut p,
        |p| p.add_member(signed(1), 0, 40),
        CallError::Module(Error::AlreadyMember),
    );
    assert_noop(
        &mut p,
        |p| p.reset_members(signed(4), 0, (0..11).collect()),
        CallError::Module(Error::TooManyMembers),
    );
    assert_eq!(p.swap_member(signed(3), 0, 10, 50), Ok(()));
    assert_eq!(p.count(0), 10);
    assert_eq!(p.reset_members(signed(4), 0, (0..10).rev().collect()), Ok(()));
    assert_eq!(p.members(0), (0..10).collect::<Vec<u64>>());
}

#[test]
fn initialize_members_sorts_and_hands_over() {
    let mut p = Ext::new(false);
    assert_eq!(p.initialize_members(3, vec![30, 10, 20]), Ok(()));
    assert_eq!(p.members(3), vec![10, 20, 30]);
    assert_eq!(handed(&p), vec![vec![10, 20, 30]]);
    assert!(signals(&p).is_empty());
    assert!(p.events().is_empty());

    assert_eq!(p.initialize_members(3, vec![]), Ok(()));
    assert_eq!(p.members(3), vec![10, 20, 30]);
    assert_eq!(
        p.initialize_members(4, (0..11).collect()),
        Err(CallError::Module(Error::TooManyMembers))
    );
    assert_eq!(p.count(4), 0);
    assert_eq!(handed(&p).len(), 1);
}

#[test]
fn initialize_members_can_be_refused() {
    let mut p = Ext::new(true);
    assert_eq!(
        p.initialize_members(0, vec![2, 1]),
        Err(CallError::Other(DispatchError::Unavailable))
    );
    assert_eq!(handed(&p), vec![vec![1, 2]]);
    assert_eq!(p.count(0), 0);
}

#[test]
fn sorted_members_are_enumerated() {
    let p = new_test_ext();
    assert_eq!(p.sorted_members(0), vec![10, 20, 30]);
    assert_eq!(p.sorted_members(1), Vec::<u64>::new());
    assert!(p.contains(0, &10) && p.contains(0, &20) && p.contains(0, &30));
    assert!(!p.contains(0, &9) && !p.contains(0, &15) && !p.contains(0, &31));
    assert!(!p.contains(1, &10));
    assert_eq!(p.count(0), 3);
    assert_eq!(p.count(1), 0);
}

#[test]
fn requirements_follow_the_policy() {
    let policy = Test { book: Book::new(), refuses_members: false }.policy(0).unwrap();
    assert_eq!(requirement(Ok(policy), Change::Add), Ok((1, 10)));
    assert_eq!(requirement(Ok(policy), Change::Remove), Ok((2, 20)));
    assert_eq!(requirement(Ok(policy), Change::Swap), Ok((3, 30)));
    assert_eq!(requirement(Ok(policy), Change::Reset), Ok((4, 40)));
    assert_eq!(requirement(Ok(policy), Change::Prime), Ok((5, 50)));
    assert_eq!(
        requirement(Err(DispatchError::CannotLookup), Change::Add),
        Err(CallError::Other(DispatchError::CannotLookup))
    );
    assert_eq!(origin_outcome(Ok(())), Ok(()));
    assert_eq!(origin_outcome(Err(BadOrigin)), Err(CallError::BadOrigin));
}

#[test]
fn a_register_is_resumed() {
    let mut register: Membership<u64, 10> = Membership::new();
    register.reset_members(0, vec![30, 20, 10]).ok().unwrap();
    let book = Book::new();
    *book.members.borrow_mut() = vec![10, 20, 30];
    let receiver = Receiver::new(Test { book: book.clone(), refuses_members: false });
    let mut p = Ext { pallet: Pallet::resume(receiver, register), book };
    assert_eq!(p.add_member(signed(1), 0, 15), Ok(()));
    assert_eq!(p.members(0), vec![10, 15, 20, 30]);
    assert_eq!(known_members(&p), vec![10, 15, 20, 30]);
    assert_eq!(signals(&p), vec!["change_members_sorted"]);
}

/// Ten members, of which one may be the prime member, as the benchmarks start with them.
fn set_members(members: Vec<u64>, prime: Option<usize>) -> Ext {
    let mut p = Ext::new(false);
    let root = Origin(RawOrigin::Root);
    assert_eq!(p.reset_members(root.clone(), 0, members.clone()), Ok(()));
    match prime {
        Some(i) => assert_eq!(p.set_prime(root, 0, members[i]), Ok(())),
        None => assert_eq!(p.clear_prime(root, 0), Ok(())),
    }
    p
}

#[test]
fn benchmark_remove_member_keeps_the_prime() {
    let mut p = set_members((0..10).collect(), Some(9));
    assert_eq!(p.remove_member(signed(2), 0, 0), Ok(()));
    assert!(!p.contains(0, &0));
    assert!(p.prime(0).is_some() && known_prime(&p).is_some());
}

#[test]
fn benchmark_swap_member_keeps_the_prime() {
    let mut p = set_members((0..10).collect(), Some(9));
    assert_eq!(p.swap_member(signed(3), 0, 0, 10), Ok(()));
    assert!(!p.contains(0, &0));
    assert!(p.contains(0, &10));
    assert!(p.prime(0).is_some() && known_prime(&p).is_some());
}

#[test]
fn benchmark_reset_members_keeps_a_common_prime() {
    let mut p = set_members((1..11).collect(), Some(9));
    assert_eq!(p.reset_members(signed(4), 0, (10..20).rev().collect()), Ok(()));
    assert_eq!(p.members(0), (10..20).collect::<Vec<u64>>());
    assert!(p.prime(0).is_some() && known_prime(&p).is_some());
}

#[test]
fn benchmark_change_key_passes_the_prime_on() {
    let mut p = set_members((0..10).collect(), Some(9));
    assert_eq!(p.change_key(signed(9), 0, 10), Ok(()));
    assert!(!p.contains(0, &9));
    assert!(p.contains(0, &10));
    assert_eq!(p.prime(0), Some(10));
}

#[test]
fn benchmark_set_and_clear_prime() {
    let mut p = set_members((0..10).collect(), None);
    assert_eq!(p.set_prime(signed(5), 0, 9), Ok(()));
    assert!(p.prime(0).is_some() && known_prime(&p).is_some());
    assert_eq!(p.clear_prime(signed(5), 0), Ok(()));
    assert!(p.prime(0).is_none() && known_prime(&p).is_none());
}
