use dao_membership::genesis::is_distinct;
use dao_membership::membership::{Membership, Notice};
use dao_membership::order::{binary_search, copied};
use dao_membership::types::{Error, Event};
use frame_support::sp_runtime::DispatchError;

type Register = Membership<u64, 5>;

fn register(dao_id: u32, members: &[u64]) -> Register {
    let mut register = Register::new();
    register.reset_members(dao_id, members.to_vec()).ok().unwrap();
    register
}

/// What one notice says: incoming, outgoing and members, or members and members before, or the
/// prime member.
fn show(notice: &Notice<u64>) -> String {
    match notice {
        Notice::MembersChanged { dao_id, incoming, outgoing, members } => {
            format!("{} changed {:?} {:?} {:?}", dao_id, incoming, outgoing, members)
        }
        Notice::MembersSet { dao_id, members, before } => {
            format!("{} set {:?} {:?}", dao_id, members, before)
        }
        Notice::PrimeSet { dao_id, prime } => format!("{} prime {:?}", dao_id, prime),
    }
}

fn shown(notices: Result<Vec<Notice<u64>>, Error>) -> Result<Vec<String>, Error> {
    notices.map(|notices| notices.iter().map(show).collect())
}

#[test]
fn adding_enters_at_the_right_place() {
    let mut r = register(1, &[10, 20, 30]);
    assert_eq!(
        shown(r.add_member(1, 25)),
        Ok(vec!["1 changed [25] [] [10, 20, 25, 30]".to_string()])
    );
    assert_eq!(shown(r.add_member(1, 25)), Err(Error::AlreadyMember));
    assert_eq!(
        shown(r.add_member(1, 5)),
        Ok(vec!["1 changed [5] [] [5, 10, 20, 25, 30]".to_string()])
    );
    assert_eq!(shown(r.add_member(1, 40)), Err(Error::TooManyMembers));
    assert_eq!(r.members(1), vec![5, 10, 20, 25, 30]);
    assert_eq!(*r.events(), vec![Event::MembersReset, Event::MemberAdded, Event::MemberAdded]);
}

#[test]
fn removing_undoes_adding() {
    let mut r = register(1, &[10, 20, 30]);
    r.set_prime(1, 20).ok().unwrap();
    r.add_member(1, 15).ok().unwrap();
    assert_eq!(
        shown(r.remove_member(1, 15)),
        Ok(vec!["1 changed [] [15] [10, 20, 30]".to_string(), "1 prime Some(20)".to_string()])
    );
    assert_eq!(r.members(1), vec![10, 20, 30]);
    assert_eq!(r.prime(1), Some(20));
    assert_eq!(shown(r.remove_member(1, 15)), Err(Error::NotMember));
    assert_eq!(shown(r.remove_member(2, 10)), Err(Error::NotMember));
}

#[test]
fn swapping_back_undoes_swapping() {
    let mut r = register(1, &[10, 20, 30]);
    r.set_prime(1, 10).ok().unwrap();
    assert_eq!(
        shown(r.swap_member(1, 10, 25)),
        Ok(vec!["1 changed [25] [10] [20, 25, 30]".to_string()])
    );
    assert_eq!(r.prime(1), None);
    assert_eq!(
        shown(r.swap_member(1, 25, 10)),
        Ok(vec!["1 changed [10] [25] [10, 20, 30]".to_string()])
    );
    assert_eq!(r.members(1), vec![10, 20, 30]);
    assert_eq!(r.prime(1), None);
    assert_eq!(shown(r.swap_member(1, 11, 20)), Err(Error::NotMember));
    assert_eq!(shown(r.swap_member(1, 10, 20)), Err(Error::AlreadyMember));
}

#[test]
fn resetting_disregards_order_and_past() {
    let mut a = register(1, &[10, 20, 30]);
    let mut b = register(1, &[1]);
    assert_eq!(
        shown(a.reset_members(1, vec![3, 1, 2])),
        Ok(vec!["1 set [1, 2, 3] [10, 20, 30]".to_string()])
    );
    assert_eq!(
        shown(b.reset_members(1, vec![2, 3, 1])),
        Ok(vec!["1 set [1, 2, 3] [1]".to_string()])
    );
    assert_eq!(a.members(1), b.members(1).to_vec());
    assert_eq!(shown(a.reset_members(1, vec![1, 2, 3, 4, 5, 6])), Err(Error::TooManyMembers));
    assert_eq!(a.members(1), vec![1, 2, 3]);
}

#[test]
fn a_prime_among_the_new_members_stays() {
    let mut r = register(1, &[10, 20, 30]);
    r.set_prime(1, 20).ok().unwrap();
    assert_eq!(
        shown(r.reset_members(1, vec![40, 20])),
        Ok(vec!["1 set [20, 40] [10, 20, 30]".to_string(), "1 prime Some(20)".to_string()])
    );
    assert_eq!(r.prime(1), Some(20));
    assert_eq!(
        shown(r.reset_members(1, vec![40])),
        Ok(vec!["1 set [40] [20, 40]".to_string()])
    );
    assert_eq!(r.prime(1), None);
}

#[test]
fn a_key_carries_the_prime_along() {
    let mut r = register(1, &[10, 20, 30]);
    r.set_prime(1, 10).ok().unwrap();
    assert_eq!(
        shown(r.change_key(1, 20, 50)),
        Ok(vec!["1 changed [50] [20] [10, 30, 50]".to_string()])
    );
    assert_eq!(r.prime(1), Some(10));
    assert_eq!(
        shown(r.change_key(1, 10, 40)),
        Ok(vec![
            "1 changed [40] [10] [30, 40, 50]".to_string(),
            "1 prime Some(40)".to_string()
        ])
    );
    assert_eq!(r.prime(1), Some(40));
    assert_eq!(shown(r.change_key(1, 10, 60)), Err(Error::NotMember));
    assert_eq!(shown(r.change_key(1, 40, 50)), Err(Error::AlreadyMember));
    assert_eq!(shown(r.change_key(1, 10, 10)), Err(Error::NotMember));
    assert_eq!(shown(r.change_key(1, 40, 40)), Ok(vec![]));
}

#[test]
fn the_prime_is_set_and_cleared() {
    let mut r = register(1, &[10, 20]);
    assert_eq!(shown(r.set_prime(1, 11)), Err(Error::NotMember));
    assert_eq!(shown(r.set_prime(1, 20)), Ok(vec!["1 prime Some(20)".to_string()]));
    assert_eq!(r.prime(1), Some(20));
    assert_eq!(r.prime(2), None);
    assert_eq!(shown(Ok(r.clear_prime(1))), Ok(vec!["1 prime None".to_string()]));
    assert_eq!(r.prime(1), None);
    assert_eq!(*r.events(), vec![Event::MembersReset]);
}

#[test]
fn changes_touch_one_organisation() {
    let mut r = register(1, &[10, 20]);
    r.reset_members(2, vec![20, 30]).ok().unwrap();
    r.set_prime(1, 10).ok().unwrap();
    r.set_prime(2, 20).ok().unwrap();
    r.remove_member(1, 10).ok().unwrap();
    r.swap_member(1, 20, 21).ok().unwrap();
    r.clear_prime(1);
    assert_eq!(r.members(2), vec![20, 30]);
    assert_eq!(r.prime(2), Some(20));
    assert_eq!(r.members(1), vec![21]);
    assert_eq!(r.count(1), 1);
    assert_eq!(r.count(2), 2);
    assert_eq!(r.count(3), 0);
}

#[test]
fn repetitions_come_only_from_lists() {
    let mut r = register(1, &[20, 10, 20]);
    assert_eq!(r.members(1), vec![10, 20, 20]);
    r.set_prime(1, 20).ok().unwrap();
    assert_eq!(
        shown(r.remove_member(1, 20)),
        Ok(vec!["1 changed [] [20] [10, 20]".to_string(), "1 prime Some(20)".to_string()])
    );
    assert_eq!(r.members(1), vec![10, 20]);
    assert_eq!(shown(r.add_member(1, 20)), Err(Error::AlreadyMember));
}

#[test]
fn first_members_depend_on_the_verdict() {
    let mut r = Register::new();
    let members = Register::prepare_members(vec![3, 1, 2]).unwrap();
    assert_eq!(members, vec![1, 2, 3]);
    assert_eq!(
        r.initialize_members(1, members.clone(), Err(DispatchError::Exhausted)),
        Err(DispatchError::Exhausted)
    );
    assert_eq!(r.count(1), 0);
    assert_eq!(r.initialize_members(1, members, Ok(())), Ok(()));
    assert_eq!(r.members(1), vec![1, 2, 3]);
    assert_eq!(Register::prepare_members(vec![0; 6]).err(), Some(Error::TooManyMembers));
}

#[test]
fn a_register_for_nobody() {
    let mut r: Membership<u64, 0> = Membership::new();
    assert_eq!(shown(r.add_member(1, 1)), Err(Error::TooManyMembers));
    assert_eq!(shown(r.reset_members(1, vec![1])), Err(Error::TooManyMembers));
    assert_eq!(shown(r.reset_members(1, vec![])), Ok(vec!["1 set [] []".to_string()]));
}

#[test]
fn accounts_need_not_be_numbers() {
    let mut r: Membership<[u8; 4], 3> = Membership::new();
    r.reset_members(1, vec![[2, 0, 0, 0], [1, 9, 9, 9], [1, 0, 0, 0]]).ok().unwrap();
    assert_eq!(r.members(1), vec![[1, 0, 0, 0], [1, 9, 9, 9], [2, 0, 0, 0]]);
    r.swap_member(1, [1, 9, 9, 9], [3, 0, 0, 0]).ok().unwrap();
    assert_eq!(r.members(1), vec![[1, 0, 0, 0], [2, 0, 0, 0], [3, 0, 0, 0]]);
}

#[test]
fn searching_finds_accounts_and_places() {
    let s = [10u64, 20, 30];
    assert_eq!(binary_search(&s, &10), Ok(0));
    assert_eq!(binary_search(&s, &20), Ok(1));
    assert_eq!(binary_search(&s, &30), Ok(2));
    assert_eq!(binary_search(&s, &5), Err(0));
    assert_eq!(binary_search(&s, &15), Err(1));
    assert_eq!(binary_search(&s, &25), Err(2));
    assert_eq!(binary_search(&s, &35), Err(3));
    assert_eq!(binary_search(&[], &35u64), Err(0));
    assert_eq!(copied(&s), vec![10, 20, 30]);
}

#[test]
fn distinct_lists_are_told_apart() {
    assert!(is_distinct::<u64>(&[]));
    assert!(is_distinct(&[1u64]));
    assert!(is_distinct(&[1u64, 2, 3]));
    assert!(!is_distinct(&[1u64, 1, 3]));
    assert!(!is_distinct(&[1u64, 3, 3]));
}
