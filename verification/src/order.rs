//! The order of account identifiers, and ordered lists of them.
//!
//! A membership is kept as an ordered list. What is said of such lists holds of every type of
//! account whose `Ord`, `PartialOrd`, `PartialEq` and `Clone` keep the promises that the standard
//! library asks of them: see [`lawful_account`].
use vstd::laws_cmp::*;
use vstd::laws_eq::*;
use vstd::prelude::*;
use vstd::relations::{sorted_by, total_ordering};
use vstd::seq_lib::*;
use vstd::std_specs::cmp::{OrdSpec, PartialEqSpec, PartialOrdSpec};

verus! {

/// The comparisons of `A` agree with each other and order `A` totally, and two accounts are equal
/// only if they are the same account.
pub open spec fn lawful_order<A: Ord>() -> bool {
    &&& obeys_cmp::<A>()
    &&& obeys_concrete_eq::<A>()
}

/// The order of `A` is lawful, and a clone is the account that it was made from.
pub open spec fn lawful_account<A: Ord + Clone>() -> bool {
    &&& lawful_order::<A>()
    &&& forall|a: A, b: A| #[trigger] cloned(a, b) ==> a == b
}

/// `a` does not come after `b`.
pub open spec fn at_most<A: Ord>(a: A, b: A) -> bool {
    !(a.cmp_spec(&b) is Greater)
}

/// [`at_most`] as a relation.
pub open spec fn account_order<A: Ord>() -> spec_fn(A, A) -> bool {
    |a: A, b: A| at_most(a, b)
}

/// No account of `s` comes after a later one.
pub open spec fn is_ordered<A: Ord>(s: Seq<A>) -> bool {
    sorted_by(s, account_order())
}

/// The accounts of `s`, each as often as there, in order.
pub open spec fn ordered<A: Ord>(s: Seq<A>) -> Seq<A> {
    s.sort_by(account_order())
}

/// What the laws of an account type say of its comparisons.
pub proof fn lemma_comparisons<A: Ord>()
    requires
        lawful_order::<A>(),
    ensures
        A::obeys_eq_spec(),
        forall|a: A, b: A| #[trigger] a.eq_spec(&b) <==> a == b,
        A::obeys_partial_cmp_spec(),
        forall|a: A, b: A|
            (#[trigger] a.partial_cmp_spec(&b) matches Some(o) && o is Less) <==> at_most(a, b) && a
                != b,
        total_ordering(account_order::<A>()),
{
    reveal(obeys_concrete_eq);
    reveal(obeys_eq_spec_properties);
    reveal(obeys_cmp_partial_ord);
    reveal(obeys_cmp_ord);
    reveal(obeys_partial_cmp_spec_properties);
    let r = account_order::<A>();
    assert forall|a: A, b: A| #[trigger] a.cmp_spec(&b) is Equal <==> a == b by {
        assert(a.partial_cmp_spec(&b) == Some(a.cmp_spec(&b)));
        assert(a.eq_spec(&b) <==> a == b);
    }
    assert forall|a: A, b: A| #[trigger] r(a, b) || #[trigger] r(b, a) by {
        assert(a.partial_cmp_spec(&b) == Some(a.cmp_spec(&b)));
        assert(b.partial_cmp_spec(&a) == Some(b.cmp_spec(&a)));
    }
    assert forall|a: A, b: A| #[trigger] r(a, b) && #[trigger] r(b, a) implies a == b by {
        assert(a.partial_cmp_spec(&b) == Some(a.cmp_spec(&b)));
        assert(b.partial_cmp_spec(&a) == Some(b.cmp_spec(&a)));
    }
    assert forall|a: A, b: A, c: A| #[trigger] r(a, b) && #[trigger] r(b, c) implies r(a, c) by {
        assert(a.partial_cmp_spec(&b) == Some(a.cmp_spec(&b)));
        assert(b.partial_cmp_spec(&c) == Some(b.cmp_spec(&c)));
        assert(a.partial_cmp_spec(&c) == Some(a.cmp_spec(&c)));
    }
    assert forall|a: A| #[trigger] r(a, a) by {
        assert(a.cmp_spec(&a) is Equal);
    }
}

/// Putting a list in order keeps its accounts, each as often as it occurs.
pub proof fn lemma_ordered<A: Ord>(s: Seq<A>)
    requires
        lawful_order::<A>(),
    ensures
        is_ordered(ordered(s)),
        ordered(s).to_multiset() == s.to_multiset(),
        ordered(s).len() == s.len(),
        forall|x: A| #[trigger] ordered(s).contains(x) <==> s.contains(x),
{
    lemma_comparisons::<A>();
    s.lemma_sort_by_ensures(account_order());
    s.to_multiset_ensures();
    ordered(s).to_multiset_ensures();
    assert forall|x: A| #[trigger] ordered(s).contains(x) <==> s.contains(x) by {
        assert(ordered(s).contains(x) <==> ordered(s).to_multiset().count(x) > 0);
        assert(s.contains(x) <==> s.to_multiset().count(x) > 0);
    }
}

/// An ordered list is the only ordered list of its accounts.
pub proof fn lemma_ordered_unique<A: Ord>(s: Seq<A>, t: Seq<A>)
    requires
        lawful_order::<A>(),
        is_ordered(t),
        t.to_multiset() == s.to_multiset(),
    ensures
        t == ordered(s),
{
    lemma_comparisons::<A>();
    lemma_ordered(s);
    lemma_sorted_unique(t, ordered(s), account_order());
}

/// Taking one occurrence of `x` out of a list that holds it.
pub proof fn lemma_remove_value<A>(s: Seq<A>, x: A)
    requires
        s.contains(x),
    ensures
        s.remove_value(x).len() == s.len() - 1,
        s.remove_value(x).to_multiset() == s.to_multiset().remove(x),
        forall|y: A| #[trigger] s.remove_value(x).contains(y) ==> s.contains(y),
        forall|y: A| y != x && #[trigger] s.contains(y) ==> s.remove_value(x).contains(y),
{
    broadcast use vstd::multiset::group_multiset_axioms;

    s.index_of_first_ensures(x);
    let r = s.remove_value(x);
    s.to_multiset_ensures();
    r.to_multiset_ensures();
    assert forall|y: A| #[trigger] r.contains(y) implies s.contains(y) by {
        assert(r.to_multiset().count(y) > 0);
        assert(s.to_multiset().count(y) > 0);
    }
    assert forall|y: A| y != x && #[trigger] s.contains(y) implies r.contains(y) by {
        assert(s.to_multiset().count(y) > 0);
        assert(r.to_multiset().count(y) > 0);
    }
}

/// Every occurrence of an account of an ordered list can be taken out with the same outcome, and
/// what is left is ordered.
pub proof fn lemma_ordered_remove<A: Ord>(s: Seq<A>, i: int)
    requires
        lawful_order::<A>(),
        is_ordered(s),
        0 <= i < s.len(),
    ensures
        s.remove(i) == s.remove_value(s[i]),
        is_ordered(s.remove(i)),
{
    let x = s[i];
    assert(s.contains(x));
    s.index_of_first_ensures(x);
    let first = s.index_of_first(x).unwrap();
    lemma_comparisons::<A>();
    lemma_ordered_minus(s, i);
    lemma_ordered_minus(s, first);
    s.to_multiset_ensures();
    lemma_sorted_unique(s.remove(i), s.remove(first), account_order());
}

/// An ordered list stays ordered when an account leaves.
proof fn lemma_ordered_minus<A: Ord>(s: Seq<A>, i: int)
    requires
        is_ordered(s),
        0 <= i < s.len(),
    ensures
        is_ordered(s.remove(i)),
{
    let r = account_order::<A>();
    let t = s.remove(i);
    assert forall|j: int, k: int| 0 <= j < k < t.len() implies #[trigger] r(t[j], t[k]) by {
        let jj = if j < i { j } else { j + 1 };
        let kk = if k < i { k } else { k + 1 };
        assert(r(s[jj], s[kk]));
    }
}

/// `i` is a place at which `x` can enter the ordered list `s`, which does not hold it.
pub open spec fn place_for<A: Ord>(s: Seq<A>, x: A, i: int) -> bool {
    &&& 0 <= i <= s.len()
    &&& forall|j: int| 0 <= j < i ==> at_most(#[trigger] s[j], x)
    &&& forall|j: int| i <= j < s.len() ==> at_most(x, #[trigger] s[j])
}

/// Entering an account at its place gives the ordered list of all of them.
pub proof fn lemma_ordered_insert<A: Ord>(s: Seq<A>, x: A, i: int)
    requires
        lawful_order::<A>(),
        is_ordered(s),
        place_for(s, x, i),
    ensures
        s.insert(i, x) == ordered(s.push(x)),
{
    let r = account_order::<A>();
    let t = s.insert(i, x);
    assert forall|j: int, k: int| 0 <= j < k < t.len() implies #[trigger] r(t[j], t[k]) by {
        if j == i {
            assert(at_most(x, s[k - 1]));
        } else if k == i {
            assert(at_most(s[j], x));
        } else {
            let jj = if j < i { j } else { j - 1 };
            let kk = if k < i { k } else { k - 1 };
            assert(r(s[jj], s[kk]));
        }
    }
    to_multiset_insert(s, i, x);
    s.to_multiset_ensures();
    lemma_ordered_unique(s.push(x), t);
}

/// Exchanging one occurrence of an account and putting the list in order gives the ordered list
/// of the others and the newcomer.
pub proof fn lemma_ordered_exchange<A: Ord>(s: Seq<A>, i: int, y: A)
    requires
        lawful_order::<A>(),
        0 <= i < s.len(),
    ensures
        ordered(s.update(i, y)) == ordered(s.remove_value(s[i]).push(y)),
{
    broadcast use vstd::multiset::group_multiset_axioms;

    let x = s[i];
    assert(s.contains(x));
    lemma_remove_value(s, x);
    let rest = s.remove_value(x);
    s.to_multiset_ensures();
    rest.to_multiset_ensures();
    to_multiset_update(s, i, y);
    assert(s.to_multiset().count(x) > 0);
    assert(s.update(i, y).to_multiset() =~= rest.push(y).to_multiset());
    lemma_ordered(s.update(i, y));
    lemma_ordered_unique(rest.push(y), ordered(s.update(i, y)));
}

/// Looks `x` up in an ordered list: where it is, or where it could enter.
pub fn binary_search<A: Ord>(s: &[A], x: &A) -> (r: Result<usize, usize>)
    requires
        lawful_order::<A>(),
        is_ordered(s@),
    ensures
        r is Ok <==> s@.contains(*x),
        r matches Ok(i) ==> i < s@.len() && s@[i as int] == *x,
        r matches Err(i) ==> place_for(s@, *x, i as int),
{
    let ghost r = account_order::<A>();
    let mut low: usize = 0;
    let mut high: usize = s.len();
    while low < high
        invariant
            lawful_order::<A>(),
            is_ordered(s@),
            r == account_order::<A>(),
            low <= high <= s@.len(),
            forall|j: int| 0 <= j < low ==> at_most(#[trigger] s@[j], *x) && s@[j] != *x,
            forall|j: int| high <= j < s@.len() ==> at_most(*x, #[trigger] s@[j]) && s@[j] != *x,
        decreases high - low,
    {
        proof {
            lemma_comparisons::<A>();
        }
        let mid: usize = low + (high - low) / 2;
        if s[mid] == *x {
            return Ok(mid);
        }
        let ghost m = s@[mid as int];
        if s[mid] < *x {
            assert forall|j: int| 0 <= j < mid + 1 implies at_most(#[trigger] s@[j], *x) && s@[j]
                != *x by {
                if j < mid {
                    assert(r(s@[j], m));
                    assert(r(m, *x));
                    assert(r(s@[j], *x));
                }
            }
            low = mid + 1;
        } else {
            assert(r(m, *x) || r(*x, m));
            assert forall|j: int| mid <= j < s@.len() implies at_most(*x, #[trigger] s@[j])
                && s@[j] != *x by {
                assert(r(*x, m));
                if mid < j {
                    assert(r(m, s@[j]));
                    assert(r(*x, s@[j]));
                }
            }
            high = mid;
        }
    }
    Err(low)
}

/// A list of its own with the accounts of `s`.
pub fn copied<A: Ord + Clone>(s: &[A]) -> (r: Vec<A>)
    requires
        lawful_account::<A>(),
    ensures
        r@ == s@,
{
    let mut r: Vec<A> = Vec::new();
    let mut i: usize = 0;
    while i < s.len()
        invariant
            lawful_account::<A>(),
            i <= s@.len(),
            r@ == s@.take(i as int),
        decreases s@.len() - i,
    {
        let x = s[i].clone();
        assert(cloned(s@[i as int], x));
        r.push(x);
        assert(s@.take(i + 1) == s@.take(i as int).push(x));
        i = i + 1;
    }
    assert(s@.take(i as int) == s@);
    r
}

/// Numbers are lawful accounts.
pub proof fn lemma_numbers_are_lawful()
    ensures
        lawful_account::<u64>(),
{
    broadcast use {group_laws_cmp, group_laws_eq};

}

}
