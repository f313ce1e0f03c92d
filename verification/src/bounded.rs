//! The bounded vectors of `frame_support`, which hold the members of an organisation.
//!
//! `frame_support::BoundedVec<A, ConstU32<N>>` is a vector of at most `N` items. Verus sees
//! nothing inside one: [`contents`] stands for what it holds, and the functions below, each of
//! them one call of the outside type, say what the call does to it.
use crate::order::{is_ordered, lawful_order};
use frame_support::traits::ConstU32;
use frame_support::BoundedVec;
use vstd::prelude::*;
use vstd::std_specs::convert::FromSpec;

verus! {

/// `frame_support::BoundedVec`, a vector that never holds more items than its type allows.
#[verifier::external_type_specification]
#[verifier::external_body]
#[verifier::reject_recursive_types(T)]
#[verifier::reject_recursive_types(S)]
pub struct ExBoundedVec<T, S>(frame_support::BoundedVec<T, S>);

/// `frame_support::traits::ConstU32`, the type that stands for the number `T`.
#[verifier::external_type_specification]
#[verifier::external_body]
pub struct ExConstU32<const T: u32>(frame_support::traits::ConstU32<T>);

/// The items of a bounded vector, in their order: those of the `Vec` that it converts into.
pub open spec fn contents<A, const N: u32>(v: BoundedVec<A, ConstU32<N>>) -> Seq<A> {
    Vec::<A>::from_spec(v)@
}

/// `BoundedVec::new`: a vector that holds nothing.
#[verifier::external_body]
pub(crate) fn empty<A, const N: u32>() -> (r: BoundedVec<A, ConstU32<N>>)
    ensures
        contents(r).len() == 0,
{
    BoundedVec::new()
}

/// `BoundedVec::clone`: as many items, each a clone of the one at its place.
#[verifier::external_body]
pub(crate) fn duplicate<A: Clone, const N: u32>(v: &BoundedVec<A, ConstU32<N>>) -> (r: BoundedVec<
    A,
    ConstU32<N>,
>)
    ensures
        contents(r).len() == contents(*v).len(),
        forall|i: int|
            0 <= i < contents(*v).len() ==> cloned(contents(*v)[i], #[trigger] contents(r)[i]),
{
    v.clone()
}

/// `BoundedVec::deref`: the items as a slice.
#[verifier::external_body]
pub(crate) fn as_slice<A, const N: u32>(v: &BoundedVec<A, ConstU32<N>>) -> (r: &[A])
    ensures
        r@ == contents(*v),
{
    v.as_slice()
}

/// `Vec::from`, of a bounded vector: its items as an ordinary vector.
#[verifier::external_body]
pub(crate) fn into_vec<A, const N: u32>(v: BoundedVec<A, ConstU32<N>>) -> (r: Vec<A>)
    ensures
        r@ == contents(v),
{
    Vec::from(v)
}

/// `BoundedVec::try_from`, of a vector: the same items where the bound allows as many, and the
/// vector handed back where it does not.
#[verifier::external_body]
pub(crate) fn try_from_vec<A, const N: u32>(v: Vec<A>) -> (r: Result<
    BoundedVec<A, ConstU32<N>>,
    Vec<A>,
>)
    ensures
        r is Ok <==> v@.len() <= N,
        r matches Ok(b) ==> contents(b) == v@,
        r matches Err(w) ==> w == v,
{
    BoundedVec::try_from(v)
}

/// `BoundedVec::try_insert`: the item enters at `index` where the bound leaves room; else the
/// vector stays as it is and the item is handed back. It panics on an index behind the end.
#[verifier::external_body]
pub(crate) fn try_insert<A, const N: u32>(
    v: &mut BoundedVec<A, ConstU32<N>>,
    index: usize,
    element: A,
) -> (r: Result<(), A>)
    requires
        index <= contents(*old(v)).len(),
    ensures
        r is Ok <==> contents(*old(v)).len() < N,
        r is Ok ==> contents(*final(v)) == contents(*old(v)).insert(index as int, element),
        r matches Err(e) ==> e == element && contents(*final(v)) == contents(*old(v)),
{
    v.try_insert(index, element)
}

/// `BoundedVec::remove`: the item at `index` leaves and is handed out. It panics where there is
/// none.
#[verifier::external_body]
pub(crate) fn remove<A, const N: u32>(v: &mut BoundedVec<A, ConstU32<N>>, index: usize) -> (r: A)
    requires
        index < contents(*old(v)).len(),
    ensures
        r == contents(*old(v))[index as int],
        contents(*final(v)) == contents(*old(v)).remove(index as int),
{
    v.remove(index)
}

/// `BoundedVec::index_mut`, assigned to: the item at `index` is replaced. It panics where there is
/// none.
#[verifier::external_body]
pub(crate) fn replace<A, const N: u32>(
    v: &mut BoundedVec<A, ConstU32<N>>,
    index: usize,
    element: A,
)
    requires
        index < contents(*old(v)).len(),
    ensures
        contents(*final(v)) == contents(*old(v)).update(index as int, element),
{
    v[index] = element;
}

/// `BoundedVec::sort`: the same items in the order of their type. It may panic where that is not a
/// total order.
#[verifier::external_body]
pub(crate) fn sort<A: Ord, const N: u32>(v: &mut BoundedVec<A, ConstU32<N>>)
    requires
        lawful_order::<A>(),
    ensures
        is_ordered(contents(*final(v))),
        contents(*final(v)).to_multiset() == contents(*old(v)).to_multiset(),
{
    v.sort()
}

}
