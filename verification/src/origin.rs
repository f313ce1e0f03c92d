//! The origins of calls, as `frame_support` and `frame_system` tell them apart.
use frame_support::dispatch::RawOrigin;
use frame_support::sp_runtime::traits::BadOrigin;
use vstd::prelude::*;

verus! {

/// `frame_support::dispatch::RawOrigin`: where a call comes from. Its variants are in sight.
#[verifier::external_type_specification]
#[verifier::reject_recursive_types(AccountId)]
pub struct ExRawOrigin<AccountId>(frame_support::dispatch::RawOrigin<AccountId>);

/// `sp_runtime::traits::BadOrigin`: the origin of a call is not one that may make it.
#[verifier::external_type_specification]
#[verifier::external_body]
pub struct ExBadOrigin(frame_support::sp_runtime::traits::BadOrigin);

/// `sp_runtime::DispatchError`: what a call that is refused gives back.
#[verifier::external_type_specification]
#[verifier::external_body]
pub struct ExDispatchError(frame_support::sp_runtime::DispatchError);

/// `signer` is what an origin says of who signed the call: the account, if the origin turns out to
/// be a signature.
pub open spec fn signer_of<O: Into<Result<RawOrigin<A>, O>>, A>(
    origin: O,
    signer: Result<A, BadOrigin>,
) -> bool {
    exists|raw: Result<RawOrigin<A>, O>|
        {
            &&& #[trigger] call_ensures(
                <O as Into<Result<RawOrigin<A>, O>>>::into,
                (origin,),
                raw,
            )
            &&& match raw {
                Ok(RawOrigin::Signed(account)) => signer matches Ok(who) && who == account,
                _ => signer is Err,
            }
        }
}

/// `frame_system::ensure_signed` turns the origin into a `RawOrigin`. It gives the account of a
/// signed one and fails on every other.
pub assume_specification<OuterOrigin, AccountId>[ frame_system::ensure_signed::<
    OuterOrigin,
    AccountId,
> ](o: OuterOrigin) -> (r: Result<AccountId, BadOrigin>)
    where OuterOrigin: Into<Result<RawOrigin<AccountId>, OuterOrigin>>
    ensures
        signer_of(o, r),
;

}
