use vstd::prelude::*;

verus! {

/// Identifier of a piece of baggage, drawn from the registry's global counter.
pub type BaggageId = u64;

/// Identifier of a flight, chosen by the customer.
pub type FlightId = u64;

/// Flight distance in whole miles.
pub type Distance = u64;

/// Baggage weight in whole pounds.
pub type Weight = u64;

/// An amount of currency in the smallest on-chain unit.
pub type Balance = u128;

/// The name of an account.
pub type AccountId = String;

/// Number of on-chain base units in one full currency unit.
pub const YOCTO_PER_UNIT: u128 = 1_000_000_000_000_000_000_000_000;

/// `near` full units expressed in on-chain base units.
pub open spec fn yocto_of(near: int) -> int {
    near * 1_000_000_000_000_000_000_000_000
}

/// Converts full currency units into on-chain base units.
pub fn to_yoto(near: Balance) -> (r: Balance)
    requires
        yocto_of(near as int) <= u128::MAX,
    ensures
        r as int == yocto_of(near as int),
{
    near * YOCTO_PER_UNIT
}

} // verus!
