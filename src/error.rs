use vstd::prelude::*;

use crate::flight::FlightState;
use crate::types::Balance;

verus! {

/// Why a registry operation was refused. A refused operation changes nothing.
#[derive(Clone, Copy, Debug, PartialEq, Eq, Structural)]
pub enum ContractError {
    /// The registry has not been initialized.
    NotInitialized,
    /// The registry was initialized already.
    AlreadyInitialized,
    /// The caller is not the account that this operation is reserved for.
    NotOwner,
    /// The payment account named is the registry's own account.
    PaymentAccountIsContract,
    /// The caller registered this flight already.
    DuplicateRegistration,
    /// The caller has no booking for this flight.
    FlightNotFound,
    /// The booking holds no piece with this identifier.
    BaggageNotFound,
    /// The booking holds as many pieces as it may.
    BaggageLimitExceeded,
    /// The operation needs the booking in state `expected`; it is in `actual`.
    InvalidState { expected: FlightState, actual: FlightState },
    /// The deposit attached does not pay the fee: `fee` in full units, `deposit` in base units.
    PaymentMismatch { fee: Balance, deposit: Balance },
}

} // verus!
