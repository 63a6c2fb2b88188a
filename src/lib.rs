//! A ledger of airline baggage checking: customers register flights, attach
//! up to three pieces of baggage, pay a class-dependent fee, and the airline
//! moves each booking through its lifecycle before the payment is released.

pub mod baggage;
pub mod contract;
pub mod error;
pub mod fee;
pub mod flight;
pub mod types;

pub use baggage::Baggage;
pub use contract::{Contract, ContractView, Transfer};
pub use error::ContractError;
pub use fee::{BusinessFee, EconomyFee, FeeStrategy, FirstFee};
pub use flight::{Flight, FlightClass, FlightState, FlightView};
pub use types::{AccountId, Balance, BaggageId, Distance, FlightId, Weight, to_yoto};
