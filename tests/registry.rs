use airplane_baggage_checking::{Contract, ContractError, FlightClass, FlightState};

const YOCTO: u128 = 1_000_000_000_000_000_000_000_000;

fn airline() -> String {
    "airline.testnet".to_string()
}

fn alice() -> String {
    "alice.testnet".to_string()
}

fn bob() -> String {
    "bob.testnet".to_string()
}

fn open_registry() -> Contract {
    let mut contract = Contract::new(airline(), airline());
    contract.init(&airline(), &"registry.testnet".to_string(), airline()).unwrap();
    contract
}

/// Alice's booking of flight 1 with pieces of 5, 2 and 3 pounds.
fn booked(class: FlightClass) -> Contract {
    let mut contract = open_registry();
    contract.registry(&alice(), 1, class, 100).unwrap();
    contract.add_baggage(&alice(), 1, 5).unwrap();
    contract.add_baggage(&alice(), 1, 2).unwrap();
    contract.add_baggage(&alice(), 1, 3).unwrap();
    contract
}

#[test]
fn scenario_first_class_deposit() {
    let mut contract = booked(FlightClass::First);
    assert_eq!(contract.check_fee(&alice(), 1).unwrap(), 10);
    assert_eq!(contract.accept(&alice(), 1, 10 * YOCTO), Ok(()));
    assert_eq!(contract.check_state(&alice(), 1).unwrap(), "Checked");
}

#[test]
fn scenario_business_deposit() {
    let mut contract = booked(FlightClass::Business);
    assert_eq!(contract.check_fee(&alice(), 1).unwrap(), 20);
    assert_eq!(contract.accept(&alice(), 1, 20 * YOCTO), Ok(()));
}

#[test]
fn scenario_economy_deposit() {
    let mut contract = booked(FlightClass::Economy);
    assert_eq!(contract.check_fee(&alice(), 1).unwrap(), 220);
    assert_eq!(contract.accept(&alice(), 1, 220 * YOCTO), Ok(()));
}

#[test]
fn accept_needs_exact_payment() {
    let mut contract = booked(FlightClass::First);
    assert_eq!(
        contract.accept(&alice(), 1, 10 * YOCTO - 1),
        Err(ContractError::PaymentMismatch { fee: 10, deposit: 10 * YOCTO - 1 })
    );
    assert_eq!(
        contract.accept(&alice(), 1, 10 * YOCTO + 1),
        Err(ContractError::PaymentMismatch { fee: 10, deposit: 10 * YOCTO + 1 })
    );
    assert_eq!(contract.accept(&alice(), 1, 0), Err(ContractError::PaymentMismatch { fee: 10, deposit: 0 }));
    assert_eq!(contract.check_state(&alice(), 1).unwrap(), "Idle");
    assert_eq!(contract.accept(&alice(), 1, 10 * YOCTO), Ok(()));
}

#[test]
fn accept_of_unpayable_fee_is_mismatch() {
    let mut contract = open_registry();
    contract.registry(&alice(), 1, FlightClass::Economy, u64::MAX).unwrap();
    let fee = contract.check_fee(&alice(), 1).unwrap();
    assert_eq!(fee, 2 * (u64::MAX as u128));
    assert_eq!(
        contract.accept(&alice(), 1, u128::MAX),
        Err(ContractError::PaymentMismatch { fee, deposit: u128::MAX })
    );
}

#[test]
fn empty_booking_fees() {
    let mut contract = open_registry();
    contract.registry(&alice(), 1, FlightClass::First, 100).unwrap();
    contract.registry(&alice(), 2, FlightClass::Business, 100).unwrap();
    contract.registry(&alice(), 3, FlightClass::Economy, 100).unwrap();
    assert_eq!(contract.check_fee(&alice(), 1).unwrap(), 0);
    assert_eq!(contract.check_fee(&alice(), 2).unwrap(), 0);
    assert_eq!(contract.check_fee(&alice(), 3).unwrap(), 200);
    assert_eq!(contract.accept(&alice(), 1, 0), Ok(()));
}

#[test]
fn full_lifecycle_pays_airline() {
    let mut contract = booked(FlightClass::Business);
    contract.accept(&alice(), 1, 20 * YOCTO).unwrap();
    contract.deliver_baggage(&airline(), &alice(), 1).unwrap();
    assert_eq!(contract.check_state(&alice(), 1).unwrap(), "Delivered");
    let transfer = contract.claim_baggages(&alice(), 1).unwrap();
    assert_eq!(transfer.receiver, airline());
    assert_eq!(transfer.amount, 20 * YOCTO);
    assert_eq!(contract.check_state(&alice(), 1).unwrap(), "Claimed");
    assert_eq!(
        contract.claim_baggages(&alice(), 1).map(|t| t.amount),
        Err(ContractError::InvalidState { expected: FlightState::Delivered, actual: FlightState::Claimed })
    );
}

#[test]
fn transitions_out_of_order_are_refused() {
    let mut contract = booked(FlightClass::First);
    assert_eq!(
        contract.deliver_baggage(&airline(), &alice(), 1),
        Err(ContractError::InvalidState { expected: FlightState::Checked, actual: FlightState::Idle })
    );
    assert_eq!(
        contract.claim_baggages(&alice(), 1).map(|t| t.amount),
        Err(ContractError::InvalidState { expected: FlightState::Delivered, actual: FlightState::Idle })
    );
    contract.accept(&alice(), 1, 10 * YOCTO).unwrap();
    assert_eq!(
        contract.claim_baggages(&alice(), 1).map(|t| t.amount),
        Err(ContractError::InvalidState { expected: FlightState::Delivered, actual: FlightState::Checked })
    );
    assert_eq!(
        contract.accept(&alice(), 1, 10 * YOCTO),
        Err(ContractError::InvalidState { expected: FlightState::Idle, actual: FlightState::Checked })
    );
}

#[test]
fn only_airline_delivers() {
    let mut contract = booked(FlightClass::First);
    contract.accept(&alice(), 1, 10 * YOCTO).unwrap();
    assert_eq!(contract.deliver_baggage(&alice(), &alice(), 1), Err(ContractError::NotOwner));
    assert_eq!(contract.deliver_baggage(&airline(), &bob(), 1), Err(ContractError::FlightNotFound));
    assert_eq!(contract.deliver_baggage(&airline(), &alice(), 1), Ok(()));
}

#[test]
fn baggage_frozen_after_check_in() {
    let mut contract = booked(FlightClass::First);
    contract.accept(&alice(), 1, 10 * YOCTO).unwrap();
    let invalid = Err(ContractError::InvalidState { expected: FlightState::Idle, actual: FlightState::Checked });
    assert_eq!(contract.add_baggage(&alice(), 1, 1).map(|_| ()), invalid);
    assert_eq!(contract.remove_baggage(&alice(), 1, 0), invalid);
    assert_eq!(contract.check_number_baggages(&alice(), 1).unwrap(), 3);
    assert_eq!(contract.remove_all_baggages(&alice(), 1), Ok(()));
    assert_eq!(contract.check_number_baggages(&alice(), 1).unwrap(), 0);
    assert_eq!(contract.check_fee(&alice(), 1).unwrap(), 0);
}

#[test]
fn claim_pays_current_fee() {
    let mut contract = booked(FlightClass::Economy);
    contract.accept(&alice(), 1, 220 * YOCTO).unwrap();
    contract.remove_all_baggages(&alice(), 1).unwrap();
    contract.deliver_baggage(&airline(), &alice(), 1).unwrap();
    let transfer = contract.claim_baggages(&alice(), 1).unwrap();
    assert_eq!(transfer.amount, 200 * YOCTO);
}

#[test]
fn ids_unique_across_flights_and_accounts() {
    let mut contract = open_registry();
    contract.registry(&alice(), 1, FlightClass::First, 10).unwrap();
    contract.registry(&alice(), 2, FlightClass::First, 10).unwrap();
    contract.registry(&bob(), 1, FlightClass::Economy, 10).unwrap();
    let a = contract.add_baggage(&alice(), 1, 1).unwrap();
    let b = contract.add_baggage(&bob(), 1, 1).unwrap();
    let c = contract.add_baggage(&alice(), 2, 1).unwrap();
    assert_eq!((a, b, c), (0, 1, 2));
    contract.remove_baggage(&alice(), 1, a).unwrap();
    contract.remove_all_baggages(&bob(), 1).unwrap();
    let d = contract.add_baggage(&alice(), 1, 1).unwrap();
    assert_eq!(d, 3);
    assert_eq!(contract.get_count_baggage(), 4);
    assert_eq!(contract.check_baggage(&bob(), 1, b), Err(ContractError::BaggageNotFound));
    assert_eq!(contract.check_baggage(&alice(), 1, c), Err(ContractError::BaggageNotFound));
}

#[test]
fn fourth_piece_refused_after_three_increasing_ids() {
    let mut contract = open_registry();
    contract.registry(&bob(), 9, FlightClass::Business, 10).unwrap();
    let first = contract.add_baggage(&bob(), 9, 1).unwrap();
    let second = contract.add_baggage(&bob(), 9, 2).unwrap();
    let third = contract.add_baggage(&bob(), 9, 3).unwrap();
    assert!(first < second && second < third);
    assert_eq!(contract.add_baggage(&bob(), 9, 4), Err(ContractError::BaggageLimitExceeded));
    assert_eq!(contract.get_count_baggage(), 3);
    contract.remove_baggage(&bob(), 9, second).unwrap();
    assert_eq!(contract.add_baggage(&bob(), 9, 4), Ok(3));
}

#[test]
fn duplicate_registration_refused() {
    let mut contract = open_registry();
    assert_eq!(contract.registry(&alice(), 1, FlightClass::First, 10), Ok(()));
    assert_eq!(
        contract.registry(&alice(), 1, FlightClass::Economy, 20),
        Err(ContractError::DuplicateRegistration)
    );
    assert_eq!(contract.check_class(&alice(), 1).unwrap(), "First");
    assert_eq!(contract.registry(&bob(), 1, FlightClass::Economy, 20), Ok(()));
    assert_eq!(contract.check_class(&bob(), 1).unwrap(), "Economy");
}

#[test]
fn unknown_flight_and_baggage_not_found() {
    let mut contract = open_registry();
    contract.registry(&alice(), 1, FlightClass::First, 10).unwrap();
    assert_eq!(contract.check_baggage(&alice(), 1, 0), Err(ContractError::BaggageNotFound));
    assert_eq!(contract.check_fee(&bob(), 1), Err(ContractError::FlightNotFound));
    assert_eq!(contract.check_state(&alice(), 2), Err(ContractError::FlightNotFound));
    assert_eq!(contract.check_class(&alice(), 2), Err(ContractError::FlightNotFound));
    assert_eq!(contract.check_number_baggages(&alice(), 2), Err(ContractError::FlightNotFound));
    assert_eq!(contract.check_baggage(&alice(), 2, 0), Err(ContractError::FlightNotFound));
    assert_eq!(contract.accept(&alice(), 2, 0), Err(ContractError::FlightNotFound));
    assert_eq!(contract.remove_baggage(&alice(), 2, 0), Err(ContractError::FlightNotFound));
    assert_eq!(contract.remove_all_baggages(&alice(), 2), Err(ContractError::FlightNotFound));
    assert_eq!(contract.claim_baggages(&alice(), 2).map(|t| t.amount), Err(ContractError::FlightNotFound));
}

#[test]
fn removing_absent_piece_is_no_op() {
    let mut contract = booked(FlightClass::Business);
    assert_eq!(contract.remove_baggage(&alice(), 1, 99), Ok(()));
    assert_eq!(contract.check_number_baggages(&alice(), 1).unwrap(), 3);
    assert_eq!(contract.remove_baggage(&alice(), 1, 1), Ok(()));
    assert_eq!(contract.check_number_baggages(&alice(), 1).unwrap(), 2);
    assert_eq!(contract.check_fee(&alice(), 1).unwrap(), 16);
}

#[test]
fn uninitialized_registry_refuses() {
    let mut contract = Contract::new(airline(), airline());
    assert_eq!(contract.registry(&alice(), 1, FlightClass::First, 10), Err(ContractError::NotInitialized));
    assert_eq!(contract.add_baggage(&alice(), 1, 1), Err(ContractError::NotInitialized));
    assert_eq!(contract.check_fee(&alice(), 1), Err(ContractError::NotInitialized));
    assert_eq!(contract.get_payment_account(), Err(ContractError::NotInitialized));
    assert_eq!(contract.reset(&airline()), Err(ContractError::NotInitialized));
    assert_eq!(contract.deliver_baggage(&airline(), &alice(), 1), Err(ContractError::NotInitialized));
}

#[test]
fn administration_reserved_to_owner() {
    let mut contract = Contract::new(airline(), airline());
    assert_eq!(
        contract.init(&alice(), &"registry.testnet".to_string(), airline()),
        Err(ContractError::NotOwner)
    );
    assert_eq!(
        contract.init(&airline(), &"registry.testnet".to_string(), "registry.testnet".to_string()),
        Err(ContractError::PaymentAccountIsContract)
    );
    assert_eq!(contract.get_initialized(), false);
    contract.init(&airline(), &"registry.testnet".to_string(), bob()).unwrap();
    assert_eq!(contract.reset(&alice()), Err(ContractError::NotOwner));
    contract.registry(&alice(), 1, FlightClass::First, 10).unwrap();
    contract.add_baggage(&alice(), 1, 1).unwrap();
    assert_eq!(contract.reset(&airline()), Ok(()));
    assert_eq!(contract.get_initialized(), false);
    contract.init(&airline(), &"registry.testnet".to_string(), bob()).unwrap();
    assert_eq!(contract.check_fee(&alice(), 1), Err(ContractError::FlightNotFound));
    contract.registry(&alice(), 1, FlightClass::First, 10).unwrap();
    assert_eq!(contract.add_baggage(&alice(), 1, 1), Ok(1));
}
