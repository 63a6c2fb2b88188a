use airplane_baggage_checking::{Contract, ContractError, FlightClass};

const AIRLINE: &str = "phuc16102001.testnet";
const CUSTOMER: &str = "thanhhoang4869.testnet";
const CURRENT: &str = "dev&-account.testnet";

fn airline() -> String {
    AIRLINE.to_string()
}

fn customer() -> String {
    CUSTOMER.to_string()
}

fn current() -> String {
    CURRENT.to_string()
}

/// A registry deployed by the airline, which signs and calls first.
fn deployed() -> Contract {
    Contract::new(airline(), airline())
}

/// A registry that the airline has initialized with itself as payment account.
fn initialized() -> Contract {
    let mut contract = deployed();
    contract.init(&airline(), &current(), airline()).unwrap();
    contract
}

#[test]
fn tests_init_contract() {
    let mut contract = deployed();
    assert_eq!(contract.get_initialized(), false);

    contract.init(&airline(), &current(), "phuc16102001.testnet".to_string()).unwrap();
    assert_eq!(contract.get_payment_account().unwrap(), "phuc16102001.testnet");
    assert_eq!(contract.get_owner(), "phuc16102001.testnet");
    assert_eq!(contract.get_initialized(), true);
}

#[test]
fn double_init() {
    let mut contract = deployed();
    assert_eq!(contract.get_initialized(), false);

    contract.init(&airline(), &current(), "phuc16102001.testnet".to_string()).unwrap();
    assert_eq!(
        contract.init(&airline(), &current(), "phuc16102001.testnet".to_string()),
        Err(ContractError::AlreadyInitialized)
    );
}

#[test]
fn tests_reset_payment_account() {
    let mut contract = deployed();

    contract.init(&airline(), &current(), "phuc16102001.testnet".to_string()).unwrap();
    contract.reset(&airline()).unwrap();
    contract.init(&airline(), &current(), "thanhhoang4869.testnet".to_string()).unwrap();

    assert_eq!(contract.get_payment_account().unwrap(), "thanhhoang4869.testnet");
    assert_eq!(contract.get_owner(), "phuc16102001.testnet");
}

#[test]
fn tests_registry_flight() {
    let mut contract = initialized();
    let flight_id = 1;
    contract.registry(&customer(), 1, FlightClass::First, 10).unwrap();
    assert_eq!(contract.check_class(&customer(), flight_id).unwrap(), "First");
}

#[test]
fn add_baggages_fail() {
    let mut contract = initialized();
    let flight_id = 1;
    assert_eq!(contract.add_baggage(&customer(), flight_id, 4), Err(ContractError::FlightNotFound));
}

#[test]
fn add_baggages_success() {
    let mut contract = initialized();
    let flight_id = 1;
    contract.registry(&customer(), 1, FlightClass::First, 10).unwrap();
    let baggage_id = contract.add_baggage(&customer(), flight_id, 4).unwrap();
    let baggage = contract.check_baggage(&customer(), flight_id, baggage_id).unwrap();

    assert_eq!(baggage_id, 0);
    assert_eq!(baggage.get_id(), 0);
    assert_eq!(baggage.get_weight(), 4);
}

#[test]
fn count_baggages() {
    let mut contract = initialized();
    let flight_id = 1;
    contract.registry(&customer(), 1, FlightClass::First, 10).unwrap();
    contract.add_baggage(&customer(), flight_id, 4).unwrap();
    contract.add_baggage(&customer(), flight_id, 1).unwrap();

    assert_eq!(contract.check_number_baggages(&customer(), flight_id).unwrap(), 2);
}

#[test]
fn limit_baggages() {
    let mut contract = initialized();
    let flight_id = 1;
    contract.registry(&customer(), 1, FlightClass::First, 10).unwrap();
    contract.add_baggage(&customer(), flight_id, 1).unwrap();
    contract.add_baggage(&customer(), flight_id, 3).unwrap();
    contract.add_baggage(&customer(), flight_id, 5).unwrap();
    assert_eq!(
        contract.add_baggage(&customer(), flight_id, 4),
        Err(ContractError::BaggageLimitExceeded)
    );
}

#[test]
fn not_found_baggages() {
    let mut contract = initialized();
    let flight_id = 1;
    contract.registry(&customer(), 1, FlightClass::First, 10).unwrap();

    let baggage_id = contract.add_baggage(&customer(), flight_id, 1).unwrap();
    let other_id = baggage_id + 1;
    assert_eq!(
        contract.check_baggage(&customer(), flight_id, other_id),
        Err(ContractError::BaggageNotFound)
    );
}

fn check_fee(
    flight_class: FlightClass,
    distance: u64,
    first_weight: u64,
    second_weight: u64,
    third_weight: u64,
    expected_price: u128,
) {
    let mut contract = initialized();
    let flight_id = 1;
    contract.registry(&customer(), flight_id, flight_class, distance).unwrap();

    contract.add_baggage(&customer(), flight_id, first_weight).unwrap();
    contract.add_baggage(&customer(), flight_id, second_weight).unwrap();
    contract.add_baggage(&customer(), flight_id, third_weight).unwrap();

    assert_eq!(contract.check_fee(&customer(), flight_id).unwrap(), expected_price)
}

#[test]
fn check_fee_first() {
    check_fee(FlightClass::First, 100, 5, 2, 3, 10)
}

#[test]
fn check_fee_business() {
    check_fee(FlightClass::Business, 100, 5, 2, 3, 20)
}

#[test]
fn check_fee_economy() {
    check_fee(FlightClass::Economy, 100, 5, 2, 3, 220)
}

#[test]
fn test_init_contract() {
    let mut contract = deployed();
    assert_eq!(contract.get_initialized(), false);

    contract.init(&airline(), &"dev-account.testnet".to_string(), "phuc16102001.testnet".to_string()).unwrap();
    assert_eq!(contract.get_payment_account().unwrap(), "phuc16102001.testnet");
    assert_eq!(contract.get_owner(), "phuc16102001.testnet");
    assert_eq!(contract.get_initialized(), true);
}

#[test]
fn test_reset_payment_account() {
    let mut contract = deployed();

    contract.init(&airline(), &"dev-account.testnet".to_string(), "phuc16102001.testnet".to_string()).unwrap();
    contract.reset(&airline()).unwrap();
    contract.init(&airline(), &"dev-account.testnet".to_string(), "thanhhoang4869.testnet".to_string()).unwrap();

    assert_eq!(contract.get_payment_account().unwrap(), "thanhhoang4869.testnet");
    assert_eq!(contract.get_owner(), "phuc16102001.testnet");
}

#[test]
fn test_registry_flight() {
    let mut contract = deployed();
    contract.init(&airline(), &"dev-account.testnet".to_string(), "phuc16102001.testnet".to_string()).unwrap();
    assert_eq!(contract.registry(&customer(), 1, FlightClass::First, 10), Ok(()));
    assert_eq!(contract.check_state(&customer(), 1).unwrap(), "Idle");
}
