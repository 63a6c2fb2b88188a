use airplane_baggage_checking::{
    to_yoto, Baggage, BusinessFee, EconomyFee, FeeStrategy, FirstFee, Flight, FlightClass, FlightState,
};

const MICRO: u128 = 1_000_000_000_000_000_000;

fn flight_with(class: FlightClass, distance: u64, weights: &[u64]) -> Flight {
    let mut flight = Flight::new(7, class, distance);
    for (i, w) in weights.iter().enumerate() {
        flight.add_baggage(Baggage::new(i as u64, *w));
    }
    flight
}

#[test]
fn empty_baggage_prices() {
    assert_eq!(flight_with(FlightClass::First, 100, &[]).get_price(), 0);
    assert_eq!(flight_with(FlightClass::Business, 100, &[]).get_price(), 0);
    assert_eq!(flight_with(FlightClass::Economy, 100, &[]).get_price(), 100 * 2 * MICRO);
    assert_eq!(flight_with(FlightClass::Economy, 0, &[]).get_price(), 0);
}

#[test]
fn first_class_never_above_business() {
    let sets: [&[u64]; 5] = [&[], &[7], &[5, 2, 3], &[4, 4, 4], &[0, 9, 1]];
    for set in sets.iter() {
        let first = flight_with(FlightClass::First, 50, set).get_price();
        let business = flight_with(FlightClass::Business, 50, set).get_price();
        assert!(first <= business);
    }
}

#[test]
fn heaviest_piece_waived_in_first_class() {
    let flight = flight_with(FlightClass::First, 100, &[5, 2, 3]);
    assert_eq!(flight.get_price(), 10 * MICRO);
    assert_eq!(flight.get_fee(), 10);
    assert_eq!(to_yoto(flight.get_fee()), 10 * 1_000_000_000_000_000_000_000_000);
}

#[test]
fn business_charges_all_weight() {
    let flight = flight_with(FlightClass::Business, 100, &[5, 2, 3]);
    assert_eq!(flight.get_price(), 20 * MICRO);
    assert_eq!(flight.get_fee(), 20);
}

#[test]
fn economy_adds_distance() {
    let flight = flight_with(FlightClass::Economy, 100, &[5, 2, 3]);
    assert_eq!(flight.get_price(), 220 * MICRO);
    assert_eq!(flight.get_fee(), 220);
}

#[test]
fn strategies_price_directly() {
    let bags = vec![Baggage::new(0, 5), Baggage::new(1, 2), Baggage::new(2, 3)];
    assert_eq!(FirstFee {}.calculate_fee(100, &bags), 10 * MICRO);
    assert_eq!(BusinessFee {}.calculate_fee(100, &bags), 20 * MICRO);
    assert_eq!(EconomyFee {}.calculate_fee(100, &bags), 220 * MICRO);
}

#[test]
fn largest_weights_do_not_overflow() {
    let m = u64::MAX;
    let flight = flight_with(FlightClass::Economy, m, &[m, m, m]);
    assert_eq!(flight.get_price(), 4 * (m as u128) * 2 * MICRO);
    let flight = flight_with(FlightClass::First, m, &[m, m, m]);
    assert_eq!(flight.get_price(), 2 * (m as u128) * 2 * MICRO);
}

#[test]
fn price_follows_current_baggage() {
    let mut flight = flight_with(FlightClass::Business, 10, &[5, 2]);
    assert_eq!(flight.get_fee(), 14);
    flight.remove_baggage(0);
    assert_eq!(flight.get_fee(), 4);
    flight.remove_baggage(42);
    assert_eq!(flight.get_fee(), 4);
    flight.clear_baggages();
    assert_eq!(flight.get_fee(), 0);
    assert_eq!(flight.get_baggages().len(), 0);
}

#[test]
fn same_id_replaces_piece() {
    let mut flight = flight_with(FlightClass::Business, 10, &[5, 2]);
    flight.add_baggage(Baggage::new(1, 9));
    assert_eq!(flight.get_baggages().len(), 2);
    assert_eq!(flight.get_fee(), 28);
}

#[test]
fn flight_accessors() {
    let mut flight = Flight::new(3, FlightClass::Economy, 250);
    assert_eq!(flight.get_flight_id(), 3);
    assert_eq!(*flight.get_flight_class(), FlightClass::Economy);
    assert_eq!(flight.get_distance(), 250);
    assert_eq!(*flight.get_state(), FlightState::Idle);
    flight.set_state(FlightState::Checked);
    assert_eq!(*flight.get_state(), FlightState::Checked);
    assert_eq!(FlightClass::Business.name(), "Business");
    assert_eq!(FlightState::Delivered.name(), "Delivered");
}

#[test]
fn to_yoto_scales_by_ten_to_the_twenty_four() {
    assert_eq!(to_yoto(0), 0);
    assert_eq!(to_yoto(3), 3_000_000_000_000_000_000_000_000);
}
