use vstd::prelude::*;
use vstd::string::StringExecFns;

use crate::baggage::{Baggage, ids_unique, has_id, without_id, lemma_without_id_subset, lemma_without_id_unique};
use crate::fee::{
    BusinessFee, EconomyFee, FeeStrategy, FirstFee, MAX_BAGGAGES, MICRO_PER_UNIT, fee_units,
    lemma_price_fits, price_of,
};
use crate::types::{Balance, BaggageId, Distance, FlightId};

verus! {

/// The class of a booking, fixed when the flight is registered.
#[derive(Clone, Copy, Debug, PartialEq, Eq, Structural)]
pub enum FlightClass {
    First,
    Business,
    Economy,
}

/// Where a booking stands in its lifecycle.
#[derive(Clone, Copy, Debug, PartialEq, Eq, Structural)]
pub enum FlightState {
    Idle,
    Checked,
    Delivered,
    Claimed,
}

/// The name under which a class is shown.
pub open spec fn class_name(c: FlightClass) -> Seq<char> {
    match c {
        FlightClass::First => "First"@,
        FlightClass::Business => "Business"@,
        FlightClass::Economy => "Economy"@,
    }
}

/// The name under which a state is shown.
pub open spec fn state_name(s: FlightState) -> Seq<char> {
    match s {
        FlightState::Idle => "Idle"@,
        FlightState::Checked => "Checked"@,
        FlightState::Delivered => "Delivered"@,
        FlightState::Claimed => "Claimed"@,
    }
}

impl FlightClass {
    pub fn name(&self) -> (r: String)
        ensures
            r@ == class_name(*self),
    {
        match self {
            FlightClass::First => String::from_str("First"),
            FlightClass::Business => String::from_str("Business"),
            FlightClass::Economy => String::from_str("Economy"),
        }
    }
}

impl FlightState {
    pub fn name(&self) -> (r: String)
        ensures
            r@ == state_name(*self),
    {
        match self {
            FlightState::Idle => String::from_str("Idle"),
            FlightState::Checked => String::from_str("Checked"),
            FlightState::Delivered => String::from_str("Delivered"),
            FlightState::Claimed => String::from_str("Claimed"),
        }
    }
}

/// What a booking is, abstractly.
pub struct FlightView {
    pub flight_id: FlightId,
    pub flight_class: FlightClass,
    pub distance: Distance,
    pub baggages: Seq<Baggage>,
    pub state: FlightState,
}

impl FlightView {
    /// At most `MAX_BAGGAGES` pieces, with distinct identifiers.
    pub open spec fn wf(self) -> bool {
        &&& self.baggages.len() <= MAX_BAGGAGES
        &&& ids_unique(self.baggages)
    }

    /// The fee in micro-units for the current baggage.
    pub open spec fn price(self) -> int {
        price_of(self.flight_class, self.distance, self.baggages)
    }

    /// The fee in full currency units for the current baggage.
    pub open spec fn fee(self) -> int {
        fee_units(self.flight_class, self.distance, self.baggages)
    }

    /// A fresh booking: no baggage yet, waiting to be checked.
    pub open spec fn fresh(flight_id: FlightId, flight_class: FlightClass, distance: Distance) -> FlightView {
        FlightView { flight_id, flight_class, distance, baggages: Seq::empty(), state: FlightState::Idle }
    }

    pub open spec fn with_baggages(self, baggages: Seq<Baggage>) -> FlightView {
        FlightView { baggages, ..self }
    }

    pub open spec fn with_state(self, state: FlightState) -> FlightView {
        FlightView { state, ..self }
    }
}

/// `bags` after putting `b` in under its identifier: it takes the place of
/// the piece with the same identifier, or else joins the others.
pub open spec fn put_baggage(bags: Seq<Baggage>, b: Baggage) -> Seq<Baggage> {
    if has_id(bags, b.baggage_id) {
        let i = choose|i: int| 0 <= i < bags.len() && bags[i].baggage_id == b.baggage_id;
        bags.update(i, b)
    } else {
        bags.push(b)
    }
}

/// One customer's booking of one flight.
pub struct Flight {
    flight_id: FlightId,
    flight_class: FlightClass,
    distance: Distance,
    baggages: Vec<Baggage>,
    state: FlightState,
}

impl View for Flight {
    type V = FlightView;

    closed spec fn view(&self) -> FlightView {
        FlightView {
            flight_id: self.flight_id,
            flight_class: self.flight_class,
            distance: self.distance,
            baggages: self.baggages@,
            state: self.state,
        }
    }
}

impl Flight {
    pub fn new(flight_id: FlightId, flight_class: FlightClass, distance: Distance) -> (r: Self)
        ensures
            r@ == FlightView::fresh(flight_id, flight_class, distance),
    {
        let r = Self { flight_id, flight_class, distance, baggages: Vec::new(), state: FlightState::Idle };
        assert(r@.baggages =~= Seq::empty());
        r
    }

    /// Puts `baggage` in under its identifier, replacing a piece with the same one.
    pub fn add_baggage(&mut self, baggage: Baggage)
        requires
            old(self)@.wf(),
            old(self)@.baggages.len() < MAX_BAGGAGES || has_id(old(self)@.baggages, baggage.baggage_id),
        ensures
            final(self)@ == old(self)@.with_baggages(put_baggage(old(self)@.baggages, baggage)),
            final(self)@.wf(),
    {
        let ghost bags = self.baggages@;
        let mut i: usize = 0;
        while i < self.baggages.len()
            invariant
                i <= self.baggages@.len(),
                self@ == old(self)@,
                bags == old(self)@.baggages,
                old(self)@.wf(),
                forall|j: int| 0 <= j < i ==> bags[j].baggage_id != baggage.baggage_id,
            decreases self.baggages@.len() - i,
        {
            if self.baggages[i].baggage_id == baggage.baggage_id {
                proof {
                    assert(has_id(bags, baggage.baggage_id));
                    let k = choose|k: int| 0 <= k < bags.len() && bags[k].baggage_id == baggage.baggage_id;
                    assert(k == i);
                }
                self.baggages.set(i, baggage);
                proof {
                    let nb = self.baggages@;
                    assert forall|a: int, b: int|
                        0 <= a < nb.len() && 0 <= b < nb.len() && a != b implies nb[a].baggage_id
                        != nb[b].baggage_id by {
                        if a != i && b != i {
                            assert(bags[a].baggage_id != bags[b].baggage_id);
                        } else if a == i {
                            assert(bags[b].baggage_id != bags[a].baggage_id);
                        } else {
                            assert(bags[a].baggage_id != bags[b].baggage_id);
                        }
                    }
                    assert(ids_unique(nb));
                    assert(nb.len() == bags.len());
                }
                return;
            }
            i = i + 1;
        }
        assert(!has_id(bags, baggage.baggage_id));
        self.baggages.push(baggage);
        proof {
            let nb = self.baggages@;
            assert forall|a: int, b: int|
                0 <= a < nb.len() && 0 <= b < nb.len() && a != b implies nb[a].baggage_id
                != nb[b].baggage_id by {
                if a < bags.len() && b < bags.len() {
                    assert(bags[a].baggage_id != bags[b].baggage_id);
                }
            }
        }
    }

    /// Takes out the piece with identifier `baggage_id`, if there is one.
    pub fn remove_baggage(&mut self, baggage_id: BaggageId)
        requires
            old(self)@.wf(),
        ensures
            final(self)@ == old(self)@.with_baggages(without_id(old(self)@.baggages, baggage_id)),
            final(self)@.wf(),
    {
        let ghost bags = self.baggages@;
        let mut kept: Vec<Baggage> = Vec::new();
        let mut i: usize = 0;
        while i < self.baggages.len()
            invariant
                i <= self.baggages@.len(),
                self@ == old(self)@,
                bags == old(self)@.baggages,
                kept@ == without_id(bags.subrange(0, i as int), baggage_id),
            decreases self.baggages@.len() - i,
        {
            let b = self.baggages[i];
            proof {
                reveal(Seq::filter);
                assert(bags.subrange(0, i as int + 1).drop_last() =~= bags.subrange(0, i as int));
            }
            if b.baggage_id != baggage_id {
                kept.push(b);
            }
            i = i + 1;
        }
        assert(bags.subrange(0, i as int) =~= bags);
        proof {
            lemma_without_id_subset(bags, baggage_id);
            lemma_without_id_unique(bags, baggage_id);
        }
        self.baggages = kept;
    }

    /// Takes out every piece.
    pub fn clear_baggages(&mut self)
        ensures
            final(self)@ == old(self)@.with_baggages(Seq::empty()),
    {
        self.baggages.clear();
    }

    pub fn set_state(&mut self, new_state: FlightState)
        ensures
            final(self)@ == old(self)@.with_state(new_state),
    {
        self.state = new_state;
    }

    pub fn get_flight_id(&self) -> (r: FlightId)
        ensures
            r == self@.flight_id,
    {
        self.flight_id
    }

    pub fn get_flight_class(&self) -> (r: &FlightClass)
        ensures
            *r == self@.flight_class,
    {
        &self.flight_class
    }

    pub fn get_distance(&self) -> (r: Distance)
        ensures
            r == self@.distance,
    {
        self.distance
    }

    pub fn get_state(&self) -> (r: &FlightState)
        ensures
            *r == self@.state,
    {
        &self.state
    }

    pub fn get_baggages(&self) -> (r: &Vec<Baggage>)
        ensures
            r@ == self@.baggages,
    {
        &self.baggages
    }

    /// The fee in micro-units, priced by the rule of the flight's class.
    pub fn get_price(&self) -> (r: Balance)
        requires
            self@.wf(),
        ensures
            r as int == self@.price(),
    {
        match self.flight_class {
            FlightClass::First => FirstFee {}.calculate_fee(self.distance, &self.baggages),
            FlightClass::Business => BusinessFee {}.calculate_fee(self.distance, &self.baggages),
            FlightClass::Economy => EconomyFee {}.calculate_fee(self.distance, &self.baggages),
        }
    }

    /// The fee in full currency units.
    pub fn get_fee(&self) -> (r: Balance)
        requires
            self@.wf(),
        ensures
            r as int == self@.fee(),
    {
        proof {
            lemma_price_fits(self.flight_class, self.distance, self.baggages@);
        }
        let p = self.get_price();
        assert(self@.fee() * 1_000_000_000_000_000_000 / 1_000_000_000_000_000_000 == self@.fee())
            by (nonlinear_arith);
        p / MICRO_PER_UNIT
    }
}

} // verus!
