use vstd::prelude::*;

use crate::baggage::{Baggage, has_id, ids_unique, without_id, lemma_without_id_subset, lemma_without_id_unique};
use crate::error::ContractError;
use crate::fee::{MAX_BAGGAGES, lemma_empty_fee_not_above};
use crate::flight::{Flight, FlightClass, FlightState, FlightView, class_name, state_name};
use crate::types::{AccountId, Balance, BaggageId, Distance, FlightId, Weight, to_yoto, yocto_of, YOCTO_PER_UNIT};

verus! {

/// What the registry is, abstractly: who administers it, where payments go,
/// the bookings keyed by (customer, flight), and the next baggage identifier.
pub struct ContractView {
    pub owner: Seq<char>,
    pub payment_account: Seq<char>,
    pub initialized: bool,
    pub flights: Map<(Seq<char>, FlightId), FlightView>,
    pub count_baggage: BaggageId,
}

/// A payment that the registry asks its host to send.
pub struct Transfer {
    pub receiver: AccountId,
    pub amount: Balance,
}

impl ContractView {
    /// The invariant of the registry: each booking is well formed and stored
    /// under its own flight identifier; every baggage identifier is below the
    /// counter and no two pieces anywhere share one; a booking that has been
    /// paid for has a fee whose amount in base units fits in a `Balance`.
    pub open spec fn wf(self) -> bool {
        &&& forall|k: (Seq<char>, FlightId)| #[trigger]
            self.flights.contains_key(k) ==> self.flights[k].wf() && self.flights[k].flight_id == k.1
        &&& forall|k: (Seq<char>, FlightId), i: int|
            self.flights.contains_key(k) && 0 <= i < self.flights[k].baggages.len()
                ==> #[trigger] self.flights[k].baggages[i].baggage_id < self.count_baggage
        &&& forall|k1: (Seq<char>, FlightId), i: int, k2: (Seq<char>, FlightId), j: int|
            #![trigger self.flights[k1].baggages[i], self.flights[k2].baggages[j]]
            self.flights.contains_key(k1) && self.flights.contains_key(k2) && 0 <= i
                < self.flights[k1].baggages.len() && 0 <= j < self.flights[k2].baggages.len()
                && (k1 != k2 || i != j) ==> self.flights[k1].baggages[i].baggage_id
                != self.flights[k2].baggages[j].baggage_id
        &&& forall|k: (Seq<char>, FlightId)| #[trigger]
            self.flights.contains_key(k) && self.flights[k].state != FlightState::Idle
                ==> yocto_of(self.flights[k].fee()) <= u128::MAX
    }

    pub open spec fn has_flight(self, owner: Seq<char>, flight_id: FlightId) -> bool {
        self.flights.contains_key((owner, flight_id))
    }

    pub open spec fn flight(self, owner: Seq<char>, flight_id: FlightId) -> FlightView {
        self.flights[(owner, flight_id)]
    }

    /// The registry with the booking of `owner` for `flight_id` set to `f`.
    pub open spec fn with_flight(self, owner: Seq<char>, flight_id: FlightId, f: FlightView) -> ContractView {
        ContractView { flights: self.flights.insert((owner, flight_id), f), ..self }
    }

    /// Why an operation on the booking of `owner` for `flight_id` is refused
    /// before its state is looked at, if it is.
    pub open spec fn lookup_error(self, owner: Seq<char>, flight_id: FlightId) -> Option<ContractError> {
        if !self.initialized {
            Some(ContractError::NotInitialized)
        } else if !self.has_flight(owner, flight_id) {
            Some(ContractError::FlightNotFound)
        } else {
            None
        }
    }

    /// Why an operation that needs the booking in state `expected` is refused, if it is.
    pub open spec fn state_error(self, owner: Seq<char>, flight_id: FlightId, expected: FlightState) -> Option<ContractError> {
        if self.lookup_error(owner, flight_id).is_some() {
            self.lookup_error(owner, flight_id)
        } else if self.flight(owner, flight_id).state != expected {
            Some(ContractError::InvalidState { expected, actual: self.flight(owner, flight_id).state })
        } else {
            None
        }
    }

    pub open spec fn registry_error(self, caller: Seq<char>, flight_id: FlightId) -> Option<ContractError> {
        if !self.initialized {
            Some(ContractError::NotInitialized)
        } else if self.has_flight(caller, flight_id) {
            Some(ContractError::DuplicateRegistration)
        } else {
            None
        }
    }

    /// The registry after `caller` registers `flight_id`.
    pub open spec fn registered(self, caller: Seq<char>, flight_id: FlightId, flight_class: FlightClass, distance: Distance) -> ContractView {
        self.with_flight(caller, flight_id, FlightView::fresh(flight_id, flight_class, distance))
    }

    pub open spec fn remove_baggage_error(self, caller: Seq<char>, flight_id: FlightId) -> Option<ContractError> {
        self.state_error(caller, flight_id, FlightState::Idle)
    }

    pub open spec fn add_baggage_error(self, caller: Seq<char>, flight_id: FlightId) -> Option<ContractError> {
        if self.state_error(caller, flight_id, FlightState::Idle).is_some() {
            self.state_error(caller, flight_id, FlightState::Idle)
        } else if self.flight(caller, flight_id).baggages.len() >= MAX_BAGGAGES {
            Some(ContractError::BaggageLimitExceeded)
        } else {
            None
        }
    }

    /// The registry after a piece of `weight` joins the booking under the
    /// next identifier, and the counter moves on.
    pub open spec fn baggage_added(self, caller: Seq<char>, flight_id: FlightId, weight: Weight) -> ContractView {
        let f = self.flight(caller, flight_id);
        let b = Baggage { baggage_id: self.count_baggage, baggage_weight: weight };
        ContractView {
            count_baggage: (self.count_baggage + 1) as BaggageId,
            ..self.with_flight(caller, flight_id, f.with_baggages(f.baggages.push(b)))
        }
    }
    pub open spec fn check_baggage_error(self, caller: Seq<char>, flight_id: FlightId, baggage_id: BaggageId) -> Option<ContractError> {
        if self.lookup_error(caller, flight_id).is_some() {
            self.lookup_error(caller, flight_id)
        } else if !has_id(self.flight(caller, flight_id).baggages, baggage_id) {
            Some(ContractError::BaggageNotFound)
        } else {
            None
        }
    }

    /// The registry with the state of the booking of `owner` for `flight_id` set to `state`.
    pub open spec fn with_state(self, owner: Seq<char>, flight_id: FlightId, state: FlightState) -> ContractView {
        self.with_flight(owner, flight_id, self.flight(owner, flight_id).with_state(state))
    }

    /// The deposit, in base units, that pays the booking's current fee.
    pub open spec fn required_deposit(self, owner: Seq<char>, flight_id: FlightId) -> int {
        yocto_of(self.flight(owner, flight_id).fee())
    }

    pub open spec fn accept_error(self, caller: Seq<char>, flight_id: FlightId, deposit: Balance) -> Option<ContractError> {
        if self.state_error(caller, flight_id, FlightState::Idle).is_some() {
            self.state_error(caller, flight_id, FlightState::Idle)
        } else if deposit != self.required_deposit(caller, flight_id) {
            Some(ContractError::PaymentMismatch { fee: self.flight(caller, flight_id).fee() as Balance, deposit })
        } else {
            None
        }
    }

    /// The registry after the piece `baggage_id` leaves the caller's booking.
    pub open spec fn baggage_removed(self, caller: Seq<char>, flight_id: FlightId, baggage_id: BaggageId) -> ContractView {
        let f = self.flight(caller, flight_id);
        self.with_flight(caller, flight_id, f.with_baggages(without_id(f.baggages, baggage_id)))
    }

    /// The registry after every piece leaves the caller's booking.
    pub open spec fn baggages_cleared(self, caller: Seq<char>, flight_id: FlightId) -> ContractView {
        self.with_flight(caller, flight_id, self.flight(caller, flight_id).with_baggages(Seq::empty()))
    }

    pub open spec fn deliver_error(self, caller: Seq<char>, customer: Seq<char>, flight_id: FlightId) -> Option<ContractError> {
        if !self.initialized {
            Some(ContractError::NotInitialized)
        } else if caller != self.payment_account {
            Some(ContractError::NotOwner)
        } else {
            self.state_error(customer, flight_id, FlightState::Checked)
        }
    }

    pub open spec fn init_error(self, caller: Seq<char>, current_account: Seq<char>, payment_account: Seq<char>) -> Option<ContractError> {
        if self.initialized {
            Some(ContractError::AlreadyInitialized)
        } else if caller != self.owner {
            Some(ContractError::NotOwner)
        } else if payment_account == current_account {
            Some(ContractError::PaymentAccountIsContract)
        } else {
            None
        }
    }

    /// The registry once initialized: no bookings, payments to `payment_account`.
    pub open spec fn initialized_with(self, payment_account: Seq<char>) -> ContractView {
        ContractView { initialized: true, payment_account, flights: Map::empty(), ..self }
    }

    pub open spec fn reset_error(self, caller: Seq<char>) -> Option<ContractError> {
        if !self.initialized {
            Some(ContractError::NotInitialized)
        } else if caller != self.owner {
            Some(ContractError::NotOwner)
        } else {
            None
        }
    }

    /// The registry once reset: no bookings, payments to the owner, the
    /// baggage counter kept.
    pub open spec fn reset_done(self) -> ContractView {
        ContractView { initialized: false, payment_account: self.owner, flights: Map::empty(), ..self }
    }
    /// Whether `f` can join the registry as the booking `k`: the key is free,
    /// the booking is well formed and stored under its own flight identifier,
    /// its pieces have identifiers below the counter that no other booking
    /// uses, and if it has been paid for, its fee can be paid.
    pub open spec fn admits(self, k: (Seq<char>, FlightId), f: FlightView) -> bool {
        &&& !self.flights.contains_key(k)
        &&& f.wf()
        &&& f.flight_id == k.1
        &&& forall|i: int| 0 <= i < f.baggages.len() ==> #[trigger] f.baggages[i].baggage_id < self.count_baggage
        &&& forall|k1: (Seq<char>, FlightId), m: int, i: int|
            self.flights.contains_key(k1) && 0 <= m < self.flights[k1].baggages.len() && 0 <= i < f.baggages.len()
                ==> #[trigger] self.flights[k1].baggages[m].baggage_id != #[trigger] f.baggages[i].baggage_id
        &&& f.state != FlightState::Idle ==> yocto_of(f.fee()) <= u128::MAX
    }
}

/// One booking as stored: the customer and the flight record.
struct FlightEntry {
    owner: AccountId,
    flight: Flight,
}

spec fn entry_key(e: FlightEntry) -> (Seq<char>, FlightId) {
    (e.owner@, e.flight@.flight_id)
}

spec fn keys_unique(s: Seq<FlightEntry>) -> bool {
    forall|i: int, j: int|
        0 <= i < s.len() && 0 <= j < s.len() && i != j ==> entry_key(s[i]) != entry_key(s[j])
}

spec fn flights_of(s: Seq<FlightEntry>) -> Map<(Seq<char>, FlightId), FlightView> {
    Map::new(
        |k: (Seq<char>, FlightId)| exists|i: int| 0 <= i < s.len() && entry_key(s[i]) == k,
        |k: (Seq<char>, FlightId)| s[choose|i: int| 0 <= i < s.len() && entry_key(s[i]) == k].flight@,
    )
}

proof fn lemma_lookup(s: Seq<FlightEntry>, i: int)
    requires
        keys_unique(s),
        0 <= i < s.len(),
    ensures
        flights_of(s).contains_key(entry_key(s[i])),
        flights_of(s)[entry_key(s[i])] == s[i].flight@,
{
    let k = entry_key(s[i]);
    assert(flights_of(s).contains_key(k));
    let j = choose|j: int| 0 <= j < s.len() && entry_key(s[j]) == k;
    assert(j == i);
}

proof fn lemma_update(s: Seq<FlightEntry>, i: int, e: FlightEntry)
    requires
        keys_unique(s),
        0 <= i < s.len(),
        entry_key(e) == entry_key(s[i]),
    ensures
        keys_unique(s.update(i, e)),
        flights_of(s.update(i, e)) == flights_of(s).insert(entry_key(e), e.flight@),
{
    let t = s.update(i, e);
    assert forall|a: int, b: int| 0 <= a < t.len() && 0 <= b < t.len() && a != b implies entry_key(t[a]) != entry_key(t[b]) by {
        assert(entry_key(t[a]) == entry_key(s[a]));
        assert(entry_key(t[b]) == entry_key(s[b]));
    }
    let m1 = flights_of(t);
    let m2 = flights_of(s).insert(entry_key(e), e.flight@);
    assert forall|k: (Seq<char>, FlightId)| m1.contains_key(k) <==> m2.contains_key(k) by {
        if m1.contains_key(k) {
            let j = choose|j: int| 0 <= j < t.len() && entry_key(t[j]) == k;
            assert(entry_key(s[j]) == k);
        }
        if flights_of(s).contains_key(k) {
            let j = choose|j: int| 0 <= j < s.len() && entry_key(s[j]) == k;
            assert(entry_key(t[j]) == k);
        }
        if k == entry_key(e) {
            assert(entry_key(t[i]) == k);
        }
    }
    assert forall|k: (Seq<char>, FlightId)| m1.contains_key(k) implies m1[k] == m2[k] by {
        let j = choose|j: int| 0 <= j < t.len() && entry_key(t[j]) == k;
        lemma_lookup(t, j);
        if j != i {
            lemma_lookup(s, j);
        }
    }
    assert(m1 =~= m2);
}

proof fn lemma_push(s: Seq<FlightEntry>, e: FlightEntry)
    requires
        keys_unique(s),
        !flights_of(s).contains_key(entry_key(e)),
    ensures
        keys_unique(s.push(e)),
        flights_of(s.push(e)) == flights_of(s).insert(entry_key(e), e.flight@),
{
    let t = s.push(e);
    assert forall|a: int, b: int| 0 <= a < t.len() && 0 <= b < t.len() && a != b implies entry_key(t[a]) != entry_key(t[b]) by {
        if a < s.len() && b < s.len() {
            assert(t[a] == s[a] && t[b] == s[b]);
        } else if a < s.len() {
            assert(t[a] == s[a]);
            assert(flights_of(s).contains_key(entry_key(s[a])));
        } else {
            assert(t[b] == s[b]);
            assert(flights_of(s).contains_key(entry_key(s[b])));
        }
    }
    let m1 = flights_of(t);
    let m2 = flights_of(s).insert(entry_key(e), e.flight@);
    assert forall|k: (Seq<char>, FlightId)| m1.contains_key(k) <==> m2.contains_key(k) by {
        if m1.contains_key(k) {
            let j = choose|j: int| 0 <= j < t.len() && entry_key(t[j]) == k;
            if j < s.len() {
                assert(t[j] == s[j]);
            }
        }
        if flights_of(s).contains_key(k) {
            let j = choose|j: int| 0 <= j < s.len() && entry_key(s[j]) == k;
            assert(t[j] == s[j]);
        }
        if k == entry_key(e) {
            assert(entry_key(t[s.len() as int]) == k);
        }
    }
    assert forall|k: (Seq<char>, FlightId)| m1.contains_key(k) implies m1[k] == m2[k] by {
        let j = choose|j: int| 0 <= j < t.len() && entry_key(t[j]) == k;
        lemma_lookup(t, j);
        if j < s.len() {
            assert(t[j] == s[j]);
            lemma_lookup(s, j);
        }
    }
    assert(m1 =~= m2);
}

/// Replacing the entry at `i` by one under the same key replaces that booking.
proof fn lemma_replace(s: Seq<FlightEntry>, i: int, e: FlightEntry)
    requires
        keys_unique(s),
        0 <= i < s.len(),
        entry_key(e) == entry_key(s[i]),
    ensures
        s.remove(i).insert(i, e) == s.update(i, e),
        keys_unique(s.update(i, e)),
        flights_of(s.update(i, e)) == flights_of(s).insert(entry_key(e), e.flight@),
{
    assert(s.remove(i).insert(i, e) =~= s.update(i, e));
    lemma_update(s, i, e);
}

/// A piece added under the counter keeps the registry well formed.
proof fn lemma_baggage_added_wf(c: ContractView, caller: Seq<char>, flight_id: FlightId, weight: Weight)
    requires
        c.wf(),
        c.add_baggage_error(caller, flight_id).is_none(),
        c.count_baggage < u64::MAX,
    ensures
        c.baggage_added(caller, flight_id, weight).wf(),
{
    let k = (caller, flight_id);
    let f = c.flights[k];
    let b = Baggage { baggage_id: c.count_baggage, baggage_weight: weight };
    let nf = f.with_baggages(f.baggages.push(b));
    let v = c.baggage_added(caller, flight_id, weight);
    assert(v.flights == c.flights.insert(k, nf));
    assert forall|j: int| 0 <= j < f.baggages.len() implies #[trigger] f.baggages[j].baggage_id < c.count_baggage by {
        assert(c.flights[k].baggages[j].baggage_id < c.count_baggage);
    }
    assert(ids_unique(nf.baggages)) by {
        assert forall|a: int, bb: int| 0 <= a < nf.baggages.len() && 0 <= bb < nf.baggages.len() && a != bb
            implies nf.baggages[a].baggage_id != nf.baggages[bb].baggage_id by {
            if a < f.baggages.len() && bb < f.baggages.len() {
                assert(f.baggages[a].baggage_id != f.baggages[bb].baggage_id);
            } else if a < f.baggages.len() {
                assert(f.baggages[a].baggage_id < c.count_baggage);
            } else {
                assert(f.baggages[bb].baggage_id < c.count_baggage);
            }
        }
    }
    assert forall|k1: (Seq<char>, FlightId), i: int|
        v.flights.contains_key(k1) && 0 <= i < v.flights[k1].baggages.len()
            implies #[trigger] v.flights[k1].baggages[i].baggage_id < v.count_baggage by {
        if k1 != k {
            assert(c.flights[k1].baggages[i].baggage_id < c.count_baggage);
        } else if i < f.baggages.len() {
            assert(f.baggages[i].baggage_id < c.count_baggage);
        }
    }
    assert forall|k1: (Seq<char>, FlightId), i: int, k2: (Seq<char>, FlightId), j: int|
        v.flights.contains_key(k1) && v.flights.contains_key(k2) && 0 <= i
            < v.flights[k1].baggages.len() && 0 <= j < v.flights[k2].baggages.len()
            && (k1 != k2 || i != j) implies #[trigger] v.flights[k1].baggages[i].baggage_id
            != #[trigger] v.flights[k2].baggages[j].baggage_id by {
        let x = v.flights[k1].baggages[i];
        let y = v.flights[k2].baggages[j];
        let new1 = k1 == k && i == f.baggages.len();
        let new2 = k2 == k && j == f.baggages.len();
        if !new1 {
            assert(x == c.flights[k1].baggages[i]);
            assert(x.baggage_id < c.count_baggage);
        }
        if !new2 {
            assert(y == c.flights[k2].baggages[j]);
            assert(y.baggage_id < c.count_baggage);
        }
        if !new1 && !new2 {
            assert(c.flights[k1].baggages[i].baggage_id != c.flights[k2].baggages[j].baggage_id);
        }
    }
    assert forall|k1: (Seq<char>, FlightId)| #[trigger] v.flights.contains_key(k1)
        implies v.flights[k1].wf() && v.flights[k1].flight_id == k1.1 by {
        if k1 != k {
            assert(c.flights.contains_key(k1));
        }
    }
}

/// A state change keeps the registry well formed, provided a booking
/// that leaves `Idle` has a fee that can be paid.
proof fn lemma_state_set_wf(c: ContractView, owner: Seq<char>, flight_id: FlightId, state: FlightState)
    requires
        c.wf(),
        c.has_flight(owner, flight_id),
        state != FlightState::Idle ==> c.required_deposit(owner, flight_id) <= u128::MAX,
    ensures
        c.with_state(owner, flight_id, state).wf(),
{
    let k = (owner, flight_id);
    let v = c.with_state(owner, flight_id, state);
    assert forall|k1: (Seq<char>, FlightId)| k1 != k && v.flights.contains_key(k1) implies c.flights.contains_key(k1)
        && #[trigger] v.flights[k1] == c.flights[k1] by {}
    assert(v.flights[k].baggages == c.flights[k].baggages);
    assert forall|k1: (Seq<char>, FlightId)| #[trigger] v.flights.contains_key(k1)
        implies v.flights[k1].baggages == c.flights[k1].baggages && c.flights.contains_key(k1) by {}
}

/// Taking a piece out keeps the registry well formed.
proof fn lemma_baggage_removed_wf(c: ContractView, caller: Seq<char>, flight_id: FlightId, baggage_id: BaggageId)
    requires
        c.wf(),
        c.remove_baggage_error(caller, flight_id).is_none(),
    ensures
        c.baggage_removed(caller, flight_id, baggage_id).wf(),
{
    let k = (caller, flight_id);
    let f = c.flights[k];
    let nb = without_id(f.baggages, baggage_id);
    let v = c.baggage_removed(caller, flight_id, baggage_id);
    lemma_without_id_subset(f.baggages, baggage_id);
    lemma_without_id_unique(f.baggages, baggage_id);
    assert(v.flights[k].baggages == nb);
    assert forall|k1: (Seq<char>, FlightId), i: int|
        v.flights.contains_key(k1) && 0 <= i < v.flights[k1].baggages.len()
            implies (exists|i0: int| 0 <= i0 < c.flights[k1].baggages.len()
                && c.flights[k1].baggages[i0] == #[trigger] v.flights[k1].baggages[i])
            && c.flights.contains_key(k1) by {
        if k1 == k {
            assert(f.baggages.contains(nb[i]));
            let j = choose|j: int| 0 <= j < f.baggages.len() && f.baggages[j] == nb[i];
            assert(c.flights[k1].baggages[j] == v.flights[k1].baggages[i]);
        } else {
            assert(v.flights[k1] == c.flights[k1]);
            assert(c.flights[k1].baggages[i] == v.flights[k1].baggages[i]);
        }
    }
    assert forall|k1: (Seq<char>, FlightId), i: int|
        v.flights.contains_key(k1) && 0 <= i < v.flights[k1].baggages.len()
            implies #[trigger] v.flights[k1].baggages[i].baggage_id < v.count_baggage by {
        let i0 = choose|i0: int| 0 <= i0 < c.flights[k1].baggages.len()
                && c.flights[k1].baggages[i0] == v.flights[k1].baggages[i];
        assert(c.flights[k1].baggages[i0].baggage_id < c.count_baggage);
    }
    assert forall|k1: (Seq<char>, FlightId), i: int, k2: (Seq<char>, FlightId), j: int|
        v.flights.contains_key(k1) && v.flights.contains_key(k2) && 0 <= i
            < v.flights[k1].baggages.len() && 0 <= j < v.flights[k2].baggages.len()
            && (k1 != k2 || i != j) implies #[trigger] v.flights[k1].baggages[i].baggage_id
            != #[trigger] v.flights[k2].baggages[j].baggage_id by {
        if k1 == k2 {
            assert(v.flights[k1].wf()) by {
                if k1 != k {
                    assert(v.flights[k1] == c.flights[k1]);
                }
            }
        } else {
            let i0 = choose|i0: int| 0 <= i0 < c.flights[k1].baggages.len()
                    && c.flights[k1].baggages[i0] == v.flights[k1].baggages[i];
            let j0 = choose|j0: int| 0 <= j0 < c.flights[k2].baggages.len()
                    && c.flights[k2].baggages[j0] == v.flights[k2].baggages[j];
            assert(c.flights[k1].baggages[i0].baggage_id != c.flights[k2].baggages[j0].baggage_id);
        }
    }
    assert forall|k1: (Seq<char>, FlightId)| #[trigger] v.flights.contains_key(k1)
        implies v.flights[k1].wf() && v.flights[k1].flight_id == k1.1 by {
        if k1 != k {
            assert(c.flights.contains_key(k1));
        }
    }
}

/// Taking every piece out keeps the registry well formed, whatever the state.
proof fn lemma_baggages_cleared_wf(c: ContractView, caller: Seq<char>, flight_id: FlightId)
    requires
        c.wf(),
        c.has_flight(caller, flight_id),
    ensures
        c.baggages_cleared(caller, flight_id).wf(),
{
    let k = (caller, flight_id);
    let f = c.flights[k];
    let v = c.baggages_cleared(caller, flight_id);
    lemma_empty_fee_not_above(f.flight_class, f.distance, f.baggages);
    let a = v.flights[k].fee();
    let b = f.fee();
    assert(a * 1_000_000_000_000_000_000_000_000 <= b * 1_000_000_000_000_000_000_000_000) by (nonlinear_arith)
        requires 0 <= a <= b;
    assert forall|k1: (Seq<char>, FlightId)| k1 != k && v.flights.contains_key(k1) implies c.flights.contains_key(k1)
        && #[trigger] v.flights[k1] == c.flights[k1] by {}
    assert(v.flights[k].baggages.len() == 0);
}

/// Admitting a booking keeps the registry well formed.
proof fn lemma_admitted_wf(c: ContractView, k: (Seq<char>, FlightId), f: FlightView)
    requires
        c.wf(),
        c.admits(k, f),
    ensures
        (ContractView { flights: c.flights.insert(k, f), ..c }).wf(),
{
    let v = ContractView { flights: c.flights.insert(k, f), ..c };
    assert forall|k1: (Seq<char>, FlightId), i: int, k2: (Seq<char>, FlightId), j: int|
        v.flights.contains_key(k1) && v.flights.contains_key(k2) && 0 <= i
            < v.flights[k1].baggages.len() && 0 <= j < v.flights[k2].baggages.len()
            && (k1 != k2 || i != j) implies #[trigger] v.flights[k1].baggages[i].baggage_id
            != #[trigger] v.flights[k2].baggages[j].baggage_id by {
        if k1 == k && k2 == k {
            assert(f.baggages[i].baggage_id != f.baggages[j].baggage_id);
        } else if k1 == k {
            assert(c.flights[k2].baggages[j].baggage_id != f.baggages[i].baggage_id);
        } else if k2 == k {
            assert(c.flights[k1].baggages[i].baggage_id != f.baggages[j].baggage_id);
        } else {
            assert(c.flights[k1].baggages[i].baggage_id != c.flights[k2].baggages[j].baggage_id);
        }
    }
    assert forall|k1: (Seq<char>, FlightId), i: int|
        v.flights.contains_key(k1) && 0 <= i < v.flights[k1].baggages.len()
            implies #[trigger] v.flights[k1].baggages[i].baggage_id < v.count_baggage by {
        if k1 != k {
            assert(c.flights[k1].baggages[i].baggage_id < c.count_baggage);
        }
    }
    assert forall|k1: (Seq<char>, FlightId)| #[trigger] v.flights.contains_key(k1)
        implies v.flights[k1].wf() && v.flights[k1].flight_id == k1.1 by {
        if k1 != k {
            assert(c.flights.contains_key(k1));
        }
    }
}

/// On a booking in `Idle` that holds no baggage, three additions in a row
/// succeed and hand out the counter's next three identifiers, in increasing
/// order; a fourth addition is refused with `BaggageLimitExceeded`.
pub proof fn lemma_fourth_baggage_refused(
    c: ContractView,
    caller: Seq<char>,
    flight_id: FlightId,
    w1: Weight,
    w2: Weight,
    w3: Weight,
)
    requires
        c.wf(),
        c.initialized,
        c.has_flight(caller, flight_id),
        c.flight(caller, flight_id).state == FlightState::Idle,
        c.flight(caller, flight_id).baggages.len() == 0,
        c.count_baggage + 3 <= u64::MAX,
    ensures
        ({
            let c1 = c.baggage_added(caller, flight_id, w1);
            let c2 = c1.baggage_added(caller, flight_id, w2);
            let c3 = c2.baggage_added(caller, flight_id, w3);
            &&& c.add_baggage_error(caller, flight_id).is_none()
            &&& c1.add_baggage_error(caller, flight_id).is_none()
            &&& c2.add_baggage_error(caller, flight_id).is_none()
            &&& c.count_baggage < c1.count_baggage < c2.count_baggage
            &&& c3.flight(caller, flight_id).baggages.len() == 3
            &&& c3.add_baggage_error(caller, flight_id) == Some(ContractError::BaggageLimitExceeded)
        }),
{
    let c1 = c.baggage_added(caller, flight_id, w1);
    let c2 = c1.baggage_added(caller, flight_id, w2);
    lemma_baggage_added_wf(c, caller, flight_id, w1);
    lemma_baggage_added_wf(c1, caller, flight_id, w2);
}

/// In a well-formed registry no two pieces share an identifier, whether they
/// belong to one booking or to bookings of different flights or customers,
/// and every identifier is below the counter.
pub proof fn lemma_baggage_ids_unique(
    c: ContractView,
    k1: (Seq<char>, FlightId),
    i: int,
    k2: (Seq<char>, FlightId),
    j: int,
)
    requires
        c.wf(),
        c.flights.contains_key(k1),
        c.flights.contains_key(k2),
        0 <= i < c.flights[k1].baggages.len(),
        0 <= j < c.flights[k2].baggages.len(),
        k1 != k2 || i != j,
    ensures
        c.flights[k1].baggages[i].baggage_id != c.flights[k2].baggages[j].baggage_id,
        c.flights[k1].baggages[i].baggage_id < c.count_baggage,
{
}

/// The counter moves only forward: an addition raises it by one, and no
/// other operation, on a booking or on the whole registry, lowers it. So an
/// identifier, once handed out, is never handed out again.
pub proof fn lemma_counter_never_goes_back(
    c: ContractView,
    caller: Seq<char>,
    customer: Seq<char>,
    flight_id: FlightId,
    flight_class: FlightClass,
    distance: Distance,
    weight: Weight,
    baggage_id: BaggageId,
    state: FlightState,
    payment_account: Seq<char>,
)
    requires
        c.count_baggage < u64::MAX,
    ensures
        c.baggage_added(caller, flight_id, weight).count_baggage == c.count_baggage + 1,
        c.registered(caller, flight_id, flight_class, distance).count_baggage == c.count_baggage,
        c.baggage_removed(caller, flight_id, baggage_id).count_baggage == c.count_baggage,
        c.baggages_cleared(caller, flight_id).count_baggage == c.count_baggage,
        c.with_state(customer, flight_id, state).count_baggage == c.count_baggage,
        c.initialized_with(payment_account).count_baggage == c.count_baggage,
        c.reset_done().count_baggage == c.count_baggage,
{
}

/// A booking goes Idle, Checked, Delivered, Claimed and no other way:
/// checking in succeeds only from `Idle`, delivery only from `Checked`,
/// claiming only from `Delivered`; delivery of a booking in `Idle` and a
/// claim on one in `Checked` are refused with `InvalidState`; and the
/// operations on baggage leave the state as it was.
pub proof fn lemma_lifecycle_order(
    c: ContractView,
    caller: Seq<char>,
    customer: Seq<char>,
    flight_id: FlightId,
    deposit: Balance,
    weight: Weight,
    baggage_id: BaggageId,
)
    requires
        c.wf(),
    ensures
        c.accept_error(caller, flight_id, deposit).is_none() ==> c.flight(caller, flight_id).state
            == FlightState::Idle && c.with_state(caller, flight_id, FlightState::Checked).flight(
            caller,
            flight_id,
        ).state == FlightState::Checked,
        c.deliver_error(caller, customer, flight_id).is_none() ==> c.flight(customer, flight_id).state
            == FlightState::Checked,
        c.state_error(caller, flight_id, FlightState::Delivered).is_none() ==> c.flight(
            caller,
            flight_id,
        ).state == FlightState::Delivered,
        c.initialized && caller == c.payment_account && c.has_flight(customer, flight_id) && c.flight(
            customer,
            flight_id,
        ).state == FlightState::Idle ==> c.deliver_error(caller, customer, flight_id) == Some(
            ContractError::InvalidState { expected: FlightState::Checked, actual: FlightState::Idle },
        ),
        c.initialized && c.has_flight(caller, flight_id) && c.flight(caller, flight_id).state
            == FlightState::Checked ==> c.state_error(caller, flight_id, FlightState::Delivered)
            == Some(
            ContractError::InvalidState { expected: FlightState::Delivered, actual: FlightState::Checked },
        ),
        c.has_flight(caller, flight_id) ==> c.baggage_added(caller, flight_id, weight).flight(
            caller,
            flight_id,
        ).state == c.flight(caller, flight_id).state && c.baggage_removed(
            caller,
            flight_id,
            baggage_id,
        ).flight(caller, flight_id).state == c.flight(caller, flight_id).state
            && c.baggages_cleared(caller, flight_id).flight(caller, flight_id).state == c.flight(
            caller,
            flight_id,
        ).state,
{
}

/// Registering a flight that the caller registered already is refused with
/// `DuplicateRegistration`, and the booking stays as it was.
pub proof fn lemma_duplicate_registration(
    c: ContractView,
    caller: Seq<char>,
    flight_id: FlightId,
    flight_class: FlightClass,
    distance: Distance,
)
    requires
        c.registry_error(caller, flight_id).is_none(),
    ensures
        c.registered(caller, flight_id, flight_class, distance).registry_error(caller, flight_id)
            == Some(ContractError::DuplicateRegistration),
{
}

/// In an initialized registry, a flight that the caller never registered is
/// not found, and neither is a baggage identifier that the counter has not
/// reached yet.
pub proof fn lemma_unknown_ids_not_found(
    c: ContractView,
    caller: Seq<char>,
    flight_id: FlightId,
    baggage_id: BaggageId,
)
    requires
        c.wf(),
        c.initialized,
    ensures
        !c.has_flight(caller, flight_id) ==> c.lookup_error(caller, flight_id) == Some(
            ContractError::FlightNotFound,
        ) && c.check_baggage_error(caller, flight_id, baggage_id) == Some(
            ContractError::FlightNotFound,
        ),
        c.has_flight(caller, flight_id) && baggage_id >= c.count_baggage ==> c.check_baggage_error(
            caller,
            flight_id,
            baggage_id,
        ) == Some(ContractError::BaggageNotFound),
{
    let k = (caller, flight_id);
    if c.has_flight(caller, flight_id) && baggage_id >= c.count_baggage {
        assert forall|i: int| 0 <= i < c.flights[k].baggages.len() implies #[trigger] c.flights[k].baggages[i].baggage_id != baggage_id by {
            assert(c.flights[k].baggages[i].baggage_id < c.count_baggage);
        }
    }
}

/// The registry of flight bookings.
pub struct Contract {
    owner: AccountId,
    payment_account: AccountId,
    initialized: bool,
    user_flights: Vec<FlightEntry>,
    count_baggage: BaggageId,
}

impl View for Contract {
    type V = ContractView;

    closed spec fn view(&self) -> ContractView {
        ContractView {
            owner: self.owner@,
            payment_account: self.payment_account@,
            initialized: self.initialized,
            flights: flights_of(self.user_flights@),
            count_baggage: self.count_baggage,
        }
    }
}

impl Contract {
    pub closed spec fn wf(&self) -> bool {
        keys_unique(self.user_flights@) && self@.wf()
    }

    /// A registry administered by `owner`, paying to `payment_account`, not yet initialized.
    pub fn new(owner: AccountId, payment_account: AccountId) -> (r: Self)
        ensures
            r.wf(),
            r@ == (ContractView {
                owner: owner@,
                payment_account: payment_account@,
                initialized: false,
                flights: Map::empty(),
                count_baggage: 0,
            }),
    {
        let r = Contract { owner, payment_account, initialized: false, user_flights: Vec::new(), count_baggage: 0 };
        assert(flights_of(r.user_flights@) =~= Map::empty());
        r
    }

    /// Where the booking of `owner` for `flight_id` is stored, if anywhere.
    fn find(&self, owner: &AccountId, flight_id: FlightId) -> (r: Option<usize>)
        requires
            keys_unique(self.user_flights@),
        ensures
            match r {
                Some(i) => i < self.user_flights@.len() && entry_key(self.user_flights@[i as int]) == (owner@, flight_id),
                None => !self@.flights.contains_key((owner@, flight_id)),
            },
    {
        let mut i: usize = 0;
        while i < self.user_flights.len()
            invariant
                i <= self.user_flights@.len(),
                forall|j: int| 0 <= j < i ==> entry_key(#[trigger] self.user_flights@[j]) != (owner@, flight_id),
            decreases self.user_flights@.len() - i,
        {
            let e = &self.user_flights[i];
            if e.owner == *owner && e.flight.get_flight_id() == flight_id {
                return Some(i);
            }
            i = i + 1;
        }
        None
    }

    /// Takes the entry at `i` out for a change; `put_back` returns it.
    fn take(&mut self, i: usize) -> (e: FlightEntry)
        requires
            i < old(self).user_flights@.len(),
        ensures
            e == old(self).user_flights@[i as int],
            final(self).user_flights@ == old(self).user_flights@.remove(i as int),
            final(self).owner == old(self).owner,
            final(self).payment_account == old(self).payment_account,
            final(self).initialized == old(self).initialized,
            final(self).count_baggage == old(self).count_baggage,
    {
        self.user_flights.remove(i)
    }

    fn put_back(&mut self, i: usize, e: FlightEntry)
        requires
            i <= old(self).user_flights@.len(),
        ensures
            final(self).user_flights@ == old(self).user_flights@.insert(i as int, e),
            final(self).owner == old(self).owner,
            final(self).payment_account == old(self).payment_account,
            final(self).initialized == old(self).initialized,
            final(self).count_baggage == old(self).count_baggage,
    {
        self.user_flights.insert(i, e);
    }

    /// Registers a booking of `caller` for `flight_id`.
    pub fn registry(&mut self, caller: &AccountId, flight_id: FlightId, flight_class: FlightClass, distance: Distance) -> (r: Result<(), ContractError>)
        requires
            old(self).wf(),
        ensures
            final(self).wf(),
            match old(self)@.registry_error(caller@, flight_id) {
                Some(e) => r == Err::<(), ContractError>(e) && final(self)@ == old(self)@,
                None => r is Ok && final(self)@ == old(self)@.registered(caller@, flight_id, flight_class, distance),
            },
    {
        if !self.initialized {
            return Err(ContractError::NotInitialized);
        }
        match self.find(caller, flight_id) {
            Some(_) => Err(ContractError::DuplicateRegistration),
            None => {
                let e = FlightEntry { owner: caller.clone(), flight: Flight::new(flight_id, flight_class, distance) };
                proof {
                    lemma_push(self.user_flights@, e);
                }
                self.user_flights.push(e);
                proof {
                    let v = self@;
                    let o = old(self)@;
                    let k = (caller@, flight_id);
                    assert(v.flights == o.flights.insert(k, FlightView::fresh(flight_id, flight_class, distance)));
                    assert forall|k1: (Seq<char>, FlightId), i: int, k2: (Seq<char>, FlightId), j: int|
                        v.flights.contains_key(k1) && v.flights.contains_key(k2) && 0 <= i
                            < v.flights[k1].baggages.len() && 0 <= j < v.flights[k2].baggages.len()
                            && (k1 != k2 || i != j) implies #[trigger] v.flights[k1].baggages[i].baggage_id
                            != #[trigger] v.flights[k2].baggages[j].baggage_id by {
                        assert(k1 != k && k2 != k);
                        assert(o.flights[k1].baggages[i] == v.flights[k1].baggages[i]);
                        assert(o.flights[k2].baggages[j] == v.flights[k2].baggages[j]);
                    }
                }
                Ok(())
            },
        }
    }

    /// Adds a piece of `baggage_weight` to the caller's booking of `flight_id`
    /// under the next identifier of the global counter, and returns it.
    pub fn add_baggage(&mut self, caller: &AccountId, flight_id: FlightId, baggage_weight: Weight) -> (r: Result<BaggageId, ContractError>)
        requires
            old(self).wf(),
            old(self)@.count_baggage < u64::MAX,
        ensures
            final(self).wf(),
            match old(self)@.add_baggage_error(caller@, flight_id) {
                Some(e) => r == Err::<BaggageId, ContractError>(e) && final(self)@ == old(self)@,
                None => r == Ok::<BaggageId, ContractError>(old(self)@.count_baggage)
                    && final(self)@ == old(self)@.baggage_added(caller@, flight_id, baggage_weight),
            },
    {
        if !self.initialized {
            return Err(ContractError::NotInitialized);
        }
        let i = match self.find(caller, flight_id) {
            Some(i) => i,
            None => return Err(ContractError::FlightNotFound),
        };
        proof {
            lemma_lookup(self.user_flights@, i as int);
        }
        let state = *self.user_flights[i].flight.get_state();
        if state != FlightState::Idle {
            return Err(ContractError::InvalidState { expected: FlightState::Idle, actual: state });
        }
        if self.user_flights[i].flight.get_baggages().len() >= MAX_BAGGAGES {
            return Err(ContractError::BaggageLimitExceeded);
        }
        let baggage_id = self.count_baggage;
        let ghost s = self.user_flights@;
        let ghost k = (caller@, flight_id);
        let mut e = self.take(i);
        let b = Baggage::new(baggage_id, baggage_weight);
        proof {
            let bags = e.flight@.baggages;
            assert forall|j: int| 0 <= j < bags.len() implies #[trigger] bags[j].baggage_id != baggage_id by {
                assert(old(self)@.flights[k].baggages[j].baggage_id < old(self)@.count_baggage);
            }
        }
        e.flight.add_baggage(b);
        proof {
            lemma_replace(s, i as int, e);
        }
        self.put_back(i, e);
        self.count_baggage = baggage_id + 1;
        proof {
            lemma_baggage_added_wf(old(self)@, caller@, flight_id, baggage_weight);
            assert(self@ == old(self)@.baggage_added(caller@, flight_id, baggage_weight));
        }
        Ok(baggage_id)
    }
    /// Finds the caller's booking, or says why it cannot be used.
    fn locate(&self, owner: &AccountId, flight_id: FlightId) -> (r: Result<usize, ContractError>)
        requires
            self.wf(),
        ensures
            match self@.lookup_error(owner@, flight_id) {
                Some(e) => r == Err::<usize, ContractError>(e),
                None => r is Ok,
            },
            r is Ok ==> r->Ok_0 < self.user_flights@.len()
                && entry_key(self.user_flights@[r->Ok_0 as int]) == (owner@, flight_id)
                && self.user_flights@[r->Ok_0 as int].flight@ == self@.flight(owner@, flight_id)
                && self@.flight(owner@, flight_id).wf(),
    {
        if !self.initialized {
            return Err(ContractError::NotInitialized);
        }
        match self.find(owner, flight_id) {
            Some(i) => {
                proof {
                    lemma_lookup(self.user_flights@, i as int);
                }
                Ok(i)
            },
            None => Err(ContractError::FlightNotFound),
        }
    }

    /// Sets the state of the booking stored at `i`.
    fn set_flight_state(&mut self, i: usize, state: FlightState)
        requires
            keys_unique(old(self).user_flights@),
            i < old(self).user_flights@.len(),
        ensures
            keys_unique(final(self).user_flights@),
            final(self)@ == old(self)@.with_state(
                entry_key(old(self).user_flights@[i as int]).0,
                entry_key(old(self).user_flights@[i as int]).1,
                state,
            ),
    {
        let ghost s = self.user_flights@;
        proof {
            lemma_lookup(s, i as int);
        }
        let mut e = self.take(i);
        e.flight.set_state(state);
        proof {
            lemma_replace(s, i as int, e);
        }
        self.put_back(i, e);
    }

    /// Number of pieces in the caller's booking of `flight_id`.
    pub fn check_number_baggages(&self, caller: &AccountId, flight_id: FlightId) -> (r: Result<u64, ContractError>)
        requires
            self.wf(),
        ensures
            match self@.lookup_error(caller@, flight_id) {
                Some(e) => r == Err::<u64, ContractError>(e),
                None => r == Ok::<u64, ContractError>(self@.flight(caller@, flight_id).baggages.len() as u64),
            },
    {
        let i = self.locate(caller, flight_id)?;
        Ok(self.user_flights[i].flight.get_baggages().len() as u64)
    }

    /// The piece `baggage_id` of the caller's booking of `flight_id`.
    pub fn check_baggage(&self, caller: &AccountId, flight_id: FlightId, baggage_id: BaggageId) -> (r: Result<Baggage, ContractError>)
        requires
            self.wf(),
        ensures
            match self@.check_baggage_error(caller@, flight_id, baggage_id) {
                Some(e) => r == Err::<Baggage, ContractError>(e),
                None => r is Ok && r->Ok_0.baggage_id == baggage_id
                    && self@.flight(caller@, flight_id).baggages.contains(r->Ok_0),
            },
    {
        let i = self.locate(caller, flight_id)?;
        let bags = self.user_flights[i].flight.get_baggages();
        let mut j: usize = 0;
        while j < bags.len()
            invariant
                j <= bags@.len(),
                bags@ == self@.flight(caller@, flight_id).baggages,
                self@.lookup_error(caller@, flight_id).is_none(),
                forall|m: int| 0 <= m < j ==> #[trigger] bags@[m].baggage_id != baggage_id,
            decreases bags@.len() - j,
        {
            if bags[j].baggage_id == baggage_id {
                proof {
                    assert(has_id(bags@, baggage_id));
                    assert(bags@.contains(bags@[j as int]));
                }
                return Ok(bags[j]);
            }
            j = j + 1;
        }
        Err(ContractError::BaggageNotFound)
    }

    /// The fee of the caller's booking of `flight_id`, in full currency units.
    pub fn check_fee(&self, caller: &AccountId, flight_id: FlightId) -> (r: Result<Balance, ContractError>)
        requires
            self.wf(),
        ensures
            match self@.lookup_error(caller@, flight_id) {
                Some(e) => r == Err::<Balance, ContractError>(e),
                None => r is Ok && r->Ok_0 as int == self@.flight(caller@, flight_id).fee(),
            },
    {
        let i = self.locate(caller, flight_id)?;
        Ok(self.user_flights[i].flight.get_fee())
    }

    /// The name of the state of the caller's booking of `flight_id`.
    pub fn check_state(&self, caller: &AccountId, flight_id: FlightId) -> (r: Result<String, ContractError>)
        requires
            self.wf(),
        ensures
            match self@.lookup_error(caller@, flight_id) {
                Some(e) => r == Err::<String, ContractError>(e),
                None => r is Ok && r->Ok_0@ == state_name(self@.flight(caller@, flight_id).state),
            },
    {
        let i = self.locate(caller, flight_id)?;
        Ok(self.user_flights[i].flight.get_state().name())
    }

    /// The name of the class of the caller's booking of `flight_id`.
    pub fn check_class(&self, caller: &AccountId, flight_id: FlightId) -> (r: Result<String, ContractError>)
        requires
            self.wf(),
        ensures
            match self@.lookup_error(caller@, flight_id) {
                Some(e) => r == Err::<String, ContractError>(e),
                None => r is Ok && r->Ok_0@ == class_name(self@.flight(caller@, flight_id).flight_class),
            },
    {
        let i = self.locate(caller, flight_id)?;
        Ok(self.user_flights[i].flight.get_flight_class().name())
    }

    /// Checks the caller's booking in against `attached_deposit`, which must
    /// pay its current fee exactly.
    pub fn accept(&mut self, caller: &AccountId, flight_id: FlightId, attached_deposit: Balance) -> (r: Result<(), ContractError>)
        requires
            old(self).wf(),
        ensures
            final(self).wf(),
            r is Ok <==> old(self)@.initialized && old(self)@.has_flight(caller@, flight_id)
                && old(self)@.flight(caller@, flight_id).state == FlightState::Idle
                && attached_deposit as int == old(self)@.required_deposit(caller@, flight_id),
            match old(self)@.accept_error(caller@, flight_id, attached_deposit) {
                Some(e) => r == Err::<(), ContractError>(e) && final(self)@ == old(self)@,
                None => r is Ok && final(self)@ == old(self)@.with_state(caller@, flight_id, FlightState::Checked),
            },
    {
        let i = self.locate(caller, flight_id)?;
        let state = *self.user_flights[i].flight.get_state();
        if state != FlightState::Idle {
            return Err(ContractError::InvalidState { expected: FlightState::Idle, actual: state });
        }
        let fee = self.user_flights[i].flight.get_fee();
        let paid = match fee.checked_mul(YOCTO_PER_UNIT) {
            Some(required) => required == attached_deposit,
            None => false,
        };
        if !paid {
            return Err(ContractError::PaymentMismatch { fee, deposit: attached_deposit });
        }
        self.set_flight_state(i, FlightState::Checked);
        proof {
            lemma_state_set_wf(old(self)@, caller@, flight_id, FlightState::Checked);
        }
        Ok(())
    }

    /// Takes the piece `baggage_id` out of the caller's booking; nothing
    /// happens to the baggage if the booking holds no such piece.
    pub fn remove_baggage(&mut self, caller: &AccountId, flight_id: FlightId, baggage_id: BaggageId) -> (r: Result<(), ContractError>)
        requires
            old(self).wf(),
        ensures
            final(self).wf(),
            match old(self)@.remove_baggage_error(caller@, flight_id) {
                Some(e) => r == Err::<(), ContractError>(e) && final(self)@ == old(self)@,
                None => r is Ok && final(self)@ == old(self)@.baggage_removed(caller@, flight_id, baggage_id),
            },
    {
        let i = self.locate(caller, flight_id)?;
        let state = *self.user_flights[i].flight.get_state();
        if state != FlightState::Idle {
            return Err(ContractError::InvalidState { expected: FlightState::Idle, actual: state });
        }
        let ghost s = self.user_flights@;
        let mut e = self.take(i);
        e.flight.remove_baggage(baggage_id);
        proof {
            lemma_replace(s, i as int, e);
        }
        self.put_back(i, e);
        proof {
            lemma_baggage_removed_wf(old(self)@, caller@, flight_id, baggage_id);
        }
        Ok(())
    }

    /// Takes every piece out of the caller's booking, in whatever state.
    pub fn remove_all_baggages(&mut self, caller: &AccountId, flight_id: FlightId) -> (r: Result<(), ContractError>)
        requires
            old(self).wf(),
        ensures
            final(self).wf(),
            match old(self)@.lookup_error(caller@, flight_id) {
                Some(e) => r == Err::<(), ContractError>(e) && final(self)@ == old(self)@,
                None => r is Ok && final(self)@ == old(self)@.baggages_cleared(caller@, flight_id),
            },
    {
        let i = self.locate(caller, flight_id)?;
        let ghost s = self.user_flights@;
        let mut e = self.take(i);
        e.flight.clear_baggages();
        proof {
            lemma_replace(s, i as int, e);
        }
        self.put_back(i, e);
        proof {
            lemma_baggages_cleared_wf(old(self)@, caller@, flight_id);
        }
        Ok(())
    }

    /// Marks the booking of `customer_id` for `flight_id` delivered; only the
    /// payment account may do so.
    pub fn deliver_baggage(&mut self, caller: &AccountId, customer_id: &AccountId, flight_id: FlightId) -> (r: Result<(), ContractError>)
        requires
            old(self).wf(),
        ensures
            final(self).wf(),
            match old(self)@.deliver_error(caller@, customer_id@, flight_id) {
                Some(e) => r == Err::<(), ContractError>(e) && final(self)@ == old(self)@,
                None => r is Ok && final(self)@ == old(self)@.with_state(customer_id@, flight_id, FlightState::Delivered),
            },
    {
        if !self.initialized {
            return Err(ContractError::NotInitialized);
        }
        if *caller != self.payment_account {
            return Err(ContractError::NotOwner);
        }
        let i = self.locate(customer_id, flight_id)?;
        let state = *self.user_flights[i].flight.get_state();
        if state != FlightState::Checked {
            return Err(ContractError::InvalidState { expected: FlightState::Checked, actual: state });
        }
        self.set_flight_state(i, FlightState::Delivered);
        proof {
            lemma_state_set_wf(old(self)@, customer_id@, flight_id, FlightState::Delivered);
        }
        Ok(())
    }

    /// Marks the caller's booking claimed and returns the payment of its
    /// current fee to the payment account, for the host to send.
    pub fn claim_baggages(&mut self, caller: &AccountId, flight_id: FlightId) -> (r: Result<Transfer, ContractError>)
        requires
            old(self).wf(),
        ensures
            final(self).wf(),
            match old(self)@.state_error(caller@, flight_id, FlightState::Delivered) {
                Some(e) => r is Err && r->Err_0 == e && final(self)@ == old(self)@,
                None => r is Ok && final(self)@ == old(self)@.with_state(caller@, flight_id, FlightState::Claimed)
                    && r->Ok_0.receiver@ == old(self)@.payment_account
                    && r->Ok_0.amount as int == old(self)@.required_deposit(caller@, flight_id),
            },
    {
        let i = self.locate(caller, flight_id)?;
        let state = *self.user_flights[i].flight.get_state();
        if state != FlightState::Delivered {
            return Err(ContractError::InvalidState { expected: FlightState::Delivered, actual: state });
        }
        let fee = self.user_flights[i].flight.get_fee();
        self.set_flight_state(i, FlightState::Claimed);
        proof {
            lemma_state_set_wf(old(self)@, caller@, flight_id, FlightState::Claimed);
        }
        Ok(Transfer { receiver: self.payment_account.clone(), amount: to_yoto(fee) })
    }

    /// Opens the registry, with payments going to `payment_account`; only the
    /// owner may do so, and the registry's own account cannot receive payments.
    pub fn init(&mut self, caller: &AccountId, current_account: &AccountId, payment_account: AccountId) -> (r: Result<(), ContractError>)
        requires
            old(self).wf(),
        ensures
            final(self).wf(),
            match old(self)@.init_error(caller@, current_account@, payment_account@) {
                Some(e) => r == Err::<(), ContractError>(e) && final(self)@ == old(self)@,
                None => r is Ok && final(self)@ == old(self)@.initialized_with(payment_account@),
            },
    {
        if self.initialized {
            return Err(ContractError::AlreadyInitialized);
        }
        if *caller != self.owner {
            return Err(ContractError::NotOwner);
        }
        if payment_account == *current_account {
            return Err(ContractError::PaymentAccountIsContract);
        }
        self.initialized = true;
        self.user_flights = Vec::new();
        self.payment_account = payment_account;
        assert(flights_of(self.user_flights@) =~= Map::empty());
        Ok(())
    }

    /// Closes the registry and drops every booking; only the owner may do so.
    pub fn reset(&mut self, caller: &AccountId) -> (r: Result<(), ContractError>)
        requires
            old(self).wf(),
        ensures
            final(self).wf(),
            match old(self)@.reset_error(caller@) {
                Some(e) => r == Err::<(), ContractError>(e) && final(self)@ == old(self)@,
                None => r is Ok && final(self)@ == old(self)@.reset_done(),
            },
    {
        if !self.initialized {
            return Err(ContractError::NotInitialized);
        }
        if *caller != self.owner {
            return Err(ContractError::NotOwner);
        }
        self.initialized = false;
        self.payment_account = self.owner.clone();
        self.user_flights = Vec::new();
        assert(flights_of(self.user_flights@) =~= Map::empty());
        Ok(())
    }

    /// The account that receives payments, once the registry is initialized.
    pub fn get_payment_account(&self) -> (r: Result<&AccountId, ContractError>)
        ensures
            match r {
                Ok(a) => self@.initialized && a@ == self@.payment_account,
                Err(e) => !self@.initialized && e == ContractError::NotInitialized,
            },
    {
        if !self.initialized {
            return Err(ContractError::NotInitialized);
        }
        Ok(&self.payment_account)
    }

    pub fn get_initialized(&self) -> (r: bool)
        ensures
            r == self@.initialized,
    {
        self.initialized
    }

    pub fn get_owner(&self) -> (r: &AccountId)
        ensures
            r@ == self@.owner,
    {
        &self.owner
    }

    /// The account named to receive payments, whether or not the registry is initialized.
    pub fn payment_account(&self) -> (r: &AccountId)
        ensures
            r@ == self@.payment_account,
    {
        &self.payment_account
    }

    /// The identifier that the next piece of baggage will get.
    pub fn get_count_baggage(&self) -> (r: BaggageId)
        ensures
            r == self@.count_baggage,
    {
        self.count_baggage
    }
    /// A registry with the given administration and counter and no bookings,
    /// for a host that keeps the registry between calls and rebuilds it.
    pub fn from_parts(owner: AccountId, payment_account: AccountId, initialized: bool, count_baggage: BaggageId) -> (r: Self)
        ensures
            r.wf(),
            r@ == (ContractView {
                owner: owner@,
                payment_account: payment_account@,
                initialized,
                flights: Map::empty(),
                count_baggage,
            }),
    {
        let r = Contract { owner, payment_account, initialized, user_flights: Vec::new(), count_baggage };
        assert(flights_of(r.user_flights@) =~= Map::empty());
        r
    }

    /// The booking stored at position `i`, with its customer, if there is one.
    pub fn booking_at(&self, i: usize) -> (r: Option<(&AccountId, &Flight)>)
        requires
            self.wf(),
        ensures
            match r {
                Some((a, f)) => self@.flights.contains_key((a@, f@.flight_id)) && self@.flights[(a@, f@.flight_id)] == f@,
                None => true,
            },
    {
        if i < self.user_flights.len() {
            proof {
                lemma_lookup(self.user_flights@, i as int);
            }
            let e = &self.user_flights[i];
            Some((&e.owner, &e.flight))
        } else {
            None
        }
    }

    /// Adds `flight` as the booking of `customer` if the registry admits it,
    /// and says whether it did.
    pub fn insert_booking(&mut self, customer: AccountId, flight: Flight) -> (r: bool)
        requires
            old(self).wf(),
        ensures
            final(self).wf(),
            r == old(self)@.admits((customer@, flight@.flight_id), flight@),
            final(self)@ == if r {
                ContractView { flights: old(self)@.flights.insert((customer@, flight@.flight_id), flight@), ..old(self)@ }
            } else {
                old(self)@
            },
    {
        let ghost k = (customer@, flight@.flight_id);
        let ghost c = self@;
        let flight_id = flight.get_flight_id();
        if self.find(&customer, flight_id).is_some() {
            return false;
        }
        let bags = flight.get_baggages();
        if bags.len() > MAX_BAGGAGES {
            return false;
        }
        let mut i: usize = 0;
        while i < bags.len()
            invariant
                i <= bags@.len() <= MAX_BAGGAGES,
                bags@ == flight@.baggages,
                self@ == c,
                c == old(self)@,
                keys_unique(self.user_flights@),
                c.wf(),
                forall|a: int| 0 <= a < i ==> #[trigger] bags@[a].baggage_id < c.count_baggage,
                forall|a: int, b: int| 0 <= a < i && 0 <= b < i && a != b ==> bags@[a].baggage_id != bags@[b].baggage_id,
                forall|k1: (Seq<char>, FlightId), m: int, a: int|
                    c.flights.contains_key(k1) && 0 <= m < c.flights[k1].baggages.len() && 0 <= a < i
                        ==> #[trigger] c.flights[k1].baggages[m].baggage_id != #[trigger] bags@[a].baggage_id,
            decreases bags@.len() - i,
        {
            let id = bags[i].baggage_id;
            if id >= self.count_baggage {
                return false;
            }
            let mut j: usize = 0;
            while j < i
                invariant
                    i < bags@.len() <= MAX_BAGGAGES,
                    j <= i,
                    bags@ == flight@.baggages,
                    self@ == c,
                    c == old(self)@,
                    keys_unique(self.user_flights@),
                    c.wf(),
                    id == bags@[i as int].baggage_id,
                    forall|a: int| 0 <= a < j ==> #[trigger] bags@[a].baggage_id != id,
                decreases i - j,
            {
                if bags[j].baggage_id == id {
                    return false;
                }
                j = j + 1;
            }
            if self.holds_baggage(id) {
                return false;
            }
            i = i + 1;
        }
        assert(flight@.wf());
        let fee = flight.get_fee();
        if *flight.get_state() != FlightState::Idle && fee.checked_mul(YOCTO_PER_UNIT).is_none() {
            return false;
        }
        let e = FlightEntry { owner: customer, flight };
        proof {
            lemma_push(self.user_flights@, e);
            lemma_admitted_wf(c, k, e.flight@);
        }
        self.user_flights.push(e);
        true
    }

    /// Whether some booking holds a piece with identifier `id`.
    fn holds_baggage(&self, id: BaggageId) -> (r: bool)
        requires
            keys_unique(self.user_flights@),
        ensures
            r == exists|k1: (Seq<char>, FlightId), m: int|
                self@.flights.contains_key(k1) && 0 <= m < self@.flights[k1].baggages.len()
                    && #[trigger] self@.flights[k1].baggages[m].baggage_id == id,
    {
        let mut j: usize = 0;
        while j < self.user_flights.len()
            invariant
                j <= self.user_flights@.len(),
                keys_unique(self.user_flights@),
                forall|a: int, m: int|
                    0 <= a < j && 0 <= m < self.user_flights@[a].flight@.baggages.len()
                        ==> #[trigger] self.user_flights@[a].flight@.baggages[m].baggage_id != id,
            decreases self.user_flights@.len() - j,
        {
            let bags = self.user_flights[j].flight.get_baggages();
            let mut m: usize = 0;
            while m < bags.len()
                invariant
                    j < self.user_flights@.len(),
                    keys_unique(self.user_flights@),
                    m <= bags@.len(),
                    bags@ == self.user_flights@[j as int].flight@.baggages,
                    forall|b: int| 0 <= b < m ==> #[trigger] bags@[b].baggage_id != id,
                decreases bags@.len() - m,
            {
                if bags[m].baggage_id == id {
                    proof {
                        lemma_lookup(self.user_flights@, j as int);
                        let k1 = entry_key(self.user_flights@[j as int]);
                        assert(self@.flights[k1].baggages[m as int].baggage_id == id);
                    }
                    return true;
                }
                m = m + 1;
            }
            j = j + 1;
        }
        proof {
            assert forall|k1: (Seq<char>, FlightId), m: int|
                self@.flights.contains_key(k1) && 0 <= m < self@.flights[k1].baggages.len()
                    implies #[trigger] self@.flights[k1].baggages[m].baggage_id != id by {
                let a = choose|a: int| 0 <= a < self.user_flights@.len() && entry_key(self.user_flights@[a]) == k1;
                lemma_lookup(self.user_flights@, a);
                assert(self.user_flights@[a].flight@.baggages[m].baggage_id != id);
            }
        }
        false
    }
}

} // verus!
