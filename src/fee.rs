use vstd::prelude::*;

use crate::baggage::Baggage;
use crate::flight::FlightClass;
use crate::types::{Balance, Distance};

verus! {

/// Most pieces of baggage that one flight booking may hold.
pub const MAX_BAGGAGES: usize = 3;

/// Nominal price of one pound (or, in economy, one mile) in full currency units.
pub const FEE_PER_UNIT: u128 = 2;

/// Micro-units in one full currency unit: prices are stated in micro-units.
pub const MICRO_PER_UNIT: u128 = 1_000_000_000_000_000_000;

/// Sum of the weights of `bags`.
pub open spec fn total_weight(bags: Seq<Baggage>) -> int
    decreases bags.len(),
{
    if bags.len() == 0 {
        0
    } else {
        total_weight(bags.drop_last()) + bags.last().baggage_weight
    }
}

/// Weight of the heaviest piece of `bags`, and 0 when there is none.
pub open spec fn heaviest_weight(bags: Seq<Baggage>) -> int
    decreases bags.len(),
{
    if bags.len() == 0 {
        0
    } else {
        let m = heaviest_weight(bags.drop_last());
        if bags.last().baggage_weight > m {
            bags.last().baggage_weight as int
        } else {
            m
        }
    }
}

/// The weight base that a class charges for: first class waives the heaviest
/// piece, business charges all weight, economy adds the distance.
pub open spec fn charged_units(class: FlightClass, distance: Distance, bags: Seq<Baggage>) -> int {
    match class {
        FlightClass::First => total_weight(bags) - heaviest_weight(bags),
        FlightClass::Business => total_weight(bags),
        FlightClass::Economy => total_weight(bags) + distance,
    }
}

/// The fee in full currency units.
pub open spec fn fee_units(class: FlightClass, distance: Distance, bags: Seq<Baggage>) -> int {
    charged_units(class, distance, bags) * FEE_PER_UNIT
}

/// The fee in micro-units.
pub open spec fn price_of(class: FlightClass, distance: Distance, bags: Seq<Baggage>) -> int {
    fee_units(class, distance, bags) * MICRO_PER_UNIT
}

/// Bounds on the weights of a set of pieces.
pub proof fn lemma_weight_bounds(bags: Seq<Baggage>)
    ensures
        0 <= heaviest_weight(bags) <= total_weight(bags) <= bags.len() * u64::MAX,
    decreases bags.len(),
{
    if bags.len() > 0 {
        lemma_weight_bounds(bags.drop_last());
    }
}

/// Any set of at most `MAX_BAGGAGES` pieces has a price that fits in a `Balance`.
pub proof fn lemma_price_fits(class: FlightClass, distance: Distance, bags: Seq<Baggage>)
    requires
        bags.len() <= MAX_BAGGAGES,
    ensures
        0 <= charged_units(class, distance, bags) <= 4 * u64::MAX,
        0 <= price_of(class, distance, bags) <= u128::MAX,
{
    lemma_weight_bounds(bags);
    let u = charged_units(class, distance, bags);
    assert(u <= 4 * u64::MAX);
    assert(u * 2 * 1_000_000_000_000_000_000 <= u128::MAX) by (nonlinear_arith)
        requires
            0 <= u <= 4 * 0xffff_ffff_ffff_ffff,
    ;
    assert(u * 2 * 1_000_000_000_000_000_000 >= 0) by (nonlinear_arith)
        requires
            0 <= u,
    ;
}

/// With no baggage, first and business class cost nothing and economy
/// charges for the distance alone.
pub proof fn lemma_empty_price(class: FlightClass, distance: Distance)
    ensures
        price_of(class, distance, Seq::empty()) == match class {
            FlightClass::First => 0,
            FlightClass::Business => 0,
            FlightClass::Economy => distance * 2 * 1_000_000_000_000_000_000,
        },
{
    assert(total_weight(Seq::<Baggage>::empty()) == 0);
    assert(heaviest_weight(Seq::<Baggage>::empty()) == 0);
}

/// For the same baggage, first class never costs more than business class.
pub proof fn lemma_first_not_above_business(
    first_distance: Distance,
    business_distance: Distance,
    bags: Seq<Baggage>,
)
    ensures
        price_of(FlightClass::First, first_distance, bags) <= price_of(
            FlightClass::Business,
            business_distance,
            bags,
        ),
{
    lemma_weight_bounds(bags);
    let t = total_weight(bags);
    let h = heaviest_weight(bags);
    assert((t - h) * 2 * 1_000_000_000_000_000_000 <= t * 2 * 1_000_000_000_000_000_000)
        by (nonlinear_arith)
        requires
            0 <= h <= t,
    ;
}

/// Taking every piece out never raises the fee.
pub proof fn lemma_empty_fee_not_above(class: FlightClass, distance: Distance, bags: Seq<Baggage>)
    ensures
        0 <= fee_units(class, distance, Seq::empty()) <= fee_units(class, distance, bags),
{
    lemma_weight_bounds(bags);
    assert(total_weight(Seq::<Baggage>::empty()) == 0);
    assert(heaviest_weight(Seq::<Baggage>::empty()) == 0);
}

/// Sum of the weights, computed.
fn sum_weight(baggages: &Vec<Baggage>) -> (r: u128)
    requires
        baggages@.len() <= MAX_BAGGAGES,
    ensures
        r as int == total_weight(baggages@),
{
    let mut ret: u128 = 0;
    let mut i: usize = 0;
    while i < baggages.len()
        invariant
            i <= baggages@.len() <= MAX_BAGGAGES,
            ret as int == total_weight(baggages@.subrange(0, i as int)),
        decreases baggages@.len() - i,
    {
        let ghost before = baggages@.subrange(0, i as int);
        let ghost after = baggages@.subrange(0, i as int + 1);
        proof {
            assert(after.drop_last() =~= before);
            lemma_weight_bounds(before);
        }
        ret = ret + baggages[i].baggage_weight as u128;
        i = i + 1;
    }
    assert(baggages@.subrange(0, i as int) =~= baggages@);
    ret
}

/// Weight of the heaviest piece, computed; 0 when there is none.
fn max_weight(baggages: &Vec<Baggage>) -> (r: u128)
    ensures
        r as int == heaviest_weight(baggages@),
{
    let mut ret: u128 = 0;
    let mut i: usize = 0;
    while i < baggages.len()
        invariant
            i <= baggages@.len(),
            ret as int == heaviest_weight(baggages@.subrange(0, i as int)),
            ret <= u64::MAX,
        decreases baggages@.len() - i,
    {
        let ghost before = baggages@.subrange(0, i as int);
        let ghost after = baggages@.subrange(0, i as int + 1);
        proof {
            assert(after.drop_last() =~= before);
        }
        let w = baggages[i].baggage_weight as u128;
        if w > ret {
            ret = w;
        }
        i = i + 1;
    }
    assert(baggages@.subrange(0, i as int) =~= baggages@);
    ret
}

/// A pricing rule: the fee in micro-units for a distance and a set of pieces.
pub trait FeeStrategy {
    /// The fee that this rule charges.
    spec fn fee(&self, distance: Distance, baggages: Seq<Baggage>) -> int;

    fn calculate_fee(&self, distance: Distance, baggages: &Vec<Baggage>) -> (r: Balance)
        requires
            baggages@.len() <= MAX_BAGGAGES,
        ensures
            r as int == self.fee(distance, baggages@),
    ;
}

/// First class: the heaviest piece travels free.
pub struct FirstFee {}

impl FeeStrategy for FirstFee {
    open spec fn fee(&self, distance: Distance, baggages: Seq<Baggage>) -> int {
        price_of(FlightClass::First, distance, baggages)
    }

    fn calculate_fee(&self, distance: Distance, baggages: &Vec<Baggage>) -> (r: Balance) {
        proof {
            lemma_weight_bounds(baggages@);
            lemma_price_fits(FlightClass::First, distance, baggages@);
        }
        (sum_weight(baggages) - max_weight(baggages)) * FEE_PER_UNIT * MICRO_PER_UNIT
    }
}

/// Business class: every pound is charged.
pub struct BusinessFee {}

impl FeeStrategy for BusinessFee {
    open spec fn fee(&self, distance: Distance, baggages: Seq<Baggage>) -> int {
        price_of(FlightClass::Business, distance, baggages)
    }

    fn calculate_fee(&self, distance: Distance, baggages: &Vec<Baggage>) -> (r: Balance) {
        proof {
            lemma_price_fits(FlightClass::Business, distance, baggages@);
        }
        sum_weight(baggages) * FEE_PER_UNIT * MICRO_PER_UNIT
    }
}

/// Economy class: the distance is charged on top of the weight.
pub struct EconomyFee {}

impl FeeStrategy for EconomyFee {
    open spec fn fee(&self, distance: Distance, baggages: Seq<Baggage>) -> int {
        price_of(FlightClass::Economy, distance, baggages)
    }

    fn calculate_fee(&self, distance: Distance, baggages: &Vec<Baggage>) -> (r: Balance) {
        proof {
            lemma_price_fits(FlightClass::Economy, distance, baggages@);
        }
        (sum_weight(baggages) + distance as u128) * FEE_PER_UNIT * MICRO_PER_UNIT
    }
}

} // verus!
