use vstd::prelude::*;

use crate::types::{BaggageId, Weight};

verus! {

/// One piece of luggage: its identifier and its weight in whole pounds.
/// A value of this type never changes once created.
#[derive(Clone, Copy, Debug, PartialEq, Eq, Structural)]
pub struct Baggage {
    pub baggage_id: BaggageId,
    pub baggage_weight: Weight,
}

impl Baggage {
    pub fn new(baggage_id: BaggageId, baggage_weight: Weight) -> (r: Self)
        ensures
            r.baggage_id == baggage_id,
            r.baggage_weight == baggage_weight,
    {
        Self { baggage_id, baggage_weight }
    }

    pub fn get_id(&self) -> (r: BaggageId)
        ensures
            r == self.baggage_id,
    {
        self.baggage_id
    }

    pub fn get_weight(&self) -> (r: Weight)
        ensures
            r == self.baggage_weight,
    {
        self.baggage_weight
    }
}

/// No two pieces of `bags` share an identifier.
pub open spec fn ids_unique(bags: Seq<Baggage>) -> bool {
    forall|i: int, j: int|
        0 <= i < bags.len() && 0 <= j < bags.len() && i != j ==> bags[i].baggage_id
            != bags[j].baggage_id
}

/// Some piece of `bags` carries identifier `id`.
pub open spec fn has_id(bags: Seq<Baggage>, id: BaggageId) -> bool {
    exists|i: int| 0 <= i < bags.len() && bags[i].baggage_id == id
}

/// `bags` without the pieces whose identifier is `id`.
pub open spec fn without_id(bags: Seq<Baggage>, id: BaggageId) -> Seq<Baggage> {
    bags.filter(|b: Baggage| b.baggage_id != id)
}

/// Every piece of `without_id(bags, id)` is a piece of `bags`.
pub proof fn lemma_without_id_subset(bags: Seq<Baggage>, id: BaggageId)
    ensures
        forall|k: int|
            0 <= k < without_id(bags, id).len() ==> #[trigger] bags.contains(
                without_id(bags, id)[k],
            ) && without_id(bags, id)[k].baggage_id != id,
        without_id(bags, id).len() <= bags.len(),
    decreases bags.len(),
{
    reveal(Seq::filter);
    if bags.len() > 0 {
        let rest = bags.drop_last();
        lemma_without_id_subset(rest, id);
        assert forall|k: int| 0 <= k < without_id(bags, id).len() implies #[trigger] bags.contains(
            without_id(bags, id)[k],
        ) && without_id(bags, id)[k].baggage_id != id by {
            if k < without_id(rest, id).len() {
                let x = without_id(rest, id)[k];
                assert(rest.contains(x));
                let j = choose|j: int| 0 <= j < rest.len() && rest[j] == x;
                assert(bags[j] == x);
            } else {
                assert(bags[bags.len() - 1] == bags.last());
            }
        }
    }
}

/// Removing pieces keeps the identifiers unique.
pub proof fn lemma_without_id_unique(bags: Seq<Baggage>, id: BaggageId)
    requires
        ids_unique(bags),
    ensures
        ids_unique(without_id(bags, id)),
    decreases bags.len(),
{
    reveal(Seq::filter);
    if bags.len() > 0 {
        let rest = bags.drop_last();
        assert(ids_unique(rest));
        lemma_without_id_unique(rest, id);
        lemma_without_id_subset(rest, id);
        let r = without_id(bags, id);
        let rr = without_id(rest, id);
        if bags.last().baggage_id != id {
            assert(r == rr.push(bags.last()));
            assert forall|k: int| 0 <= k < rr.len() implies #[trigger] rr[k].baggage_id
                != bags.last().baggage_id by {
                assert(rest.contains(rr[k]));
                let j = choose|j: int| 0 <= j < rest.len() && rest[j] == rr[k];
                assert(bags[j] == rest[j]);
                assert(bags[bags.len() - 1] == bags.last());
            }
            assert forall|i: int, j: int|
                0 <= i < r.len() && 0 <= j < r.len() && i != j implies r[i].baggage_id
                != r[j].baggage_id by {
                if i < rr.len() && j < rr.len() {
                } else if i < rr.len() {
                    assert(rr[i].baggage_id != bags.last().baggage_id);
                } else {
                    assert(rr[j].baggage_id != bags.last().baggage_id);
                }
            }
        } else {
            assert(r == rr);
        }
    }
}

} // verus!
