use vstd::prelude::*;
use vstd::relations::{sorted_by, total_ordering};

use itertools::Itertools;

verus! {

/// An array element's place: its sequence number and its position among the rows.
pub type SlotKey = (Option<i32>, usize);

/// The order of optional sequence numbers: an absent number comes first.
pub open spec fn sequence_leq(a: Option<i32>, b: Option<i32>) -> bool {
    match (a, b) {
        (None, _) => true,
        (Some(_), None) => false,
        (Some(x), Some(y)) => x <= y,
    }
}

/// Ascending by sequence number; rows with equal numbers keep their order.
pub open spec fn slot_leq(a: SlotKey, b: SlotKey) -> bool {
    if a.0 == b.0 {
        a.1 <= b.1
    } else {
        sequence_leq(a.0, b.0)
    }
}

pub open spec fn by_slot() -> spec_fn(SlotKey, SlotKey) -> bool {
    |a: SlotKey, b: SlotKey| slot_leq(a, b)
}

/// The order in which array elements come out.
pub open spec fn array_order(keys: Seq<SlotKey>) -> Seq<SlotKey> {
    keys.sort_by(by_slot())
}

/// Positions strictly ascending.
pub open spec fn positions_ascending(keys: Seq<SlotKey>) -> bool {
    forall|i: int, j: int| 0 <= i < j < keys.len() ==> keys[i].1 < keys[j].1
}

pub proof fn lemma_slot_order_total()
    ensures
        total_ordering(by_slot()),
{
    let r = by_slot();
    assert forall|x: SlotKey, y: SlotKey, z: SlotKey| #[trigger] r(x, y) && #[trigger] r(y, z) implies r(x, z) by {
    }
    assert forall|x: SlotKey, y: SlotKey| #[trigger] r(x, y) && #[trigger] r(y, x) implies x == y by {
    }
}

/// Relies on `itertools::Itertools::sorted_by`, which sorts by the comparator
/// with a stable sort: the result holds the same keys, ascending by sequence
/// number, and keys with equal numbers stay in their incoming order, which
/// is ascending by position.
#[verifier::external_body]
fn sort_by_sequence(keys: Vec<SlotKey>) -> (r: Vec<SlotKey>)
    requires
        positions_ascending(keys@),
    ensures
        r@.to_multiset() == keys@.to_multiset(),
        sorted_by(r@, by_slot()),
{
    keys.into_iter().sorted_by(|a, b| Ord::cmp(&a.0, &b.0)).collect()
}

/// Puts array slots into the order in which their elements appear.
pub(crate) fn order_slots(keys: Vec<SlotKey>) -> (r: Vec<SlotKey>)
    requires
        positions_ascending(keys@),
    ensures
        r@ == array_order(keys@),
{
    let ghost k = keys@;
    let r = sort_by_sequence(keys);
    proof {
        lemma_slot_order_total();
        k.lemma_sort_by_ensures(by_slot());
        vstd::seq_lib::lemma_sorted_unique(r@, k.sort_by(by_slot()), by_slot());
    }
    r
}

} // verus!
