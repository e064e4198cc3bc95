use vstd::prelude::*;

use crate::data_type::DataTypeEnum;
use crate::ids::uuid_of;
use crate::json::{opt_view, Json};
use crate::mapping::{build_mapping, last_value, lemma_build_mapping, lookup, names_unique, Entries};
use crate::materialize::{
    array_values, field_value, object_fields, reference_json, reference_target, scope_pairs,
    scope_slots, slot_values, ContentField, MaterializeError,
};
use crate::ordering::{
    array_order, by_slot, lemma_slot_order_total, positions_ascending, sequence_leq, SlotKey,
};

verus! {

/// A text, number or boolean field materializes to its stored value,
/// unchanged, an unset value included.
pub proof fn law_scalar_unchanged(
    content_id: Option<u128>,
    translation_id: u128,
    f: ContentField,
    rows: Seq<ContentField>,
    populate: bool,
    refs: nat,
    budget: nat,
    visited: Seq<(u128, u128)>,
)
    requires
        f.data_type == DataTypeEnum::TEXT || f.data_type == DataTypeEnum::NUMBER || f.data_type
            == DataTypeEnum::BOOLEAN,
    ensures
        field_value(content_id, translation_id, f, rows, populate, refs, budget, visited) == Ok::<
            Option<Json>,
            MaterializeError,
        >(opt_view(f.value)),
{
}

/// A reference that is not to be populated materializes to its stored
/// pointer, unchanged, whether or not its target is among the rows.
pub proof fn law_reference_unpopulated(
    content_id: Option<u128>,
    translation_id: u128,
    f: ContentField,
    rows: Seq<ContentField>,
    refs: nat,
    budget: nat,
    visited: Seq<(u128, u128)>,
)
    requires
        f.data_type == DataTypeEnum::REFERENCE,
    ensures
        field_value(content_id, translation_id, f, rows, false, refs, budget, visited) == Ok::<
            Option<Json>,
            MaterializeError,
        >(opt_view(f.value)),
{
}

/// A populated reference whose target identifiers parse, and whose target is
/// not already being expanded further up, materializes to the pointer
/// together with the target's fields, exactly as materializing the target's
/// top level directly gives them.
pub proof fn law_reference_populated(
    content_id: Option<u128>,
    translation_id: u128,
    f: ContentField,
    rows: Seq<ContentField>,
    refs: nat,
    budget: nat,
    visited: Seq<(u128, u128)>,
    target_content: Seq<char>,
    target_translation: Seq<char>,
    target_content_id: u128,
    target_translation_id: u128,
)
    requires
        f.data_type == DataTypeEnum::REFERENCE,
        refs > 0,
        reference_target(opt_view(f.value)) == Some((target_content, target_translation)),
        uuid_of(target_content) == Some(target_content_id),
        uuid_of(target_translation) == Some(target_translation_id),
        !visited.contains((target_content_id, target_translation_id)),
    ensures
        field_value(content_id, translation_id, f, rows, true, refs, budget, visited) == match object_fields(
            Some(target_content_id),
            target_translation_id,
            None,
            rows,
            true,
            (refs - 1) as nat,
            rows.len(),
            visited.push((target_content_id, target_translation_id)),
        ) {
            Ok(m) => Ok(Some(reference_json(target_content, target_translation, m))),
            Err(e) => Err(e),
        },
{
}

/// A reference to a target that is already being expanded further up stays
/// a pointer, so cyclic references end.
pub proof fn law_reference_cycle_stops(
    content_id: Option<u128>,
    translation_id: u128,
    f: ContentField,
    rows: Seq<ContentField>,
    populate: bool,
    refs: nat,
    budget: nat,
    visited: Seq<(u128, u128)>,
    target_content: Seq<char>,
    target_translation: Seq<char>,
    target_content_id: u128,
    target_translation_id: u128,
)
    requires
        f.data_type == DataTypeEnum::REFERENCE,
        reference_target(opt_view(f.value)) == Some((target_content, target_translation)),
        uuid_of(target_content) == Some(target_content_id),
        uuid_of(target_translation) == Some(target_translation_id),
        visited.contains((target_content_id, target_translation_id)),
    ensures
        field_value(content_id, translation_id, f, rows, populate, refs, budget, visited) == Ok::<
            Option<Json>,
            MaterializeError,
        >(opt_view(f.value)),
{
}

/// A scope's mapping has each name once, holding the value of the last row
/// of that name; so the order of the rows matters only between rows that
/// share a name.
pub proof fn law_last_write_wins(
    content_id: Option<u128>,
    translation_id: u128,
    parent_id: Option<u128>,
    rows: Seq<ContentField>,
    populate: bool,
    refs: nat,
    budget: nat,
    visited: Seq<(u128, u128)>,
)
    ensures
        object_fields(content_id, translation_id, parent_id, rows, populate, refs, budget, visited) matches Ok(m)
            ==> {
            let pairs = scope_pairs(
                content_id,
                translation_id,
                crate::materialize::scope_positions(rows, content_id, translation_id, parent_id),
                rows,
                populate,
                refs,
                budget,
                visited,
            )->Ok_0;
            &&& names_unique(m)
            &&& forall|k: Seq<char>| #[trigger] lookup(m, k) == last_value(pairs, k)
        },
{
    let r = scope_pairs(
        content_id,
        translation_id,
        crate::materialize::scope_positions(rows, content_id, translation_id, parent_id),
        rows,
        populate,
        refs,
        budget,
        visited,
    );
    if let Ok(pairs) = r {
        lemma_build_mapping(pairs);
    }
}

/// Two sequences of (name, value) pairs that agree on the last value of
/// every name build the same mapping, whatever their order.
pub proof fn law_mapping_order_independent(a: Entries<Option<Json>>, b: Entries<Option<Json>>)
    requires
        forall|k: Seq<char>| #[trigger] last_value(a, k) == last_value(b, k),
    ensures
        forall|k: Seq<char>| #[trigger] lookup(build_mapping(a), k) == lookup(build_mapping(b), k),
{
    lemma_build_mapping(a);
    lemma_build_mapping(b);
}

/// The positions of rows named `key`.
pub open spec fn named(rows: Seq<ContentField>, key: Seq<char>) -> spec_fn(usize) -> bool {
    |i: usize| rows[i as int].name@ == key
}

proof fn lemma_scope_pairs_shape(
    content_id: Option<u128>,
    translation_id: u128,
    positions: Seq<usize>,
    rows: Seq<ContentField>,
    populate: bool,
    refs: nat,
    budget: nat,
    visited: Seq<(u128, u128)>,
)
    ensures
        scope_pairs(content_id, translation_id, positions, rows, populate, refs, budget, visited) is Ok
            <==> forall|j: int|
            0 <= j < positions.len() ==> (#[trigger] field_value(
                content_id,
                translation_id,
                rows[positions[j] as int],
                rows,
                populate,
                refs,
                budget,
                visited,
            )) is Ok,
    decreases positions.len(),
{
    if positions.len() > 0 {
        let prefix = positions.drop_last();
        lemma_scope_pairs_shape(content_id, translation_id, prefix, rows, populate, refs, budget, visited);
        let fv = |j: int|
            field_value(
                content_id,
                translation_id,
                rows[positions[j] as int],
                rows,
                populate,
                refs,
                budget,
                visited,
            );
        let n = positions.len() - 1;
        if forall|j: int| 0 <= j < positions.len() ==> (#[trigger] fv(j)) is Ok {
            assert forall|j: int| 0 <= j < prefix.len() implies (#[trigger] field_value(
                content_id,
                translation_id,
                rows[prefix[j] as int],
                rows,
                populate,
                refs,
                budget,
                visited,
            )) is Ok by {
                assert(fv(j) is Ok);
            }
            assert(fv(n) is Ok);
        }
        if scope_pairs(content_id, translation_id, positions, rows, populate, refs, budget, visited) is Ok {
            assert forall|j: int| 0 <= j < positions.len() implies (#[trigger] field_value(
                content_id,
                translation_id,
                rows[positions[j] as int],
                rows,
                populate,
                refs,
                budget,
                visited,
            )) is Ok by {
                if j < n {
                    assert(prefix[j] == positions[j]);
                }
            }
        }
    }
}

proof fn lemma_scope_last_value(
    content_id: Option<u128>,
    translation_id: u128,
    positions: Seq<usize>,
    rows: Seq<ContentField>,
    populate: bool,
    refs: nat,
    budget: nat,
    visited: Seq<(u128, u128)>,
    key: Seq<char>,
)
    requires
        scope_pairs(content_id, translation_id, positions, rows, populate, refs, budget, visited) is Ok,
    ensures
        ({
            let pairs = scope_pairs(
                content_id,
                translation_id,
                positions,
                rows,
                populate,
                refs,
                budget,
                visited,
            )->Ok_0;
            let hits = positions.filter(named(rows, key));
            last_value(pairs, key) == if hits.len() == 0 {
                None
            } else {
                Some(
                    field_value(
                        content_id,
                        translation_id,
                        rows[hits.last() as int],
                        rows,
                        populate,
                        refs,
                        budget,
                        visited,
                    )->Ok_0,
                )
            }
        }),
    decreases positions.len(),
{
    reveal(Seq::filter);
    if positions.len() > 0 {
        let prefix = positions.drop_last();
        lemma_scope_last_value(
            content_id,
            translation_id,
            prefix,
            rows,
            populate,
            refs,
            budget,
            visited,
            key,
        );
        let before = scope_pairs(
            content_id,
            translation_id,
            prefix,
            rows,
            populate,
            refs,
            budget,
            visited,
        )->Ok_0;
        let f = rows[positions.last() as int];
        let v = field_value(content_id, translation_id, f, rows, populate, refs, budget, visited)->Ok_0;
        let pairs = scope_pairs(
            content_id,
            translation_id,
            positions,
            rows,
            populate,
            refs,
            budget,
            visited,
        )->Ok_0;
        assert(pairs == before.push((f.name@, v)));
        assert(pairs.drop_last() =~= before);
        assert(named(rows, key)(positions.last()) == (f.name@ == key));
    } else {
        assert(positions.filter(named(rows, key)).len() == 0);
    }
}

/// Going through a scope's rows in another order, one that keeps the rows
/// of each name in their relative order, succeeds alike and builds a
/// mapping that holds the same value under every name.
pub proof fn law_scope_order_independent(
    content_id: Option<u128>,
    translation_id: u128,
    rows: Seq<ContentField>,
    populate: bool,
    refs: nat,
    budget: nat,
    visited: Seq<(u128, u128)>,
    first: Seq<usize>,
    second: Seq<usize>,
)
    requires
        first.to_multiset() == second.to_multiset(),
        forall|key: Seq<char>| #[trigger] first.filter(named(rows, key)) == second.filter(named(rows, key)),
        scope_pairs(content_id, translation_id, first, rows, populate, refs, budget, visited) is Ok,
    ensures
        scope_pairs(content_id, translation_id, second, rows, populate, refs, budget, visited) is Ok,
        forall|key: Seq<char>|
            #[trigger] lookup(
                build_mapping(
                    scope_pairs(
                        content_id,
                        translation_id,
                        first,
                        rows,
                        populate,
                        refs,
                        budget,
                        visited,
                    )->Ok_0,
                ),
                key,
            ) == lookup(
                build_mapping(
                    scope_pairs(
                        content_id,
                        translation_id,
                        second,
                        rows,
                        populate,
                        refs,
                        budget,
                        visited,
                    )->Ok_0,
                ),
                key,
            ),
{
    broadcast use vstd::seq_lib::group_to_multiset_ensures;

    lemma_scope_pairs_shape(content_id, translation_id, first, rows, populate, refs, budget, visited);
    lemma_scope_pairs_shape(content_id, translation_id, second, rows, populate, refs, budget, visited);
    assert forall|j: int| 0 <= j < second.len() implies (#[trigger] field_value(
        content_id,
        translation_id,
        rows[second[j] as int],
        rows,
        populate,
        refs,
        budget,
        visited,
    )) is Ok by {
        assert(second.to_multiset().count(second[j]) > 0);
        assert(first.contains(second[j]));
        let i = choose|i: int| 0 <= i < first.len() && first[i] == second[j];
        assert(field_value(
            content_id,
            translation_id,
            rows[first[i] as int],
            rows,
            populate,
            refs,
            budget,
            visited,
        ) is Ok);
    }
    let a = scope_pairs(content_id, translation_id, first, rows, populate, refs, budget, visited)->Ok_0;
    let b = scope_pairs(content_id, translation_id, second, rows, populate, refs, budget, visited)->Ok_0;
    assert forall|key: Seq<char>| #[trigger] last_value(a, key) == last_value(b, key) by {
        lemma_scope_last_value(content_id, translation_id, first, rows, populate, refs, budget, visited, key);
        lemma_scope_last_value(content_id, translation_id, second, rows, populate, refs, budget, visited, key);
        assert(first.filter(named(rows, key)) == second.filter(named(rows, key)));
    }
    law_mapping_order_independent(a, b);
}

/// In a scope's mapping, each name holds the value of the last row of the
/// scope (in row order) that has that name, and a name no row has is absent.
pub proof fn law_last_row_wins(
    content_id: Option<u128>,
    translation_id: u128,
    parent_id: Option<u128>,
    rows: Seq<ContentField>,
    populate: bool,
    refs: nat,
    budget: nat,
    visited: Seq<(u128, u128)>,
    key: Seq<char>,
)
    ensures
        object_fields(content_id, translation_id, parent_id, rows, populate, refs, budget, visited)
            matches Ok(m) ==> {
            let hits = crate::materialize::scope_positions(
                rows,
                content_id,
                translation_id,
                parent_id,
            ).filter(named(rows, key));
            lookup(m, key) == if hits.len() == 0 {
                None
            } else {
                Some(
                    field_value(
                        content_id,
                        translation_id,
                        rows[hits.last() as int],
                        rows,
                        populate,
                        refs,
                        budget,
                        visited,
                    )->Ok_0,
                )
            }
        },
{
    let positions = crate::materialize::scope_positions(
        rows,
        content_id,
        translation_id,
        parent_id,
    );
    let r = scope_pairs(content_id, translation_id, positions, rows, populate, refs, budget, visited);
    if let Ok(pairs) = r {
        lemma_build_mapping(pairs);
        lemma_scope_last_value(
            content_id,
            translation_id,
            positions,
            rows,
            populate,
            refs,
            budget,
            visited,
            key,
        );
    }
}

/// Materializing is a function of its arguments: the same rows give the
/// same result every time.
pub proof fn law_materialize_repeatable(
    content_id: Option<u128>,
    translation_id: u128,
    parent_id: Option<u128>,
    rows: Seq<ContentField>,
    again: Seq<ContentField>,
    populate: bool,
    refs: nat,
    budget: nat,
    visited: Seq<(u128, u128)>,
)
    requires
        again == rows,
    ensures
        object_fields(content_id, translation_id, parent_id, again, populate, refs, budget, visited)
            == object_fields(content_id, translation_id, parent_id, rows, populate, refs, budget, visited),
        array_values(content_id, translation_id, parent_id, again, populate, refs, budget, visited)
            == array_values(content_id, translation_id, parent_id, rows, populate, refs, budget, visited),
{
}

/// No rows materialize to the empty mapping, never to an error.
pub proof fn law_empty_rows(
    content_id: Option<u128>,
    translation_id: u128,
    parent_id: Option<u128>,
    populate: bool,
    refs: nat,
    budget: nat,
    visited: Seq<(u128, u128)>,
)
    ensures
        object_fields(content_id, translation_id, parent_id, Seq::empty(), populate, refs, budget, visited)
            == Ok::<Entries<Option<Json>>, MaterializeError>(Seq::empty()),
{
    assert(build_mapping(Seq::<(Seq<char>, Option<Json>)>::empty()) =~= Seq::empty());
}

proof fn lemma_scope_slots_ascending(
    rows: Seq<ContentField>,
    content_id: Option<u128>,
    translation_id: u128,
    parent_id: Option<u128>,
)
    requires
        rows.len() <= usize::MAX,
    ensures
        positions_ascending(scope_slots(rows, content_id, translation_id, parent_id)),
        forall|k: int|
            0 <= k < scope_slots(rows, content_id, translation_id, parent_id).len() ==> (#[trigger] scope_slots(
                rows,
                content_id,
                translation_id,
                parent_id,
            )[k]).1 < rows.len(),
    decreases rows.len(),
{
    if rows.len() > 0 {
        lemma_scope_slots_ascending(rows.drop_last(), content_id, translation_id, parent_id);
        let prev = scope_slots(rows.drop_last(), content_id, translation_id, parent_id);
        let cur = scope_slots(rows, content_id, translation_id, parent_id);
        assert forall|i: int, j: int| 0 <= i < j < cur.len() implies cur[i].1 < cur[j].1 by {
            if j < prev.len() {
                assert(cur[i] == prev[i] && cur[j] == prev[j]);
            } else {
                assert(cur[i] == prev[i]);
                assert(prev[i].1 < rows.drop_last().len());
            }
        }
    }
}

proof fn lemma_slot_values_ok(
    content_id: Option<u128>,
    translation_id: u128,
    slots: Seq<SlotKey>,
    rows: Seq<ContentField>,
    populate: bool,
    refs: nat,
    budget: nat,
    visited: Seq<(u128, u128)>,
)
    ensures
        slot_values(content_id, translation_id, slots, rows, populate, refs, budget, visited) matches Ok(vs) ==> {
            &&& vs.len() == slots.len()
            &&& forall|k: int|
                0 <= k < vs.len() ==> field_value(
                    content_id,
                    translation_id,
                    rows[slots[k].1 as int],
                    rows,
                    populate,
                    refs,
                    budget,
                    visited,
                ) == Ok::<Option<Json>, MaterializeError>(#[trigger] vs[k])
        },
    decreases slots.len(),
{
    if slots.len() > 0 {
        lemma_slot_values_ok(content_id, translation_id, slots.drop_last(), rows, populate, refs, budget, visited);
    }
}

/// An array's elements are the scope's rows ascending by sequence number,
/// rows with equal numbers in row order, each materialized as a field.
pub proof fn law_array_ascending(
    content_id: Option<u128>,
    translation_id: u128,
    parent_id: Option<u128>,
    rows: Seq<ContentField>,
    populate: bool,
    refs: nat,
    budget: nat,
    visited: Seq<(u128, u128)>,
)
    requires
        rows.len() <= usize::MAX,
    ensures
        ({
            let slots = scope_slots(rows, content_id, translation_id, parent_id);
            let order = array_order(slots);
            &&& order.to_multiset() == slots.to_multiset()
            &&& forall|i: int, j: int|
                0 <= i < j < order.len() ==> sequence_leq(order[i].0, order[j].0) && (order[i].0
                    == order[j].0 ==> order[i].1 < order[j].1)
            &&& array_values(content_id, translation_id, parent_id, rows, populate, refs, budget, visited) matches Ok(
                vs,
            ) ==> {
                &&& vs.len() == order.len()
                &&& forall|k: int|
                    0 <= k < vs.len() ==> field_value(
                        content_id,
                        translation_id,
                        rows[order[k].1 as int],
                        rows,
                        populate,
                        refs,
                        budget,
                        visited,
                    ) == Ok::<Option<Json>, MaterializeError>(#[trigger] vs[k])
            }
        }),
{
    let slots = scope_slots(rows, content_id, translation_id, parent_id);
    let order = array_order(slots);
    lemma_slot_order_total();
    slots.lemma_sort_by_ensures(by_slot());
    lemma_scope_slots_ascending(rows, content_id, translation_id, parent_id);
    assert(slots.no_duplicates());
    slots.lemma_multiset_has_no_duplicates();
    order.lemma_multiset_has_no_duplicates_conv();
    assert forall|i: int, j: int| 0 <= i < j < order.len() implies sequence_leq(
        order[i].0,
        order[j].0,
    ) && (order[i].0 == order[j].0 ==> order[i].1 < order[j].1) by {
        assert(by_slot()(order[i], order[j]));
        assert(order[i] != order[j]);
    }
    lemma_slot_values_ok(content_id, translation_id, order, rows, populate, refs, budget, visited);
}

} // verus!
