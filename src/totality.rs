use vstd::prelude::*;
use vstd::set_lib::lemma_len_subset;

use crate::data_type::DataTypeEnum;
use crate::ids::uuid_of;
use crate::json::opt_view;
use crate::materialize::{
    array_values, field_value, object_fields, reference_target, scope_pairs, scope_positions,
    scope_slots, slot_values, ContentField,
};
use crate::ordering::{array_order, by_slot, lemma_slot_order_total, SlotKey};

verus! {

/// No two rows share an identifier.
pub open spec fn ids_unique(rows: Seq<ContentField>) -> bool {
    forall|i: int, j: int|
        0 <= i < rows.len() && 0 <= j < rows.len() && rows[i].id == rows[j].id ==> i == j
}

/// Every reference whose payload names a target names it with valid
/// identifiers.
pub open spec fn references_valid(rows: Seq<ContentField>) -> bool {
    forall|i: int|
        0 <= i < rows.len() && rows[i].data_type == DataTypeEnum::REFERENCE && (#[trigger] reference_target(
            opt_view(rows[i].value),
        )) is Some ==> {
            let target = reference_target(opt_view(rows[i].value))->0;
            uuid_of(target.0) is Some && uuid_of(target.1) is Some
        }
}

/// A row with this identifier and parent exists.
pub open spec fn has_row(rows: Seq<ContentField>, id: u128, parent: Option<u128>) -> bool {
    exists|k: int| 0 <= k < rows.len() && rows[k].id == id && rows[k].parent_id == parent
}

pub open spec fn chain_parent(path: Seq<u128>, m: int) -> Option<u128> {
    if m == 0 {
        None
    } else {
        Some(path[m - 1])
    }
}

/// The parent of the scope at the end of a path of compound rows.
pub open spec fn path_parent(path: Seq<u128>) -> Option<u128> {
    if path.len() == 0 {
        None
    } else {
        Some(path.last())
    }
}

/// `path` lists the identifiers of compound rows, each the child of the one
/// before, the first at the top level.
pub open spec fn descends(rows: Seq<ContentField>, path: Seq<u128>) -> bool {
    &&& path.no_duplicates()
    &&& forall|m: int| 0 <= m < path.len() ==> has_row(rows, #[trigger] path[m], chain_parent(path, m))
}

proof fn lemma_child_off_path(rows: Seq<ContentField>, path: Seq<u128>, k: int)
    requires
        ids_unique(rows),
        descends(rows, path),
        0 <= k < rows.len(),
        rows[k].parent_id == path_parent(path),
    ensures
        !path.contains(rows[k].id),
{
    let id = rows[k].id;
    if path.contains(id) {
        let m = choose|m: int| 0 <= m < path.len() && path[m] == id;
        assert(has_row(rows, path[m], chain_parent(path, m)));
        let k2 = choose|k2: int|
            0 <= k2 < rows.len() && rows[k2].id == path[m] && rows[k2].parent_id == chain_parent(
                path,
                m,
            );
        assert(rows[k2].id == rows[k].id);
        assert(k2 == k);
        if m > 0 {
            assert(path[m - 1] == path[path.len() - 1]);
            assert(path.no_duplicates());
            assert(m - 1 == path.len() - 1);
        }
    }
}

proof fn lemma_child_extends_path(rows: Seq<ContentField>, path: Seq<u128>, k: int)
    requires
        ids_unique(rows),
        descends(rows, path),
        0 <= k < rows.len(),
        rows[k].parent_id == path_parent(path),
    ensures
        descends(rows, path.push(rows[k].id)),
{
    lemma_child_off_path(rows, path, k);
    let id = rows[k].id;
    let next = path.push(id);
    assert forall|m: int| 0 <= m < next.len() implies has_row(
        rows,
        #[trigger] next[m],
        chain_parent(next, m),
    ) by {
        if m < path.len() {
            assert(next[m] == path[m]);
            assert(has_row(rows, path[m], chain_parent(path, m)));
            if m > 0 {
                assert(next[m - 1] == path[m - 1]);
            }
            assert(chain_parent(next, m) == chain_parent(path, m));
        } else {
            if m > 0 {
                assert(next[m - 1] == path.last());
            }
            assert(chain_parent(next, m) == path_parent(path));
            assert(rows[k].id == next[m] && rows[k].parent_id == chain_parent(next, m));
        }
    }
    assert forall|i: int, j: int| 0 <= i < next.len() && 0 <= j < next.len() && i != j implies next[i]
        != next[j] by {
        if i < path.len() && j < path.len() {
            assert(next[i] == path[i] && next[j] == path[j]);
        } else if i < path.len() {
            assert(path.contains(next[i]));
        } else {
            assert(path.contains(next[j]));
        }
    }
}

proof fn lemma_path_fits(rows: Seq<ContentField>, path: Seq<u128>)
    requires
        descends(rows, path),
    ensures
        path.len() <= rows.len(),
{
    broadcast use vstd::seq_lib::seq_to_set_is_finite;

    let ids = rows.map_values(|r: ContentField| r.id);
    path.unique_seq_to_set();
    ids.lemma_cardinality_of_set();
    assert forall|x: u128| path.to_set().contains(x) implies ids.to_set().contains(x) by {
        let m = choose|m: int| 0 <= m < path.len() && path[m] == x;
        assert(has_row(rows, path[m], chain_parent(path, m)));
        let k = choose|k: int|
            0 <= k < rows.len() && rows[k].id == path[m] && rows[k].parent_id == chain_parent(
                path,
                m,
            );
        assert(ids[k] == x);
    }
    lemma_len_subset(path.to_set(), ids.to_set());
}

proof fn lemma_positions_in_scope(
    rows: Seq<ContentField>,
    content_id: Option<u128>,
    translation_id: u128,
    parent_id: Option<u128>,
)
    requires
        rows.len() <= usize::MAX,
    ensures
        forall|j: int|
            0 <= j < scope_positions(rows, content_id, translation_id, parent_id).len() ==> {
                let p = #[trigger] scope_positions(rows, content_id, translation_id, parent_id)[j];
                &&& p < rows.len()
                &&& rows[p as int].parent_id == parent_id
            },
    decreases rows.len(),
{
    if rows.len() > 0 {
        lemma_positions_in_scope(rows.drop_last(), content_id, translation_id, parent_id);
        let prev = scope_positions(rows.drop_last(), content_id, translation_id, parent_id);
        let cur = scope_positions(rows, content_id, translation_id, parent_id);
        assert forall|j: int| 0 <= j < cur.len() implies #[trigger] cur[j] < rows.len()
            && rows[cur[j] as int].parent_id == parent_id by {
            if j < prev.len() {
                assert(cur[j] == prev[j]);
                assert(rows[prev[j] as int] == rows.drop_last()[prev[j] as int]);
            } else {
                assert(rows.last() == rows[rows.len() - 1]);
            }
        }
    }
}

proof fn lemma_slots_in_scope(
    rows: Seq<ContentField>,
    content_id: Option<u128>,
    translation_id: u128,
    parent_id: Option<u128>,
)
    requires
        rows.len() <= usize::MAX,
    ensures
        forall|e: SlotKey|
            #[trigger] scope_slots(rows, content_id, translation_id, parent_id).contains(e) ==> {
                &&& e.1 < rows.len()
                &&& rows[e.1 as int].parent_id == parent_id
            },
    decreases rows.len(),
{
    if rows.len() > 0 {
        lemma_slots_in_scope(rows.drop_last(), content_id, translation_id, parent_id);
        let prev = scope_slots(rows.drop_last(), content_id, translation_id, parent_id);
        let cur = scope_slots(rows, content_id, translation_id, parent_id);
        assert forall|e: SlotKey| #[trigger] cur.contains(e) implies e.1 < rows.len()
            && rows[e.1 as int].parent_id == parent_id by {
            let j = choose|j: int| 0 <= j < cur.len() && cur[j] == e;
            if j < prev.len() {
                assert(prev[j] == e);
                assert(prev.contains(e));
                assert(rows[e.1 as int] == rows.drop_last()[e.1 as int]);
            } else {
                assert(rows.last() == rows[rows.len() - 1]);
            }
        }
    }
}

/// The totality argument's requirements on one scope.
pub open spec fn scope_ready(rows: Seq<ContentField>, budget: nat, path: Seq<u128>) -> bool {
    &&& ids_unique(rows)
    &&& references_valid(rows)
    &&& descends(rows, path)
    &&& budget + path.len() == rows.len()
    &&& rows.len() <= usize::MAX
}

proof fn lemma_field_total(
    content_id: Option<u128>,
    translation_id: u128,
    k: int,
    rows: Seq<ContentField>,
    populate: bool,
    refs: nat,
    budget: nat,
    visited: Seq<(u128, u128)>,
    path: Seq<u128>,
)
    requires
        scope_ready(rows, budget, path),
        0 <= k < rows.len(),
        rows[k].parent_id == path_parent(path),
    ensures
        field_value(content_id, translation_id, rows[k], rows, populate, refs, budget, visited) is Ok,
    decreases refs, budget, 0nat, 0nat,
{
    let f = rows[k];
    match f.data_type {
        DataTypeEnum::REFERENCE => {
            let target = reference_target(opt_view(f.value));
            if populate && target is Some {
                let (c, t) = target->0;
                let ci = uuid_of(c)->0;
                let ti = uuid_of(t)->0;
                if !(refs == 0 || visited.contains((ci, ti))) {
                    lemma_object_total(
                        Some(ci),
                        ti,
                        rows,
                        populate,
                        (refs - 1) as nat,
                        rows.len(),
                        visited.push((ci, ti)),
                        Seq::empty(),
                    );
                }
            }
        },
        DataTypeEnum::ARRAY => {
            lemma_child_extends_path(rows, path, k);
            lemma_path_fits(rows, path.push(f.id));
            lemma_array_total(
                content_id,
                translation_id,
                rows,
                populate,
                refs,
                (budget - 1) as nat,
                visited,
                path.push(f.id),
            );
        },
        DataTypeEnum::OBJECT | DataTypeEnum::BLOCK => {
            lemma_child_extends_path(rows, path, k);
            lemma_path_fits(rows, path.push(f.id));
            lemma_object_total(
                content_id,
                translation_id,
                rows,
                populate,
                refs,
                (budget - 1) as nat,
                visited,
                path.push(f.id),
            );
        },
        _ => {},
    }
}

proof fn lemma_pairs_total(
    content_id: Option<u128>,
    translation_id: u128,
    positions: Seq<usize>,
    rows: Seq<ContentField>,
    populate: bool,
    refs: nat,
    budget: nat,
    visited: Seq<(u128, u128)>,
    path: Seq<u128>,
)
    requires
        scope_ready(rows, budget, path),
        forall|j: int|
            0 <= j < positions.len() ==> #[trigger] positions[j] < rows.len() && rows[positions[j] as int].parent_id
                == path_parent(path),
    ensures
        scope_pairs(content_id, translation_id, positions, rows, populate, refs, budget, visited) is Ok,
    decreases refs, budget, 1nat, positions.len(),
{
    if positions.len() > 0 {
        let prefix = positions.drop_last();
        assert forall|j: int| 0 <= j < prefix.len() implies #[trigger] prefix[j] < rows.len()
            && rows[prefix[j] as int].parent_id == path_parent(path) by {
            assert(prefix[j] == positions[j]);
        }
        lemma_pairs_total(
            content_id,
            translation_id,
            prefix,
            rows,
            populate,
            refs,
            budget,
            visited,
            path,
        );
        assert(positions.last() == positions[positions.len() - 1]);
        lemma_field_total(
            content_id,
            translation_id,
            positions.last() as int,
            rows,
            populate,
            refs,
            budget,
            visited,
            path,
        );
    }
}

proof fn lemma_slots_total(
    content_id: Option<u128>,
    translation_id: u128,
    slots: Seq<SlotKey>,
    rows: Seq<ContentField>,
    populate: bool,
    refs: nat,
    budget: nat,
    visited: Seq<(u128, u128)>,
    path: Seq<u128>,
)
    requires
        scope_ready(rows, budget, path),
        forall|j: int|
            0 <= j < slots.len() ==> (#[trigger] slots[j]).1 < rows.len() && rows[slots[j].1 as int].parent_id
                == path_parent(path),
    ensures
        slot_values(content_id, translation_id, slots, rows, populate, refs, budget, visited) is Ok,
    decreases refs, budget, 1nat, slots.len(),
{
    if slots.len() > 0 {
        let prefix = slots.drop_last();
        assert forall|j: int| 0 <= j < prefix.len() implies (#[trigger] prefix[j]).1 < rows.len()
            && rows[prefix[j].1 as int].parent_id == path_parent(path) by {
            assert(prefix[j] == slots[j]);
        }
        lemma_slots_total(
            content_id,
            translation_id,
            prefix,
            rows,
            populate,
            refs,
            budget,
            visited,
            path,
        );
        assert(slots.last() == slots[slots.len() - 1]);
        lemma_field_total(
            content_id,
            translation_id,
            slots.last().1 as int,
            rows,
            populate,
            refs,
            budget,
            visited,
            path,
        );
    }
}

proof fn lemma_object_total(
    content_id: Option<u128>,
    translation_id: u128,
    rows: Seq<ContentField>,
    populate: bool,
    refs: nat,
    budget: nat,
    visited: Seq<(u128, u128)>,
    path: Seq<u128>,
)
    requires
        scope_ready(rows, budget, path),
    ensures
        object_fields(
            content_id,
            translation_id,
            path_parent(path),
            rows,
            populate,
            refs,
            budget,
            visited,
        ) is Ok,
    decreases refs, budget, 2nat, 0nat,
{
    let parent = path_parent(path);
    lemma_positions_in_scope(rows, content_id, translation_id, parent);
    lemma_pairs_total(
        content_id,
        translation_id,
        scope_positions(rows, content_id, translation_id, parent),
        rows,
        populate,
        refs,
        budget,
        visited,
        path,
    );
}

proof fn lemma_array_total(
    content_id: Option<u128>,
    translation_id: u128,
    rows: Seq<ContentField>,
    populate: bool,
    refs: nat,
    budget: nat,
    visited: Seq<(u128, u128)>,
    path: Seq<u128>,
)
    requires
        scope_ready(rows, budget, path),
    ensures
        array_values(
            content_id,
            translation_id,
            path_parent(path),
            rows,
            populate,
            refs,
            budget,
            visited,
        ) is Ok,
    decreases refs, budget, 2nat, 0nat,
{
    let parent = path_parent(path);
    let slots = scope_slots(rows, content_id, translation_id, parent);
    let order = array_order(slots);
    lemma_slots_in_scope(rows, content_id, translation_id, parent);
    lemma_slot_order_total();
    slots.lemma_sort_by_ensures(by_slot());
    assert forall|j: int| 0 <= j < order.len() implies (#[trigger] order[j]).1 < rows.len()
        && rows[order[j].1 as int].parent_id == parent by {
        assert(order.contains(order[j]));
        assert(slots.contains(order[j]));
    }
    lemma_slots_total(
        content_id,
        translation_id,
        order,
        rows,
        populate,
        refs,
        budget,
        visited,
        path,
    );
}

/// Materializing the top level of rows whose identifiers are unique and
/// whose references name valid identifiers always succeeds: every data
/// type yields a value, at any depth of nesting.
pub proof fn law_top_level_total(
    content_id: Option<u128>,
    translation_id: u128,
    rows: Seq<ContentField>,
    populate: bool,
    refs: nat,
    visited: Seq<(u128, u128)>,
)
    requires
        ids_unique(rows),
        references_valid(rows),
        rows.len() <= usize::MAX,
    ensures
        object_fields(
            content_id,
            translation_id,
            None,
            rows,
            populate,
            refs,
            rows.len(),
            visited,
        ) is Ok,
{
    lemma_object_total(
        content_id,
        translation_id,
        rows,
        populate,
        refs,
        rows.len(),
        visited,
        Seq::empty(),
    );
}

} // verus!
