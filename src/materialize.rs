use vstd::prelude::*;

use crate::data_type::DataTypeEnum;
use crate::ids::{parse_uuid, uuid_of};
use crate::json::{copy_opt, opt_view, or_null, Json, JsonValue, Member};
use crate::mapping::{
    build_mapping, fields_json, fields_to_json, fields_view, insert_field, lemma_build_mapping,
    lemma_first_index_at, lookup, names_unique, Entries, FieldMap,
};
use crate::ordering::{array_order, order_slots, positions_ascending, SlotKey};
use crate::text::str_equal;
use crate::totality::{ids_unique, law_top_level_total, references_valid};

verus! {

/// One stored field value of a content entity.
#[derive(Debug)]
pub struct ContentField {
    pub id: u128,
    /// The compound field this value is nested in; none at the top level.
    pub parent_id: Option<u128>,
    /// The revision or translation the value belongs to.
    pub source_id: u128,
    /// The place of the value inside an array.
    pub sequence_number: Option<i32>,
    pub name: String,
    pub data_type: DataTypeEnum,
    pub value: Option<JsonValue>,
}

/// Why a materialization was abandoned.
#[derive(Clone, Copy, Debug, PartialEq, Eq, Structural)]
pub enum MaterializeError {
    /// A reference names its target with text that is no identifier.
    MalformedReference,
    /// Compound fields nest deeper than there are rows: the parent links
    /// of the rows loop.
    CyclicNesting,
}

/// A row takes part in the scope of `parent_id` for the given content and
/// translation.
pub open spec fn is_visible(
    f: ContentField,
    content_id: Option<u128>,
    translation_id: u128,
    parent_id: Option<u128>,
) -> bool {
    f.parent_id == parent_id && (content_id == Some(f.source_id) || f.source_id == translation_id)
}

/// The positions of the rows in a scope, in row order.
pub open spec fn scope_positions(
    rows: Seq<ContentField>,
    content_id: Option<u128>,
    translation_id: u128,
    parent_id: Option<u128>,
) -> Seq<usize>
    decreases rows.len(),
{
    if rows.len() == 0 {
        Seq::empty()
    } else {
        let s = scope_positions(rows.drop_last(), content_id, translation_id, parent_id);
        if is_visible(rows.last(), content_id, translation_id, parent_id) {
            s.push((rows.len() - 1) as usize)
        } else {
            s
        }
    }
}

/// The array slots of the rows in a scope, in row order.
pub open spec fn scope_slots(
    rows: Seq<ContentField>,
    content_id: Option<u128>,
    translation_id: u128,
    parent_id: Option<u128>,
) -> Seq<SlotKey>
    decreases rows.len(),
{
    if rows.len() == 0 {
        Seq::empty()
    } else {
        let s = scope_slots(rows.drop_last(), content_id, translation_id, parent_id);
        if is_visible(rows.last(), content_id, translation_id, parent_id) {
            s.push((rows.last().sequence_number, (rows.len() - 1) as usize))
        } else {
            s
        }
    }
}

/// `value[key]` when the value is an object whose member `key` is a string.
pub open spec fn string_member(value: Option<Json>, key: Seq<char>) -> Option<Seq<char>> {
    match value {
        Some(Json::Object(members)) => match lookup(members, key) {
            Some(Json::Str(s)) => Some(s),
            _ => None,
        },
        _ => None,
    }
}

/// The target a reference names: its content and translation identifiers,
/// as text.
pub open spec fn reference_target(value: Option<Json>) -> Option<(Seq<char>, Seq<char>)> {
    match (string_member(value, "contentId"@), string_member(value, "translationId"@)) {
        (Some(c), Some(t)) => Some((c, t)),
        _ => None,
    }
}

/// An expanded reference: the pointer and the target's fields.
pub open spec fn reference_json(
    content: Seq<char>,
    translation: Seq<char>,
    fields: Entries<Option<Json>>,
) -> Json {
    Json::Object(
        seq![
            ("contentId"@, Json::Str(content)),
            ("translationId"@, Json::Str(translation)),
            ("fields"@, Json::Object(fields_json(fields))),
        ],
    )
}

/// A block: which variant it is, and its fields.
pub open spec fn block_json(block: Option<Json>, fields: Entries<Option<Json>>) -> Json {
    Json::Object(
        seq![("block"@, or_null(block)), ("fields"@, Json::Object(fields_json(fields)))],
    )
}

/// An array of values: unset elements become `null`.
pub open spec fn array_json(values: Seq<Option<Json>>) -> Json {
    Json::Array(Seq::new(values.len(), |i: int| or_null(values[i])))
}

/// The materialized value of one row. `budget` is how many more levels of
/// compound fields may nest below the current scope, `refs` how many more
/// references may be expanded one inside another, and `visited` holds the
/// (content, translation) pairs of the references being expanded further
/// up, which are not expanded again.
pub open spec fn field_value(
    content_id: Option<u128>,
    translation_id: u128,
    f: ContentField,
    rows: Seq<ContentField>,
    populate: bool,
    refs: nat,
    budget: nat,
    visited: Seq<(u128, u128)>,
) -> Result<Option<Json>, MaterializeError>
    decreases refs, budget, 0nat, 0nat,
{
    match f.data_type {
        DataTypeEnum::TEXT | DataTypeEnum::NUMBER | DataTypeEnum::BOOLEAN => Ok(opt_view(f.value)),
        DataTypeEnum::REFERENCE => {
            let target = reference_target(opt_view(f.value));
            if !populate || target is None {
                Ok(opt_view(f.value))
            } else {
                let (c, t) = target->0;
                match (uuid_of(c), uuid_of(t)) {
                    (Some(ci), Some(ti)) => if refs == 0 || visited.contains((ci, ti)) {
                        Ok(opt_view(f.value))
                    } else {
                        match object_fields(
                            Some(ci),
                            ti,
                            None,
                            rows,
                            populate,
                            (refs - 1) as nat,
                            rows.len(),
                            visited.push((ci, ti)),
                        ) {
                            Ok(m) => Ok(Some(reference_json(c, t, m))),
                            Err(e) => Err(e),
                        }
                    },
                    _ => Err(MaterializeError::MalformedReference),
                }
            }
        },
        DataTypeEnum::ARRAY => {
            if budget == 0 {
                Err(MaterializeError::CyclicNesting)
            } else {
                match array_values(
                    content_id,
                    translation_id,
                    Some(f.id),
                    rows,
                    populate,
                    refs,
                    (budget - 1) as nat,
                    visited,
                ) {
                    Ok(vs) => Ok(Some(array_json(vs))),
                    Err(e) => Err(e),
                }
            }
        },
        DataTypeEnum::OBJECT => {
            if budget == 0 {
                Err(MaterializeError::CyclicNesting)
            } else {
                match object_fields(
                    content_id,
                    translation_id,
                    Some(f.id),
                    rows,
                    populate,
                    refs,
                    (budget - 1) as nat,
                    visited,
                ) {
                    Ok(m) => Ok(Some(Json::Object(fields_json(m)))),
                    Err(e) => Err(e),
                }
            }
        },
        DataTypeEnum::BLOCK => {
            if budget == 0 {
                Err(MaterializeError::CyclicNesting)
            } else {
                match object_fields(
                    content_id,
                    translation_id,
                    Some(f.id),
                    rows,
                    populate,
                    refs,
                    (budget - 1) as nat,
                    visited,
                ) {
                    Ok(m) => Ok(Some(block_json(opt_view(f.value), m))),
                    Err(e) => Err(e),
                }
            }
        },
    }
}

/// The (name, value) pairs of the rows at the given positions, or the first
/// error among them.
pub open spec fn scope_pairs(
    content_id: Option<u128>,
    translation_id: u128,
    positions: Seq<usize>,
    rows: Seq<ContentField>,
    populate: bool,
    refs: nat,
    budget: nat,
    visited: Seq<(u128, u128)>,
) -> Result<Entries<Option<Json>>, MaterializeError>
    decreases refs, budget, 1nat, positions.len(),
{
    if positions.len() == 0 {
        Ok(Seq::empty())
    } else {
        match scope_pairs(
            content_id,
            translation_id,
            positions.drop_last(),
            rows,
            populate,
            refs,
            budget,
            visited,
        ) {
            Err(e) => Err(e),
            Ok(ps) => {
                let f = rows[positions.last() as int];
                match field_value(content_id, translation_id, f, rows, populate, refs, budget, visited) {
                    Ok(v) => Ok(ps.push((f.name@, v))),
                    Err(e) => Err(e),
                }
            },
        }
    }
}

/// The values of the rows in the given slots, or the first error among them.
pub open spec fn slot_values(
    content_id: Option<u128>,
    translation_id: u128,
    slots: Seq<SlotKey>,
    rows: Seq<ContentField>,
    populate: bool,
    refs: nat,
    budget: nat,
    visited: Seq<(u128, u128)>,
) -> Result<Seq<Option<Json>>, MaterializeError>
    decreases refs, budget, 1nat, slots.len(),
{
    if slots.len() == 0 {
        Ok(Seq::empty())
    } else {
        match slot_values(content_id, translation_id, slots.drop_last(), rows, populate, refs, budget, visited) {
            Err(e) => Err(e),
            Ok(vs) => {
                let f = rows[slots.last().1 as int];
                match field_value(content_id, translation_id, f, rows, populate, refs, budget, visited) {
                    Ok(v) => Ok(vs.push(v)),
                    Err(e) => Err(e),
                }
            },
        }
    }
}

/// The mapping of a scope: each row's name to its value, the last row of a
/// name winning.
pub open spec fn object_fields(
    content_id: Option<u128>,
    translation_id: u128,
    parent_id: Option<u128>,
    rows: Seq<ContentField>,
    populate: bool,
    refs: nat,
    budget: nat,
    visited: Seq<(u128, u128)>,
) -> Result<Entries<Option<Json>>, MaterializeError>
    decreases refs, budget, 2nat, 0nat,
{
    match scope_pairs(
        content_id,
        translation_id,
        scope_positions(rows, content_id, translation_id, parent_id),
        rows,
        populate,
        refs,
        budget,
        visited,
    ) {
        Ok(ps) => Ok(build_mapping(ps)),
        Err(e) => Err(e),
    }
}

/// The elements of a scope, ascending by sequence number.
pub open spec fn array_values(
    content_id: Option<u128>,
    translation_id: u128,
    parent_id: Option<u128>,
    rows: Seq<ContentField>,
    populate: bool,
    refs: nat,
    budget: nat,
    visited: Seq<(u128, u128)>,
) -> Result<Seq<Option<Json>>, MaterializeError>
    decreases refs, budget, 2nat, 0nat,
{
    slot_values(
        content_id,
        translation_id,
        array_order(scope_slots(rows, content_id, translation_id, parent_id)),
        rows,
        populate,
        refs,
        budget,
        visited,
    )
}

pub open spec fn value_result(r: Result<Option<JsonValue>, MaterializeError>) -> Result<
    Option<Json>,
    MaterializeError,
> {
    match r {
        Ok(v) => Ok(opt_view(v)),
        Err(e) => Err(e),
    }
}

pub open spec fn values_view(vs: Seq<Option<JsonValue>>) -> Seq<Option<Json>> {
    Seq::new(vs.len(), |i: int| opt_view(vs[i]))
}

pub open spec fn values_result(r: Result<Vec<Option<JsonValue>>, MaterializeError>) -> Result<
    Seq<Option<Json>>,
    MaterializeError,
> {
    match r {
        Ok(vs) => Ok(values_view(vs@)),
        Err(e) => Err(e),
    }
}

pub open spec fn fields_result(r: Result<FieldMap, MaterializeError>) -> Result<
    Entries<Option<Json>>,
    MaterializeError,
> {
    match r {
        Ok(m) => Ok(fields_view(m@)),
        Err(e) => Err(e),
    }
}

proof fn lemma_scope_pairs_prefix_error(
    content_id: Option<u128>,
    translation_id: u128,
    positions: Seq<usize>,
    k: int,
    rows: Seq<ContentField>,
    populate: bool,
    refs: nat,
    budget: nat,
    visited: Seq<(u128, u128)>,
)
    requires
        0 <= k <= positions.len(),
        scope_pairs(content_id, translation_id, positions.subrange(0, k), rows, populate, refs, budget, visited) is Err,
    ensures
        scope_pairs(content_id, translation_id, positions, rows, populate, refs, budget, visited) == scope_pairs(
            content_id,
            translation_id,
            positions.subrange(0, k),
            rows,
            populate,
            refs,
            budget,
            visited,
        ),
    decreases positions.len(),
{
    if positions.len() > k {
        assert(positions.drop_last().subrange(0, k) =~= positions.subrange(0, k));
        lemma_scope_pairs_prefix_error(
            content_id,
            translation_id,
            positions.drop_last(),
            k,
            rows,
            populate,
            refs,
            budget,
            visited,
        );
    } else {
        assert(positions.subrange(0, k) =~= positions);
    }
}

proof fn lemma_slot_values_prefix_error(
    content_id: Option<u128>,
    translation_id: u128,
    slots: Seq<SlotKey>,
    k: int,
    rows: Seq<ContentField>,
    populate: bool,
    refs: nat,
    budget: nat,
    visited: Seq<(u128, u128)>,
)
    requires
        0 <= k <= slots.len(),
        slot_values(content_id, translation_id, slots.subrange(0, k), rows, populate, refs, budget, visited) is Err,
    ensures
        slot_values(content_id, translation_id, slots, rows, populate, refs, budget, visited) == slot_values(
            content_id,
            translation_id,
            slots.subrange(0, k),
            rows,
            populate,
            refs,
            budget,
            visited,
        ),
    decreases slots.len(),
{
    if slots.len() > k {
        assert(slots.drop_last().subrange(0, k) =~= slots.subrange(0, k));
        lemma_slot_values_prefix_error(
            content_id,
            translation_id,
            slots.drop_last(),
            k,
            rows,
            populate,
            refs,
            budget,
            visited,
        );
    } else {
        assert(slots.subrange(0, k) =~= slots);
    }
}

/// The references being expanded at the top level: the content itself,
/// where one is given.
pub open spec fn root_path(content_id: Option<u128>, translation_id: u128) -> Seq<(u128, u128)> {
    match content_id {
        Some(c) => seq![(c, translation_id)],
        None => Seq::empty(),
    }
}

fn start_path(content_id: Option<u128>, translation_id: u128) -> (r: Vec<(u128, u128)>)
    ensures
        r@ == root_path(content_id, translation_id),
{
    let mut r: Vec<(u128, u128)> = Vec::new();
    if let Some(c) = content_id {
        r.push((c, translation_id));
    }
    proof {
        assert(r@ =~= root_path(content_id, translation_id));
    }
    r
}

fn contains_pair(path: &Vec<(u128, u128)>, target: (u128, u128)) -> (r: bool)
    ensures
        r == path@.contains(target),
{
    let mut i: usize = 0;
    while i < path.len()
        invariant
            i <= path.len(),
            forall|j: int| 0 <= j < i ==> path@[j] != target,
        decreases path.len() - i,
    {
        if path[i].0 == target.0 && path[i].1 == target.1 {
            assert(path@[i as int] == target);
            return true;
        }
        i = i + 1;
    }
    false
}

fn extended(path: &Vec<(u128, u128)>, target: (u128, u128)) -> (r: Vec<(u128, u128)>)
    ensures
        r@ == path@.push(target),
{
    let mut r: Vec<(u128, u128)> = Vec::new();
    let mut i: usize = 0;
    while i < path.len()
        invariant
            i <= path.len(),
            r@ == path@.subrange(0, i as int),
        decreases path.len() - i,
    {
        r.push(path[i]);
        proof {
            assert(r@ =~= path@.subrange(0, i + 1));
        }
        i = i + 1;
    }
    r.push(target);
    proof {
        assert(path@.subrange(0, path.len() as int) =~= path@);
    }
    r
}

fn same_id(a: Option<u128>, b: Option<u128>) -> (r: bool)
    ensures
        r == (a == b),
{
    match (a, b) {
        (Some(x), Some(y)) => x == y,
        (None, None) => true,
        _ => false,
    }
}

/// Whether a row takes part in the scope of `parent_id`.
pub fn visible(
    f: &ContentField,
    content_id: Option<u128>,
    translation_id: u128,
    parent_id: Option<u128>,
) -> (r: bool)
    ensures
        r == is_visible(*f, content_id, translation_id, parent_id),
{
    same_id(f.parent_id, parent_id) && (same_id(content_id, Some(f.source_id)) || f.source_id
        == translation_id)
}

fn scope_rows(
    rows: &Vec<ContentField>,
    content_id: Option<u128>,
    translation_id: u128,
    parent_id: Option<u128>,
) -> (r: Vec<usize>)
    ensures
        r@ == scope_positions(rows@, content_id, translation_id, parent_id),
        forall|k: int| 0 <= k < r.len() ==> r[k] < rows.len(),
{
    let mut out: Vec<usize> = Vec::new();
    let mut i: usize = 0;
    while i < rows.len()
        invariant
            i <= rows.len(),
            out@ == scope_positions(rows@.subrange(0, i as int), content_id, translation_id, parent_id),
            forall|k: int| 0 <= k < out.len() ==> out[k] < i,
        decreases rows.len() - i,
    {
        proof {
            assert(rows@.subrange(0, i + 1).drop_last() =~= rows@.subrange(0, i as int));
        }
        if visible(&rows[i], content_id, translation_id, parent_id) {
            out.push(i);
        }
        i = i + 1;
    }
    proof {
        assert(rows@.subrange(0, rows.len() as int) =~= rows@);
    }
    out
}

fn scope_slot_keys(
    rows: &Vec<ContentField>,
    content_id: Option<u128>,
    translation_id: u128,
    parent_id: Option<u128>,
) -> (r: Vec<SlotKey>)
    ensures
        r@ == scope_slots(rows@, content_id, translation_id, parent_id),
        positions_ascending(r@),
        forall|k: int| 0 <= k < r.len() ==> r[k].1 < rows.len(),
{
    let mut out: Vec<SlotKey> = Vec::new();
    let mut i: usize = 0;
    while i < rows.len()
        invariant
            i <= rows.len(),
            out@ == scope_slots(rows@.subrange(0, i as int), content_id, translation_id, parent_id),
            positions_ascending(out@),
            forall|k: int| 0 <= k < out.len() ==> out[k].1 < i,
        decreases rows.len() - i,
    {
        proof {
            assert(rows@.subrange(0, i + 1).drop_last() =~= rows@.subrange(0, i as int));
        }
        if visible(&rows[i], content_id, translation_id, parent_id) {
            out.push((rows[i].sequence_number, i));
        }
        i = i + 1;
    }
    proof {
        assert(rows@.subrange(0, rows.len() as int) =~= rows@);
    }
    out
}

/// `value[key]`, when the value is an object whose member `key` is a string.
fn string_member_of(value: &Option<JsonValue>, key: &str) -> (r: Option<String>)
    ensures
        r matches Some(s) ==> string_member(opt_view(*value), key@) == Some(s@),
        r is None ==> string_member(opt_view(*value), key@) is None,
{
    match value {
        Some(JsonValue::Object(members)) => {
            let ghost ms = value->0@->Object_0;
            let mut i: usize = 0;
            while i < members.len()
                invariant
                    ms == value->0@->Object_0,
                    *value == Some(JsonValue::Object(*members)),
                    i <= members.len(),
                    forall|j: int| 0 <= j < i ==> ms[j].0 != key@,
                decreases members.len() - i,
            {
                proof {
                    assert(ms[i as int] == members[i as int].entry());
                }
                if str_equal(members[i].key.as_str(), key) {
                    proof {
                        lemma_first_index_at(ms, key@, i as int);
                    }
                    match &members[i].value {
                        JsonValue::Str(s) => {
                            return Some(s.clone());
                        },
                        _ => {
                            return None;
                        },
                    }
                }
                i = i + 1;
            }
            proof {
                lemma_first_index_at(ms, key@, members.len() as int);
            }
            None
        },
        _ => None,
    }
}

/// The identifiers, as text, of the target a reference names.
fn reference_strings(value: &Option<JsonValue>) -> (r: Option<(String, String)>)
    ensures
        r matches Some(p) ==> reference_target(opt_view(*value)) == Some((p.0@, p.1@)),
        r is None ==> reference_target(opt_view(*value)) is None,
{
    let c = string_member_of(value, "contentId");
    let t = string_member_of(value, "translationId");
    match (c, t) {
        (Some(c), Some(t)) => Some((c, t)),
        _ => None,
    }
}

fn reference_to_json(content: String, translation: String, fields: &FieldMap) -> (r: JsonValue)
    ensures
        r@ == reference_json(content@, translation@, fields_view(fields@)),
{
    let mut members: Vec<Member> = Vec::new();
    members.push(Member { key: "contentId".to_owned(), value: JsonValue::Str(content) });
    members.push(Member { key: "translationId".to_owned(), value: JsonValue::Str(translation) });
    members.push(Member { key: "fields".to_owned(), value: fields_to_json(fields) });
    let r = JsonValue::Object(members);
    proof {
        assert(members[0].entry() == ("contentId"@, Json::Str(content@)));
        assert(members[1].entry() == ("translationId"@, Json::Str(translation@)));
        assert(members[2].entry() == ("fields"@, Json::Object(fields_json(fields_view(fields@)))));
        assert(r@->Object_0 =~= reference_json(content@, translation@, fields_view(fields@))->Object_0);
    }
    r
}

fn block_to_json(block: &Option<JsonValue>, fields: &FieldMap) -> (r: JsonValue)
    ensures
        r@ == block_json(opt_view(*block), fields_view(fields@)),
{
    let b = match block {
        Some(v) => v.copy(),
        None => JsonValue::Null,
    };
    let mut members: Vec<Member> = Vec::new();
    members.push(Member { key: "block".to_owned(), value: b });
    members.push(Member { key: "fields".to_owned(), value: fields_to_json(fields) });
    let r = JsonValue::Object(members);
    proof {
        assert(members[0].entry() == ("block"@, or_null(opt_view(*block))));
        assert(members[1].entry() == ("fields"@, Json::Object(fields_json(fields_view(fields@)))));
        assert(r@->Object_0 =~= block_json(opt_view(*block), fields_view(fields@))->Object_0);
    }
    r
}

fn values_to_json(values: &Vec<Option<JsonValue>>) -> (r: JsonValue)
    ensures
        r@ == array_json(values_view(values@)),
{
    let mut items: Vec<JsonValue> = Vec::new();
    let mut i: usize = 0;
    while i < values.len()
        invariant
            i <= values.len(),
            items.len() == i,
            forall|j: int| 0 <= j < i ==> (#[trigger] items[j])@ == or_null(opt_view(values[j])),
        decreases values.len() - i,
    {
        let v = match &values[i] {
            Some(v) => v.copy(),
            None => JsonValue::Null,
        };
        items.push(v);
        i = i + 1;
    }
    let r = JsonValue::Array(items);
    proof {
        assert(r@->Array_0 =~= array_json(values_view(values@))->Array_0);
    }
    r
}

/// Materializes one row: scalars pass through unchanged, compound fields
/// are built from their child rows, and a reference is expanded into its
/// target's fields when `populate` asks for it, the target is not in
/// `visited` and `refs` allows one more expansion. Compound fields nested
/// more than `budget` levels below the scope are an error.
pub fn parse_field(
    content_id: Option<u128>,
    translation_id: u128,
    field: &ContentField,
    all_fields: &Vec<ContentField>,
    populate: bool,
    refs: usize,
    budget: usize,
    visited: &Vec<(u128, u128)>,
) -> (r: Result<Option<JsonValue>, MaterializeError>)
    ensures
        value_result(r) == field_value(
            content_id,
            translation_id,
            *field,
            all_fields@,
            populate,
            refs as nat,
            budget as nat,
            visited@,
        ),
    decreases refs, budget, 0nat,
{
    match field.data_type {
        DataTypeEnum::TEXT | DataTypeEnum::NUMBER | DataTypeEnum::BOOLEAN => Ok(
            copy_opt(&field.value),
        ),
        DataTypeEnum::REFERENCE => {
            if !populate {
                return Ok(copy_opt(&field.value));
            }
            match reference_strings(&field.value) {
                None => Ok(copy_opt(&field.value)),
                Some((c, t)) => {
                    let ci = parse_uuid(c.as_str());
                    let ti = parse_uuid(t.as_str());
                    match (ci, ti) {
                        (Some(ci), Some(ti)) => {
                            if refs == 0 || contains_pair(visited, (ci, ti)) {
                                return Ok(copy_opt(&field.value));
                            }
                            let path = extended(visited, (ci, ti));
                            match parse_object_fields_within(
                                Some(ci),
                                ti,
                                None,
                                all_fields,
                                populate,
                                refs - 1,
                                all_fields.len(),
                                &path,
                            ) {
                                Ok(m) => Ok(Some(reference_to_json(c, t, &m))),
                                Err(e) => Err(e),
                            }
                        },
                        _ => Err(MaterializeError::MalformedReference),
                    }
                },
            }
        },
        DataTypeEnum::ARRAY => {
            if budget == 0 {
                return Err(MaterializeError::CyclicNesting);
            }
            match parse_array_fields(
                content_id,
                translation_id,
                Some(field.id),
                all_fields,
                populate,
                refs,
                budget - 1,
                visited,
            ) {
                Ok(vs) => Ok(Some(values_to_json(&vs))),
                Err(e) => Err(e),
            }
        },
        DataTypeEnum::OBJECT => {
            if budget == 0 {
                return Err(MaterializeError::CyclicNesting);
            }
            match parse_object_fields_within(
                content_id,
                translation_id,
                Some(field.id),
                all_fields,
                populate,
                refs,
                budget - 1,
                visited,
            ) {
                Ok(m) => Ok(Some(fields_to_json(&m))),
                Err(e) => Err(e),
            }
        },
        DataTypeEnum::BLOCK => {
            if budget == 0 {
                return Err(MaterializeError::CyclicNesting);
            }
            match parse_object_fields_within(
                content_id,
                translation_id,
                Some(field.id),
                all_fields,
                populate,
                refs,
                budget - 1,
                visited,
            ) {
                Ok(m) => Ok(Some(block_to_json(&field.value, &m))),
                Err(e) => Err(e),
            }
        },
    }
}

/// Materializes the rows of a scope as an array, ascending by sequence
/// number; rows with equal numbers keep their order.
pub fn parse_array_fields(
    content_id: Option<u128>,
    translation_id: u128,
    parent_id: Option<u128>,
    fields: &Vec<ContentField>,
    populate: bool,
    refs: usize,
    budget: usize,
    visited: &Vec<(u128, u128)>,
) -> (r: Result<Vec<Option<JsonValue>>, MaterializeError>)
    ensures
        values_result(r) == array_values(
            content_id,
            translation_id,
            parent_id,
            fields@,
            populate,
            refs as nat,
            budget as nat,
            visited@,
        ),
    decreases refs, budget, 1nat,
{
    let keys = scope_slot_keys(fields, content_id, translation_id, parent_id);
    let ghost unordered = keys@;
    let slots = order_slots(keys);
    proof {
        crate::ordering::lemma_slot_order_total();
        unordered.lemma_sort_by_ensures(crate::ordering::by_slot());
        assert forall|k: int| 0 <= k < slots.len() implies slots[k].1 < fields.len() by {
            assert(slots@.contains(slots@[k]));
        }
    }
    let mut out: Vec<Option<JsonValue>> = Vec::new();
    let ghost mut vals: Seq<Option<Json>> = Seq::empty();
    proof {
        assert(values_view(out@) =~= vals);
    }
    let mut i: usize = 0;
    while i < slots.len()
        invariant
            i <= slots.len(),
            values_view(out@) == vals,
            slots@ == array_order(scope_slots(fields@, content_id, translation_id, parent_id)),
            forall|k: int| 0 <= k < slots.len() ==> slots[k].1 < fields.len(),
            slot_values(
                content_id,
                translation_id,
                slots@.subrange(0, i as int),
                fields@,
                populate,
                refs as nat,
                budget as nat,
                visited@,
            ) == Ok::<Seq<Option<Json>>, MaterializeError>(vals),
        decreases slots.len() - i,
    {
        proof {
            assert(slots@.subrange(0, i + 1).drop_last() =~= slots@.subrange(0, i as int));
        }
        let f = &fields[slots[i].1];
        match parse_field(content_id, translation_id, f, fields, populate, refs, budget, visited) {
            Ok(v) => {
                out.push(v);
                proof {
                    vals = vals.push(opt_view(v));
                    assert(values_view(out@) =~= vals);
                }
            },
            Err(e) => {
                proof {
                    lemma_slot_values_prefix_error(
                        content_id,
                        translation_id,
                        slots@,
                        i + 1,
                        fields@,
                        populate,
                        refs as nat,
                        budget as nat,
                        visited@,
                    );
                }
                return Err(e);
            },
        }
        i = i + 1;
    }
    proof {
        assert(slots@.subrange(0, slots.len() as int) =~= slots@);
    }
    Ok(out)
}

/// Materializes the rows of a scope as a mapping from field names to values;
/// the last row of a name wins.
pub fn parse_object_fields_within(
    content_id: Option<u128>,
    translation_id: u128,
    parent_id: Option<u128>,
    fields: &Vec<ContentField>,
    populate: bool,
    refs: usize,
    budget: usize,
    visited: &Vec<(u128, u128)>,
) -> (r: Result<FieldMap, MaterializeError>)
    ensures
        fields_result(r) == object_fields(
            content_id,
            translation_id,
            parent_id,
            fields@,
            populate,
            refs as nat,
            budget as nat,
            visited@,
        ),
        r matches Ok(m) ==> names_unique(fields_view(m@)),
    decreases refs, budget, 1nat,
{
    let positions = scope_rows(fields, content_id, translation_id, parent_id);
    let mut out: FieldMap = Vec::new();
    let ghost mut pairs: Entries<Option<Json>> = Seq::empty();
    let mut i: usize = 0;
    while i < positions.len()
        invariant
            i <= positions.len(),
            forall|k: int| 0 <= k < positions.len() ==> positions[k] < fields.len(),
            positions@ == scope_positions(fields@, content_id, translation_id, parent_id),
            scope_pairs(
                content_id,
                translation_id,
                positions@.subrange(0, i as int),
                fields@,
                populate,
                refs as nat,
                budget as nat,
                visited@,
            ) == Ok::<Entries<Option<Json>>, MaterializeError>(pairs),
            fields_view(out@) == build_mapping(pairs),
        decreases positions.len() - i,
    {
        proof {
            assert(positions@.subrange(0, i + 1).drop_last() =~= positions@.subrange(0, i as int));
        }
        let f = &fields[positions[i]];
        match parse_field(content_id, translation_id, f, fields, populate, refs, budget, visited) {
            Ok(v) => {
                let ghost before = pairs;
                proof {
                    pairs = pairs.push((f.name@, opt_view(v)));
                    assert(pairs.drop_last() =~= before);
                }
                insert_field(&mut out, f.name.clone(), v);
            },
            Err(e) => {
                proof {
                    lemma_scope_pairs_prefix_error(
                        content_id,
                        translation_id,
                        positions@,
                        i + 1,
                        fields@,
                        populate,
                        refs as nat,
                        budget as nat,
                        visited@,
                    );
                }
                return Err(e);
            },
        }
        i = i + 1;
    }
    proof {
        assert(positions@.subrange(0, positions.len() as int) =~= positions@);
        lemma_build_mapping(pairs);
    }
    Ok(out)
}

/// Materializes the fields of `parent_id`'s scope for the given content and
/// translation, as a mapping from field names to values. Each name occurs
/// once. At the top level, rows with unique identifiers whose references
/// name valid identifiers always materialize, however deep they nest.
pub fn parse_object_fields(
    content_id: Option<u128>,
    translation_id: u128,
    parent_id: Option<u128>,
    fields: &Vec<ContentField>,
    populate: bool,
) -> (r: Result<FieldMap, MaterializeError>)
    ensures
        fields_result(r) == object_fields(
            content_id,
            translation_id,
            parent_id,
            fields@,
            populate,
            fields.len() as nat,
            fields.len() as nat,
            root_path(content_id, translation_id),
        ),
        r matches Ok(m) ==> names_unique(fields_view(m@)),
        parent_id is None && ids_unique(fields@) && references_valid(fields@) ==> r is Ok,
{
    proof {
        if parent_id is None && ids_unique(fields@) && references_valid(fields@) {
            law_top_level_total(
                content_id,
                translation_id,
                fields@,
                populate,
                fields.len() as nat,
                root_path(content_id, translation_id),
            );
        }
    }
    let path = start_path(content_id, translation_id);
    parse_object_fields_within(
        content_id,
        translation_id,
        parent_id,
        fields,
        populate,
        fields.len(),
        fields.len(),
        &path,
    )
}

/// The values a new entry of a content type starts with.
#[derive(Debug)]
pub struct ContentDefaultValuesDTO {
    pub fields: FieldMap,
}

impl ContentDefaultValuesDTO {
    /// Materializes the default rows of a translation, and of a content
    /// entity where one is given.
    pub fn from_rows(
        content_id: Option<u128>,
        translation_id: u128,
        fields: &Vec<ContentField>,
        populate: bool,
    ) -> (r: Result<ContentDefaultValuesDTO, MaterializeError>)
        ensures
            object_fields(
                content_id,
                translation_id,
                None,
                fields@,
                populate,
                fields.len() as nat,
                fields.len() as nat,
                root_path(content_id, translation_id),
            )
                == match r {
                Ok(d) => Ok(fields_view(d.fields@)),
                Err(e) => Err(e),
            },
            ids_unique(fields@) && references_valid(fields@) ==> r is Ok,
    {
        match parse_object_fields(content_id, translation_id, None, fields, populate) {
            Ok(m) => Ok(ContentDefaultValuesDTO { fields: m }),
            Err(e) => Err(e),
        }
    }
}

} // verus!
