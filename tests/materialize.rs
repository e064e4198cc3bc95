use dcm_content::data_type::DataTypeEnum;
use dcm_content::json::{JsonValue, Member};
use dcm_content::mapping::FieldEntry;
use dcm_content::materialize::{
    parse_array_fields, parse_field, parse_object_fields, parse_object_fields_within,
    ContentDefaultValuesDTO, ContentField, MaterializeError,
};

const REVISION: u128 = 0x1000;
const TRANSLATION: u128 = 0x2000;

const TARGET_REVISION: &str = "6f1c2a3e-8b0d-4c7e-9a51-2d3e4f5a6b7c";
const TARGET_TRANSLATION: &str = "0a9b8c7d-6e5f-4a3b-8c2d-1e0f9a8b7c6d";

fn text(s: &str) -> Option<JsonValue> {
    Some(JsonValue::Str(s.to_string()))
}

fn row(
    id: u128,
    parent_id: Option<u128>,
    source_id: u128,
    sequence_number: Option<i32>,
    name: &str,
    data_type: DataTypeEnum,
    value: Option<JsonValue>,
) -> ContentField {
    ContentField {
        id,
        parent_id,
        source_id,
        sequence_number,
        name: name.to_string(),
        data_type,
        value,
    }
}

fn get<'a>(m: &'a [FieldEntry], name: &str) -> Option<&'a Option<JsonValue>> {
    m.iter().find(|e| e.name == name).map(|e| &e.value)
}

fn member<'a>(v: &'a JsonValue, key: &str) -> Option<&'a JsonValue> {
    match v {
        JsonValue::Object(ms) => ms.iter().find(|m| m.key == key).map(|m| &m.value),
        _ => None,
    }
}

fn as_text(v: &JsonValue) -> &str {
    match v {
        JsonValue::Str(s) => s.as_str(),
        other => panic!("not a string: {:?}", other),
    }
}

fn reference_payload(content: &str, translation: &str) -> Option<JsonValue> {
    Some(JsonValue::Object(vec![
        Member { key: "contentId".to_string(), value: JsonValue::Str(content.to_string()) },
        Member { key: "translationId".to_string(), value: JsonValue::Str(translation.to_string()) },
    ]))
}

fn uuid_value(s: &str) -> u128 {
    uuid::Uuid::parse_str(s).unwrap().as_u128()
}

#[test]
fn title_and_tags_round_trip() {
    let rows = vec![
        row(1, None, REVISION, None, "title", DataTypeEnum::TEXT, text("Hello")),
        row(2, None, REVISION, None, "tags", DataTypeEnum::ARRAY, None),
        row(3, Some(2), REVISION, Some(0), "tags", DataTypeEnum::TEXT, text("x")),
        row(4, Some(2), REVISION, Some(1), "tags", DataTypeEnum::TEXT, text("y")),
    ];
    let m = parse_object_fields(Some(REVISION), TRANSLATION, None, &rows, false).unwrap();
    assert_eq!(m.len(), 2);
    match get(&m, "title") {
        Some(Some(JsonValue::Str(s))) => assert_eq!(s, "Hello"),
        other => panic!("unexpected title: {:?}", other),
    }
    match get(&m, "tags") {
        Some(Some(JsonValue::Array(items))) => {
            let texts: Vec<&str> = items.iter().map(as_text).collect();
            assert_eq!(texts, vec!["x", "y"]);
        },
        other => panic!("unexpected tags: {:?}", other),
    }
}

#[test]
fn block_with_one_text_field() {
    let rows = vec![
        row(1, None, REVISION, None, "hero", DataTypeEnum::BLOCK, text("quote")),
        row(2, Some(1), REVISION, None, "author", DataTypeEnum::TEXT, text("Ada")),
    ];
    let m = parse_object_fields(Some(REVISION), TRANSLATION, None, &rows, false).unwrap();
    let hero = get(&m, "hero").unwrap().as_ref().unwrap();
    match hero {
        JsonValue::Object(ms) => assert_eq!(ms.len(), 2),
        other => panic!("not an object: {:?}", other),
    }
    assert_eq!(as_text(member(hero, "block").unwrap()), "quote");
    let fields = member(hero, "fields").unwrap();
    match fields {
        JsonValue::Object(ms) => assert_eq!(ms.len(), 1),
        other => panic!("not an object: {:?}", other),
    }
    assert_eq!(as_text(member(fields, "author").unwrap()), "Ada");
}

#[test]
fn empty_rows_give_empty_mapping() {
    let rows: Vec<ContentField> = Vec::new();
    let m = parse_object_fields(Some(REVISION), TRANSLATION, None, &rows, true).unwrap();
    assert!(m.is_empty());
    let m = parse_object_fields(None, TRANSLATION, None, &rows, false).unwrap();
    assert!(m.is_empty());
}

#[test]
fn array_elements_ascend_by_sequence_number() {
    let rows = vec![
        row(10, Some(1), REVISION, Some(3), "list", DataTypeEnum::TEXT, text("third")),
        row(11, Some(1), REVISION, Some(1), "list", DataTypeEnum::TEXT, text("first")),
        row(12, Some(1), REVISION, Some(2), "list", DataTypeEnum::TEXT, text("second")),
    ];
    let vs = parse_array_fields(Some(REVISION), TRANSLATION, Some(1), &rows, false, 3, 3, &vec![])
        .unwrap();
    let texts: Vec<&str> = vs.iter().map(|v| as_text(v.as_ref().unwrap())).collect();
    assert_eq!(texts, vec!["first", "second", "third"]);
}

#[test]
fn array_equal_sequence_numbers_keep_row_order() {
    let rows = vec![
        row(10, Some(1), REVISION, Some(2), "list", DataTypeEnum::TEXT, text("b")),
        row(11, Some(1), REVISION, None, "list", DataTypeEnum::TEXT, text("none")),
        row(12, Some(1), REVISION, Some(2), "list", DataTypeEnum::TEXT, text("c")),
        row(13, Some(1), REVISION, Some(-5), "list", DataTypeEnum::TEXT, text("a")),
    ];
    let vs = parse_array_fields(Some(REVISION), TRANSLATION, Some(1), &rows, false, 3, 3, &vec![])
        .unwrap();
    let texts: Vec<&str> = vs.iter().map(|v| as_text(v.as_ref().unwrap())).collect();
    assert_eq!(texts, vec!["none", "a", "b", "c"]);
}

#[test]
fn array_without_elements_is_empty() {
    let rows = vec![row(1, None, REVISION, None, "list", DataTypeEnum::ARRAY, None)];
    let m = parse_object_fields(Some(REVISION), TRANSLATION, None, &rows, false).unwrap();
    match get(&m, "list") {
        Some(Some(JsonValue::Array(items))) => assert!(items.is_empty()),
        other => panic!("unexpected: {:?}", other),
    }
}

#[test]
fn unset_array_element_becomes_null() {
    let rows = vec![
        row(1, None, REVISION, None, "list", DataTypeEnum::ARRAY, None),
        row(2, Some(1), REVISION, Some(0), "list", DataTypeEnum::NUMBER, None),
    ];
    let m = parse_object_fields(Some(REVISION), TRANSLATION, None, &rows, false).unwrap();
    match get(&m, "list") {
        Some(Some(JsonValue::Array(items))) => {
            assert_eq!(items.len(), 1);
            assert!(matches!(items[0], JsonValue::Null));
        },
        other => panic!("unexpected: {:?}", other),
    }
}

#[test]
fn scalars_pass_through_unchanged() {
    let rows = vec![
        row(1, None, REVISION, None, "count", DataTypeEnum::NUMBER, Some(JsonValue::Number("42.50".to_string()))),
        row(2, None, REVISION, None, "flag", DataTypeEnum::BOOLEAN, Some(JsonValue::Bool(true))),
        row(3, None, REVISION, None, "subtitle", DataTypeEnum::TEXT, None),
    ];
    let m = parse_object_fields(Some(REVISION), TRANSLATION, None, &rows, true).unwrap();
    assert_eq!(m.len(), 3);
    match get(&m, "count") {
        Some(Some(JsonValue::Number(n))) => assert_eq!(n, "42.50"),
        other => panic!("unexpected: {:?}", other),
    }
    assert!(matches!(get(&m, "flag"), Some(Some(JsonValue::Bool(true)))));
    assert!(matches!(get(&m, "subtitle"), Some(None)));
}

#[test]
fn scalar_field_keeps_structured_value() {
    let value = Some(JsonValue::Array(vec![JsonValue::Number("1".to_string()), JsonValue::Null]));
    let f = row(1, None, REVISION, None, "raw", DataTypeEnum::TEXT, value);
    let rows = vec![];
    let v = parse_field(Some(REVISION), TRANSLATION, &f, &rows, false, 0, 0, &vec![]).unwrap();
    assert_eq!(format!("{:?}", v), format!("{:?}", f.value));
}

#[test]
fn object_collects_nested_fields() {
    let rows = vec![
        row(1, None, REVISION, None, "seo", DataTypeEnum::OBJECT, None),
        row(2, Some(1), REVISION, None, "title", DataTypeEnum::TEXT, text("T")),
        row(3, Some(1), REVISION, None, "keywords", DataTypeEnum::ARRAY, None),
        row(4, Some(3), REVISION, Some(0), "keywords", DataTypeEnum::TEXT, text("k")),
        row(5, Some(1), REVISION, None, "unset", DataTypeEnum::TEXT, None),
    ];
    let m = parse_object_fields(Some(REVISION), TRANSLATION, None, &rows, false).unwrap();
    assert_eq!(m.len(), 1);
    let seo = get(&m, "seo").unwrap().as_ref().unwrap();
    assert_eq!(as_text(member(seo, "title").unwrap()), "T");
    assert!(matches!(member(seo, "unset"), Some(JsonValue::Null)));
    match member(seo, "keywords") {
        Some(JsonValue::Array(items)) => assert_eq!(as_text(&items[0]), "k"),
        other => panic!("unexpected: {:?}", other),
    }
}

#[test]
fn duplicate_names_last_row_wins() {
    let rows = vec![
        row(1, None, REVISION, None, "title", DataTypeEnum::TEXT, text("first")),
        row(2, None, REVISION, None, "body", DataTypeEnum::TEXT, text("b")),
        row(3, None, TRANSLATION, None, "title", DataTypeEnum::TEXT, text("second")),
    ];
    let m = parse_object_fields(Some(REVISION), TRANSLATION, None, &rows, false).unwrap();
    assert_eq!(m.len(), 2);
    match get(&m, "title") {
        Some(Some(JsonValue::Str(s))) => assert_eq!(s, "second"),
        other => panic!("unexpected: {:?}", other),
    }
}

#[test]
fn mapping_ignores_order_of_distinct_names() {
    let forward = vec![
        row(1, None, REVISION, None, "a", DataTypeEnum::TEXT, text("1")),
        row(2, None, REVISION, None, "b", DataTypeEnum::TEXT, text("2")),
    ];
    let backward = vec![
        row(2, None, REVISION, None, "b", DataTypeEnum::TEXT, text("2")),
        row(1, None, REVISION, None, "a", DataTypeEnum::TEXT, text("1")),
    ];
    let m1 = parse_object_fields(Some(REVISION), TRANSLATION, None, &forward, false).unwrap();
    let m2 = parse_object_fields(Some(REVISION), TRANSLATION, None, &backward, false).unwrap();
    for name in ["a", "b"] {
        assert_eq!(format!("{:?}", get(&m1, name)), format!("{:?}", get(&m2, name)));
    }
    assert_eq!(m1.len(), m2.len());
}

#[test]
fn only_rows_of_the_content_or_translation_count() {
    let rows = vec![
        row(1, None, REVISION, None, "a", DataTypeEnum::TEXT, text("revision")),
        row(2, None, TRANSLATION, None, "b", DataTypeEnum::TEXT, text("translation")),
        row(3, None, 0x9999, None, "c", DataTypeEnum::TEXT, text("other")),
        row(4, Some(77), REVISION, None, "d", DataTypeEnum::TEXT, text("nested")),
    ];
    let m = parse_object_fields(Some(REVISION), TRANSLATION, None, &rows, false).unwrap();
    assert_eq!(m.len(), 2);
    assert!(get(&m, "a").is_some());
    assert!(get(&m, "b").is_some());
    let m = parse_object_fields(None, TRANSLATION, None, &rows, false).unwrap();
    assert_eq!(m.len(), 1);
    assert!(get(&m, "b").is_some());
}

#[test]
fn reference_not_populated_stays_a_pointer() {
    let target = uuid_value(TARGET_REVISION);
    let rows = vec![
        row(1, None, REVISION, None, "author", DataTypeEnum::REFERENCE, reference_payload(TARGET_REVISION, TARGET_TRANSLATION)),
        row(2, None, target, None, "name", DataTypeEnum::TEXT, text("Ada")),
    ];
    let m = parse_object_fields(Some(REVISION), TRANSLATION, None, &rows, false).unwrap();
    let author = get(&m, "author").unwrap();
    assert_eq!(format!("{:?}", author), format!("{:?}", rows[0].value));
}

#[test]
fn reference_populated_expands_target_fields() {
    let target = uuid_value(TARGET_REVISION);
    let rows = vec![
        row(1, None, REVISION, None, "author", DataTypeEnum::REFERENCE, reference_payload(TARGET_REVISION, TARGET_TRANSLATION)),
        row(2, None, target, None, "name", DataTypeEnum::TEXT, text("Ada")),
        row(3, None, REVISION, None, "title", DataTypeEnum::TEXT, text("Notes")),
    ];
    let m = parse_object_fields(Some(REVISION), TRANSLATION, None, &rows, true).unwrap();
    let author = get(&m, "author").unwrap().as_ref().unwrap();
    assert_eq!(as_text(member(author, "contentId").unwrap()), TARGET_REVISION);
    assert_eq!(as_text(member(author, "translationId").unwrap()), TARGET_TRANSLATION);
    let fields = member(author, "fields").unwrap();
    match fields {
        JsonValue::Object(ms) => assert_eq!(ms.len(), 1),
        other => panic!("not an object: {:?}", other),
    }
    assert_eq!(as_text(member(fields, "name").unwrap()), "Ada");
    let direct = parse_object_fields(
        Some(target),
        uuid_value(TARGET_TRANSLATION),
        None,
        &rows,
        true,
    ).unwrap();
    assert_eq!(direct.len(), 1);
    assert_eq!(format!("{:?}", get(&direct, "name")), "Some(Some(Str(\"Ada\")))");
}

#[test]
fn reference_to_missing_target_has_no_fields() {
    let rows = vec![row(1, None, REVISION, None, "author", DataTypeEnum::REFERENCE, reference_payload(TARGET_REVISION, TARGET_TRANSLATION))];
    let m = parse_object_fields(Some(REVISION), TRANSLATION, None, &rows, true).unwrap();
    let author = get(&m, "author").unwrap().as_ref().unwrap();
    match member(author, "fields") {
        Some(JsonValue::Object(ms)) => assert!(ms.is_empty()),
        other => panic!("unexpected: {:?}", other),
    }
}

#[test]
fn reference_with_malformed_identifier_fails() {
    let rows = vec![row(1, None, REVISION, None, "author", DataTypeEnum::REFERENCE, reference_payload("not-a-uuid", TARGET_TRANSLATION))];
    let r = parse_object_fields(Some(REVISION), TRANSLATION, None, &rows, true);
    assert_eq!(r.unwrap_err(), MaterializeError::MalformedReference);
    let r = parse_object_fields(Some(REVISION), TRANSLATION, None, &rows, false);
    assert!(r.is_ok());
}

#[test]
fn reference_without_target_stays_a_pointer() {
    let payload = Some(JsonValue::Object(vec![Member {
        key: "contentId".to_string(),
        value: JsonValue::Str(TARGET_REVISION.to_string()),
    }]));
    let rows = vec![row(1, None, REVISION, None, "author", DataTypeEnum::REFERENCE, payload)];
    let m = parse_object_fields(Some(REVISION), TRANSLATION, None, &rows, true).unwrap();
    assert_eq!(format!("{:?}", get(&m, "author").unwrap()), format!("{:?}", rows[0].value));
    let rows = vec![row(1, None, REVISION, None, "author", DataTypeEnum::REFERENCE, None)];
    let m = parse_object_fields(Some(REVISION), TRANSLATION, None, &rows, true).unwrap();
    assert!(matches!(get(&m, "author"), Some(None)));
}

#[test]
fn cyclic_references_stay_pointers() {
    let a = "11111111-1111-4111-8111-111111111111";
    let b = "22222222-2222-4222-8222-222222222222";
    let rows = vec![
        row(1, None, uuid_value(a), None, "next", DataTypeEnum::REFERENCE, reference_payload(b, b)),
        row(2, None, uuid_value(b), None, "next", DataTypeEnum::REFERENCE, reference_payload(a, a)),
    ];
    let m = parse_object_fields(Some(uuid_value(a)), uuid_value(a), None, &rows, true).unwrap();
    let to_b = get(&m, "next").unwrap().as_ref().unwrap();
    assert_eq!(as_text(member(to_b, "contentId").unwrap()), b);
    let back_to_a = member(member(to_b, "fields").unwrap(), "next").unwrap();
    assert_eq!(format!("{:?}", Some(back_to_a)), format!("{:?}", rows[1].value.as_ref()));
}

#[test]
fn reference_expansion_stops_when_no_expansion_is_left() {
    let a = "11111111-1111-4111-8111-111111111111";
    let b = "22222222-2222-4222-8222-222222222222";
    let rows = vec![
        row(1, None, uuid_value(a), None, "next", DataTypeEnum::REFERENCE, reference_payload(b, b)),
        row(2, None, uuid_value(b), None, "title", DataTypeEnum::TEXT, text("B")),
    ];
    let m = parse_object_fields_within(Some(uuid_value(a)), uuid_value(a), None, &rows, true, 0, 2, &vec![]).unwrap();
    assert_eq!(format!("{:?}", get(&m, "next").unwrap()), format!("{:?}", rows[0].value));
    let m = parse_object_fields_within(Some(uuid_value(a)), uuid_value(a), None, &rows, true, 1, 2, &vec![]).unwrap();
    let next = get(&m, "next").unwrap().as_ref().unwrap();
    assert_eq!(as_text(member(member(next, "fields").unwrap(), "title").unwrap()), "B");
}

#[test]
fn deep_nesting_of_a_forest_succeeds() {
    let mut rows = vec![row(1, None, REVISION, None, "level", DataTypeEnum::OBJECT, None)];
    for i in 2..=200u128 {
        rows.push(row(i, Some(i - 1), REVISION, None, "level", DataTypeEnum::OBJECT, None));
    }
    rows.push(row(201, Some(200), REVISION, None, "leaf", DataTypeEnum::TEXT, text("deep")));
    let m = parse_object_fields(Some(REVISION), TRANSLATION, None, &rows, false).unwrap();
    let mut v = get(&m, "level").unwrap().as_ref().unwrap();
    for _ in 0..199 {
        v = member(v, "level").unwrap();
    }
    assert_eq!(as_text(member(v, "leaf").unwrap()), "deep");
}

#[test]
fn looping_parent_links_fail() {
    let rows = vec![
        row(1, None, REVISION, None, "loop", DataTypeEnum::OBJECT, None),
        row(1, Some(1), REVISION, None, "loop", DataTypeEnum::ARRAY, None),
    ];
    let r = parse_object_fields(Some(REVISION), TRANSLATION, None, &rows, false);
    assert_eq!(r.unwrap_err(), MaterializeError::CyclicNesting);
}

#[test]
fn malformed_reference_fails_even_inside_a_cycle() {
    let a = "11111111-1111-4111-8111-111111111111";
    let rows = vec![
        row(1, None, uuid_value(a), None, "self", DataTypeEnum::REFERENCE, reference_payload(a, a)),
        row(2, None, uuid_value(a), None, "bad", DataTypeEnum::REFERENCE, reference_payload("zz", a)),
    ];
    let r = parse_object_fields(Some(uuid_value(a)), uuid_value(a), None, &rows, true);
    assert_eq!(r.unwrap_err(), MaterializeError::MalformedReference);
    let r = parse_object_fields_within(Some(uuid_value(a)), uuid_value(a), None, &rows, true, 0, 2, &vec![]);
    assert_eq!(r.unwrap_err(), MaterializeError::MalformedReference);
}

#[test]
fn materializing_twice_gives_the_same_result() {
    let rows = vec![
        row(1, None, REVISION, None, "title", DataTypeEnum::TEXT, text("Hello")),
        row(2, None, REVISION, None, "tags", DataTypeEnum::ARRAY, None),
        row(3, Some(2), REVISION, Some(1), "tags", DataTypeEnum::TEXT, text("y")),
        row(4, Some(2), REVISION, Some(0), "tags", DataTypeEnum::TEXT, text("x")),
    ];
    let first = parse_object_fields(Some(REVISION), TRANSLATION, None, &rows, true).unwrap();
    let second = parse_object_fields(Some(REVISION), TRANSLATION, None, &rows, true).unwrap();
    assert_eq!(format!("{:?}", first), format!("{:?}", second));
}

#[test]
fn default_values_materialize_translation_rows() {
    let rows = vec![
        row(1, None, TRANSLATION, None, "title", DataTypeEnum::TEXT, text("Untitled")),
        row(2, None, REVISION, None, "body", DataTypeEnum::TEXT, text("ignored")),
    ];
    let d = ContentDefaultValuesDTO::from_rows(None, TRANSLATION, &rows, false).unwrap();
    assert_eq!(d.fields.len(), 1);
    assert_eq!(d.fields[0].name, "title");
    let bad = vec![row(1, None, TRANSLATION, None, "link", DataTypeEnum::REFERENCE, reference_payload("x", "y"))];
    let r = ContentDefaultValuesDTO::from_rows(None, TRANSLATION, &bad, true);
    assert_eq!(r.unwrap_err(), MaterializeError::MalformedReference);
}
