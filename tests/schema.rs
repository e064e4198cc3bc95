use dcm_content::data_type::DataTypeEnum;
use dcm_content::json::JsonValue;
use dcm_content::schema::{
    find_component, ConfigEntry, ContentComponentDTO, ContentComponentWithFieldsDTO,
    FieldConfigContent, FieldDTO, SchemaField,
};

fn component(id: u128, data_type: DataTypeEnum) -> ContentComponentDTO {
    ContentComponentDTO {
        id,
        name: "Text".to_string(),
        slug: "text".to_string(),
        internal: true,
        description: Some("A line of text".to_string()),
        component_name: "text-input".to_string(),
        data_type,
        created_at: 1_700_000_000,
        updated_at: 1_700_000_600,
    }
}

fn bare(c: ContentComponentDTO) -> ContentComponentWithFieldsDTO {
    ContentComponentWithFieldsDTO { component: c, configuration_fields: vec![], fields: vec![] }
}

fn member<'a>(v: &'a JsonValue, key: &str) -> &'a JsonValue {
    match v {
        JsonValue::Object(ms) => &ms.iter().find(|m| m.key == key).unwrap().value,
        other => panic!("not an object: {:?}", other),
    }
}

fn keys(v: &JsonValue) -> Vec<&str> {
    match v {
        JsonValue::Object(ms) => ms.iter().map(|m| m.key.as_str()).collect(),
        other => panic!("not an object: {:?}", other),
    }
}

fn text(v: &JsonValue) -> &str {
    match v {
        JsonValue::Str(s) => s.as_str(),
        other => panic!("not a string: {:?}", other),
    }
}

fn items(v: &JsonValue) -> &Vec<JsonValue> {
    match v {
        JsonValue::Array(items) => items,
        other => panic!("not an array: {:?}", other),
    }
}

fn nested_field() -> SchemaField {
    SchemaField {
        id: 0x0123_4567_89ab_cdef_0123_4567_89ab_cdef,
        name: "Author".to_string(),
        slug: "author".to_string(),
        description: None,
        compartment_id: Some(7),
        multi_language: true,
        hidden: false,
        min: 1,
        max: 3,
        sequence_number: Some(2),
        validation: None,
        content_component: bare(component(2, DataTypeEnum::TEXT)),
        blocks: None,
        config: vec![ConfigEntry {
            key: "placeholder".to_string(),
            content: FieldConfigContent::Text("Name".to_string()),
        }],
    }
}

fn block_field() -> SchemaField {
    SchemaField {
        id: 1,
        name: "Quote".to_string(),
        slug: "quote".to_string(),
        description: Some("A quotation".to_string()),
        compartment_id: None,
        multi_language: false,
        hidden: true,
        min: 0,
        max: -1,
        sequence_number: None,
        validation: Some(JsonValue::Bool(true)),
        content_component: ContentComponentWithFieldsDTO {
            component: component(3, DataTypeEnum::BLOCK),
            configuration_fields: vec![nested_field()],
            fields: vec![nested_field(), nested_field()],
        },
        blocks: Some(vec![nested_field()]),
        config: vec![
            ConfigEntry {
                key: "label".to_string(),
                content: FieldConfigContent::Text("Quote".to_string()),
            },
            ConfigEntry {
                key: "limits".to_string(),
                content: FieldConfigContent::Json(JsonValue::Number("3".to_string())),
            },
            ConfigEntry {
                key: "fields".to_string(),
                content: FieldConfigContent::Fields(vec![nested_field()]),
            },
        ],
    }
}

#[test]
fn configuration_is_resolved_to_json() {
    let field = block_field();
    let dto = FieldDTO::from_schema(&field);
    assert_eq!(dto.slug, "quote");
    assert_eq!(dto.description.as_deref(), Some("A quotation"));
    assert!(dto.hidden);
    assert_eq!((dto.min, dto.max), (0, -1));
    assert!(matches!(dto.validation, Some(JsonValue::Bool(true))));
    assert_eq!(dto.content_component.created_at, 1_700_000_000);
    assert_eq!(dto.config.len(), 3);
    assert_eq!(dto.config[0].key, "label");
    assert_eq!(text(&dto.config[0].value), "Quote");
    assert!(matches!(&dto.config[1].value, JsonValue::Number(n) if n == "3"));
    let nested = &items(&dto.config[2].value)[0];
    assert_eq!(
        keys(nested),
        vec![
            "id", "name", "slug", "description", "compartmentId", "multiLanguage", "hidden",
            "min", "max", "sequenceNumber", "contentComponent", "config", "validation"
        ]
    );
    assert_eq!(text(member(nested, "slug")), "author");
    assert_eq!(text(member(nested, "id")), "01234567-89ab-cdef-0123-456789abcdef");
    assert_eq!(text(member(nested, "compartmentId")), "00000000-0000-0000-0000-000000000007");
    assert!(matches!(member(nested, "sequenceNumber"), JsonValue::Int(2)));
    assert!(matches!(member(nested, "description"), JsonValue::Null));
    assert_eq!(text(member(member(nested, "config"), "placeholder")), "Name");
    let c = member(nested, "contentComponent");
    assert_eq!(text(member(c, "dataType")), "TEXT");
    assert!(matches!(member(c, "updatedAt"), JsonValue::Int(1_700_000_600)));
    assert!(matches!(member(c, "internal"), JsonValue::Bool(true)));
}

#[test]
fn schema_field_presents_its_component_with_field_lists() {
    let json = block_field().to_json();
    assert_eq!(
        keys(&json),
        vec![
            "id", "name", "slug", "description", "multiLanguage", "compartmentId", "hidden",
            "min", "max", "sequenceNumber", "contentComponent", "blocks", "config", "validation"
        ]
    );
    let c = member(&json, "contentComponent");
    assert_eq!(text(member(c, "id")), "00000000-0000-0000-0000-000000000003");
    assert_eq!(text(member(c, "dataType")), "BLOCK");
    assert_eq!(text(member(c, "description")), "A line of text");
    assert_eq!(items(member(c, "configurationFields")).len(), 1);
    let fields = items(member(c, "fields"));
    assert_eq!(fields.len(), 2);
    assert_eq!(text(member(&fields[1], "name")), "Author");
    assert!(matches!(member(&fields[1], "blocks"), JsonValue::Null));
    assert_eq!(text(member(&json, "name")), "Quote");
    assert!(matches!(member(&json, "max"), JsonValue::Int(-1)));
}

#[test]
fn nested_blocks_are_presented() {
    let json = block_field().to_json();
    let blocks = items(member(&json, "blocks"));
    assert_eq!(blocks.len(), 1);
    assert_eq!(text(member(&blocks[0], "slug")), "author");
    assert!(matches!(member(&blocks[0], "multiLanguage"), JsonValue::Bool(true)));
}

#[test]
fn components_are_found_by_identifier() {
    let components = vec![
        component(5, DataTypeEnum::TEXT),
        component(9, DataTypeEnum::ARRAY),
        component(9, DataTypeEnum::OBJECT),
    ];
    assert_eq!(find_component(&components, 9), Some(1));
    assert_eq!(find_component(&components, 5), Some(0));
    assert_eq!(find_component(&components, 4), None);
    assert_eq!(find_component(&Vec::new(), 4), None);
}
