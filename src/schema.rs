use vstd::prelude::*;

use crate::data_type::DataTypeEnum;
use crate::ids::{format_uuid, uuid_text};
use crate::json::{copy_opt, opt_view, or_null, Json, JsonValue, Member};

verus! {

/// A content component: the kind of value a field holds. Times are
/// seconds since the Unix epoch.
#[derive(Debug)]
pub struct ContentComponentDTO {
    pub id: u128,
    pub name: String,
    pub slug: String,
    pub internal: bool,
    pub description: Option<String>,
    pub component_name: String,
    pub data_type: DataTypeEnum,
    pub created_at: i64,
    pub updated_at: i64,
}

/// A content component with the field definitions it is made of and those
/// that configure it.
#[derive(Debug)]
pub struct ContentComponentWithFieldsDTO {
    pub component: ContentComponentDTO,
    pub configuration_fields: Vec<SchemaField>,
    pub fields: Vec<SchemaField>,
}

/// One configuration value of a field definition.
#[derive(Debug)]
pub enum FieldConfigContent {
    Text(String),
    Json(JsonValue),
    /// Definitions of nested fields, e.g. the fields a block may hold.
    Fields(Vec<SchemaField>),
}

#[derive(Debug)]
pub struct ConfigEntry {
    pub key: String,
    pub content: FieldConfigContent,
}

/// A field definition of a content type's schema, with its component and,
/// for a field holding blocks, the block definitions.
#[derive(Debug)]
pub struct SchemaField {
    pub id: u128,
    pub name: String,
    pub slug: String,
    pub description: Option<String>,
    pub compartment_id: Option<u128>,
    pub multi_language: bool,
    pub hidden: bool,
    pub min: i32,
    pub max: i32,
    pub sequence_number: Option<i32>,
    pub validation: Option<JsonValue>,
    pub content_component: ContentComponentWithFieldsDTO,
    pub blocks: Option<Vec<SchemaField>>,
    pub config: Vec<ConfigEntry>,
}

/// A field definition as presented on its own: its component without its
/// field lists, its configuration resolved to JSON.
#[derive(Debug)]
pub struct FieldDTO {
    pub id: u128,
    pub name: String,
    pub slug: String,
    pub description: Option<String>,
    pub compartment_id: Option<u128>,
    pub multi_language: bool,
    pub hidden: bool,
    pub min: i32,
    pub max: i32,
    pub sequence_number: Option<i32>,
    pub content_component: ContentComponentDTO,
    pub config: Vec<Member>,
    pub validation: Option<JsonValue>,
}

pub open spec fn text_or_null(s: Option<String>) -> Json {
    match s {
        Some(t) => Json::Str(t@),
        None => Json::Null,
    }
}

pub open spec fn id_or_null(id: Option<u128>) -> Json {
    match id {
        Some(i) => Json::Str(uuid_text(i)),
        None => Json::Null,
    }
}

pub open spec fn int_or_null(n: Option<i32>) -> Json {
    match n {
        Some(i) => Json::Int(i as int),
        None => Json::Null,
    }
}

/// A component as presented without its field lists.
pub open spec fn component_json(c: ContentComponentDTO) -> Json {
    Json::Object(
        seq![
            ("id"@, Json::Str(uuid_text(c.id))),
            ("name"@, Json::Str(c.name@)),
            ("slug"@, Json::Str(c.slug@)),
            ("internal"@, Json::Bool(c.internal)),
            ("description"@, text_or_null(c.description)),
            ("componentName"@, Json::Str(c.component_name@)),
            ("dataType"@, Json::Str(c.data_type.sql_name())),
            ("createdAt"@, Json::Int(c.created_at as int)),
            ("updatedAt"@, Json::Int(c.updated_at as int)),
        ],
    )
}

/// A list of definitions, each presented with its component's field lists.
pub open spec fn list_json(fs: Vec<SchemaField>) -> Json
    decreases fs,
{
    Json::Array(
        Seq::new(
            fs.len() as nat,
            |i: int|
                if 0 <= i < fs.len() {
                    fs[i].json()
                } else {
                    Json::Null
                },
        ),
    )
}

impl ContentComponentWithFieldsDTO {
    /// The component as presented with its field lists.
    pub open spec fn json(&self) -> Json
        decreases self,
    {
        Json::Object(
            seq![
                ("id"@, Json::Str(uuid_text(self.component.id))),
                ("name"@, Json::Str(self.component.name@)),
                ("slug"@, Json::Str(self.component.slug@)),
                ("description"@, text_or_null(self.component.description)),
                ("componentName"@, Json::Str(self.component.component_name@)),
                ("internal"@, Json::Bool(self.component.internal)),
                ("createdAt"@, Json::Int(self.component.created_at as int)),
                ("updatedAt"@, Json::Int(self.component.updated_at as int)),
                ("dataType"@, Json::Str(self.component.data_type.sql_name())),
                ("configurationFields"@, list_json(self.configuration_fields)),
                ("fields"@, list_json(self.fields)),
            ],
        )
    }
}

impl FieldConfigContent {
    /// A configuration value as JSON: text as a string, JSON as it is, and
    /// nested definitions as an array of their presented forms.
    pub open spec fn json(&self) -> Json
        decreases self,
    {
        match self {
            FieldConfigContent::Text(t) => Json::Str(t@),
            FieldConfigContent::Json(j) => j@,
            FieldConfigContent::Fields(fs) => Json::Array(
                Seq::new(
                    fs.len() as nat,
                    |i: int|
                        if 0 <= i < fs.len() {
                            fs[i].dto_json()
                        } else {
                            Json::Null
                        },
                ),
            ),
        }
    }
}

impl ConfigEntry {
    pub open spec fn entry(&self) -> (Seq<char>, Json)
        decreases self,
    {
        (self.key@, self.content.json())
    }
}

impl SchemaField {
    /// The resolved configuration.
    pub open spec fn config_json(&self) -> Seq<(Seq<char>, Json)> {
        Seq::new(
            self.config.len() as nat,
            |i: int|
                if 0 <= i < self.config.len() {
                    self.config[i].entry()
                } else {
                    (Seq::empty(), Json::Null)
                },
        )
    }

    /// The definition as presented on its own (the shape of `FieldDTO`).
    pub open spec fn dto_json(&self) -> Json
        decreases self,
    {
        Json::Object(
            seq![
                ("id"@, Json::Str(uuid_text(self.id))),
                ("name"@, Json::Str(self.name@)),
                ("slug"@, Json::Str(self.slug@)),
                ("description"@, text_or_null(self.description)),
                ("compartmentId"@, id_or_null(self.compartment_id)),
                ("multiLanguage"@, Json::Bool(self.multi_language)),
                ("hidden"@, Json::Bool(self.hidden)),
                ("min"@, Json::Int(self.min as int)),
                ("max"@, Json::Int(self.max as int)),
                ("sequenceNumber"@, int_or_null(self.sequence_number)),
                ("contentComponent"@, component_json(self.content_component.component)),
                ("config"@, Json::Object(Seq::new(
                    self.config.len() as nat,
                    |i: int|
                        if 0 <= i < self.config.len() {
                            self.config[i].entry()
                        } else {
                            (Seq::empty(), Json::Null)
                        },
                ))),
                ("validation"@, or_null(opt_view(self.validation))),
            ],
        )
    }

    /// The definition as presented with its component's field lists and its
    /// blocks.
    pub open spec fn json(&self) -> Json
        decreases self,
    {
        Json::Object(
            seq![
                ("id"@, Json::Str(uuid_text(self.id))),
                ("name"@, Json::Str(self.name@)),
                ("slug"@, Json::Str(self.slug@)),
                ("description"@, text_or_null(self.description)),
                ("multiLanguage"@, Json::Bool(self.multi_language)),
                ("compartmentId"@, id_or_null(self.compartment_id)),
                ("hidden"@, Json::Bool(self.hidden)),
                ("min"@, Json::Int(self.min as int)),
                ("max"@, Json::Int(self.max as int)),
                ("sequenceNumber"@, int_or_null(self.sequence_number)),
                ("contentComponent"@, self.content_component.json()),
                ("blocks"@, match self.blocks {
                    Some(bs) => list_json(bs),
                    None => Json::Null,
                }),
                ("config"@, Json::Object(self.config_json())),
                ("validation"@, or_null(opt_view(self.validation))),
            ],
        )
    }
}

fn member(key: &str, value: JsonValue) -> (r: Member)
    ensures
        r.entry() == (key@, value@),
{
    Member { key: key.to_owned(), value }
}

fn text_json(s: &Option<String>) -> (r: JsonValue)
    ensures
        r@ == text_or_null(*s),
{
    match s {
        Some(t) => JsonValue::Str(t.clone()),
        None => JsonValue::Null,
    }
}

fn id_json(id: Option<u128>) -> (r: JsonValue)
    ensures
        r@ == id_or_null(id),
{
    match id {
        Some(i) => JsonValue::Str(format_uuid(i)),
        None => JsonValue::Null,
    }
}

fn int_json(n: Option<i32>) -> (r: JsonValue)
    ensures
        r@ == int_or_null(n),
{
    match n {
        Some(i) => JsonValue::Int(i as i64),
        None => JsonValue::Null,
    }
}

fn value_json(v: &Option<JsonValue>) -> (r: JsonValue)
    ensures
        r@ == or_null(opt_view(*v)),
{
    match v {
        Some(j) => j.copy(),
        None => JsonValue::Null,
    }
}

fn copy_text(s: &Option<String>) -> (r: Option<String>)
    ensures
        r == *s,
{
    match s {
        Some(t) => Some(t.clone()),
        None => None,
    }
}

impl ContentComponentDTO {
    /// A copy of the component.
    pub fn copy(&self) -> (r: ContentComponentDTO)
        ensures
            r == *self,
    {
        ContentComponentDTO {
            id: self.id,
            name: self.name.clone(),
            slug: self.slug.clone(),
            internal: self.internal,
            description: copy_text(&self.description),
            component_name: self.component_name.clone(),
            data_type: self.data_type,
            created_at: self.created_at,
            updated_at: self.updated_at,
        }
    }

    /// The component as presented without its field lists.
    pub fn to_json(&self) -> (r: JsonValue)
        ensures
            r@ == component_json(*self),
    {
        let c = self;
        let mut members: Vec<Member> = Vec::new();
        members.push(member("id", JsonValue::Str(format_uuid(c.id))));
        members.push(member("name", JsonValue::Str(c.name.clone())));
        members.push(member("slug", JsonValue::Str(c.slug.clone())));
        members.push(member("internal", JsonValue::Bool(c.internal)));
        members.push(member("description", text_json(&c.description)));
        members.push(member("componentName", JsonValue::Str(c.component_name.clone())));
        members.push(member("dataType", JsonValue::Str(c.data_type.to_sql().to_owned())));
        members.push(member("createdAt", JsonValue::Int(c.created_at)));
        members.push(member("updatedAt", JsonValue::Int(c.updated_at)));
        let r = JsonValue::Object(members);
        proof {
            assert(members[0].entry() == component_json(*self)->Object_0[0]);
            assert(members[1].entry() == component_json(*self)->Object_0[1]);
            assert(members[2].entry() == component_json(*self)->Object_0[2]);
            assert(members[3].entry() == component_json(*self)->Object_0[3]);
            assert(members[4].entry() == component_json(*self)->Object_0[4]);
            assert(members[5].entry() == component_json(*self)->Object_0[5]);
            assert(members[6].entry() == component_json(*self)->Object_0[6]);
            assert(members[7].entry() == component_json(*self)->Object_0[7]);
            assert(members[8].entry() == component_json(*self)->Object_0[8]);
            assert(r@->Object_0 =~= component_json(*self)->Object_0);
        }
        r
    }
}

/// Presents a list of definitions with their components' field lists.
fn list_to_json(fs: &Vec<SchemaField>) -> (r: JsonValue)
    ensures
        r@ == list_json(*fs),
    decreases fs,
{
    let mut items: Vec<JsonValue> = Vec::new();
    let mut i: usize = 0;
    while i < fs.len()
        invariant
            i <= fs.len(),
            items.len() == i,
            forall|j: int| 0 <= j < i ==> (#[trigger] items[j])@ == fs[j].json(),
        decreases fs.len() - i,
    {
        proof {
            assert(decreases_to!(*fs => fs[i as int]));
        }
        let v = fs[i].to_json();
        items.push(v);
        i = i + 1;
    }
    let r = JsonValue::Array(items);
    proof {
        assert(r@->Array_0 =~= list_json(*fs)->Array_0);
    }
    r
}

impl ContentComponentWithFieldsDTO {
    /// The component as presented with its field lists.
    pub fn to_json(&self) -> (r: JsonValue)
        ensures
            r@ == self.json(),
        decreases self,
    {
        proof {
            assert(decreases_to!(*self => self.configuration_fields));
            assert(decreases_to!(*self => self.fields));
        }
        let configuration_fields = list_to_json(&self.configuration_fields);
        let fields = list_to_json(&self.fields);
        let c = &self.component;
        let mut members: Vec<Member> = Vec::new();
        members.push(member("id", JsonValue::Str(format_uuid(c.id))));
        members.push(member("name", JsonValue::Str(c.name.clone())));
        members.push(member("slug", JsonValue::Str(c.slug.clone())));
        members.push(member("description", text_json(&c.description)));
        members.push(member("componentName", JsonValue::Str(c.component_name.clone())));
        members.push(member("internal", JsonValue::Bool(c.internal)));
        members.push(member("createdAt", JsonValue::Int(c.created_at)));
        members.push(member("updatedAt", JsonValue::Int(c.updated_at)));
        members.push(member("dataType", JsonValue::Str(c.data_type.to_sql().to_owned())));
        members.push(member("configurationFields", configuration_fields));
        members.push(member("fields", fields));
        let r = JsonValue::Object(members);
        proof {
            assert(members[0].entry() == self.json()->Object_0[0]);
            assert(members[1].entry() == self.json()->Object_0[1]);
            assert(members[2].entry() == self.json()->Object_0[2]);
            assert(members[3].entry() == self.json()->Object_0[3]);
            assert(members[4].entry() == self.json()->Object_0[4]);
            assert(members[5].entry() == self.json()->Object_0[5]);
            assert(members[6].entry() == self.json()->Object_0[6]);
            assert(members[7].entry() == self.json()->Object_0[7]);
            assert(members[8].entry() == self.json()->Object_0[8]);
            assert(members[9].entry() == self.json()->Object_0[9]);
            assert(members[10].entry() == self.json()->Object_0[10]);
            assert(r@->Object_0 =~= self.json()->Object_0);
        }
        r
    }
}

impl FieldConfigContent {
    /// The configuration value as JSON; nested definitions are presented
    /// by the same rule, to any depth.
    pub fn to_json(&self) -> (r: JsonValue)
        ensures
            r@ == self.json(),
        decreases self, 0nat,
    {
        match self {
            FieldConfigContent::Text(t) => JsonValue::Str(t.clone()),
            FieldConfigContent::Json(j) => j.copy(),
            FieldConfigContent::Fields(fs) => {
                let mut items: Vec<JsonValue> = Vec::new();
                let mut i: usize = 0;
                while i < fs.len()
                    invariant
                        *self == FieldConfigContent::Fields(*fs),
                        i <= fs.len(),
                        items.len() == i,
                        forall|j: int| 0 <= j < i ==> (#[trigger] items[j])@ == fs[j].dto_json(),
                    decreases fs.len() - i,
                {
                    proof {
                        assert(decreases_to!(*self => (*self)->Fields_0));
                        assert(decreases_to!(*fs => fs[i as int]));
                    }
                    let v = fs[i].to_dto_json();
                    items.push(v);
                    i = i + 1;
                }
                let r = JsonValue::Array(items);
                proof {
                    assert(r@->Array_0 =~= self.json()->Array_0);
                }
                r
            },
        }
    }
}

impl SchemaField {
    /// The configuration resolved to JSON members, in definition order.
    pub fn resolve_config(&self) -> (r: Vec<Member>)
        ensures
            r@.len() == self.config.len(),
            forall|i: int| 0 <= i < r.len() ==> (#[trigger] r[i]).entry() == self.config_json()[i],
        decreases self, 0nat,
    {
        let mut out: Vec<Member> = Vec::new();
        let mut i: usize = 0;
        while i < self.config.len()
            invariant
                i <= self.config.len(),
                out.len() == i,
                forall|j: int| 0 <= j < i ==> (#[trigger] out[j]).entry() == self.config_json()[j],
            decreases self.config.len() - i,
        {
            proof {
                assert(decreases_to!(*self => self.config));
                assert(decreases_to!(self.config => self.config[i as int]));
                assert(decreases_to!(self.config[i as int] => self.config[i as int].content));
            }
            let value = self.config[i].content.to_json();
            out.push(Member { key: self.config[i].key.clone(), value });
            proof {
                assert(out[i as int].entry() == self.config[i as int].entry());
            }
            i = i + 1;
        }
        out
    }

    fn config_to_json(&self) -> (r: JsonValue)
        ensures
            r@ == Json::Object(self.config_json()),
        decreases self, 1nat,
    {
        let config = self.resolve_config();
        let r = JsonValue::Object(config);
        proof {
            assert(r@->Object_0 =~= self.config_json());
        }
        r
    }

    /// The definition as presented on its own (the shape of `FieldDTO`).
    pub fn to_dto_json(&self) -> (r: JsonValue)
        ensures
            r@ == self.dto_json(),
        decreases self, 2nat,
    {
        let cfg = self.config_to_json();
        let c = &self.content_component.component;
        let mut members: Vec<Member> = Vec::new();
        members.push(member("id", JsonValue::Str(format_uuid(self.id))));
        members.push(member("name", JsonValue::Str(self.name.clone())));
        members.push(member("slug", JsonValue::Str(self.slug.clone())));
        members.push(member("description", text_json(&self.description)));
        members.push(member("compartmentId", id_json(self.compartment_id)));
        members.push(member("multiLanguage", JsonValue::Bool(self.multi_language)));
        members.push(member("hidden", JsonValue::Bool(self.hidden)));
        members.push(member("min", JsonValue::Int(self.min as i64)));
        members.push(member("max", JsonValue::Int(self.max as i64)));
        members.push(member("sequenceNumber", int_json(self.sequence_number)));
        members.push(member("contentComponent", c.to_json()));
        members.push(member("config", cfg));
        members.push(member("validation", value_json(&self.validation)));
        let r = JsonValue::Object(members);
        proof {
            assert(members[0].entry() == self.dto_json()->Object_0[0]);
            assert(members[1].entry() == self.dto_json()->Object_0[1]);
            assert(members[2].entry() == self.dto_json()->Object_0[2]);
            assert(members[3].entry() == self.dto_json()->Object_0[3]);
            assert(members[4].entry() == self.dto_json()->Object_0[4]);
            assert(members[5].entry() == self.dto_json()->Object_0[5]);
            assert(members[6].entry() == self.dto_json()->Object_0[6]);
            assert(members[7].entry() == self.dto_json()->Object_0[7]);
            assert(members[8].entry() == self.dto_json()->Object_0[8]);
            assert(members[9].entry() == self.dto_json()->Object_0[9]);
            assert(members[10].entry() == self.dto_json()->Object_0[10]);
            assert(self.config_json() =~= self.dto_json()->Object_0[11].1->Object_0);
            assert(members[11].entry() == self.dto_json()->Object_0[11]);
            assert(members[12].entry() == self.dto_json()->Object_0[12]);
            assert(r@->Object_0 =~= self.dto_json()->Object_0);
        }
        r
    }

    /// The definition as presented with its component's field lists and its
    /// blocks, nested definitions included.
    pub fn to_json(&self) -> (r: JsonValue)
        ensures
            r@ == self.json(),
        decreases self,
    {
        proof {
            assert(decreases_to!(*self => self.content_component));
        }
        let component = self.content_component.to_json();
        let blocks = match &self.blocks {
            Some(bs) => {
                proof {
                    assert(decreases_to!(*self => self.blocks));
                    assert(decreases_to!(self.blocks => self.blocks->Some_0));
                }
                list_to_json(bs)
            },
            None => JsonValue::Null,
        };
        let cfg = self.config_to_json();
        let mut members: Vec<Member> = Vec::new();
        members.push(member("id", JsonValue::Str(format_uuid(self.id))));
        members.push(member("name", JsonValue::Str(self.name.clone())));
        members.push(member("slug", JsonValue::Str(self.slug.clone())));
        members.push(member("description", text_json(&self.description)));
        members.push(member("multiLanguage", JsonValue::Bool(self.multi_language)));
        members.push(member("compartmentId", id_json(self.compartment_id)));
        members.push(member("hidden", JsonValue::Bool(self.hidden)));
        members.push(member("min", JsonValue::Int(self.min as i64)));
        members.push(member("max", JsonValue::Int(self.max as i64)));
        members.push(member("sequenceNumber", int_json(self.sequence_number)));
        members.push(member("contentComponent", component));
        members.push(member("blocks", blocks));
        members.push(member("config", cfg));
        members.push(member("validation", value_json(&self.validation)));
        let r = JsonValue::Object(members);
        proof {
            assert(members[0].entry() == self.json()->Object_0[0]);
            assert(members[1].entry() == self.json()->Object_0[1]);
            assert(members[2].entry() == self.json()->Object_0[2]);
            assert(members[3].entry() == self.json()->Object_0[3]);
            assert(members[4].entry() == self.json()->Object_0[4]);
            assert(members[5].entry() == self.json()->Object_0[5]);
            assert(members[6].entry() == self.json()->Object_0[6]);
            assert(members[7].entry() == self.json()->Object_0[7]);
            assert(members[8].entry() == self.json()->Object_0[8]);
            assert(members[9].entry() == self.json()->Object_0[9]);
            assert(members[10].entry() == self.json()->Object_0[10]);
            assert(members[11].entry() == self.json()->Object_0[11]);
            assert(members[12].entry() == self.json()->Object_0[12]);
            assert(members[13].entry() == self.json()->Object_0[13]);
            assert(r@->Object_0 =~= self.json()->Object_0);
        }
        r
    }
}

impl FieldDTO {
    /// Presents a field definition on its own: every member is copied, the
    /// component without its field lists, and the configuration is resolved
    /// to JSON, nested field lists expanded by the same rule.
    pub fn from_schema(field: &SchemaField) -> (r: FieldDTO)
        ensures
            r.id == field.id,
            r.name == field.name,
            r.slug == field.slug,
            r.description == field.description,
            r.compartment_id == field.compartment_id,
            r.multi_language == field.multi_language,
            r.hidden == field.hidden,
            r.min == field.min,
            r.max == field.max,
            r.sequence_number == field.sequence_number,
            r.content_component == field.content_component.component,
            opt_view(r.validation) == opt_view(field.validation),
            r.config@.len() == field.config.len(),
            forall|i: int|
                0 <= i < r.config.len() ==> (#[trigger] r.config[i]).entry() == field.config_json()[i],
    {
        FieldDTO {
            id: field.id,
            name: field.name.clone(),
            slug: field.slug.clone(),
            description: copy_text(&field.description),
            compartment_id: field.compartment_id,
            multi_language: field.multi_language,
            hidden: field.hidden,
            min: field.min,
            max: field.max,
            sequence_number: field.sequence_number,
            content_component: field.content_component.component.copy(),
            config: field.resolve_config(),
            validation: copy_opt(&field.validation),
        }
    }
}

/// The position of the first component with the given identifier, if any.
pub fn find_component(components: &Vec<ContentComponentDTO>, id: u128) -> (r: Option<usize>)
    ensures
        r matches Some(i) ==> i < components.len() && components[i as int].id == id && forall|j: int|
            0 <= j < i ==> components[j].id != id,
        r is None ==> forall|j: int| 0 <= j < components.len() ==> components[j].id != id,
{
    let mut i: usize = 0;
    while i < components.len()
        invariant
            i <= components.len(),
            forall|j: int| 0 <= j < i ==> components[j].id != id,
        decreases components.len() - i,
    {
        if components[i].id == id {
            return Some(i);
        }
        i = i + 1;
    }
    None
}

} // verus!
