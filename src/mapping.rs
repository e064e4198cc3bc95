use vstd::prelude::*;

use crate::json::{opt_view, or_null, Json, JsonValue, Member};

verus! {

/// A name-keyed mapping as a sequence of (name, value) pairs.
pub type Entries<V> = Seq<(Seq<char>, V)>;

/// The position of the first pair named `key`, or the length where there is none.
pub open spec fn first_index<V>(m: Entries<V>, key: Seq<char>) -> int
    decreases m.len(),
{
    if m.len() == 0 {
        0
    } else if m[0].0 == key {
        0
    } else {
        1 + first_index(m.drop_first(), key)
    }
}

/// The value the mapping holds for `key`.
pub open spec fn lookup<V>(m: Entries<V>, key: Seq<char>) -> Option<V> {
    let i = first_index(m, key);
    if i < m.len() {
        Some(m[i].1)
    } else {
        None
    }
}

/// Every name occurs at most once.
pub open spec fn names_unique<V>(m: Entries<V>) -> bool {
    forall|i: int, j: int| 0 <= i < j < m.len() ==> m[i].0 != m[j].0
}

/// Stores `value` under `key`: an existing pair of that name takes the new
/// value, otherwise the pair is added at the end.
pub open spec fn insert_entry<V>(m: Entries<V>, key: Seq<char>, value: V) -> Entries<V> {
    let i = first_index(m, key);
    if i < m.len() {
        m.update(i, (key, value))
    } else {
        m.push((key, value))
    }
}

/// The mapping that inserting the pairs in order builds: the last pair of
/// each name wins.
pub open spec fn build_mapping<V>(pairs: Entries<V>) -> Entries<V>
    decreases pairs.len(),
{
    if pairs.len() == 0 {
        Seq::empty()
    } else {
        let rest = build_mapping(pairs.drop_last());
        insert_entry(rest, pairs.last().0, pairs.last().1)
    }
}

/// The value of the last pair named `key`.
pub open spec fn last_value<V>(pairs: Entries<V>, key: Seq<char>) -> Option<V>
    decreases pairs.len(),
{
    if pairs.len() == 0 {
        None
    } else if pairs.last().0 == key {
        Some(pairs.last().1)
    } else {
        last_value(pairs.drop_last(), key)
    }
}

pub proof fn lemma_first_index_bounds<V>(m: Entries<V>, key: Seq<char>)
    ensures
        0 <= first_index(m, key) <= m.len(),
        first_index(m, key) < m.len() ==> m[first_index(m, key)].0 == key,
        forall|j: int| 0 <= j < first_index(m, key) ==> m[j].0 != key,
    decreases m.len(),
{
    if m.len() > 0 && m[0].0 != key {
        lemma_first_index_bounds(m.drop_first(), key);
        assert forall|j: int| 0 <= j < first_index(m, key) implies m[j].0 != key by {
            if j > 0 {
                assert(m[j] == m.drop_first()[j - 1]);
            }
        }
    }
}

/// The first position holding `key` is the one a scan finds.
pub proof fn lemma_first_index_at<V>(m: Entries<V>, key: Seq<char>, j: int)
    requires
        0 <= j <= m.len(),
        forall|i: int| 0 <= i < j ==> m[i].0 != key,
        j < m.len() ==> m[j].0 == key,
    ensures
        first_index(m, key) == j,
    decreases m.len(),
{
    if m.len() > 0 && j > 0 {
        assert forall|i: int| 0 <= i < j - 1 implies m.drop_first()[i].0 != key by {
            assert(m.drop_first()[i] == m[i + 1]);
        }
        lemma_first_index_at(m.drop_first(), key, j - 1);
    }
}

/// Inserting keeps names unique, and looking a name up afterwards finds the
/// new value for that name and the old value for any other.
pub proof fn lemma_insert_entry<V>(m: Entries<V>, key: Seq<char>, value: V)
    requires
        names_unique(m),
    ensures
        names_unique(insert_entry(m, key, value)),
        forall|k: Seq<char>| #[trigger] lookup(insert_entry(m, key, value), k)
            == if k == key { Some(value) } else { lookup(m, k) },
{
    lemma_first_index_bounds(m, key);
    let r = insert_entry(m, key, value);
    let i = first_index(m, key);
    assert forall|k: Seq<char>| #[trigger] lookup(r, k)
        == if k == key { Some(value) } else { lookup(m, k) } by {
        lemma_first_index_bounds(m, k);
        let a = first_index(m, k);
        if k == key {
            lemma_first_index_at(r, k, i);
        } else if a < m.len() {
            lemma_first_index_at(r, k, a);
        } else {
            lemma_first_index_at(r, k, r.len() as int);
        }
    }
}

/// The mapping built from pairs has unique names and holds, for each name,
/// the value of the last pair of that name.
pub proof fn lemma_build_mapping<V>(pairs: Entries<V>)
    ensures
        names_unique(build_mapping(pairs)),
        forall|k: Seq<char>| #[trigger] lookup(build_mapping(pairs), k) == last_value(pairs, k),
    decreases pairs.len(),
{
    if pairs.len() > 0 {
        let rest = build_mapping(pairs.drop_last());
        lemma_build_mapping(pairs.drop_last());
        lemma_insert_entry(rest, pairs.last().0, pairs.last().1);
    } else {
        assert forall|k: Seq<char>| #[trigger] lookup(build_mapping(pairs), k) == last_value(pairs, k) by {
        }
    }
}

/// One materialized field: its name and its value, absent where unset.
#[derive(Debug)]
pub struct FieldEntry {
    pub name: String,
    pub value: Option<JsonValue>,
}

/// A materialized mapping from field names to values.
pub type FieldMap = Vec<FieldEntry>;

pub open spec fn entry_view(e: FieldEntry) -> (Seq<char>, Option<Json>) {
    (e.name@, opt_view(e.value))
}

/// What a materialized mapping holds.
pub open spec fn fields_view(m: Seq<FieldEntry>) -> Entries<Option<Json>> {
    Seq::new(m.len(), |i: int| entry_view(m[i]))
}

/// A mapping as a JSON object: unset values become `null`.
pub open spec fn fields_json(m: Entries<Option<Json>>) -> Entries<Json> {
    Seq::new(m.len(), |i: int| (m[i].0, or_null(m[i].1)))
}

/// Stores a value under a name, replacing the value of an existing field of
/// that name.
pub fn insert_field(m: &mut FieldMap, name: String, value: Option<JsonValue>)
    ensures
        fields_view(final(m)@) == insert_entry(fields_view(old(m)@), name@, opt_view(value)),
{
    let ghost key = name@;
    let ghost before = fields_view(m@);
    let n = m.len();
    let mut i: usize = 0;
    while i < n
        invariant
            n == m.len(),
            m@ == old(m)@,
            before == fields_view(m@),
            key == name@,
            i <= n,
            forall|j: int| 0 <= j < i ==> before[j].0 != key,
        decreases n - i,
    {
        if m[i].name == name {
            proof {
                lemma_first_index_at(before, key, i as int);
            }
            m.set(i, FieldEntry { name, value });
            proof {
                assert(fields_view(m@) =~= insert_entry(before, key, opt_view(value)));
            }
            return;
        }
        i = i + 1;
    }
    proof {
        lemma_first_index_at(before, key, n as int);
    }
    m.push(FieldEntry { name, value });
    proof {
        assert(fields_view(m@) =~= insert_entry(before, key, opt_view(value)));
    }
}

/// The mapping as a JSON object.
pub fn fields_to_json(m: &FieldMap) -> (r: JsonValue)
    ensures
        r@ == Json::Object(fields_json(fields_view(m@))),
{
    let mut out: Vec<Member> = Vec::new();
    let mut i: usize = 0;
    while i < m.len()
        invariant
            i <= m.len(),
            out.len() == i,
            forall|j: int| 0 <= j < i ==> (#[trigger] out[j]).entry() == fields_json(fields_view(m@))[j],
        decreases m.len() - i,
    {
        let value = match &m[i].value {
            Some(v) => v.copy(),
            None => JsonValue::Null,
        };
        out.push(Member { key: m[i].name.clone(), value });
        i = i + 1;
    }
    let r = JsonValue::Object(out);
    proof {
        assert(r@->Object_0 =~= fields_json(fields_view(m@)));
    }
    r
}

} // verus!
