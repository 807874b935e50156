//! JSON values.

use vstd::prelude::*;
use crate::text::same;

verus! {

broadcast use crate::seqs::group_text;

/// A JSON number: its text, and its value where that is a `u64`.
pub struct JsonNumber {
    pub text: String,
    pub unsigned: Option<u64>,
}

/// A JSON value. The fields of an object stand in order.
pub enum Json {
    Null,
    Bool(bool),
    Number(JsonNumber),
    String(String),
    Array(Vec<Json>),
    Object(Vec<(String, Json)>),
}

/// What [`Json`] stands for.
pub enum JsonView {
    Null,
    Bool(bool),
    Number(Seq<char>, Option<u64>),
    String(Seq<char>),
    Array(Seq<JsonView>),
    Object(Seq<(Seq<char>, JsonView)>),
}

/// What a JSON value stands for.
pub open spec fn json_view(j: Json) -> JsonView
    decreases j,
{
    match j {
        Json::Null => JsonView::Null,
        Json::Bool(b) => JsonView::Bool(b),
        Json::Number(n) => JsonView::Number(n.text@, n.unsigned),
        Json::String(s) => JsonView::String(s@),
        Json::Array(v) => JsonView::Array(
            Seq::new(
                v@.len(),
                |i: int|
                    if 0 <= i < v@.len() {
                        json_view(v@[i])
                    } else {
                        JsonView::Null
                    },
            ),
        ),
        Json::Object(v) => JsonView::Object(
            Seq::new(
                v@.len(),
                |i: int|
                    if 0 <= i < v@.len() {
                        (v@[i].0@, json_view(v@[i].1))
                    } else {
                        (seq![], JsonView::Null)
                    },
            ),
        ),
    }
}

impl View for Json {
    type V = JsonView;

    open spec fn view(&self) -> JsonView {
        json_view(*self)
    }
}

/// The fields of an object, or the items of an array, are what the parts stand for.
pub broadcast proof fn lemma_json_array(v: Vec<Json>)
    ensures
        #[trigger] json_view(Json::Array(v)) == JsonView::Array(crate::seqs::views(v@)),
{
    assert(json_view(Json::Array(v))->Array_0 =~= crate::seqs::views(v@));
}

/// What pairs of names and values stand for.
pub open spec fn field_views(v: Seq<(String, Json)>) -> Seq<(Seq<char>, JsonView)> {
    v.map_values(|p: (String, Json)| (p.0@, p.1@))
}

pub broadcast proof fn lemma_json_object(v: Vec<(String, Json)>)
    ensures
        #[trigger] json_view(Json::Object(v)) == JsonView::Object(field_views(v@)),
{
    assert(json_view(Json::Object(v))->Object_0 =~= field_views(v@));
}

pub broadcast group group_json {
    lemma_json_array,
    lemma_json_object,
}

/// The value of the first field `key`.
pub open spec fn member(fields: Seq<(Seq<char>, JsonView)>, key: Seq<char>) -> Option<JsonView>
    decreases fields.len(),
{
    if fields.len() == 0 {
        None
    } else {
        match member(fields.drop_last(), key) {
            Some(v) => Some(v),
            None => if fields.last().0 == key {
                Some(fields.last().1)
            } else {
                None
            },
        }
    }
}

impl JsonView {
    /// The value of the field `key` of an object.
    pub open spec fn field(self, key: Seq<char>) -> Option<JsonView> {
        match self {
            JsonView::Object(fields) => member(fields, key),
            _ => None,
        }
    }

    /// The text of a JSON string.
    pub open spec fn text(self) -> Option<Seq<char>> {
        match self {
            JsonView::String(s) => Some(s),
            _ => None,
        }
    }

    /// The text of the field `key` where that is a JSON string.
    pub open spec fn field_text(self, key: Seq<char>) -> Option<Seq<char>> {
        match self.field(key) {
            Some(v) => v.text(),
            None => None,
        }
    }
}

impl Json {
    /// The value of the field `key` of an object.
    pub fn get(&self, key: &str) -> (r: Option<&Json>)
        ensures
            (match r {
                Some(v) => Some(v@),
                None => None,
            }) == self@.field(key@),
    {
        broadcast use group_json;

        match self {
            Json::Object(fields) => match find_field(fields, key) {
                Some(i) => Some(&fields[i].1),
                None => None,
            },
            _ => None,
        }
    }

    /// The text of a JSON string.
    pub fn as_str(&self) -> (r: Option<&str>)
        ensures
            (match r {
                Some(s) => Some(s@),
                None => None,
            }) == self@.text(),
    {
        match self {
            Json::String(s) => Some(s.as_str()),
            _ => None,
        }
    }

    /// The text of the field `key` where that is a JSON string.
    pub fn get_str(&self, key: &str) -> (r: Option<&str>)
        ensures
            (match r {
                Some(s) => Some(s@),
                None => None,
            }) == self@.field_text(key@),
    {
        match self.get(key) {
            Some(v) => v.as_str(),
            None => None,
        }
    }
}

/// The position of the first field `key`.
pub fn find_field(fields: &Vec<(String, Json)>, key: &str) -> (r: Option<usize>)
    ensures
        r is Some == member(field_views(fields@), key@) is Some,
        r matches Some(i) ==> i < fields@.len() && fields@[i as int].0@ == key@ && member(
            field_views(fields@),
            key@,
        ) == Some(fields@[i as int].1@) && (forall|k: int|
            0 <= k < i ==> (#[trigger] fields@[k]).0@ != key@),
        r is None ==> forall|k: int| 0 <= k < fields@.len() ==> (#[trigger] fields@[k]).0@ != key@,
{
    let ghost f = field_views(fields@);
    let mut i: usize = 0;
    while i < fields.len()
        invariant
            f == field_views(fields@),
            i <= fields@.len(),
            member(f.take(i as int), key@) is None,
            forall|k: int| 0 <= k < i ==> (#[trigger] fields@[k]).0@ != key@,
        decreases fields.len() - i,
    {
        assert(f[i as int] == (fields@[i as int].0@, fields@[i as int].1@));
        if same(fields[i].0.as_str(), key) {
            proof {
                lemma_member_stays(f, key@, i + 1);
            }
            return Some(i);
        }
        i += 1;
    }
    assert(f.take(f.len() as int) =~= f);
    None
}

proof fn lemma_member_stays(fields: Seq<(Seq<char>, JsonView)>, key: Seq<char>, n: int)
    requires
        0 <= n <= fields.len(),
        member(fields.take(n), key) is Some,
    ensures
        member(fields, key) == member(fields.take(n), key),
    decreases fields.len() - n,
{
    if n < fields.len() {
        lemma_member_stays(fields, key, n + 1);
    } else {
        assert(fields.take(n) =~= fields);
    }
}

/// `serde_json::Value`: a JSON value as the outside parser gives it.
#[verifier::external_type_specification]
#[verifier::external_body]
pub struct ExValue(serde_json::Value);

/// The JSON value that bytes stand for, or why they stand for none.
pub uninterp spec fn parsed_json(bytes: Seq<u8>) -> Result<JsonView, Seq<char>>;

/// What the result of parsing stands for.
pub open spec fn json_result(r: Result<Json, String>) -> Result<JsonView, Seq<char>> {
    match r {
        Ok(j) => Ok(j@),
        Err(e) => Err(e@),
    }
}

/// A `serde_json::Value`, variant by variant.
#[verifier::external_body]
fn json_of(value: serde_json::Value) -> (r: Json) {
    match value {
        serde_json::Value::Null => Json::Null,
        serde_json::Value::Bool(b) => Json::Bool(b),
        serde_json::Value::Number(n) => {
            Json::Number(JsonNumber { unsigned: n.as_u64(), text: n.to_string() })
        },
        serde_json::Value::String(s) => Json::String(s),
        serde_json::Value::Array(v) => Json::Array(v.into_iter().map(json_of).collect()),
        serde_json::Value::Object(m) => {
            Json::Object(m.into_iter().map(|(k, v)| (k, json_of(v))).collect())
        },
    }
}

/// `serde_json::from_slice`: the JSON value that bytes stand for, or the
/// message of the error. The same bytes always give the same.
#[verifier::external_body]
pub(crate) fn parse_json(bytes: &[u8]) -> (r: Result<Json, String>)
    ensures
        json_result(r) == parsed_json(bytes@),
{
    serde_json::from_slice(bytes).map(json_of).map_err(|e| e.to_string())
}

/// A copy of a JSON value.
pub fn dup_json(j: &Json) -> (r: Json)
    ensures
        r@ == j@,
    decreases *j,
{
    broadcast use group_json;

    match j {
        Json::Null => Json::Null,
        Json::Bool(b) => Json::Bool(*b),
        Json::Number(n) => Json::Number(
            JsonNumber { text: n.text.clone(), unsigned: n.unsigned },
        ),
        Json::String(s) => Json::String(s.clone()),
        Json::Array(v) => {
            let mut out: Vec<Json> = Vec::new();
            for i in 0..v.len()
                invariant
                    *j == Json::Array(*v),
                    crate::seqs::views(out@) =~= crate::seqs::views(v@).take(i as int),
            {
                assert(decreases_to!(*j => j->Array_0));
                assert(decreases_to!(*v => v[i as int]));
                out.push(dup_json(&v[i]));
            }
            assert(crate::seqs::views(out@) =~= crate::seqs::views(v@));
            Json::Array(out)
        },
        Json::Object(v) => {
            let mut out: Vec<(String, Json)> = Vec::new();
            for i in 0..v.len()
                invariant
                    *j == Json::Object(*v),
                    field_views(out@) =~= field_views(v@).take(i as int),
            {
                assert(decreases_to!(*j => j->Object_0));
                assert(decreases_to!(*v => v[i as int]));
                let ghost before = out@;
                let pair = (v[i].0.clone(), dup_json(&v[i].1));
                out.push(pair);
                assert(field_views(out@) =~= field_views(before).push((pair.0@, pair.1@)));
            }
            assert(field_views(out@) =~= field_views(v@));
            Json::Object(out)
        },
    }
}

impl crate::table::Dup for Json {
    fn dup(&self) -> (r: Self) {
        dup_json(self)
    }
}

/// The position of the first field `key`, -1 where there is none.
pub open spec fn field_index(fields: Seq<(Seq<char>, JsonView)>, key: Seq<char>) -> int
    decreases fields.len(),
{
    if fields.len() == 0 {
        -1
    } else {
        let before = field_index(fields.drop_last(), key);
        if before >= 0 {
            before
        } else if fields.last().0 == key {
            fields.len() - 1
        } else {
            -1
        }
    }
}

/// The fields with `value` under `key`: in place where there is such a field, else at the end.
pub open spec fn with_member(
    fields: Seq<(Seq<char>, JsonView)>,
    key: Seq<char>,
    value: JsonView,
) -> Seq<(Seq<char>, JsonView)> {
    if field_index(fields, key) >= 0 {
        fields.update(field_index(fields, key), (key, value))
    } else {
        fields.push((key, value))
    }
}

/// A field is at its index, and there is an index exactly where there is a value.
pub proof fn lemma_field_index(fields: Seq<(Seq<char>, JsonView)>, key: Seq<char>)
    ensures
        -1 <= field_index(fields, key) < fields.len(),
        field_index(fields, key) >= 0 <==> member(fields, key) is Some,
        field_index(fields, key) >= 0 ==> fields[field_index(fields, key)].0 == key && member(
            fields,
            key,
        ) == Some(fields[field_index(fields, key)].1),
        forall|k: int|
            0 <= k < fields.len() && (#[trigger] fields[k]).0 == key ==> field_index(fields, key) >= 0
                && field_index(fields, key) <= k,
    decreases fields.len(),
{
    if fields.len() > 0 {
        let init = fields.drop_last();
        lemma_field_index(init, key);
        assert forall|k: int| 0 <= k < fields.len() && (#[trigger] fields[k]).0 == key implies
            field_index(fields, key) >= 0 && field_index(fields, key) <= k by {
            if k < init.len() {
                assert(init[k].0 == key);
            }
        }
    }
}

/// Puts `value` under `key`.
pub fn set_field(fields: &mut Vec<(String, Json)>, key: &str, value: Json)
    ensures
        field_views(final(fields)@) == with_member(field_views(old(fields)@), key@, value@),
{
    let ghost f = field_views(fields@);
    let ghost v = value@;
    proof {
        lemma_field_index(f, key@);
    }
    match find_field(fields, key) {
        Some(i) => {
            proof {
                assert(f[i as int] == (fields@[i as int].0@, fields@[i as int].1@));
                assert(field_index(f, key@) == i) by {
                    let k = field_index(f, key@);
                    if k < i {
                        assert(f[k].0 == fields@[k].0@);
                    }
                }
            }
            let pair = (key.to_owned(), value);
            fields.set(i, pair);
            assert(field_views(fields@) =~= f.update(i as int, (key@, v)));
        },
        None => {
            let pair = (key.to_owned(), value);
            fields.push(pair);
            assert(field_views(fields@) =~= f.push((key@, v)));
        },
    }
}

/// After a field is set it has the new value, and every other field the one it had.
pub proof fn law_set_fields_read_back(
    fields: Seq<(Seq<char>, JsonView)>,
    key: Seq<char>,
    value: JsonView,
    other: Seq<char>,
)
    ensures
        member(with_member(fields, key, value), key) == Some(value),
        other != key ==> member(with_member(fields, key, value), other) == member(fields, other),
{
    let set = with_member(fields, key, value);
    lemma_field_index(fields, key);
    lemma_field_index(set, key);
    lemma_field_index(fields, other);
    lemma_field_index(set, other);
    let i = field_index(fields, key);
    if i >= 0 {
        assert(set[i].0 == key);
        let j = field_index(set, key);
        if j < i {
            assert(fields[j].0 == key);
        }
    } else {
        assert(set[set.len() - 1].0 == key);
        let j = field_index(set, key);
        if j < fields.len() {
            assert(fields[j].0 == key);
        }
    }
    if other != key {
        let a = field_index(fields, other);
        let b = field_index(set, other);
        if a >= 0 {
            assert(set[a] == fields[a]);
            if b < a {
                assert(fields[b].0 == other);
            }
        }
        if b >= 0 {
            assert(set[b].0 == other);
            assert(b < fields.len());
            assert(fields[b] == set[b]);
        }
    }
}

} // verus!
