use vstd::prelude::*;

verus! {

/// A JSON value, as the request schema carries it.
#[derive(Debug)]
pub enum JsonValue {
    Null,
    Bool(bool),
    /// A number, held as the decimal text that denotes it.
    Number(String),
    Str(String),
    Array(Vec<JsonValue>),
    /// An object's members, in order.
    Object(Vec<(String, JsonValue)>),
}

/// The mathematical model of a JSON value.
pub enum Json {
    Null,
    Bool(bool),
    Number(Seq<char>),
    Str(Seq<char>),
    Array(Seq<Json>),
    Object(Seq<(Seq<char>, Json)>),
}

pub open spec fn json_view(v: JsonValue) -> Json
    decreases v, 0nat,
{
    match v {
        JsonValue::Null => Json::Null,
        JsonValue::Bool(b) => Json::Bool(b),
        JsonValue::Number(n) => Json::Number(n@),
        JsonValue::Str(s) => Json::Str(s@),
        JsonValue::Array(items) => Json::Array(items_view(items@)),
        JsonValue::Object(members) => Json::Object(members_view(members@)),
    }
}

pub open spec fn items_view(s: Seq<JsonValue>) -> Seq<Json>
    decreases s, s.len(),
{
    if s.len() == 0 {
        Seq::empty()
    } else {
        items_view(s.subrange(0, s.len() - 1)).push(json_view(s[s.len() - 1]))
    }
}

pub open spec fn members_view(s: Seq<(String, JsonValue)>) -> Seq<(Seq<char>, Json)>
    decreases s, s.len(),
{
    if s.len() == 0 {
        Seq::empty()
    } else {
        members_view(s.subrange(0, s.len() - 1)).push((s[s.len() - 1].0@, json_view(s[s.len() - 1].1)))
    }
}

impl View for JsonValue {
    type V = Json;

    open spec fn view(&self) -> Json {
        json_view(*self)
    }
}


/// Whether some member of `members` has the key `key`.
pub open spec fn has_key(members: Seq<(Seq<char>, Json)>, key: Seq<char>) -> bool {
    exists|i: int| 0 <= i < members.len() && #[trigger] members[i].0 == key
}

pub proof fn lemma_members_view(s: Seq<(String, JsonValue)>)
    ensures
        members_view(s).len() == s.len(),
        forall|i: int|
            0 <= i < s.len() ==> #[trigger] members_view(s)[i] == (s[i].0@, json_view(s[i].1)),
    decreases s.len(),
{
    if s.len() > 0 {
        let t = s.subrange(0, s.len() - 1);
        lemma_members_view(t);
        assert forall|i: int| 0 <= i < s.len() implies #[trigger] members_view(s)[i] == (
            s[i].0@,
            json_view(s[i].1),
        ) by {
            if i < s.len() - 1 {
                assert(t[i] == s[i]);
            }
        }
    }
}

pub proof fn lemma_items_view(s: Seq<JsonValue>)
    ensures
        items_view(s).len() == s.len(),
        forall|i: int| 0 <= i < s.len() ==> #[trigger] items_view(s)[i] == json_view(s[i]),
    decreases s.len(),
{
    if s.len() > 0 {
        let t = s.subrange(0, s.len() - 1);
        lemma_items_view(t);
        assert forall|i: int| 0 <= i < s.len() implies #[trigger] items_view(s)[i] == json_view(s[i]) by {
            if i < s.len() - 1 {
                assert(t[i] == s[i]);
            }
        }
    }
}

pub proof fn lemma_items_view_push(s: Seq<JsonValue>, x: JsonValue)
    ensures
        items_view(s.push(x)) == items_view(s).push(x@),
{
    assert(s.push(x).subrange(0, s.len() as int) =~= s);
}

/// What `serde_json` makes of the text `text` when it parses it as a JSON value
/// (`None` where it refuses the text); numbers are taken by their decimal text.
pub uninterp spec fn parsed_json(text: Seq<char>) -> Option<Json>;

#[verifier::external_type_specification]
#[verifier::external_body]
pub struct ExSerdeValue(serde_json::Value);

#[verifier::external_type_specification]
#[verifier::external_body]
pub struct ExSerdeError(serde_json::Error);

/// Takes a `serde_json::Value` apart into the library's `JsonValue`, one variant for
/// one variant, a number by the text that `serde_json` prints for it.
#[verifier::external_body]
fn json_from_serde(v: serde_json::Value) -> JsonValue {
    match v {
        serde_json::Value::Null => JsonValue::Null,
        serde_json::Value::Bool(b) => JsonValue::Bool(b),
        serde_json::Value::Number(n) => JsonValue::Number(n.to_string()),
        serde_json::Value::String(s) => JsonValue::Str(s),
        serde_json::Value::Array(a) => JsonValue::Array(a.into_iter().map(json_from_serde).collect()),
        serde_json::Value::Object(m) => JsonValue::Object(
            m.into_iter().map(|(k, x)| (k, json_from_serde(x))).collect(),
        ),
    }
}

/// Calls `serde_json::from_str::<serde_json::Value>` on `text`. Claimed: the call
/// succeeds exactly where `parsed_json` gives a value, and then gives that value;
/// what the error holds is not stated.
#[verifier::external_body]
pub fn parse_json(text: &str) -> (r: Result<JsonValue, serde_json::Error>)
    ensures
        match r {
            Ok(v) => parsed_json(text@) == Some(v@),
            Err(_) => parsed_json(text@) is None,
        },
{
    serde_json::from_str::<serde_json::Value>(text).map(json_from_serde)
}

/// The model of a JSON value after a missing `"model"` member is filled in:
/// an object without a member of that key gains one, holding the string `model`;
/// any other value stays as it is.
pub open spec fn with_model(v: Json, model: Seq<char>) -> Json {
    match v {
        Json::Object(members) => if has_key(members, "model"@) {
            v
        } else {
            Json::Object(members.push(("model"@, Json::Str(model))))
        },
        _ => v,
    }
}

/// Adds the member `"model": model` to an object that has no `"model"` member;
/// leaves every other value as it is.
pub fn with_default_model(value: JsonValue, model: &str) -> (r: JsonValue)
    ensures
        r@ == with_model(value@, model@),
{
    match value {
        JsonValue::Object(mut members) => {
            let key = String::from_str("model");
            let ghost before = members@;
            assert(value@ == Json::Object(members_view(before)));
            let mut i: usize = 0;
            while i < members.len()
                invariant
                    i <= members@.len(),
                    members@ == before,
                    value@ == Json::Object(members_view(before)),
                    key@ == "model"@,
                    forall|j: int| 0 <= j < i ==> #[trigger] members@[j].0@ != "model"@,
                decreases members@.len() - i,
            {
                if members[i].0 == key {
                    proof {
                        lemma_members_view(before);
                    }
                    assert(members_view(before)[i as int].0 == "model"@);
                    assert(has_key(members_view(before), "model"@));
                    return JsonValue::Object(members);
                }
                i = i + 1;
            }
            proof {
                lemma_members_view(before);
            }
            assert(!has_key(members_view(before), "model"@)) by {
                if has_key(members_view(before), "model"@) {
                    let j = choose|j: int| 0 <= j < members_view(before).len() && #[trigger] members_view(before)[j].0 == "model"@;
                    assert(members@[j].0@ == "model"@);
                }
            }
            let text = String::from_str(model);
            let entry = (key, JsonValue::Str(text));
            assert(json_view(entry.1) == Json::Str(model@));
            members.push(entry);
            assert(members@.subrange(0, members@.len() - 1) =~= before);
            assert(members_view(members@) == members_view(before).push(("model"@, Json::Str(model@))));
            JsonValue::Object(members)
        },
        other => other,
    }
}

/// Filling in the model twice is filling it in once.
pub proof fn lemma_with_model_idempotent(v: Json, model: Seq<char>, other: Seq<char>)
    ensures
        with_model(with_model(v, model), other) == with_model(v, model),
{
    if let Json::Object(members) = v {
        if !has_key(members, "model"@) {
            let n = members.push(("model"@, Json::Str(model)));
            assert(n[members.len() as int].0 == "model"@);
        }
    }
}

} // verus!
