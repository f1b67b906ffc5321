//! JSON documents of the reports: a list of flat objects whose fields are
//! text, an optional flag or a list of texts, printed by serde_json.

use vstd::prelude::*;
use serde_json::Value;
use crate::compat::string_views;

verus! {

/// The value of one field of a JSON object.
pub enum JsonValue {
    Text(String),
    Flag(Option<bool>),
    List(Vec<String>),
}

/// A field value as the contracts see it.
pub enum JsonValueSpec {
    Text(Seq<char>),
    Flag(Option<bool>),
    List(Seq<Seq<char>>),
}

impl View for JsonValue {
    type V = JsonValueSpec;

    open spec fn view(&self) -> JsonValueSpec {
        match self {
            JsonValue::Text(t) => JsonValueSpec::Text(t@),
            JsonValue::Flag(b) => JsonValueSpec::Flag(*b),
            JsonValue::List(l) => JsonValueSpec::List(string_views(l@)),
        }
    }
}

/// A JSON object: its fields, key and value, in the order they were added.
pub struct JsonObject {
    pub fields: Vec<(String, JsonValue)>,
}

impl View for JsonObject {
    type V = Seq<(Seq<char>, JsonValueSpec)>;

    open spec fn view(&self) -> Seq<(Seq<char>, JsonValueSpec)> {
        self.fields@.map_values(|f: (String, JsonValue)| (f.0@, f.1@))
    }
}

/// The objects of a list as the contracts see them.
pub open spec fn object_views(objects: Seq<JsonObject>) -> Seq<Seq<(Seq<char>, JsonValueSpec)>> {
    objects.map_values(|o: JsonObject| o@)
}

/// The text that serde_json's pretty printer gives for an array of the
/// objects, each object a map from the field keys to their values.
pub uninterp spec fn pretty_json(objects: Seq<Seq<(Seq<char>, JsonValueSpec)>>) -> Seq<char>;

/// Prints the objects as a JSON array with `serde_json::to_string_pretty`,
/// each object built as a `serde_json::Value::Object` from its fields (text
/// as a JSON string, a flag as `true`, `false` or `null`, a list as an array
/// of strings). Claimed: the text is `pretty_json` of the objects' views.
/// serde_json documents that serialization fails only where a `Serialize`
/// impl fails or a map has non-string keys; a `Value` built this way has
/// neither, so the empty text of the error arm is never returned.
#[verifier::external_body]
pub(crate) fn to_json_pretty(objects: &Vec<JsonObject>) -> (s: String)
    ensures
        s@ == pretty_json(object_views(objects@)),
{
    let rows: Vec<Value> = objects.iter().map(|o| Value::Object(o.fields.iter().map(|(k, v)| {
        (k.clone(), match v {
            JsonValue::Text(t) => Value::from(t.as_str()),
            JsonValue::Flag(b) => Value::from(*b),
            JsonValue::List(l) => Value::from(l.clone()),
        })
    }).collect())).collect();
    match serde_json::to_string_pretty(&rows) {
        Ok(s) => s,
        Err(_) => String::new(),
    }
}

} // verus!
