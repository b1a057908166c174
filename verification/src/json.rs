//! The reply of the semantic search: JSON text, read into a value of the
//! library's own and then into (file, category) results.

use vstd::prelude::*;
use crate::heartbeat::task_views;

verus! {

/// A JSON value, holding what the library reads of one: numbers are kept
/// without their value; an object keeps its entries in order, each key once.
pub enum JsonValue {
    Null,
    Bool(bool),
    Number,
    String(String),
    Array(Vec<JsonValue>),
    Object(Vec<(String, JsonValue)>),
}

#[verifier::external_type_specification]
#[verifier::external_body]
pub struct ExSerdeJsonValue(serde_json::Value);

/// The name that the library gives to what `serde_json::from_str` parses a
/// text into, read as a `JsonValue`; `None` when the text is not JSON.
pub uninterp spec fn spec_parse_json(text: Seq<char>) -> Option<JsonValue>;

/// Calls `serde_json::from_str::<serde_json::Value>` and reads the value as
/// a `JsonValue`.  It claims only that the result is the named parse of the
/// text: serde_json parses a text the same way each time.
#[verifier::external_body]
fn parse_json(text: &str) -> (r: Option<JsonValue>)
    ensures
        r == spec_parse_json(text@),
{
    serde_json::from_str::<serde_json::Value>(text).ok().map(json_from_serde)
}

/// Reads a `serde_json::Value` as a `JsonValue`, variant for variant; an
/// object's map is read in its own iteration order.
#[verifier::external_body]
fn json_from_serde(v: serde_json::Value) -> JsonValue {
    match v {
        serde_json::Value::Null => JsonValue::Null,
        serde_json::Value::Bool(b) => JsonValue::Bool(b),
        serde_json::Value::Number(_) => JsonValue::Number,
        serde_json::Value::String(s) => JsonValue::String(s),
        serde_json::Value::Array(a) => JsonValue::Array(a.into_iter().map(json_from_serde).collect()),
        serde_json::Value::Object(m) => JsonValue::Object(
            m.into_iter().map(|(k, x)| (k, json_from_serde(x))).collect(),
        ),
    }
}

/// The value under `key` among object entries: the first entry with that key.
pub open spec fn entry_lookup(entries: Seq<(String, JsonValue)>, key: Seq<char>) -> Option<
    JsonValue,
>
    decreases entries.len(),
{
    if entries.len() == 0 {
        None
    } else if entries[0].0@ == key {
        Some(entries[0].1)
    } else {
        entry_lookup(entries.drop_first(), key)
    }
}

/// The member `key` of an object (`Value::get` with a string key); `None`
/// for anything but an object.
pub open spec fn json_get(v: JsonValue, key: Seq<char>) -> Option<JsonValue> {
    match v {
        JsonValue::Object(entries) => entry_lookup(entries@, key),
        _ => None,
    }
}

/// The text of a member that is a JSON string.
pub open spec fn json_get_str(v: JsonValue, key: Seq<char>) -> Option<Seq<char>> {
    match json_get(v, key) {
        Some(JsonValue::String(s)) => Some(s@),
        _ => None,
    }
}

/// Executable `json_get`.
pub fn get<'a>(v: &'a JsonValue, key: &str) -> (r: Option<&'a JsonValue>)
    ensures
        match r {
            Some(x) => json_get(*v, key@) == Some(*x),
            None => json_get(*v, key@) is None,
        },
{
    match v {
        JsonValue::Object(entries) => {
            let k = crate::text::string_of_str(key);
            let mut i: usize = 0;
            assert(entries@.skip(0) =~= entries@);
            assert(json_get(*v, key@) == entry_lookup(entries@, key@));
            while i < entries.len()
                invariant
                    0 <= i <= entries@.len(),
                    k@ == key@,
                    json_get(*v, key@) == entry_lookup(entries@, key@),
                    entry_lookup(entries@, key@) == entry_lookup(entries@.skip(i as int), key@),
                decreases entries@.len() - i,
            {
                proof {
                    assert(entries@.skip(i as int)[0] == entries@[i as int]);
                    assert(entries@.skip(i as int).drop_first() =~= entries@.skip(i + 1));
                }
                if entries[i].0 == k {
                    assert(entries@[i as int].0@ == key@);
                    assert(entry_lookup(entries@.skip(i as int), key@) == Some(entries@[i as int].1));
                    return Some(&entries[i].1);
                }
                i = i + 1;
            }
            None
        },
        _ => None,
    }
}

/// Executable `json_get_str`.
pub fn get_str<'a>(v: &'a JsonValue, key: &str) -> (r: Option<&'a String>)
    ensures
        match r {
            Some(s) => json_get_str(*v, key@) == Some(s@),
            None => json_get_str(*v, key@) is None,
        },
{
    match get(v, key) {
        Some(JsonValue::String(s)) => Some(s),
        _ => None,
    }
}

/// The (file, category) result that one element of `files` gives: its
/// `file` must be a string; a missing or non-string `category` reads as "".
pub open spec fn search_hit(f: JsonValue) -> Option<(Seq<char>, Seq<char>)> {
    match json_get_str(f, "file"@) {
        Some(file) => Some(
            (
                file,
                match json_get_str(f, "category"@) {
                    Some(c) => c,
                    None => Seq::<char>::empty(),
                },
            ),
        ),
        None => None,
    }
}

/// The results of all elements, or `None` when one of them has none.
pub open spec fn search_hits(files: Seq<JsonValue>) -> Option<Seq<(Seq<char>, Seq<char>)>>
    decreases files.len(),
{
    if files.len() == 0 {
        Some(Seq::<(Seq<char>, Seq<char>)>::empty())
    } else {
        match (search_hits(files.drop_last()), search_hit(files.last())) {
            (Some(h), Some(x)) => Some(h.push(x)),
            _ => None,
        }
    }
}

/// The results that a search reply holds: `status` must be the string
/// `"ok"`, `files` an array whose elements all give a result, and there
/// must be at least one.
pub open spec fn search_results(v: JsonValue) -> Option<Seq<(Seq<char>, Seq<char>)>> {
    if json_get_str(v, "status"@) == Some("ok"@) {
        match json_get(v, "files"@) {
            Some(JsonValue::Array(files)) => match search_hits(files@) {
                Some(h) => if h.len() > 0 {
                    Some(h)
                } else {
                    None
                },
                None => None,
            },
            _ => None,
        }
    } else {
        None
    }
}

/// Reads the (file, category) results out of a search reply.
pub fn search_results_of(v: &JsonValue) -> (r: Option<Vec<(String, String)>>)
    ensures
        match r {
            Some(h) => search_results(*v) == Some(task_views(h@)),
            None => search_results(*v) is None,
        },
{
    match get_str(v, "status") {
        Some(s) => {
            if !(*s == crate::text::string_of_str("ok")) {
                return None;
            }
        },
        None => {
            return None;
        },
    }
    assert(json_get_str(*v, "status"@) == Some("ok"@));
    let fv = get(v, "files");
    let files = match fv {
        Some(x) => match x {
            JsonValue::Array(files) => {
                assert(json_get(*v, "files"@) == Some(JsonValue::Array(*files)));
                files
            },
            _ => {
                return None;
            },
        },
        None => {
            return None;
        },
    };
    let mut r: Vec<(String, String)> = Vec::new();
    let mut i: usize = 0;
    while i < files.len()
        invariant
            0 <= i <= files@.len(),
            json_get_str(*v, "status"@) == Some("ok"@),
            json_get(*v, "files"@) == Some(JsonValue::Array(*files)),
            search_hits(files@.take(i as int)) == Some(task_views(r@)),
        decreases files@.len() - i,
    {
        proof {
            assert(files@.take(i + 1).drop_last() =~= files@.take(i as int));
            assert(files@.take(i + 1).last() == files@[i as int]);
        }
        let f = &files[i];
        let file = match get_str(f, "file") {
            Some(x) => crate::text::string_of_str(x.as_str()),
            None => {
                assert(search_hits(files@.take(i + 1)) is None);
                proof {
                    lemma_search_hits_none_extends(files@, i as int + 1);
                    assert(search_hits(files@) is None);
                    assert(json_get(*v, "files"@) == Some(JsonValue::Array(*files)));
                    assert(search_results(*v) is None);
                }
                return None;
            },
        };
        let category = match get_str(f, "category") {
            Some(c) => crate::text::string_of_str(c.as_str()),
            None => String::new(),
        };
        let ghost prev = r@;
        r.push((file, category));
        assert(task_views(r@) =~= task_views(prev).push((file@, category@)));
        i = i + 1;
    }
    assert(files@.take(files@.len() as int) =~= files@);
    if r.len() == 0 {
        return None;
    }
    Some(r)
}

/// Once a prefix of the elements has no results, the whole has none.
proof fn lemma_search_hits_none_extends(files: Seq<JsonValue>, k: int)
    requires
        0 <= k <= files.len(),
        search_hits(files.take(k)) is None,
    ensures
        search_hits(files) is None,
    decreases files.len() - k,
{
    if k < files.len() {
        assert(files.take(k + 1).drop_last() =~= files.take(k));
        lemma_search_hits_none_extends(files, k + 1);
    } else {
        assert(files.take(k) =~= files);
    }
}

/// The (file, category) results of the semantic search's reply, or `None`
/// when the reply is not JSON or holds none.
pub fn parse_search_output(stdout: &str) -> (r: Option<Vec<(String, String)>>)
    ensures
        match r {
            Some(h) => spec_parse_json(stdout@) matches Some(v) && search_results(v) == Some(
                task_views(h@),
            ),
            None => match spec_parse_json(stdout@) {
                Some(v) => search_results(v) is None,
                None => true,
            },
        },
{
    match parse_json(stdout) {
        Some(v) => search_results_of(&v),
        None => None,
    }
}

} // verus!
