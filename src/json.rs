//! The fetched document's JSON, as the library reads it.
use vstd::prelude::*;
use crate::extract::strings_view;
use crate::text::{has_prefix, starts_with};

verus! {

/// A JSON value. Object keys are unique.
pub enum JsonValue {
    Null,
    Bool(bool),
    /// A number, in its JSON text.
    Number(String),
    Str(String),
    Array(Vec<JsonValue>),
    Object(Vec<(String, JsonValue)>),
}

/// The value under the first entry named `key`, from the `k`-th entry on.
pub open spec fn entry_from(entries: Seq<(String, JsonValue)>, key: Seq<char>, k: int) -> Option<
    JsonValue,
>
    decreases entries.len() - k,
{
    if k < 0 || k >= entries.len() {
        None
    } else if entries[k].0@ == key {
        Some(entries[k].1)
    } else {
        entry_from(entries, key, k + 1)
    }
}

/// The field `key` of an object; nothing for another kind of value.
pub open spec fn field(v: JsonValue, key: Seq<char>) -> Option<JsonValue> {
    match v {
        JsonValue::Object(entries) => entry_from(entries@, key, 0),
        _ => None,
    }
}

/// The strings among `items`, in order; other items are passed over.
pub open spec fn string_items(items: Seq<JsonValue>) -> Seq<Seq<char>>
    decreases items.len(),
{
    if items.len() == 0 {
        seq![]
    } else {
        let rest = string_items(items.drop_last());
        match items.last() {
            JsonValue::Str(s) => rest.push(s@),
            _ => rest,
        }
    }
}

/// The base64 payloads a document response carries: its top-level
/// `binaries` array; else a PDF payload in `document.data`; else a non-empty
/// `document.binaries` array.
pub open spec fn binaries_of(v: JsonValue) -> Option<Seq<Seq<char>>> {
    match field(v, "binaries"@) {
        Some(JsonValue::Array(items)) => Some(string_items(items@)),
        _ => match field(v, "document"@) {
            None => None,
            Some(document) => match field(document, "data"@) {
                Some(JsonValue::Str(d)) if starts_with(d@, "application/pdf;base64,"@)
                    || starts_with(d@, "data:application/pdf;base64,"@) => Some(
                    seq![
                        if starts_with(d@, "data:"@) {
                            d@
                        } else {
                            "data:"@ + d@
                        },
                    ],
                ),
                _ => match field(document, "binaries"@) {
                    Some(JsonValue::Array(items)) if string_items(items@).len() > 0 => Some(
                        string_items(items@),
                    ),
                    _ => None,
                },
            },
        },
    }
}

/// The part of a document response shown as its metadata: its `data` object,
/// else the whole response.
pub open spec fn metadata_part(v: JsonValue) -> JsonValue {
    match field(v, "data"@) {
        Some(JsonValue::Object(entries)) => JsonValue::Object(entries),
        _ => v,
    }
}

/// The field `key` of an object; `None` for another kind of value or a
/// missing key.
pub fn get_field<'a>(v: &'a JsonValue, key: &str) -> (r: Option<&'a JsonValue>)
    ensures
        match r {
            Some(x) => field(*v, key@) == Some(*x),
            None => field(*v, key@) is None,
        },
{
    match v {
        JsonValue::Object(entries) => {
            let k_text = String::from_str(key);
            let mut k: usize = 0;
            while k < entries.len()
                invariant
                    *v == JsonValue::Object(*entries),
                    k <= entries@.len(),
                    k_text@ == key@,
                    entry_from(entries@, key@, k as int) == entry_from(entries@, key@, 0),
                decreases entries@.len() - k,
            {
                let entry = &entries[k];
                if entry.0 == k_text {
                    return Some(&entry.1);
                }
                k = k + 1;
            }
            None
        },
        _ => None,
    }
}

/// The strings among `items`, in order.
pub fn strings_among(items: &Vec<JsonValue>) -> (r: Vec<String>)
    ensures
        strings_view(r@) == string_items(items@),
{
    let mut out: Vec<String> = Vec::new();
    let mut i: usize = 0;
    while i < items.len()
        invariant
            i <= items@.len(),
            strings_view(out@) == string_items(items@.take(i as int)),
        decreases items@.len() - i,
    {
        assert(items@.take(i + 1).drop_last() =~= items@.take(i as int));
        match &items[i] {
            JsonValue::Str(s) => {
                let c = s.clone();
                assert(strings_view(out@.push(c)) =~= strings_view(out@).push(c@));
                out.push(c);
            },
            _ => {},
        }
        i = i + 1;
    }
    assert(items@.take(items@.len() as int) =~= items@);
    out
}

/// The base64 payloads of a document response (see `binaries_of`).
pub fn find_binaries(v: &JsonValue) -> (r: Option<Vec<String>>)
    ensures
        match r {
            Some(b) => binaries_of(*v) == Some(strings_view(b@)),
            None => binaries_of(*v) is None,
        },
{
    if let Some(JsonValue::Array(items)) = get_field(v, "binaries") {
        return Some(strings_among(items));
    }
    let document = match get_field(v, "document") {
        Some(d) => d,
        None => {
            return None;
        },
    };
    if let Some(JsonValue::Str(d)) = get_field(document, "data") {
        if has_prefix(d.as_str(), "application/pdf;base64,") || has_prefix(
            d.as_str(),
            "data:application/pdf;base64,",
        ) {
            let payload = if has_prefix(d.as_str(), "data:") {
                d.clone()
            } else {
                let mut p = String::from_str("data:");
                p.append(d.as_str());
                p
            };
            let mut out: Vec<String> = Vec::new();
            out.push(payload);
            assert(strings_view(out@) =~= seq![payload@]);
            return Some(out);
        }
    }
    if let Some(JsonValue::Array(items)) = get_field(document, "binaries") {
        let found = strings_among(items);
        if found.len() > 0 {
            return Some(found);
        }
    }
    None
}

/// The part of a document response shown as its metadata (see `metadata_part`).
pub fn metadata_of(v: &JsonValue) -> (r: &JsonValue)
    ensures
        *r == metadata_part(*v),
{
    match get_field(v, "data") {
        Some(d) => match d {
            JsonValue::Object(_) => d,
            _ => v,
        },
        None => v,
    }
}

} // verus!
