//! Trusted declarations around serde_json.
//!
//! The collector reads one shape of JSON: a top-level object mapping card
//! keys to objects of byte-count fields.  serde_json's parse and lookups are
//! functions of the document text and the keys alone, so the outcome of the
//! whole lookup chain is given a name per reading (field present; its text,
//! if it is a string; its number, if it is an integral number), and one
//! trusted wrapper performs the chain and states its result over those
//! names.  What the collector then does with the values is verified.

use vstd::prelude::*;

verus! {

/// Whether the JSON document parses, holds the card key at top level, and
/// holds the field key under it.  A name for the deterministic outcome of
/// serde_json::from_str followed by two Value::get lookups.
pub uninterp spec fn json_has_field(doc: Seq<char>, card: Seq<char>, field: Seq<char>) -> bool;

/// The text of that field when it is a JSON string (Value::as_str), `None`
/// otherwise or when the field is absent.
pub uninterp spec fn json_str_field(doc: Seq<char>, card: Seq<char>, field: Seq<char>) -> Option<
    Seq<char>,
>;

/// The number of that field when it is an integral JSON number fitting u64
/// (Value::as_u64), `None` otherwise or when the field is absent.
pub uninterp spec fn json_u64_field(doc: Seq<char>, card: Seq<char>, field: Seq<char>) -> Option<
    u64,
>;

/// Relies on serde_json::from_str::<Value>, Value::get, Value::as_str and
/// Value::as_u64: each is a function of its arguments alone, so the triple
/// returned here is a function of the document and the two keys, named by
/// the spec functions above.  An empty document does not parse, hence holds
/// no field.
#[verifier::external_body]
pub(crate) fn json_field_lookup(doc: &str, card: &str, field: &str) -> (r: (
    bool,
    Option<String>,
    Option<u64>,
))
    ensures
        r.0 == json_has_field(doc@, card@, field@),
        (match r.1 {
            Some(s) => json_str_field(doc@, card@, field@) == Some(s@),
            None => json_str_field(doc@, card@, field@) is None,
        }),
        r.2 == json_u64_field(doc@, card@, field@),
        doc@.len() == 0 ==> !r.0,
{
    let v: serde_json::Value = match serde_json::from_str(doc) {
        Ok(v) => v,
        Err(_) => return (false, None, None),
    };
    let c = match v.get(card) {
        Some(c) => c,
        None => return (false, None, None),
    };
    match c.get(field) {
        Some(f) => (true, f.as_str().map(|s| s.to_string()), f.as_u64()),
        None => (false, None, None),
    }
}

} // verus!
