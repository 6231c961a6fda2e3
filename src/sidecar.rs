//! The sidecar store's encoding: a sidecar record is a flat JSON object of
//! string values, pretty-printed.
use vstd::prelude::*;

use crate::error::BackendError;
use crate::record::{map_of, sorted_keys, Record};

verus! {

#[verifier::external_type_specification]
#[verifier::external_body]
pub struct ExJsonError(serde_json::Error);

/// The mapping that the JSON text `text` holds, when it is an object whose
/// values are all strings; `None` for any other text.
pub uninterp spec fn json_string_object(text: Seq<char>) -> Option<Map<Seq<char>, Seq<char>>>;

/// The pretty-printed JSON object that holds the mapping `record`.
pub uninterp spec fn pretty_json_object(record: Map<Seq<char>, Seq<char>>) -> Seq<char>;

/// Relies on `serde_json::from_str` into a `BTreeMap<String, String>`: it
/// succeeds exactly on JSON objects of string values, and the map's pairs come
/// out with each key once.
#[verifier::external_body]
fn parse_string_object(text: &str) -> (r: Option<Vec<(String, String)>>)
    ensures
        r is Some <==> json_string_object(text@) is Some,
        r matches Some(v) ==> {
            let m = json_string_object(text@)->Some_0;
            &&& forall|i: int, j: int| 0 <= i < j < v@.len() ==> #[trigger] v@[i].0@ != #[trigger] v@[j].0@
            &&& forall|i: int| 0 <= i < v@.len() ==> #[trigger] m.contains_key(v@[i].0@) && m[v@[i].0@] == v@[i].1@
            &&& forall|k: Seq<char>| #[trigger] m.contains_key(k) ==> exists|i: int| 0 <= i < v@.len() && v@[i].0@ == k
        },
{
    serde_json::from_str::<std::collections::BTreeMap<String, String>>(text).ok().map(
        |m| m.into_iter().collect(),
    )
}

/// Relies on `serde_json::to_string_pretty` on a `BTreeMap`: the text depends
/// on the mapping alone; it fails only for a failing `Serialize` impl or a map
/// with non-string keys, neither of which a map of strings has; and
/// `serde_json::from_str` reads every escaped string back as it was.
#[verifier::external_body]
fn to_pretty_object(pairs: &Vec<(String, String)>) -> (r: Result<String, serde_json::Error>)
    requires
        sorted_keys(pairs@),
    ensures
        r is Ok,
        r matches Ok(t) ==> t@ == pretty_json_object(map_of(pairs@)),
        r matches Ok(t) ==> json_string_object(t@) == Some(map_of(pairs@)),
{
    let m: std::collections::BTreeMap<&String, &String> = pairs.iter().map(|p| (&p.0, &p.1)).collect();
    serde_json::to_string_pretty(&m)
}

/// The record that a sidecar's content stands for: what it parses to, and
/// the empty record when it is absent or does not parse.
pub open spec fn sidecar_record_of(content: Option<Seq<char>>) -> Map<Seq<char>, Seq<char>> {
    match content {
        Some(t) => match json_string_object(t) {
            Some(m) => m,
            None => Map::empty(),
        },
        None => Map::empty(),
    }
}

pub open spec fn content_view(content: Option<String>) -> Option<Seq<char>> {
    match content {
        Some(t) => Some(t@),
        None => None,
    }
}

/// The record held in a sidecar's content (`None` when it could not be read).
pub fn load_sidecar_map(content: Option<String>) -> (r: Record)
    ensures
        r.wf(),
        r@ == sidecar_record_of(content_view(content)),
{
    let mut rec = Record::new();
    let text = match content {
        Some(t) => t,
        None => return rec,
    };
    let pairs = match parse_string_object(text.as_str()) {
        Some(v) => v,
        None => return rec,
    };
    let ghost m = json_string_object(text@)->Some_0;
    let n = pairs.len();
    let mut i: usize = 0;
    while i < n
        invariant
            n == pairs@.len(),
            i <= n,
            rec.wf(),
            forall|a: int, b: int| 0 <= a < b < pairs@.len() ==> #[trigger] pairs@[a].0@ != #[trigger] pairs@[b].0@,
            forall|j: int| 0 <= j < i ==> #[trigger] rec@.contains_key(pairs@[j].0@) && rec@[pairs@[j].0@] == pairs@[j].1@,
            forall|k: Seq<char>| #[trigger] rec@.contains_key(k) ==> exists|j: int| 0 <= j < i && pairs@[j].0@ == k,
        decreases n - i,
    {
        let ghost before = rec@;
        rec.insert(pairs[i].0.clone(), pairs[i].1.clone());
        proof {
            assert forall|j: int| 0 <= j < i + 1 implies #[trigger] rec@.contains_key(pairs@[j].0@) && rec@[pairs@[j].0@] == pairs@[j].1@ by {
                if j < i {
                    assert(pairs@[j].0@ != pairs@[i as int].0@);
                }
            }
            assert forall|k: Seq<char>| #[trigger] rec@.contains_key(k) implies exists|j: int| 0 <= j < i + 1 && pairs@[j].0@ == k by {
                if k != pairs@[i as int].0@ {
                    assert(before.contains_key(k));
                }
            }
        }
        i = i + 1;
    }
    proof {
        assert forall|k: Seq<char>| #[trigger] rec@.contains_key(k) == m.contains_key(k) by {
            if m.contains_key(k) {
                let j = choose|j: int| 0 <= j < pairs@.len() && pairs@[j].0@ == k;
                assert(rec@.contains_key(pairs@[j].0@));
            }
        }
        assert forall|k: Seq<char>| #[trigger] rec@.contains_key(k) implies rec@[k] == m[k] by {
            let j = choose|j: int| 0 <= j < i && pairs@[j].0@ == k;
            assert(m.contains_key(pairs@[j].0@));
        }
        assert(rec@ =~= m);
    }
    rec
}

/// The content to store in a sidecar for `record`.
pub fn write_sidecar_map(record: &Record) -> (r: Result<String, BackendError>)
    requires
        record.wf(),
    ensures
        r matches Ok(t) && t@ == pretty_json_object(record@),
        r matches Ok(t) ==> json_string_object(t@) == Some(record@),
{
    match to_pretty_object(record.pairs()) {
        Ok(t) => Ok(t),
        Err(_) => Err(BackendError::Io(String::from_str("sidecar record could not be encoded"))),
    }
}

} // verus!
