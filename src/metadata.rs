//! The metadata resolver: the effective metadata of a track (defaults with
//! the sidecar record laid over them), and edits to the sidecar record.
use vstd::prelude::*;

use crate::error::BackendError;
use crate::paths::{file_stem, metadata_sidecar_path, sidecar_path_of, stem_of};
use crate::record::{map_of, sorted_keys, sorted_texts, Record};
use crate::sidecar::{
    content_view, json_string_object, load_sidecar_map, pretty_json_object, sidecar_record_of,
    write_sidecar_map,
};

verus! {

/// The title a track has when its sidecar sets none: its file stem.
pub open spec fn default_title(path: Seq<char>) -> Seq<char> {
    match stem_of(path) {
        Some(s) => s,
        None => Seq::empty(),
    }
}

/// The metadata every existing track has before its sidecar is applied.
pub open spec fn default_view(path: Seq<char>) -> Map<Seq<char>, Seq<char>> {
    map![
        "path"@ => path,
        "title"@ => default_title(path),
        "artist"@ => Seq::empty(),
        "album"@ => Seq::empty(),
        "duration_ms"@ => "0"@,
    ]
}

/// The effective metadata: the defaults, overridden by every sidecar key.
pub open spec fn effective_view(path: Seq<char>, sidecar: Map<Seq<char>, Seq<char>>) -> Map<Seq<char>, Seq<char>> {
    default_view(path).union_prefer_right(sidecar)
}

/// The characters that `char::is_whitespace` accepts (Unicode White_Space).
pub open spec fn is_space(c: char) -> bool {
    ||| c == ' ' || c == '\t' || c == '\n' || c == '\r'
    ||| c == '\u{0B}' || c == '\u{0C}' || c == '\u{85}' || c == '\u{A0}'
    ||| c == '\u{1680}' || ('\u{2000}' <= c && c <= '\u{200A}')
    ||| c == '\u{2028}' || c == '\u{2029}' || c == '\u{202F}' || c == '\u{205F}'
    ||| c == '\u{3000}'
}

/// A value that is empty or consists only of whitespace.
pub open spec fn is_blank(v: Seq<char>) -> bool {
    forall|i: int| 0 <= i < v.len() ==> is_space(#[trigger] v[i])
}

/// The record after `changes`: a blank value removes its key, any other
/// value sets it.
pub open spec fn apply_changes(
    record: Map<Seq<char>, Seq<char>>,
    changes: Map<Seq<char>, Seq<char>>,
) -> Map<Seq<char>, Seq<char>> {
    Map::new(
        |k: Seq<char>|
            if changes.contains_key(k) {
                !is_blank(changes[k])
            } else {
                record.contains_key(k)
            },
        |k: Seq<char>|
            if changes.contains_key(k) {
                changes[k]
            } else {
                record[k]
            },
    )
}

fn is_space_char(c: char) -> (r: bool)
    ensures
        r == is_space(c),
{
    c == ' ' || c == '\t' || c == '\n' || c == '\r' || c == '\u{0B}' || c == '\u{0C}'
        || c == '\u{85}' || c == '\u{A0}' || c == '\u{1680}' || ('\u{2000}' <= c && c <= '\u{200A}')
        || c == '\u{2028}' || c == '\u{2029}' || c == '\u{202F}' || c == '\u{205F}'
        || c == '\u{3000}'
}

/// Whether `v` is empty or only whitespace.
pub fn is_blank_value(v: &str) -> (r: bool)
    ensures
        r == is_blank(v@),
{
    let n = v.unicode_len();
    let mut i: usize = 0;
    while i < n
        invariant
            n == v@.len(),
            i <= n,
            forall|j: int| 0 <= j < i ==> is_space(#[trigger] v@[j]),
        decreases n - i,
    {
        if !is_space_char(v.get_char(i)) {
            return false;
        }
        i = i + 1;
    }
    true
}

/// Sets `key` to `value` unless the record has it already.
fn insert_default(record: &mut Record, key: &str, value: String)
    requires
        old(record).wf(),
    ensures
        final(record).wf(),
        final(record)@ == if old(record)@.contains_key(key@) {
            old(record)@
        } else {
            old(record)@.insert(key@, value@)
        },
{
    if !record.contains_key(key) {
        record.insert(String::from_str(key), value);
    }
}

/// The effective metadata of the track at `path`, given whether it exists
/// and the content of its sidecar (`None` when that could not be read).
pub fn read_metadata(path: &str, track_exists: bool, sidecar_content: Option<String>) -> (r: Result<Record, BackendError>)
    ensures
        track_exists ==> (r matches Ok(v) && v.wf()
            && v@ == effective_view(path@, sidecar_record_of(content_view(sidecar_content)))),
        !track_exists ==> (r matches Err(BackendError::NotFound(p)) && p@ == path@),
{
    if !track_exists {
        return Err(BackendError::NotFound(String::from_str(path)));
    }
    let ghost side = sidecar_record_of(content_view(sidecar_content));
    let mut v = load_sidecar_map(sidecar_content);
    let title = match file_stem(path) {
        Some(s) => s,
        None => String::new(),
    };
    insert_default(&mut v, "path", String::from_str(path));
    insert_default(&mut v, "title", title);
    insert_default(&mut v, "artist", String::new());
    insert_default(&mut v, "album", String::new());
    insert_default(&mut v, "duration_ms", String::from_str("0"));
    proof {
        lemma_default_keys_distinct();
        assert(v@ =~= effective_view(path@, side));
    }
    Ok(v)
}

/// Rejects a write to a track that does not exist, and a write without changes.
pub fn check_write_request(path: &str, track_exists: bool, changes: &Record) -> (r: Result<(), BackendError>)
    requires
        changes.wf(),
    ensures
        !track_exists ==> (r matches Err(BackendError::NotFound(p)) && p@ == path@),
        track_exists && changes@.dom().len() == 0 ==> (r matches Err(e) && e is Validation),
        track_exists && changes@.dom().len() > 0 ==> r is Ok,
{
    if !track_exists {
        return Err(BackendError::NotFound(String::from_str(path)));
    }
    if changes.len() == 0 {
        return Err(BackendError::Validation(String::from_str("Metadata changes cannot be empty.")));
    }
    Ok(())
}

/// What a metadata edit stores, and where.
pub struct SidecarWrite {
    /// The sidecar path to write.
    pub path: String,
    /// The complete new content of the sidecar.
    pub contents: String,
    /// The keys that were set or removed, in increasing order.
    pub touched: Vec<String>,
}

/// No key of `pairs` before position `i` is `k`.
pub open spec fn untouched(pairs: Seq<(String, String)>, i: int, k: Seq<char>) -> bool {
    forall|j: int| 0 <= j < i ==> #[trigger] pairs[j].0@ != k
}

/// `a` and `b` agree on `k`.
pub open spec fn same_at(a: Map<Seq<char>, Seq<char>>, b: Map<Seq<char>, Seq<char>>, k: Seq<char>) -> bool {
    a.contains_key(k) == b.contains_key(k) && (b.contains_key(k) ==> a[k] == b[k])
}

/// Applies `changes` to `record`: blank values remove their key, others set it.
pub fn merge_changes(record: &mut Record, changes: &Record)
    requires
        old(record).wf(),
        changes.wf(),
    ensures
        final(record).wf(),
        final(record)@ == apply_changes(old(record)@, changes@),
{
    let ghost start = record@;
    let pairs = changes.pairs();
    let n = pairs.len();
    let mut i: usize = 0;
    while i < n
        invariant
            n == pairs@.len(),
            i <= n,
            record.wf(),
            sorted_keys(pairs@),
            map_of(pairs@) == changes@,
            forall|j: int| 0 <= j < i ==> {
                let k = #[trigger] pairs@[j].0@;
                if is_blank(pairs@[j].1@) {
                    !record@.contains_key(k)
                } else {
                    record@.contains_key(k) && record@[k] == pairs@[j].1@
                }
            },
            forall|k: Seq<char>| untouched(pairs@, i as int, k) ==> #[trigger] same_at(record@, start, k),
        decreases n - i,
    {
        let ghost before = record@;
        let key = &pairs[i].0;
        let value = &pairs[i].1;
        proof {
            assert forall|j: int| 0 <= j < i implies #[trigger] pairs@[j].0@ != pairs@[i as int].0@ by {
                crate::text::lemma_text_lt_irreflexive(pairs@[j].0@);
            }
        }
        if is_blank_value(value.as_str()) {
            record.remove(key.as_str());
        } else {
            record.insert(key.clone(), value.clone());
        }
        proof {
            assert forall|k: Seq<char>| untouched(pairs@, i + 1, k) implies #[trigger] same_at(record@, start, k) by {
                assert(pairs@[i as int].0@ != k);
                assert(untouched(pairs@, i as int, k));
                assert(same_at(before, start, k));
            }
        }
        i = i + 1;
    }
    proof {
        let target = apply_changes(start, changes@);
        assert forall|k: Seq<char>| #[trigger] record@.contains_key(k) == target.contains_key(k)
            && (record@.contains_key(k) ==> record@[k] == target[k]) by {
            if changes@.contains_key(k) {
                let j = choose|j: int| crate::record::key_at(pairs@, k, j);
                crate::record::lemma_map_of_at(pairs@, j);
            } else {
                assert forall|j: int| 0 <= j < n implies #[trigger] pairs@[j].0@ != k by {
                    crate::record::lemma_map_of_at(pairs@, j);
                }
                assert(untouched(pairs@, n as int, k));
                assert(same_at(record@, start, k));
            }
        }
        assert(record@ =~= target);
    }
}

/// Plans a metadata edit of the track at `path`: checks the request, lays
/// `changes` over the current sidecar record (from `sidecar_content`, `None`
/// when it could not be read) and encodes the result.
pub fn write_metadata(
    path: &str,
    track_exists: bool,
    changes: &Record,
    sidecar_content: Option<String>,
) -> (r: Result<SidecarWrite, BackendError>)
    requires
        changes.wf(),
    ensures
        !track_exists ==> (r matches Err(BackendError::NotFound(p)) && p@ == path@),
        track_exists && changes@.dom().len() == 0 ==> (r matches Err(e) && e is Validation),
        track_exists && changes@.dom().len() > 0 ==> match r {
            Ok(w) => {
                &&& json_string_object(w.contents@) == Some(
                    apply_changes(sidecar_record_of(content_view(sidecar_content)), changes@),
                )
                &&& w.path@ == sidecar_path_of(path@)
                &&& w.contents@ == pretty_json_object(
                    apply_changes(sidecar_record_of(content_view(sidecar_content)), changes@),
                )
                &&& sorted_texts(w.touched@.map_values(|k: String| k@))
                &&& w.touched@.map_values(|k: String| k@).to_set() == changes@.dom()
            },
            Err(_) => false,
        },
{
    match check_write_request(path, track_exists, changes) {
        Ok(()) => {},
        Err(e) => return Err(e),
    }
    let mut merged = load_sidecar_map(sidecar_content);
    merge_changes(&mut merged, changes);
    let contents = match write_sidecar_map(&merged) {
        Ok(t) => t,
        Err(e) => return Err(e),
    };
    Ok(SidecarWrite { path: metadata_sidecar_path(path), contents, touched: changes.keys() })
}

} // verus!

verus! {

/// The title of a track is its sidecar's `title` when the sidecar has one,
/// and the track's file stem otherwise.
pub proof fn lemma_title_from_sidecar_or_stem(path: Seq<char>, sidecar: Map<Seq<char>, Seq<char>>)
    ensures
        effective_view(path, sidecar).contains_key("title"@),
        sidecar.contains_key("title"@) ==> effective_view(path, sidecar)["title"@] == sidecar["title"@],
        !sidecar.contains_key("title"@) ==> effective_view(path, sidecar)["title"@] == default_title(path),
{
    lemma_default_keys_distinct();
}

/// The five default keys are five different keys.
proof fn lemma_default_keys_distinct()
    ensures
        "path"@ != "title"@ && "path"@ != "artist"@ && "path"@ != "album"@ && "path"@ != "duration_ms"@,
        "title"@ != "artist"@ && "title"@ != "album"@ && "title"@ != "duration_ms"@,
        "artist"@ != "album"@ && "artist"@ != "duration_ms"@ && "album"@ != "duration_ms"@,
{
    reveal_strlit("path");
    reveal_strlit("title");
    reveal_strlit("artist");
    reveal_strlit("album");
    reveal_strlit("duration_ms");
    assert("path"@[0] == 'p' && "title"@[0] == 't' && "artist"@[1] == 'r');
    assert("album"@[1] == 'l' && "duration_ms"@[0] == 'd' && "artist"@[0] == 'a' && "album"@[0] == 'a');
}

/// A change whose value is blank leaves its key out of the new record.
pub proof fn lemma_blank_change_removes_key(
    record: Map<Seq<char>, Seq<char>>,
    changes: Map<Seq<char>, Seq<char>>,
    key: Seq<char>,
)
    requires
        changes.contains_key(key),
        is_blank(changes[key]),
    ensures
        !apply_changes(record, changes).contains_key(key),
{
}

/// Setting a key to a non-blank value makes it the key's effective value;
/// setting it to the empty value afterwards takes it out of the record and
/// brings the default back.
pub proof fn lemma_set_then_clear(
    path: Seq<char>,
    record: Map<Seq<char>, Seq<char>>,
    key: Seq<char>,
    value: Seq<char>,
)
    requires
        !is_blank(value),
    ensures
        ({
            let set = apply_changes(record, map![key => value]);
            let cleared = apply_changes(set, map![key => Seq::<char>::empty()]);
            &&& set.contains_key(key) && set[key] == value
            &&& effective_view(path, set)[key] == value
            &&& !cleared.contains_key(key)
            &&& effective_view(path, cleared).contains_key(key) == default_view(path).contains_key(key)
            &&& default_view(path).contains_key(key) ==> effective_view(path, cleared)[key] == default_view(path)[key]
        }),
{
    let set = apply_changes(record, map![key => value]);
    assert(map![key => value].contains_key(key));
    assert(set.contains_key(key));
    let e: Seq<char> = Seq::empty();
    assert(is_blank(e));
    assert(map![key => e].contains_key(key));
}

} // verus!

verus! {

/// Reading a track back after a write: when the stored sidecar text holds the
/// record that `changes` made of `before`, a blank change leaves its key out
/// of the stored record and the key's effective value is its default again,
/// and any other change is the key's effective value.
pub proof fn lemma_read_after_write(
    path: Seq<char>,
    before: Map<Seq<char>, Seq<char>>,
    changes: Map<Seq<char>, Seq<char>>,
    written: Seq<char>,
    key: Seq<char>,
)
    requires
        json_string_object(written) == Some(apply_changes(before, changes)),
        changes.contains_key(key),
    ensures
        sidecar_record_of(Some(written)) == apply_changes(before, changes),
        is_blank(changes[key]) ==> !sidecar_record_of(Some(written)).contains_key(key),
        is_blank(changes[key]) ==> effective_view(path, sidecar_record_of(Some(written))).contains_key(key)
            == default_view(path).contains_key(key),
        is_blank(changes[key]) && default_view(path).contains_key(key) ==> effective_view(
            path,
            sidecar_record_of(Some(written)),
        )[key] == default_view(path)[key],
        !is_blank(changes[key]) ==> effective_view(path, sidecar_record_of(Some(written)))[key] == changes[key],
{
}

} // verus!
