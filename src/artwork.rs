//! The artwork resolver: the ordered candidate paths for a track's cover
//! image, and the choice of the first one that is a regular file.
use vstd::prelude::*;

use crate::error::BackendError;
use crate::paths::{dir_prefix, dir_prefix_of, file_stem, stem_of};
use crate::scanner::texts_of;
use crate::sidecar::{content_view, load_sidecar_map, sidecar_record_of};

verus! {

/// The candidates named after the track and the generic cover names, all
/// in the track's directory.
pub open spec fn convention_candidates(p: Seq<char>) -> Seq<Seq<char>> {
    let d = dir_prefix_of(p);
    match stem_of(p) {
        Some(st) => seq![
            d + st + ".jpg"@,
            d + st + ".jpeg"@,
            d + st + ".png"@,
            d + "cover.jpg"@,
            d + "cover.jpeg"@,
            d + "cover.png"@,
        ],
        None => Seq::empty(),
    }
}

/// The artwork candidates of the track at `p` with sidecar record `sidecar`:
/// an explicit `artwork_path` first, then the conventions.
pub open spec fn candidates_of(p: Seq<char>, sidecar: Map<Seq<char>, Seq<char>>) -> Seq<Seq<char>> {
    if sidecar.contains_key("artwork_path"@) {
        seq![sidecar["artwork_path"@]] + convention_candidates(p)
    } else {
        convention_candidates(p)
    }
}

fn join3(a: &str, b: &str, c: &str) -> (r: String)
    ensures
        r@ == a@ + b@ + c@,
{
    String::from_str(a).concat(b).concat(c)
}

/// The artwork candidates of the track at `audio_path`, given the content of
/// its sidecar (`None` when it could not be read), highest priority first.
pub fn candidate_artwork_paths(audio_path: &str, sidecar_content: Option<String>) -> (r: Vec<String>)
    ensures
        texts_of(r@) == candidates_of(audio_path@, sidecar_record_of(content_view(sidecar_content))),
{
    let mut paths: Vec<String> = Vec::new();
    match file_stem(audio_path) {
        Some(stem) => {
            let d = dir_prefix(audio_path);
            let st = stem.as_str();
            paths.push(join3(d.as_str(), st, ".jpg"));
            paths.push(join3(d.as_str(), st, ".jpeg"));
            paths.push(join3(d.as_str(), st, ".png"));
            paths.push(join3(d.as_str(), "", "cover.jpg"));
            paths.push(join3(d.as_str(), "", "cover.jpeg"));
            paths.push(join3(d.as_str(), "", "cover.png"));
            proof {
                reveal_strlit("");
            }
        },
        None => {},
    }
    assert(texts_of(paths@) =~= convention_candidates(audio_path@));
    let record = load_sidecar_map(sidecar_content);
    match record.get("artwork_path") {
        Some(explicit) => {
            paths.insert(0, explicit.clone());
            assert(texts_of(paths@) =~= seq![explicit@] + convention_candidates(audio_path@));
        },
        None => {},
    }
    paths
}

/// Which artwork to read for the track at `path`: the first of `candidates`
/// that is a regular file (`is_file` tells, one flag per candidate), or
/// `None` when none is.
pub fn extract_artwork(path: &str, track_exists: bool, candidates: &Vec<String>, is_file: &Vec<bool>) -> (r:
    Result<Option<String>, BackendError>)
    requires
        candidates@.len() == is_file@.len(),
    ensures
        !track_exists ==> (r matches Err(BackendError::NotFound(p)) && p@ == path@),
        track_exists ==> (r matches Ok(o) && match o {
            Some(c) => exists|i: int| 0 <= i < is_file@.len() && is_file@[i] && c@ == candidates@[i]@
                && forall|j: int| 0 <= j < i ==> !#[trigger] is_file@[j],
            None => forall|j: int| 0 <= j < is_file@.len() ==> !#[trigger] is_file@[j],
        }),
{
    if !track_exists {
        return Err(BackendError::NotFound(String::from_str(path)));
    }
    let n = candidates.len();
    let mut i: usize = 0;
    while i < n
        invariant
            n == candidates@.len(),
            n == is_file@.len(),
            track_exists,
            i <= n,
            forall|j: int| 0 <= j < i ==> !#[trigger] is_file@[j],
        decreases n - i,
    {
        if is_file[i] {
            return Ok(Some(candidates[i].clone()));
        }
        i = i + 1;
    }
    Ok(None)
}

} // verus!
