//! The library scanner's rules: which files are audio files, and how the
//! files found under the roots become the track list.
use vstd::prelude::*;

use crate::error::BackendError;
use crate::paths::{extension, extension_of};
use crate::record::sorted_texts;
use crate::text::{compare_text, lemma_text_lt_transitive, text_lt};

verus! {

/// `c` lower-cased by ASCII rules is `d`.
pub open spec fn lower_is(c: char, d: char) -> bool {
    if 'A' <= c && c <= 'Z' {
        (c as int) + 32 == (d as int)
    } else {
        c == d
    }
}

/// `e`, lower-cased by ASCII rules, is `lit`.
pub open spec fn lower_matches(e: Seq<char>, lit: Seq<char>) -> bool {
    e.len() == lit.len() && forall|i: int| 0 <= i < e.len() ==> lower_is(#[trigger] e[i], lit[i])
}

/// The recognised audio extensions, compared without regard to ASCII case.
pub open spec fn is_audio_extension(e: Seq<char>) -> bool {
    ||| lower_matches(e, "mp3"@) || lower_matches(e, "m4a"@) || lower_matches(e, "flac"@)
    ||| lower_matches(e, "wav"@) || lower_matches(e, "ogg"@) || lower_matches(e, "aac"@)
    ||| lower_matches(e, "opus"@) || lower_matches(e, "aiff"@) || lower_matches(e, "wma"@)
}

pub open spec fn is_audio_path(p: Seq<char>) -> bool {
    match extension_of(p) {
        Some(e) => is_audio_extension(e),
        None => false,
    }
}

/// The distinct audio paths among `found`.
pub open spec fn audio_paths(found: Seq<String>) -> Set<Seq<char>> {
    found.map_values(|f: String| f@).to_set().filter(|p: Seq<char>| is_audio_path(p))
}

fn lower_matches_text(e: &str, lit: &str) -> (r: bool)
    ensures
        r == lower_matches(e@, lit@),
{
    let n = e.unicode_len();
    if n != lit.unicode_len() {
        return false;
    }
    let mut i: usize = 0;
    while i < n
        invariant
            n == e@.len(),
            n == lit@.len(),
            i <= n,
            forall|j: int| 0 <= j < i ==> lower_is(#[trigger] e@[j], lit@[j]),
        decreases n - i,
    {
        let c = e.get_char(i);
        let d = lit.get_char(i);
        let ok = if 'A' <= c && c <= 'Z' {
            (c as u32) + 32 == (d as u32)
        } else {
            c == d
        };
        if !ok {
            return false;
        }
        i = i + 1;
    }
    true
}

/// Whether `path` names an audio file, by its extension.
pub fn is_audio_file(path: &str) -> (r: bool)
    ensures
        r == is_audio_path(path@),
{
    match extension(path) {
        None => false,
        Some(e) => {
            let e = e.as_str();
            lower_matches_text(e, "mp3") || lower_matches_text(e, "m4a") || lower_matches_text(e, "flac")
                || lower_matches_text(e, "wav") || lower_matches_text(e, "ogg") || lower_matches_text(e, "aac")
                || lower_matches_text(e, "opus") || lower_matches_text(e, "aiff") || lower_matches_text(e, "wma")
        },
    }
}

pub open spec fn texts_of(v: Seq<String>) -> Seq<Seq<char>> {
    v.map_values(|s: String| s@)
}

/// Puts `s` into the strictly increasing `v`, unless it is there already.
fn insert_sorted(v: &mut Vec<String>, s: String)
    requires
        sorted_texts(texts_of(old(v)@)),
    ensures
        sorted_texts(texts_of(final(v)@)),
        texts_of(final(v)@).to_set() == texts_of(old(v)@).to_set().insert(s@),
{
    let ghost t0 = texts_of(v@);
    let n = v.len();
    let mut i: usize = 0;
    while i < n && compare_text(v[i].as_str(), s.as_str()) < 0
        invariant
            n == v@.len(),
            i <= n,
            t0 == texts_of(v@),
            sorted_texts(t0),
            forall|j: int| 0 <= j < i ==> text_lt(#[trigger] t0[j], s@),
        decreases n - i,
    {
        i = i + 1;
    }
    if i < n && compare_text(v[i].as_str(), s.as_str()) == 0 {
        proof {
            assert(t0[i as int] == s@);
            assert(t0.to_set().insert(s@) =~= t0.to_set());
        }
        return;
    }
    let ghost sv = s@;
    proof {
        assert forall|j: int| i <= j < n implies text_lt(sv, #[trigger] t0[j]) by {
            assert(!text_lt(t0[i as int], sv));
            assert(t0[i as int] != sv);
            crate::text::lemma_text_lt_total(t0[i as int], sv);
            if j > i {
                assert(text_lt(t0[i as int], t0[j]));
                lemma_text_lt_transitive(sv, t0[i as int], t0[j]);
            }
        }
    }
    v.insert(i, s);
    let ghost t1 = texts_of(v@);
    proof {
        assert(t1 =~= t0.insert(i as int, sv));
        assert forall|a: int, b: int| 0 <= a < b < t1.len() implies text_lt(#[trigger] t1[a], #[trigger] t1[b]) by {
            if b < i {
                assert(text_lt(t0[a], t0[b]));
            } else if b == i {
                assert(text_lt(t0[a], sv));
            } else if a < i {
                assert(text_lt(t0[a], sv));
                lemma_text_lt_transitive(t0[a], sv, t0[b - 1]);
            } else if a == i {
                assert(text_lt(sv, t0[b - 1]));
            } else {
                assert(text_lt(t0[a - 1], t0[b - 1]));
            }
        }
        assert forall|x: Seq<char>| #[trigger] t1.to_set().contains(x) == t0.to_set().insert(sv).contains(x) by {
            if t1.to_set().contains(x) {
                let j = choose|j: int| 0 <= j < t1.len() && t1[j] == x;
                if j < i {
                    assert(t0[j] == x);
                } else if j > i {
                    assert(t0[j - 1] == x);
                }
            }
            if t0.to_set().contains(x) {
                let j = choose|j: int| 0 <= j < t0.len() && t0[j] == x;
                if j < i {
                    assert(t1[j] == x);
                } else {
                    assert(t1[j + 1] == x);
                }
            }
            if x == sv {
                assert(t1[i as int] == x);
            }
        }
        assert(t1.to_set() =~= t0.to_set().insert(sv));
    }
}

/// The track list of a scan over `roots`, given the regular files that the
/// roots are or hold (`found`, in any order, repeats allowed): the audio
/// files among them, each once, in increasing order.
pub fn scan_library(roots: &Vec<String>, found: &Vec<String>) -> (r: Result<Vec<String>, BackendError>)
    ensures
        roots@.len() == 0 ==> (r matches Err(e) && e is Validation),
        roots@.len() > 0 ==> r is Ok,
        r matches Ok(v) ==> sorted_texts(texts_of(v@)) && texts_of(v@).to_set() == audio_paths(found@),
{
    if roots.len() == 0 {
        return Err(BackendError::Validation(String::from_str("At least one scan path is required.")));
    }
    let mut out: Vec<String> = Vec::new();
    let n = found.len();
    let mut i: usize = 0;
    let ghost fv = texts_of(found@);
    assert(texts_of(out@).to_set() =~= Set::<Seq<char>>::empty());
    while i < n
        invariant
            n == found@.len(),
            i <= n,
            fv == texts_of(found@),
            sorted_texts(texts_of(out@)),
            texts_of(out@).to_set() == fv.subrange(0, i as int).to_set().filter(|p: Seq<char>| is_audio_path(p)),
        decreases n - i,
    {
        let ghost before = texts_of(out@).to_set();
        let f = &found[i];
        let ghost fi = f@;
        if is_audio_file(f.as_str()) {
            insert_sorted(&mut out, f.clone());
        }
        proof {
            assert(fv.subrange(0, i + 1) =~= fv.subrange(0, i as int).push(fi));
            let pre = fv.subrange(0, i as int);
            assert forall|x: Seq<char>| #[trigger] pre.push(fi).to_set().contains(x) == pre.to_set().insert(fi).contains(x) by {
                if pre.push(fi).to_set().contains(x) {
                    let j = choose|j: int| 0 <= j < pre.len() + 1 && pre.push(fi)[j] == x;
                    if j < pre.len() {
                        assert(pre[j] == x);
                    }
                }
                if pre.to_set().contains(x) {
                    let j = choose|j: int| 0 <= j < pre.len() && pre[j] == x;
                    assert(pre.push(fi)[j] == x);
                }
                if x == fi {
                    assert(pre.push(fi)[pre.len() as int] == x);
                }
            }
            assert(pre.push(fi).to_set() =~= pre.to_set().insert(fi));
            assert(texts_of(out@).to_set() =~= fv.subrange(0, i + 1).to_set().filter(|p: Seq<char>| is_audio_path(p)));
        }
        i = i + 1;
    }
    assert(fv.subrange(0, n as int) =~= fv);
    Ok(out)
}

} // verus!
