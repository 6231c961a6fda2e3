//! Path arithmetic on `/`-separated path texts: file name, stem, extension,
//! parent directory and the sidecar record path. No filesystem access.
use vstd::prelude::*;

verus! {

/// Length of the prefix of `p` that ends with its last `c` (0 when `c` does not occur).
pub open spec fn through_last(p: Seq<char>, c: char) -> nat
    decreases p.len(),
{
    if p.len() == 0 {
        0
    } else if p.last() == c {
        p.len()
    } else {
        through_last(p.drop_last(), c)
    }
}

/// Length of `p` once trailing separators and a trailing `.` segment are
/// dropped (a lone leading `/` or `.` stays), as path components are read.
pub open spec fn trimmed_len(p: Seq<char>) -> nat
    decreases p.len(),
{
    if p.len() >= 2 && (p.last() == '/' || (p.last() == '.' && p[p.len() - 2] == '/')) {
        trimmed_len(p.drop_last())
    } else {
        p.len()
    }
}

pub open spec fn trimmed(p: Seq<char>) -> Seq<char> {
    p.subrange(0, trimmed_len(p) as int)
}

/// Length of the directory part of `p`, its trailing `/` included.
pub open spec fn dir_len(p: Seq<char>) -> nat {
    through_last(p, '/')
}

/// The parent directory of `p` as a prefix to put a sibling's name after.
pub open spec fn dir_prefix_of(p: Seq<char>) -> Seq<char> {
    trimmed(p).subrange(0, dir_len(trimmed(p)) as int)
}

/// The last segment of `p`.
pub open spec fn base_name(p: Seq<char>) -> Seq<char> {
    let q = trimmed(p);
    q.subrange(dir_len(q) as int, q.len() as int)
}

/// A path has a file name when its last segment is neither empty, `.` nor `..`.
pub open spec fn has_file_name(p: Seq<char>) -> bool {
    let b = base_name(p);
    b.len() > 0 && b != seq!['.'] && b != seq!['.', '.']
}

/// Length of the stem of a file name: all of it up to its last dot, unless
/// that dot is the first character (or there is none).
pub open spec fn stem_len(b: Seq<char>) -> nat {
    let t = through_last(b, '.');
    if t <= 1 {
        b.len()
    } else {
        (t - 1) as nat
    }
}

pub open spec fn stem_of(p: Seq<char>) -> Option<Seq<char>> {
    if has_file_name(p) {
        Some(base_name(p).subrange(0, stem_len(base_name(p)) as int))
    } else {
        None
    }
}

pub open spec fn extension_of(p: Seq<char>) -> Option<Seq<char>> {
    let b = base_name(p);
    if has_file_name(p) && through_last(b, '.') > 1 {
        Some(b.subrange(through_last(b, '.') as int, b.len() as int))
    } else {
        None
    }
}

pub open spec fn sidecar_suffix() -> Seq<char> {
    ".musicmeta.json"@
}

/// The sidecar record of a track sits beside its last segment as
/// `<file name>.musicmeta.json`; a path without a file name gets
/// `track.musicmeta.json` inside it.
pub open spec fn sidecar_path_of(p: Seq<char>) -> Seq<char> {
    if has_file_name(p) {
        trimmed(p) + sidecar_suffix()
    } else if p.len() == 0 || p.last() == '/' {
        p + "track"@ + sidecar_suffix()
    } else {
        p + seq!['/'] + "track"@ + sidecar_suffix()
    }
}

/// Finds `through_last(s@, c)`.
fn find_through_last(s: &str, c: char) -> (r: usize)
    ensures
        r == through_last(s@, c),
        r <= s@.len(),
{
    let n = s.unicode_len();
    let mut i: usize = n;
    assert(s@.subrange(0, n as int) =~= s@);
    while i > 0 && s.get_char(i - 1) != c
        invariant
            n == s@.len(),
            i <= n,
            through_last(s@, c) == through_last(s@.subrange(0, i as int), c),
        decreases i,
    {
        assert(s@.subrange(0, i as int).drop_last() =~= s@.subrange(0, i - 1));
        i = i - 1;
    }
    i
}

/// Finds `trimmed_len(s@)`.
fn find_trimmed_len(s: &str) -> (r: usize)
    ensures
        r == trimmed_len(s@),
        r <= s@.len(),
{
    let n = s.unicode_len();
    let mut i: usize = n;
    assert(s@.subrange(0, n as int) =~= s@);
    while i >= 2 && (s.get_char(i - 1) == '/' || (s.get_char(i - 1) == '.' && s.get_char(i - 2) == '/'))
        invariant
            n == s@.len(),
            i <= n,
            trimmed_len(s@) == trimmed_len(s@.subrange(0, i as int)),
        decreases i,
    {
        assert(s@.subrange(0, i as int).drop_last() =~= s@.subrange(0, i - 1));
        i = i - 1;
    }
    i
}

/// The path with trailing separators and a trailing `.` segment dropped.
fn trim_path(path: &str) -> (r: &str)
    ensures
        r@ == trimmed(path@),
{
    let t = find_trimmed_len(path);
    path.substring_char(0, t)
}

/// Where the file name of `path` (once trimmed) begins, and whether there is one.
pub fn split_file_name(path: &str) -> (r: (usize, bool))
    ensures
        r.0 == dir_len(trimmed(path@)),
        r.1 == has_file_name(path@),
        r.0 <= trimmed(path@).len(),
{
    let q = trim_path(path);
    let n = q.unicode_len();
    let d = find_through_last(q, '/');
    let ghost b = base_name(path@);
    let len = n - d;
    let named = if len == 0 {
        false
    } else if len == 1 {
        let c = q.get_char(d);
        proof {
            if c == '.' {
                assert(b =~= seq!['.']);
            }
            assert(b[0] == c);
        }
        c != '.'
    } else if len == 2 {
        let c0 = q.get_char(d);
        let c1 = q.get_char(d + 1);
        proof {
            if c0 == '.' && c1 == '.' {
                assert(b =~= seq!['.', '.']);
            }
            assert(b[0] == c0 && b[1] == c1);
        }
        !(c0 == '.' && c1 == '.')
    } else {
        assert(b.len() > 2);
        true
    };
    (d, named)
}

/// The stem of the file name of `path`.
pub fn file_stem(path: &str) -> (r: Option<String>)
    ensures
        r matches Some(s) ==> stem_of(path@) == Some(s@),
        r is None ==> stem_of(path@) is None,
{
    let (d, named) = split_file_name(path);
    if !named {
        return None;
    }
    let q = trim_path(path);
    let n = q.unicode_len();
    let base = q.substring_char(d, n);
    let t = find_through_last(base, '.');
    let k = if t <= 1 { n - d } else { t - 1 };
    let stem = base.substring_char(0, k);
    Some(String::from_str(stem))
}

/// The extension of the file name of `path`, without its dot.
pub fn extension(path: &str) -> (r: Option<String>)
    ensures
        r matches Some(s) ==> extension_of(path@) == Some(s@),
        r is None ==> extension_of(path@) is None,
{
    let (d, named) = split_file_name(path);
    if !named {
        return None;
    }
    let q = trim_path(path);
    let n = q.unicode_len();
    let base = q.substring_char(d, n);
    let t = find_through_last(base, '.');
    if t <= 1 {
        return None;
    }
    Some(String::from_str(base.substring_char(t, n - d)))
}

/// The directory part of `path`, to put a sibling's name after.
pub fn dir_prefix(path: &str) -> (r: String)
    ensures
        r@ == dir_prefix_of(path@),
{
    let q = trim_path(path);
    let d = find_through_last(q, '/');
    String::from_str(q.substring_char(0, d))
}

/// The path of the sidecar record that belongs to the audio file `audio_path`.
pub fn metadata_sidecar_path(audio_path: &str) -> (r: String)
    ensures
        r@ == sidecar_path_of(audio_path@),
{
    let (_d, named) = split_file_name(audio_path);
    if named {
        String::from_str(trim_path(audio_path)).concat(".musicmeta.json")
    } else {
        let p = String::from_str(audio_path);
        let n = audio_path.unicode_len();
        if n == 0 || audio_path.get_char(n - 1) == '/' {
            let r = p.concat("track").concat(".musicmeta.json");
            assert(r@ =~= audio_path@ + "track"@ + sidecar_suffix());
            r
        } else {
            let r = p.concat("/").concat("track").concat(".musicmeta.json");
            proof {
                reveal_strlit("/");
                assert(r@ =~= audio_path@ + seq!['/'] + "track"@ + sidecar_suffix());
            }
            r
        }
    }
}

} // verus!
