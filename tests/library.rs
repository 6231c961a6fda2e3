use rust_back_end::artwork::{candidate_artwork_paths, extract_artwork};
use rust_back_end::error::BackendError;
use rust_back_end::metadata::{check_write_request, is_blank_value, read_metadata, write_metadata};
use rust_back_end::paths::{dir_prefix, extension, file_stem, metadata_sidecar_path};
use rust_back_end::record::Record;
use rust_back_end::scanner::{is_audio_file, scan_library};
use rust_back_end::sidecar::{load_sidecar_map, write_sidecar_map};
use rust_back_end::text::compare_text;

fn record(pairs: &[(&str, &str)]) -> Record {
    let mut r = Record::new();
    for (k, v) in pairs {
        r.insert(k.to_string(), v.to_string());
    }
    r
}

fn strings(v: &[&str]) -> Vec<String> {
    v.iter().map(|s| s.to_string()).collect()
}

#[test]
fn sidecar_path_appends_suffix_to_file_name() {
    assert_eq!(metadata_sidecar_path("/music/song.mp3"), "/music/song.mp3.musicmeta.json");
    assert_eq!(metadata_sidecar_path("song.mp3"), "song.mp3.musicmeta.json");
}

#[test]
fn sidecar_path_without_file_name_uses_placeholder() {
    assert_eq!(metadata_sidecar_path(""), "track.musicmeta.json");
    assert_eq!(metadata_sidecar_path("/"), "/track.musicmeta.json");
    assert_eq!(metadata_sidecar_path("music/.."), "music/../track.musicmeta.json");
}

#[test]
fn trailing_separators_are_ignored() {
    assert_eq!(metadata_sidecar_path("a/b/"), "a/b.musicmeta.json");
    assert_eq!(metadata_sidecar_path("/music/"), "/music.musicmeta.json");
    assert_eq!(metadata_sidecar_path("a/b/."), "a/b.musicmeta.json");
    assert_eq!(file_stem("x/a.mp3/"), Some("a".to_string()));
    assert_eq!(extension("x/a.mp3//"), Some("mp3".to_string()));
    assert_eq!(dir_prefix("x/a.mp3/"), "x/");
    assert!(is_audio_file("x/a.mp3/"));
    let v = read_metadata("x/Intro.ogg/", true, None).unwrap();
    assert_eq!(v.get("title"), Some(&"Intro".to_string()));
}

#[test]
fn stem_and_extension_follow_last_dot() {
    assert_eq!(file_stem("/m/live.set.mp3"), Some("live.set".to_string()));
    assert_eq!(extension("/m/live.set.mp3"), Some("mp3".to_string()));
    assert_eq!(file_stem("/m/.hidden"), Some(".hidden".to_string()));
    assert_eq!(extension("/m/.hidden"), None);
    assert_eq!(file_stem("/"), None);
    assert_eq!(file_stem("m/.."), None);
    assert_eq!(dir_prefix("/m/a.mp3"), "/m/");
    assert_eq!(dir_prefix("a.mp3"), "");
}

#[test]
fn audio_extensions_ignore_case() {
    assert!(is_audio_file("/m/a.mp3"));
    assert!(is_audio_file("/m/B.FLAC"));
    assert!(is_audio_file("x.Opus"));
    assert!(is_audio_file("x.wma"));
    assert!(!is_audio_file("/m/a.txt"));
    assert!(!is_audio_file("/m/mp3"));
    assert!(!is_audio_file("/m/.mp3"));
    assert!(!is_audio_file("/m/a.mp3x"));
}

#[test]
fn text_order_is_by_code_point() {
    assert!(compare_text("SONG", "song") < 0);
    assert!(compare_text("ab", "abc") < 0);
    assert!(compare_text("b", "abc") > 0);
    assert_eq!(compare_text("same", "same"), 0);
}

#[test]
fn record_insert_get_remove() {
    let mut r = record(&[("b", "2"), ("a", "1")]);
    assert_eq!(r.get("a"), Some(&"1".to_string()));
    r.insert("a".to_string(), "3".to_string());
    assert_eq!(r.get("a"), Some(&"3".to_string()));
    assert_eq!(r.len(), 2);
    r.remove("b");
    assert_eq!(r.get("b"), None);
    assert_eq!(r.keys(), strings(&["a"]));
}

#[test]
fn sidecar_content_parses_as_record() {
    let r = load_sidecar_map(Some("{\"artist\": \"Nina\", \"year\": \"1965\"}".to_string()));
    assert_eq!(r.len(), 2);
    assert_eq!(r.get("artist"), Some(&"Nina".to_string()));
    assert_eq!(r.get("year"), Some(&"1965".to_string()));
}

#[test]
fn unusable_sidecar_is_empty_record() {
    assert_eq!(load_sidecar_map(None).len(), 0);
    assert_eq!(load_sidecar_map(Some("not json".to_string())).len(), 0);
    assert_eq!(load_sidecar_map(Some("{\"duration_ms\": 5}".to_string())).len(), 0);
    assert_eq!(load_sidecar_map(Some("[\"a\"]".to_string())).len(), 0);
}

#[test]
fn sidecar_encoding_round_trips() {
    let r = record(&[("album", "X"), ("artist", "Y")]);
    let text = write_sidecar_map(&r).unwrap();
    assert!(text.contains('\n'));
    let back = load_sidecar_map(Some(text));
    assert_eq!(back.keys(), strings(&["album", "artist"]));
    assert_eq!(back.get("album"), Some(&"X".to_string()));
    assert_eq!(back.get("artist"), Some(&"Y".to_string()));
}

#[test]
fn read_defaults_without_sidecar() {
    let v = read_metadata("/m/Blue Train.flac", true, None).unwrap();
    assert_eq!(v.len(), 5);
    assert_eq!(v.get("path"), Some(&"/m/Blue Train.flac".to_string()));
    assert_eq!(v.get("title"), Some(&"Blue Train".to_string()));
    assert_eq!(v.get("artist"), Some(&String::new()));
    assert_eq!(v.get("album"), Some(&String::new()));
    assert_eq!(v.get("duration_ms"), Some(&"0".to_string()));
}

#[test]
fn read_overlays_sidecar() {
    let side = "{\"title\": \"Other\", \"mood\": \"calm\"}".to_string();
    let v = read_metadata("/m/a.mp3", true, Some(side)).unwrap();
    assert_eq!(v.get("title"), Some(&"Other".to_string()));
    assert_eq!(v.get("mood"), Some(&"calm".to_string()));
    assert_eq!(v.len(), 6);
}

#[test]
fn read_missing_track_is_not_found() {
    let e = read_metadata("/m/gone.mp3", false, None).err().unwrap();
    assert_eq!(e, BackendError::NotFound("/m/gone.mp3".to_string()));
    assert_eq!(e.message(), "Track does not exist: /m/gone.mp3");
}

#[test]
fn write_with_no_changes_is_rejected() {
    let empty = Record::new();
    let e = write_metadata("/m/a.mp3", true, &empty, None).err().unwrap();
    assert!(matches!(e, BackendError::Validation(_)));
    assert!(matches!(check_write_request("/m/a.mp3", true, &empty), Err(BackendError::Validation(_))));
}

#[test]
fn write_to_missing_track_is_not_found() {
    let ch = record(&[("album", "X")]);
    let e = write_metadata("/m/gone.mp3", false, &ch, None).err().unwrap();
    assert_eq!(e, BackendError::NotFound("/m/gone.mp3".to_string()));
}

#[test]
fn blank_value_removes_key() {
    let side = "{\"artist\": \"Someone\", \"album\": \"A\"}".to_string();
    let ch = record(&[("artist", "")]);
    let w = write_metadata("/m/a.mp3", true, &ch, Some(side)).unwrap();
    assert_eq!(w.touched, strings(&["artist"]));
    let stored = load_sidecar_map(Some(w.contents.clone()));
    assert_eq!(stored.get("artist"), None);
    assert_eq!(stored.get("album"), Some(&"A".to_string()));
    let v = read_metadata("/m/a.mp3", true, Some(w.contents)).unwrap();
    assert_eq!(v.get("artist"), Some(&String::new()));
}

#[test]
fn whitespace_value_removes_key() {
    assert!(is_blank_value(" \t\n"));
    assert!(is_blank_value(""));
    assert!(!is_blank_value(" x "));
    let ch = record(&[("album", " \t ")]);
    let w = write_metadata("/m/a.mp3", true, &ch, Some("{\"album\": \"A\"}".to_string())).unwrap();
    assert_eq!(load_sidecar_map(Some(w.contents)).len(), 0);
}

#[test]
fn set_then_clear_round_trip() {
    let path = "/m/a.mp3";
    let w1 = write_metadata(path, true, &record(&[("album", "X")]), None).unwrap();
    assert_eq!(w1.path, "/m/a.mp3.musicmeta.json");
    let v1 = read_metadata(path, true, Some(w1.contents.clone())).unwrap();
    assert_eq!(v1.get("album"), Some(&"X".to_string()));
    let w2 = write_metadata(path, true, &record(&[("album", "")]), Some(w1.contents)).unwrap();
    let stored = load_sidecar_map(Some(w2.contents.clone()));
    assert_eq!(stored.get("album"), None);
    let v2 = read_metadata(path, true, Some(w2.contents)).unwrap();
    assert_eq!(v2.get("album"), Some(&String::new()));
}

#[test]
fn touched_keys_are_sorted() {
    let ch = record(&[("title", "T"), ("artist", ""), ("album", "  B  ")]);
    let w = write_metadata("/m/a.mp3", true, &ch, None).unwrap();
    assert_eq!(w.touched, strings(&["album", "artist", "title"]));
    let stored = load_sidecar_map(Some(w.contents));
    assert_eq!(stored.keys(), strings(&["album", "title"]));
    assert_eq!(stored.get("title"), Some(&"T".to_string()));
    assert_eq!(stored.get("album"), Some(&"  B  ".to_string()));
}

#[test]
fn scan_without_roots_is_rejected() {
    let e = scan_library(&Vec::new(), &Vec::new()).err().unwrap();
    assert!(matches!(e, BackendError::Validation(_)));
}

#[test]
fn scan_of_missing_root_is_empty() {
    let r = scan_library(&strings(&["/nonexistent/root"]), &Vec::new()).unwrap();
    assert!(r.is_empty());
}

#[test]
fn scan_filters_sorts_and_dedups() {
    let found = strings(&["/d/song.mp3", "/d/song.txt", "/d/SONG.MP3", "/d/song.mp3"]);
    let r = scan_library(&strings(&["/d", "/d"]), &found).unwrap();
    assert_eq!(r, strings(&["/d/SONG.MP3", "/d/song.mp3"]));
}

#[test]
fn artwork_candidates_in_order() {
    let c = candidate_artwork_paths("/m/track.mp3", None);
    assert_eq!(
        c,
        strings(&[
            "/m/track.jpg",
            "/m/track.jpeg",
            "/m/track.png",
            "/m/cover.jpg",
            "/m/cover.jpeg",
            "/m/cover.png",
        ])
    );
}

#[test]
fn explicit_artwork_comes_first() {
    let side = "{\"artwork_path\": \"/other/art.png\"}".to_string();
    let c = candidate_artwork_paths("/m/track.mp3", Some(side));
    assert_eq!(c.len(), 7);
    assert_eq!(c[0], "/other/art.png");
    assert_eq!(c[1], "/m/track.jpg");
    let is_file = vec![true, true, false, false, false, false, false];
    let chosen = extract_artwork("/m/track.mp3", true, &c, &is_file).unwrap();
    assert_eq!(chosen, Some("/other/art.png".to_string()));
}

#[test]
fn no_artwork_found() {
    let c = candidate_artwork_paths("/m/track.mp3", None);
    let is_file = vec![false; c.len()];
    assert_eq!(extract_artwork("/m/track.mp3", true, &c, &is_file).unwrap(), None);
}

#[test]
fn first_existing_candidate_wins() {
    let c = candidate_artwork_paths("/m/track.mp3", None);
    let is_file = vec![false, false, true, true, false, false];
    assert_eq!(extract_artwork("/m/track.mp3", true, &c, &is_file).unwrap(), Some("/m/track.png".to_string()));
}

#[test]
fn artwork_of_missing_track_is_not_found() {
    let e = extract_artwork("/m/gone.mp3", false, &Vec::new(), &Vec::new()).err().unwrap();
    assert_eq!(e, BackendError::NotFound("/m/gone.mp3".to_string()));
}
