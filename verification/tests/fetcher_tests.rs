use vpm_core::fetcher::{
    archive_file_name, check_cache, check_path, fetch_step, make_sidecar, plan_extraction,
    EntryInfo, ExtractStep, FetchError, FetchEvent, FetchState,
};
use vpm_core::hash::{hash_finish, hash_start, hash_update, sha256};
use vpm_core::hex::{parse_hex, to_hex};

// SHA-256 of "abc" and of the empty string, as published test vectors.
const ABC_HEX: &str = "ba7816bf8f01cfea414140de5dae2223b00361a396177a9cb410ff61f20015ad";
const EMPTY_HEX: &str = "e3b0c44298fc1c149afbf4c8996fb92427ae41e4649b934ca495991b7852b855";

#[test]
fn sha256_matches_published_vectors() {
    assert_eq!(to_hex(&sha256(b"abc")), ABC_HEX.as_bytes());
    assert_eq!(to_hex(&sha256(b"")), EMPTY_HEX.as_bytes());
}

#[test]
fn streaming_hash_equals_one_shot() {
    let mut h = hash_start();
    hash_update(&mut h, b"ab");
    hash_update(&mut h, b"c");
    assert_eq!(hash_finish(h), sha256(b"abc"));
    assert_eq!(hash_finish(hash_start()), sha256(b""));
}

#[test]
fn hex_round_trip_and_rejects() {
    let bytes = parse_hex(ABC_HEX.as_bytes()).unwrap();
    assert_eq!(to_hex(&bytes), ABC_HEX.as_bytes());
    let upper = ABC_HEX.to_uppercase();
    assert_eq!(parse_hex(upper.as_bytes()).unwrap(), bytes);
    assert!(parse_hex(b"abcd").is_none());
    let mut bad = ABC_HEX.as_bytes().to_vec();
    bad[10] = b'g';
    assert!(parse_hex(&bad).is_none());
}

fn sidecar_for(archive: &[u8], name: &str) -> Vec<u8> {
    make_sidecar(&sha256(archive), name)
}

#[test]
fn cache_hit_on_matching_sidecar() {
    let archive = b"abc";
    let sidecar = sidecar_for(archive, "pkg.zip");
    assert_eq!(
        sidecar,
        format!("{} pkg.zip\n", ABC_HEX).into_bytes()
    );
    assert!(check_cache(archive, &sidecar, None));
}

#[test]
fn cache_miss_on_corrupted_archive() {
    let sidecar = sidecar_for(b"abc", "pkg.zip");
    assert!(!check_cache(b"abd", &sidecar, None));
    assert!(!check_cache(b"ab", &sidecar, None));
    assert!(!check_cache(b"", &sidecar, None));
}

#[test]
fn cache_miss_on_bad_sidecar() {
    let archive = b"abc";
    assert!(!check_cache(archive, b"", None));
    assert!(!check_cache(archive, b"tooshort", None));
    let mut nonhex = sidecar_for(archive, "pkg.zip");
    nonhex[0] = b'x';
    assert!(!check_cache(archive, &nonhex, None));
    let truncated = &sidecar_for(archive, "pkg.zip")[..63];
    assert!(!check_cache(archive, truncated, None));
}

#[test]
fn cache_respects_expected_digest() {
    let archive = b"abc";
    let sidecar = sidecar_for(archive, "pkg.zip");
    assert!(check_cache(archive, &sidecar, Some(ABC_HEX.as_bytes())));
    // an expected digest that disagrees with the sidecar invalidates it
    assert!(!check_cache(archive, &sidecar, Some(EMPTY_HEX.as_bytes())));
    // a malformed expected digest is ignored, like a malformed sidecar line
    assert!(check_cache(archive, &sidecar, Some(b"not-a-digest")));
}

#[test]
fn archive_file_name_format() {
    assert_eq!(
        archive_file_name("com.example.pkg", "1.0.0"),
        "vrc-get-com.example.pkg-1.0.0.zip"
    );
}

#[test]
fn safe_and_unsafe_entry_paths() {
    assert!(check_path("a/b.txt"));
    assert!(check_path("Assets/Sub/file.cs"));
    assert!(check_path("./a"));
    assert!(check_path(""));
    assert!(check_path("name.with.dots/..file"));
    assert!(!check_path("../../evil"));
    assert!(!check_path("a/../b"));
    assert!(!check_path("a/.."));
    assert!(!check_path(".."));
    assert!(!check_path("/rooted"));
    assert!(!check_path("\\rooted"));
    assert!(!check_path("a\\..\\b"));
    assert!(!check_path("C:\\evil"));
    assert!(!check_path("C:/evil"));
}

fn file(name: &str) -> EntryInfo {
    EntryInfo { name: name.to_string(), is_dir: false }
}

fn dir(name: &str) -> EntryInfo {
    EntryInfo { name: name.to_string(), is_dir: true }
}

#[test]
fn plan_lists_actions_in_entry_order() {
    let entries = vec![dir("sub"), file("sub/a.txt"), file("b.txt")];
    let steps = plan_extraction(&entries).unwrap();
    assert_eq!(
        steps,
        vec![
            ExtractStep::MakeDir("sub".to_string()),
            ExtractStep::WriteFile("sub/a.txt".to_string()),
            ExtractStep::WriteFile("b.txt".to_string()),
        ]
    );
}

#[test]
fn traversal_entry_rejects_whole_archive() {
    // archive pkg-1.0.0.zip carrying an entry that climbs out of the
    // destination: the extraction fails naming the offending path
    let entries = vec![file("ok.txt"), file("../../evil")];
    match plan_extraction(&entries) {
        Err(FetchError::PathTraversal(p)) => assert_eq!(p, "../../evil"),
        other => panic!("expected a path-traversal failure, got {:?}", other),
    }
}

#[test]
fn reinstall_plans_identically() {
    let entries = vec![dir("sub"), file("sub/a.txt")];
    let first = plan_extraction(&entries).unwrap();
    let second = plan_extraction(&entries).unwrap();
    assert_eq!(first, second);
}

use FetchEvent as E;
use FetchState as S;

#[test]
fn fetch_state_machine_paths() {
    assert_eq!(fetch_step(S::CheckCache, E::CacheHit), S::Extract);
    assert_eq!(fetch_step(S::CheckCache, E::CacheMiss), S::Download);
    assert_eq!(fetch_step(S::Download, E::Downloaded), S::Extract);
    assert_eq!(
        fetch_step(S::Download, E::DownloadFailed(FetchError::Offline)),
        S::Failed(FetchError::Offline)
    );
    assert_eq!(fetch_step(S::Extract, E::Extracted), S::Done);
    assert_eq!(
        fetch_step(
            S::Extract,
            E::ExtractFailed(FetchError::Io("disk full".to_string()))
        ),
        S::Failed(FetchError::Io("disk full".to_string()))
    );
    // an event that does not belong to the state changes nothing
    assert_eq!(fetch_step(S::Done, E::CacheMiss), S::Done);
    assert_eq!(fetch_step(S::CheckCache, E::Extracted), S::CheckCache);
}
