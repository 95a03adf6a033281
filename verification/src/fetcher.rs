//! The package fetcher's decision core: cache validation against the
//! sidecar digest, the sidecar a download writes, zip-slip-safe extraction
//! planning, and the fetch pipeline's state machine. The surrounding I/O
//! (files, HTTP, the zip reader) hands this module plain values.
use crate::hash::{sha256, sha256_of};
use crate::hex::{
    hex_decode, hex_encode, is_hex_digit, lemma_hex_round_trip, parse_hex, to_hex, DIGEST_HEX_LEN,
};
use vstd::prelude::*;
use vstd::slice::slice_subrange;
use vstd::string::{StringExecFns, StringSliceAdditionalSpecFns};

verus! {

/// Errors of the fetch pipeline. A stale or unreadable cache is never an
/// error: it only triggers a re-download.
#[derive(Debug, Clone, PartialEq, Eq)]
pub enum FetchError {
    /// No network client is configured and a download is required.
    Offline,
    /// Network or HTTP failure, surfaced as the transport reported it.
    Transport(String),
    /// The index document failed structural parsing.
    MalformedIndex,
    /// An archive entry escapes the destination directory; carries the
    /// offending path.
    PathTraversal(String),
    /// A filesystem failure, propagated as reported.
    Io(String),
}

pub open spec fn is_separator(c: char) -> bool {
    c == '/' || c == '\\'
}

/// `[a, b)` is one segment of the path: separator-delimited on both sides
/// and containing no separator.
pub open spec fn seg_at(s: Seq<char>, a: int, b: int) -> bool {
    &&& 0 <= a <= b <= s.len()
    &&& (a == 0 || is_separator(s[a - 1]))
    &&& (b == s.len() || is_separator(s[b]))
    &&& forall|k: int| a <= k < b ==> !is_separator(s[k])
}

/// The segment `[a, b)` is a parent-directory reference.
pub open spec fn parent_seg(s: Seq<char>, a: int, b: int) -> bool {
    seg_at(s, a, b) && b - a == 2 && s[a] == '.' && s[a + 1] == '.'
}

/// An archive entry path that is safe to extract: not rooted, no
/// parent-directory segment, and no colon anywhere. Rejecting every colon
/// is deliberately stricter than recognizing only `C:`-shaped drive
/// prefixes: it also refuses volume-relative and alternate-data-stream
/// forms, at the price of refusing the (legal, but in an archive highly
/// suspect) Unix file name that contains a colon.
pub open spec fn is_safe_entry_path(s: Seq<char>) -> bool {
    &&& !(s.len() > 0 && is_separator(s[0]))
    &&& (forall|k: int| 0 <= k < s.len() ==> s[k] != ':')
    &&& (forall|a: int, b: int| !parent_seg(s, a, b))
}

/// A segment's start is determined by where it ends.
proof fn lemma_seg_start_unique(s: Seq<char>, a: int, b: int, seg_start: int)
    requires
        seg_at(s, a, b),
        0 <= seg_start <= b,
        seg_start == 0 || is_separator(s[seg_start - 1]),
        forall|k: int| seg_start <= k < b ==> !is_separator(s[k]),
    ensures
        a == seg_start,
{
    if a < seg_start {
        assert(is_separator(s[seg_start - 1]));
        assert(a <= seg_start - 1 < b);
    } else if a > seg_start {
        assert(is_separator(s[a - 1]));
        assert(seg_start <= a - 1 < b);
    }
}

/// Decides whether an archive entry path is safe to extract: run on every
/// entry before any filesystem write. See `is_safe_entry_path` for the
/// rule, including the strict treatment of colons.
pub fn check_path(path: &str) -> (r: bool)
    ensures
        r == is_safe_entry_path(path@),
{
    let len = path.unicode_len();
    if len > 0 {
        let c0 = path.get_char(0);
        if c0 == '/' || c0 == '\\' {
            return false;
        }
    }
    let mut i: usize = 0;
    let mut seg_start: usize = 0;
    while i < len
        invariant
            len == path@.len(),
            0 <= seg_start <= i <= len,
            !(path@.len() > 0 && is_separator(path@[0])),
            seg_start == 0 || is_separator(path@[seg_start - 1]),
            forall|k: int| seg_start <= k < i ==> !is_separator(path@[k]),
            forall|k: int| 0 <= k < i ==> path@[k] != ':',
            forall|a: int, b: int| b < i ==> !parent_seg(path@, a, b),
        decreases len - i,
    {
        let c = path.get_char(i);
        if c == ':' {
            proof {
                assert(path@[i as int] == ':');
                assert(!(forall|k: int| 0 <= k < path@.len() ==> path@[k] != ':'));
            }
            return false;
        }
        if c == '/' || c == '\\' {
            // a segment ends here
            if i - seg_start == 2 && path.get_char(seg_start) == '.' && path.get_char(seg_start + 1)
                == '.' {
                proof {
                    assert(parent_seg(path@, seg_start as int, i as int));
                    assert(!(forall|a: int, b: int| !parent_seg(path@, a, b)));
                }
                return false;
            }
            proof {
                assert forall|a: int, b: int| b < i + 1 implies !parent_seg(path@, a, b) by {
                    if b == i && parent_seg(path@, a, b) {
                        lemma_seg_start_unique(path@, a, b, seg_start as int);
                    }
                }
            }
            seg_start = i + 1;
        } else {
            proof {
                assert forall|a: int, b: int| b < i + 1 implies !parent_seg(path@, a, b) by {
                    if b == i && parent_seg(path@, a, b) {
                        assert(is_separator(path@[b]) || b == path@.len());
                    }
                }
            }
        }
        i = i + 1;
    }
    // the final segment ends at the end of the path
    if len - seg_start == 2 && path.get_char(seg_start) == '.' && path.get_char(seg_start + 1) == '.' {
        proof {
            assert(parent_seg(path@, seg_start as int, len as int));
            assert(!(forall|a: int, b: int| !parent_seg(path@, a, b)));
        }
        return false;
    }
    proof {
        assert forall|a: int, b: int| !parent_seg(path@, a, b) by {
            if b == len && parent_seg(path@, a, b) {
                lemma_seg_start_unique(path@, a, b, seg_start as int);
            }
        }
    }
    true
}

/// What an archive declares for one entry.
#[derive(Debug, Clone, PartialEq, Eq)]
pub struct EntryInfo {
    /// The entry's stored path.
    pub name: String,
    /// Whether the entry is a directory.
    pub is_dir: bool,
}

/// One filesystem action of an extraction, aligned with the archive entry
/// of the same position.
#[derive(Debug, Clone, PartialEq, Eq)]
pub enum ExtractStep {
    /// Create the directory (empty) under the destination.
    MakeDir(String),
    /// Stream the entry's contents to this path under the destination.
    WriteFile(String),
}

pub open spec fn all_safe(entries: Seq<EntryInfo>) -> bool {
    forall|i: int| 0 <= i < entries.len() ==> is_safe_entry_path(#[trigger] entries[i].name@)
}

/// The step carries out exactly this entry.
pub open spec fn step_for(e: EntryInfo, s: ExtractStep) -> bool {
    match s {
        ExtractStep::MakeDir(n) => e.is_dir && n@ == e.name@,
        ExtractStep::WriteFile(n) => !e.is_dir && n@ == e.name@,
    }
}

/// `i` is the first unsafe entry.
pub open spec fn first_unsafe(entries: Seq<EntryInfo>, i: int) -> bool {
    &&& 0 <= i < entries.len()
    &&& !is_safe_entry_path(entries[i].name@)
    &&& forall|j: int| 0 <= j < i ==> is_safe_entry_path(#[trigger] entries[j].name@)
}

/// Plans an extraction: every entry path is vetted before any filesystem
/// action is handed out, and one unsafe path rejects the whole archive with
/// the offending path named. Directory entries are created empty; file
/// entries are streamed to their stored path.
pub fn plan_extraction(entries: &Vec<EntryInfo>) -> (r: Result<Vec<ExtractStep>, FetchError>)
    ensures
        r is Ok <==> all_safe(entries@),
        r matches Ok(steps) ==> steps@.len() == entries@.len() && forall|i: int|
            0 <= i < entries@.len() ==> step_for(entries@[i], #[trigger] steps@[i]),
        r matches Err(e) ==> match e {
            FetchError::PathTraversal(p) => exists|i: int|
                first_unsafe(entries@, i) && p@ == entries@[i].name@,
            _ => false,
        },
{
    let n = entries.len();
    let mut steps: Vec<ExtractStep> = Vec::new();
    let mut i: usize = 0;
    while i < n
        invariant
            n == entries@.len(),
            i <= n,
            steps@.len() == i,
            forall|j: int| 0 <= j < i ==> is_safe_entry_path(#[trigger] entries@[j].name@),
            forall|j: int| 0 <= j < i ==> step_for(entries@[j], #[trigger] steps@[j]),
        decreases n - i,
    {
        let e = &entries[i];
        if !check_path(e.name.as_str()) {
            proof {
                assert(first_unsafe(entries@, i as int));
            }
            return Err(FetchError::PathTraversal(e.name.clone()));
        }
        if e.is_dir {
            steps.push(ExtractStep::MakeDir(e.name.clone()));
        } else {
            steps.push(ExtractStep::WriteFile(e.name.clone()));
        }
        i = i + 1;
    }
    Ok(steps)
}

/// The view of a step: what kind of action, at which path.
pub open spec fn step_view(s: ExtractStep) -> (bool, Seq<char>) {
    match s {
        ExtractStep::MakeDir(n) => (true, n@),
        ExtractStep::WriteFile(n) => (false, n@),
    }
}

/// Extraction is idempotent in effect: any two plans for the same entries
/// direct the same actions in the same order, so rerunning an extraction
/// against a freshly cleared destination rebuilds the same tree.
pub proof fn lemma_extraction_deterministic(
    entries: Seq<EntryInfo>,
    s1: Seq<ExtractStep>,
    s2: Seq<ExtractStep>,
)
    requires
        s1.len() == entries.len(),
        s2.len() == entries.len(),
        forall|i: int| 0 <= i < entries.len() ==> step_for(entries[i], #[trigger] s1[i]),
        forall|i: int| 0 <= i < entries.len() ==> step_for(entries[i], #[trigger] s2[i]),
    ensures
        s1.len() == s2.len(),
        forall|i: int| 0 <= i < s1.len() ==> step_view(#[trigger] s1[i]) == step_view(s2[i]),
{
    assert forall|i: int| 0 <= i < s1.len() implies step_view(#[trigger] s1[i]) == step_view(
        s2[i],
    ) by {
        assert(step_for(entries[i], s1[i]));
        assert(step_for(entries[i], s2[i]));
    }
}

/// The digest a sidecar records: its first 64 characters as hex, if they
/// are hex.
pub open spec fn sidecar_digest(sidecar: Seq<u8>) -> Option<Seq<u8>> {
    if sidecar.len() >= DIGEST_HEX_LEN && (forall|i: int|
        0 <= i < DIGEST_HEX_LEN ==> is_hex_digit(sidecar[i])) {
        Some(hex_decode(sidecar.subrange(0, DIGEST_HEX_LEN as int)))
    } else {
        None
    }
}

/// A caller-supplied expected digest constrains the sidecar only when it is
/// itself 64 hex digits; a malformed expectation is ignored, as a malformed
/// sidecar line would be.
pub open spec fn expected_agrees(expected: Option<Seq<u8>>, digest: Seq<u8>) -> bool {
    match expected {
        None => true,
        Some(x) => {
            if x.len() == DIGEST_HEX_LEN && (forall|i: int| 0 <= i < x.len() ==> is_hex_digit(x[i])) {
                hex_decode(x) == digest
            } else {
                true
            }
        },
    }
}

/// A cached archive/sidecar pair is valid exactly when the sidecar records
/// the archive's actual content digest and does not disagree with the
/// caller's expected digest.
pub open spec fn cache_valid(archive: Seq<u8>, sidecar: Seq<u8>, expected: Option<Seq<u8>>) -> bool {
    match sidecar_digest(sidecar) {
        None => false,
        Some(d) => d == sha256_of(archive) && expected_agrees(expected, d),
    }
}

pub open spec fn opt_bytes(o: Option<&[u8]>) -> Option<Seq<u8>> {
    match o {
        Some(b) => Some(b@),
        None => None,
    }
}

/// Validates a cached archive against its sidecar: parses the recorded
/// digest, holds it against the caller's expected digest if one was given,
/// and against the archive's actual content hash. `false` means a cache
/// miss (re-download), never an error.
pub fn check_cache(archive: &[u8], sidecar: &[u8], expected_hex: Option<&[u8]>) -> (r: bool)
    ensures
        r == cache_valid(archive@, sidecar@, opt_bytes(expected_hex)),
{
    if sidecar.len() < DIGEST_HEX_LEN {
        return false;
    }
    let head = slice_subrange(sidecar, 0, DIGEST_HEX_LEN);
    let recorded = match parse_hex(head) {
        Some(d) => d,
        None => {
            return false;
        },
    };
    if let Some(x) = expected_hex {
        if let Some(e) = parse_hex(x) {
            if !bytes_eq(e.as_slice(), recorded.as_slice()) {
                return false;
            }
        }
    }
    proof {
        assert(head@ =~= sidecar@.subrange(0, DIGEST_HEX_LEN as int));
        assert forall|i: int| 0 <= i < DIGEST_HEX_LEN implies is_hex_digit(sidecar@[i]) by {
            assert(is_hex_digit(head@[i]));
        }
        assert(sidecar_digest(sidecar@) == Some(recorded@));
    }
    let actual = sha256(archive);
    bytes_eq(actual.as_slice(), recorded.as_slice())
}

/// Decides equality of two byte strings.
pub fn bytes_eq(a: &[u8], b: &[u8]) -> (r: bool)
    ensures
        r == (a@ == b@),
{
    let n = a.len();
    if n != b.len() {
        proof {
            assert(a@.len() != b@.len());
        }
        return false;
    }
    let mut i: usize = 0;
    while i < n
        invariant
            n == a@.len() && n == b@.len(),
            i <= n,
            forall|j: int| 0 <= j < i ==> a@[j] == b@[j],
        decreases n - i,
    {
        if a[i] != b[i] {
            return false;
        }
        i = i + 1;
    }
    assert(a@ =~= b@);
    true
}

/// The sidecar line a download writes: the digest in lowercase hex, one
/// space, the archive file name, one newline.
pub open spec fn sidecar_line(digest: Seq<u8>, name: Seq<u8>) -> Seq<u8> {
    hex_encode(digest) + seq![32u8] + name + seq![10u8]
}

/// Builds the sidecar contents for a freshly downloaded archive.
pub fn make_sidecar(digest: &[u8], file_name: &str) -> (r: Vec<u8>)
    requires
        digest@.len() * 2 <= usize::MAX,
        hex_encode(digest@).len() + file_name.spec_bytes().len() + 2 <= usize::MAX,
    ensures
        r@ == sidecar_line(digest@, file_name.spec_bytes()),
{
    let mut line = to_hex(digest);
    line.push(32);
    let name_bytes = file_name.as_bytes();
    let n = name_bytes.len();
    let mut i: usize = 0;
    while i < n
        invariant
            n == name_bytes@.len(),
            i <= n,
            line@.len() == hex_encode(digest@).len() + 1 + i,
            line@ =~= hex_encode(digest@) + seq![32u8] + name_bytes@.subrange(0, i as int),
            hex_encode(digest@).len() + name_bytes@.len() + 2 <= usize::MAX,
        decreases n - i,
    {
        line.push(name_bytes[i]);
        proof {
            assert(line@ =~= hex_encode(digest@) + seq![32u8] + name_bytes@.subrange(
                0,
                i as int + 1,
            ));
        }
        i = i + 1;
    }
    line.push(10);
    proof {
        assert(name_bytes@.subrange(0, n as int) =~= name_bytes@);
        assert(line@ =~= sidecar_line(digest@, file_name.spec_bytes()));
    }
    line
}

/// The sidecar written for an archive's digest is accepted by the cache
/// check that rereads it: download and cache validation agree.
pub proof fn lemma_sidecar_round_trip(digest: Seq<u8>, name: Seq<u8>)
    requires
        digest.len() == 32,
    ensures
        sidecar_digest(sidecar_line(digest, name)) == Some(digest),
{
    lemma_hex_round_trip(digest);
    let line = sidecar_line(digest, name);
    assert(line.subrange(0, DIGEST_HEX_LEN as int) =~= hex_encode(digest));
    assert forall|i: int| 0 <= i < DIGEST_HEX_LEN implies is_hex_digit(line[i]) by {
        assert(line[i] == hex_encode(digest)[i]);
    }
    assert(sidecar_digest(line) == Some(hex_decode(hex_encode(digest))));
}

/// A sidecar recording the archive's actual digest validates the cache.
pub proof fn lemma_cache_accepts_matching(archive: Seq<u8>, sidecar: Seq<u8>)
    requires
        sidecar_digest(sidecar) == Some(sha256_of(archive)),
    ensures
        cache_valid(archive, sidecar, None),
{
}

/// Any disagreement between the recorded and the actual digest — or an
/// unreadable digest line — is a cache miss, whatever the caller expected.
pub proof fn lemma_cache_rejects_mismatch(
    archive: Seq<u8>,
    sidecar: Seq<u8>,
    expected: Option<Seq<u8>>,
)
    requires
        sidecar_digest(sidecar) != Some(sha256_of(archive)),
    ensures
        !cache_valid(archive, sidecar, expected),
{
}

/// The archive's cache file name for a package name and version text.
pub fn archive_file_name(name: &str, version: &str) -> (r: String)
    ensures
        r@ == "vrc-get-"@ + name@ + "-"@ + version@ + ".zip"@,
{
    let mut s = String::from_str("vrc-get-");
    s.append(name);
    s.append("-");
    s.append(version);
    s.append(".zip");
    s
}

/// The states of one package-install request.
#[derive(Debug, Clone, PartialEq, Eq)]
pub enum FetchState {
    /// Validate the cached archive/sidecar pair, if any.
    CheckCache,
    /// Fetch the archive from its download URL.
    Download,
    /// Rebuild the destination directory from the archive.
    Extract,
    /// The package is materialized.
    Done,
    /// The request failed; a failed cache check is never this.
    Failed(FetchError),
}

/// What the surrounding I/O reports back to the state machine.
#[derive(Debug, Clone, PartialEq, Eq)]
pub enum FetchEvent {
    /// The cached pair validated; the archive can be reused.
    CacheHit,
    /// Missing, unreadable or stale cache: not an error, download instead.
    CacheMiss,
    /// The archive was downloaded and its sidecar written.
    Downloaded,
    /// The download failed (offline, transport, or filesystem).
    DownloadFailed(FetchError),
    /// The destination directory was rebuilt.
    Extracted,
    /// Extraction failed (path traversal or filesystem).
    ExtractFailed(FetchError),
}

/// The fetch pipeline: CheckCache, then CacheHit or Download, then Extract,
/// then Done; Download and Extract can fail terminally. An event that does
/// not belong to the state leaves it unchanged.
pub open spec fn fetch_step_spec(s: FetchState, e: FetchEvent) -> FetchState {
    match (s, e) {
        (FetchState::CheckCache, FetchEvent::CacheHit) => FetchState::Extract,
        (FetchState::CheckCache, FetchEvent::CacheMiss) => FetchState::Download,
        (FetchState::Download, FetchEvent::Downloaded) => FetchState::Extract,
        (FetchState::Download, FetchEvent::DownloadFailed(err)) => FetchState::Failed(err),
        (FetchState::Extract, FetchEvent::Extracted) => FetchState::Done,
        (FetchState::Extract, FetchEvent::ExtractFailed(err)) => FetchState::Failed(err),
        (other, _) => other,
    }
}

/// Advances one package-install request by one observed event.
pub fn fetch_step(state: FetchState, event: FetchEvent) -> (r: FetchState)
    ensures
        r == fetch_step_spec(state, event),
{
    match (state, event) {
        (FetchState::CheckCache, FetchEvent::CacheHit) => FetchState::Extract,
        (FetchState::CheckCache, FetchEvent::CacheMiss) => FetchState::Download,
        (FetchState::Download, FetchEvent::Downloaded) => FetchState::Extract,
        (FetchState::Download, FetchEvent::DownloadFailed(err)) => FetchState::Failed(err),
        (FetchState::Extract, FetchEvent::Extracted) => FetchState::Done,
        (FetchState::Extract, FetchEvent::ExtractFailed(err)) => FetchState::Failed(err),
        (other, _) => other,
    }
}

} // verus!
