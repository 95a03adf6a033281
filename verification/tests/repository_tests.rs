use vpm_core::catalog::VersionSelector;
use vpm_core::fetcher::FetchError;
use vpm_core::json::{JsonObject, JsonValue};
use vpm_core::remote::{download, download_with_etag, parse_index_bytes, strip_bom, HttpClient};
use vpm_core::repository::{IndexError, RemoteRepository};
use vpm_core::version::parse_version;

fn doc(text: &str) -> JsonObject {
    parse_index_bytes(text.as_bytes()).unwrap()
}

fn json_eq(a: &JsonValue, b: &JsonValue) -> bool {
    match (a, b) {
        (JsonValue::Null, JsonValue::Null) => true,
        (JsonValue::Bool(x), JsonValue::Bool(y)) => x == y,
        (JsonValue::Number(x), JsonValue::Number(y)) => x == y,
        (JsonValue::Str(x), JsonValue::Str(y)) => x == y,
        (JsonValue::Array(xs), JsonValue::Array(ys)) => {
            xs.len() == ys.len() && xs.iter().zip(ys.iter()).all(|(x, y)| json_eq(x, y))
        }
        (JsonValue::Object(x), JsonValue::Object(y)) => obj_eq(x, y),
        _ => false,
    }
}

fn obj_eq(a: &JsonObject, b: &JsonObject) -> bool {
    let ea = a.entries();
    let eb = b.entries();
    ea.len() == eb.len()
        && ea
            .iter()
            .zip(eb.iter())
            .all(|(x, y)| x.key == y.key && json_eq(&x.value, &y.value))
}

const P7_DOC: &str = r#"{"packages":{"a":{"versions":{"1.0.0":{"version":"1.0.0","yanked":true},"0.9.0":{"version":"0.9.0"}}}}}"#;

#[test]
fn index_selection_with_yanked_entry() {
    let repo = RemoteRepository::parse(doc(P7_DOC)).unwrap();
    let cat = repo.get_package("a").unwrap();
    let best = cat.get_latest(&VersionSelector::Any).unwrap();
    assert_eq!(best.version_text, "0.9.0");
    let pinned = VersionSelector::Exact(parse_version("1.0.0").unwrap());
    let m = cat.get_latest_may_yanked(&pinned).unwrap();
    assert_eq!(m.version_text, "1.0.0");
    assert!(m.is_yanked());
}

#[test]
fn round_trip_preserves_unknown_fields() {
    let text = r#"{"name":"repo","future":{"x":[1,2.5,{"y":null,"z":false}],"w":"s"},"packages":{},"trailing":123}"#;
    let original = doc(text);
    let reference = doc(text);
    let repo = RemoteRepository::parse(original).unwrap();
    assert!(obj_eq(repo.raw_document(), &reference));
}

#[test]
fn document_order_and_number_text_are_kept() {
    let d = doc(r#"{"b":1.10,"a":2,"z":{"y":1,"x":2}}"#);
    let es = d.entries();
    assert_eq!(es[0].key, "b");
    assert_eq!(es[1].key, "a");
    assert_eq!(es[2].key, "z");
    match &es[0].value {
        JsonValue::Number(n) => assert_eq!(n, "1.10"),
        other => panic!("expected a number, got {:?}", other),
    }
}

#[test]
fn parse_reads_scalar_fields() {
    let repo = RemoteRepository::parse(doc(
        r#"{"name":"My Repo","url":"https://repo.test/index.json","id":"my.repo","packages":{}}"#,
    ))
    .unwrap();
    assert_eq!(repo.name().unwrap(), "My Repo");
    assert_eq!(repo.url().unwrap(), "https://repo.test/index.json");
    assert_eq!(repo.id().unwrap(), "my.repo");
}

#[test]
fn parse_rejects_malformed_shapes() {
    assert_eq!(
        RemoteRepository::parse(doc(r#"{"packages":5}"#)).unwrap_err(),
        IndexError::MalformedIndex
    );
    assert!(RemoteRepository::parse(doc(r#"{"name":5}"#)).is_err());
    assert!(RemoteRepository::parse(doc(r#"{"packages":{"a":{"versions":{"abc":{}}}}}"#)).is_err());
    assert!(RemoteRepository::parse(doc(
        r#"{"packages":{"a":{"versions":{"1.0.0":{"yanked":true}}}}}"#
    ))
    .is_err());
}

#[test]
fn missing_package_is_empty_not_error() {
    let repo = RemoteRepository::parse(doc(P7_DOC)).unwrap();
    assert!(repo.get_package("absent").is_none());
    assert!(repo.get_versions_of("absent").is_empty());
    assert_eq!(repo.get_versions_of("a").len(), 2);
    let v = parse_version("0.9.0").unwrap();
    assert_eq!(repo.get_package_version("a", &v).unwrap().version_text, "0.9.0");
    assert!(repo.get_package_version("absent", &v).is_none());
    assert!(repo
        .get_package_version("a", &parse_version("2.0.0").unwrap())
        .is_none());
}

#[test]
fn backfill_writes_through_to_document() {
    let mut repo = RemoteRepository::parse(doc(r#"{"packages":{}}"#)).unwrap();
    assert!(repo.url().is_none());
    assert!(repo.id().is_none());
    repo.set_url_if_none("https://repo.test/index.json");
    assert_eq!(repo.url().unwrap(), "https://repo.test/index.json");
    // an absent id defaults to the backfilled URL
    assert_eq!(repo.id().unwrap(), "https://repo.test/index.json");
    match repo.raw_document().get("url").unwrap() {
        JsonValue::Str(s) => assert_eq!(s, "https://repo.test/index.json"),
        _ => panic!("url field must be a string"),
    }
    match repo.raw_document().get("id").unwrap() {
        JsonValue::Str(s) => assert_eq!(s, "https://repo.test/index.json"),
        _ => panic!("id field must be a string"),
    }
}

#[test]
fn backfill_keeps_declared_values() {
    let mut repo =
        RemoteRepository::parse(doc(r#"{"id":"declared","packages":{}}"#)).unwrap();
    repo.set_url_if_none("https://repo.test/");
    assert_eq!(repo.id().unwrap(), "declared");
    repo.set_id_if_none("ignored");
    assert_eq!(repo.id().unwrap(), "declared");
    let mut repo2 =
        RemoteRepository::parse(doc(r#"{"url":"https://keep.test/","packages":{}}"#)).unwrap();
    repo2.set_url_if_none("https://other.test/");
    assert_eq!(repo2.url().unwrap(), "https://keep.test/");
    // the cascade runs only when the URL itself was backfilled
    assert!(repo2.id().is_none());
}

#[test]
fn strip_bom_variants() {
    assert_eq!(strip_bom(b"\xEF\xBB\xBF{}"), b"{}");
    assert_eq!(strip_bom(b"{}"), b"{}");
    assert_eq!(strip_bom(b"\xEF\xBB"), b"\xEF\xBB");
    assert_eq!(strip_bom(b""), b"");
}

#[test]
fn parse_index_bytes_rejects_non_objects() {
    assert!(parse_index_bytes(b"not json").is_err());
    assert!(parse_index_bytes(b"[1,2]").is_err());
    assert!(parse_index_bytes(b"\"s\"").is_err());
    assert!(parse_index_bytes(b"{}").is_ok());
}

struct MockClient {
    body: Vec<u8>,
    etag: Option<String>,
    not_modified_for: Option<String>,
}

impl HttpClient for MockClient {
    fn get_with_etag(
        &self,
        _url: &str,
        _headers: &Vec<(String, String)>,
        current_etag: Option<&str>,
    ) -> Result<Option<(Vec<u8>, Option<String>)>, FetchError> {
        if let (Some(known), Some(sent)) = (&self.not_modified_for, current_etag) {
            if known == sent {
                return Ok(None);
            }
        }
        Ok(Some((self.body.clone(), self.etag.clone())))
    }
}

#[test]
fn conditional_download_matching_etag_is_no_change() {
    // the body is deliberately unparseable: a "no change" reply must be
    // reported without the parser ever running
    let client = MockClient {
        body: b"this is not json at all".to_vec(),
        etag: None,
        not_modified_for: Some("etag-1".to_string()),
    };
    let r = download_with_etag(&client, "https://repo.test/", &Vec::new(), Some("etag-1"));
    assert!(matches!(r, Ok(None)));
}

#[test]
fn download_parses_and_backfills_url() {
    let client = MockClient {
        body: b"\xEF\xBB\xBF{\"packages\":{}}".to_vec(),
        etag: Some("etag-2".to_string()),
        not_modified_for: None,
    };
    let (repo, etag) = download(&client, "https://repo.test/index.json", &Vec::new()).unwrap();
    assert_eq!(etag.unwrap(), "etag-2");
    assert_eq!(repo.url().unwrap(), "https://repo.test/index.json");
    assert_eq!(repo.id().unwrap(), "https://repo.test/index.json");
}

#[test]
fn download_surfaces_malformed_index() {
    let client = MockClient {
        body: b"{\"packages\":[]}".to_vec(),
        etag: None,
        not_modified_for: None,
    };
    let r = download(&client, "https://repo.test/", &Vec::new());
    assert!(matches!(r, Err(FetchError::MalformedIndex)));
}

#[test]
fn unconditional_download_rejects_not_modified_reply() {
    struct AlwaysNotModified;
    impl HttpClient for AlwaysNotModified {
        fn get_with_etag(
            &self,
            _url: &str,
            _headers: &Vec<(String, String)>,
            _current_etag: Option<&str>,
        ) -> Result<Option<(Vec<u8>, Option<String>)>, FetchError> {
            Ok(None)
        }
    }
    let r = download(&AlwaysNotModified, "https://repo.test/", &Vec::new());
    assert!(matches!(r, Err(FetchError::Transport(_))));
}
