//! Fetching the remote index: the HTTP capability the caller supplies, the
//! byte-order-mark tolerance, and the bridge from raw JSON bytes to the
//! library's document model. The JSON grammar itself is read by an outside
//! parser; every structural decision after it is verified.
use crate::fetcher::FetchError;
use crate::json::{JsonObject, JsonValue};
use crate::json::lookup;
use crate::repository::{str_field, IndexError, RemoteRepository};
use vstd::prelude::*;
use vstd::slice::slice_subrange;
use vstd::string::StringExecFns;

verus! {

broadcast use {vstd::std_specs::vec::group_vec_axioms, vstd::seq::group_seq_axioms};

#[verifier::external_type_specification]
#[verifier::external_body]
pub struct ExValue(serde_json::Value);

#[verifier::external_type_specification]
#[verifier::external_body]
pub struct ExNumber(serde_json::Number);

#[verifier::external_type_specification]
#[verifier::external_body]
#[verifier::reject_recursive_types(K)]
#[verifier::reject_recursive_types(V)]
pub struct ExMap<K, V>(serde_json::Map<K, V>);

/// What serde_json's parser yields for these bytes: `None` exactly when it
/// rejects them. The parse is a function of the bytes alone.
pub uninterp spec fn json_parse_of(bytes: Seq<u8>) -> Option<serde_json::Value>;

/// Whether an opaque parsed value is a JSON object.
pub uninterp spec fn value_is_object(v: serde_json::Value) -> bool;

/// Whether an opaque parsed value is JSON null.
pub uninterp spec fn value_is_null(v: serde_json::Value) -> bool;

/// Whether an opaque parsed value is a JSON boolean, and which.
pub uninterp spec fn value_is_bool(v: serde_json::Value) -> bool;

pub uninterp spec fn value_bool(v: serde_json::Value) -> bool;

/// Whether an opaque parsed value is a JSON number, and its text.
pub uninterp spec fn value_is_number(v: serde_json::Value) -> bool;

pub uninterp spec fn value_number_text(v: serde_json::Value) -> Seq<char>;

/// Whether an opaque parsed value is a JSON string, and its characters.
pub uninterp spec fn value_is_string(v: serde_json::Value) -> bool;

pub uninterp spec fn value_string(v: serde_json::Value) -> Seq<char>;

/// Whether an opaque parsed value is a JSON array, and its items.
pub uninterp spec fn value_is_array(v: serde_json::Value) -> bool;

pub uninterp spec fn value_items(v: serde_json::Value) -> Seq<serde_json::Value>;

/// The entries of an opaque parsed object value, in document order.
pub uninterp spec fn value_entries(v: serde_json::Value) -> Seq<(Seq<char>, serde_json::Value)>;

/// Nesting height of an opaque parsed value.
pub uninterp spec fn value_height(v: serde_json::Value) -> nat;

/// The number's text, as serde_json reports it (with the
/// arbitrary-precision feature on, the source text of the number).
pub uninterp spec fn number_model(n: serde_json::Number) -> Seq<char>;

/// The entries an opaque parsed map holds (with the preserve-order feature
/// on, in document order).
pub uninterp spec fn map_model(m: serde_json::Map<String, serde_json::Value>) -> Seq<
    (Seq<char>, serde_json::Value),
>;

/// Relies on `serde_json::from_slice` to read the JSON grammar; a parse
/// error of any kind becomes `None`. The parser's default recursion limit
/// of 128 bounds the nesting of any value it returns.
#[verifier::external_body]
fn json_from_slice(bytes: &[u8]) -> (r: Option<serde_json::Value>)
    ensures
        r == json_parse_of(bytes@),
        r matches Some(v) ==> value_height(v) <= 128,
{
    serde_json::from_slice(bytes).ok()
}

/// One level of a parsed JSON value, with outside payloads still opaque.
pub enum RawJson {
    Null,
    Bool(bool),
    Num(serde_json::Number),
    Str(String),
    Arr(Vec<serde_json::Value>),
    Obj(serde_json::Map<String, serde_json::Value>),
}

/// Tells the variants of `serde_json::Value` apart, moving each payload
/// out unchanged; a value's children are nested strictly below it.
#[verifier::external_body]
fn value_parts(v: serde_json::Value) -> (r: RawJson)
    ensures
        (r matches RawJson::Null) <==> value_is_null(v),
        (r matches RawJson::Bool(_)) <==> value_is_bool(v),
        (r matches RawJson::Num(_)) <==> value_is_number(v),
        (r matches RawJson::Str(_)) <==> value_is_string(v),
        (r matches RawJson::Arr(_)) <==> value_is_array(v),
        (r matches RawJson::Obj(_)) <==> value_is_object(v),
        r matches RawJson::Bool(b) ==> b == value_bool(v),
        r matches RawJson::Num(n) ==> number_model(n) == value_number_text(v),
        r matches RawJson::Str(s) ==> s@ == value_string(v),
        r matches RawJson::Arr(a) ==> a@ == value_items(v) && forall|i: int|
            0 <= i < a@.len() ==> value_height(#[trigger] a@[i]) < value_height(v),
        r matches RawJson::Obj(m) ==> map_model(m) == value_entries(v) && forall|i: int|
            0 <= i < map_model(m).len() ==> value_height(#[trigger] map_model(m)[i].1)
                < value_height(v),
{
    match v {
        serde_json::Value::Null => RawJson::Null,
        serde_json::Value::Bool(b) => RawJson::Bool(b),
        serde_json::Value::Number(n) => RawJson::Num(n),
        serde_json::Value::String(s) => RawJson::Str(s),
        serde_json::Value::Array(a) => RawJson::Arr(a),
        serde_json::Value::Object(m) => RawJson::Obj(m),
    }
}

/// Relies on `serde_json::Number`'s display form: with the
/// arbitrary-precision feature on, the number's source text.
#[verifier::external_body]
fn number_text(n: &serde_json::Number) -> (r: String)
    ensures
        r@ == number_model(*n),
{
    n.to_string()
}

/// Relies on `serde_json::Map::into_iter`: the map's entries, each key
/// and value moved out unchanged, in the map's own order (document order
/// with the preserve-order feature on).
#[verifier::external_body]
fn map_entries(m: serde_json::Map<String, serde_json::Value>) -> (r: Vec<
    (String, serde_json::Value),
>)
    ensures
        r@.len() == map_model(m).len(),
        forall|i: int|
            0 <= i < r@.len() ==> (#[trigger] r@[i]).0@ == map_model(m)[i].0 && r@[i].1
                == map_model(m)[i].1,
{
    m.into_iter().collect()
}

/// A library value rebuilt from an opaque parsed value, level by level:
/// same variant, same scalar content, and children that model the opaque
/// value's own children in order.
pub open spec fn models(v: serde_json::Value, j: JsonValue) -> bool
    decreases j,
{
    match j {
        JsonValue::Null => value_is_null(v),
        JsonValue::Bool(b) => value_is_bool(v) && b == value_bool(v),
        JsonValue::Number(t) => value_is_number(v) && t@ == value_number_text(v),
        JsonValue::Str(s) => value_is_string(v) && s@ == value_string(v),
        JsonValue::Array(items) => {
            &&& value_is_array(v)
            &&& items@.len() == value_items(v).len()
            &&& (forall|i: int|
                0 <= i < items@.len() ==> models(value_items(v)[i], #[trigger] items@[i]))
        },
        JsonValue::Object(o) => {
            &&& value_is_object(v)
            &&& o.entries@.len() == value_entries(v).len()
            &&& (forall|i: int|
                0 <= i < o.entries@.len() ==> (#[trigger] o.entries@[i]).key@ == value_entries(
                    v,
                )[i].0 && models(value_entries(v)[i].1, o.entries@[i].value))
        },
    }
}

/// Rebuilds an outside JSON value in the library's document model, down to
/// the given nesting depth: always succeeds on a value nested below that
/// depth, yields an object exactly when the value is one, and anything it
/// yields models the value it was given.
fn value_to_json(v: serde_json::Value, depth: u32) -> (r: Option<JsonValue>)
    ensures
        value_height(v) < depth ==> r is Some,
        r matches Some(j) ==> ((j matches JsonValue::Object(_)) <==> value_is_object(v)),
        r matches Some(j) ==> models(v, j),
    decreases depth,
{
    if depth == 0 {
        return None;
    }
    match value_parts(v) {
        RawJson::Null => Some(JsonValue::Null),
        RawJson::Bool(b) => Some(JsonValue::Bool(b)),
        RawJson::Num(n) => Some(JsonValue::Number(number_text(&n))),
        RawJson::Str(s) => Some(JsonValue::Str(s)),
        RawJson::Arr(items) => {
            let ghost all = items@;
            let mut out: Vec<JsonValue> = Vec::new();
            let n = items.len();
            let mut i: usize = 0;
            let mut rest = items;
            while i < n
                invariant
                    i <= n,
                    n == all.len(),
                    rest@ =~= all.subrange(i as int, n as int),
                    depth >= 1,
                    all == value_items(v),
                    out@.len() == i,
                    forall|x: int|
                        0 <= x < all.len() ==> value_height(#[trigger] all[x]) < value_height(v),
                    forall|x: int|
                        0 <= x < i ==> models(value_items(v)[x], #[trigger] out@[x]),
                decreases n - i,
            {
                let item = rest.remove(0);
                proof {
                    assert(item == all[i as int]);
                    assert(rest@ =~= all.subrange(i as int + 1, n as int));
                }
                match value_to_json(item, depth - 1) {
                    Some(cv) => {
                        out.push(cv);
                    },
                    None => {
                        proof {
                            assert(value_height(all[i as int]) >= depth - 1);
                            assert(value_height(v) >= depth);
                        }
                        return None;
                    },
                }
                i = i + 1;
            }
            proof {
                assert(models(v, JsonValue::Array(out)));
            }
            Some(JsonValue::Array(out))
        },
        RawJson::Obj(m) => {
            let pairs = map_entries(m);
            let ghost all = pairs@;
            let mut out = JsonObject::new();
            let n = pairs.len();
            let mut i: usize = 0;
            let mut rest = pairs;
            proof {
                assert(out.entries@ =~= Seq::<crate::json::JsonField>::empty());
            }
            while i < n
                invariant
                    i <= n,
                    n == all.len(),
                    rest@ =~= all.subrange(i as int, n as int),
                    depth >= 1,
                    map_model(m) == value_entries(v),
                    forall|x: int|
                        0 <= x < all.len() ==> value_height(#[trigger] map_model(m)[x].1)
                            < value_height(v),
                    forall|x: int|
                        0 <= x < all.len() ==> (#[trigger] all[x]).1 == map_model(m)[x].1
                            && all[x].0@ == map_model(m)[x].0,
                    all.len() == map_model(m).len(),
                    out.entries@.len() == i,
                    forall|x: int|
                        0 <= x < i ==> (#[trigger] out.entries@[x]).key@ == value_entries(v)[x].0
                            && models(value_entries(v)[x].1, out.entries@[x].value),
                decreases n - i,
            {
                let pair = rest.remove(0);
                proof {
                    assert(pair == all[i as int]);
                    assert(rest@ =~= all.subrange(i as int + 1, n as int));
                }
                match value_to_json(pair.1, depth - 1) {
                    Some(cv) => {
                        out.push_entry(pair.0, cv);
                    },
                    None => {
                        proof {
                            assert(value_height(map_model(m)[i as int].1) >= depth - 1);
                            assert(value_height(v) >= depth);
                        }
                        return None;
                    },
                }
                i = i + 1;
            }
            proof {
                assert(models(v, JsonValue::Object(out)));
            }
            Some(JsonValue::Object(out))
        },
    }
}

pub open spec fn strip_bom_spec(b: Seq<u8>) -> Seq<u8> {
    if b.len() >= 3 && b[0] == 0xEF && b[1] == 0xBB && b[2] == 0xBF {
        b.skip(3)
    } else {
        b
    }
}

/// Strips a leading UTF-8 byte-order mark, which a misconfigured server
/// may prepend to the index document.
pub fn strip_bom(bytes: &[u8]) -> (r: &[u8])
    ensures
        r@ == strip_bom_spec(bytes@),
{
    if bytes.len() >= 3 && bytes[0] == 0xEF && bytes[1] == 0xBB && bytes[2] == 0xBF {
        let r = slice_subrange(bytes, 3, bytes.len());
        proof {
            assert(r@ =~= bytes@.skip(3));
        }
        r
    } else {
        bytes
    }
}

/// The bytes parse as JSON to an object value that `doc` models.
pub open spec fn parsed_reply(bytes: Seq<u8>, doc: JsonObject) -> bool {
    match json_parse_of(bytes) {
        Option::Some(v) => value_is_object(v) && models(v, JsonValue::Object(doc)),
        Option::None => false,
    }
}

/// Reads the raw bytes of an index document into the library's document
/// model. Succeeds exactly when the bytes parse as JSON and the parsed
/// value is an object — and then the document models that value; anything
/// else is a malformed index.
pub fn parse_index_bytes(bytes: &[u8]) -> (r: Result<JsonObject, FetchError>)
    ensures
        r is Ok <==> (json_parse_of(bytes@) matches Some(v) && value_is_object(v)),
        r matches Ok(o) ==> parsed_reply(bytes@, o),
        r is Err ==> r == Err::<JsonObject, FetchError>(FetchError::MalformedIndex),
{
    let v = match json_from_slice(bytes) {
        Some(v) => v,
        None => {
            return Err(FetchError::MalformedIndex);
        },
    };
    let ghost gv = v;
    let j = match value_to_json(v, 512) {
        Some(j) => j,
        None => {
            // unreachable: the parser's recursion limit bounds the height
            return Err(FetchError::MalformedIndex);
        },
    };
    match j {
        JsonValue::Object(o) => Ok(o),
        _ => Err(FetchError::MalformedIndex),
    }
}

/// The repository came from processing exactly the fetched reply: the
/// witness document models the value the bytes parse to, every typed
/// field is that document's own — except that an absent URL is backfilled
/// with the request URL, which then also defaults an absent id — and
/// every other raw field is untouched.
pub open spec fn processed_index(repo: RemoteRepository, url: Seq<char>, bytes: Seq<u8>) -> bool {
    exists|doc: JsonObject|
        {
            &&& parsed_reply(bytes, doc)
            &&& repo.spec_name() == str_field(doc.fields(), "name"@)
            &&& repo.spec_url() == (if str_field(doc.fields(), "url"@) is Some {
                str_field(doc.fields(), "url"@)
            } else {
                Option::Some(url)
            })
            &&& repo.spec_id() == (if str_field(doc.fields(), "id"@) is Some {
                str_field(doc.fields(), "id"@)
            } else if str_field(doc.fields(), "url"@) is Some {
                Option::<Seq<char>>::None
            } else {
                Option::Some(url)
            })
            &&& forall|kk: Seq<char>|
                kk != "url"@ && kk != "id"@ ==> lookup(repo.raw(), kk) == lookup(
                    doc.fields(),
                    kk,
                )
        }
}

/// Turns one successful conditional-GET reply into the parsed index:
/// strips any leading byte-order mark, reads the document, parses the
/// typed view, and backfills the request URL when the document declares
/// none (which also defaults an absent id). Succeeds whenever the reply
/// denotes a well-shaped index document.
pub fn process_index_reply(url: &str, bytes: &[u8]) -> (r: Result<RemoteRepository, FetchError>)
    ensures
        json_parse_of(strip_bom_spec(bytes@)) is None ==> r is Err,
        r matches Ok(repo) ==> repo.wf() && repo.spec_url() is Some && processed_index(
            repo,
            url@,
            strip_bom_spec(bytes@),
        ),
        ((json_parse_of(strip_bom_spec(bytes@)) matches Some(v) && value_is_object(v))
            && (forall|doc: JsonObject|
            parsed_reply(strip_bom_spec(bytes@), doc)
                ==> crate::repository::index_shape_ok(doc.fields()))) ==> r is Ok,
{
    let no_bom = strip_bom(bytes);
    let doc = match parse_index_bytes(no_bom) {
        Ok(d) => d,
        Err(e) => {
            return Err(e);
        },
    };
    let ghost gdoc = doc;
    let mut repo = match RemoteRepository::parse(doc) {
        Ok(rp) => rp,
        Err(IndexError::MalformedIndex) => {
            return Err(FetchError::MalformedIndex);
        },
    };
    let ghost before = repo;
    repo.set_url_if_none(url);
    proof {
        assert(before.raw() == gdoc.fields());
        if before.spec_url() is Some {
            assert(repo == before);
        }
        assert(repo.spec_name() == str_field(gdoc.fields(), "name"@));
        assert(forall|kk: Seq<char>|
            kk != "url"@ && kk != "id"@ ==> lookup(repo.raw(), kk) == lookup(gdoc.fields(), kk));
        assert(parsed_reply(strip_bom_spec(bytes@), gdoc));
        assert(processed_index(repo, url@, strip_bom_spec(bytes@)));
    }
    Ok(repo)
}

/// The HTTP capability a caller supplies: one conditional GET. `Ok(None)`
/// means the server reported "not modified" for the given ETag; otherwise
/// the reply is the body's bytes and the new ETag, if the server sent one.
/// Implementations live outside the library and are unverified, so the
/// download functions promise only what holds of every reply.
pub trait HttpClient {
    fn get_with_etag(
        &self,
        url: &str,
        headers: &Vec<(String, String)>,
        current_etag: Option<&str>,
    ) -> Result<Option<(Vec<u8>, Option<String>)>, FetchError>;
}

/// Conditionally fetches and parses a remote index. `Ok(None)` reports "no
/// change": the client said "not modified", the caller keeps its cached
/// index, and the reply processing — and with it the parser — is never
/// reached. A fetched body goes through `process_index_reply`, whose
/// contract pins what the returned repository holds.
pub fn download_with_etag<C: HttpClient>(
    client: &C,
    url: &str,
    headers: &Vec<(String, String)>,
    current_etag: Option<&str>,
) -> (r: Result<Option<(RemoteRepository, Option<String>)>, FetchError>)
    ensures
        r matches Ok(Some(p)) ==> p.0.wf() && p.0.spec_url() is Some && (exists|bytes: Seq<u8>|
            processed_index(p.0, url@, bytes)),
{
    let reply = match client.get_with_etag(url, headers, current_etag) {
        Ok(Some(x)) => x,
        Ok(None) => {
            return Ok(None);
        },
        Err(e) => {
            return Err(e);
        },
    };
    let (bytes, etag) = reply;
    match process_index_reply(url, bytes.as_slice()) {
        Ok(repo) => Ok(Some((repo, etag))),
        Err(e) => Err(e),
    }
}

/// Fetches fresh, unconditionally: delegates to the conditional variant
/// with no prior ETag. A client that reports "not modified" without having
/// been given an ETag is out of contract; that reply is surfaced as a
/// transport error rather than trusted.
pub fn download<C: HttpClient>(
    client: &C,
    url: &str,
    headers: &Vec<(String, String)>,
) -> (r: Result<(RemoteRepository, Option<String>), FetchError>)
    ensures
        r matches Ok(p) ==> p.0.wf() && p.0.spec_url() is Some && (exists|bytes: Seq<u8>|
            processed_index(p.0, url@, bytes)),
{
    match download_with_etag(client, url, headers, None) {
        Ok(Some(p)) => Ok(p),
        Ok(None) => Err(
            FetchError::Transport(
                String::from_str("not-modified reply to an unconditional request"),
            ),
        ),
        Err(e) => Err(e),
    }
}

} // verus!
