//! The remote repository index: the raw document kept verbatim beside a
//! typed view, queries over packages and versions, and the backfill setters
//! that write through to both representations.
use crate::catalog::{PackageManifest, RemotePackages};
use crate::json::{
    first_match, has_key, lemma_first_exists, lemma_push_lookup, lemma_update_lookup, lookup,
    JsonObject, JsonValue,
};
use crate::version::{parse_version, str_eq, version_key, version_matches, Version};
use vstd::prelude::*;

verus! {

broadcast use vstd::string::group_string_axioms;

/// Why an index document was rejected.
#[derive(Debug, Clone, PartialEq, Eq)]
pub enum IndexError {
    /// The document's structural shape is not a package index.
    MalformedIndex,
}

/// The text of a string field, when the field exists and is a string.
pub open spec fn str_field(es: Seq<(Seq<char>, JsonValue)>, key: Seq<char>) -> Option<Seq<char>> {
    match lookup(es, key) {
        Some(JsonValue::Str(s)) => Some(s@),
        _ => None,
    }
}

/// The field is absent or a string: the shape a scalar index field needs.
pub open spec fn scalar_ok(es: Seq<(Seq<char>, JsonValue)>, key: Seq<char>) -> bool {
    match lookup(es, key) {
        Option::None => true,
        Option::Some(JsonValue::Str(_)) => true,
        _ => false,
    }
}

/// The `packages` field, when present, is an object.
pub open spec fn packages_shape_ok(es: Seq<(Seq<char>, JsonValue)>) -> bool {
    match lookup(es, "packages"@) {
        Option::None => true,
        Option::Some(JsonValue::Object(_)) => true,
        _ => false,
    }
}

/// Some version matches the text.
pub open spec fn version_text_ok(t: Seq<char>) -> bool {
    exists|v: Version| version_matches(t, v)
}

/// A version entry's manifest object has the required shape: a well-formed
/// `version` string, url and name absent or strings, `yanked` absent or a
/// boolean.
pub open spec fn manifest_ok(es: Seq<(Seq<char>, JsonValue)>) -> bool {
    &&& match lookup(es, "version"@) {
        Option::Some(JsonValue::Str(vs)) => version_text_ok(vs@),
        _ => false,
    }
    &&& scalar_ok(es, "url"@)
    &&& scalar_ok(es, "name"@)
    &&& match lookup(es, "yanked"@) {
        Option::None => true,
        Option::Some(JsonValue::Bool(_)) => true,
        _ => false,
    }
}

/// A `versions` map whose keys are well-formed version texts and whose
/// values are manifest objects.
pub open spec fn catalog_ok(es: Seq<(Seq<char>, JsonValue)>) -> bool {
    forall|x: int|
        0 <= x < es.len() ==> version_text_ok((#[trigger] es[x]).0) && match es[x].1 {
            JsonValue::Object(mo) => manifest_ok(mo.fields()),
            _ => false,
        }
}

/// A package object: its `versions`, when present, is a well-formed map.
pub open spec fn package_ok(es: Seq<(Seq<char>, JsonValue)>) -> bool {
    match lookup(es, "versions"@) {
        Option::None => true,
        Option::Some(JsonValue::Object(vo)) => catalog_ok(vo.fields()),
        _ => false,
    }
}

/// A `packages` map whose values are package objects.
pub open spec fn packages_list_ok(es: Seq<(Seq<char>, JsonValue)>) -> bool {
    forall|x: int|
        0 <= x < es.len() ==> match (#[trigger] es[x]).1 {
            JsonValue::Object(po) => package_ok(po.fields()),
            _ => false,
        }
}

/// The whole document has the index's typed shape.
pub open spec fn index_shape_ok(es: Seq<(Seq<char>, JsonValue)>) -> bool {
    &&& scalar_ok(es, "name"@)
    &&& scalar_ok(es, "url"@)
    &&& scalar_ok(es, "id"@)
    &&& match lookup(es, "packages"@) {
        Option::None => true,
        Option::Some(JsonValue::Object(po)) => packages_list_ok(po.fields()),
        _ => false,
    }
}

/// Whether a field is the boolean `true`.
pub open spec fn bool_true_field(es: Seq<(Seq<char>, JsonValue)>, key: Seq<char>) -> bool {
    lookup(es, key) == Some(JsonValue::Bool(true))
}

pub open spec fn opt_view(o: Option<String>) -> Option<Seq<char>> {
    match o {
        Some(s) => Some(s@),
        None => None,
    }
}

/// One package of the index: its name and its version catalog.
#[derive(Debug)]
pub struct PackageEntry {
    pub name: String,
    pub packages: RemotePackages,
}

/// Package names are unique and every catalog is well-formed.
pub open spec fn packages_wf(ps: Seq<PackageEntry>) -> bool {
    &&& forall|i: int, j: int| 0 <= i < j < ps.len() ==> ps[i].name@ != ps[j].name@
    &&& forall|i: int| 0 <= i < ps.len() ==> (#[trigger] ps[i]).packages.wf()
}

/// `i` is the entry of the named package.
pub open spec fn pkg_at(ps: Seq<PackageEntry>, name: Seq<char>, i: int) -> bool {
    0 <= i < ps.len() && ps[i].name@ == name
}

pub open spec fn has_package(ps: Seq<PackageEntry>, name: Seq<char>) -> bool {
    exists|i: int| pkg_at(ps, name, i)
}

/// The three scalar field names of an index are distinct keys.
proof fn lemma_distinct_keys()
    ensures
        "name"@ != "id"@,
        "name"@ != "url"@,
        "url"@ != "id"@,
{
    reveal_strlit("name");
    reveal_strlit("url");
    reveal_strlit("id");
    assert("name"@.len() == 4);
    assert("url"@.len() == 3);
    assert("id"@.len() == 2);
}

/// A parsed remote package index. The original document is retained
/// verbatim in `actual`; the typed view is derived from it at parse time,
/// and the two are only ever changed together.
#[derive(Debug)]
pub struct RemoteRepository {
    actual: JsonObject,
    name: Option<String>,
    url: Option<String>,
    id: Option<String>,
    packages: Vec<PackageEntry>,
}

impl RemoteRepository {
    /// The raw document's fields.
    pub closed spec fn raw(&self) -> Seq<(Seq<char>, JsonValue)> {
        self.actual.fields()
    }

    pub closed spec fn spec_name(&self) -> Option<Seq<char>> {
        opt_view(self.name)
    }

    pub closed spec fn spec_url(&self) -> Option<Seq<char>> {
        opt_view(self.url)
    }

    pub closed spec fn spec_id(&self) -> Option<Seq<char>> {
        opt_view(self.id)
    }

    pub closed spec fn spec_packages(&self) -> Seq<PackageEntry> {
        self.packages@
    }

    /// The typed scalar fields always mirror the raw document, and the
    /// package map is well-formed.
    pub open spec fn wf(&self) -> bool {
        &&& self.spec_name() == str_field(self.raw(), "name"@)
        &&& self.spec_url() == str_field(self.raw(), "url"@)
        &&& self.spec_id() == str_field(self.raw(), "id"@)
        &&& packages_wf(self.spec_packages())
    }

    /// The retained document, which re-serialization must emit: together
    /// with `parse`, serializing a freshly parsed index reproduces the
    /// original document exactly.
    pub fn raw_document(&self) -> (r: &JsonObject)
        ensures
            r.fields() == self.raw(),
    {
        &self.actual
    }

    /// Declared repository URL, if any.
    pub fn url(&self) -> (r: Option<&String>)
        ensures
            opt_view_ref(r) == self.spec_url(),
    {
        self.url.as_ref()
    }

    /// Declared repository id, if any.
    pub fn id(&self) -> (r: Option<&String>)
        ensures
            opt_view_ref(r) == self.spec_id(),
    {
        self.id.as_ref()
    }

    /// Declared repository name, if any.
    pub fn name(&self) -> (r: Option<&String>)
        ensures
            opt_view_ref(r) == self.spec_name(),
    {
        self.name.as_ref()
    }

    /// Every package of the index with its catalog, in document order.
    pub fn get_packages(&self) -> (r: &Vec<PackageEntry>)
        ensures
            r@ == self.spec_packages(),
    {
        &self.packages
    }

    /// The catalog of the named package, or `None` when the index does not
    /// list it (absence of a package is not an error).
    pub fn get_package(&self, name: &str) -> (r: Option<&RemotePackages>)
        ensures
            r is Some <==> has_package(self.spec_packages(), name@),
            r matches Some(c) ==> exists|i: int|
                pkg_at(self.spec_packages(), name@, i) && *c == self.spec_packages()[i].packages,
    {
        let n = self.packages.len();
        let mut i: usize = 0;
        while i < n
            invariant
                n == self.packages@.len(),
                i <= n,
                forall|j: int| 0 <= j < i ==> self.packages@[j].name@ != name@,
            decreases n - i,
        {
            if str_eq(self.packages[i].name.as_str(), name) {
                proof {
                    assert(pkg_at(self.spec_packages(), name@, i as int));
                }
                return Some(&self.packages[i].packages);
            }
            i = i + 1;
        }
        None
    }

    /// All manifests of the named package; empty when the index does not
    /// list the package.
    pub fn get_versions_of(&self, package: &str) -> (r: Vec<&PackageManifest>)
        requires
            self.wf(),
        ensures
            !has_package(self.spec_packages(), package@) ==> r@.len() == 0,
            forall|i: int|
                pkg_at(self.spec_packages(), package@, i) ==> {
                    &&& r@.len() == self.spec_packages()[i].packages@.len()
                    &&& forall|k: int|
                        0 <= k < r@.len() ==> *r@[k] == self.spec_packages()[i].packages@[k]
                },
    {
        let cat = match self.get_package(package) {
            Some(c) => c,
            None => {
                return Vec::new();
            },
        };
        proof {
            let ps = self.spec_packages();
            let i0 = choose|i: int| pkg_at(ps, package@, i) && *cat == ps[i].packages;
            assert forall|i: int| pkg_at(ps, package@, i) implies ps[i].packages == *cat by {
                if i < i0 {
                    assert(ps[i].name@ != ps[i0].name@);
                } else if i > i0 {
                    assert(ps[i0].name@ != ps[i].name@);
                }
            }
        }
        let vs = cat.all_versions();
        let n = vs.len();
        let mut r: Vec<&PackageManifest> = Vec::new();
        let mut i: usize = 0;
        while i < n
            invariant
                n == vs@.len(),
                i <= n,
                r@.len() == i,
                vs@ == cat@,
                forall|k: int| 0 <= k < i ==> r@[k] == &vs@[k],
            decreases n - i,
        {
            r.push(&vs[i]);
            i = i + 1;
        }
        r
    }

    /// The manifest of one exact version of a package, if the index has it.
    pub fn get_package_version(&self, name: &str, version: &Version) -> (r: Option<
        &PackageManifest,
    >)
        requires
            self.wf(),
        ensures
            !has_package(self.spec_packages(), name@) ==> r is None,
            forall|i: int|
                pkg_at(self.spec_packages(), name@, i) ==> {
                    &&& (r is Some <==> crate::catalog::has_version(
                        self.spec_packages()[i].packages@,
                        version_key(*version),
                    ))
                    &&& (r matches Some(m) ==> version_key(m.version) == version_key(*version)
                        && exists|k: int|
                        0 <= k < self.spec_packages()[i].packages@.len()
                            && self.spec_packages()[i].packages@[k] == *m)
                },
    {
        match self.get_package(name) {
            Some(c) => {
                let r = c.get(version);
                proof {
                    let ps = self.spec_packages();
                    let i0 = choose|i: int| pkg_at(ps, name@, i) && *c == ps[i].packages;
                    assert forall|i: int| pkg_at(ps, name@, i) implies ps[i].packages == *c by {
                        if i < i0 {
                            assert(ps[i].name@ != ps[i0].name@);
                        } else if i > i0 {
                            assert(ps[i0].name@ != ps[i].name@);
                        }
                    }
                }
                r
            },
            None => None,
        }
    }

    /// Backfills the id when the source document declared none: writes it
    /// to the typed view and through to the raw document.
    pub fn set_id_if_none(&mut self, id: &str)
        requires
            old(self).wf(),
        ensures
            final(self).wf(),
            old(self).spec_id() is Some ==> *final(self) == *old(self),
            old(self).spec_id() is None ==> {
                &&& final(self).spec_id() == Some(id@)
                &&& final(self).spec_name() == old(self).spec_name()
                &&& final(self).spec_url() == old(self).spec_url()
                &&& final(self).spec_packages() == old(self).spec_packages()
                &&& str_field(final(self).raw(), "id"@) == Some(id@)
                &&& forall|k: Seq<char>|
                    k != "id"@ ==> lookup(final(self).raw(), k) == lookup(old(self).raw(), k)
            },
    {
        if self.id.is_none() {
            self.id = Some(id.to_owned());
            let ghost before = self.actual.fields();
            let val = JsonValue::Str(id.to_owned());
            let ghost gval = val;
            self.actual.insert("id", val);
            proof {
                let key = "id"@;
                if has_key(before, key) {
                    let w = choose|x: int| 0 <= x < before.len() && before[x].0 == key;
                    lemma_first_exists(before, key, w);
                    let i = crate::json::first_index(before, key);
                    assert(first_match(before, key, i));
                    lemma_update_lookup(before, key, gval, i);
                    assert(self.actual.fields() == before.update(i, (key, gval)));
                } else {
                    lemma_push_lookup(before, key, gval);
                }
                lemma_distinct_keys();
            }
        }
    }

    /// Backfills the URL when the source document declared none; when the
    /// id is also absent, it defaults to the same text, modelling "the
    /// index's own URL is its identity".
    pub fn set_url_if_none(&mut self, url: &str)
        requires
            old(self).wf(),
        ensures
            final(self).wf(),
            old(self).spec_url() is Some ==> *final(self) == *old(self),
            old(self).spec_url() is None ==> {
                &&& final(self).spec_url() == Some(url@)
                &&& final(self).spec_name() == old(self).spec_name()
                &&& final(self).spec_packages() == old(self).spec_packages()
                &&& str_field(final(self).raw(), "url"@) == Some(url@)
                &&& final(self).spec_id() == (if old(self).spec_id() is Some {
                    old(self).spec_id()
                } else {
                    Some(url@)
                })
                &&& forall|k: Seq<char>|
                    k != "url"@ && k != "id"@ ==> lookup(final(self).raw(), k) == lookup(
                        old(self).raw(),
                        k,
                    )
            },
    {
        if self.url.is_none() {
            self.url = Some(url.to_owned());
            let ghost before = self.actual.fields();
            let val = JsonValue::Str(url.to_owned());
            let ghost gval = val;
            self.actual.insert("url", val);
            proof {
                let key = "url"@;
                if has_key(before, key) {
                    let w = choose|x: int| 0 <= x < before.len() && before[x].0 == key;
                    lemma_first_exists(before, key, w);
                    let i = crate::json::first_index(before, key);
                    assert(first_match(before, key, i));
                    lemma_update_lookup(before, key, gval, i);
                    assert(self.actual.fields() == before.update(i, (key, gval)));
                } else {
                    lemma_push_lookup(before, key, gval);
                }
                lemma_distinct_keys();
            }
            self.set_id_if_none(url);
        }
    }
}

pub open spec fn opt_view_ref(o: Option<&String>) -> Option<Seq<char>> {
    match o {
        Some(s) => Some(s@),
        None => None,
    }
}

/// Reads an optional string field: absent is fine, any non-string value is
/// a malformed index.
fn opt_str_field(doc: &JsonObject, key: &str) -> (r: Result<Option<String>, IndexError>)
    ensures
        r matches Ok(o) ==> opt_view(o) == str_field(doc.fields(), key@),
        r is Ok <==> scalar_ok(doc.fields(), key@),
{
    match doc.get(key) {
        None => Ok(None),
        Some(v) => match v {
            JsonValue::Str(s) => Ok(Some(s.clone())),
            _ => Err(IndexError::MalformedIndex),
        },
    }
}

/// Reads one version's manifest object. The version text is the key of the
/// entry in the index's `versions` map; the manifest must also carry a
/// well-formed `version` field, as published indexes do.
fn parse_manifest(version_text: &str, mo: &JsonObject) -> (r: Result<PackageManifest, IndexError>)
    ensures
        version_text_ok(version_text@) && manifest_ok(mo.fields()) ==> r is Ok,
        r is Ok ==> version_text_ok(version_text@) && manifest_ok(mo.fields()),
        r matches Ok(m) ==> {
            &&& version_matches(version_text@, m.version)
            &&& m.version_text@ == version_text@
            &&& opt_view(m.url) == str_field(mo.fields(), "url"@)
            &&& opt_view(m.name) == str_field(mo.fields(), "name"@)
            &&& m.yanked == bool_true_field(mo.fields(), "yanked"@)
        },
{
    let version = match parse_version(version_text) {
        Some(v) => v,
        None => {
            return Err(IndexError::MalformedIndex);
        },
    };
    proof {
        assert(version_matches(version_text@, version));
    }
    match mo.get("version") {
        Some(v) => match v {
            JsonValue::Str(vs) => {
                match parse_version(vs.as_str()) {
                    Some(fv) => {
                        proof {
                            assert(version_matches(vs@, fv));
                        }
                    },
                    None => {
                        return Err(IndexError::MalformedIndex);
                    },
                }
            },
            _ => {
                return Err(IndexError::MalformedIndex);
            },
        },
        None => {
            return Err(IndexError::MalformedIndex);
        },
    }
    let url = match opt_str_field(mo, "url") {
        Ok(o) => o,
        Err(e) => {
            return Err(e);
        },
    };
    let name = match opt_str_field(mo, "name") {
        Ok(o) => o,
        Err(e) => {
            return Err(e);
        },
    };
    let yanked = match mo.get("yanked") {
        None => false,
        Some(v) => match v {
            JsonValue::Bool(b) => *b,
            _ => {
                return Err(IndexError::MalformedIndex);
            },
        },
    };
    Ok(PackageManifest::new(name, version, version_text.to_owned(), url, yanked))
}

/// Reads a package's `versions` map into a catalog; a later duplicate of a
/// version replaces the earlier entry, as a JSON map does.
fn parse_catalog(vo: &JsonObject) -> (r: Result<RemotePackages, IndexError>)
    ensures
        r matches Ok(c) ==> c.wf(),
        catalog_ok(vo.fields()) ==> r is Ok,
        r is Ok ==> catalog_ok(vo.fields()),
{
    let mut cat = RemotePackages::new();
    let es = vo.entries();
    let n = es.len();
    let mut i: usize = 0;
    while i < n
        invariant
            n == es@.len(),
            i <= n,
            cat.wf(),
            n == vo.fields().len(),
            forall|x: int| 0 <= x < n ==> vo.fields()[x] == ((#[trigger] es@[x]).key@, es@[x].value),
            forall|x: int|
                0 <= x < i ==> version_text_ok((#[trigger] vo.fields()[x]).0) && match vo.fields()[x].1 {
                    JsonValue::Object(mo) => manifest_ok(mo.fields()),
                    _ => false,
                },
        decreases n - i,
    {
        let mo = match &es[i].value {
            JsonValue::Object(o) => o,
            _ => {
                return Err(IndexError::MalformedIndex);
            },
        };
        let m = match parse_manifest(es[i].key.as_str(), mo) {
            Ok(m) => m,
            Err(e) => {
                return Err(e);
            },
        };
        cat.insert(m);
        i = i + 1;
    }
    Ok(cat)
}

/// Adds a package's catalog under its name, replacing an earlier entry of
/// the same name in place.
fn upsert_package(out: &mut Vec<PackageEntry>, name: &str, cat: RemotePackages)
    requires
        packages_wf(old(out)@),
        cat.wf(),
    ensures
        packages_wf(final(out)@),
{
    let n = out.len();
    let mut i: usize = 0;
    while i < n
        invariant
            n == out@.len(),
            i <= n,
            *out == *old(out),
            packages_wf(out@),
            cat.wf(),
            forall|j: int| 0 <= j < i ==> out@[j].name@ != name@,
        decreases n - i,
    {
        if str_eq(out[i].name.as_str(), name) {
            out.set(i, PackageEntry { name: name.to_owned(), packages: cat });
            proof {
                assert forall|x: int, y: int| 0 <= x < y < out@.len() implies out@[x].name@
                    != out@[y].name@ by {
                    assert(old(out)@[x].name@ != old(out)@[y].name@);
                }
            }
            return ;
        }
        i = i + 1;
    }
    out.push(PackageEntry { name: name.to_owned(), packages: cat });
    proof {
        assert forall|x: int, y: int| 0 <= x < y < out@.len() implies out@[x].name@
            != out@[y].name@ by {
            if y < old(out)@.len() {
                assert(old(out)@[x].name@ != old(out)@[y].name@);
            }
        }
    }
}

/// Reads the index's `packages` map; a later duplicate of a package name
/// replaces the earlier entry, as a JSON map does.
fn parse_packages(po: &JsonObject) -> (r: Result<Vec<PackageEntry>, IndexError>)
    ensures
        r matches Ok(ps) ==> packages_wf(ps@),
        packages_list_ok(po.fields()) ==> r is Ok,
        r is Ok ==> packages_list_ok(po.fields()),
{
    let mut out: Vec<PackageEntry> = Vec::new();
    let es = po.entries();
    let n = es.len();
    let mut i: usize = 0;
    while i < n
        invariant
            n == es@.len(),
            i <= n,
            packages_wf(out@),
            n == po.fields().len(),
            forall|x: int| 0 <= x < n ==> po.fields()[x] == ((#[trigger] es@[x]).key@, es@[x].value),
            forall|x: int|
                0 <= x < i ==> match (#[trigger] po.fields()[x]).1 {
                    JsonValue::Object(pv) => package_ok(pv.fields()),
                    _ => false,
                },
        decreases n - i,
    {
        let pv = match &es[i].value {
            JsonValue::Object(o) => o,
            _ => {
                return Err(IndexError::MalformedIndex);
            },
        };
        let cat = match pv.get("versions") {
            None => RemotePackages::new(),
            Some(v) => match v {
                JsonValue::Object(vo) => match parse_catalog(vo) {
                    Ok(c) => c,
                    Err(e) => {
                        return Err(e);
                    },
                },
                _ => {
                    return Err(IndexError::MalformedIndex);
                },
            },
        };
        upsert_package(&mut out, es[i].key.as_str(), cat);
        i = i + 1;
    }
    Ok(out)
}

impl RemoteRepository {
    /// Parses the typed view out of an index document. The document itself
    /// is retained verbatim: a parsed index re-serializes to exactly the
    /// document it was parsed from, unknown fields included, until a
    /// backfill setter writes through it.
    pub fn parse(doc: JsonObject) -> (r: Result<RemoteRepository, IndexError>)
        ensures
            r matches Ok(repo) ==> {
                &&& repo.raw() == doc.fields()
                &&& repo.wf()
                &&& repo.spec_name() == str_field(doc.fields(), "name"@)
                &&& repo.spec_url() == str_field(doc.fields(), "url"@)
                &&& repo.spec_id() == str_field(doc.fields(), "id"@)
            },
            !scalar_ok(doc.fields(), "name"@) ==> r is Err,
            !scalar_ok(doc.fields(), "url"@) ==> r is Err,
            !scalar_ok(doc.fields(), "id"@) ==> r is Err,
            !packages_shape_ok(doc.fields()) ==> r is Err,
            r is Ok <==> index_shape_ok(doc.fields()),
            r matches Ok(repo) ==> (!has_key(doc.fields(), "packages"@)
                ==> repo.spec_packages() =~= Seq::<PackageEntry>::empty()),
    {
        let name = match opt_str_field(&doc, "name") {
            Ok(o) => o,
            Err(e) => {
                return Err(e);
            },
        };
        let url = match opt_str_field(&doc, "url") {
            Ok(o) => o,
            Err(e) => {
                return Err(e);
            },
        };
        let id = match opt_str_field(&doc, "id") {
            Ok(o) => o,
            Err(e) => {
                return Err(e);
            },
        };
        let packages = match doc.get("packages") {
            None => Vec::new(),
            Some(v) => match v {
                JsonValue::Object(po) => match parse_packages(po) {
                    Ok(ps) => ps,
                    Err(e) => {
                        return Err(e);
                    },
                },
                _ => {
                    return Err(IndexError::MalformedIndex);
                },
            },
        };
        Ok(RemoteRepository { actual: doc, name, url, id, packages })
    }
}

} // verus!
