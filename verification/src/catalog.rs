//! The per-package version catalog: manifests keyed by version, and the
//! "best matching version" queries with their yanked-release semantics.
use crate::version::{
    lemma_version_asym, lemma_version_irrefl, lemma_version_total, lemma_version_trans,
    version_key, version_le, version_lt, Version,
};
use vstd::prelude::*;

verus! {

/// Per-version package metadata from the repository index.
#[derive(Debug, Clone)]
pub struct PackageManifest {
    /// Package name, when the manifest declares one.
    pub name: Option<String>,
    /// The version this manifest describes.
    pub version: Version,
    /// The version exactly as written in the index document.
    pub version_text: String,
    /// Download URL of the package archive, when declared.
    pub url: Option<String>,
    /// Whether this release has been withdrawn from default selection.
    pub yanked: bool,
}

impl PackageManifest {
    pub fn new(
        name: Option<String>,
        version: Version,
        version_text: String,
        url: Option<String>,
        yanked: bool,
    ) -> (r: Self)
        ensures
            r.name == name,
            r.version == version,
            r.version_text == version_text,
            r.url == url,
            r.yanked == yanked,
    {
        PackageManifest { name, version, version_text, url, yanked }
    }

    pub fn version(&self) -> (r: &Version)
        ensures
            *r == self.version,
    {
        &self.version
    }

    pub fn is_yanked(&self) -> (r: bool)
        ensures
            r == self.yanked,
    {
        self.yanked
    }

    pub fn url(&self) -> (r: Option<&String>)
        ensures
            match r {
                Some(u) => self.url == Some(*u),
                None => self.url is None,
            },
    {
        self.url.as_ref()
    }

    pub fn name(&self) -> (r: Option<&String>)
        ensures
            match r {
                Some(n) => self.name == Some(*n),
                None => self.name is None,
            },
    {
        self.name.as_ref()
    }
}

/// A version constraint: the predicate a caller resolves against.
#[derive(Debug, Clone)]
pub enum VersionSelector {
    /// Matches every version.
    Any,
    /// Matches exactly one version.
    Exact(Version),
    /// Matches the given version and anything above it.
    AtLeast(Version),
}

pub open spec fn selector_satisfies(sel: VersionSelector, v: Version) -> bool {
    match sel {
        VersionSelector::Any => true,
        VersionSelector::Exact(w) => version_key(v) == version_key(w),
        VersionSelector::AtLeast(w) => version_le(w, v),
    }
}

/// The manifest satisfies the selector.
pub open spec fn selected(m: PackageManifest, sel: VersionSelector) -> bool {
    selector_satisfies(sel, m.version)
}

/// The manifest satisfies the selector and is not yanked.
pub open spec fn selected_live(m: PackageManifest, sel: VersionSelector) -> bool {
    selector_satisfies(sel, m.version) && !m.yanked
}

impl VersionSelector {
    /// Decides whether a manifest's version satisfies this constraint.
    pub fn satisfies(&self, m: &PackageManifest) -> (r: bool)
        ensures
            r == selected(*m, *self),
    {
        match self {
            VersionSelector::Any => true,
            VersionSelector::Exact(w) => {
                let lt1 = m.version.lt(w);
                let lt2 = w.lt(&m.version);
                proof {
                    lemma_version_total(m.version, *w);
                    if version_key(m.version) == version_key(*w) {
                        lemma_version_irrefl(m.version, *w);
                        lemma_version_irrefl(*w, m.version);
                    }
                }
                !lt1 && !lt2
            },
            VersionSelector::AtLeast(w) => {
                let lt = m.version.lt(w);
                proof {
                    lemma_version_total(*w, m.version);
                    if version_lt(m.version, *w) {
                        lemma_version_asym(m.version, *w);
                        if version_key(*w) == version_key(m.version) {
                            lemma_version_irrefl(m.version, *w);
                        }
                    }
                }
                !lt
            },
        }
    }
}

/// No two manifests in the catalog describe the same version.
pub open spec fn unique_versions(ms: Seq<PackageManifest>) -> bool {
    forall|i: int, j: int|
        0 <= i < j < ms.len() ==> version_key(ms[i].version) != version_key(ms[j].version)
}

/// The manifests a package offers, at most one per version.
#[derive(Debug, Clone)]
pub struct RemotePackages {
    versions: Vec<PackageManifest>,
}

impl View for RemotePackages {
    type V = Seq<PackageManifest>;

    closed spec fn view(&self) -> Seq<PackageManifest> {
        self.versions@
    }
}

pub open spec fn has_version(ms: Seq<PackageManifest>, key: (u64, u64, u64, Seq<char>, Seq<char>)) -> bool {
    exists|i: int| 0 <= i < ms.len() && version_key(ms[i].version) == key
}

impl RemotePackages {
    /// At most one manifest per version.
    pub open spec fn wf(&self) -> bool {
        unique_versions(self@)
    }

    /// An empty catalog: a package with no published versions.
    pub fn new() -> (r: Self)
        ensures
            r@ =~= Seq::<PackageManifest>::empty(),
            r.wf(),
    {
        RemotePackages { versions: Vec::new() }
    }

    /// Adds a manifest, replacing in place any manifest of the same version.
    pub fn insert(&mut self, m: PackageManifest)
        requires
            old(self).wf(),
        ensures
            final(self).wf(),
            !has_version(old(self)@, version_key(m.version)) ==> final(self)@ == old(self)@.push(
                m,
            ),
            forall|i: int|
                0 <= i < old(self)@.len() && version_key(old(self)@[i].version) == version_key(
                    m.version,
                ) ==> final(self)@ == old(self)@.update(i, m),
    {
        let n = self.versions.len();
        let mut i: usize = 0;
        while i < n
            invariant
                n == self.versions@.len(),
                i <= n,
                *self == *old(self),
                old(self).wf(),
                forall|x: int|
                    0 <= x < i ==> version_key(self.versions@[x].version) != version_key(m.version),
        decreases n - i,
        {
            let same = {
                let lt1 = self.versions[i].version.lt(&m.version);
                let lt2 = m.version.lt(&self.versions[i].version);
                proof {
                    lemma_version_total(self.versions@[i as int].version, m.version);
                    if version_key(self.versions@[i as int].version) == version_key(m.version) {
                        lemma_version_irrefl(self.versions@[i as int].version, m.version);
                        lemma_version_irrefl(m.version, self.versions@[i as int].version);
                    }
                }
                !lt1 && !lt2
            };
            if same {
                proof {
                    assert(version_key(self.versions@[i as int].version) == version_key(m.version));
                }
                self.versions.set(i, m);
                proof {
                    assert(self.versions@ == old(self)@.update(i as int, m));
                    assert(unique_versions(old(self)@));
                    assert forall|j: int|
                        0 <= j < old(self)@.len() && version_key(old(self)@[j].version)
                            == version_key(m.version) implies j == i as int by {
                        if j < i {
                            assert(version_key(old(self)@[j].version) != version_key(m.version));
                        } else if j > i {
                            assert(version_key(old(self)@[i as int].version) != version_key(
                                old(self)@[j].version,
                            ));
                        }
                    }
                    assert forall|x: int, y: int| 0 <= x < y < self.versions@.len()
                        implies version_key(self.versions@[x].version) != version_key(
                        self.versions@[y].version,
                    ) by {
                        assert(0 <= x < y < old(self)@.len());
                        assert(version_key(old(self)@[x].version) != version_key(
                            old(self)@[y].version,
                        ));
                    }
                }
                return ;
            }
            i = i + 1;
        }
        self.versions.push(m);
        assert(self.versions@ == old(self)@.push(m));
        assert forall|x: int, y: int| 0 <= x < y < self.versions@.len()
            implies version_key(self.versions@[x].version) != version_key(
            self.versions@[y].version,
        ) by {
            if y < old(self)@.len() {
                assert(version_key(old(self)@[x].version) != version_key(old(self)@[y].version));
            }
        }
    }

    /// Every manifest of the package, in catalog order.
    pub fn all_versions(&self) -> (r: &Vec<PackageManifest>)
        ensures
            r@ == self@,
    {
        &self.versions
    }

    /// The manifest for an exact version, if the catalog has it.
    pub fn get(&self, version: &Version) -> (r: Option<&PackageManifest>)
        ensures
            r is Some <==> has_version(self@, version_key(*version)),
            r matches Some(m) ==> version_key(m.version) == version_key(*version) && (exists|i: int|
                0 <= i < self@.len() && self@[i] == *m),
    {
        let n = self.versions.len();
        let mut i: usize = 0;
        while i < n
            invariant
                n == self@.len(),
                i <= n,
                forall|x: int|
                    0 <= x < i ==> version_key(self@[x].version) != version_key(*version),
            decreases n - i,
        {
            let same = {
                let lt1 = self.versions[i].version.lt(version);
                let lt2 = version.lt(&self.versions[i].version);
                proof {
                    lemma_version_total(self@[i as int].version, *version);
                    if version_key(self@[i as int].version) == version_key(*version) {
                        lemma_version_irrefl(self@[i as int].version, *version);
                        lemma_version_irrefl(*version, self@[i as int].version);
                    }
                }
                !lt1 && !lt2
            };
            if same {
                return Some(&self.versions[i]);
            }
            i = i + 1;
        }
        None
    }

    /// The greatest version satisfying the selector among manifests that are
    /// not yanked. Never returns a yanked manifest.
    pub fn get_latest(&self, selector: &VersionSelector) -> (r: Option<&PackageManifest>)
        ensures
            r is Some <==> exists|i: int| 0 <= i < self@.len() && selected_live(self@[i], *selector),
            r matches Some(m) ==> {
                &&& exists|i: int| 0 <= i < self@.len() && self@[i] == *m
                &&& selected_live(*m, *selector)
                &&& !m.yanked
                &&& forall|i: int|
                    0 <= i < self@.len() && selected_live(self@[i], *selector) ==> version_le(
                        self@[i].version,
                        m.version,
                    )
            },
    {
        let n = self.versions.len();
        let mut best: Option<&PackageManifest> = None;
        let mut i: usize = 0;
        while i < n
            invariant
                n == self@.len(),
                i <= n,
                best is None ==> forall|x: int|
                    0 <= x < i ==> !selected_live(self@[x], *selector),
                best matches Some(b) ==> {
                    &&& exists|x: int| 0 <= x < self@.len() && self@[x] == *b
                    &&& selected_live(*b, *selector)
                    &&& forall|x: int|
                        0 <= x < i && selected_live(self@[x], *selector) ==> version_le(
                            self@[x].version,
                            b.version,
                        )
                },
            decreases n - i,
        {
            let m = &self.versions[i];
            if selector.satisfies(m) && !m.is_yanked() {
                match best {
                    None => {
                        best = Some(m);
                    },
                    Some(b) => {
                        if b.version.lt(&m.version) {
                            assert forall|x: int|
                                0 <= x < i + 1 && selected_live(self@[x], *selector)
                                implies version_le(self@[x].version, m.version) by {
                                if x < i {
                                    if version_lt(self@[x].version, b.version) {
                                        lemma_version_trans(
                                            self@[x].version,
                                            b.version,
                                            m.version,
                                        );
                                    }
                                }
                            }
                            best = Some(m);
                        } else {
                            proof {
                                lemma_version_total(m.version, b.version);
                            }
                        }
                    },
                }
            }
            i = i + 1;
        }
        best
    }

    /// Two-tier selection: the best non-yanked match if one exists, else the
    /// best match regardless of yanked status, so a pinned version remains
    /// installable after being yanked. Returns a yanked manifest only when
    /// no non-yanked manifest satisfies the selector.
    pub fn get_latest_may_yanked(&self, selector: &VersionSelector) -> (r: Option<
        &PackageManifest,
    >)
        ensures
            r is Some <==> exists|i: int| 0 <= i < self@.len() && selected(self@[i], *selector),
            r matches Some(m) ==> {
                &&& exists|i: int| 0 <= i < self@.len() && self@[i] == *m
                &&& selected(*m, *selector)
                &&& (exists|i: int|
                    0 <= i < self@.len() && selected_live(self@[i], *selector)) ==> (!m.yanked
                    && forall|i: int|
                    0 <= i < self@.len() && selected_live(self@[i], *selector) ==> version_le(
                        self@[i].version,
                        m.version,
                    ))
                &&& !(exists|i: int|
                    0 <= i < self@.len() && selected_live(self@[i], *selector)) ==> forall|i: int|
                    0 <= i < self@.len() && selected(self@[i], *selector) ==> version_le(
                        self@[i].version,
                        m.version,
                    )
            },
            r matches Some(m) && m.yanked ==> forall|i: int|
                0 <= i < self@.len() ==> !selected_live(self@[i], *selector),
    {
        let live = self.get_latest(selector);
        if live.is_some() {
            return live;
        }
        let n = self.versions.len();
        let mut best: Option<&PackageManifest> = None;
        let mut i: usize = 0;
        while i < n
            invariant
                n == self@.len(),
                i <= n,
                best is None ==> forall|x: int| 0 <= x < i ==> !selected(self@[x], *selector),
                best matches Some(b) ==> {
                    &&& exists|x: int| 0 <= x < self@.len() && self@[x] == *b
                    &&& selected(*b, *selector)
                    &&& forall|x: int|
                        0 <= x < i && selected(self@[x], *selector) ==> version_le(
                            self@[x].version,
                            b.version,
                        )
                },
            decreases n - i,
        {
            let m = &self.versions[i];
            if selector.satisfies(m) {
                match best {
                    None => {
                        best = Some(m);
                    },
                    Some(b) => {
                        if b.version.lt(&m.version) {
                            assert forall|x: int|
                                0 <= x < i + 1 && selected(self@[x], *selector)
                                implies version_le(self@[x].version, m.version) by {
                                if x < i {
                                    if version_lt(self@[x].version, b.version) {
                                        lemma_version_trans(
                                            self@[x].version,
                                            b.version,
                                            m.version,
                                        );
                                    }
                                }
                            }
                            best = Some(m);
                        } else {
                            proof {
                                lemma_version_total(m.version, b.version);
                            }
                        }
                    },
                }
            }
            i = i + 1;
        }
        best
    }
}

} // verus!
