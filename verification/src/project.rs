//! Local project records of the project registry: the record type, its
//! timestamps and identifiers, and the record-level logic of the listing
//! command. The registry's storage itself is an outside collaborator.
use crate::repository::opt_view;
use vstd::multiset::Multiset;
use vstd::prelude::*;
use vstd::string::StringExecFns;

verus! {

broadcast use {vstd::seq_lib::group_to_multiset_ensures, vstd::multiset::group_multiset_axioms};

/// A moment in time, as milliseconds since the Unix epoch.
#[derive(Debug, Clone, Copy, PartialEq, Eq, Structural)]
pub struct DateTime {
    millis: i64,
}

impl DateTime {
    pub closed spec fn spec_millis(&self) -> i64 {
        self.millis
    }

    /// Relies on `std::time::SystemTime::now` and `duration_since` against
    /// the Unix epoch. Nothing is promised of the clock's reading beyond it
    /// not preceding the epoch (a reading before the epoch is taken as 0).
    #[verifier::external_body]
    pub fn now() -> (r: DateTime)
        ensures
            r.spec_millis() >= 0,
    {
        let millis = match std::time::SystemTime::now().duration_since(std::time::UNIX_EPOCH) {
            Ok(d) => d.as_millis() as i64,
            Err(_) => 0,
        };
        DateTime { millis }
    }

    pub fn from_millis(millis: i64) -> (r: DateTime)
        ensures
            r.spec_millis() == millis,
    {
        DateTime { millis }
    }

    pub fn as_millis_since_epoch(&self) -> (r: i64)
        ensures
            r == self.spec_millis(),
    {
        self.millis
    }
}

/// Identifier of a project record, derived from the creation instant.
#[derive(Debug, Clone, Copy, PartialEq, Eq, Hash, Structural)]
pub struct ObjectId {
    raw: u128,
}

impl ObjectId {
    pub closed spec fn spec_raw(&self) -> u128 {
        self.raw
    }

    /// A fresh identifier; derived from the clock, so nothing is promised
    /// of its value.
    pub fn new() -> ObjectId {
        let t = DateTime::now();
        let m = t.as_millis_since_epoch();
        ObjectId { raw: m as u128 }
    }

    pub fn from_raw(raw: u128) -> (r: ObjectId)
        ensures
            r.spec_raw() == raw,
    {
        ObjectId { raw }
    }
}

/// The kind of a project, as the registry records it.
#[derive(Debug, Clone, Copy, PartialEq, Eq, Hash, Default, Structural)]
pub struct ProjectType(pub u32);

pub open spec fn digit_char(d: nat) -> char {
    if d == 0 {
        '0'
    } else if d == 1 {
        '1'
    } else if d == 2 {
        '2'
    } else if d == 3 {
        '3'
    } else if d == 4 {
        '4'
    } else if d == 5 {
        '5'
    } else if d == 6 {
        '6'
    } else if d == 7 {
        '7'
    } else if d == 8 {
        '8'
    } else {
        '9'
    }
}

/// Decimal digits of `n`, most significant first.
pub open spec fn dec_str(n: nat) -> Seq<char>
    decreases n,
{
    if n < 10 {
        seq![digit_char(n)]
    } else {
        dec_str(n / 10) + seq![digit_char(n % 10)]
    }
}

/// Appends the decimal rendering of `n`.
fn push_dec(s: &mut String, n: u32)
    ensures
        final(s)@ == old(s)@ + dec_str(n as nat),
    decreases n,
{
    if n >= 10 {
        push_dec(s, n / 10);
    }
    let ghost mid = s@;
    let d = n % 10;
    proof {
        reveal_strlit("0");
        reveal_strlit("1");
        reveal_strlit("2");
        reveal_strlit("3");
        reveal_strlit("4");
        reveal_strlit("5");
        reveal_strlit("6");
        reveal_strlit("7");
        reveal_strlit("8");
        reveal_strlit("9");
    }
    match d {
        0 => s.append("0"),
        1 => s.append("1"),
        2 => s.append("2"),
        3 => s.append("3"),
        4 => s.append("4"),
        5 => s.append("5"),
        6 => s.append("6"),
        7 => s.append("7"),
        8 => s.append("8"),
        _ => s.append("9"),
    }
    proof {
        assert(s@ =~= mid + seq![digit_char(d as nat)]);
        if n >= 10 {
            assert(s@ =~= old(s)@ + (dec_str((n / 10) as nat) + seq![digit_char((n % 10) as nat)]));
        }
    }
}

/// The display label of each known project kind; an unexpected raw value
/// is shown with the value itself.
pub open spec fn type_label(t: u32) -> Seq<char> {
    if t == 0 {
        "Unknown"@
    } else if t == 1 {
        "Legacy SDK2"@
    } else if t == 2 {
        "Legacy Worlds"@
    } else if t == 3 {
        "Legacy Avatars"@
    } else if t == 4 {
        "UPM Worlds"@
    } else if t == 5 {
        "UPM Avatars"@
    } else if t == 6 {
        "UPM Starter"@
    } else if t == 7 {
        "Worlds"@
    } else if t == 8 {
        "Avatars"@
    } else if t == 9 {
        "VPM Starter"@
    } else {
        "Unexpected("@ + dec_str(t as nat) + ")"@
    }
}

impl ProjectType {
    /// The label the listing shows for this kind.
    pub fn label(&self) -> (r: String)
        ensures
            r@ == type_label(self.0 as u32),
    {
        if self.0 == 0 {
            String::from_str("Unknown")
        } else if self.0 == 1 {
            String::from_str("Legacy SDK2")
        } else if self.0 == 2 {
            String::from_str("Legacy Worlds")
        } else if self.0 == 3 {
            String::from_str("Legacy Avatars")
        } else if self.0 == 4 {
            String::from_str("UPM Worlds")
        } else if self.0 == 5 {
            String::from_str("UPM Avatars")
        } else if self.0 == 6 {
            String::from_str("UPM Starter")
        } else if self.0 == 7 {
            String::from_str("Worlds")
        } else if self.0 == 8 {
            String::from_str("Avatars")
        } else if self.0 == 9 {
            String::from_str("VPM Starter")
        } else {
            let mut s = String::from_str("Unexpected(");
            push_dec(&mut s, self.0);
            s.append(")");
            s
        }
    }
}

/// One project known to the registry.
#[derive(Debug, Clone)]
pub struct Project {
    path: String,
    unity_version: Option<String>,
    created_at: DateTime,
    last_modified: DateTime,
    type_: ProjectType,
    id: ObjectId,
    favorite: bool,
}

impl Project {
    pub closed spec fn spec_path(&self) -> Seq<char> {
        self.path@
    }

    pub closed spec fn spec_unity_version(&self) -> Option<Seq<char>> {
        opt_view(self.unity_version)
    }

    pub closed spec fn spec_created_at(&self) -> DateTime {
        self.created_at
    }

    pub closed spec fn spec_last_modified(&self) -> DateTime {
        self.last_modified
    }

    pub closed spec fn spec_type(&self) -> ProjectType {
        self.type_
    }

    pub closed spec fn spec_id(&self) -> ObjectId {
        self.id
    }

    pub closed spec fn spec_favorite(&self) -> bool {
        self.favorite
    }

    /// A fresh record: created and last-modified stamps agree, and the
    /// record starts as no favorite.
    pub fn new(path: String, unity_version: Option<String>, project_type: ProjectType) -> (r: Self)
        ensures
            r.spec_path() == path@,
            r.spec_unity_version() == opt_view(unity_version),
            r.spec_type() == project_type,
            r.spec_favorite() == false,
            r.spec_created_at() == r.spec_last_modified(),
    {
        let created_at = DateTime::now();
        Project {
            path,
            unity_version,
            created_at,
            last_modified: created_at,
            type_: project_type,
            id: ObjectId::new(),
            favorite: false,
        }
    }

    pub fn id(&self) -> (r: ObjectId)
        ensures
            r == self.spec_id(),
    {
        self.id
    }

    pub fn path(&self) -> (r: &str)
        ensures
            r@ == self.spec_path(),
    {
        self.path.as_str()
    }

    pub fn project_type(&self) -> (r: ProjectType)
        ensures
            r == self.spec_type(),
    {
        self.type_
    }

    pub fn unity_version(&self) -> (r: Option<&str>)
        ensures
            match r {
                Some(v) => self.spec_unity_version() == Some(v@),
                None => self.spec_unity_version() is None,
            },
    {
        match &self.unity_version {
            Some(v) => Some(v.as_str()),
            None => None,
        }
    }

    pub fn favorite(&self) -> (r: bool)
        ensures
            r == self.spec_favorite(),
    {
        self.favorite
    }

    pub fn created_at(&self) -> (r: DateTime)
        ensures
            r == self.spec_created_at(),
    {
        self.created_at
    }

    pub fn last_modified(&self) -> (r: DateTime)
        ensures
            r == self.spec_last_modified(),
    {
        self.last_modified
    }

    pub fn set_path(&mut self, path: String)
        ensures
            final(self).spec_path() == path@,
            final(self).spec_unity_version() == old(self).spec_unity_version(),
            final(self).spec_type() == old(self).spec_type(),
            final(self).spec_id() == old(self).spec_id(),
            final(self).spec_favorite() == old(self).spec_favorite(),
            final(self).spec_created_at() == old(self).spec_created_at(),
            final(self).spec_last_modified() == old(self).spec_last_modified(),
    {
        self.path = path;
    }

    pub fn set_project_type(&mut self, project_type: ProjectType)
        ensures
            final(self).spec_type() == project_type,
            final(self).spec_path() == old(self).spec_path(),
            final(self).spec_unity_version() == old(self).spec_unity_version(),
            final(self).spec_id() == old(self).spec_id(),
            final(self).spec_favorite() == old(self).spec_favorite(),
            final(self).spec_created_at() == old(self).spec_created_at(),
            final(self).spec_last_modified() == old(self).spec_last_modified(),
    {
        self.type_ = project_type;
    }

    pub fn set_unity_version(&mut self, unity_version: Option<String>)
        ensures
            final(self).spec_unity_version() == opt_view(unity_version),
            final(self).spec_path() == old(self).spec_path(),
            final(self).spec_type() == old(self).spec_type(),
            final(self).spec_id() == old(self).spec_id(),
            final(self).spec_favorite() == old(self).spec_favorite(),
            final(self).spec_created_at() == old(self).spec_created_at(),
            final(self).spec_last_modified() == old(self).spec_last_modified(),
    {
        self.unity_version = unity_version;
    }

    pub fn set_favorite(&mut self, favorite: bool)
        ensures
            final(self).spec_favorite() == favorite,
            final(self).spec_path() == old(self).spec_path(),
            final(self).spec_unity_version() == old(self).spec_unity_version(),
            final(self).spec_type() == old(self).spec_type(),
            final(self).spec_id() == old(self).spec_id(),
            final(self).spec_created_at() == old(self).spec_created_at(),
            final(self).spec_last_modified() == old(self).spec_last_modified(),
    {
        self.favorite = favorite;
    }

    pub fn set_last_modified(&mut self, last_modified: DateTime)
        ensures
            final(self).spec_last_modified() == last_modified,
            final(self).spec_path() == old(self).spec_path(),
            final(self).spec_unity_version() == old(self).spec_unity_version(),
            final(self).spec_type() == old(self).spec_type(),
            final(self).spec_id() == old(self).spec_id(),
            final(self).spec_favorite() == old(self).spec_favorite(),
            final(self).spec_created_at() == old(self).spec_created_at(),
    {
        self.last_modified = last_modified;
    }
}

/// `a` does not come after `b` in the listing: modified at or after `b`.
pub open spec fn listed_before(a: Project, b: Project) -> bool {
    a.spec_last_modified().spec_millis() >= b.spec_last_modified().spec_millis()
}

/// Orders projects as the listing shows them: most recently modified
/// first. The result holds exactly the records it was given.
pub fn sort_projects_by_modified(projects: &mut Vec<Project>)
    ensures
        final(projects)@.len() == old(projects)@.len(),
        final(projects)@.to_multiset() == old(projects)@.to_multiset(),
        forall|i: int, j: int|
            0 <= i < j < final(projects)@.len() ==> listed_before(
                final(projects)@[i],
                final(projects)@[j],
            ),
{
    let ghost orig = projects@;
    let mut out: Vec<Project> = Vec::new();
    proof {
        assert(out@.to_multiset().add(projects@.to_multiset()) =~= orig.to_multiset());
    }
    while projects.len() > 0
        invariant
            out@.to_multiset().add(projects@.to_multiset()) =~= orig.to_multiset(),
            out@.len() + projects@.len() == orig.len(),
            forall|i: int, j: int| 0 <= i < j < out@.len() ==> listed_before(out@[i], out@[j]),
            forall|i: int, j: int|
                0 <= i < out@.len() && 0 <= j < projects@.len() ==> listed_before(
                    out@[i],
                    projects@[j],
                ),
        decreases projects@.len(),
    {
        let mut best: usize = 0;
        let mut k: usize = 1;
        while k < projects.len()
            invariant
                0 < projects@.len(),
                best < k <= projects@.len(),
                forall|t: int|
                    0 <= t < k ==> listed_before(projects@[best as int], projects@[t]),
            decreases projects@.len() - k,
        {
            let cur = projects[k].last_modified().as_millis_since_epoch();
            let best_stamp = projects[best].last_modified().as_millis_since_epoch();
            if cur > best_stamp {
                best = k;
            }
            k = k + 1;
        }
        let ghost before = projects@;
        let ghost out_before = out@;
        let m = projects.remove(best);
        out.push(m);
        proof {
            assert(before[best as int] == m);
            assert(before.contains(m));
            assert(before.to_multiset().count(m) > 0);
            assert(projects@ == before.remove(best as int));
            assert(before.remove(best as int).to_multiset() =~= before.to_multiset().remove(m));
            assert(out@ == out_before.push(m));
            assert(out_before.push(m).to_multiset() =~= out_before.to_multiset().insert(m));
            assert(out@.to_multiset().add(projects@.to_multiset()) =~= orig.to_multiset());
            assert forall|i: int, j: int|
                0 <= i < out@.len() && 0 <= j < projects@.len() implies listed_before(
                out@[i],
                projects@[j],
            ) by {
                assert(projects@[j] == if j < best { before[j] } else { before[j + 1] });
                if i < out_before.len() {
                    assert(listed_before(out@[i], projects@[j]));
                } else {
                    assert(out@[i] == m);
                    assert(listed_before(m, projects@[j]));
                }
            }
        }
    }
    proof {
        assert(projects@.to_multiset() =~= Multiset::<Project>::empty());
        assert(out@.to_multiset() =~= orig.to_multiset());
    }
    *projects = out;
}

/// The display name of a project: the last path segment, where both `/`
/// and `\` separate segments; the whole path when it has no separator.
pub fn project_name_from_path(path: &str) -> (r: &str)
    ensures
        exists|c: int|
            {
                &&& 0 <= c <= path@.len()
                &&& (c == 0 || crate::fetcher::is_separator(path@[c - 1]))
                &&& (forall|k: int|
                    c <= k < path@.len() ==> !crate::fetcher::is_separator(path@[k]))
                &&& r@ == path@.subrange(c, path@.len() as int)
            },
{
    let len = path.unicode_len();
    let mut i: usize = 0;
    let mut seg_start: usize = 0;
    while i < len
        invariant
            len == path@.len(),
            0 <= seg_start <= i <= len,
            seg_start == 0 || crate::fetcher::is_separator(path@[seg_start - 1]),
            forall|k: int| seg_start <= k < i ==> !crate::fetcher::is_separator(path@[k]),
        decreases len - i,
    {
        let c = path.get_char(i);
        if c == '/' || c == '\\' {
            seg_start = i + 1;
        }
        i = i + 1;
    }
    let r = path.substring_char(seg_start, len);
    proof {
        assert(r@ == path@.subrange(seg_start as int, len as int));
    }
    r
}

} // verus!
