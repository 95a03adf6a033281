//! Version identifiers and ordering: a version is `major.minor.patch` with
//! optional prerelease and build-metadata suffixes. A release outranks any
//! prerelease of the same core triple. Suffixes are compared bytewise —
//! not by semver's dot-segment numeric rule — and build metadata joins the
//! order as a final tiebreak, so that the order is total on keys.
use vstd::prelude::*;
use vstd::utf8::is_ascii_chars;

verus! {

/// Prerelease or build-metadata token of a version. ASCII-only by
/// construction: `new` requires an ASCII string. The empty state is the
/// canonical default and means "no token".
#[derive(Debug, Clone)]
pub struct Identifier {
    text: Option<String>,
}

impl View for Identifier {
    type V = Seq<char>;

    closed spec fn view(&self) -> Seq<char> {
        match self.text {
            Some(t) => t@,
            None => Seq::empty(),
        }
    }
}

impl Identifier {
    /// The empty identifier: no prerelease or build metadata.
    pub fn empty() -> (r: Self)
        ensures
            r@ == Seq::<char>::empty(),
    {
        Identifier { text: None }
    }

    /// Creates an identifier from an ASCII string. Non-ASCII input is a
    /// contract violation of the caller, enforced here as a precondition.
    pub fn new(string: &str) -> (r: Self)
        requires
            string.is_ascii(),
        ensures
            r@ == string@,
    {
        Identifier { text: Some(string.to_owned()) }
    }

    /// True when this identifier carries no content.
    pub fn is_empty(&self) -> (r: bool)
        ensures
            r == (self@.len() == 0),
    {
        match &self.text {
            Some(t) => {
                let r = t.as_str().is_empty();
                r
            },
            None => true,
        }
    }

    /// The raw text of the identifier; empty string for the empty state.
    pub fn as_str(&self) -> (r: &str)
        ensures
            r@ == self@,
    {
        match &self.text {
            Some(t) => t.as_str(),
            None => {
                let e = "";
                proof {
                    reveal_strlit("");
                }
                e
            },
        }
    }
}

impl Default for Identifier {
    fn default() -> (r: Self)
        ensures
            r@ == Seq::<char>::empty(),
    {
        Identifier { text: None }
    }
}

/// A semantic version: core triple plus prerelease and build tokens.
#[derive(Debug, Clone)]
pub struct Version {
    pub major: u64,
    pub minor: u64,
    pub patch: u64,
    pub pre: Identifier,
    pub build: Identifier,
}

/// Strict bytewise lexicographic order on character sequences.
pub open spec fn lex_lt(a: Seq<char>, b: Seq<char>) -> bool
    decreases a.len(),
{
    if b.len() == 0 {
        false
    } else if a.len() == 0 {
        true
    } else if a[0] != b[0] {
        (a[0] as u32) < (b[0] as u32)
    } else {
        lex_lt(a.skip(1), b.skip(1))
    }
}

/// Prerelease order: any prerelease sorts below the release (empty token);
/// two prereleases compare lexicographically.
pub open spec fn pre_lt(a: Seq<char>, b: Seq<char>) -> bool {
    if a.len() == 0 {
        false
    } else if b.len() == 0 {
        true
    } else {
        lex_lt(a, b)
    }
}

/// The components a version's identity and order are made of.
pub open spec fn version_key(v: Version) -> (u64, u64, u64, Seq<char>, Seq<char>) {
    (v.major, v.minor, v.patch, v.pre@, v.build@)
}

/// Full version order: core triple, then prerelease rule, then build
/// metadata as a final tiebreak so that the order is total on keys.
pub open spec fn version_lt(a: Version, b: Version) -> bool {
    if a.major != b.major {
        a.major < b.major
    } else if a.minor != b.minor {
        a.minor < b.minor
    } else if a.patch != b.patch {
        a.patch < b.patch
    } else if a.pre@ != b.pre@ {
        pre_lt(a.pre@, b.pre@)
    } else {
        lex_lt(a.build@, b.build@)
    }
}

pub open spec fn version_le(a: Version, b: Version) -> bool {
    version_lt(a, b) || version_key(a) == version_key(b)
}

proof fn lemma_lex_irrefl(a: Seq<char>)
    ensures
        !lex_lt(a, a),
    decreases a.len(),
{
    if a.len() > 0 {
        lemma_lex_irrefl(a.skip(1));
    }
}

proof fn lemma_lex_total(a: Seq<char>, b: Seq<char>)
    ensures
        lex_lt(a, b) || lex_lt(b, a) || a =~= b,
    decreases a.len(),
{
    if a.len() == 0 || b.len() == 0 {
        if a.len() == 0 && b.len() == 0 {
            assert(a =~= b);
        }
    } else if a[0] != b[0] {
        vstd::utf8::char_u32_cast(a[0], a[0] as u32);
        vstd::utf8::char_u32_cast(b[0], b[0] as u32);
    } else {
        lemma_lex_total(a.skip(1), b.skip(1));
        if !lex_lt(a, b) && !lex_lt(b, a) {
            assert(a.skip(1) =~= b.skip(1));
            assert forall|k: int| 0 <= k < a.len() implies a[k] == b[k] by {
                if k > 0 {
                    assert(a[k] == a.skip(1)[k - 1]);
                    assert(b[k] == b.skip(1)[k - 1]);
                }
            }
            assert(a =~= b);
        }
    }
}

proof fn lemma_lex_trans(a: Seq<char>, b: Seq<char>, c: Seq<char>)
    requires
        lex_lt(a, b),
        lex_lt(b, c),
    ensures
        lex_lt(a, c),
    decreases a.len() + b.len() + c.len(),
{
    if c.len() == 0 {
    } else if a.len() == 0 {
    } else if b.len() == 0 {
    } else if a[0] == b[0] && b[0] == c[0] {
        lemma_lex_trans(a.skip(1), b.skip(1), c.skip(1));
    }
}

/// The version order is total: any two versions are ordered, or share
/// the same key.
pub proof fn lemma_version_total(a: Version, b: Version)
    ensures
        version_lt(a, b) || version_lt(b, a) || version_key(a) == version_key(b),
{
    lemma_lex_total(a.pre@, b.pre@);
    lemma_lex_total(a.build@, b.build@);
}

/// The version order is transitive.
pub proof fn lemma_version_trans(a: Version, b: Version, c: Version)
    requires
        version_lt(a, b),
        version_lt(b, c),
    ensures
        version_lt(a, c),
{
    if a.major == b.major && b.major == c.major && a.minor == b.minor && b.minor == c.minor
        && a.patch == b.patch && b.patch == c.patch {
        if a.pre@ == b.pre@ && b.pre@ == c.pre@ {
            lemma_lex_trans(a.build@, b.build@, c.build@);
        } else if a.pre@ != b.pre@ && b.pre@ != c.pre@ {
            if c.pre@.len() > 0 {
                lemma_lex_trans(a.pre@, b.pre@, c.pre@);
                if a.pre@ == c.pre@ {
                    lemma_lex_irrefl(a.pre@);
                }
            }
        }
    }
}

/// The version order is irreflexive on keys.
pub proof fn lemma_version_irrefl(a: Version, b: Version)
    requires
        version_key(a) == version_key(b),
    ensures
        !version_lt(a, b),
{
    lemma_lex_irrefl(a.build@);
}

/// The version order is asymmetric.
pub proof fn lemma_version_asym(a: Version, b: Version)
    requires
        version_lt(a, b),
    ensures
        !version_lt(b, a),
{
    if version_lt(b, a) {
        lemma_version_trans(a, b, a);
        lemma_version_irrefl(a, a);
    }
}

proof fn lemma_lex_skip(a: Seq<char>, b: Seq<char>, i: int)
    requires
        0 <= i <= a.len(),
        i <= b.len(),
        forall|j: int| 0 <= j < i ==> a[j] == b[j],
    ensures
        lex_lt(a, b) == lex_lt(a.skip(i), b.skip(i)),
    decreases i,
{
    if i > 0 {
        assert(a.len() > 0 && b.len() > 0 && a[0] == b[0]);
        assert(lex_lt(a, b) == lex_lt(a.skip(1), b.skip(1)));
        lemma_lex_skip(a.skip(1), b.skip(1), i - 1);
        assert(a.skip(1).skip(i - 1) =~= a.skip(i));
        assert(b.skip(1).skip(i - 1) =~= b.skip(i));
    } else {
        assert(a.skip(0) =~= a);
        assert(b.skip(0) =~= b);
    }
}

/// Decides the lexicographic order of two strings.
pub fn lex_lt_str(a: &str, b: &str) -> (r: bool)
    ensures
        r == lex_lt(a@, b@),
{
    let alen = a.unicode_len();
    let blen = b.unicode_len();
    let mut i: usize = 0;
    loop
        invariant
            i <= alen && i <= blen,
            alen == a@.len() && blen == b@.len(),
            forall|j: int| 0 <= j < i ==> a@[j] == b@[j],
        decreases alen - i,
    {
        proof {
            lemma_lex_skip(a@, b@, i as int);
        }
        if i == blen {
            return false;
        }
        if i == alen {
            return true;
        }
        let ca = a.get_char(i);
        let cb = b.get_char(i);
        if ca != cb {
            assert(a@.skip(i as int)[0] == ca && b@.skip(i as int)[0] == cb);
            return (ca as u32) < (cb as u32);
        }
        i = i + 1;
    }
}

impl Version {
    /// Decides the full version order.
    pub fn lt(&self, other: &Version) -> (r: bool)
        ensures
            r == version_lt(*self, *other),
    {
        if self.major != other.major {
            return self.major < other.major;
        }
        if self.minor != other.minor {
            return self.minor < other.minor;
        }
        if self.patch != other.patch {
            return self.patch < other.patch;
        }
        let sp = self.pre.as_str();
        let op = other.pre.as_str();
        if !str_eq(sp, op) {
            let se = self.pre.is_empty();
            let oe = other.pre.is_empty();
            if se {
                return false;
            }
            if oe {
                return true;
            }
            return lex_lt_str(sp, op);
        }
        lex_lt_str(self.build.as_str(), other.build.as_str())
    }
}

pub open spec fn is_digit(c: char) -> bool {
    48 <= (c as u32) && (c as u32) <= 57
}

pub open spec fn digit_of(c: char) -> nat {
    ((c as u32) - 48) as nat
}

/// The number denoted by a sequence of decimal digits, most significant
/// first.
pub open spec fn digits_val(s: Seq<char>) -> nat
    decreases s.len(),
{
    if s.len() == 0 {
        0
    } else {
        digits_val(s.drop_last()) * 10 + digit_of(s.last())
    }
}

/// `s` is a canonical decimal numeral denoting `n`: nonempty, all digits,
/// no leading zero.
pub open spec fn num_seg(s: Seq<char>, n: u64) -> bool {
    &&& s.len() > 0
    &&& (forall|i: int| 0 <= i < s.len() ==> is_digit(s[i]))
    &&& (s.len() == 1 || s[0] != '0')
    &&& digits_val(s) == n
}

/// The suffix after the core triple decomposes into the version's
/// prerelease and build tokens: nothing, `-pre`, `+build`, or `-pre+build`,
/// splitting at the first `+`.
pub open spec fn pre_build_split(t: Seq<char>, pre: Seq<char>, build: Seq<char>, m: int) -> bool {
    &&& 1 <= m <= t.len()
    &&& pre == t.subrange(1, m)
    &&& is_ascii_chars(pre)
    &&& is_ascii_chars(build)
    &&& (forall|x: int| 1 <= x < m ==> t[x] != '+')
    &&& if m == t.len() {
        build.len() == 0
    } else {
        t[m] == '+' && build == t.subrange(m + 1, t.len() as int)
    }
}

pub open spec fn tail_decomp(t: Seq<char>, pre: Seq<char>, build: Seq<char>) -> bool {
    if t.len() == 0 {
        pre.len() == 0 && build.len() == 0
    } else if t[0] == '-' {
        exists|m: int| pre_build_split(t, pre, build, m)
    } else if t[0] == '+' {
        pre.len() == 0 && build == t.subrange(1, t.len() as int) && is_ascii_chars(build)
    } else {
        false
    }
}

/// `s` decomposes as `major.minor.patch` (dots at `i` and `j`, patch ending
/// at `k`) followed by the prerelease/build tail, with fields as in `v`.
pub open spec fn version_decomp(s: Seq<char>, v: Version, i: int, j: int, k: int) -> bool {
    &&& 0 < i < j < k <= s.len()
    &&& s[i] == '.'
    &&& s[j] == '.'
    &&& num_seg(s.subrange(0, i), v.major)
    &&& num_seg(s.subrange(i + 1, j), v.minor)
    &&& num_seg(s.subrange(j + 1, k), v.patch)
    &&& tail_decomp(s.subrange(k, s.len() as int), v.pre@, v.build@)
}

/// `v` is the version that the text `s` denotes.
pub open spec fn version_matches(s: Seq<char>, v: Version) -> bool {
    exists|i: int, j: int, k: int| version_decomp(s, v, i, j, k)
}

/// `[start, e)` is the maximal run of digits beginning at `start`.
pub open spec fn digit_run(s: Seq<char>, start: int, e: int) -> bool {
    &&& 0 <= start <= e <= s.len()
    &&& (forall|x: int| start <= x < e ==> is_digit(s[x]))
    &&& (e == s.len() || !is_digit(s[e]))
}

/// A canonical numeral of value `n` stands at `start` and ends at `e`.
pub open spec fn num_seg_at(s: Seq<char>, start: int, e: int, n: u64) -> bool {
    start < e && digit_run(s, start, e) && num_seg(s.subrange(start, e), n)
}

/// A maximal digit run's end is determined by its start.
proof fn lemma_digit_run_unique(s: Seq<char>, start: int, e1: int, e2: int)
    requires
        digit_run(s, start, e1),
        digit_run(s, start, e2),
    ensures
        e1 == e2,
{
    if e1 < e2 {
        assert(is_digit(s[e1]));
    } else if e2 < e1 {
        assert(is_digit(s[e2]));
    }
}

/// A numeral's value only grows as digits are appended.
proof fn lemma_digits_val_monotone(t: Seq<char>, m: int)
    requires
        0 <= m <= t.len(),
    ensures
        digits_val(t.subrange(0, m)) <= digits_val(t),
    decreases t.len(),
{
    if m == t.len() {
        assert(t.subrange(0, m) =~= t);
    } else {
        assert(t.subrange(0, m) =~= t.drop_last().subrange(0, m));
        lemma_digits_val_monotone(t.drop_last(), m);
        assert(digits_val(t.drop_last()) * 10 >= digits_val(t.drop_last())) by (nonlinear_arith);
    }
}

proof fn lemma_digit_bound(acc: u64, d: u64)
    requires
        d <= 9,
        acc <= ((u64::MAX - d) / 10) as u64,
    ensures
        acc * 10 + d <= u64::MAX,
{
    assert(acc * 10 <= ((u64::MAX - d) / 10) * 10) by (nonlinear_arith)
        requires
            acc <= (u64::MAX - d) / 10,
    ;
    assert(((u64::MAX - d) / 10) * 10 <= u64::MAX - d) by (nonlinear_arith);
}

/// Reads a canonical decimal numeral starting at `start`; returns its value
/// and the position just past it. Rejects an empty or leading-zero numeral
/// and one whose value does not fit in `u64` — and succeeds whenever a
/// well-formed numeral stands at `start`.
fn parse_num(s: &str, start: usize, len: usize) -> (r: Option<(u64, usize)>)
    requires
        len == s@.len(),
        start <= len,
    ensures
        r matches Some(p) ==> start < p.1 <= len && num_seg_at(s@, start as int, p.1 as int, p.0),
        (exists|n2: u64, e2: int| num_seg_at(s@, start as int, e2, n2)) ==> r is Some,
{
    let end = scan_digits(s, start, len);
    proof {
        assert(digit_run(s@, start as int, end as int));
    }
    if end == start {
        proof {
            if exists|n2: u64, e2: int| num_seg_at(s@, start as int, e2, n2) {
                let (n2, e2) = choose|n2: u64, e2: int| num_seg_at(s@, start as int, e2, n2);
                lemma_digit_run_unique(s@, start as int, e2, end as int);
            }
        }
        return None;
    }
    if s.get_char(start) == '0' && end > start + 1 {
        proof {
            if exists|n2: u64, e2: int| num_seg_at(s@, start as int, e2, n2) {
                let (n2, e2) = choose|n2: u64, e2: int| num_seg_at(s@, start as int, e2, n2);
                lemma_digit_run_unique(s@, start as int, e2, end as int);
                let seg = s@.subrange(start as int, end as int);
                assert(seg[0] == s@[start as int]);
                assert(seg.len() > 1);
            }
        }
        return None;
    }
    let mut acc: u64 = 0;
    let mut i: usize = start;
    proof {
        assert(s@.subrange(start as int, start as int) =~= Seq::<char>::empty());
        assert(digits_val(Seq::<char>::empty()) == 0);
    }
    while i < end
        invariant
            start <= i <= end <= len == s@.len(),
            start < end,
            digit_run(s@, start as int, end as int),
            digits_val(s@.subrange(start as int, i as int)) == acc,
        decreases end - i,
    {
        let c = s.get_char(i);
        let cu = c as u32;
        assert(is_digit(s@[i as int]));
        let d: u64 = (cu - 48) as u64;
        if acc > (u64::MAX - d) / 10 {
            proof {
                if exists|n2: u64, e2: int| num_seg_at(s@, start as int, e2, n2) {
                    let (n2, e2) = choose|n2: u64, e2: int| num_seg_at(
                        s@,
                        start as int,
                        e2,
                        n2,
                    );
                    lemma_digit_run_unique(s@, start as int, e2, end as int);
                    let seg = s@.subrange(start as int, end as int);
                    let seg1 = s@.subrange(start as int, i as int + 1);
                    assert(seg1.drop_last() =~= s@.subrange(start as int, i as int));
                    assert(seg1.last() == s@[i as int]);
                    assert(digits_val(seg1) == acc * 10 + d);
                    assert(seg1 =~= seg.subrange(0, i + 1 - start as int));
                    lemma_digits_val_monotone(seg, i + 1 - start as int);
                    assert(digits_val(seg) == n2);
                    assert(acc * 10 + d > u64::MAX) by (nonlinear_arith)
                        requires
                            acc > (u64::MAX - d) / 10,
                            d <= 9,
                    ;
                }
            }
            return None;
        }
        proof {
            lemma_digit_bound(acc, d);
            let seg = s@.subrange(start as int, i as int + 1);
            assert(seg.drop_last() =~= s@.subrange(start as int, i as int));
            assert(seg.last() == s@[i as int]);
        }
        acc = acc * 10 + d;
        i = i + 1;
    }
    assert(s@.subrange(start as int, end as int)[0] == s@[start as int]);
    Some((acc, end))
}

/// Position of the first non-digit at or after `from`, or `len`.
fn scan_digits(s: &str, from: usize, len: usize) -> (r: usize)
    requires
        len == s@.len(),
        from <= len,
    ensures
        from <= r <= len,
        forall|x: int| from <= x < r ==> is_digit(s@[x]),
        r < len ==> !is_digit(s@[r as int]),
{
    let mut m = from;
    while m < len
        invariant
            from <= m <= len,
            len == s@.len(),
            forall|x: int| from <= x < m ==> is_digit(s@[x]),
        decreases len - m,
    {
        let cu = s.get_char(m) as u32;
        if !(48 <= cu && cu <= 57) {
            return m;
        }
        m = m + 1;
    }
    m
}

/// Position of the first `+` at or after `from`, or `len` if there is none.
fn find_plus(s: &str, from: usize, len: usize) -> (r: usize)
    requires
        len == s@.len(),
        from <= len,
    ensures
        from <= r <= len,
        forall|x: int| from <= x < r ==> s@[x] != '+',
        r < len ==> s@[r as int] == '+',
{
    let mut m = from;
    while m < len
        invariant
            from <= m <= len,
            len == s@.len(),
            forall|x: int| from <= x < m ==> s@[x] != '+',
        decreases len - m,
    {
        if s.get_char(m) == '+' {
            return m;
        }
        m = m + 1;
    }
    m
}

/// A decomposition fixes the three digit runs, the two dots, the tail's
/// first character, and makes the whole text ASCII.
proof fn lemma_decomp_runs(s: Seq<char>, v: Version, i: int, j: int, k: int)
    requires
        version_decomp(s, v, i, j, k),
    ensures
        num_seg_at(s, 0, i, v.major),
        num_seg_at(s, i + 1, j, v.minor),
        num_seg_at(s, j + 1, k, v.patch),
        s[i] == '.',
        s[j] == '.',
        k < s.len() ==> (s[k] == '-' || s[k] == '+'),
        is_ascii_chars(s),
{
    assert forall|x: int| 0 <= x < i implies is_digit(s[x]) by {
        assert(is_digit(s.subrange(0, i)[x]));
    }
    assert forall|x: int| i + 1 <= x < j implies is_digit(s[x]) by {
        assert(is_digit(s.subrange(i + 1, j)[x - i - 1]));
    }
    assert forall|x: int| j + 1 <= x < k implies is_digit(s[x]) by {
        assert(is_digit(s.subrange(j + 1, k)[x - j - 1]));
    }
    let t = s.subrange(k, s.len() as int);
    if k < s.len() {
        assert(t.len() > 0);
        assert(t[0] == s[k]);
        assert(s[k] == '-' || s[k] == '+');
    }
    assert(('.' as u32) == 46);
    assert(('-' as u32) == 45);
    assert(('+' as u32) == 43);
    assert(num_seg_at(s, 0, i, v.major));
    assert(num_seg_at(s, i + 1, j, v.minor));
    assert(num_seg_at(s, j + 1, k, v.patch));
    assert forall|p: int| 0 <= p < s.len() implies '\0' <= #[trigger] s[p] <= '\u{7f}' by {
        vstd::utf8::char_is_scalar(s[p]);
        if p < i || (i < p && p < j) || (j < p && p < k) {
            assert(is_digit(s[p]));
            vstd::utf8::char_u32_cast(s[p], s[p] as u32);
            assert('\0' <= s[p] <= '\u{7f}');
        } else if p == i || p == j {
            assert(s[p] == '.');
        } else if p == k {
            assert(s[p] == '-' || s[p] == '+');
        } else if p > k {
            let q = p - k;
            assert(t[q] == s[p]);
            if t[0] == '-' {
                let m = choose|m: int| pre_build_split(t, v.pre@, v.build@, m);
                assert(pre_build_split(t, v.pre@, v.build@, m));
                if 1 <= q < m {
                    assert(v.pre@[q - 1] == t[q]);
                    assert('\0' <= v.pre@[q - 1] <= '\u{7f}');
                } else if q == m && m < t.len() {
                    assert(t[q] == '+');
                } else {
                    assert(v.build@[q - m - 1] == t[q]);
                    assert('\0' <= v.build@[q - m - 1] <= '\u{7f}');
                }
            } else {
                assert(t[0] == '+');
                assert(v.build@[q - 1] == t[q]);
                assert('\0' <= v.build@[q - 1] <= '\u{7f}');
            }
        }
    }
}

/// Parses a version string `major.minor.patch` with optional `-prerelease`
/// and `+build` suffixes. Any version returned decomposes the input
/// exactly, and any text some version decomposes is accepted.
pub fn parse_version(s: &str) -> (r: Option<Version>)
    ensures
        r matches Some(v) ==> version_matches(s@, v),
        (exists|v: Version| version_matches(s@, v)) ==> r is Some,
{
    if !s.is_ascii() {
        proof {
            if exists|v: Version| version_matches(s@, v) {
                let v0 = choose|v: Version| version_matches(s@, v);
                let (i, j, k) = choose|i: int, j: int, k: int| version_decomp(s@, v0, i, j, k);
                lemma_decomp_runs(s@, v0, i, j, k);
            }
        }
        return None;
    }
    let len = s.unicode_len();
    let (major, p1) = match parse_num(s, 0, len) {
        Some(x) => x,
        None => {
            proof {
                if exists|v: Version| version_matches(s@, v) {
                    let v0 = choose|v: Version| version_matches(s@, v);
                    let (i, j, k) = choose|i: int, j: int, k: int| version_decomp(s@, v0, i, j, k);
                    lemma_decomp_runs(s@, v0, i, j, k);
                    assert(num_seg_at(s@, 0, i, v0.major));
                }
            }
            return None;
        },
    };
    if p1 == len || s.get_char(p1) != '.' {
        proof {
            if exists|v: Version| version_matches(s@, v) {
                let v0 = choose|v: Version| version_matches(s@, v);
                let (i, j, k) = choose|i: int, j: int, k: int| version_decomp(s@, v0, i, j, k);
                lemma_decomp_runs(s@, v0, i, j, k);
                lemma_digit_run_unique(s@, 0, i, p1 as int);
            }
        }
        return None;
    }
    let (minor, p2) = match parse_num(s, p1 + 1, len) {
        Some(x) => x,
        None => {
            proof {
                if exists|v: Version| version_matches(s@, v) {
                    let v0 = choose|v: Version| version_matches(s@, v);
                    let (i, j, k) = choose|i: int, j: int, k: int| version_decomp(s@, v0, i, j, k);
                    lemma_decomp_runs(s@, v0, i, j, k);
                    lemma_digit_run_unique(s@, 0, i, p1 as int);
                    assert(num_seg_at(s@, p1 as int + 1, j, v0.minor));
                }
            }
            return None;
        },
    };
    if p2 == len || s.get_char(p2) != '.' {
        proof {
            if exists|v: Version| version_matches(s@, v) {
                let v0 = choose|v: Version| version_matches(s@, v);
                let (i, j, k) = choose|i: int, j: int, k: int| version_decomp(s@, v0, i, j, k);
                lemma_decomp_runs(s@, v0, i, j, k);
                lemma_digit_run_unique(s@, 0, i, p1 as int);
                lemma_digit_run_unique(s@, p1 as int + 1, j, p2 as int);
            }
        }
        return None;
    }
    let (patch, p3) = match parse_num(s, p2 + 1, len) {
        Some(x) => x,
        None => {
            proof {
                if exists|v: Version| version_matches(s@, v) {
                    let v0 = choose|v: Version| version_matches(s@, v);
                    let (i, j, k) = choose|i: int, j: int, k: int| version_decomp(s@, v0, i, j, k);
                    lemma_decomp_runs(s@, v0, i, j, k);
                    lemma_digit_run_unique(s@, 0, i, p1 as int);
                    lemma_digit_run_unique(s@, p1 as int + 1, j, p2 as int);
                    assert(num_seg_at(s@, p2 as int + 1, k, v0.patch));
                }
            }
            return None;
        },
    };
    let mut pre = Identifier::empty();
    let mut build = Identifier::empty();
    let ghost mut m_abs: int = p3 as int;
    if p3 < len {
        let c = s.get_char(p3);
        if c == '-' {
            let m = find_plus(s, p3 + 1, len);
            proof {
                m_abs = m as int;
            }
            pre = Identifier::new(s.substring_ascii(p3 + 1, m));
            if m < len {
                build = Identifier::new(s.substring_ascii(m + 1, len));
            }
        } else if c == '+' {
            build = Identifier::new(s.substring_ascii(p3 + 1, len));
        } else {
            proof {
                if exists|v: Version| version_matches(s@, v) {
                    let v0 = choose|v: Version| version_matches(s@, v);
                    let (i, j, k) = choose|i: int, j: int, k: int| version_decomp(s@, v0, i, j, k);
                    lemma_decomp_runs(s@, v0, i, j, k);
                    lemma_digit_run_unique(s@, 0, i, p1 as int);
                    lemma_digit_run_unique(s@, p1 as int + 1, j, p2 as int);
                    lemma_digit_run_unique(s@, p2 as int + 1, k, p3 as int);
                }
            }
            return None;
        }
    }
    let v = Version { major, minor, patch, pre, build };
    proof {
        let sv = s@;
        let slen = sv.len() as int;
        let i = p1 as int;
        let j = p2 as int;
        let k = p3 as int;
        let t = sv.subrange(k, slen);
        if p3 == len {
            assert(tail_decomp(t, v.pre@, v.build@));
        } else if sv[k] == '-' {
            let m_t = m_abs - k;
            assert(t[0] == '-');
            assert(v.pre@ =~= t.subrange(1, m_t));
            assert(forall|x: int| 1 <= x < m_t ==> t[x] != '+');
            if m_abs < slen {
                assert(t[m_t] == '+');
                assert(v.build@ =~= t.subrange(m_t + 1, t.len() as int));
            }
            assert(pre_build_split(t, v.pre@, v.build@, m_t));
            assert(tail_decomp(t, v.pre@, v.build@));
        } else {
            assert(t[0] == '+');
            assert(v.build@ =~= t.subrange(1, t.len() as int));
            assert(tail_decomp(t, v.pre@, v.build@));
        }
        assert(version_decomp(sv, v, i, j, k));
        assert(version_matches(sv, v));
    }
    Some(v)
}

/// Decides equality of two strings by their characters.
pub fn str_eq(a: &str, b: &str) -> (r: bool)
    ensures
        r == (a@ == b@),
{
    let alen = a.unicode_len();
    let blen = b.unicode_len();
    if alen != blen {
        return false;
    }
    let mut i: usize = 0;
    while i < alen
        invariant
            i <= alen,
            alen == a@.len() && alen == b@.len(),
            forall|j: int| 0 <= j < i ==> a@[j] == b@[j],
        decreases alen - i,
    {
        if a.get_char(i) != b.get_char(i) {
            return false;
        }
        i = i + 1;
    }
    assert(a@ =~= b@);
    true
}

} // verus!
