//! Comparison keys for toolchain installations.
//!
//! A [`DateVersion`] pairs an optional structured semantic version with a
//! build-date string; installations are ranked by version first (an absent
//! version sorts below any present one) and by date second.

use vstd::prelude::*;

verus! {

/// A structured semantic version: the numeric core plus the raw pre-release
/// text (the dot-separated identifiers after `-`, empty for a release).
/// Build metadata takes no part in precedence and is not retained.
#[derive(Debug, Clone, PartialEq, Eq)]
pub struct SemVer {
    pub major: u64,
    pub minor: u64,
    pub patch: u64,
    pub pre: Vec<u8>,
}

/// A comparison key: an optional semantic version and a build date in
/// `YYYY-MM-DD` form, kept as bytes (empty when absent).  ISO dates order
/// chronologically under the lexicographic byte order used here.
#[derive(Debug, Clone, PartialEq, Eq)]
pub struct DateVersion {
    pub rustc_vers: Option<SemVer>,
    pub date: Vec<u8>,
}

/// ASCII decimal digit.
pub open spec fn is_digit(c: u8) -> bool {
    48 <= c && c <= 57
}

/// Strict lexicographic order on the byte ranges `a[ia..ja)` and `b[ib..jb)`:
/// the first differing byte decides; a proper prefix is smaller.
pub open spec fn range_lex_lt(a: Seq<u8>, ia: int, ja: int, b: Seq<u8>, ib: int, jb: int) -> bool
    recommends
        0 <= ia <= ja <= a.len(),
        0 <= ib <= jb <= b.len(),
    decreases ja - ia,
{
    if ib >= jb {
        false
    } else if ia >= ja {
        true
    } else if a[ia] != b[ib] {
        a[ia] < b[ib]
    } else {
        range_lex_lt(a, ia + 1, ja, b, ib + 1, jb)
    }
}

/// Strict lexicographic order on whole byte strings.
pub open spec fn lex_lt(a: Seq<u8>, b: Seq<u8>) -> bool {
    range_lex_lt(a, 0, a.len() as int, b, 0, b.len() as int)
}

/// Every byte of `s[i..j)` is a decimal digit.
pub open spec fn all_digits(s: Seq<u8>, i: int, j: int) -> bool {
    forall|t: int| i <= t < j ==> is_digit(#[trigger] s[t])
}

/// End of the pre-release identifier that starts at `i`: the next `.` (byte
/// 46), or the end of the string.
pub open spec fn seg_end(s: Seq<u8>, i: int) -> int
    recommends
        0 <= i <= s.len(),
    decreases s.len() - i,
{
    if i < s.len() && s[i] != 46 {
        seg_end(s, i + 1)
    } else {
        i
    }
}

proof fn lemma_seg_end_bounds(s: Seq<u8>, i: int)
    ensures
        i <= seg_end(s, i),
        i <= s.len() ==> seg_end(s, i) <= s.len(),
    decreases s.len() - i,
{
    if i < s.len() && s[i] != 46 {
        lemma_seg_end_bounds(s, i + 1);
    }
}

/// Semantic-versioning order on single pre-release identifiers, given as the
/// ranges `a[ia..ja)` and `b[ib..jb)`: identifiers of digits only compare
/// numerically (shorter means smaller, equal lengths lexicographically —
/// valid identifiers carry no leading zeroes), a numeric identifier precedes
/// an alphanumeric one, and alphanumeric identifiers compare in ASCII order.
pub open spec fn ident_lt(a: Seq<u8>, ia: int, ja: int, b: Seq<u8>, ib: int, jb: int) -> bool
    recommends
        0 <= ia <= ja <= a.len(),
        0 <= ib <= jb <= b.len(),
{
    let na = all_digits(a, ia, ja);
    let nb = all_digits(b, ib, jb);
    if na && nb {
        ja - ia < jb - ib || (ja - ia == jb - ib && range_lex_lt(a, ia, ja, b, ib, jb))
    } else if na {
        true
    } else if nb {
        false
    } else {
        range_lex_lt(a, ia, ja, b, ib, jb)
    }
}

/// Semantic-versioning order on pre-release strings, compared identifier by
/// identifier from positions `ia` and `ib`; when all paired identifiers are
/// equal, the string with fewer identifiers is smaller.
pub open spec fn pre_lt_from(a: Seq<u8>, ia: int, b: Seq<u8>, ib: int) -> bool
    recommends
        0 <= ia <= a.len(),
        0 <= ib <= b.len(),
    decreases a.len() - ia
        via pre_lt_from_decreases
{
    let ja = seg_end(a, ia);
    let jb = seg_end(b, ib);
    if ident_lt(a, ia, ja, b, ib, jb) {
        true
    } else if ident_lt(b, ib, jb, a, ia, ja) {
        false
    } else if ja < a.len() && jb < b.len() {
        pre_lt_from(a, ja + 1, b, jb + 1)
    } else {
        ja >= a.len() && jb < b.len()
    }
}

#[via_fn]
proof fn pre_lt_from_decreases(a: Seq<u8>, ia: int, b: Seq<u8>, ib: int) {
    lemma_seg_end_bounds(a, ia);
}

/// Semantic-versioning precedence: numeric components first; on an equal
/// core a release outranks any pre-release, and pre-releases compare by
/// their identifiers.
pub open spec fn semver_lt(a: SemVer, b: SemVer) -> bool {
    if a.major != b.major {
        a.major < b.major
    } else if a.minor != b.minor {
        a.minor < b.minor
    } else if a.patch != b.patch {
        a.patch < b.patch
    } else if a.pre@.len() == 0 {
        false
    } else if b.pre@.len() == 0 {
        true
    } else {
        pre_lt_from(a.pre@, 0, b.pre@, 0)
    }
}

/// Equal precedence: neither version precedes the other.
pub open spec fn semver_eqv(a: SemVer, b: SemVer) -> bool {
    !semver_lt(a, b) && !semver_lt(b, a)
}

/// The key order: an absent version sorts below any present one; present
/// versions compare by precedence, and equal versions by the date bytes.
pub open spec fn dv_lt(a: DateVersion, b: DateVersion) -> bool {
    match (a.rustc_vers, b.rustc_vers) {
        (Option::None, Option::None) => lex_lt(a.date@, b.date@),
        (Option::None, Option::Some(_)) => true,
        (Option::Some(_), Option::None) => false,
        (Option::Some(x), Option::Some(y)) => semver_lt(x, y) || (semver_eqv(x, y)
            && lex_lt(a.date@, b.date@)),
    }
}

/// Three-way form of the key order.
pub open spec fn dv_cmp(a: DateVersion, b: DateVersion) -> core::cmp::Ordering {
    if dv_lt(a, b) {
        core::cmp::Ordering::Less
    } else if dv_lt(b, a) {
        core::cmp::Ordering::Greater
    } else {
        core::cmp::Ordering::Equal
    }
}

fn range_lex_lt_exec(a: &Vec<u8>, ia: usize, ja: usize, b: &Vec<u8>, ib: usize, jb: usize) -> (r:
    bool)
    requires
        ia <= ja && ja <= a@.len(),
        ib <= jb && jb <= b@.len(),
    ensures
        r == range_lex_lt(a@, ia as int, ja as int, b@, ib as int, jb as int),
{
    let mut i = ia;
    let mut j = ib;
    loop
        invariant
            ia <= i <= ja <= a@.len(),
            ib <= j <= jb <= b@.len(),
            i - ia == j - ib,
            range_lex_lt(a@, ia as int, ja as int, b@, ib as int, jb as int) == range_lex_lt(
                a@,
                i as int,
                ja as int,
                b@,
                j as int,
                jb as int,
            ),
        decreases ja - i,
    {
        if j >= jb {
            return false;
        }
        if i >= ja {
            return true;
        }
        if a[i] != b[j] {
            return a[i] < b[j];
        }
        i = i + 1;
        j = j + 1;
    }
}

/// Lexicographic comparison of two byte strings.
pub fn bytes_lt(a: &Vec<u8>, b: &Vec<u8>) -> (r: bool)
    ensures
        r == lex_lt(a@, b@),
{
    range_lex_lt_exec(a, 0, a.len(), b, 0, b.len())
}

fn all_digits_exec(s: &Vec<u8>, i: usize, j: usize) -> (r: bool)
    requires
        i <= j && j <= s@.len(),
    ensures
        r == all_digits(s@, i as int, j as int),
{
    let mut k = i;
    while k < j
        invariant
            i <= k <= j <= s@.len(),
            all_digits(s@, i as int, k as int),
        decreases j - k,
    {
        if !(48 <= s[k] && s[k] <= 57) {
            return false;
        }
        k = k + 1;
    }
    true
}

fn seg_end_exec(s: &Vec<u8>, i: usize) -> (r: usize)
    requires
        i <= s@.len(),
    ensures
        i <= r && r <= s@.len(),
        r == seg_end(s@, i as int),
{
    let mut j = i;
    while j < s.len() && s[j] != 46
        invariant
            i <= j <= s@.len(),
            seg_end(s@, i as int) == seg_end(s@, j as int),
        decreases s@.len() - j,
    {
        j = j + 1;
    }
    j
}

fn ident_lt_exec(a: &Vec<u8>, ia: usize, ja: usize, b: &Vec<u8>, ib: usize, jb: usize) -> (r: bool)
    requires
        ia <= ja && ja <= a@.len(),
        ib <= jb && jb <= b@.len(),
    ensures
        r == ident_lt(a@, ia as int, ja as int, b@, ib as int, jb as int),
{
    let na = all_digits_exec(a, ia, ja);
    let nb = all_digits_exec(b, ib, jb);
    if na && nb {
        if ja - ia != jb - ib {
            ja - ia < jb - ib
        } else {
            range_lex_lt_exec(a, ia, ja, b, ib, jb)
        }
    } else if na {
        true
    } else if nb {
        false
    } else {
        range_lex_lt_exec(a, ia, ja, b, ib, jb)
    }
}

fn pre_lt_exec(a: &Vec<u8>, b: &Vec<u8>) -> (r: bool)
    ensures
        r == pre_lt_from(a@, 0, b@, 0),
{
    let mut ia: usize = 0;
    let mut ib: usize = 0;
    loop
        invariant
            ia <= a@.len(),
            ib <= b@.len(),
            pre_lt_from(a@, 0, b@, 0) == pre_lt_from(a@, ia as int, b@, ib as int),
        decreases a@.len() - ia,
    {
        let ja = seg_end_exec(a, ia);
        let jb = seg_end_exec(b, ib);
        if ident_lt_exec(a, ia, ja, b, ib, jb) {
            return true;
        }
        if ident_lt_exec(b, ib, jb, a, ia, ja) {
            return false;
        }
        if ja < a.len() && jb < b.len() {
            ia = ja + 1;
            ib = jb + 1;
        } else {
            return ja >= a.len() && jb < b.len();
        }
    }
}

/// Decides semantic-versioning precedence between two versions.
pub fn semver_lt_exec(a: &SemVer, b: &SemVer) -> (r: bool)
    ensures
        r == semver_lt(*a, *b),
{
    if a.major != b.major {
        a.major < b.major
    } else if a.minor != b.minor {
        a.minor < b.minor
    } else if a.patch != b.patch {
        a.patch < b.patch
    } else if a.pre.len() == 0 {
        false
    } else if b.pre.len() == 0 {
        true
    } else {
        pre_lt_exec(&a.pre, &b.pre)
    }
}

/// Decides the key order between two keys.
pub fn dv_lt_exec(a: &DateVersion, b: &DateVersion) -> (r: bool)
    ensures
        r == dv_lt(*a, *b),
{
    match (&a.rustc_vers, &b.rustc_vers) {
        (Option::None, Option::None) => bytes_lt(&a.date, &b.date),
        (Option::None, Option::Some(_)) => true,
        (Option::Some(_), Option::None) => false,
        (Option::Some(x), Option::Some(y)) => {
            if semver_lt_exec(x, y) {
                true
            } else if semver_lt_exec(y, x) {
                false
            } else {
                bytes_lt(&a.date, &b.date)
            }
        },
    }
}

impl DateVersion {
    /// Builds a key from an optional version and a date string.
    pub fn new(rustc_vers: Option<SemVer>, date: Vec<u8>) -> (r: DateVersion)
        ensures
            r.rustc_vers == rustc_vers,
            r.date == date,
    {
        DateVersion { rustc_vers, date }
    }

    /// Three-way comparison under the key order.
    pub fn cmp(&self, other: &DateVersion) -> (r: core::cmp::Ordering)
        ensures
            r == dv_cmp(*self, *other),
    {
        let lt = dv_lt_exec(self, other);
        let gt = dv_lt_exec(other, self);
        if lt {
            core::cmp::Ordering::Less
        } else if gt {
            core::cmp::Ordering::Greater
        } else {
            core::cmp::Ordering::Equal
        }
    }
}

proof fn lemma_range_lex_asym(a: Seq<u8>, ia: int, ja: int, b: Seq<u8>, ib: int, jb: int)
    ensures
        !(range_lex_lt(a, ia, ja, b, ib, jb) && range_lex_lt(b, ib, jb, a, ia, ja)),
    decreases ja - ia,
{
    if ib < jb && ia < ja && a[ia] == b[ib] {
        lemma_range_lex_asym(a, ia + 1, ja, b, ib + 1, jb);
    }
}

proof fn lemma_ident_lt_asym(a: Seq<u8>, ia: int, ja: int, b: Seq<u8>, ib: int, jb: int)
    ensures
        !(ident_lt(a, ia, ja, b, ib, jb) && ident_lt(b, ib, jb, a, ia, ja)),
{
    lemma_range_lex_asym(a, ia, ja, b, ib, jb);
}

proof fn lemma_pre_lt_asym(a: Seq<u8>, ia: int, b: Seq<u8>, ib: int)
    ensures
        !(pre_lt_from(a, ia, b, ib) && pre_lt_from(b, ib, a, ia)),
    decreases a.len() - ia,
{
    let ja = seg_end(a, ia);
    let jb = seg_end(b, ib);
    lemma_ident_lt_asym(a, ia, ja, b, ib, jb);
    if !ident_lt(a, ia, ja, b, ib, jb) && !ident_lt(b, ib, jb, a, ia, ja) && ja < a.len() && jb
        < b.len() {
        lemma_seg_end_bounds(a, ia);
        lemma_pre_lt_asym(a, ja + 1, b, jb + 1);
    }
}

/// The precedence order is strict: two versions never precede each other.
pub proof fn lemma_semver_lt_asym(a: SemVer, b: SemVer)
    ensures
        !(semver_lt(a, b) && semver_lt(b, a)),
{
    lemma_pre_lt_asym(a.pre@, 0, b.pre@, 0);
}

/// The key order is strict: two keys never precede each other.
pub proof fn lemma_dv_lt_asym(a: DateVersion, b: DateVersion)
    ensures
        !(dv_lt(a, b) && dv_lt(b, a)),
{
    match (a.rustc_vers, b.rustc_vers) {
        (Option::Some(x), Option::Some(y)) => {
            lemma_semver_lt_asym(x, y);
        },
        _ => {},
    }
    lemma_range_lex_asym(a.date@, 0, a.date@.len() as int, b.date@, 0, b.date@.len() as int);
}

/// The version dominates the date: when `b`'s version strictly precedes
/// `a`'s, `a` ranks above `b` whatever the two dates hold.
pub proof fn lemma_version_dominates_date(a: DateVersion, b: DateVersion, x: SemVer, y: SemVer)
    requires
        a.rustc_vers == Some(x),
        b.rustc_vers == Some(y),
        semver_lt(y, x),
    ensures
        dv_cmp(a, b) == core::cmp::Ordering::Greater,
{
    lemma_semver_lt_asym(x, y);
}

/// With equal versions the date decides: the key whose date is
/// lexicographically greater ranks above the other.
pub proof fn lemma_equal_versions_date_decides(a: DateVersion, b: DateVersion)
    requires
        a.rustc_vers == b.rustc_vers,
        lex_lt(b.date@, a.date@),
    ensures
        dv_cmp(a, b) == core::cmp::Ordering::Greater,
{
    match (a.rustc_vers, b.rustc_vers) {
        (Option::Some(x), Option::Some(y)) => {
            lemma_semver_lt_asym(x, y);
        },
        _ => {},
    }
    lemma_range_lex_asym(a.date@, 0, a.date@.len() as int, b.date@, 0, b.date@.len() as int);
}

/// A key without a version ranks below any key with one, whatever the dates.
pub proof fn lemma_absent_version_sorts_lowest(a: DateVersion, b: DateVersion)
    requires
        a.rustc_vers is None,
        b.rustc_vers is Some,
    ensures
        dv_cmp(a, b) == core::cmp::Ordering::Less,
{
}

/// The value that the semantic-version parser of the `semver` crate gives to
/// a byte string: the numeric components and the pre-release text, or `None`
/// where the text is not a valid semantic version.  The result is a function
/// of the text alone.
pub uninterp spec fn semver_of(text: Seq<u8>) -> Option<(u64, u64, u64, Seq<u8>)>;

/// Relies on semver::Version::parse for the semantic-version grammar: it
/// returns a structured version exactly for valid input and an error
/// otherwise, never panicking.  The bytes are decoded as UTF-8 first
/// (non-UTF-8 input is not a valid version); the numeric components and the
/// pre-release text (semver::Prerelease::as_str) are carried over, and build
/// metadata, which takes no part in precedence, is dropped.
#[verifier::external_body]
fn semver_parse_raw(text: &[u8]) -> (r: Option<SemVer>)
    ensures
        match r {
            Option::Some(v) => semver_of(text@) == Some((v.major, v.minor, v.patch, v.pre@)),
            Option::None => semver_of(text@) is None,
        },
{
    let s = match core::str::from_utf8(text) {
        Ok(s) => s,
        Err(_) => return None,
    };
    match semver::Version::parse(s) {
        Ok(v) => Some(
            SemVer {
                major: v.major,
                minor: v.minor,
                patch: v.patch,
                pre: v.pre.as_str().as_bytes().to_vec(),
            },
        ),
        Err(_) => None,
    }
}

impl SemVer {
    /// Parses a semantic-version string; `None` when the text is not one.
    pub fn parse(text: &[u8]) -> (r: Option<SemVer>)
        ensures
            match r {
                Option::Some(v) => semver_of(text@) == Some(
                    (v.major, v.minor, v.patch, v.pre@),
                ),
                Option::None => semver_of(text@) is None,
            },
    {
        semver_parse_raw(text)
    }
}

impl PartialOrd for DateVersion {
    fn partial_cmp(&self, other: &DateVersion) -> (r: Option<core::cmp::Ordering>) {
        Some(DateVersion::cmp(self, other))
    }
}

impl vstd::std_specs::cmp::PartialOrdSpecImpl for DateVersion {
    open spec fn obeys_partial_cmp_spec() -> bool {
        true
    }

    open spec fn partial_cmp_spec(&self, other: &DateVersion) -> Option<core::cmp::Ordering> {
        Some(dv_cmp(*self, *other))
    }
}

} // verus!
