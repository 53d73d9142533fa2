//! Parsing of version text into a comparison key.
//!
//! The parser recognizes one fixed shape in the raw bytes captured from a
//! `--version`-style invocation: a name token, one space, a version token
//! `X.Y.Z` with an optional `-` pre-release suffix, optionally followed by
//! ` (<hash> <YYYY-MM-DD>)`.  The leftmost occurrence wins.  Bytes that are
//! not valid UTF-8 behave as an empty string and so never match.

use vstd::prelude::*;

use crate::version::{is_digit, semver_of, DateVersion, SemVer};

verus! {

/// ASCII letter or digit.
pub open spec fn is_alnum(c: u8) -> bool {
    is_digit(c) || (65 <= c && c <= 90) || (97 <= c && c <= 122)
}

/// Byte allowed in a pre-release suffix: digit, lower-case letter or `.`.
pub open spec fn is_pre_char(c: u8) -> bool {
    is_digit(c) || (97 <= c && c <= 122) || c == 46
}

/// End of the run of decimal digits that starts at `i`.
pub open spec fn digit_run_end(s: Seq<u8>, i: int) -> int
    recommends
        0 <= i <= s.len(),
    decreases s.len() - i,
{
    if i < s.len() && is_digit(s[i]) {
        digit_run_end(s, i + 1)
    } else {
        i
    }
}

/// End of the run of pre-release bytes that starts at `i`.
pub open spec fn pre_run_end(s: Seq<u8>, i: int) -> int
    recommends
        0 <= i <= s.len(),
    decreases s.len() - i,
{
    if i < s.len() && is_pre_char(s[i]) {
        pre_run_end(s, i + 1)
    } else {
        i
    }
}

/// End of the run of alphanumeric bytes that starts at `i`.
pub open spec fn alnum_run_end(s: Seq<u8>, i: int) -> int
    recommends
        0 <= i <= s.len(),
    decreases s.len() - i,
{
    if i < s.len() && is_alnum(s[i]) {
        alnum_run_end(s, i + 1)
    } else {
        i
    }
}

/// End of the version token that starts at `p`, if one does: maximal digit
/// runs around two `.` (46), then an optional `-` (45) suffix of at least
/// one pre-release byte, taken maximally.
pub open spec fn version_end_at(s: Seq<u8>, p: int) -> Option<int>
    recommends
        0 <= p <= s.len(),
{
    let e1 = digit_run_end(s, p);
    if e1 == p || e1 >= s.len() || s[e1] != 46 {
        None
    } else {
        let e2 = digit_run_end(s, e1 + 1);
        if e2 == e1 + 1 || e2 >= s.len() || s[e2] != 46 {
            None
        } else {
            let e3 = digit_run_end(s, e2 + 1);
            if e3 == e2 + 1 {
                None
            } else if e3 < s.len() && s[e3] == 45 && e3 + 1 < s.len() && is_pre_char(s[e3 + 1]) {
                Some(pre_run_end(s, e3 + 1))
            } else {
                Some(e3)
            }
        }
    }
}

/// Ten bytes at `d` shaped `YYYY-MM-DD`: digits with `-` (45) at offsets 4
/// and 7.
pub open spec fn is_date_shape(s: Seq<u8>, d: int) -> bool
    recommends
        0 <= d,
        d + 10 <= s.len(),
{
    is_digit(s[d]) && is_digit(s[d + 1]) && is_digit(s[d + 2]) && is_digit(s[d + 3]) && s[d + 4]
        == 45 && is_digit(s[d + 5]) && is_digit(s[d + 6]) && s[d + 7] == 45 && is_digit(s[d + 8])
        && is_digit(s[d + 9])
}

/// Start of the date capture after a version token ending at `ve`, if the
/// bytes there read ` (<alnum run> <YYYY-MM-DD>)`: space (32), `(` (40), a
/// maximal nonempty alphanumeric run, a space, ten date bytes, `)` (41).
pub open spec fn date_start_at(s: Seq<u8>, ve: int) -> Option<int>
    recommends
        0 <= ve <= s.len(),
{
    if ve + 1 < s.len() && s[ve] == 32 && s[ve + 1] == 40 {
        let ae = alnum_run_end(s, ve + 2);
        if ae == ve + 2 || ae >= s.len() || s[ae] != 32 {
            None
        } else {
            let d = ae + 1;
            if d + 10 < s.len() && is_date_shape(s, d) && s[d + 10] == 41 {
                Some(d)
            } else {
                None
            }
        }
    } else {
        None
    }
}

/// A match starts at `p`: a version token begins there, preceded by one
/// space (32) that is itself preceded by a name byte (anything but a space).
pub open spec fn match_at(s: Seq<u8>, p: int) -> bool {
    &&& 2 <= p
    &&& p < s.len()
    &&& s[p - 1] == 32
    &&& s[p - 2] != 32
    &&& version_end_at(s, p) is Some
}

/// Position of the leftmost match at or after `p`.
pub open spec fn first_match_from(s: Seq<u8>, p: int) -> Option<int>
    recommends
        0 <= p,
    decreases s.len() - p,
{
    if p >= s.len() {
        None
    } else if match_at(s, p) {
        Some(p)
    } else {
        first_match_from(s, p + 1)
    }
}

/// What the fixed pattern captures from `s`: the version token and the date
/// (empty when no parenthesized descriptor follows), or `None` when no
/// match exists anywhere.
pub open spec fn pattern_captures(s: Seq<u8>) -> Option<(Seq<u8>, Seq<u8>)> {
    match first_match_from(s, 2) {
        Option::None => None,
        Option::Some(p) => {
            let ve = version_end_at(s, p).unwrap();
            let date = match date_start_at(s, ve) {
                Option::Some(d) => s.subrange(d, d + 10),
                Option::None => Seq::empty(),
            };
            Some((s.subrange(p, ve), date))
        },
    }
}

/// UTF-8 continuation byte.
pub open spec fn is_cont(c: u8) -> bool {
    128 <= c && c <= 191
}

/// Second-byte range under a three-byte head: 224 excludes overlong
/// encodings, 237 excludes surrogate code points.
pub open spec fn cont3_ok(b0: u8, b1: u8) -> bool {
    if b0 == 224 {
        160 <= b1 && b1 <= 191
    } else if b0 == 237 {
        128 <= b1 && b1 <= 159
    } else {
        is_cont(b1)
    }
}

/// Second-byte range under a four-byte head: 240 excludes overlong
/// encodings, 244 excludes code points beyond the last one.
pub open spec fn cont4_ok(b0: u8, b1: u8) -> bool {
    if b0 == 240 {
        144 <= b1 && b1 <= 191
    } else if b0 == 244 {
        128 <= b1 && b1 <= 143
    } else {
        is_cont(b1)
    }
}

/// Length of the well-formed UTF-8 sequence that starts at `i`, or 0 when
/// the bytes there are not one: one byte below 128; a head 194..=223 with
/// one continuation; a head 224..=239 with two, the second byte restricted
/// under 224 and 237; a head 240..=244 with three, restricted under 240
/// and 244.
pub open spec fn utf8_seq_len_at(s: Seq<u8>, i: int) -> int
    recommends
        0 <= i < s.len(),
{
    let b0 = s[i];
    if b0 < 128 {
        1
    } else if 194 <= b0 && b0 <= 223 {
        if i + 2 <= s.len() && is_cont(s[i + 1]) {
            2
        } else {
            0
        }
    } else if 224 <= b0 && b0 <= 239 {
        if i + 3 <= s.len() && cont3_ok(b0, s[i + 1]) && is_cont(s[i + 2]) {
            3
        } else {
            0
        }
    } else if 240 <= b0 && b0 <= 244 {
        if i + 4 <= s.len() && cont4_ok(b0, s[i + 1]) && is_cont(s[i + 2]) && is_cont(s[i + 3]) {
            4
        } else {
            0
        }
    } else {
        0
    }
}

/// The bytes from `i` on are a run of well-formed UTF-8 sequences.
pub open spec fn is_utf8_from(s: Seq<u8>, i: int) -> bool
    recommends
        0 <= i,
    decreases s.len() - i,
{
    if i >= s.len() {
        true
    } else {
        let n = utf8_seq_len_at(s, i);
        n > 0 && is_utf8_from(s, i + n)
    }
}

/// Whether a byte string is valid UTF-8.
pub open spec fn is_utf8(bytes: Seq<u8>) -> bool {
    is_utf8_from(bytes, 0)
}

proof fn lemma_ascii_is_utf8_from(s: Seq<u8>, i: int)
    requires
        0 <= i,
        forall|t: int| 0 <= t < s.len() ==> #[trigger] s[t] < 128,
    ensures
        is_utf8_from(s, i),
    decreases s.len() - i,
{
    if i < s.len() {
        lemma_ascii_is_utf8_from(s, i + 1);
    }
}

/// ASCII bytes — all below 128 — are valid UTF-8.
pub proof fn lemma_ascii_is_utf8(s: Seq<u8>)
    requires
        forall|t: int| 0 <= t < s.len() ==> #[trigger] s[t] < 128,
    ensures
        is_utf8(s),
{
    lemma_ascii_is_utf8_from(s, 0);
}

fn utf8_check(bytes: &[u8]) -> (r: bool)
    ensures
        r == is_utf8(bytes@),
{
    let n = bytes.len();
    let mut i: usize = 0;
    while i < n
        invariant
            i <= n,
            n == bytes@.len(),
            is_utf8(bytes@) == is_utf8_from(bytes@, i as int),
        decreases n - i,
    {
        let b0 = bytes[i];
        if b0 < 128 {
            i = i + 1;
        } else if 194 <= b0 && b0 <= 223 {
            if !(n - i >= 2 && 128 <= bytes[i + 1] && bytes[i + 1] <= 191) {
                return false;
            }
            i = i + 2;
        } else if 224 <= b0 && b0 <= 239 {
            let b1_ok = n - i >= 3 && (if b0 == 224 {
                160 <= bytes[i + 1] && bytes[i + 1] <= 191
            } else if b0 == 237 {
                128 <= bytes[i + 1] && bytes[i + 1] <= 159
            } else {
                128 <= bytes[i + 1] && bytes[i + 1] <= 191
            });
            if !(b1_ok && 128 <= bytes[i + 2] && bytes[i + 2] <= 191) {
                return false;
            }
            i = i + 3;
        } else if 240 <= b0 && b0 <= 244 {
            let b1_ok = n - i >= 4 && (if b0 == 240 {
                144 <= bytes[i + 1] && bytes[i + 1] <= 191
            } else if b0 == 244 {
                128 <= bytes[i + 1] && bytes[i + 1] <= 143
            } else {
                128 <= bytes[i + 1] && bytes[i + 1] <= 191
            });
            if !(b1_ok && 128 <= bytes[i + 2] && bytes[i + 2] <= 191 && 128 <= bytes[i + 3]
                && bytes[i + 3] <= 191) {
                return false;
            }
            i = i + 4;
        } else {
            return false;
        }
    }
    true
}

/// The captures of the whole parser: bytes that are not valid UTF-8 decode
/// to an empty string and so capture nothing.
pub open spec fn spec_parse_captures(s: Seq<u8>) -> Option<(Seq<u8>, Seq<u8>)> {
    if is_utf8(s) {
        pattern_captures(s)
    } else {
        None
    }
}

/// The parser's result agrees with the captures: no captures means no key;
/// otherwise the key's date is the captured date and its version field is
/// the captured version token's reading as a semantic version (absent when
/// that reading fails, the date still kept).
pub open spec fn parse_result_matches(r: Option<DateVersion>, c: Option<(Seq<u8>, Seq<u8>)>) -> bool {
    match (r, c) {
        (Option::None, Option::None) => true,
        (Option::Some(dv), Option::Some(caps)) => {
            &&& dv.date@ == caps.1
            &&& match dv.rustc_vers {
                Option::Some(v) => semver_of(caps.0) == Some((v.major, v.minor, v.patch, v.pre@)),
                Option::None => semver_of(caps.0) is None,
            }
        },
        _ => false,
    }
}

proof fn lemma_digit_run(s: Seq<u8>, i: int, j: int)
    requires
        0 <= i <= j <= s.len(),
        forall|t: int| i <= t < j ==> is_digit(#[trigger] s[t]),
        j == s.len() || !is_digit(s[j]),
    ensures
        digit_run_end(s, i) == j,
    decreases j - i,
{
    if i < j {
        lemma_digit_run(s, i + 1, j);
    }
}

proof fn lemma_pre_run(s: Seq<u8>, i: int, j: int)
    requires
        0 <= i <= j <= s.len(),
        forall|t: int| i <= t < j ==> is_pre_char(#[trigger] s[t]),
        j == s.len() || !is_pre_char(s[j]),
    ensures
        pre_run_end(s, i) == j,
    decreases j - i,
{
    if i < j {
        lemma_pre_run(s, i + 1, j);
    }
}

proof fn lemma_alnum_run(s: Seq<u8>, i: int, j: int)
    requires
        0 <= i <= j <= s.len(),
        forall|t: int| i <= t < j ==> is_alnum(#[trigger] s[t]),
        j == s.len() || !is_alnum(s[j]),
    ensures
        alnum_run_end(s, i) == j,
    decreases j - i,
{
    if i < j {
        lemma_alnum_run(s, i + 1, j);
    }
}

proof fn lemma_first_match_found(s: Seq<u8>, lo: int, p: int)
    requires
        2 <= lo <= p,
        match_at(s, p),
        forall|q: int| lo <= q < p ==> !match_at(s, q),
    ensures
        first_match_from(s, lo) == Some(p),
    decreases p - lo,
{
    if lo < p {
        lemma_first_match_found(s, lo + 1, p);
    }
}

/// Input with no recognizable `name version` shape yields no result,
/// whether or not it decodes as UTF-8.
pub proof fn lemma_no_match_no_result(s: Seq<u8>)
    requires
        first_match_from(s, 2) is None,
    ensures
        spec_parse_captures(s) is None,
{
}

/// A full version line `name SP X.Y.Z SP ( hash SP YYYY-MM-DD )` — name
/// without spaces, numeric components nonempty, hash alphanumeric and
/// nonempty — is recognized, and the captures are exactly the version
/// token `X.Y.Z` and the ten date bytes.
pub proof fn lemma_full_line_captures(
    s: Seq<u8>,
    name: Seq<u8>,
    d1: Seq<u8>,
    d2: Seq<u8>,
    d3: Seq<u8>,
    hash: Seq<u8>,
    date: Seq<u8>,
)
    requires
        s == name + seq![32u8] + d1 + seq![46u8] + d2 + seq![46u8] + d3 + seq![32u8, 40u8] + hash
            + seq![32u8] + date + seq![41u8],
        0 < name.len(),
        forall|t: int| 0 <= t < name.len() ==> #[trigger] name[t] != 32,
        0 < d1.len() && all_digits_seq(d1),
        0 < d2.len() && all_digits_seq(d2),
        0 < d3.len() && all_digits_seq(d3),
        0 < hash.len(),
        forall|t: int| 0 <= t < hash.len() ==> is_alnum(#[trigger] hash[t]),
        date.len() == 10,
        is_date_shape(date, 0),
    ensures
        pattern_captures(s) == Some((d1 + seq![46u8] + d2 + seq![46u8] + d3, date)),
{
    let p0 = name.len() as int + 1;
    let e1 = p0 + d1.len();
    let e2 = e1 + 1 + d2.len();
    let ve = e2 + 1 + d3.len();
    let ds = ve + 2 + hash.len() + 1;
    assert(s.len() == ds + 11);
    assert forall|t: int| 0 <= t < s.len() implies s[t] == (if t < p0 - 1 {
        name[t]
    } else if t == p0 - 1 {
        32u8
    } else if t < e1 {
        d1[t - p0]
    } else if t == e1 {
        46u8
    } else if t < e2 {
        d2[t - e1 - 1]
    } else if t == e2 {
        46u8
    } else if t < ve {
        d3[t - e2 - 1]
    } else if t == ve {
        32u8
    } else if t == ve + 1 {
        40u8
    } else if t < ds - 1 {
        hash[t - ve - 2]
    } else if t == ds - 1 {
        32u8
    } else if t < ds + 10 {
        date[t - ds]
    } else {
        41u8
    }) by {
        assert(s[t] == (name + seq![32u8] + d1 + seq![46u8] + d2 + seq![46u8] + d3 + seq![
            32u8,
            40u8,
        ] + hash + seq![32u8] + date + seq![41u8])[t]);
    }
    lemma_digit_run(s, p0, e1);
    lemma_digit_run(s, e1 + 1, e2);
    lemma_digit_run(s, e2 + 1, ve);
    assert(version_end_at(s, p0) == Some(ve));
    assert(match_at(s, p0));
    assert forall|q: int| 2 <= q < p0 implies !match_at(s, q) by {
        assert(s[q - 1] == name[q - 1]);
    }
    lemma_first_match_found(s, 2, p0);
    lemma_alnum_run(s, ve + 2, ds - 1);
    assert(is_date_shape(s, ds));
    assert(date_start_at(s, ve) == Some(ds));
    assert(s.subrange(p0, ve) =~= d1 + seq![46u8] + d2 + seq![46u8] + d3);
    assert(s.subrange(ds, ds + 10) =~= date);
}

/// A version line that ends with a pre-release suffix and carries no
/// parenthesized descriptor, `name SP X.Y.Z-pre`, is recognized: the
/// capture is the whole version token including the suffix, and the date
/// is empty.
pub proof fn lemma_pre_release_line_captures(
    s: Seq<u8>,
    name: Seq<u8>,
    d1: Seq<u8>,
    d2: Seq<u8>,
    d3: Seq<u8>,
    pre: Seq<u8>,
)
    requires
        s == name + seq![32u8] + d1 + seq![46u8] + d2 + seq![46u8] + d3 + seq![45u8] + pre,
        0 < name.len(),
        forall|t: int| 0 <= t < name.len() ==> #[trigger] name[t] != 32,
        0 < d1.len() && all_digits_seq(d1),
        0 < d2.len() && all_digits_seq(d2),
        0 < d3.len() && all_digits_seq(d3),
        0 < pre.len(),
        forall|t: int| 0 <= t < pre.len() ==> is_pre_char(#[trigger] pre[t]),
    ensures
        pattern_captures(s) == Some(
            (d1 + seq![46u8] + d2 + seq![46u8] + d3 + seq![45u8] + pre, Seq::<u8>::empty()),
        ),
{
    let p0 = name.len() as int + 1;
    let e1 = p0 + d1.len();
    let e2 = e1 + 1 + d2.len();
    let e3 = e2 + 1 + d3.len();
    assert(s.len() == e3 + 1 + pre.len());
    assert forall|t: int| 0 <= t < s.len() implies s[t] == (if t < p0 - 1 {
        name[t]
    } else if t == p0 - 1 {
        32u8
    } else if t < e1 {
        d1[t - p0]
    } else if t == e1 {
        46u8
    } else if t < e2 {
        d2[t - e1 - 1]
    } else if t == e2 {
        46u8
    } else if t < e3 {
        d3[t - e2 - 1]
    } else if t == e3 {
        45u8
    } else {
        pre[t - e3 - 1]
    }) by {
        assert(s[t] == (name + seq![32u8] + d1 + seq![46u8] + d2 + seq![46u8] + d3 + seq![45u8]
            + pre)[t]);
    }
    lemma_digit_run(s, p0, e1);
    lemma_digit_run(s, e1 + 1, e2);
    lemma_digit_run(s, e2 + 1, e3);
    lemma_pre_run(s, e3 + 1, s.len() as int);
    assert(version_end_at(s, p0) == Some(s.len() as int));
    assert(match_at(s, p0));
    assert forall|q: int| 2 <= q < p0 implies !match_at(s, q) by {
        assert(s[q - 1] == name[q - 1]);
    }
    lemma_first_match_found(s, 2, p0);
    assert(s.subrange(p0, s.len() as int) =~= d1 + seq![46u8] + d2 + seq![46u8] + d3 + seq![45u8]
        + pre);
}

/// Every byte of `s` is a decimal digit.
pub open spec fn all_digits_seq(s: Seq<u8>) -> bool {
    forall|t: int| 0 <= t < s.len() ==> is_digit(#[trigger] s[t])
}

/// As [`lemma_full_line_captures`], with the name known to be ASCII: the
/// line is then valid UTF-8, so the whole parser recognizes it and yields
/// the version token and the date.
pub proof fn lemma_full_line_parses(
    s: Seq<u8>,
    name: Seq<u8>,
    d1: Seq<u8>,
    d2: Seq<u8>,
    d3: Seq<u8>,
    hash: Seq<u8>,
    date: Seq<u8>,
)
    requires
        s == name + seq![32u8] + d1 + seq![46u8] + d2 + seq![46u8] + d3 + seq![32u8, 40u8] + hash
            + seq![32u8] + date + seq![41u8],
        0 < name.len(),
        forall|t: int| 0 <= t < name.len() ==> #[trigger] name[t] != 32 && name[t] < 128,
        0 < d1.len() && all_digits_seq(d1),
        0 < d2.len() && all_digits_seq(d2),
        0 < d3.len() && all_digits_seq(d3),
        0 < hash.len(),
        forall|t: int| 0 <= t < hash.len() ==> is_alnum(#[trigger] hash[t]),
        date.len() == 10,
        is_date_shape(date, 0),
    ensures
        spec_parse_captures(s) == Some((d1 + seq![46u8] + d2 + seq![46u8] + d3, date)),
{
    lemma_full_line_captures(s, name, d1, d2, d3, hash, date);
    assert forall|t: int| 0 <= t < s.len() implies #[trigger] s[t] < 128 by {
        assert(s[t] == (name + seq![32u8] + d1 + seq![46u8] + d2 + seq![46u8] + d3 + seq![
            32u8,
            40u8,
        ] + hash + seq![32u8] + date + seq![41u8])[t]);
    }
    lemma_ascii_is_utf8(s);
}

/// As [`lemma_pre_release_line_captures`], with the name known to be
/// ASCII: the whole parser recognizes the line, capturing the version
/// token with its suffix and an empty date.
pub proof fn lemma_pre_release_line_parses(
    s: Seq<u8>,
    name: Seq<u8>,
    d1: Seq<u8>,
    d2: Seq<u8>,
    d3: Seq<u8>,
    pre: Seq<u8>,
)
    requires
        s == name + seq![32u8] + d1 + seq![46u8] + d2 + seq![46u8] + d3 + seq![45u8] + pre,
        0 < name.len(),
        forall|t: int| 0 <= t < name.len() ==> #[trigger] name[t] != 32 && name[t] < 128,
        0 < d1.len() && all_digits_seq(d1),
        0 < d2.len() && all_digits_seq(d2),
        0 < d3.len() && all_digits_seq(d3),
        0 < pre.len(),
        forall|t: int| 0 <= t < pre.len() ==> is_pre_char(#[trigger] pre[t]),
    ensures
        spec_parse_captures(s) == Some(
            (d1 + seq![46u8] + d2 + seq![46u8] + d3 + seq![45u8] + pre, Seq::<u8>::empty()),
        ),
{
    lemma_pre_release_line_captures(s, name, d1, d2, d3, pre);
    assert forall|t: int| 0 <= t < s.len() implies #[trigger] s[t] < 128 by {
        assert(s[t] == (name + seq![32u8] + d1 + seq![46u8] + d2 + seq![46u8] + d3 + seq![45u8]
            + pre)[t]);
    }
    lemma_ascii_is_utf8(s);
}

/// A full version line whose version token carries a pre-release suffix,
/// `name SP X.Y.Z-pre SP ( hash SP YYYY-MM-DD )`, with the name ASCII: the
/// parser captures the suffixed version token and the ten date bytes.
pub proof fn lemma_suffixed_line_parses(
    s: Seq<u8>,
    name: Seq<u8>,
    d1: Seq<u8>,
    d2: Seq<u8>,
    d3: Seq<u8>,
    pre: Seq<u8>,
    hash: Seq<u8>,
    date: Seq<u8>,
)
    requires
        s == name + seq![32u8] + d1 + seq![46u8] + d2 + seq![46u8] + d3 + seq![45u8] + pre + seq![
            32u8,
            40u8,
        ] + hash + seq![32u8] + date + seq![41u8],
        0 < name.len(),
        forall|t: int| 0 <= t < name.len() ==> #[trigger] name[t] != 32 && name[t] < 128,
        0 < d1.len() && all_digits_seq(d1),
        0 < d2.len() && all_digits_seq(d2),
        0 < d3.len() && all_digits_seq(d3),
        0 < pre.len(),
        forall|t: int| 0 <= t < pre.len() ==> is_pre_char(#[trigger] pre[t]),
        0 < hash.len(),
        forall|t: int| 0 <= t < hash.len() ==> is_alnum(#[trigger] hash[t]),
        date.len() == 10,
        is_date_shape(date, 0),
    ensures
        spec_parse_captures(s) == Some(
            (d1 + seq![46u8] + d2 + seq![46u8] + d3 + seq![45u8] + pre, date),
        ),
{
    let p0 = name.len() as int + 1;
    let e1 = p0 + d1.len();
    let e2 = e1 + 1 + d2.len();
    let e3 = e2 + 1 + d3.len();
    let pe = e3 + 1 + pre.len();
    let ds = pe + 2 + hash.len() + 1;
    assert(s.len() == ds + 11);
    assert forall|t: int| 0 <= t < s.len() implies s[t] == (if t < p0 - 1 {
        name[t]
    } else if t == p0 - 1 {
        32u8
    } else if t < e1 {
        d1[t - p0]
    } else if t == e1 {
        46u8
    } else if t < e2 {
        d2[t - e1 - 1]
    } else if t == e2 {
        46u8
    } else if t < e3 {
        d3[t - e2 - 1]
    } else if t == e3 {
        45u8
    } else if t < pe {
        pre[t - e3 - 1]
    } else if t == pe {
        32u8
    } else if t == pe + 1 {
        40u8
    } else if t < ds - 1 {
        hash[t - pe - 2]
    } else if t == ds - 1 {
        32u8
    } else if t < ds + 10 {
        date[t - ds]
    } else {
        41u8
    }) by {
        assert(s[t] == (name + seq![32u8] + d1 + seq![46u8] + d2 + seq![46u8] + d3 + seq![45u8]
            + pre + seq![32u8, 40u8] + hash + seq![32u8] + date + seq![41u8])[t]);
    }
    lemma_digit_run(s, p0, e1);
    lemma_digit_run(s, e1 + 1, e2);
    lemma_digit_run(s, e2 + 1, e3);
    lemma_pre_run(s, e3 + 1, pe);
    assert(version_end_at(s, p0) == Some(pe));
    assert(match_at(s, p0));
    assert forall|q: int| 2 <= q < p0 implies !match_at(s, q) by {
        assert(s[q - 1] == name[q - 1]);
    }
    lemma_first_match_found(s, 2, p0);
    lemma_alnum_run(s, pe + 2, ds - 1);
    assert(is_date_shape(s, ds));
    assert(date_start_at(s, pe) == Some(ds));
    assert(s.subrange(p0, pe) =~= d1 + seq![46u8] + d2 + seq![46u8] + d3 + seq![45u8] + pre);
    assert(s.subrange(ds, ds + 10) =~= date);
    assert forall|t: int| 0 <= t < s.len() implies #[trigger] s[t] < 128 by {}
    lemma_ascii_is_utf8(s);
}

fn digit_run_end_exec(s: &[u8], i: usize) -> (r: usize)
    requires
        i <= s@.len(),
    ensures
        i <= r && r <= s@.len(),
        r == digit_run_end(s@, i as int),
{
    let mut j = i;
    while j < s.len() && 48 <= s[j] && s[j] <= 57
        invariant
            i <= j <= s@.len(),
            digit_run_end(s@, i as int) == digit_run_end(s@, j as int),
        decreases s@.len() - j,
    {
        j = j + 1;
    }
    j
}

fn pre_run_end_exec(s: &[u8], i: usize) -> (r: usize)
    requires
        i <= s@.len(),
    ensures
        i <= r && r <= s@.len(),
        r == pre_run_end(s@, i as int),
{
    let mut j = i;
    while j < s.len() && (48 <= s[j] && s[j] <= 57 || 97 <= s[j] && s[j] <= 122 || s[j] == 46)
        invariant
            i <= j <= s@.len(),
            pre_run_end(s@, i as int) == pre_run_end(s@, j as int),
        decreases s@.len() - j,
    {
        j = j + 1;
    }
    j
}

fn alnum_run_end_exec(s: &[u8], i: usize) -> (r: usize)
    requires
        i <= s@.len(),
    ensures
        i <= r && r <= s@.len(),
        r == alnum_run_end(s@, i as int),
{
    let mut j = i;
    while j < s.len() && (48 <= s[j] && s[j] <= 57 || 65 <= s[j] && s[j] <= 90 || 97 <= s[j]
        && s[j] <= 122)
        invariant
            i <= j <= s@.len(),
            alnum_run_end(s@, i as int) == alnum_run_end(s@, j as int),
        decreases s@.len() - j,
    {
        j = j + 1;
    }
    j
}

fn version_end_exec(s: &[u8], p: usize) -> (r: Option<usize>)
    requires
        p <= s@.len(),
    ensures
        match r {
            Option::Some(e) => version_end_at(s@, p as int) == Some(e as int) && p <= e
                && e <= s@.len(),
            Option::None => version_end_at(s@, p as int) is None,
        },
{
    let e1 = digit_run_end_exec(s, p);
    if e1 == p || e1 >= s.len() || s[e1] != 46 {
        return None;
    }
    let e2 = digit_run_end_exec(s, e1 + 1);
    if e2 == e1 + 1 || e2 >= s.len() || s[e2] != 46 {
        return None;
    }
    let e3 = digit_run_end_exec(s, e2 + 1);
    if e3 == e2 + 1 {
        return None;
    }
    if e3 < s.len() && s[e3] == 45 && e3 + 1 < s.len() && (48 <= s[e3 + 1] && s[e3 + 1] <= 57 || 97
        <= s[e3 + 1] && s[e3 + 1] <= 122 || s[e3 + 1] == 46) {
        Some(pre_run_end_exec(s, e3 + 1))
    } else {
        Some(e3)
    }
}

fn date_start_exec(s: &[u8], ve: usize) -> (r: Option<(usize, usize)>)
    requires
        ve <= s@.len(),
    ensures
        match r {
            Option::Some(de) => {
                &&& date_start_at(s@, ve as int) == Some(de.0 as int)
                &&& de.1 == de.0 + 10
                &&& de.1 < s@.len()
            },
            Option::None => date_start_at(s@, ve as int) is None,
        },
{
    if ve >= s.len() {
        return None;
    }
    if !(ve + 1 < s.len() && s[ve] == 32 && s[ve + 1] == 40) {
        return None;
    }
    let ae = alnum_run_end_exec(s, ve + 2);
    if ae == ve + 2 || ae >= s.len() || s[ae] != 32 {
        return None;
    }
    let d = ae + 1;
    if s.len() - d > 10 && 48 <= s[d] && s[d] <= 57 && 48 <= s[d + 1] && s[d + 1] <= 57 && 48 <= s[d
        + 2] && s[d + 2] <= 57 && 48 <= s[d + 3] && s[d + 3] <= 57 && s[d + 4] == 45 && 48 <= s[d
        + 5] && s[d + 5] <= 57 && 48 <= s[d + 6] && s[d + 6] <= 57 && s[d + 7] == 45 && 48 <= s[d
        + 8] && s[d + 8] <= 57 && 48 <= s[d + 9] && s[d + 9] <= 57 && s[d + 10] == 41 {
        Some((d, d + 10))
    } else {
        None
    }
}

fn find_match(s: &[u8]) -> (r: Option<(usize, usize)>)
    ensures
        match r {
            Option::Some(pv) => {
                &&& first_match_from(s@, 2) == Some(pv.0 as int)
                &&& version_end_at(s@, pv.0 as int) == Some(pv.1 as int)
                &&& 2 <= pv.0
                &&& pv.0 <= pv.1 <= s@.len()
            },
            Option::None => first_match_from(s@, 2) is None,
        },
{
    let mut p: usize = 2;
    while p < s.len()
        invariant
            2 <= p,
            first_match_from(s@, 2) == first_match_from(s@, p as int),
        decreases s@.len() - p,
    {
        if s[p - 1] == 32 && s[p - 2] != 32 {
            match version_end_exec(s, p) {
                Option::Some(ve) => {
                    return Some((p, ve));
                },
                Option::None => {},
            }
        }
        p = p + 1;
    }
    None
}

/// Copies the byte range `s[i..j)` out into a fresh vector.
pub fn copy_range(s: &[u8], i: usize, j: usize) -> (r: Vec<u8>)
    requires
        i <= j && j <= s@.len(),
    ensures
        r@ == s@.subrange(i as int, j as int),
{
    let mut out: Vec<u8> = Vec::new();
    let mut k = i;
    while k < j
        invariant
            i <= k <= j <= s@.len(),
            out@ == s@.subrange(i as int, k as int),
        decreases j - k,
    {
        out.push(s[k]);
        k = k + 1;
        assert(out@ =~= s@.subrange(i as int, k as int));
    }
    out
}

/// Extracts a comparison key from raw version text, or `None` when the text
/// holds no recognizable `name version` shape.  A version token that is not
/// a valid semantic version degrades only the version field; a captured
/// date is kept.
pub fn parse_rustc_date(text: &[u8]) -> (r: Option<DateVersion>)
    ensures
        parse_result_matches(r, spec_parse_captures(text@)),
{
    if !utf8_check(text) {
        return None;
    }
    match find_match(text) {
        Option::None => None,
        Option::Some(pv) => {
            let vtext = copy_range(text, pv.0, pv.1);
            let rustc_vers = SemVer::parse(vtext.as_slice());
            let date = match date_start_exec(text, pv.1) {
                Option::Some(de) => copy_range(text, de.0, de.1),
                Option::None => Vec::new(),
            };
            Some(DateVersion { rustc_vers, date })
        },
    }
}

} // verus!
