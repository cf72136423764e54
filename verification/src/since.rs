//! The `--since` window as an ISO date: relative forms (`<N> <unit>(s) ago`,
//! `yesterday`, `today`) are counted back from the current instant, and a
//! leading `YYYY-MM-DD` is passed through.

use vstd::prelude::*;

use crate::dates::{
    date_text, date_text_of, is_date_of, iso_date_spec, now_timestamp, timestamp_in_range, MAX_TIMESTAMP,
    MIN_TIMESTAMP,
};
use crate::order::chars_eq;
use crate::text::{
    chars_of, decimal, digit_char, lemma_decimal_len, lemma_split_extend, padded_int,
    slice_prefix, split_where, split_whitespace_chars, split_whitespace_spec, string_of, trim,
    trim_end_spec, trim_spec, trim_start_spec, ws_pred,
};

verus! {

/// Why text is not an `i64` (`std::num::IntErrorKind`).
#[derive(Clone, Copy, Debug, PartialEq, Eq, Structural)]
pub enum IntErrorKind {
    /// The text is empty.
    Empty,
    /// A character is not a digit (or there is only a sign).
    InvalidDigit,
    /// The number is above `i64::MAX`.
    PosOverflow,
    /// The number is below `i64::MIN`.
    NegOverflow,
}

/// An ASCII decimal digit.
pub open spec fn is_digit(c: char) -> bool {
    '0' <= c <= '9'
}

/// The value of an ASCII decimal digit.
pub open spec fn digit_value(c: char) -> int {
    c as int - '0' as int
}

/// Reads decimal digits left to right onto `acc` (subtracting when `neg`),
/// failing at the first non-digit or at the first step that leaves `i64`.
pub open spec fn scan_digits(ds: Seq<char>, acc: int, neg: bool) -> Result<int, IntErrorKind>
    decreases ds.len(),
{
    if ds.len() == 0 {
        Ok(acc)
    } else if !is_digit(ds[0]) {
        Err(IntErrorKind::InvalidDigit)
    } else {
        let next = if neg {
            acc * 10 - digit_value(ds[0])
        } else {
            acc * 10 + digit_value(ds[0])
        };
        if next < i64::MIN || next > i64::MAX {
            Err(
                if neg {
                    IntErrorKind::NegOverflow
                } else {
                    IntErrorKind::PosOverflow
                },
            )
        } else {
            scan_digits(ds.drop_first(), next, neg)
        }
    }
}

/// `<i64 as FromStr>::from_str`: an optional sign, then at least one ASCII digit.
pub open spec fn parse_i64_spec(s: Seq<char>) -> Result<int, IntErrorKind> {
    if s.len() == 0 {
        Err(IntErrorKind::Empty)
    } else if s.len() == 1 && (s[0] == '+' || s[0] == '-') {
        Err(IntErrorKind::InvalidDigit)
    } else if s[0] == '+' {
        scan_digits(s.drop_first(), 0, false)
    } else if s[0] == '-' {
        scan_digits(s.drop_first(), 0, true)
    } else {
        scan_digits(s, 0, false)
    }
}

/// Parses a signed 64-bit decimal integer.
pub fn parse_i64(s: &[char]) -> (r: Result<i64, IntErrorKind>)
    ensures
        match r {
            Ok(n) => parse_i64_spec(s@) == Ok::<int, IntErrorKind>(n as int),
            Err(k) => parse_i64_spec(s@) == Err::<int, IntErrorKind>(k),
        },
{
    if s.len() == 0 {
        return Err(IntErrorKind::Empty);
    }
    if s.len() == 1 && (s[0] == '+' || s[0] == '-') {
        return Err(IntErrorKind::InvalidDigit);
    }
    let neg = s[0] == '-';
    let start: usize = if s[0] == '+' || s[0] == '-' {
        1
    } else {
        0
    };
    assert(s@.skip(start as int) == if start == 1 {
        s@.drop_first()
    } else {
        s@
    });
    assert(parse_i64_spec(s@) == scan_digits(s@.skip(start as int), 0, neg));
    let mut acc: i64 = 0;
    let mut i = start;
    while i < s.len()
        invariant
            start <= i <= s@.len(),
            parse_i64_spec(s@) == scan_digits(s@.skip(start as int), 0, neg),
            scan_digits(s@.skip(i as int), acc as int, neg) == scan_digits(
                s@.skip(start as int),
                0,
                neg,
            ),
        decreases s.len() - i,
    {
        let c = s[i];
        assert(s@.skip(i as int)[0] == c);
        assert(s@.skip(i as int).drop_first() =~= s@.skip(i + 1));
        if !('0' <= c && c <= '9') {
            return Err(IntErrorKind::InvalidDigit);
        }
        let d = (c as u32 - '0' as u32) as i64;
        let next: i128 = if neg {
            acc as i128 * 10 - d as i128
        } else {
            acc as i128 * 10 + d as i128
        };
        if next < i64::MIN as i128 || next > i64::MAX as i128 {
            return Err(
                if neg {
                    IntErrorKind::NegOverflow
                } else {
                    IntErrorKind::PosOverflow
                },
            );
        }
        acc = next as i64;
        i += 1;
    }
    assert(s@.skip(i as int).len() == 0);
    Ok(acc)
}


/// Why the `--since` window has no ISO date. The first six are the errors the
/// window is reported with; the last four are the inputs on which the
/// computation cannot go on (an arithmetic overflow, an instant outside the
/// range `time` represents, or slicing inside a character).
#[derive(Debug, PartialEq, Eq)]
pub enum SinceError {
    /// `... ago` with nothing before it.
    ExpectedNumber,
    /// `<N> ago` without a unit.
    ExpectedUnit,
    /// More than a count and a unit before `ago`.
    Unrecognized,
    /// The count is not an `i64`.
    ExpectedInteger(IntErrorKind),
    /// The unit (without its trailing `s`) is none of hour, day, week, month, year.
    UnsupportedUnit(String),
    /// No form of the window applies.
    CannotConvert,
    /// The days of `<N> months/years` overflow `i64`.
    MultiplyOverflow,
    /// The seconds of the duration overflow `i64`.
    DurationOverflow,
    /// The instant counted back lies outside the range `time` represents.
    OutOfRange,
    /// Byte offset ten of the window falls inside a character.
    NotCharBoundary,
}

/// The mathematical counterpart of `SinceError`.
pub enum SinceFail {
    ExpectedNumber,
    ExpectedUnit,
    Unrecognized,
    ExpectedInteger(IntErrorKind),
    UnsupportedUnit(Seq<char>),
    CannotConvert,
    MultiplyOverflow,
    DurationOverflow,
    OutOfRange,
    NotCharBoundary,
}

impl View for SinceError {
    type V = SinceFail;

    open spec fn view(&self) -> SinceFail {
        match self {
            SinceError::ExpectedNumber => SinceFail::ExpectedNumber,
            SinceError::ExpectedUnit => SinceFail::ExpectedUnit,
            SinceError::Unrecognized => SinceFail::Unrecognized,
            SinceError::ExpectedInteger(k) => SinceFail::ExpectedInteger(*k),
            SinceError::UnsupportedUnit(u) => SinceFail::UnsupportedUnit(u@),
            SinceError::CannotConvert => SinceFail::CannotConvert,
            SinceError::MultiplyOverflow => SinceFail::MultiplyOverflow,
            SinceError::DurationOverflow => SinceFail::DurationOverflow,
            SinceError::OutOfRange => SinceFail::OutOfRange,
            SinceError::NotCharBoundary => SinceFail::NotCharBoundary,
        }
    }
}

/// What a lowered `--since` window comes to: the date of an instant, a date
/// taken verbatim from the text, or a failure.
pub enum SincePlan {
    Instant(int),
    Literal(Seq<char>),
    Fail(SinceFail),
}

/// A value that fits in `i64`.
pub open spec fn fits_i64(x: int) -> bool {
    i64::MIN <= x <= i64::MAX
}

/// `now - Duration::seconds(secs)`: the duration must fit in `i64` and the
/// result must stay in the range `time` represents.
pub open spec fn shift_back(now: int, secs: int) -> SincePlan {
    if !fits_i64(secs) {
        SincePlan::Fail(SinceFail::DurationOverflow)
    } else if !timestamp_in_range(now - secs) {
        SincePlan::Fail(SinceFail::OutOfRange)
    } else {
        SincePlan::Instant(now - secs)
    }
}

/// `unit.trim_end_matches('s')`.
pub open spec fn strip_plural(u: Seq<char>) -> Seq<char>
    decreases u.len(),
{
    if u.len() > 0 && u.last() == 's' {
        strip_plural(u.drop_last())
    } else {
        u
    }
}

/// `count <unit> ago`, counted back from `now`.
pub open spec fn ago_plan(count: int, unit: Seq<char>, now: int) -> SincePlan {
    let u = strip_plural(unit);
    if u == seq!['h', 'o', 'u', 'r'] {
        shift_back(now, count * 3600)
    } else if u == seq!['d', 'a', 'y'] {
        shift_back(now, count * 86400)
    } else if u == seq!['w', 'e', 'e', 'k'] {
        shift_back(now, count * 604800)
    } else if u == seq!['m', 'o', 'n', 't', 'h'] {
        if !fits_i64(30 * count) {
            SincePlan::Fail(SinceFail::MultiplyOverflow)
        } else {
            shift_back(now, 30 * count * 86400)
        }
    } else if u == seq!['y', 'e', 'a', 'r'] {
        if !fits_i64(365 * count) {
            SincePlan::Fail(SinceFail::MultiplyOverflow)
        } else {
            shift_back(now, 365 * count * 86400)
        }
    } else {
        SincePlan::Fail(SinceFail::UnsupportedUnit(u))
    }
}

/// The number of bytes of a character in UTF-8.
pub open spec fn utf8_width(c: char) -> nat {
    let u = c as u32;
    if u < 0x80 {
        1
    } else if u < 0x800 {
        2
    } else if u < 0x10000 {
        3
    } else {
        4
    }
}

/// The number of bytes of a text in UTF-8 (`str::len`).
pub open spec fn byte_len(s: Seq<char>) -> nat
    decreases s.len(),
{
    if s.len() == 0 {
        0
    } else {
        byte_len(s.drop_last()) + utf8_width(s.last())
    }
}

/// Byte offset `k` starts a character (`str::is_char_boundary`).
pub open spec fn is_boundary(s: Seq<char>, k: int) -> bool {
    exists|i: int| 0 <= i <= s.len() && byte_len(s.take(i)) == k
}

/// The text begins with `DDDD-DD-DD` (ASCII digits `D`).
pub open spec fn looks_iso(s: Seq<char>) -> bool {
    &&& s.len() >= 10
    &&& is_digit(s[0]) && is_digit(s[1]) && is_digit(s[2]) && is_digit(s[3])
    &&& s[4] == '-'
    &&& is_digit(s[5]) && is_digit(s[6])
    &&& s[7] == '-'
    &&& is_digit(s[8]) && is_digit(s[9])
}

/// ` ago`.
pub open spec fn ago_suffix() -> Seq<char> {
    seq![' ', 'a', 'g', 'o']
}

/// What a trimmed, lowercased `--since` window comes to, with `now` as the
/// current instant.
pub open spec fn since_plan(l: Seq<char>, now: int) -> SincePlan {
    if l.len() >= 4 && l.skip(l.len() - 4) == ago_suffix() {
        let words = split_whitespace_spec(l.take(l.len() - 4));
        if words.len() == 0 {
            SincePlan::Fail(SinceFail::ExpectedNumber)
        } else if words.len() == 1 {
            SincePlan::Fail(SinceFail::ExpectedUnit)
        } else if words.len() > 2 {
            SincePlan::Fail(SinceFail::Unrecognized)
        } else {
            match parse_i64_spec(words[0]) {
                Err(k) => SincePlan::Fail(SinceFail::ExpectedInteger(k)),
                Ok(count) => ago_plan(count, words[1], now),
            }
        }
    } else if l == seq!['y', 'e', 's', 't', 'e', 'r', 'd', 'a', 'y'] {
        shift_back(now, 86400)
    } else if l == seq!['t', 'o', 'd', 'a', 'y'] {
        SincePlan::Instant(now)
    } else if byte_len(l) >= 10 {
        if looks_iso(l) {
            SincePlan::Literal(l.take(10))
        } else if !is_boundary(l, 10) {
            SincePlan::Fail(SinceFail::NotCharBoundary)
        } else {
            SincePlan::Fail(SinceFail::CannotConvert)
        }
    } else {
        SincePlan::Fail(SinceFail::CannotConvert)
    }
}

/// `r` is what `plan` says: the ISO date of its instant, its literal text, or
/// its failure.
pub open spec fn follows_plan(r: Result<String, SinceError>, plan: SincePlan) -> bool {
    match plan {
        SincePlan::Instant(t) => r is Ok && date_text_of(t, r->Ok_0@),
        SincePlan::Literal(x) => r is Ok && r->Ok_0@ == x,
        SincePlan::Fail(f) => r is Err && r->Err_0@ == f,
    }
}


/// Drops trailing `'s'` characters.
pub fn strip_plural_chars(u: &[char]) -> (r: Vec<char>)
    ensures
        r@ == strip_plural(u@),
{
    let mut n = u.len();
    assert(u@.take(n as int) =~= u@);
    while n > 0 && u[n - 1] == 's'
        invariant
            n <= u@.len(),
            strip_plural(u@) == strip_plural(u@.take(n as int)),
        decreases n,
    {
        assert(u@.take(n as int).drop_last() =~= u@.take(n - 1));
        n -= 1;
    }
    slice_prefix(u, n)
}

/// `now - secs` seconds, as the instant whose date is wanted.
fn shift_back_exec(now: i64, secs: i128) -> (r: Result<i64, SinceError>)
    requires
        timestamp_in_range(now as int),
        -0x1_0000_0000_0000_0000_0000_0000 < secs < 0x1_0000_0000_0000_0000_0000_0000,
    ensures
        match shift_back(now as int, secs as int) {
            SincePlan::Instant(t) => r is Ok && r->Ok_0 == t,
            SincePlan::Fail(f) => r is Err && r->Err_0@ == f,
            SincePlan::Literal(_) => false,
        },
{
    if secs < i64::MIN as i128 || secs > i64::MAX as i128 {
        return Err(SinceError::DurationOverflow);
    }
    let t: i128 = now as i128 - secs;
    if t < MIN_TIMESTAMP as i128 || t > MAX_TIMESTAMP as i128 {
        return Err(SinceError::OutOfRange);
    }
    Ok(t as i64)
}

/// The instant `count <unit> ago`.
fn ago_instant(count: i64, unit: &[char], now: i64) -> (r: Result<i64, SinceError>)
    requires
        timestamp_in_range(now as int),
    ensures
        match ago_plan(count as int, unit@, now as int) {
            SincePlan::Instant(t) => r is Ok && r->Ok_0 == t,
            SincePlan::Fail(f) => r is Err && r->Err_0@ == f,
            SincePlan::Literal(_) => false,
        },
{
    let u = strip_plural_chars(unit);
    let c = count as i128;
    if chars_eq(u.as_slice(), &['h', 'o', 'u', 'r']) {
        shift_back_exec(now, c * 3600)
    } else if chars_eq(u.as_slice(), &['d', 'a', 'y']) {
        shift_back_exec(now, c * 86400)
    } else if chars_eq(u.as_slice(), &['w', 'e', 'e', 'k']) {
        shift_back_exec(now, c * 604800)
    } else if chars_eq(u.as_slice(), &['m', 'o', 'n', 't', 'h']) {
        let days = c * 30;
        if days < i64::MIN as i128 || days > i64::MAX as i128 {
            Err(SinceError::MultiplyOverflow)
        } else {
            shift_back_exec(now, days * 86400)
        }
    } else if chars_eq(u.as_slice(), &['y', 'e', 'a', 'r']) {
        let days = c * 365;
        if days < i64::MIN as i128 || days > i64::MAX as i128 {
            Err(SinceError::MultiplyOverflow)
        } else {
            shift_back_exec(now, days * 86400)
        }
    } else {
        Err(SinceError::UnsupportedUnit(string_of(u.as_slice())))
    }
}


/// Byte lengths of prefixes grow with the prefix.
proof fn lemma_byte_len_monotone(s: Seq<char>, i: int, j: int)
    requires
        0 <= i <= j <= s.len(),
    ensures
        byte_len(s.take(i)) + (j - i) <= byte_len(s.take(j)),
    decreases j - i,
{
    if i < j {
        lemma_byte_len_monotone(s, i, j - 1);
        assert(s.take(j).drop_last() =~= s.take(j - 1));
    }
}

/// Walks the UTF-8 byte offsets of `v`: whether it has at least ten bytes, and
/// whether byte offset ten starts a character.
fn ten_bytes(v: &[char]) -> (r: (bool, bool))
    ensures
        r.0 == (byte_len(v@) >= 10),
        r.0 ==> r.1 == is_boundary(v@, 10),
{
    let mut i: usize = 0;
    let mut b: usize = 0;
    assert(v@.take(0) =~= Seq::<char>::empty());
    while i < v.len() && b < 10
        invariant
            i <= v@.len(),
            b == byte_len(v@.take(i as int)),
            forall|j: int| 0 <= j < i ==> byte_len(v@.take(j)) < 10,
            b >= 10 ==> i > 0,
        decreases v.len() - i,
    {
        let c = v[i];
        let u = c as u32;
        let w: usize = if u < 0x80 {
            1
        } else if u < 0x800 {
            2
        } else if u < 0x10000 {
            3
        } else {
            4
        };
        assert(v@.take(i + 1).drop_last() =~= v@.take(i as int));
        assert(w == utf8_width(v@[i as int]));
        b = b + w;
        i += 1;
    }
    proof {
        assert(v@.take(v@.len() as int) =~= v@);
        lemma_byte_len_monotone(v@, i as int, v@.len() as int);
        if b >= 10 {
            if b == 10 {
                assert(is_boundary(v@, 10));
            } else {
                assert forall|j: int| 0 <= j <= v@.len() implies byte_len(v@.take(j)) != 10 by {
                    if j >= i {
                        lemma_byte_len_monotone(v@, i as int, j);
                    }
                }
            }
        }
    }
    (b >= 10, b == 10)
}

/// The text begins with `DDDD-DD-DD`.
fn looks_iso_chars(v: &[char]) -> (r: bool)
    ensures
        r == looks_iso(v@),
{
    v.len() >= 10 && '0' <= v[0] && v[0] <= '9' && '0' <= v[1] && v[1] <= '9' && '0' <= v[2]
        && v[2] <= '9' && '0' <= v[3] && v[3] <= '9' && v[4] == '-' && '0' <= v[5] && v[5] <= '9'
        && '0' <= v[6] && v[6] <= '9' && v[7] == '-' && '0' <= v[8] && v[8] <= '9' && '0' <= v[9]
        && v[9] <= '9'
}

/// The ISO date of a trimmed, lowercased `--since` window, counted back from
/// the instant `now`.
pub fn since_from_lowered(lowered: &str, now: i64) -> (r: Result<String, SinceError>)
    requires
        timestamp_in_range(now as int),
    ensures
        follows_plan(r, since_plan(lowered@, now as int)),
{
    let l = chars_of(lowered);
    let n = l.len();
    if n >= 4 && l[n - 4] == ' ' && l[n - 3] == 'a' && l[n - 2] == 'g' && l[n - 1] == 'o' {
        assert(l@.skip(n - 4) =~= ago_suffix());
        let stripped = slice_prefix(l.as_slice(), n - 4);
        let words = split_whitespace_chars(stripped.as_slice());
        if words.len() == 0 {
            return Err(SinceError::ExpectedNumber);
        }
        if words.len() == 1 {
            return Err(SinceError::ExpectedUnit);
        }
        if words.len() > 2 {
            return Err(SinceError::Unrecognized);
        }
        assert(words@[0]@ == split_whitespace_spec(l@.take(n - 4))[0]);
        assert(words@[1]@ == split_whitespace_spec(l@.take(n - 4))[1]);
        let count = match parse_i64(words[0].as_slice()) {
            Ok(c) => c,
            Err(k) => {
                return Err(SinceError::ExpectedInteger(k));
            },
        };
        return match ago_instant(count, words[1].as_slice(), now) {
            Ok(t) => Ok(date_text(t)),
            Err(e) => Err(e),
        };
    } else {
        assert(!(l@.len() >= 4 && l@.skip(l@.len() - 4) == ago_suffix())) by {
            if l@.len() >= 4 && l@.skip(l@.len() - 4) == ago_suffix() {
                assert(l@.skip(n - 4)[0] == l@[n - 4]);
                assert(l@.skip(n - 4)[1] == l@[n - 3]);
                assert(l@.skip(n - 4)[2] == l@[n - 2]);
                assert(l@.skip(n - 4)[3] == l@[n - 1]);
            }
        }
    }
    if chars_eq(l.as_slice(), &['y', 'e', 's', 't', 'e', 'r', 'd', 'a', 'y']) {
        return match shift_back_exec(now, 86400) {
            Ok(t) => Ok(date_text(t)),
            Err(e) => Err(e),
        };
    }
    if chars_eq(l.as_slice(), &['t', 'o', 'd', 'a', 'y']) {
        return Ok(date_text(now));
    }
    let (long_enough, boundary) = ten_bytes(l.as_slice());
    if long_enough {
        if looks_iso_chars(l.as_slice()) {
            return Ok(string_of(slice_prefix(l.as_slice(), 10).as_slice()));
        }
        if !boundary {
            return Err(SinceError::NotCharBoundary);
        }
    }
    Err(SinceError::CannotConvert)
}


/// What `str::to_lowercase` returns for a text: Unicode's lowercase mapping,
/// which depends on context for a capital sigma at the end of a word, and
/// may turn one character into several.
pub uninterp spec fn spec_to_lowercase(s: Seq<char>) -> Seq<char>;

/// Whether every character of `s` is ASCII.
pub open spec fn is_ascii_text(s: Seq<char>) -> bool {
    forall|i: int| 0 <= i < s.len() ==> (s[i] as u32) < 128
}

/// ASCII lowercasing of one character: `A`..=`Z` become `a`..=`z`, every
/// other character stays.
pub open spec fn ascii_lower_char(c: char) -> char {
    if 'A' <= c && c <= 'Z' {
        ((c as u32) + 32) as char
    } else {
        c
    }
}

/// ASCII lowercasing of a text, character by character.
pub open spec fn ascii_lower(s: Seq<char>) -> Seq<char> {
    s.map_values(|c: char| ascii_lower_char(c))
}

/// `str::to_lowercase`. Its result is named: the mapping is Unicode's
/// lowercase table. On ASCII text that table is plain ASCII lowercasing,
/// which is stated.
#[verifier::external_body]
fn to_lowercase(s: &str) -> (r: String)
    ensures
        r@ == spec_to_lowercase(s@),
        is_ascii_text(s@) ==> r@ == ascii_lower(s@),
{
    s.to_lowercase()
}

/// The ISO date of a `--since` window (trimmed, then lowercased), counted back
/// from the instant `now`.
pub fn since_to_iso_date_at(spec: &str, now: i64) -> (r: Result<String, SinceError>)
    requires
        timestamp_in_range(now as int),
    ensures
        follows_plan(r, since_plan(spec_to_lowercase(trim_spec(spec@)), now as int)),
        is_ascii_text(trim_spec(spec@)) ==> follows_plan(
            r,
            since_plan(ascii_lower(trim_spec(spec@)), now as int),
        ),
{
    let trimmed = trim(spec);
    let lowered = to_lowercase(trimmed.as_str());
    since_from_lowered(lowered.as_str(), now)
}

/// Converts a `git log --since` style window into a `YYYY-MM-DD` date for
/// `gh search commits --committer-date=>=...`, counting relative forms back
/// from the current instant.
pub fn since_to_iso_date(spec: &str) -> (r: Result<String, SinceError>)
    ensures
        exists|now: int|
            timestamp_in_range(now) && follows_plan(
                r,
                since_plan(spec_to_lowercase(trim_spec(spec@)), now),
            ) && (is_ascii_text(trim_spec(spec@)) ==> follows_plan(
                r,
                since_plan(ascii_lower(trim_spec(spec@)), now),
            )),
{
    let now = now_timestamp();
    since_to_iso_date_at(spec, now)
}


/// Every character takes at least one byte.
proof fn lemma_byte_len_at_least_len(s: Seq<char>)
    ensures
        byte_len(s) >= s.len(),
    decreases s.len(),
{
    if s.len() > 0 {
        lemma_byte_len_at_least_len(s.drop_last());
    }
}

/// A window that begins with `YYYY-MM-DD` (and is not a relative `... ago`
/// form) is passed through: its first ten characters are the date.
pub proof fn lemma_iso_passthrough(l: Seq<char>, now: int)
    requires
        looks_iso(l),
        !(l.len() >= 4 && l.skip(l.len() - 4) == ago_suffix()),
    ensures
        since_plan(l, now) == SincePlan::Literal(l.take(10)),
{
    lemma_byte_len_at_least_len(l);
    assert(l != seq!['y', 'e', 's', 't', 'e', 'r', 'd', 'a', 'y']) by {
        if l == seq!['y', 'e', 's', 't', 'e', 'r', 'd', 'a', 'y'] {
            assert(l[0] == 'y');
        }
    }
    assert(l != seq!['t', 'o', 'd', 'a', 'y']) by {
        if l == seq!['t', 'o', 'd', 'a', 'y'] {
            assert(l.len() == 5);
        }
    }
}

/// The characters of a decimal text are digits.
proof fn lemma_decimal_digits(n: nat)
    ensures
        forall|i: int| 0 <= i < decimal(n).len() ==> is_digit(#[trigger] decimal(n)[i]),
    decreases n,
{
    if n >= 10 {
        lemma_decimal_digits(n / 10);
        let s = decimal(n);
        assert(s == decimal(n / 10).push(digit_char(n % 10)));
        assert forall|i: int| 0 <= i < s.len() implies is_digit(#[trigger] s[i]) by {
            if i < s.len() - 1 {
                assert(s[i] == decimal(n / 10)[i]);
            }
        }
    } else {
        assert(decimal(n) == seq![digit_char(n)]);
    }
}

/// A non-negative number padded to a width at least its length is all digits
/// and exactly that wide.
proof fn lemma_padded_digits(n: nat, width: nat)
    requires
        decimal(n).len() <= width,
    ensures
        padded_int(n as int, width).len() == width,
        forall|i: int| 0 <= i < width ==> is_digit(#[trigger] padded_int(n as int, width)[i]),
{
    lemma_decimal_digits(n);
    let p = padded_int(n as int, width);
    assert forall|i: int| 0 <= i < width implies is_digit(#[trigger] p[i]) by {
        if decimal(n).len() < width {
            let z = (width - decimal(n).len()) as nat;
            if i >= z {
                assert(p[i] == decimal(n)[i - z]);
            }
        }
    }
}

/// The date text of a date in years 0..=9999 has the shape `YYYY-MM-DD`, so a
/// `--since` window holding such a date is passed through unchanged.
pub proof fn lemma_date_text_passthrough(y: int, m: int, d: int, now: int)
    requires
        0 <= y <= 9999,
        1 <= m <= 12,
        1 <= d <= 31,
    ensures
        iso_date_spec(y, m, d).len() == 10,
        looks_iso(iso_date_spec(y, m, d)),
        since_plan(iso_date_spec(y, m, d), now) == SincePlan::Literal(iso_date_spec(y, m, d)),
{
    lemma_decimal_len(y as nat);
    lemma_decimal_len(m as nat);
    lemma_decimal_len(d as nat);
    lemma_padded_digits(y as nat, 4);
    lemma_padded_digits(m as nat, 2);
    lemma_padded_digits(d as nat, 2);
    let s = iso_date_spec(y, m, d);
    let py = padded_int(y, 4);
    let pm = padded_int(m, 2);
    let pd = padded_int(d, 2);
    assert(s =~= py + seq!['-'] + pm + seq!['-'] + pd);
    assert(s[0] == py[0] && s[1] == py[1] && s[2] == py[2] && s[3] == py[3]);
    assert(s[5] == pm[0] && s[6] == pm[1] && s[8] == pd[0] && s[9] == pd[1]);
    assert(s.take(10) =~= s);
    assert(!(s.len() >= 4 && s.skip(s.len() - 4) == ago_suffix())) by {
        if s.skip(s.len() - 4) == ago_suffix() {
            assert(s.skip(6)[3] == s[9]);
        }
    }
    lemma_iso_passthrough(s, now);
}

/// Every date a window converts to, up to the year 9999 and from the year 0,
/// has the shape `YYYY-MM-DD`: ten characters, four digits, a dash, two
/// digits, a dash, two digits.
pub proof fn lemma_since_result_shape(l: Seq<char>, now: int, r: Result<String, SinceError>)
    requires
        follows_plan(r, since_plan(l, now)),
        r is Ok,
        since_plan(l, now) matches SincePlan::Instant(t) ==> forall|y: int, m: int, d: int|
            is_date_of(y, m, d, t) ==> 0 <= y <= 9999,
    ensures
        r->Ok_0@.len() == 10,
        looks_iso(r->Ok_0@),
{
    match since_plan(l, now) {
        SincePlan::Instant(t) => {
            let s = r->Ok_0@;
            let (y, m, d) = choose|y: int, m: int, d: int|
                is_date_of(y, m, d, t) && s == iso_date_spec(y, m, d);
            assert(1 <= d <= 31);
            lemma_date_text_passthrough(y, m, d, now);
        },
        SincePlan::Literal(x) => {
            assert(looks_iso(l));
            assert(x == l.take(10));
        },
        SincePlan::Fail(_) => {},
    }
}

/// Reading one more character goes on from where the shorter text stopped.
proof fn lemma_scan_push(s: Seq<char>, c: char, acc: int, neg: bool)
    ensures
        scan_digits(s.push(c), acc, neg) == match scan_digits(s, acc, neg) {
            Ok(v) => scan_digits(seq![c], v, neg),
            Err(k) => Err(k),
        },
    decreases s.len(),
{
    if s.len() == 0 {
        assert(s.push(c) =~= seq![c]);
    } else {
        assert(s.push(c)[0] == s[0]);
        assert(s.push(c).drop_first() =~= s.drop_first().push(c));
        if is_digit(s[0]) {
            let next = if neg {
                acc * 10 - digit_value(s[0])
            } else {
                acc * 10 + digit_value(s[0])
            };
            if !(next < i64::MIN || next > i64::MAX) {
                lemma_scan_push(s.drop_first(), c, next, neg);
            }
        }
    }
}

/// A digit character is a digit of the value it stands for.
proof fn lemma_digit_char(d: nat)
    requires
        d < 10,
    ensures
        is_digit(digit_char(d)),
        digit_value(digit_char(d)) == d,
{
}

/// The decimal digits of `m` read back give `m` (`-m` when reading a
/// negative number).
proof fn lemma_scan_decimal(m: nat, neg: bool)
    requires
        neg ==> m <= 0x8000_0000_0000_0000,
        !neg ==> m <= i64::MAX,
    ensures
        scan_digits(decimal(m), 0, neg) == Ok::<int, IntErrorKind>(
            if neg {
                -m
            } else {
                m as int
            },
        ),
    decreases m,
{
    let c = digit_char(m % 10);
    lemma_digit_char(m % 10);
    let one = seq![c];
    assert(one.drop_first() =~= Seq::<char>::empty());
    assert(one[0] == c);
    let v: int = if neg {
        -((m / 10) as int)
    } else {
        (m / 10) as int
    };
    let next: int = if neg {
        v * 10 - digit_value(c)
    } else {
        v * 10 + digit_value(c)
    };
    assert((m / 10) * 10 + m % 10 == m);
    assert(next == if neg {
        -m
    } else {
        m as int
    });
    assert(scan_digits(one.drop_first(), next, neg) == Ok::<int, IntErrorKind>(next));
    assert(scan_digits(one, v, neg) == Ok::<int, IntErrorKind>(next));
    if m < 10 {
        assert(decimal(m) == one);
        assert(v == 0);
    } else {
        lemma_scan_decimal(m / 10, neg);
        lemma_scan_push(decimal(m / 10), c, 0, neg);
        assert(decimal(m) == decimal(m / 10).push(c));
    }
}

/// `i64::from_str` reads back the text `format!("{n}")` gives for an `i64`.
pub proof fn lemma_parse_i64_decimal(n: int)
    requires
        fits_i64(n),
    ensures
        parse_i64_spec(padded_int(n, 0)) == Ok::<int, IntErrorKind>(n),
{
    if n >= 0 {
        let d = decimal(n as nat);
        lemma_decimal_len(n as nat);
        lemma_decimal_digits(n as nat);
        assert(is_digit(d[0]));
        assert(padded_int(n, 0) == d);
        lemma_scan_decimal(n as nat, false);
    } else {
        let m = (-n) as nat;
        let d = decimal(m);
        lemma_decimal_len(m);
        let t = seq!['-'] + d;
        assert(padded_int(n, 0) == t);
        assert(t[0] == '-');
        assert(t.drop_first() =~= d);
        lemma_scan_decimal(m, true);
    }
}

/// A character of the `--since` relative form: an ASCII digit, a minus
/// sign or a lowercase ASCII letter.
pub open spec fn word_char(c: char) -> bool {
    ('0' <= c <= '9') || c == '-' || ('a' <= c <= 'z')
}

/// Two words with one space between them split into those two words.
proof fn lemma_split_two_words(a: Seq<char>, b: Seq<char>)
    requires
        a.len() > 0,
        b.len() > 0,
        forall|i: int| 0 <= i < a.len() ==> word_char(#[trigger] a[i]),
        forall|i: int| 0 <= i < b.len() ==> word_char(#[trigger] b[i]),
    ensures
        split_whitespace_spec(a + seq![' '] + b) == seq![a, b],
{
    let sep = ws_pred();
    assert forall|i: int| 0 <= i < a.len() implies !sep(#[trigger] a[i]) by {
        assert(word_char(a[i]));
    }
    assert forall|i: int| 0 <= i < b.len() implies !sep(#[trigger] b[i]) by {
        assert(word_char(b[i]));
    }
    lemma_split_extend(Seq::empty(), a, sep);
    assert(Seq::<char>::empty() + a =~= a);
    assert(split_where(Seq::<char>::empty(), sep) == seq![Seq::<char>::empty()]);
    assert(split_where(a, sep) =~= seq![a]);
    let a1 = a + seq![' '];
    assert(a1.drop_last() =~= a);
    assert(a1.last() == ' ');
    assert(sep(' '));
    assert(split_where(a1, sep) =~= seq![a, Seq::<char>::empty()]);
    lemma_split_extend(a1, b, sep);
    assert(split_where(a1 + b, sep) =~= seq![a, b]);
    reveal_with_fuel(Seq::filter, 3);
    assert(seq![a, b].drop_last() =~= seq![a]);
    assert(seq![a].drop_last() =~= Seq::<Seq<char>>::empty());
    assert(split_whitespace_spec(a + seq![' '] + b) =~= seq![a, b]);
}

/// The units of the relative form, as `ago_plan` names them.
pub open spec fn is_time_unit(u: Seq<char>) -> bool {
    ||| u == seq!['h', 'o', 'u', 'r']
    ||| u == seq!['d', 'a', 'y']
    ||| u == seq!['w', 'e', 'e', 'k']
    ||| u == seq!['m', 'o', 'n', 't', 'h']
    ||| u == seq!['y', 'e', 'a', 'r']
}

/// `format!("{n} {unit} ago")`, the unit followed by `s` when `plural`.
pub open spec fn relative_text(n: int, unit: Seq<char>, plural: bool) -> Seq<char> {
    padded_int(n, 0) + seq![' '] + (if plural {
        unit.push('s')
    } else {
        unit
    }) + ago_suffix()
}

/// The text of an `i64` is made of digits and a leading minus sign.
proof fn lemma_decimal_word(n: int)
    requires
        fits_i64(n),
    ensures
        padded_int(n, 0).len() >= 1,
        forall|i: int| 0 <= i < padded_int(n, 0).len() ==> word_char(#[trigger] padded_int(n, 0)[i]),
{
    let t = padded_int(n, 0);
    if n >= 0 {
        let d = decimal(n as nat);
        lemma_decimal_len(n as nat);
        lemma_decimal_digits(n as nat);
        assert(t == d);
    } else {
        let m = (-n) as nat;
        let d = decimal(m);
        lemma_decimal_len(m);
        lemma_decimal_digits(m);
        assert(t == seq!['-'] + d);
        assert forall|i: int| 0 <= i < t.len() implies word_char(#[trigger] t[i]) by {
            if i > 0 {
                assert(t[i] == d[i - 1]);
            }
        }
    }
}

/// A unit, singular or plural, is a word of lowercase letters that
/// `strip_plural` brings back to the unit.
proof fn lemma_unit_word(unit: Seq<char>, plural: bool)
    requires
        is_time_unit(unit),
    ensures
        ({
            let w = if plural {
                unit.push('s')
            } else {
                unit
            };
            &&& w.len() > 0
            &&& forall|i: int| 0 <= i < w.len() ==> word_char(#[trigger] w[i])
            &&& strip_plural(w) == unit
        }),
{
    let w = if plural {
        unit.push('s')
    } else {
        unit
    };
    assert(unit.len() >= 3);
    assert(unit.last() != 's');
    assert forall|i: int| 0 <= i < unit.len() implies 'a' <= #[trigger] unit[i] <= 'z' by {
        if i == 0 {
        } else if i == 1 {
        } else if i == 2 {
        } else if i == 3 {
        } else {
        }
    }
    assert(strip_plural(unit) == unit);
    assert(unit.push('s').drop_last() =~= unit);
    assert(unit.push('s').last() == 's');
    assert(strip_plural(unit.push('s')) == strip_plural(unit));
    assert forall|i: int| 0 <= i < w.len() implies word_char(#[trigger] w[i]) by {
        if i < unit.len() {
            assert(w[i] == unit[i]);
        }
    }
}

/// `format!("{n} {unit} ago")`, with the unit singular or plural, needs no
/// trimming or lowercasing and counts `n` units back from `now`, as
/// `ago_plan` spells out: an hour is 3600 seconds, a day 86400, a week seven
/// days, a month 30 days and a year 365 days.
pub proof fn lemma_relative_window(n: int, unit: Seq<char>, plural: bool, now: int)
    requires
        fits_i64(n),
        is_time_unit(unit),
    ensures
        trim_spec(relative_text(n, unit, plural)) == relative_text(n, unit, plural),
        is_ascii_text(relative_text(n, unit, plural)),
        ascii_lower(relative_text(n, unit, plural)) == relative_text(n, unit, plural),
        since_plan(relative_text(n, unit, plural), now) == ago_plan(n, unit, now),
{
    let num = padded_int(n, 0);
    let w = if plural {
        unit.push('s')
    } else {
        unit
    };
    let text = relative_text(n, unit, plural);
    lemma_decimal_word(n);
    lemma_unit_word(unit, plural);
    lemma_parse_i64_decimal(n);
    let head = num + seq![' '] + w;
    assert(text == head + ago_suffix());
    assert(text.skip(text.len() - 4) =~= ago_suffix());
    assert(text.take(text.len() - 4) =~= head);
    lemma_split_two_words(num, w);
    let words = split_whitespace_spec(head);
    assert(words == seq![num, w]);
    assert(words[0] == num && words[1] == w);
    assert(forall|i: int| 0 <= i < text.len() ==> word_char(#[trigger] text[i]) || text[i] == ' ')
        by {
        assert forall|i: int| 0 <= i < text.len() implies word_char(#[trigger] text[i]) || text[i]
            == ' ' by {
            if i < num.len() {
                assert(text[i] == num[i]);
            } else if i == num.len() {
            } else if i < num.len() + 1 + w.len() {
                assert(text[i] == w[i - num.len() - 1]);
            } else {
                assert(text[i] == ago_suffix()[i - head.len()]);
            }
        }
    }
    assert(trim_end_spec(text) == text) by {
        assert(text.last() == 'o');
    }
    assert(trim_start_spec(text) == text) by {
        assert(text[0] == num[0]);
        assert(word_char(num[0]));
    }
    assert(ascii_lower(text) =~= text);
}

} // verus!
