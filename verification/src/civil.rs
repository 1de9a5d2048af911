//! Timestamps as the Docker daemon writes them (RFC 3339, UTC) and their
//! conversion to Unix seconds through the proleptic Gregorian calendar.

use vstd::prelude::*;

use crate::text::{decimal, digit_char, find_first, lemma_first_at, lemma_first_none, sub_chars, to_chars};

verus! {

// ----------------------------------------------------------------------------
// Integers in decimal text (the grammar that `i64::from_str` accepts)
// ----------------------------------------------------------------------------

/// An ASCII decimal digit.
pub open spec fn is_digit(c: char) -> bool {
    '0' <= c && c <= '9'
}

/// Every character is an ASCII decimal digit.
pub open spec fn all_digits(s: Seq<char>) -> bool {
    forall|i: int| 0 <= i < s.len() ==> is_digit(#[trigger] s[i])
}

/// Value of a string of decimal digits (leading zeros allowed, empty is 0).
pub open spec fn digits_value(s: Seq<char>) -> nat
    decreases s.len(),
{
    if s.len() == 0 {
        0
    } else {
        digits_value(s.drop_last()) * 10 + ((s.last() as nat) - ('0' as nat)) as nat
    }
}

/// An `i64` written in decimal: an optional `+` or `-`, then at least one digit,
/// within the range of `i64`.
pub open spec fn spec_parse_i64(s: Seq<char>) -> Option<int> {
    if s.len() == 0 {
        None
    } else {
        let signed = s[0] == '+' || s[0] == '-';
        let digits = if signed { s.drop_first() } else { s };
        if digits.len() == 0 || !all_digits(digits) {
            None
        } else {
            let v: int = if s[0] == '-' { -digits_value(digits) } else { digits_value(digits) as int };
            if i64::MIN <= v <= i64::MAX { Some(v) } else { None }
        }
    }
}

proof fn lemma_digits_prefix(s: Seq<char>, k: int)
    requires
        all_digits(s),
        0 <= k <= s.len(),
    ensures
        digits_value(s.subrange(0, k)) <= digits_value(s),
    decreases s.len(),
{
    if k < s.len() {
        let t = s.drop_last();
        assert(all_digits(t));
        lemma_digits_prefix(t, k);
        assert(t.subrange(0, k) =~= s.subrange(0, k));
    } else {
        assert(s.subrange(0, k) =~= s);
    }
}

/// `i64::from_str` on the characters `v[lo..hi]`.
#[verifier::loop_isolation(false)]
pub fn parse_i64(v: &Vec<char>, lo: usize, hi: usize) -> (r: Option<i64>)
    requires
        lo <= hi <= v@.len(),
    ensures
        match r {
            Some(x) => spec_parse_i64(v@.subrange(lo as int, hi as int)) == Some(x as int),
            None => spec_parse_i64(v@.subrange(lo as int, hi as int)) is None,
        },
{
    let ghost s = v@.subrange(lo as int, hi as int);
    if lo == hi {
        return None;
    }
    let first = v[lo];
    let neg = first == '-';
    let start: usize = if first == '-' || first == '+' { lo + 1 } else { lo };
    let ghost digits = v@.subrange(start as int, hi as int);
    assert(digits =~= (if s[0] == '+' || s[0] == '-' { s.drop_first() } else { s }));
    if start == hi {
        return None;
    }
    let mut acc: u64 = 0;
    let mut i: usize = start;
    while i < hi
        invariant
            lo <= start <= i <= hi <= v@.len(),
            digits == v@.subrange(start as int, hi as int),
            all_digits(v@.subrange(start as int, i as int)),
            acc as nat == digits_value(v@.subrange(start as int, i as int)),
            acc <= 9223372036854775808u64,
        decreases hi - i,
    {
        let c = v[i];
        if !('0' <= c && c <= '9') {
            assert(digits[i - start] == c);
            return None;
        }
        let d: u64 = ((c as u32) - ('0' as u32)) as u64;
        let ghost pre = v@.subrange(start as int, i as int);
        let ghost next = v@.subrange(start as int, i + 1);
        assert(next.drop_last() =~= pre);
        assert(all_digits(next));
        if acc > (9223372036854775808u64 - d) / 10 {
            assert(digits_value(next) > 9223372036854775808) by (nonlinear_arith)
                requires
                    digits_value(next) == acc * 10 + d,
                    acc > (9223372036854775808u64 - d) / 10,
                    d <= 9,
            ;
            proof {
                if all_digits(digits) {
                    let k: int = i + 1 - start;
                    lemma_digits_prefix(digits, k);
                    assert(digits.subrange(0, k) =~= next);
                }
            }
            return None;
        }
        assert(acc * 10 + d <= 9223372036854775808) by (nonlinear_arith)
            requires
                acc <= (9223372036854775808u64 - d) / 10,
                d <= 9,
        ;
        acc = acc * 10 + d;
        i = i + 1;
    }
    assert(v@.subrange(start as int, i as int) =~= digits);
    if neg {
        if acc == 9223372036854775808u64 {
            Some(i64::MIN)
        } else {
            Some(-(acc as i64))
        }
    } else {
        if acc > 9223372036854775807u64 {
            None
        } else {
            Some(acc as i64)
        }
    }
}

// ----------------------------------------------------------------------------
// Calendar arithmetic
// ----------------------------------------------------------------------------

/// Integer division rounding toward zero, as Rust's `/` on signed integers.
pub open spec fn trunc_div(a: int, b: int) -> int
    recommends
        b > 0,
{
    if a >= 0 {
        a / b
    } else {
        -((-a) / b)
    }
}

/// Remainder of `trunc_div`, with the sign of `a`, as Rust's `%` on signed integers.
pub open spec fn trunc_rem(a: int, b: int) -> int
    recommends
        b > 0,
{
    a - b * trunc_div(a, b)
}

/// `v` is a value of `i64`.
pub open spec fn fits_i64(v: int) -> bool {
    i64::MIN <= v <= i64::MAX
}

/// Days from 1970-01-01 to the Gregorian date `y-m-d` (Howard Hinnant's
/// `days_from_civil`, with Rust's truncating division).
pub open spec fn spec_days_from_civil(y: int, m: int, d: int) -> int {
    let y1 = if m <= 2 { y - 1 } else { y };
    let era = trunc_div(if y1 >= 0 { y1 } else { y1 - 399 }, 400);
    let yoe = y1 - era * 400;
    let mp = trunc_rem(m + 9, 12);
    let doy = trunc_div(153 * mp + 2, 5) + d - 1;
    let doe = yoe * 365 + yoe / 4 - yoe / 100 + doy;
    era * 146097 + doe - 719468
}

/// Every intermediate value of `spec_days_from_civil`, evaluated in the order
/// of the `i64` computation, is a value of `i64`: the computation does not overflow.
pub open spec fn civil_fits(y: int, m: int, d: int) -> bool {
    let y1 = if m <= 2 { y - 1 } else { y };
    let n = if y1 >= 0 { y1 } else { y1 - 399 };
    let era = trunc_div(n, 400);
    let yoe = y1 - era * 400;
    let mp = trunc_rem(m + 9, 12);
    let q = trunc_div(153 * mp + 2, 5);
    let doy = q + d - 1;
    let doe = yoe * 365 + yoe / 4 - yoe / 100 + doy;
    &&& fits_i64(y1)
    &&& fits_i64(n)
    &&& fits_i64(m + 9)
    &&& fits_i64(q + d)
    &&& fits_i64(doy)
    &&& fits_i64(doe)
    &&& fits_i64(era * 146097)
    &&& fits_i64(era * 146097 + doe)
    &&& fits_i64(era * 146097 + doe - 719468)
}

fn div_toward_zero(a: i64, b: i64) -> (q: i64)
    requires
        a > i64::MIN,
        b > 0,
    ensures
        q == trunc_div(a as int, b as int),
{
    if a >= 0 {
        a / b
    } else {
        -((-a) / b)
    }
}

proof fn lemma_era_bounds(y1: int)
    ensures
        ({
            let era = trunc_div(if y1 >= 0 { y1 } else { y1 - 399 }, 400);
            let yoe = y1 - era * 400;
            &&& 0 <= yoe < 400
            &&& (y1 >= 0 ==> 0 <= era * 400 <= y1)
            &&& (y1 < 0 ==> y1 - 399 <= era * 400 <= 0)
        }),
{
}

/// Days from 1970-01-01 to `y-m-d`.
pub fn days_from_civil(y: i64, m: i64, d: i64) -> (days: i64)
    requires
        civil_fits(y as int, m as int, d as int),
    ensures
        days == spec_days_from_civil(y as int, m as int, d as int),
{
    proof {
        let y1: int = if m <= 2 { y - 1 } else { y as int };
        lemma_era_bounds(y1);
    }
    let y = if m <= 2 { y - 1 } else { y };
    let era = div_toward_zero(if y >= 0 { y } else { y - 399 }, 400);
    let yoe = y - era * 400;
    let mp = (m + 9) - 12 * div_toward_zero(m + 9, 12);
    let doy = div_toward_zero(153 * mp + 2, 5) + d - 1;
    let doe = yoe * 365 + yoe / 4 - yoe / 100 + doy;
    era * 146097 + doe - 719468
}

/// Tells whether `days_from_civil(y, m, d)` can be computed without overflow.
pub fn civil_fits_check(y: i64, m: i64, d: i64) -> (ok: bool)
    ensures
        ok == civil_fits(y as int, m as int, d as int),
{
    let y: i128 = y as i128;
    let m: i128 = m as i128;
    let d: i128 = d as i128;
    let lo: i128 = -9223372036854775808i128;
    let hi: i128 = 9223372036854775807i128;
    let y1: i128 = if m <= 2 { y - 1 } else { y };
    let n: i128 = if y1 >= 0 { y1 } else { y1 - 399 };
    let era: i128 = if n >= 0 { n / 400 } else { -((-n) / 400) };
    let yoe: i128 = y1 - era * 400;
    let m9: i128 = m + 9;
    let mq: i128 = if m9 >= 0 { m9 / 12 } else { -((-m9) / 12) };
    let mp: i128 = m9 - 12 * mq;
    let qn: i128 = 153 * mp + 2;
    let q: i128 = if qn >= 0 { qn / 5 } else { -((-qn) / 5) };
    let doy: i128 = q + d - 1;
    let doe: i128 = yoe * 365 + yoe / 4 - yoe / 100 + doy;
    let e: i128 = era * 146097;
    lo <= y1 && y1 <= hi && lo <= n && n <= hi && lo <= m9 && m9 <= hi && lo <= q + d && q + d
        <= hi && lo <= doy && doy <= hi && lo <= doe && doe <= hi && lo <= e && e <= hi && lo
        <= e + doe && e + doe <= hi && lo <= e + doe - 719468 && e + doe - 719468 <= hi
}

// ----------------------------------------------------------------------------
// RFC 3339 timestamps
// ----------------------------------------------------------------------------

/// The date and time fields of a timestamp, as written.
#[derive(Debug, Clone, Copy, PartialEq, Eq)]
pub struct Rfc3339Fields {
    pub year: i64,
    pub month: i64,
    pub day: i64,
    pub hour: i64,
    pub minute: i64,
    pub second: i64,
}

/// `s` without its trailing run of `c` (`str::trim_end_matches`).
pub open spec fn strip_trailing(s: Seq<char>, c: char) -> Seq<char>
    decreases s.len(),
{
    if s.len() > 0 && s.last() == c {
        strip_trailing(s.drop_last(), c)
    } else {
        s
    }
}

/// The three pieces of `s.splitn(3, sep)`: up to the first `sep`, up to the
/// second, and the rest; `None` when `s` holds fewer than two `sep`.
pub open spec fn split3(s: Seq<char>, sep: char) -> Option<(Seq<char>, Seq<char>, Seq<char>)> {
    match s.index_of_first(sep) {
        None => None,
        Some(i) => {
            let rest = s.subrange(i + 1, s.len() as int);
            match rest.index_of_first(sep) {
                None => None,
                Some(j) => Some(
                    (s.subrange(0, i), rest.subrange(0, j), rest.subrange(j + 1, rest.len() as int)),
                ),
            }
        },
    }
}

/// The fields of `YYYY-MM-DDTHH:MM:SS[.fraction][Z]`: trailing `Z`s are dropped,
/// the date is what precedes the first `T`, the clock what follows it up to the
/// first `.`; each field is an `i64` in decimal.
pub open spec fn spec_rfc3339_fields(s: Seq<char>) -> Option<Rfc3339Fields> {
    let s = strip_trailing(s, 'Z');
    match s.index_of_first('T') {
        None => None,
        Some(t) => {
            let date = s.subrange(0, t);
            let time = s.subrange(t + 1, s.len() as int);
            let clock = match time.index_of_first('.') {
                Some(p) => time.subrange(0, p),
                None => time,
            };
            match (split3(date, '-'), split3(clock, ':')) {
                (Some((ys, ms, ds)), Some((hs, mis, ss))) => {
                    let (y, m, d) = (spec_parse_i64(ys), spec_parse_i64(ms), spec_parse_i64(ds));
                    let (h, mi, sec) = (spec_parse_i64(hs), spec_parse_i64(mis), spec_parse_i64(ss));
                    if y is Some && m is Some && d is Some && h is Some && mi is Some && sec is Some {
                        Some(
                            Rfc3339Fields {
                                year: y->0 as i64,
                                month: m->0 as i64,
                                day: d->0 as i64,
                                hour: h->0 as i64,
                                minute: mi->0 as i64,
                                second: sec->0 as i64,
                            },
                        )
                    } else {
                        None
                    }
                },
                _ => None,
            }
        },
    }
}

/// Unix seconds of the fields: days since the epoch times 86400, plus the clock.
pub open spec fn spec_unix_seconds(f: Rfc3339Fields) -> int {
    spec_days_from_civil(f.year as int, f.month as int, f.day as int) * 86400 + f.hour * 3600
        + f.minute * 60 + f.second
}

/// The `i64` computation of `spec_unix_seconds` does not overflow.
pub open spec fn unix_fits(f: Rfc3339Fields) -> bool {
    let days = spec_days_from_civil(f.year as int, f.month as int, f.day as int);
    &&& civil_fits(f.year as int, f.month as int, f.day as int)
    &&& fits_i64(days * 86400)
    &&& fits_i64(f.hour * 3600)
    &&& fits_i64(days * 86400 + f.hour * 3600)
    &&& fits_i64(f.minute * 60)
    &&& fits_i64(days * 86400 + f.hour * 3600 + f.minute * 60)
    &&& fits_i64(days * 86400 + f.hour * 3600 + f.minute * 60 + f.second)
}

/// Unix seconds of an RFC 3339 UTC timestamp; `None` when the text does not
/// have that form, or when the seconds do not fit in an `i64`.
pub open spec fn spec_parse_rfc3339_to_unix(s: Seq<char>) -> Option<int> {
    match spec_rfc3339_fields(s) {
        Some(f) => if unix_fits(f) {
            Some(spec_unix_seconds(f))
        } else {
            None
        },
        None => None,
    }
}

fn strip_trailing_len(v: &Vec<char>, c: char) -> (k: usize)
    ensures
        k <= v@.len(),
        v@.subrange(0, k as int) == strip_trailing(v@, c),
{
    let mut k = v.len();
    assert(v@.subrange(0, k as int) =~= v@);
    while k > 0 && v[k - 1] == c
        invariant
            k <= v@.len(),
            strip_trailing(v@.subrange(0, k as int), c) == strip_trailing(v@, c),
        decreases k,
    {
        assert(v@.subrange(0, k as int).drop_last() =~= v@.subrange(0, k - 1));
        k = k - 1;
    }
    k
}

/// The three pieces of `v.splitn(3, sep)`, as index ranges into `v`.
fn split3_at(v: &Vec<char>, sep: char) -> (r: Option<(usize, usize)>)
    ensures
        match r {
            Some((i, j)) => {
                &&& i < j < v@.len()
                &&& split3(v@, sep) == Some(
                    (
                        v@.subrange(0, i as int),
                        v@.subrange(i + 1, j as int),
                        v@.subrange(j + 1, v@.len() as int),
                    ),
                )
            },
            None => split3(v@, sep) is None,
        },
{
    match find_first(v, sep) {
        None => None,
        Some(i) => {
            let rest = sub_chars(v, i + 1, v.len());
            match find_first(&rest, sep) {
                None => None,
                Some(j) => {
                    assert(rest@.subrange(0, j as int) =~= v@.subrange(i + 1, i + 1 + j));
                    assert(rest@.subrange(j + 1, rest@.len() as int) =~= v@.subrange(
                        i + 1 + j + 1,
                        v@.len() as int,
                    ));
                    Some((i, i + 1 + j))
                },
            }
        },
    }
}

/// Parses the fields of an RFC 3339 timestamp.
pub fn parse_rfc3339_fields(s: &str) -> (r: Option<Rfc3339Fields>)
    ensures
        r == spec_rfc3339_fields(s@),
{
    let all = to_chars(s);
    let k = strip_trailing_len(&all, 'Z');
    let v = sub_chars(&all, 0, k);
    let t = match find_first(&v, 'T') {
        None => return None,
        Some(t) => t,
    };
    let date = sub_chars(&v, 0, t);
    let time = sub_chars(&v, t + 1, v.len());
    let clock = match find_first(&time, '.') {
        Some(p) => sub_chars(&time, 0, p),
        None => sub_chars(&time, 0, time.len()),
    };
    assert(time@.subrange(0, time@.len() as int) =~= time@);
    let (di, dj) = match split3_at(&date, '-') {
        None => return None,
        Some(p) => p,
    };
    let (ci, cj) = match split3_at(&clock, ':') {
        None => return None,
        Some(p) => p,
    };
    let year = parse_i64(&date, 0, di);
    let month = parse_i64(&date, di + 1, dj);
    let day = parse_i64(&date, dj + 1, date.len());
    let hour = parse_i64(&clock, 0, ci);
    let minute = parse_i64(&clock, ci + 1, cj);
    let second = parse_i64(&clock, cj + 1, clock.len());
    match (year, month, day, hour, minute, second) {
        (Some(year), Some(month), Some(day), Some(hour), Some(minute), Some(second)) => Some(
            Rfc3339Fields { year, month, day, hour, minute, second },
        ),
        _ => None,
    }
}

/// Unix seconds of the fields, computed as the `i64` arithmetic would.
pub fn unix_seconds(f: &Rfc3339Fields) -> (r: i64)
    requires
        unix_fits(*f),
    ensures
        r == spec_unix_seconds(*f),
{
    days_from_civil(f.year, f.month, f.day) * 86400 + f.hour * 3600 + f.minute * 60 + f.second
}

fn unix_fits_check(f: &Rfc3339Fields) -> (ok: bool)
    ensures
        ok == unix_fits(*f),
{
    if !civil_fits_check(f.year, f.month, f.day) {
        return false;
    }
    let days: i128 = days_from_civil(f.year, f.month, f.day) as i128;
    let lo: i128 = -9223372036854775808i128;
    let hi: i128 = 9223372036854775807i128;
    let a: i128 = days * 86400;
    let b: i128 = (f.hour as i128) * 3600;
    let c: i128 = (f.minute as i128) * 60;
    let s: i128 = f.second as i128;
    lo <= a && a <= hi && lo <= b && b <= hi && lo <= a + b && a + b <= hi && lo <= c && c <= hi
        && lo <= a + b + c && a + b + c <= hi && lo <= a + b + c + s && a + b + c + s <= hi
}

/// Unix seconds of a Docker RFC 3339 UTC timestamp
/// (`2024-05-01T12:34:56.123456789Z`). `None` when the text is not of that
/// form, and where the `i64` arithmetic of the conversion would overflow.
pub fn parse_rfc3339_to_unix(s: &str) -> (r: Option<i64>)
    ensures
        match r {
            Some(v) => spec_parse_rfc3339_to_unix(s@) == Some(v as int),
            None => spec_parse_rfc3339_to_unix(s@) is None,
        },
{
    match parse_rfc3339_fields(s) {
        None => None,
        Some(f) => {
            if unix_fits_check(&f) {
                Some(unix_seconds(&f))
            } else {
                None
            }
        },
    }
}

// ----------------------------------------------------------------------------
// The calendar that `days_from_civil` counts
// ----------------------------------------------------------------------------

/// A leap year of the proleptic Gregorian calendar.
pub open spec fn is_leap_year(y: int) -> bool {
    y % 4 == 0 && (y % 100 != 0 || y % 400 == 0)
}

/// Number of days of month `m` (1 to 12) of year `y`.
pub open spec fn days_in_month(y: int, m: int) -> int {
    if m == 2 {
        if is_leap_year(y) {
            29
        } else {
            28
        }
    } else if m == 4 || m == 6 || m == 9 || m == 11 {
        30
    } else {
        31
    }
}

/// The calendar day after `y-m-d`.
pub open spec fn next_day(y: int, m: int, d: int) -> (int, int, int) {
    if d < days_in_month(y, m) {
        (y, m, d + 1)
    } else if m < 12 {
        (y, m + 1, 1)
    } else {
        (y + 1, 1, 1)
    }
}

proof fn lemma_era_is_floor(y: int)
    ensures
        trunc_div(if y >= 0 { y } else { y - 399 }, 400) == y / 400,
        y - trunc_div(if y >= 0 { y } else { y - 399 }, 400) * 400 == y % 400,
{
    if y < 0 {
        let q = (399 - y) / 400;
        let r = (399 - y) % 400;
        assert(399 - y == q * 400 + r && 0 <= r < 400);
        assert(y == (-q) * 400 + (399 - r));
        assert(y / 400 == -q) by {
            assert(0 <= 399 - r < 400);
        }
    }
}

/// Days from the epoch to the first of March of the computational year `y`
/// (which runs from March of `y` to February of `y + 1`), up to a constant.
spec fn march_days(y: int) -> int {
    let t = y % 400;
    (y / 400) * 146097 + t * 365 + t / 4 - t / 100
}

proof fn lemma_days_from_civil_by_year(y: int, m: int, d: int)
    requires
        1 <= m <= 12,
    ensures
        spec_days_from_civil(y, m, d) == march_days(if m <= 2 { y - 1 } else { y })
            + trunc_div(153 * trunc_rem(m + 9, 12) + 2, 5) + d - 1 - 719468,
{
    let y1 = if m <= 2 { y - 1 } else { y };
    lemma_era_is_floor(y1);
}

#[verifier::rlimit(40)]
proof fn lemma_march_days_step(y: int)
    ensures
        march_days(y) - march_days(y - 1) == if is_leap_year(y) { 366int } else { 365int },
{
    let t = y % 400;
    assert(y == (y / 400) * 400 + t);
    if t == 0 {
        assert((y - 1) / 400 == y / 400 - 1);
        assert((y - 1) % 400 == 399);
        assert(y % 4 == 0 && y % 400 == 0);
    } else {
        assert((y - 1) / 400 == y / 400);
        assert((y - 1) % 400 == t - 1);
        assert(y % 4 == t % 4);
        assert(y % 100 == t % 100);
        assert(y % 400 != 0);
    }
}

/// Consecutive calendar days are consecutive day numbers: the day after
/// `y-m-d` is numbered one more than `y-m-d`, across month and year ends and
/// leap days alike; and 1970-01-01 is day zero, so that a day's number counts
/// the days since the Unix epoch.
pub proof fn lemma_next_day_is_next_number(y: int, m: int, d: int)
    requires
        1 <= m <= 12,
        1 <= d <= days_in_month(y, m),
    ensures
        ({
            let (y2, m2, d2) = next_day(y, m, d);
            spec_days_from_civil(y2, m2, d2) == spec_days_from_civil(y, m, d) + 1
        }),
        spec_days_from_civil(1970, 1, 1) == 0,
{
    let (y2, m2, d2) = next_day(y, m, d);
    lemma_days_from_civil_by_year(y, m, d);
    lemma_days_from_civil_by_year(y2, m2, d2);
    if m == 2 && d == days_in_month(y, m) {
        lemma_march_days_step(y);
    }
}

// ----------------------------------------------------------------------------
// Decimal text read back
// ----------------------------------------------------------------------------

/// Each decimal digit reads back as its value.
pub proof fn lemma_digit_char_reads_back(d: nat)
    requires
        d < 10,
    ensures
        is_digit(digit_char(d)),
        (digit_char(d) as nat) - ('0' as nat) == d,
{
}

/// The decimal text of a number is made of digits and reads back as the
/// number: `decimal` writes every digit correctly, in order.
pub proof fn lemma_decimal_reads_back(n: nat)
    ensures
        decimal(n).len() > 0,
        all_digits(decimal(n)),
        digits_value(decimal(n)) == n,
    decreases n,
{
    if n < 10 {
        lemma_digit_char_reads_back(n);
        assert(decimal(n).drop_last() =~= Seq::<char>::empty());
        assert(decimal(n).last() == digit_char(n));
        assert(digits_value(Seq::<char>::empty()) == 0);
        assert(digits_value(decimal(n)) == digits_value(decimal(n).drop_last()) * 10 + ((
        decimal(n).last() as nat) - ('0' as nat)) as nat);
    } else {
        lemma_decimal_reads_back(n / 10);
        lemma_digit_char_reads_back(n % 10);
        let t = decimal(n / 10);
        assert(decimal(n).drop_last() =~= t);
        assert(decimal(n).last() == digit_char(n % 10));
        assert(digits_value(decimal(n)) == digits_value(t) * 10 + ((digit_char(n % 10) as nat) - (
        '0' as nat)) as nat);
        assert((n / 10) * 10 + n % 10 == n);
        assert forall|i: int| 0 <= i < decimal(n).len() implies is_digit(#[trigger] decimal(n)[i]) by {
            if i < t.len() {
                assert(decimal(n)[i] == t[i]);
            }
        }
    }
}

/// `10^k`.
pub open spec fn pow10(k: nat) -> nat
    decreases k,
{
    if k == 0 {
        1
    } else {
        10 * pow10((k - 1) as nat)
    }
}

proof fn lemma_digits_value_bound(s: Seq<char>)
    requires
        all_digits(s),
    ensures
        digits_value(s) < pow10(s.len()),
    decreases s.len(),
{
    if s.len() > 0 {
        let t = s.drop_last();
        assert(all_digits(t)) by {
            assert forall|i: int| 0 <= i < t.len() implies is_digit(#[trigger] t[i]) by {
                assert(t[i] == s[i]);
            }
        }
        lemma_digits_value_bound(t);
        assert(is_digit(s[s.len() - 1]));
    }
}

proof fn lemma_pow10_18()
    ensures
        pow10(18) == 1000000000000000000,
{
    reveal_with_fuel(pow10, 19);
}

proof fn lemma_pow10_mono(a: nat, b: nat)
    requires
        a <= b,
    ensures
        pow10(a) <= pow10(b),
    decreases b,
{
    if a < b {
        lemma_pow10_mono(a, (b - 1) as nat);
    }
}

/// A string of one to eighteen digits (leading zeros allowed, as in `05`)
/// parses as the number it writes; with a `-` in front, as its opposite; with
/// a `+` in front, as itself.
pub proof fn lemma_parse_digits(s: Seq<char>)
    requires
        0 < s.len() <= 18,
        all_digits(s),
    ensures
        spec_parse_i64(s) == Some(digits_value(s) as int),
        spec_parse_i64(seq!['-'] + s) == Some(-digits_value(s)),
        spec_parse_i64(seq!['+'] + s) == Some(digits_value(s) as int),
{
    lemma_digits_value_bound(s);
    lemma_pow10_mono(s.len(), 18);
    lemma_pow10_18();
    assert(is_digit(s[0]));
    assert((seq!['-'] + s).drop_first() =~= s);
    assert((seq!['+'] + s).drop_first() =~= s);
}

/// A number written in decimal parses back as itself, and with a `-` in
/// front, as its opposite.
pub proof fn lemma_parse_decimal(n: nat)
    requires
        n < 1000000000000000000,
    ensures
        spec_parse_i64(decimal(n)) == Some(n as int),
        spec_parse_i64(seq!['-'] + decimal(n)) == Some(-n),
{
    lemma_decimal_reads_back(n);
    lemma_decimal_short(n, 18);
    lemma_parse_digits(decimal(n));
}

proof fn lemma_decimal_short(n: nat, k: nat)
    requires
        n < pow10(k) || (k == 18 && n < 1000000000000000000),
    ensures
        decimal(n).len() <= if k == 0 { 1 } else { k },
    decreases n,
{
    if k == 18 {
        lemma_pow10_18();
    }
    if n >= 10 {
        assert(k >= 2) by {
            if k < 2 {
                reveal_with_fuel(pow10, 3);
            }
        }
        let k1 = (k - 1) as nat;
        assert(n / 10 < pow10(k1)) by {
            assert(pow10(k) == 10 * pow10(k1));
        }
        lemma_decimal_short(n / 10, k1);
    }
}

// ----------------------------------------------------------------------------
// Timestamps written with decimal fields
// ----------------------------------------------------------------------------

/// Three pieces joined by `sep`.
spec fn join3(a: Seq<char>, sep: char, b: Seq<char>, c: Seq<char>) -> Seq<char> {
    a + seq![sep] + b + seq![sep] + c
}

proof fn lemma_join3_lacks(a: Seq<char>, sep: char, b: Seq<char>, c: Seq<char>, x: char)
    requires
        all_digits(a),
        all_digits(b),
        all_digits(c),
        !is_digit(x),
        sep != x,
    ensures
        forall|j: int| 0 <= j < join3(a, sep, b, c).len() ==> #[trigger] join3(a, sep, b, c)[j] != x,
{
    let s = join3(a, sep, b, c);
    assert forall|j: int| 0 <= j < s.len() implies #[trigger] s[j] != x by {
        if j < a.len() {
            assert(s[j] == a[j]);
        } else if j == a.len() {
        } else if j < a.len() + 1 + b.len() {
            assert(s[j] == b[j - a.len() - 1]);
        } else if j == a.len() + 1 + b.len() {
        } else {
            assert(s[j] == c[j - a.len() - 2 - b.len()]);
        }
    }
}

proof fn lemma_split3_join3(a: Seq<char>, sep: char, b: Seq<char>, c: Seq<char>)
    requires
        all_digits(a),
        all_digits(b),
        !is_digit(sep),
    ensures
        split3(join3(a, sep, b, c), sep) == Some((a, b, c)),
{
    let s = join3(a, sep, b, c);
    let i = a.len() as int;
    assert forall|j: int| 0 <= j < i implies s[j] != sep by {
        assert(s[j] == a[j]);
    }
    assert(s[i] == sep);
    lemma_first_at(s, sep, i);
    let rest = s.subrange(i + 1, s.len() as int);
    assert(rest =~= b + seq![sep] + c);
    let k = b.len() as int;
    assert forall|j: int| 0 <= j < k implies rest[j] != sep by {
        assert(rest[j] == b[j]);
    }
    assert(rest[k] == sep);
    lemma_first_at(rest, sep, k);
    assert(s.subrange(0, i) =~= a);
    assert(rest.subrange(0, k) =~= b);
    assert(rest.subrange(k + 1, rest.len() as int) =~= c);
}

/// A timestamp written `Y-M-DTH:MI:SZ`, each field a run of one to eighteen
/// decimal digits, has as its fields exactly the numbers written: the year is
/// the number that `ys` writes, the hour the number that `hs` writes, and so
/// on for every field.
pub proof fn lemma_rfc3339_fields_are_written_numbers(
    ys: Seq<char>,
    ms: Seq<char>,
    ds: Seq<char>,
    hs: Seq<char>,
    mis: Seq<char>,
    ss: Seq<char>,
)
    requires
        0 < ys.len() <= 18 && all_digits(ys),
        0 < ms.len() <= 18 && all_digits(ms),
        0 < ds.len() <= 18 && all_digits(ds),
        0 < hs.len() <= 18 && all_digits(hs),
        0 < mis.len() <= 18 && all_digits(mis),
        0 < ss.len() <= 18 && all_digits(ss),
    ensures
        spec_rfc3339_fields(
            ys + seq!['-'] + ms + seq!['-'] + ds + seq!['T'] + hs + seq![':'] + mis + seq![':'] + ss
                + seq!['Z'],
        ) is Some,
        ({
            let f = spec_rfc3339_fields(
                ys + seq!['-'] + ms + seq!['-'] + ds + seq!['T'] + hs + seq![':'] + mis + seq![':']
                    + ss + seq!['Z'],
            )->0;
            &&& f.year as int == digits_value(ys)
            &&& f.month as int == digits_value(ms)
            &&& f.day as int == digits_value(ds)
            &&& f.hour as int == digits_value(hs)
            &&& f.minute as int == digits_value(mis)
            &&& f.second as int == digits_value(ss)
        }),
{
    let s = ys + seq!['-'] + ms + seq!['-'] + ds + seq!['T'] + hs + seq![':'] + mis + seq![':'] + ss
        + seq!['Z'];
    let date = join3(ys, '-', ms, ds);
    let clock = join3(hs, ':', mis, ss);
    let body = date + seq!['T'] + clock;
    assert(s =~= body.push('Z'));
    assert(s.drop_last() =~= body);
    assert(body.last() == ss.last());
    assert(is_digit(ss[ss.len() - 1]));
    assert(strip_trailing(body, 'Z') == body);
    assert(strip_trailing(s, 'Z') == body);
    lemma_join3_lacks(ys, '-', ms, ds, 'T');
    assert forall|j: int| 0 <= j < date.len() implies body[j] != 'T' by {
        assert(body[j] == date[j]);
    }
    lemma_first_at(body, 'T', date.len() as int);
    let t = date.len() as int;
    assert(body.subrange(0, t) =~= date);
    assert(body.subrange(t + 1, body.len() as int) =~= clock);
    lemma_join3_lacks(hs, ':', mis, ss, '.');
    lemma_first_none(clock, '.');
    lemma_split3_join3(ys, '-', ms, ds);
    lemma_split3_join3(hs, ':', mis, ss);
    lemma_parse_digits(ys);
    lemma_parse_digits(ms);
    lemma_parse_digits(ds);
    lemma_parse_digits(hs);
    lemma_parse_digits(mis);
    lemma_parse_digits(ss);
}

} // verus!
