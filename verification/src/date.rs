//! Calendar arithmetic: UTC epoch milliseconds of a date and time.
use vstd::prelude::*;
use crate::text::str_trim;

verus! {

/// Days from 0001-01-01 to 1970-01-01 in the proleptic Gregorian calendar.
pub open spec fn days_to_1970() -> int {
    365 * 1969int + 1969int / 4 - 1969int / 100 + 1969int / 400
}

/// Days from 1970-01-01 to January 1st of year `y` (negative before 1970).
pub open spec fn days_before_year(y: int) -> int {
    let p = y - 1;
    365 * p + p / 4 - p / 100 + p / 400 - days_to_1970()
}

/// Gregorian leap year.
pub open spec fn is_leap_year(y: int) -> bool {
    (y % 4 == 0 && y % 100 != 0) || y % 400 == 0
}

/// The length of month `m` (0 = January) of a year.
pub open spec fn month_length(m: int, leap: bool) -> int {
    if m == 1 {
        if leap { 29 } else { 28 }
    } else if m == 3 || m == 5 || m == 8 || m == 10 {
        30
    } else {
        31
    }
}

/// Days in the months before month `m` (0 = January) of a year.
pub open spec fn days_before_month(m: int, leap: bool) -> int
    decreases m,
{
    if m <= 0 {
        0
    } else {
        days_before_month(m - 1, leap) + month_length(m - 1, leap)
    }
}

/// The calendar year once month overflow is carried into it.
pub open spec fn norm_year(year: int, month: int) -> int {
    (year * 12 + month) / 12
}

/// The month (0 to 11) once overflow is carried into the year.
pub open spec fn norm_month(year: int, month: int) -> int {
    (year * 12 + month) % 12
}

/// Days from the epoch to the given day (month 0-based, day 1-based; a day
/// beyond the month runs on into the next).
pub open spec fn epoch_day(year: int, month: int, day: int) -> int {
    let y = norm_year(year, month);
    let m = norm_month(year, month);
    days_before_year(y) + days_before_month(m, is_leap_year(y)) + day - 1
}

/// UTC epoch milliseconds of a (year, month 0-based, day 1-based, hours,
/// minutes, seconds, milliseconds) tuple.
pub open spec fn epoch_ms(year: int, month: int, day: int, h: int, mi: int, s: int, ms: int) -> int {
    (epoch_day(year, month, day) * 86400 + h * 3600 + mi * 60 + s) * 1000 + ms
}

/// `v` fits in an `i64`.
pub open spec fn fits_i64(v: int) -> bool {
    i64::MIN <= v <= i64::MAX
}

/// Every intermediate value of the computation of `epoch_ms` fits in an
/// `i64`.
pub open spec fn epoch_ms_fits(year: int, month: int, day: int, h: int, mi: int, s: int, ms: int) -> bool {
    let y = norm_year(year, month);
    let p = y - 1;
    let d_year = 365 * p + p / 4 - p / 100 + p / 400;
    let d_in_year = days_before_month(norm_month(year, month), is_leap_year(y)) + day - 1;
    let days = epoch_day(year, month, day);
    let secs = days * 86400 + h * 3600 + mi * 60 + s;
    &&& fits_i64(year * 12) && fits_i64(year * 12 + month)
    &&& fits_i64(365 * p) && fits_i64(365 * p + p / 4) && fits_i64(365 * p + p / 4 - p / 100)
    &&& fits_i64(d_year) && fits_i64(d_year - days_to_1970())
    &&& fits_i64(days_before_month(norm_month(year, month), is_leap_year(y)) + day)
    &&& fits_i64(d_in_year) && fits_i64(days)
    &&& fits_i64(days * 86400) && fits_i64(h * 3600) && fits_i64(mi * 60)
    &&& fits_i64(days * 86400 + h * 3600) && fits_i64(days * 86400 + h * 3600 + mi * 60)
    &&& fits_i64(secs) && fits_i64(secs * 1000) && fits_i64(secs * 1000 + ms)
}

/// `a.div_euclid(b)` for a positive divisor: the quotient rounded down.
fn div_euclid(a: i64, b: i64) -> (q: i64)
    requires
        b > 0,
    ensures
        q == a as int / b as int,
{
    if a >= 0 {
        a / b
    } else {
        let c = -(a + 1);
        let t = c / b;
        assert(-t - 1 == a as int / b as int) by (nonlinear_arith)
            requires
                a < 0,
                b > 0,
                c == -(a + 1),
                t == c as int / b as int,
        ;
        -t - 1
    }
}

proof fn lemma_days_before_month_bounds(m: int, leap: bool)
    requires
        0 <= m <= 12,
    ensures
        0 <= days_before_month(m, leap) <= 366,
        m < 12 ==> days_before_month(m + 1, leap) == days_before_month(m, leap) + month_length(m, leap),
    decreases m,
{
    reveal_with_fuel(days_before_month, 13);
}

#[verifier::rlimit(60)]
/// Compute UTC epoch milliseconds for a (year, month 0-based, day 1-based,
/// hours, minutes, seconds, milliseconds) tuple with the Gregorian calendar.
/// Month overflow carries into the year.
pub fn utc_components_to_epoch_ms(year: i64, month: i64, day: i64, h: i64, mi: i64, s: i64, ms: i64) -> (r: i64)
    requires
        epoch_ms_fits(year as int, month as int, day as int, h as int, mi as int, s as int, ms as int),
    ensures
        r == epoch_ms(year as int, month as int, day as int, h as int, mi as int, s as int, ms as int),
{
    let total_months = year * 12 + month;
    let y = div_euclid(total_months, 12);
    let m = total_months - y * 12;
    assert(y == norm_year(year as int, month as int) && m == norm_month(year as int, month as int)) by {
        assert(total_months == year * 12 + month);
    }
    let y_prev = y - 1;
    let days_to_y = 365 * y_prev + div_euclid(y_prev, 4) - div_euclid(y_prev, 100) + div_euclid(y_prev, 400);
    let days_to_1970: i64 = 365 * 1969 + 1969 / 4 - 1969 / 100 + 1969 / 400;
    let year_start = days_to_y - days_to_1970;
    let is_leap = (y % 4 == 0 && y % 100 != 0) || y % 400 == 0;
    assert(is_leap == is_leap_year(y as int));
    let month_days: [i64; 12] = [31, if is_leap { 29 } else { 28 }, 31, 30, 31, 30, 31, 31, 30, 31, 30, 31];
    let mut days_in_year: i64 = 0;
    let mut i: usize = 0;
    while i < m as usize
        invariant
            0 <= i <= m <= 11,
            days_in_year == days_before_month(i as int, is_leap),
            month_days@ =~= seq![31, if is_leap { 29i64 } else { 28i64 }, 31, 30, 31, 30, 31, 31, 30, 31, 30, 31],
        decreases m - i,
    {
        proof {
            lemma_days_before_month_bounds(i as int, is_leap);
        }
        days_in_year = days_in_year + month_days[i];
        i = i + 1;
    }
    proof {
        lemma_days_before_month_bounds(m as int, is_leap);
    }
    days_in_year = days_in_year + day - 1;
    let total_days = year_start + days_in_year;
    let total_secs = total_days * 86400 + h * 3600 + mi * 60 + s;
    total_secs * 1000 + ms
}

// -------------------------------------------------------------- ISO 8601

/// An ASCII decimal digit.
pub open spec fn is_digit(b: u8) -> bool {
    48 <= b <= 57
}

/// Every byte is an ASCII decimal digit.
pub open spec fn all_digits(s: Seq<u8>) -> bool {
    forall|i: int| 0 <= i < s.len() ==> is_digit(#[trigger] s[i])
}

/// The value of a string of decimal digits.
pub open spec fn digits_value(s: Seq<u8>) -> int
    decreases s.len(),
{
    if s.len() == 0 {
        0
    } else {
        digits_value(s.drop_last()) * 10 + (s.last() - 48)
    }
}

/// What `str::parse::<i64>` gives for a short text: an optional `+` or `-`
/// followed by at least one decimal digit, and nothing else.
pub open spec fn parse_int(s: Seq<u8>) -> Option<int> {
    if s.len() >= 2 && (s[0] == 43u8 || s[0] == 45u8) && all_digits(s.skip(1)) {
        if s[0] == 45u8 {
            Some(-digits_value(s.skip(1)))
        } else {
            Some(digits_value(s.skip(1)))
        }
    } else if s.len() >= 1 && all_digits(s) {
        Some(digits_value(s))
    } else {
        None
    }
}

/// The number of decimal digits at the start of `s`.
pub open spec fn leading_digits(s: Seq<u8>) -> nat
    decreases s.len(),
{
    if s.len() > 0 && is_digit(s[0]) {
        1 + leading_digits(s.skip(1))
    } else {
        0
    }
}

/// Milliseconds of a fraction of a second: its first three digits, missing
/// ones counting as zero.
pub open spec fn fraction_millis(frac: Seq<u8>) -> int {
    let d0: int = if frac.len() > 0 { frac[0] - 48 } else { 0 };
    let d1: int = if frac.len() > 1 { frac[1] - 48 } else { 0 };
    let d2: int = if frac.len() > 2 { frac[2] - 48 } else { 0 };
    d0 * 100 + d1 * 10 + d2
}

/// The zone designator at index `p` of the time part: `Z`, or `+HH:MM` /
/// `-HH:MM` giving an offset in minutes; a sign not followed by `HH:MM`
/// is ignored. `None` for any other character.
pub open spec fn iso_zone(rest: Seq<u8>, p: int) -> Option<int> {
    if p >= rest.len() || rest[p] == 90u8 {
        Some(0)
    } else if rest[p] == 43u8 || rest[p] == 45u8 {
        if p + 5 < rest.len() && rest[p + 3] == 58u8 {
            match (parse_int(rest.subrange(p + 1, p + 3)), parse_int(rest.subrange(p + 4, p + 6))) {
                (Some(oh), Some(om)) => Some(if rest[p] == 43u8 { oh * 60 + om } else { -(oh * 60 + om) }),
                _ => None,
            }
        } else {
            Some(0)
        }
    } else {
        None
    }
}

/// The time part after the date: (hours, minutes, seconds, milliseconds,
/// zone offset in minutes). Empty or shorter than `THH:MM:SS`, it is
/// midnight UTC; it must start with `T` or a space.
pub open spec fn iso_time(rest: Seq<u8>) -> Option<(int, int, int, int, int)> {
    if rest.len() == 0 {
        Some((0, 0, 0, 0, 0))
    } else if rest[0] != 84u8 && rest[0] != 32u8 {
        None
    } else if rest.len() < 9 {
        Some((0, 0, 0, 0, 0))
    } else {
        match (parse_int(rest.subrange(1, 3)), parse_int(rest.subrange(4, 6)), parse_int(rest.subrange(7, 9))) {
            (Some(h), Some(mi), Some(sc)) => {
                if rest[3] == 58u8 && rest[6] == 58u8 {
                    let has_frac = 9 < rest.len() && rest[9] == 46u8;
                    let end: int = if has_frac { 10 + leading_digits(rest.skip(10)) as int } else { 9 };
                    let ms = if has_frac { fraction_millis(rest.subrange(10, end)) } else { 0 };
                    match iso_zone(rest, end) {
                        Some(tz) => Some((h, mi, sc, ms, tz)),
                        None => None,
                    }
                } else {
                    None
                }
            },
            _ => None,
        }
    }
}

/// UTC epoch milliseconds of an ISO 8601 text (already trimmed), given as
/// bytes: `YYYY-MM-DD`, optionally followed by `THH:MM:SS`, fractional
/// seconds, and `Z` or an offset `±HH:MM`.
pub open spec fn iso_epoch_ms(b: Seq<u8>) -> Option<int> {
    if b.len() < 10 {
        None
    } else {
        match (parse_int(b.subrange(0, 4)), parse_int(b.subrange(5, 7)), parse_int(b.subrange(8, 10))) {
            (Some(year), Some(month), Some(day)) => {
                if b[4] == 45u8 && b[7] == 45u8 && 1 <= month <= 12 && 1 <= day <= 31 {
                    match iso_time(b.subrange(10, b.len() as int)) {
                        Some((h, mi, sc, ms, tz)) => Some(epoch_ms(year, month - 1, day, h, mi, sc, ms) - tz * 60000),
                        None => None,
                    }
                } else {
                    None
                }
            },
            _ => None,
        }
    }
}

proof fn lemma_digits_value_bound(s: Seq<u8>)
    requires
        all_digits(s),
    ensures
        0 <= digits_value(s),
        s.len() == 1 ==> digits_value(s) <= 9,
        s.len() == 2 ==> digits_value(s) <= 99,
        s.len() == 3 ==> digits_value(s) <= 999,
        s.len() == 4 ==> digits_value(s) <= 9999,
    decreases s.len(),
{
    if s.len() > 0 {
        assert(all_digits(s.drop_last())) by {
            assert forall|i: int| 0 <= i < s.drop_last().len() implies is_digit(#[trigger] s.drop_last()[i]) by {
                assert(s.drop_last()[i] == s[i]);
            }
        }
        assert(is_digit(s[s.len() - 1]));
        lemma_digits_value_bound(s.drop_last());
    }
}

/// `str::parse::<i64>` on bytes `start..end` of `b` (at most four of them).
fn parse_int_at(b: &[u8], start: usize, end: usize) -> (r: Option<i64>)
    requires
        start <= end <= b@.len(),
        end - start <= 4,
    ensures
        r matches Some(v) ==> parse_int(b@.subrange(start as int, end as int)) == Some(v as int),
        r is None ==> parse_int(b@.subrange(start as int, end as int)) is None,
        r matches Some(v) ==> -999 <= v <= 9999,
        end - start <= 2 ==> (r matches Some(v) ==> -9 <= v <= 99),
{
    let ghost s = b@.subrange(start as int, end as int);
    if start == end {
        return None;
    }
    let neg = b[start] == 45u8;
    let first = if b[start] == 43u8 || b[start] == 45u8 { start + 1 } else { start };
    if first == end {
        return None;
    }
    let ghost d = b@.subrange(first as int, end as int);
    assert(first == start + 1 ==> d =~= s.skip(1));
    assert(first == start ==> d =~= s);
    let mut v: i64 = 0;
    let mut i = first;
    while i < end
        invariant
            first <= i <= end <= b@.len(),
            end - first <= 4,
            d == b@.subrange(first as int, end as int),
            s == b@.subrange(start as int, end as int),
            start <= first <= start + 1,
            first == start + 1 ==> d == s.skip(1) && (s[0] == 43u8 || s[0] == 45u8) && (neg == (s[0] == 45u8)),
            first == start ==> d == s && s[0] != 43u8 && s[0] != 45u8 && !neg,
            all_digits(b@.subrange(first as int, i as int)),
            v == digits_value(b@.subrange(first as int, i as int)),
            0 <= v <= 9999,
            i - first == 0 ==> v == 0,
            i - first == 1 ==> v <= 9,
            i - first == 2 ==> v <= 99,
            i - first == 3 ==> v <= 999,
        decreases end - i,
    {
        let c = b[i];
        if c < 48u8 || c > 57u8 {
            assert(d[i - first] == c);
            assert(!all_digits(d));
            assert(!all_digits(s)) by {
                assert(s[i - start] == c);
            }
            assert(first == start + 1 ==> !all_digits(s.skip(1)));
            return None;
        }
        proof {
            assert(b@.subrange(first as int, i + 1).drop_last() =~= b@.subrange(first as int, i as int));
            assert(b@.subrange(first as int, i + 1).last() == c);
            assert forall|j: int| 0 <= j < b@.subrange(first as int, i + 1).len() implies
                is_digit(#[trigger] b@.subrange(first as int, i + 1)[j]) by {
                if j < i - first {
                    assert(b@.subrange(first as int, i + 1)[j] == b@.subrange(first as int, i as int)[j]);
                }
            }
        }
        v = v * 10 + (c - 48u8) as i64;
        i = i + 1;
    }
    assert(b@.subrange(first as int, end as int) == d);
    if neg {
        Some(-v)
    } else {
        Some(v)
    }
}

/// Bounds under which the computation of `epoch_ms` cannot overflow.
proof fn lemma_epoch_ms_small(year: int, month: int, day: int, h: int, mi: int, s: int, ms: int)
    requires
        -999 <= year <= 9999,
        0 <= month <= 11,
        1 <= day <= 31,
        -9 <= h <= 99,
        -9 <= mi <= 99,
        -9 <= s <= 99,
        0 <= ms <= 999,
    ensures
        epoch_ms_fits(year, month, day, h, mi, s, ms),
        -1_000_000_000_000_000 <= epoch_ms(year, month, day, h, mi, s, ms) <= 1_000_000_000_000_000,
{
    assert(norm_year(year, month) == year);
    assert(norm_month(year, month) == month);
    lemma_days_before_month_bounds(month, is_leap_year(year));
}

/// The number of decimal digits in `b` from index `start` on.
fn count_digits(b: &[u8], start: usize) -> (n: usize)
    requires
        start <= b@.len(),
    ensures
        n == leading_digits(b@.skip(start as int)),
        start + n <= b@.len(),
        all_digits(b@.subrange(start as int, start + n)),
    decreases b@.len() - start,
{
    if start < b.len() && b[start] >= 48u8 && b[start] <= 57u8 {
        let n = count_digits(b, start + 1);
        proof {
            assert(b@.skip(start as int).skip(1) =~= b@.skip(start + 1));
            assert(b@.skip(start as int)[0] == b[start as int]);
            assert forall|j: int| 0 <= j < n + 1 implies is_digit(#[trigger] b@.subrange(start as int, start + n + 1)[j]) by {
                if j > 0 {
                    assert(b@.subrange(start as int, start + n + 1)[j] == b@.subrange(start + 1, start + 1 + n)[j - 1]);
                }
            }
        }
        n + 1
    } else {
        proof {
            if start < b.len() {
                assert(b@.skip(start as int)[0] == b[start as int]);
            }
        }
        0
    }
}

/// The fraction of a second at index 9 of the time part starting at `base`,
/// if there is one: the index after it and its milliseconds.
fn parse_fraction(b: &[u8], base: usize) -> (r: (usize, i64))
    requires
        base + 9 <= b@.len(),
    ensures
        ({
            let rest = b@.subrange(base as int, b@.len() as int);
            let has_frac = 9 < rest.len() && rest[9] == 46u8;
            &&& r.0 == (if has_frac { 10 + leading_digits(rest.skip(10)) as int } else { 9 })
            &&& r.1 == (if has_frac { fraction_millis(rest.subrange(10, r.0 as int)) } else { 0 })
            &&& r.0 <= rest.len()
            &&& 0 <= r.1 <= 999
        }),
{
    let ghost rest = b@.subrange(base as int, b@.len() as int);
    let len = b.len() - base;
    if 9 < len && b[base + 9] == 46u8 {
        assert(rest[9] == b[base + 9]);
        let n = count_digits(b, base + 10);
        let end = 10 + n;
        let ghost frac = rest.subrange(10, end as int);
        assert(frac =~= b@.subrange(base + 10, base + 10 + n));
        assert(rest.skip(10) =~= b@.skip(base + 10));
        proof {
            if n > 0 { assert(frac[0] == b[base + 10]); assert(is_digit(b@.subrange(base + 10, base + 10 + n)[0])); }
            if n > 1 { assert(frac[1] == b[base + 11]); assert(is_digit(b@.subrange(base + 10, base + 10 + n)[1])); }
            if n > 2 { assert(frac[2] == b[base + 12]); assert(is_digit(b@.subrange(base + 10, base + 10 + n)[2])); }
        }
        let d0: i64 = if n > 0 { (b[base + 10] - 48u8) as i64 } else { 0 };
        let d1: i64 = if n > 1 { (b[base + 11] - 48u8) as i64 } else { 0 };
        let d2: i64 = if n > 2 { (b[base + 12] - 48u8) as i64 } else { 0 };
        (end, d0 * 100 + d1 * 10 + d2)
    } else {
        assert(!(9 < rest.len() && rest[9] == 46u8)) by {
            if 9 < rest.len() {
                assert(rest[9] == b[base + 9]);
            }
        }
        (9, 0)
    }
}

/// The zone designator at index `p` of the time part starting at `base`:
/// see `iso_zone`.
fn parse_zone(b: &[u8], base: usize, p: usize) -> (r: Option<i64>)
    requires
        base <= b@.len(),
        p <= b@.len() - base,
    ensures
        r matches Some(z) ==> iso_zone(b@.subrange(base as int, b@.len() as int), p as int) == Some(z as int),
        r is None ==> iso_zone(b@.subrange(base as int, b@.len() as int), p as int) is None,
        r matches Some(z) ==> -6100 <= z <= 6100,
{
    let ghost rest = b@.subrange(base as int, b@.len() as int);
    let len = b.len() - base;
    if p >= len {
        return Some(0);
    }
    assert(rest[p as int] == b[base + p]);
    let c = b[base + p];
    if c == 90u8 {
        Some(0)
    } else if c == 43u8 || c == 45u8 {
        if len - p > 5 && b[base + p + 3] == 58u8 {
            assert(rest[p + 3] == b[base + p + 3]);
            assert(rest.subrange(p + 1, p + 3) =~= b@.subrange(base + p + 1, base + p + 3));
            assert(rest.subrange(p + 4, p + 6) =~= b@.subrange(base + p + 4, base + p + 6));
            let oh = parse_int_at(b, base + p + 1, base + p + 3);
            let om = parse_int_at(b, base + p + 4, base + p + 6);
            match (oh, om) {
                (Some(oh), Some(om)) => {
                    let off = oh * 60 + om;
                    Some(if c == 43u8 { off } else { -off })
                },
                _ => None,
            }
        } else {
            proof {
                if len - p > 5 {
                    assert(rest[p + 3] == b[base + p + 3]);
                }
            }
            Some(0)
        }
    } else {
        None
    }
}

/// The time part of `b` from index `base` on: see `iso_time`.
fn parse_iso_time(b: &[u8], base: usize) -> (r: Option<(i64, i64, i64, i64, i64)>)
    requires
        base <= b@.len(),
    ensures
        r matches Some(t) ==> iso_time(b@.subrange(base as int, b@.len() as int)) == Some(
            (t.0 as int, t.1 as int, t.2 as int, t.3 as int, t.4 as int),
        ),
        r is None ==> iso_time(b@.subrange(base as int, b@.len() as int)) is None,
        r matches Some(t) ==> -9 <= t.0 <= 99 && -9 <= t.1 <= 99 && -9 <= t.2 <= 99 && 0 <= t.3 <= 999
            && -6100 <= t.4 <= 6100,
{
    let ghost rest = b@.subrange(base as int, b@.len() as int);
    let len = b.len() - base;
    if len == 0 {
        return Some((0, 0, 0, 0, 0));
    }
    assert(rest[0] == b[base as int]);
    if b[base] != 84u8 && b[base] != 32u8 {
        return None;
    }
    if len < 9 {
        return Some((0, 0, 0, 0, 0));
    }
    let ho = parse_int_at(b, base + 1, base + 3);
    let mo = parse_int_at(b, base + 4, base + 6);
    let so = parse_int_at(b, base + 7, base + 9);
    assert(rest.subrange(1, 3) =~= b@.subrange(base + 1, base + 3));
    assert(rest.subrange(4, 6) =~= b@.subrange(base + 4, base + 6));
    assert(rest.subrange(7, 9) =~= b@.subrange(base + 7, base + 9));
    assert(rest[3] == b[base + 3]);
    assert(rest[6] == b[base + 6]);
    let (h, mi, sc) = match (ho, mo, so) {
        (Some(h), Some(mi), Some(sc)) => (h, mi, sc),
        _ => {
            return None;
        },
    };
    if b[base + 3] != 58u8 || b[base + 6] != 58u8 {
        return None;
    }
    let (p, ms) = parse_fraction(b, base);
    match parse_zone(b, base, p) {
        Some(tz) => Some((h, mi, sc, ms, tz)),
        None => None,
    }
}

/// UTC epoch milliseconds of an ISO 8601 text given as its (trimmed) bytes.
pub fn parse_iso8601_bytes(b: &[u8]) -> (r: Option<i64>)
    ensures
        r matches Some(v) ==> iso_epoch_ms(b@) == Some(v as int),
        r is None ==> iso_epoch_ms(b@) is None,
{
    if b.len() < 10 {
        return None;
    }
    let yo = parse_int_at(b, 0, 4);
    let mo = parse_int_at(b, 5, 7);
    let d_o = parse_int_at(b, 8, 10);
    let (year, month, day) = match (yo, mo, d_o) {
        (Some(y), Some(m), Some(d)) => (y, m, d),
        _ => {
            return None;
        },
    };
    if b[4] != 45u8 || b[7] != 45u8 || month < 1 || month > 12 || day < 1 || day > 31 {
        return None;
    }
    let (h, mi, sc, ms, tz) = match parse_iso_time(b, 10) {
        Some(t) => t,
        None => {
            return None;
        },
    };
    proof {
        lemma_epoch_ms_small(year as int, month - 1, day as int, h as int, mi as int, sc as int, ms as int);
    }
    let epoch = utc_components_to_epoch_ms(year, month - 1, day, h, mi, sc, ms);
    Some(epoch - tz * 60000)
}

/// Parse an ISO 8601 date-time to UTC epoch milliseconds. Accepted, after
/// trimming whitespace: `YYYY-MM-DD`, `YYYY-MM-DDTHH:MM:SS`, with optional
/// fractional seconds and `Z` or a `±HH:MM` offset. `None` on failure.
pub fn parse_iso8601_to_epoch_ms(s: &str) -> (r: Option<i64>)
    ensures
        r matches Some(v) ==> iso_epoch_ms(vstd::utf8::encode_utf8(crate::text::trim(s@))) == Some(v as int),
        r is None ==> iso_epoch_ms(vstd::utf8::encode_utf8(crate::text::trim(s@))) is None,
{
    let t = str_trim(s);
    parse_iso8601_bytes(t.as_bytes())
}

// ------------------------------------------------------------------ laws

/// The epoch is 1970-01-01T00:00:00.000Z, and each day, hour, minute and
/// second after a moment adds its length in milliseconds.
pub proof fn law_epoch_and_units(year: int, month: int, day: int, h: int, mi: int, s: int, ms: int)
    ensures
        epoch_ms(1970, 0, 1, 0, 0, 0, 0) == 0,
        epoch_ms(year, month, day + 1, h, mi, s, ms) == epoch_ms(year, month, day, h, mi, s, ms) + 86_400_000,
        epoch_ms(year, month, day, h + 1, mi, s, ms) == epoch_ms(year, month, day, h, mi, s, ms) + 3_600_000,
        epoch_ms(year, month, day, h, mi + 1, s, ms) == epoch_ms(year, month, day, h, mi, s, ms) + 60_000,
        epoch_ms(year, month, day, h, mi, s + 1, ms) == epoch_ms(year, month, day, h, mi, s, ms) + 1000,
{
    assert(days_before_year(1970) == 0);
    assert(epoch_day(year, month, day + 1) == epoch_day(year, month, day) + 1);
}

/// Month overflow carries into the year: twelve months more is one year
/// more.
pub proof fn law_month_overflow_carries_into_year(year: int, month: int, day: int, h: int, mi: int, s: int, ms: int)
    ensures
        epoch_ms(year, month + 12, day, h, mi, s, ms) == epoch_ms(year + 1, month, day, h, mi, s, ms),
        epoch_ms(year, month - 12, day, h, mi, s, ms) == epoch_ms(year - 1, month, day, h, mi, s, ms),
{
    assert(year * 12 + (month + 12) == (year + 1) * 12 + month);
    assert(year * 12 + (month - 12) == (year - 1) * 12 + month);
}

/// A year has 365 days, 366 in a leap year: January 1st of the next year
/// comes that many days later.
pub proof fn law_year_length(y: int)
    ensures
        days_before_year(y + 1) - days_before_year(y) == if is_leap_year(y) { 366int } else { 365int },
{
    let p = y - 1;
    let q = y;
    // Each of the quotients steps up by one exactly when the divisor
    // divides `y`.
    assert(q / 4 - p / 4 == if y % 4 == 0 { 1int } else { 0int }) by {
        vstd::arithmetic::div_mod::lemma_fundamental_div_mod(q, 4);
        vstd::arithmetic::div_mod::lemma_fundamental_div_mod(p, 4);
    }
    assert(q / 100 - p / 100 == if y % 100 == 0 { 1int } else { 0int }) by {
        vstd::arithmetic::div_mod::lemma_fundamental_div_mod(q, 100);
        vstd::arithmetic::div_mod::lemma_fundamental_div_mod(p, 100);
    }
    assert(q / 400 - p / 400 == if y % 400 == 0 { 1int } else { 0int }) by {
        vstd::arithmetic::div_mod::lemma_fundamental_div_mod(q, 400);
        vstd::arithmetic::div_mod::lemma_fundamental_div_mod(p, 400);
    }
    assert(y % 400 == 0 ==> y % 100 == 0 && y % 4 == 0);
    assert(y % 100 == 0 ==> y % 4 == 0);
}

} // verus!
