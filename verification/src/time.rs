//! RFC 3339 formatting of a Unix timestamp, to one-second resolution, in UTC.
//!
//! The calendar below is stated directly — year lengths summed from 1970,
//! month lengths summed from January — and the day-to-date conversion, which
//! uses Howard Hinnant's era arithmetic, is proved to agree with it.

use vstd::prelude::*;

use crate::text::{all_ascii, ascii_chars, ascii_string};

verus! {

/// The Gregorian leap-year rule.
pub open spec fn is_leap_year(y: int) -> bool {
    (y % 4 == 0 && y % 100 != 0) || y % 400 == 0
}

pub open spec fn days_in_year(y: int) -> int {
    if is_leap_year(y) { 366 } else { 365 }
}

/// Days in month `m` (1 = January) of year `y`.
pub open spec fn days_in_month(y: int, m: int) -> int {
    if m == 2 {
        if is_leap_year(y) { 29 } else { 28 }
    } else if m == 4 || m == 6 || m == 9 || m == 11 {
        30
    } else {
        31
    }
}

/// Days from 1970-01-01 to the first of January of year `y`.
pub open spec fn days_before_year(y: int) -> int
    decreases y - 1970,
{
    if y <= 1970 { 0 } else { days_before_year(y - 1) + days_in_year(y - 1) }
}

/// Days from the first of January to the first of month `m` in year `y`.
pub open spec fn days_before_month(y: int, m: int) -> int
    decreases m,
{
    if m <= 1 { 0 } else { days_before_month(y, m - 1) + days_in_month(y, m - 1) }
}

/// A calendar date from 1970 on.
pub open spec fn valid_date(y: int, m: int, d: int) -> bool {
    &&& 1970 <= y
    &&& 1 <= m <= 12
    &&& 1 <= d <= days_in_month(y, m)
}

/// Days from 1970-01-01 to the given date.
pub open spec fn days_from_civil(y: int, m: int, d: int) -> int {
    days_before_year(y) + days_before_month(y, m) + d - 1
}

spec fn closed_days_before_year(y: int) -> int {
    365 * (y - 1970) + (y - 1) / 4 - (y - 1) / 100 + (y - 1) / 400 - 477
}

proof fn lemma_days_before_year_closed(y: int)
    requires
        y >= 1970,
    ensures
        days_before_year(y) == closed_days_before_year(y),
    decreases y - 1970,
{
    if y > 1970 {
        lemma_days_before_year_closed(y - 1);
        let x = y - 1;
        assert(x / 4 - (x - 1) / 4 == (if x % 4 == 0 { 1int } else { 0 }));
        assert(x / 100 - (x - 1) / 100 == (if x % 100 == 0 { 1int } else { 0 }));
        assert(x / 400 - (x - 1) / 400 == (if x % 400 == 0 { 1int } else { 0 }));
    }
}


/// The day, counted from 0000-03-01 within a 400-year era, on which era
/// year `k` begins. Era years run March to February.
spec fn era_year_start(k: int) -> int {
    365 * k + k / 4 - k / 100
}

spec fn era_year_of(doe: int) -> int {
    (doe - doe / 1460 + doe / 36524 - doe / 146096) / 365
}

proof fn lemma_era_year(doe: int)
    requires
        0 <= doe < 146097,
    ensures
        0 <= era_year_of(doe) <= 399,
        era_year_start(era_year_of(doe)) <= doe,
        doe - era_year_start(era_year_of(doe)) <= 364 + (if is_leap_year(era_year_of(doe) + 1) { 1int } else { 0 }),
{
    let c: int = if doe >= 146096 { 3 } else { doe / 36524 };
    let u = doe - 36524 * c;
    let q = u / 1461;
    let t = u % 1461;
    assert(0 <= c <= 3);
    assert(0 <= u <= 36524);
    assert(u == 36524 ==> c == 3);
    assert(0 <= q <= 24);
    assert(q == 24 && c < 3 ==> t <= 1459);
    assert(doe == 36524 * c + 1461 * q + t);
    let r: int = if t >= 1460 { 3 } else { t / 365 };
    let j = t - 365 * r;
    assert(0 <= r <= 3);
    let k = 100 * c + 4 * q + r;
    assert(doe / 146096 == (if doe == 146096 { 1int } else { 0 }));
    assert(doe / 36524 == (if doe == 146096 { 4int } else { c }));
    assert(doe / 1460 == 25 * c + q + (24 * c + q + t) / 1460);
    assert(era_year_of(doe) == k);
    assert(k / 4 == 25 * c + q);
    assert(k / 100 == c);
    assert(era_year_start(k) == 365 * k + 24 * c + q);
}


/// Days from 1 March to the first of the `mp`-th month counted from March.
spec fn march_days_before(mp: int) -> int {
    (153 * mp + 2) / 5
}

proof fn lemma_march_month(doy: int)
    requires
        0 <= doy <= 365,
    ensures
        0 <= (5 * doy + 2) / 153 <= 11,
        march_days_before((5 * doy + 2) / 153) <= doy,
        ((5 * doy + 2) / 153) < 11 ==> doy < march_days_before((5 * doy + 2) / 153 + 1),
{
}

proof fn lemma_days_before_month_table(y: int)
    ensures
        days_before_month(y, 1) == 0,
        days_before_month(y, 2) == 31,
        forall|m: int| 3 <= m <= 12 ==> #[trigger] days_before_month(y, m) == 59 + (if is_leap_year(y) { 1int } else { 0 }) + march_days_before(m - 3),
        days_before_month(y, 12) + 31 == days_in_year(y),
{
    reveal_with_fuel(days_before_month, 13);
    assert(march_days_before(0) == 0);
    assert(march_days_before(1) == 31);
    assert(march_days_before(2) == 61);
    assert(march_days_before(3) == 92);
    assert(march_days_before(4) == 122);
    assert(march_days_before(5) == 153);
    assert(march_days_before(6) == 184);
    assert(march_days_before(7) == 214);
    assert(march_days_before(8) == 245);
    assert(march_days_before(9) == 275);
}


proof fn lemma_days_before_year_monotone(a: int, b: int)
    requires
        1970 <= a <= b,
    ensures
        days_before_year(a) <= days_before_year(b),
        a < b ==> days_before_year(a) + days_in_year(a) <= days_before_year(b),
    decreases b - a,
{
    if a < b {
        lemma_days_before_year_monotone(a, b - 1);
    }
}

proof fn lemma_days_before_month_monotone(y: int, a: int, b: int)
    requires
        1 <= a <= b <= 12,
    ensures
        days_before_month(y, a) <= days_before_month(y, b),
        a < b ==> days_before_month(y, a) + days_in_month(y, a) <= days_before_month(y, b),
    decreases b - a,
{
    if a < b {
        lemma_days_before_month_monotone(y, a, b - 1);
    }
}

/// A valid date falls inside its own year.
proof fn lemma_date_in_year(y: int, m: int, d: int)
    requires
        valid_date(y, m, d),
    ensures
        days_before_year(y) <= days_from_civil(y, m, d) < days_before_year(y + 1),
{
    lemma_days_before_month_table(y);
    lemma_days_before_month_monotone(y, m, 12);
}


/// The largest day count `rfc3339` can pass on: `i64::MAX / 86_400`.
pub const MAX_DAYS: i64 = 106_751_991_167_300;

/// The day on which year 10000 begins, counted from 1970-01-01.
pub open spec fn end_of_year_9999() -> int {
    days_before_year(10000)
}

proof fn lemma_end_of_year_9999()
    ensures
        end_of_year_9999() == 2_932_897,
{
    lemma_days_before_year_closed(10000);
}

proof fn lemma_era_identity(e: int, k: int)
    requires
        e >= 0,
        0 <= k <= 399,
    ensures
        closed_days_before_year(400 * e + k) + 59 + (if is_leap_year(400 * e + k) { 1int } else { 0 })
            == 146_097 * e + era_year_start(k) - 719_468,
        closed_days_before_year(400 * e + k + 1) == closed_days_before_year(400 * e + k) + days_in_year(400 * e + k),
        is_leap_year(400 * e + k + 1) == is_leap_year(k + 1),
{
    let y = 400 * e + k;
    assert(y / 4 == 100 * e + k / 4);
    assert(y / 100 == 4 * e + k / 100);
    assert(y / 400 == e);
    assert((y - 1) / 4 == y / 4 - (if y % 4 == 0 { 1int } else { 0 }));
    assert((y - 1) / 100 == y / 100 - (if y % 100 == 0 { 1int } else { 0 }));
    assert((y - 1) / 400 == y / 400 - (if y % 400 == 0 { 1int } else { 0 }));
    assert((y + 1) % 4 == (k + 1) % 4);
    assert((y + 1) % 100 == (k + 1) % 100);
    assert((y + 1) % 400 == (k + 1) % 400);
}

/// The era year of a day from 1970 on is 1969 or later, and 1969 only for
/// January and February of 1970.
proof fn lemma_era_year_floor(days: int)
    requires
        0 <= days <= MAX_DAYS,
    ensures
        ({
            let z = days + 719_468;
            let e = z / 146_097;
            let doe = z % 146_097;
            let k = era_year_of(doe);
            &&& e >= 4
            &&& 400 * e + k >= 1969
            &&& 400 * e + k == 1969 ==> doe - era_year_start(k) >= 306
        }),
{
    let z = days + 719_468;
    let e = z / 146_097;
    let doe = z % 146_097;
    lemma_era_year(doe);
    let k = era_year_of(doe);
    assert(e >= 4);
    if e == 4 {
        assert(doe >= 135_080);
        if k <= 368 {
            assert(era_year_start(k) <= era_year_start(368));
            assert(false);
        }
        assert(era_year_start(369) == 134_774);
    }
}

spec fn civil_year(days: int) -> int {
    let z = days + 719_468;
    400 * (z / 146_097) + era_year_of(z % 146_097)
}

spec fn civil_doy(days: int) -> int {
    let doe = (days + 719_468) % 146_097;
    doe - era_year_start(era_year_of(doe))
}

proof fn lemma_civil(days: int)
    requires
        0 <= days <= MAX_DAYS,
    ensures
        ({
            let big_y = civil_year(days);
            let doy = civil_doy(days);
            let mp = (5 * doy + 2) / 153;
            let day = doy - march_days_before(mp) + 1;
            let month = if mp < 10 { mp + 3 } else { mp - 9 };
            let year = if month <= 2 { big_y + 1 } else { big_y };
            &&& 0 <= doy <= 365
            &&& 0 <= mp <= 11
            &&& valid_date(year, month, day)
            &&& days_from_civil(year, month, day) == days
        }),
{
    let z = days + 719_468;
    let e = z / 146_097;
    let doe = z % 146_097;
    lemma_era_year(doe);
    lemma_era_year_floor(days);
    let k = era_year_of(doe);
    let big_y = civil_year(days);
    let doy = civil_doy(days);
    lemma_march_month(doy);
    lemma_era_identity(e, k);
    let mp = (5 * doy + 2) / 153;
    let day = doy - march_days_before(mp) + 1;
    let month = if mp < 10 { mp + 3 } else { mp - 9 };
    let year = if month <= 2 { big_y + 1 } else { big_y };
    lemma_days_before_year_closed(year);
    lemma_days_before_month_table(year);
    assert(march_days_before(10) == 306);
    assert(march_days_before(11) == 337);
    if mp < 10 {
        assert(days_before_month(year, month) == 59 + (if is_leap_year(big_y) { 1int } else { 0 }) + march_days_before(mp));
    } else {
        lemma_days_before_year_closed(big_y + 1);
    }
}

/// Days since 1970-01-01 to a civil date.
///
/// Howard Hinnant's `civil_from_days`, which shifts the epoch to 0000-03-01 so
/// that leap days land at the end of the era and the month arithmetic needs no
/// table. `None` from year 10000 on.
fn civil_from_days(days: i64) -> (r: Option<(i64, u32, u32)>)
    requires
        0 <= days <= MAX_DAYS,
    ensures
        match r {
            Some((y, m, d)) => {
                &&& valid_date(y as int, m as int, d as int)
                &&& y <= 9999
                &&& days_from_civil(y as int, m as int, d as int) == days
            },
            None => days >= end_of_year_9999(),
        },
{
    proof {
        lemma_civil(days as int);
        lemma_era_year((days as int + 719_468) % 146_097);
    }
    let z = days + 719_468;
    let era = z / 146_097;
    let doe = z % 146_097;
    let yoe = (doe - doe / 1460 + doe / 36524 - doe / 146_096) / 365;
    let y = yoe + era * 400;
    let doy = doe - (365 * yoe + yoe / 4 - yoe / 100);
    let mp = (5 * doy + 2) / 153;
    let day = (doy - (153 * mp + 2) / 5 + 1) as u32;
    let month = if mp < 10 { (mp + 3) as u32 } else { (mp - 9) as u32 };
    let year = if month <= 2 { y + 1 } else { y };
    proof {
        lemma_end_of_year_9999();
        lemma_date_in_year(year as int, month as int, day as int);
        if year > 9999 {
            lemma_days_before_year_monotone(10000, year as int);
        } else {
            lemma_days_before_year_monotone(year as int + 1, 10000);
        }
    }
    if 0 <= year && year <= 9999 {
        Some((year, month, day))
    } else {
        None
    }
}


/// Two valid dates never fall on the same day.
pub proof fn lemma_dates_are_distinct(y1: int, m1: int, d1: int, y2: int, m2: int, d2: int)
    requires
        valid_date(y1, m1, d1),
        valid_date(y2, m2, d2),
        days_from_civil(y1, m1, d1) == days_from_civil(y2, m2, d2),
    ensures
        y1 == y2 && m1 == m2 && d1 == d2,
{
    lemma_date_in_year(y1, m1, d1);
    lemma_date_in_year(y2, m2, d2);
    if y1 < y2 {
        lemma_days_before_year_monotone(y1 + 1, y2);
    } else if y2 < y1 {
        lemma_days_before_year_monotone(y2 + 1, y1);
    } else if m1 < m2 {
        lemma_days_before_month_monotone(y1, m1, m2);
    } else if m2 < m1 {
        lemma_days_before_month_monotone(y1, m2, m1);
    }
}

/// The date of the `days`-th day after 1970-01-01.
pub open spec fn civil_of(days: int) -> (int, int, int) {
    choose|ymd: (int, int, int)| valid_date(ymd.0, ymd.1, ymd.2) && days_from_civil(ymd.0, ymd.1, ymd.2) == days
}

/// The ASCII digit for `n`, which is below ten.
pub open spec fn digit(n: int) -> char {
    ((n + 48) as u8) as char
}

pub open spec fn two_digits(n: int) -> Seq<char> {
    seq![digit(n / 10), digit(n % 10)]
}

pub open spec fn four_digits(n: int) -> Seq<char> {
    seq![digit(n / 1000), digit(n / 100 % 10), digit(n / 10 % 10), digit(n % 10)]
}

/// `YYYY-MM-DDThh:mm:ssZ`.
pub open spec fn rfc3339_text(y: int, mo: int, d: int, h: int, mi: int, s: int) -> Seq<char> {
    four_digits(y) + seq!['-'] + two_digits(mo) + seq!['-'] + two_digits(d) + seq!['T']
        + two_digits(h) + seq![':'] + two_digits(mi) + seq![':'] + two_digits(s) + seq!['Z']
}

/// Whether `rfc3339` has an answer for this instant: from 1970 up to the
/// end of year 9999.
pub open spec fn rfc3339_in_range(t: int) -> bool {
    0 <= t && t / 86_400 < end_of_year_9999()
}

/// The RFC 3339 text for the instant `t` seconds after the epoch.
pub open spec fn rfc3339_of(t: int) -> Seq<char> {
    let date = civil_of(t / 86_400);
    let secs = t % 86_400;
    rfc3339_text(date.0, date.1, date.2, secs / 3600, secs % 3600 / 60, secs % 60)
}

fn push_digits(out: &mut Vec<u8>, n: u32, width: u32)
    requires
        width == 2 || width == 4,
        n < (if width == 2 { 100u32 } else { 10000u32 }),
    ensures
        final(out)@ == old(out)@ + ascii_bytes_of(if width == 2 {
            two_digits(n as int)
        } else {
            four_digits(n as int)
        }),
{
    if width == 4 {
        out.push((n / 1000 % 10) as u8 + 48);
        out.push((n / 100 % 10) as u8 + 48);
    }
    out.push((n / 10 % 10) as u8 + 48);
    out.push((n % 10) as u8 + 48);
    proof {
        let s = if width == 2 { two_digits(n as int) } else { four_digits(n as int) };
        assert(final(out)@ =~= old(out)@ + ascii_bytes_of(s));
    }
}

/// The bytes of ASCII text.
pub open spec fn ascii_bytes_of(chars: Seq<char>) -> Seq<u8> {
    Seq::new(chars.len(), |i: int| chars[i] as u8)
}

/// Seconds since the Unix epoch as RFC 3339 in UTC, to one-second
/// resolution: `2026-09-20T14:03:11Z`.
///
/// No fractional part, because the sources are whole seconds. `None` before
/// 1970 or beyond year 9999.
pub fn rfc3339(epoch_seconds: i64) -> (r: Option<String>)
    ensures
        r is Some <==> rfc3339_in_range(epoch_seconds as int),
        r matches Some(s) ==> s@ == rfc3339_of(epoch_seconds as int),
{
    if epoch_seconds < 0 {
        return None;
    }
    let days = epoch_seconds / 86_400;
    let secs = epoch_seconds % 86_400;
    let (year, month, day) = match civil_from_days(days) {
        Some(date) => date,
        None => return None,
    };
    let hour = (secs / 3600) as u32;
    let minute = ((secs % 3600) / 60) as u32;
    let second = (secs % 60) as u32;
    proof {
        let date = civil_of(days as int);
        lemma_dates_are_distinct(date.0, date.1, date.2, year as int, month as int, day as int);
        lemma_date_in_year(year as int, month as int, day as int);
        lemma_days_before_year_monotone(year as int + 1, 10000);
    }
    Some(format_rfc3339(year as u32, month, day, hour, minute, second))
}

/// Writes a date and time of day in the RFC 3339 layout.
fn format_rfc3339(year: u32, month: u32, day: u32, hour: u32, minute: u32, second: u32) -> (s: String)
    requires
        year < 10000,
        month < 100,
        day < 100,
        hour < 100,
        minute < 100,
        second < 100,
    ensures
        s@ == rfc3339_text(year as int, month as int, day as int, hour as int, minute as int, second as int),
{
    let mut out: Vec<u8> = Vec::new();
    push_digits(&mut out, year, 4);
    out.push(45); // '-'
    push_digits(&mut out, month, 2);
    out.push(45); // '-'
    push_digits(&mut out, day, 2);
    out.push(84); // 'T'
    push_digits(&mut out, hour, 2);
    out.push(58); // ':'
    push_digits(&mut out, minute, 2);
    out.push(58); // ':'
    push_digits(&mut out, second, 2);
    out.push(90); // 'Z'
    let ghost text = rfc3339_text(year as int, month as int, day as int, hour as int, minute as int, second as int);
    proof {
        assert(out@ =~= ascii_bytes_of(text));
        assert(all_ascii(out@));
        assert(ascii_chars(out@) =~= text);
    }
    ascii_string(out)
}


/// `rfc3339` answers exactly from the epoch to the last second of year
/// 9999, 253402300799.
pub proof fn lemma_rfc3339_range(t: int)
    ensures
        rfc3339_in_range(t) <==> 0 <= t <= 253_402_300_799,
{
    lemma_end_of_year_9999();
}

/// The date of an in-range day is a valid date of a four-digit year that
/// falls on that day.
proof fn lemma_civil_of(days: int)
    requires
        0 <= days < end_of_year_9999(),
    ensures
        valid_date(civil_of(days).0, civil_of(days).1, civil_of(days).2),
        days_from_civil(civil_of(days).0, civil_of(days).1, civil_of(days).2) == days,
        civil_of(days).0 <= 9999,
{
    lemma_end_of_year_9999();
    lemma_civil(days);
    let big_y = civil_year(days);
    let doy = civil_doy(days);
    let mp = (5 * doy + 2) / 153;
    let day = doy - march_days_before(mp) + 1;
    let month = if mp < 10 { mp + 3 } else { mp - 9 };
    let year = if month <= 2 { big_y + 1 } else { big_y };
    let w = (year, month, day);
    assert(valid_date(w.0, w.1, w.2) && days_from_civil(w.0, w.1, w.2) == days);
    let c = civil_of(days);
    lemma_date_in_year(c.0, c.1, c.2);
    if c.0 > 9999 {
        lemma_days_before_year_monotone(10000, c.0);
    }
}

/// Counting days walks the calendar: day 0 is 1970-01-01, each day's date
/// is the calendar day after the previous one's, and day 36525 is
/// 2070-01-01.
pub proof fn lemma_days_walk_the_calendar(days: int)
    requires
        0 <= days,
        days + 1 < end_of_year_9999(),
    ensures
        civil_of(0) == (1970int, 1int, 1int),
        civil_of(days + 1) == next_date(civil_of(days).0, civil_of(days).1, civil_of(days).2),
        civil_of(36_525) == (2070int, 1int, 1int),
{
    lemma_end_of_year_9999();
    lemma_civil_of(days);
    lemma_civil_of(days + 1);
    let c = civil_of(days);
    lemma_next_day_is_next_date(c.0, c.1, c.2);
    let n = next_date(c.0, c.1, c.2);
    let c1 = civil_of(days + 1);
    lemma_dates_are_distinct(c1.0, c1.1, c1.2, n.0, n.1, n.2);
    lemma_civil_of(0);
    let z = civil_of(0);
    assert(valid_date(1970, 1, 1) && days_from_civil(1970, 1, 1) == 0);
    lemma_dates_are_distinct(z.0, z.1, z.2, 1970, 1, 1);
    lemma_days_before_year_closed(2070);
    lemma_days_before_year_monotone(2071, 10000);
    assert(days_from_civil(2070, 1, 1) == 36_525);
    lemma_civil_of(36_525);
    let e = civil_of(36_525);
    lemma_dates_are_distinct(e.0, e.1, e.2, 2070, 1, 1);
}

proof fn lemma_digit(n: int)
    requires
        0 <= n < 10,
    ensures
        '0' <= digit(n) <= '9',
        digit(n) as int == n + 48,
{
    let b = (n + 48) as u8;
    assert(b as int == n + 48);
    assert((b as char) as int == b as int);
}

/// The text is `YYYY-MM-DDThh:mm:ssZ`, twenty characters: ASCII digits but
/// for the separators, the time of day read off the seconds within the day,
/// and the date depending on the day alone.
pub proof fn lemma_rfc3339_shape(t: int)
    requires
        rfc3339_in_range(t),
    ensures
        rfc3339_of(t).len() == 20,
        forall|i: int| 0 <= i < 20 && i != 4 && i != 7 && i != 10 && i != 13 && i != 16 && i != 19
            ==> '0' <= #[trigger] rfc3339_of(t)[i] <= '9',
        rfc3339_of(t)[4] == '-' && rfc3339_of(t)[7] == '-' && rfc3339_of(t)[10] == 'T',
        rfc3339_of(t)[13] == ':' && rfc3339_of(t)[16] == ':' && rfc3339_of(t)[19] == 'Z',
        rfc3339_of(t).subrange(11, 19)
            == two_digits(t % 86_400 / 3600) + seq![':'] + two_digits(t % 3600 / 60) + seq![':'] + two_digits(t % 60),
        rfc3339_of(t).take(10) == rfc3339_of(t - t % 86_400).take(10),
{
    let days = t / 86_400;
    lemma_civil_of(days);
    let c = civil_of(days);
    let secs = t % 86_400;
    let (y, mo, d) = (c.0, c.1, c.2);
    let (h, mi, se) = (secs / 3600, secs % 3600 / 60, secs % 60);
    assert(t % 3600 / 60 == mi) by {
        assert(t == days * 86_400 + secs);
    }
    assert(t % 60 == se) by {
        assert(t == days * 86_400 + secs);
    }
    lemma_digit(y / 1000);
    lemma_digit(y / 100 % 10);
    lemma_digit(y / 10 % 10);
    lemma_digit(y % 10);
    lemma_digit(mo / 10);
    lemma_digit(mo % 10);
    lemma_digit(d / 10);
    lemma_digit(d % 10);
    lemma_digit(h / 10);
    lemma_digit(h % 10);
    lemma_digit(mi / 10);
    lemma_digit(mi % 10);
    lemma_digit(se / 10);
    lemma_digit(se % 10);
    let text = rfc3339_of(t);
    assert(text.subrange(11, 19) =~= two_digits(h) + seq![':'] + two_digits(mi) + seq![':'] + two_digits(se));
    let u = t - t % 86_400;
    assert(u / 86_400 == days);
    assert(rfc3339_of(u).take(10) =~= text.take(10));
}

/// `a` comes before `b` in character order: at the first place they
/// differ, `a` has the smaller character.
pub open spec fn text_before(a: Seq<char>, b: Seq<char>) -> bool {
    exists|k: int| #![trigger a.take(k)] 0 <= k < a.len() && k < b.len() && a.take(k) == b.take(k) && a[k] < b[k]
}

/// An order settled within a common prefix, after a common part, survives
/// whatever follows.
proof fn lemma_before_in(p: Seq<char>, x1: Seq<char>, x2: Seq<char>, r1: Seq<char>, r2: Seq<char>)
    requires
        x1.len() == x2.len(),
        text_before(x1, x2),
    ensures
        text_before(p + (x1 + r1), p + (x2 + r2)),
{
    let k = choose|k: int| #![trigger x1.take(k)] 0 <= k < x1.len() && k < x2.len() && x1.take(k) == x2.take(k) && x1[k] < x2[k];
    let a = p + (x1 + r1);
    let b = p + (x2 + r2);
    let j = p.len() + k;
    assert(a.take(j) =~= p + x1.take(k));
    assert(b.take(j) =~= p + x2.take(k));
    assert(a[j] == x1[k]);
    assert(b[j] == x2[k]);
}

proof fn lemma_two_digits_before(x: int, y: int)
    requires
        0 <= x < y < 100,
    ensures
        text_before(two_digits(x), two_digits(y)),
{
    let a = two_digits(x);
    let b = two_digits(y);
    lemma_digit(x / 10);
    lemma_digit(x % 10);
    lemma_digit(y / 10);
    lemma_digit(y % 10);
    if x / 10 < y / 10 {
        assert(a.take(0) =~= b.take(0));
        assert(a[0] < b[0]);
    } else {
        assert(a.take(1) =~= b.take(1));
        assert(a[1] < b[1]);
    }
}

proof fn lemma_four_digits_split(x: int)
    requires
        0 <= x < 10000,
    ensures
        four_digits(x) == two_digits(x / 100) + two_digits(x % 100),
{
    assert(x / 100 / 10 == x / 1000);
    assert(x / 100 % 10 == x / 100 % 10);
    assert(x % 100 / 10 == x / 10 % 10);
    assert(x % 100 % 10 == x % 10);
    assert(four_digits(x) =~= two_digits(x / 100) + two_digits(x % 100));
}

proof fn lemma_four_digits_before(x: int, y: int)
    requires
        0 <= x < y < 10000,
    ensures
        text_before(four_digits(x), four_digits(y)),
{
    lemma_four_digits_split(x);
    lemma_four_digits_split(y);
    if x / 100 < y / 100 {
        lemma_two_digits_before(x / 100, y / 100);
        lemma_before_in(Seq::empty(), two_digits(x / 100), two_digits(y / 100), two_digits(x % 100), two_digits(y % 100));
        assert(Seq::<char>::empty() + (two_digits(x / 100) + two_digits(x % 100)) =~= four_digits(x));
        assert(Seq::<char>::empty() + (two_digits(y / 100) + two_digits(y % 100)) =~= four_digits(y));
    } else {
        lemma_two_digits_before(x % 100, y % 100);
        lemma_before_in(two_digits(x / 100), two_digits(x % 100), two_digits(y % 100), Seq::empty(), Seq::empty());
        assert(two_digits(x / 100) + (two_digits(x % 100) + Seq::<char>::empty()) =~= four_digits(x));
        assert(two_digits(y / 100) + (two_digits(y % 100) + Seq::<char>::empty()) =~= four_digits(y));
    }
}

/// A date earlier in the calendar falls on an earlier day.
proof fn lemma_earlier_date(y1: int, m1: int, d1: int, y2: int, m2: int, d2: int)
    requires
        valid_date(y1, m1, d1),
        valid_date(y2, m2, d2),
        y1 < y2 || (y1 == y2 && m1 < m2) || (y1 == y2 && m1 == m2 && d1 < d2),
    ensures
        days_from_civil(y1, m1, d1) < days_from_civil(y2, m2, d2),
{
    lemma_date_in_year(y1, m1, d1);
    lemma_date_in_year(y2, m2, d2);
    if y1 < y2 {
        lemma_days_before_year_monotone(y1 + 1, y2);
    } else if m1 < m2 {
        lemma_days_before_month_monotone(y1, m1, m2);
    }
}

/// The text of a later date and time sorts after that of an earlier one.
proof fn lemma_text_before(
    y1: int, mo1: int, d1: int, h1: int, mi1: int, s1: int,
    y2: int, mo2: int, d2: int, h2: int, mi2: int, s2: int,
)
    requires
        0 <= y1 < 10000 && 0 <= y2 < 10000,
        0 <= mo1 < 100 && 0 <= mo2 < 100 && 0 <= d1 < 100 && 0 <= d2 < 100,
        0 <= h1 < 100 && 0 <= h2 < 100 && 0 <= mi1 < 100 && 0 <= mi2 < 100 && 0 <= s1 < 100 && 0 <= s2 < 100,
        y1 < y2
            || (y1 == y2 && mo1 < mo2)
            || (y1 == y2 && mo1 == mo2 && d1 < d2)
            || (y1 == y2 && mo1 == mo2 && d1 == d2 && h1 < h2)
            || (y1 == y2 && mo1 == mo2 && d1 == d2 && h1 == h2 && mi1 < mi2)
            || (y1 == y2 && mo1 == mo2 && d1 == d2 && h1 == h2 && mi1 == mi2 && s1 < s2),
    ensures
        text_before(rfc3339_text(y1, mo1, d1, h1, mi1, s1), rfc3339_text(y2, mo2, d2, h2, mi2, s2)),
{
    let t1 = rfc3339_text(y1, mo1, d1, h1, mi1, s1);
    let t2 = rfc3339_text(y2, mo2, d2, h2, mi2, s2);
    let e = Seq::<char>::empty();
    let z = seq!['Z'];
    if y1 < y2 {
        lemma_four_digits_before(y1, y2);
        let r1 = t1.skip(4);
        let r2 = t2.skip(4);
        lemma_before_in(e, four_digits(y1), four_digits(y2), r1, r2);
        assert(e + (four_digits(y1) + r1) =~= t1);
        assert(e + (four_digits(y2) + r2) =~= t2);
    } else if mo1 < mo2 {
        lemma_two_digits_before(mo1, mo2);
        let p = four_digits(y1) + seq!['-'];
        lemma_before_in(p, two_digits(mo1), two_digits(mo2), t1.skip(7), t2.skip(7));
        assert(p + (two_digits(mo1) + t1.skip(7)) =~= t1);
        assert(p + (two_digits(mo2) + t2.skip(7)) =~= t2);
    } else if d1 < d2 {
        lemma_two_digits_before(d1, d2);
        let p = four_digits(y1) + seq!['-'] + two_digits(mo1) + seq!['-'];
        lemma_before_in(p, two_digits(d1), two_digits(d2), t1.skip(10), t2.skip(10));
        assert(p + (two_digits(d1) + t1.skip(10)) =~= t1);
        assert(p + (two_digits(d2) + t2.skip(10)) =~= t2);
    } else if h1 < h2 {
        lemma_two_digits_before(h1, h2);
        let p = t1.take(11);
        assert(p =~= t2.take(11));
        lemma_before_in(p, two_digits(h1), two_digits(h2), t1.skip(13), t2.skip(13));
        assert(p + (two_digits(h1) + t1.skip(13)) =~= t1);
        assert(p + (two_digits(h2) + t2.skip(13)) =~= t2);
    } else if mi1 < mi2 {
        lemma_two_digits_before(mi1, mi2);
        let p = t1.take(14);
        assert(p =~= t2.take(14));
        lemma_before_in(p, two_digits(mi1), two_digits(mi2), t1.skip(16), t2.skip(16));
        assert(p + (two_digits(mi1) + t1.skip(16)) =~= t1);
        assert(p + (two_digits(mi2) + t2.skip(16)) =~= t2);
    } else {
        lemma_two_digits_before(s1, s2);
        let p = t1.take(17);
        assert(p =~= t2.take(17));
        lemma_before_in(p, two_digits(s1), two_digits(s2), z, z);
        assert(p + (two_digits(s1) + z) =~= t1);
        assert(p + (two_digits(s2) + z) =~= t2);
    }
}

/// String order is time order: of two instants `rfc3339` answers for, the
/// earlier one's text sorts first, so distinct instants have distinct
/// texts.
pub proof fn lemma_rfc3339_order(a: int, b: int)
    requires
        rfc3339_in_range(a),
        rfc3339_in_range(b),
        a < b,
    ensures
        text_before(rfc3339_of(a), rfc3339_of(b)),
        rfc3339_of(a) != rfc3339_of(b),
{
    let da = a / 86_400;
    let db = b / 86_400;
    lemma_civil_of(da);
    lemma_civil_of(db);
    let ca = civil_of(da);
    let cb = civil_of(db);
    let sa = a % 86_400;
    let sb = b % 86_400;
    if da < db {
        if cb.0 < ca.0 || (cb.0 == ca.0 && cb.1 < ca.1) || (cb.0 == ca.0 && cb.1 == ca.1 && cb.2 < ca.2) {
            lemma_earlier_date(cb.0, cb.1, cb.2, ca.0, ca.1, ca.2);
        }
        if ca == cb {
            assert(false);
        }
    } else {
        assert(da == db);
        assert(sa < sb);
        assert(sa == sa / 3600 * 3600 + sa % 3600 / 60 * 60 + sa % 60);
        assert(sb == sb / 3600 * 3600 + sb % 3600 / 60 * 60 + sb % 60);
    }
    lemma_text_before(
        ca.0, ca.1, ca.2, sa / 3600, sa % 3600 / 60, sa % 60,
        cb.0, cb.1, cb.2, sb / 3600, sb % 3600 / 60, sb % 60,
    );
    let ta = rfc3339_of(a);
    let tb = rfc3339_of(b);
    let k = choose|k: int| #![trigger ta.take(k)] 0 <= k < ta.len() && k < tb.len() && ta.take(k) == tb.take(k) && ta[k] < tb[k];
    assert(ta[k] != tb[k]);
}

/// The calendar day after a date.
pub open spec fn next_date(y: int, m: int, d: int) -> (int, int, int) {
    if d < days_in_month(y, m) {
        (y, m, d + 1)
    } else if m < 12 {
        (y, m + 1, 1)
    } else {
        (y + 1, 1, 1)
    }
}

/// Counting days advances the date exactly as a calendar does: the day
/// after a date is numbered one more than it.
pub proof fn lemma_next_day_is_next_date(y: int, m: int, d: int)
    requires
        valid_date(y, m, d),
    ensures
        valid_date(next_date(y, m, d).0, next_date(y, m, d).1, next_date(y, m, d).2),
        days_from_civil(next_date(y, m, d).0, next_date(y, m, d).1, next_date(y, m, d).2)
            == days_from_civil(y, m, d) + 1,
{
    lemma_days_before_month_table(y);
}

/// A date and time of day from 1970-01-01 to 9999-12-31 round-trips:
/// formatting the instant it names gives back exactly that date and time.
pub proof fn lemma_rfc3339_round_trip(y: int, m: int, d: int, h: int, mi: int, s: int)
    requires
        valid_date(y, m, d),
        y <= 9999,
        0 <= h < 24,
        0 <= mi < 60,
        0 <= s < 60,
    ensures
        rfc3339_in_range(days_from_civil(y, m, d) * 86_400 + h * 3600 + mi * 60 + s),
        rfc3339_of(days_from_civil(y, m, d) * 86_400 + h * 3600 + mi * 60 + s) == rfc3339_text(y, m, d, h, mi, s),
{
    let days = days_from_civil(y, m, d);
    let t = days * 86_400 + h * 3600 + mi * 60 + s;
    let secs = h * 3600 + mi * 60 + s;
    lemma_date_in_year(y, m, d);
    lemma_days_before_year_monotone(y + 1, 10000);
    lemma_days_before_year_monotone(1970, y);
    assert(days >= 0);
    assert(t / 86_400 == days);
    assert(t % 86_400 == secs);
    assert(secs / 3600 == h);
    assert(secs % 3600 / 60 == mi);
    assert(secs % 60 == s);
    let w = (y, m, d);
    assert(valid_date(w.0, w.1, w.2) && days_from_civil(w.0, w.1, w.2) == days);
    let date = civil_of(days);
    lemma_dates_are_distinct(date.0, date.1, date.2, y, m, d);
}

} // verus!
