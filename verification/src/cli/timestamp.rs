//! UTC timestamps: Unix seconds to the proleptic Gregorian calendar, and
//! their ISO-8601 rendering (`YYYY-MM-DDTHH:MM:SS.sssZ`).
//!
//! The date is computed with Howard Hinnant's `civil_from_days` over
//! 400-year eras counted from 0000-03-01, and proved equal to the calendar
//! defined day by day: year lengths by the Gregorian leap rule, month
//! lengths by the usual table. Leap seconds are not represented.

use vstd::prelude::*;

use crate::text::{decimal, u64_to_string};

verus! {

// ── The calendar ──────────────────────────────────────────────────────────────

/// Gregorian leap year.
pub open spec fn is_leap_year(y: int) -> bool {
    y % 4 == 0 && (y % 100 != 0 || y % 400 == 0)
}

/// Days in year `y`.
pub open spec fn days_in_year(y: int) -> int {
    if is_leap_year(y) {
        366
    } else {
        365
    }
}

/// Days in month `m` (1–12) of year `y`.
pub open spec fn days_in_month(y: int, m: int) -> int {
    if m == 2 {
        if is_leap_year(y) {
            29
        } else {
            28
        }
    } else if m == 4 || m == 6 || m == 9 || m == 11 {
        30
    } else {
        31
    }
}

/// Days from 1970-01-01 to January 1st of year `y` (`y >= 1970`).
pub open spec fn days_before_year(y: int) -> int
    decreases y - 1970,
{
    if y <= 1970 {
        0
    } else {
        days_before_year(y - 1) + days_in_year(y - 1)
    }
}

/// Days from January 1st to the first of month `m` in year `y`.
pub open spec fn days_before_month(y: int, m: int) -> int
    decreases m,
{
    if m <= 1 {
        0
    } else {
        days_before_month(y, m - 1) + days_in_month(y, m - 1)
    }
}

/// `y-m-d` is a calendar date from 1970 on.
pub open spec fn is_civil_date(y: int, m: int, d: int) -> bool {
    &&& y >= 1970
    &&& 1 <= m <= 12
    &&& 1 <= d <= days_in_month(y, m)
}

/// Days from 1970-01-01 to `y-m-d`.
pub open spec fn epoch_day(y: int, m: int, d: int) -> int {
    days_before_year(y) + days_before_month(y, m) + d - 1
}

// ── Closed forms ──────────────────────────────────────────────────────────────

/// Leap days among years `1..=n`.
spec fn leaps(n: int) -> int {
    n / 4 - n / 100 + n / 400
}

proof fn lemma_leap_step(n: int)
    requires
        n >= 1,
    ensures
        leaps(n) - leaps(n - 1) == if is_leap_year(n) {
            1int
        } else {
            0int
        },
{
}

proof fn lemma_days_before_year(y: int)
    requires
        y >= 1970,
    ensures
        days_before_year(y) == 365 * (y - 1970) + leaps(y - 1) - 477,
    decreases y - 1970,
{
    if y > 1970 {
        lemma_days_before_year(y - 1);
        lemma_leap_step(y - 1);
    }
}

proof fn lemma_days_before_year_monotone(a: int, b: int)
    requires
        1970 <= a <= b,
    ensures
        days_before_year(a) <= days_before_year(b),
    decreases b - a,
{
    if a < b {
        lemma_days_before_year_monotone(a, b - 1);
    }
}

/// Days from March 1st to the first of the `mp`-th month after March.
spec fn march_offset(mp: int) -> int {
    (153 * mp + 2) / 5
}

proof fn lemma_days_before_month(y: int, m: int)
    requires
        1 <= m <= 12,
    ensures
        m >= 3 ==> days_before_month(y, m) == 59 + (if is_leap_year(y) {
            1int
        } else {
            0int
        }) + march_offset(m - 3),
        m == 1 ==> days_before_month(y, m) == 0,
        m == 2 ==> days_before_month(y, m) == 31,
{
    reveal_with_fuel(days_before_month, 13);
}

proof fn lemma_month_of_year(doy: u32)
    requires
        doy <= 365,
    ensures
        ({
            let mp = (5 * doy + 2) / 153;
            &&& mp <= 11
            &&& (153 * mp + 2) / 5 <= doy
            &&& doy < (153 * (mp + 1) + 2) / 5
        }),
{
    assert(doy <= 365 ==> ({
        let mp = (5 * doy + 2) / 153;
        &&& mp <= 11
        &&& (153 * mp + 2) / 5 <= doy
        &&& doy < (153 * (mp + 1) + 2) / 5
    })) by (bit_vector);
}

proof fn lemma_year_of_era(doe: u32)
    requires
        doe < 146097,
    ensures
        ({
            let yoe = (doe - doe / 1460 + doe / 36524 - doe / 146096) / 365;
            &&& yoe <= 399
            &&& 365 * yoe + yoe / 4 - yoe / 100 <= doe
            &&& doe < 365 * (yoe + 1) + (yoe + 1) / 4 - (yoe + 1) / 100 + (yoe + 1) / 400
        }),
{
    assert(doe < 146097 ==> ({
        let yoe = (doe - doe / 1460 + doe / 36524 - doe / 146096) / 365;
        &&& yoe <= 399
        &&& 365 * yoe + yoe / 4 - yoe / 100 <= doe
        &&& doe < 365 * (yoe + 1) + (yoe + 1) / 4 - (yoe + 1) / 100 + (yoe + 1) / 400
    })) by (bit_vector);
}

/// Days from 0000-03-01 to March 1st of year `y`.
spec fn march_day(y: int) -> int {
    365 * y + leaps(y)
}

/// The date Hinnant's algorithm produces for a March-based year `y_march`,
/// a day of that year `doy` and its month index `mp` (0 = March) lies on
/// the calendar and sits `march_day(y_march) + doy - 719468` days after
/// 1970-01-01.
proof fn lemma_assemble(y_march: int, doy: int, mp: int)
    requires
        y_march >= 1969,
        0 <= mp <= 11,
        march_offset(mp) <= doy < march_offset(mp + 1),
        doy < 365 + (if is_leap_year(y_march + 1) {
            1int
        } else {
            0int
        }),
        march_day(y_march) + doy >= 719468,
    ensures
        ({
            let m = if mp < 10 {
                mp + 3
            } else {
                mp - 9
            };
            let y = if m <= 2 {
                y_march + 1
            } else {
                y_march
            };
            let d = doy - march_offset(mp) + 1;
            &&& is_civil_date(y, m, d)
            &&& epoch_day(y, m, d) == march_day(y_march) + doy - 719468
        }),
{
    let m = if mp < 10 {
        mp + 3
    } else {
        mp - 9
    };
    let y = if m <= 2 {
        y_march + 1
    } else {
        y_march
    };
    let d = doy - march_offset(mp) + 1;
    lemma_leap_step(y_march);
    lemma_leap_step(y_march + 1);
    if y_march >= 1970 {
        lemma_days_before_year(y_march);
    }
    lemma_days_before_year(y_march + 1);
    lemma_days_before_month(y, m);
    if y_march == 1969 {
        // 1969-03-01 is 306 days before the epoch.
        assert(march_day(1969) == 719162);
        assert(mp >= 10);
    }
}

/// The intermediate values of the conversion describe a calendar date
/// `days` after the epoch.
proof fn lemma_civil_parts(days: int, era: int, yoe: int, doy: int, mp: int)
    requires
        days >= 0,
        era >= 0,
        0 <= yoe <= 399,
        days + 719468 == era * 146097 + (365 * yoe + yoe / 4 - yoe / 100) + doy,
        0 <= doy,
        doy + (365 * yoe + yoe / 4 - yoe / 100) < 365 * (yoe + 1) + (yoe + 1) / 4 - (yoe + 1) / 100 + (
        yoe + 1) / 400,
        0 <= mp <= 11,
        march_offset(mp) <= doy < march_offset(mp + 1),
    ensures
        ({
            let ym = yoe + era * 400;
            let m = if mp < 10 {
                mp + 3
            } else {
                mp - 9
            };
            let y = if m <= 2 {
                ym + 1
            } else {
                ym
            };
            let d = doy - march_offset(mp) + 1;
            &&& is_civil_date(y, m, d)
            &&& epoch_day(y, m, d) == days
        }),
{
    let ym = yoe + era * 400;
    assert(ym / 4 == era * 100 + yoe / 4);
    assert(ym / 100 == era * 4 + yoe / 100);
    assert(ym / 400 == era);
    assert(march_day(ym) == era * 146097 + 365 * yoe + yoe / 4 - yoe / 100);
    assert((ym + 1) / 4 == era * 100 + (yoe + 1) / 4);
    assert((ym + 1) / 100 == era * 4 + (yoe + 1) / 100);
    assert((ym + 1) / 400 == era + (yoe + 1) / 400);
    lemma_leap_step(ym + 1);
    if ym < 1969 {
        assert(march_day(ym) <= march_day(1968));
        assert(false);
    }
    lemma_assemble(ym, doy, mp);
}

proof fn lemma_days_before_month_monotone(y: int, a: int, b: int)
    requires
        a <= b,
    ensures
        days_before_month(y, a) <= days_before_month(y, b),
    decreases b - a,
{
    if a < b {
        lemma_days_before_month_monotone(y, a, b - 1);
        if b > 1 {
            assert(days_before_month(y, b) == days_before_month(y, b - 1) + days_in_month(y, b - 1));
        }
    }
}

proof fn lemma_day_of_year_bound(y: int, m: int, d: int)
    requires
        1 <= m <= 12,
        1 <= d <= days_in_month(y, m),
    ensures
        days_before_month(y, m) + d - 1 < days_in_year(y),
{
    lemma_days_before_month(y, m);
}

/// A day count names at most one calendar date: two dates the same number
/// of days after 1970-01-01 are the same date. With it, the contract of
/// [`civil_from_unix_secs`] determines its result.
pub proof fn law_epoch_day_unique(y1: int, m1: int, d1: int, y2: int, m2: int, d2: int)
    requires
        is_civil_date(y1, m1, d1),
        is_civil_date(y2, m2, d2),
        epoch_day(y1, m1, d1) == epoch_day(y2, m2, d2),
    ensures
        y1 == y2 && m1 == m2 && d1 == d2,
{
    lemma_day_of_year_bound(y1, m1, d1);
    lemma_day_of_year_bound(y2, m2, d2);
    if y1 < y2 {
        lemma_days_before_year_monotone(y1 + 1, y2);
        lemma_days_before_month_monotone(y2, 0, m2);
        assert(false);
    }
    if y2 < y1 {
        lemma_days_before_year_monotone(y2 + 1, y1);
        lemma_days_before_month_monotone(y1, 0, m1);
        assert(false);
    }
    if m1 < m2 {
        lemma_days_before_month_monotone(y1, m1 + 1, m2);
        assert(false);
    }
    if m2 < m1 {
        lemma_days_before_month_monotone(y1, m2 + 1, m1);
        assert(false);
    }
}

// ── Conversion ────────────────────────────────────────────────────────────────

/// Convert a Unix timestamp (seconds since 1970-01-01 UTC) into
/// `(year, month, day, hour, minute, second)`. The date must fall before
/// the year 2^32, whose number does not fit the result.
pub fn civil_from_unix_secs(secs: u64) -> (r: (u32, u32, u32, u32, u32, u32))
    requires
        secs / 86400 < days_before_year(4294967296),
    ensures
        is_civil_date(r.0 as int, r.1 as int, r.2 as int),
        epoch_day(r.0 as int, r.1 as int, r.2 as int) == secs / 86400,
        r.3 == (secs / 3600) % 24,
        r.4 == (secs / 60) % 60,
        r.5 == secs % 60,
{
    let se = (secs % 60) as u32;
    let mins = secs / 60;
    let mi = (mins % 60) as u32;
    let hours = mins / 60;
    let h = (hours % 24) as u32;
    let days = hours / 24;
    assert(hours == secs / 3600);
    assert(days == secs / 86400);

    // Days are counted from 0000-03-01, in eras of 400 years.
    let z: u64 = days + 719468;
    let era: u64 = z / 146097;
    let doe: u64 = z - era * 146097;
    proof {
        lemma_year_of_era(doe as u32);
    }
    let yoe: u64 = (doe - doe / 1460 + doe / 36524 - doe / 146096) / 365;
    let y_march: u64 = yoe + era * 400;
    let doy: u64 = doe - (365 * yoe + yoe / 4 - yoe / 100);
    proof {
        lemma_month_of_year(doy as u32);
    }
    let mp: u64 = (5 * doy + 2) / 153;
    let da = (doy - (153 * mp + 2) / 5 + 1) as u32;
    let mo = (if mp < 10 {
        mp + 3
    } else {
        mp - 9
    }) as u32;
    let y: u64 = if mo <= 2 {
        y_march + 1
    } else {
        y_march
    };
    proof {
        lemma_civil_parts(days as int, era as int, yoe as int, doy as int, mp as int);
        if y >= 4294967296 {
            lemma_days_before_year_monotone(4294967296, y as int);
            lemma_days_before_month(y as int, mo as int);
            assert(false);
        }
    }
    (y as u32, mo, da, h, mi, se)
}

/// Days from 1970-01-01 to 4294967296-01-01: the first day whose year does
/// not fit in `u32`.
pub const DAYS_TO_YEAR_2_POW_32: u64 = 1568703873082;

proof fn lemma_days_bound()
    ensures
        days_before_year(4294967296) == DAYS_TO_YEAR_2_POW_32,
{
    lemma_days_before_year(4294967296);
}

// ── ISO-8601 ──────────────────────────────────────────────────────────────────

/// `n` in decimal, left-padded with zeros to `width` characters.
pub open spec fn zero_padded(n: nat, width: nat) -> Seq<char> {
    let digits = decimal(n);
    if digits.len() >= width {
        digits
    } else {
        Seq::new((width - digits.len()) as nat, |i: int| '0') + digits
    }
}

fn padded(n: u64, width: usize) -> (s: String)
    ensures
        s@ == zero_padded(n as nat, width as nat),
{
    let digits = u64_to_string(n);
    let len = digits.as_str().unicode_len();
    let mut s = String::new();
    let mut k: usize = len;
    proof {
        reveal_strlit("0");
        assert(s@ =~= Seq::new(0, |i: int| '0'));
    }
    while k < width
        invariant
            len == decimal(n as nat).len(),
            len <= k,
            len <= width ==> k <= width,
            len >= width ==> k == len,
            s@ == Seq::new((k - len) as nat, |i: int| '0'),
        decreases width - k,
    {
        proof {
            reveal_strlit("0");
        }
        s.append("0");
        assert(s@ =~= Seq::new((k + 1 - len) as nat, |i: int| '0'));
        k = k + 1;
    }
    let ghost pad = s@;
    s.append(digits.as_str());
    proof {
        if len >= width {
            assert(pad =~= Seq::<char>::empty());
            assert(s@ =~= decimal(n as nat));
        } else {
            assert(k == width);
        }
    }
    s
}

/// The ISO-8601 text `YYYY-MM-DDTHH:MM:SS.sssZ` of a date, a time of day
/// and milliseconds.
pub open spec fn iso8601_text(
    y: nat,
    mo: nat,
    d: nat,
    h: nat,
    mi: nat,
    s: nat,
    millis: nat,
) -> Seq<char> {
    zero_padded(y, 4) + "-"@ + zero_padded(mo, 2) + "-"@ + zero_padded(d, 2) + "T"@ + zero_padded(
        h,
        2,
    ) + ":"@ + zero_padded(mi, 2) + ":"@ + zero_padded(s, 2) + "."@ + zero_padded(millis, 3)
        + "Z"@
}

/// `t` is the ISO-8601 text of Unix time `secs` and `millis` milliseconds.
pub open spec fn is_timestamp_of(t: Seq<char>, secs: u64, millis: u32) -> bool {
    exists|y: u32, mo: u32, d: u32|
        {
            &&& is_civil_date(y as int, mo as int, d as int)
            &&& epoch_day(y as int, mo as int, d as int) == secs / 86400
            &&& t == iso8601_text(
                y as nat,
                mo as nat,
                d as nat,
                ((secs / 3600) % 24) as nat,
                ((secs / 60) % 60) as nat,
                (secs % 60) as nat,
                millis as nat,
            )
        }
}

/// `t` is the ISO-8601 text of some Unix time with its milliseconds.
pub open spec fn is_some_timestamp(t: Seq<char>) -> bool {
    exists|secs: u64, millis: u32| millis < 1000 && #[trigger] is_timestamp_of(t, secs, millis)
}

/// Format a Unix timestamp and its milliseconds as ISO-8601 UTC with
/// millisecond precision.
pub fn iso8601_from_unix(secs: u64, millis: u32) -> (s: String)
    requires
        secs / 86400 < days_before_year(4294967296),
    ensures
        is_timestamp_of(s@, secs, millis),
{
    let (y, mo, da, h, mi, se) = civil_from_unix_secs(secs);
    let mut s = padded(y as u64, 4);
    s.append("-");
    s.append(padded(mo as u64, 2).as_str());
    s.append("-");
    s.append(padded(da as u64, 2).as_str());
    s.append("T");
    s.append(padded(h as u64, 2).as_str());
    s.append(":");
    s.append(padded(mi as u64, 2).as_str());
    s.append(":");
    s.append(padded(se as u64, 2).as_str());
    s.append(".");
    s.append(padded(millis as u64, 3).as_str());
    s.append("Z");
    assert(s@ == iso8601_text(
        y as nat,
        mo as nat,
        da as nat,
        h as nat,
        mi as nat,
        se as nat,
        millis as nat,
    ));
    s
}

/// Wraps `SystemTime::now().duration_since(UNIX_EPOCH)`: whole seconds and
/// the milliseconds past them, or `None` when the clock reads earlier than
/// the epoch. The reading depends on the clock; only that the milliseconds
/// are below 1000 is stated.
#[verifier::external_body]
fn unix_time_now() -> (r: Option<(u64, u32)>)
    ensures
        r matches Some((_, ms)) ==> ms < 1000,
{
    match std::time::SystemTime::now().duration_since(std::time::UNIX_EPOCH) {
        Ok(d) => Some((d.as_secs(), d.subsec_millis())),
        Err(_) => None,
    }
}

/// The current time as ISO-8601 UTC with millisecond precision; `None` when
/// the clock reads before the epoch or beyond the last representable year.
pub fn iso8601_now() -> (r: Option<String>)
    ensures
        r matches Some(s) ==> is_some_timestamp(s@),
{
    let (secs, millis) = match unix_time_now() {
        Some(t) => t,
        None => {
            return None;
        },
    };
    if secs / 86400 >= DAYS_TO_YEAR_2_POW_32 {
        return None;
    }
    proof {
        lemma_days_bound();
    }
    let text = iso8601_from_unix(secs, millis);
    assert(millis < 1000);
    assert(is_timestamp_of(text@, secs, millis));
    assert(is_some_timestamp(text@));
    Some(text)
}

} // verus!
