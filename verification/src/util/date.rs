use vstd::prelude::*;
use vstd::string::*;
use crate::util::text::{digit, digit_str};
use vstd::arithmetic::div_mod::lemma_fundamental_div_mod_converse;

verus! {

// ---------------------------------------------------------------------------
// The proleptic Gregorian calendar, counted in days from 1970-01-01.
// ---------------------------------------------------------------------------

/// A year of the Gregorian calendar is a leap year when it is divisible by 4,
/// except for centuries that are not divisible by 400.
pub open spec fn is_leap_year(y: int) -> bool {
    y % 4 == 0 && (y % 100 != 0 || y % 400 == 0)
}

/// Number of days of month `m` (1 = January) in year `y`.
pub open spec fn days_in_month(y: int, m: int) -> int {
    if m == 2 {
        if is_leap_year(y) { 29 } else { 28 }
    } else if m == 4 || m == 6 || m == 9 || m == 11 {
        30
    } else {
        31
    }
}

/// Number of days in the months of year `y` that come before month `m`.
pub open spec fn days_before_month(y: int, m: int) -> int
    decreases m,
{
    if m <= 1 {
        0
    } else {
        days_before_month(y, m - 1) + days_in_month(y, m - 1)
    }
}

/// Number of leap years among the years `1 ..= y`, counted by inclusion and exclusion
/// of the multiples of 4, 100 and 400.
pub open spec fn leap_years_through(y: int) -> int {
    y / 4 - y / 100 + y / 400
}

/// Number of days from 1970-01-01 to the first of January of year `y`:
/// 365 for each year, plus one for each leap year in between.
pub open spec fn days_before_year(y: int) -> int {
    365 * (y - 1970) + leap_years_through(y - 1) - leap_years_through(1969)
}

/// Number of days from 1970-01-01 to the date `y`-`m`-`d`.
pub open spec fn days_from_epoch(y: int, m: int, d: int) -> int {
    days_before_year(y) + days_before_month(y, m) + d - 1
}

/// `y`-`m`-`d` names a day of the calendar.
pub open spec fn is_valid_date(y: int, m: int, d: int) -> bool {
    1 <= m <= 12 && 1 <= d <= days_in_month(y, m)
}

/// `(y, m, d)` is the calendar date of the day `n` days after 1970-01-01.
pub open spec fn is_civil_date(n: int, y: int, m: int, d: int) -> bool {
    y >= 1970 && is_valid_date(y, m, d) && days_from_epoch(y, m, d) == n
}

/// The calendar date of the day `n` days after 1970-01-01 (see `lemma_civil_date_unique`).
pub open spec fn civil_date_of(n: int) -> (int, int, int) {
    choose|t: (int, int, int)| is_civil_date(n, t.0, t.1, t.2)
}

// Days counted from 0000-03-01, with years starting in March (the leap day is then
// the last day of a year), as the conversion below works.
spec fn march_days_before(y: int) -> int {
    365 * y + y / 4 - y / 100 + y / 400
}

spec fn march_month_start(mp: int) -> int {
    (153 * mp + 2) / 5
}

proof fn lemma_days_before_month_table(y: int)
    ensures
        ({
            let l: int = if is_leap_year(y) { 1 } else { 0 };
            &&& days_before_month(y, 1) == 0
            &&& days_before_month(y, 2) == 31
            &&& days_before_month(y, 3) == 59 + l
            &&& days_before_month(y, 4) == 90 + l
            &&& days_before_month(y, 5) == 120 + l
            &&& days_before_month(y, 6) == 151 + l
            &&& days_before_month(y, 7) == 181 + l
            &&& days_before_month(y, 8) == 212 + l
            &&& days_before_month(y, 9) == 243 + l
            &&& days_before_month(y, 10) == 273 + l
            &&& days_before_month(y, 11) == 304 + l
            &&& days_before_month(y, 12) == 334 + l
            &&& days_before_month(y, 13) == 365 + l
        }),
{
    reveal_with_fuel(days_before_month, 14);
}

proof fn lemma_leap_count_step(y: int)
    requires
        y >= 1,
    ensures
        leap_years_through(y) - leap_years_through(y - 1) == (if is_leap_year(y) { 1int } else { 0 }),
{
}

/// A year has 365 days, 366 when it is a leap year.
pub proof fn lemma_year_length(y: int)
    requires
        y >= 1970,
    ensures
        days_before_year(y + 1) - days_before_year(y) == 365 + (if is_leap_year(y) { 1int } else { 0 }),
{
    lemma_leap_count_step(y);
}

proof fn lemma_days_before_year_monotonic(a: int, b: int)
    requires
        1970 <= a <= b,
    ensures
        days_before_year(a) <= days_before_year(b),
    decreases b - a,
{
    if a < b {
        lemma_days_before_year_monotonic(a, b - 1);
        lemma_year_length(b - 1);
    }
}

proof fn lemma_date_within_year(y: int, m: int, d: int)
    requires
        y >= 1970,
        is_valid_date(y, m, d),
    ensures
        days_before_year(y) <= days_from_epoch(y, m, d) < days_before_year(y + 1),
{
    lemma_days_before_month_table(y);
    lemma_year_length(y);
}

/// Each day after 1970-01-01 has at most one calendar date.
pub proof fn lemma_civil_date_unique(n: int, y1: int, m1: int, d1: int, y2: int, m2: int, d2: int)
    requires
        is_civil_date(n, y1, m1, d1),
        is_civil_date(n, y2, m2, d2),
    ensures
        y1 == y2 && m1 == m2 && d1 == d2,
{
    lemma_date_within_year(y1, m1, d1);
    lemma_date_within_year(y2, m2, d2);
    if y1 < y2 {
        lemma_days_before_year_monotonic(y1 + 1, y2);
    } else if y2 < y1 {
        lemma_days_before_year_monotonic(y2 + 1, y1);
    }
    assert(y1 == y2);
    lemma_days_before_month_table(y1);
}


#[verifier::spinoff_prover]
#[verifier::rlimit(30)]
proof fn lemma_year_of_era(doe: int)
    requires
        0 <= doe < 146097,
    ensures
        ({
            let yoe = (doe - doe / 1460 + doe / 36524 - doe / 146096) / 365;
            &&& 0 <= yoe < 400
            &&& march_days_before(yoe) <= doe < march_days_before(yoe + 1)
        }),
{
}

#[verifier::spinoff_prover]
#[verifier::rlimit(30)]
proof fn lemma_month_of_year(doy: int)
    requires
        0 <= doy < 366,
    ensures
        ({
            let mp = (5 * doy + 2) / 153;
            &&& 0 <= mp < 12
            &&& march_month_start(mp) <= doy < march_month_start(mp + 1)
        }),
{
}

// A date given in the March-based count (year `yc` starting in March, month index
// `mp` from March, day offset `dd`) is the civil date the conversion computes.
proof fn lemma_march_to_civil(yc: int, mp: int, dd: int)
    requires
        yc >= 0,
        0 <= mp < 12,
        0 <= dd,
        march_month_start(mp) + dd < march_month_start(mp + 1),
        march_month_start(mp) + dd < march_days_before(yc + 1) - march_days_before(yc),
    ensures
        ({
            let m = if mp < 10 { mp + 3 } else { mp - 9 };
            let y = if m <= 2 { yc + 1 } else { yc };
            &&& is_valid_date(y, m, dd + 1)
            &&& days_from_epoch(y, m, dd + 1) + 719468 == march_days_before(yc) + march_month_start(mp) + dd
        }),
{
    let m = if mp < 10 { mp + 3 } else { mp - 9 };
    let y = if m <= 2 { yc + 1 } else { yc };
    lemma_days_before_month_table(y);
    if yc >= 1 {
        lemma_leap_count_step(yc);
    }
    lemma_leap_count_step(yc + 1);
}

proof fn lemma_era_shift(era: int, yoe: int)
    requires
        era >= 0,
        0 <= yoe < 400,
    ensures
        march_days_before(yoe + era * 400) == 146097 * era + march_days_before(yoe),
        march_days_before(yoe + era * 400 + 1) - march_days_before(yoe + era * 400)
            == march_days_before(yoe + 1) - march_days_before(yoe),
{
    let y = yoe + era * 400;
    lemma_fundamental_div_mod_converse(y, 4, era * 100 + yoe / 4, yoe % 4);
    lemma_fundamental_div_mod_converse(y, 100, era * 4 + yoe / 100, yoe % 100);
    lemma_fundamental_div_mod_converse(y, 400, era + yoe / 400, yoe % 400);
    lemma_fundamental_div_mod_converse(y + 1, 4, era * 100 + (yoe + 1) / 4, (yoe + 1) % 4);
    lemma_fundamental_div_mod_converse(y + 1, 100, era * 4 + (yoe + 1) / 100, (yoe + 1) % 100);
    lemma_fundamental_div_mod_converse(y + 1, 400, era + (yoe + 1) / 400, (yoe + 1) % 400);
}

/// Every day from 1970-01-01 on has a calendar date, the one that `civil_date_of` names.
pub proof fn lemma_civil_date_exists(n: int)
    requires
        n >= 0,
    ensures
        is_civil_date(n, civil_date_of(n).0, civil_date_of(n).1, civil_date_of(n).2),
{
    let z = n + 719468;
    let era = z / 146097;
    let doe = z - era * 146097;
    lemma_year_of_era(doe);
    let yoe = (doe - doe / 1460 + doe / 36524 - doe / 146096) / 365;
    let doy = doe - march_days_before(yoe);
    assert(doy < 366) by {
        lemma_era_shift(era, yoe);
    }
    lemma_month_of_year(doy);
    let mp = (5 * doy + 2) / 153;
    lemma_era_shift(era, yoe);
    lemma_march_to_civil(yoe + era * 400, mp, doy - march_month_start(mp));
    let m = if mp < 10 { mp + 3 } else { mp - 9 };
    let y = if m <= 2 { yoe + era * 400 + 1 } else { yoe + era * 400 };
    lemma_civil_date_of(n, y, m, doy - march_month_start(mp) + 1);
}

/// The date that `civil_date_of` names is the one calendar date of that day.
pub proof fn lemma_civil_date_of(n: int, y: int, m: int, d: int)
    requires
        is_civil_date(n, y, m, d),
    ensures
        civil_date_of(n) == (y, m, d),
{
    let w = (y, m, d);
    assert(is_civil_date(n, w.0, w.1, w.2));
    let t = civil_date_of(n);
    lemma_civil_date_unique(n, y, m, d, t.0, t.1, t.2);
}

// ---------------------------------------------------------------------------
// The system clock
// ---------------------------------------------------------------------------

#[verifier::external_type_specification]
#[verifier::external_body]
pub struct ExSystemTime(std::time::SystemTime);

/// Calls `SystemTime::now`. The clock's reading is not known here: nothing is stated of it.
#[verifier::external_body]
pub(crate) fn system_now() -> std::time::SystemTime {
    std::time::SystemTime::now()
}

/// What `SystemTime::duration_since(UNIX_EPOCH)` gives for `t`, `Err` taken as `None`.
/// It depends on `t` alone.
pub uninterp spec fn elapsed_of(t: std::time::SystemTime) -> Option<std::time::Duration>;

/// What `Duration::as_secs` gives for `d`: its whole seconds. It depends on `d` alone.
pub uninterp spec fn secs_of(d: std::time::Duration) -> u64;

/// Calls `SystemTime::duration_since(UNIX_EPOCH)`: the time elapsed since the epoch,
/// `None` for a time before it. The result is stated as `elapsed_of(time)`.
#[verifier::external_body]
fn elapsed_since_epoch(time: std::time::SystemTime) -> (r: Option<std::time::Duration>)
    ensures
        r == elapsed_of(time),
{
    time.duration_since(std::time::UNIX_EPOCH).ok()
}

/// Calls `Duration::as_secs`: the whole seconds of `d`, stated as `secs_of(*d)`.
#[verifier::external_body]
fn whole_secs(d: &std::time::Duration) -> (r: u64)
    ensures
        r == secs_of(*d),
{
    d.as_secs()
}

/// Whole seconds from 1970-01-01 00:00:00 UTC to `time`; 0 for a time before then.
pub open spec fn epoch_secs_spec(time: std::time::SystemTime) -> u64 {
    match elapsed_of(time) {
        Some(d) => secs_of(d),
        None => 0,
    }
}

/// Whole seconds from 1970-01-01 00:00:00 UTC to `time`; 0 for a time before then.
pub(crate) fn epoch_secs_of(time: std::time::SystemTime) -> (r: u64)
    ensures
        r == epoch_secs_spec(time),
{
    match elapsed_since_epoch(time) {
        Some(d) => whole_secs(&d),
        None => 0,
    }
}

// ---------------------------------------------------------------------------
// A point in time, broken down into its UTC calendar fields.
// ---------------------------------------------------------------------------

/// The calendar fields of a UTC date and time of day, with the number of whole days since
/// 1970-01-01: what a `Date` is seen as in contracts.
pub struct DateFields {
    pub year: u32,
    pub month: u8,
    pub day: u8,
    pub hour: u8,
    pub minute: u8,
    pub second: u8,
    pub epoch_days: u64,
}

impl DateFields {
    /// The fields stay in the ranges that a calendar date and a time of day allow.
    pub open spec fn wf(&self) -> bool {
        &&& 1 <= self.month <= 12
        &&& 1 <= self.day <= 31
        &&& self.hour < 24
        &&& self.minute < 60
        &&& self.second < 60
    }
}

/// A UTC date and time of day, with the number of whole days since 1970-01-01.
/// Its fields always lie in the ranges that `DateFields::wf` allows.
#[derive(Debug)]
pub struct Date {
    year: u32,
    month: u8,
    day: u8,
    hour: u8,
    minute: u8,
    second: u8,
    epoch_days: u64,
}

impl View for Date {
    type V = DateFields;

    closed spec fn view(&self) -> DateFields {
        DateFields {
            year: self.year,
            month: self.month,
            day: self.day,
            hour: self.hour,
            minute: self.minute,
            second: self.second,
            epoch_days: self.epoch_days,
        }
    }
}

/// The date and time `secs` seconds after 1970-01-01 00:00:00 UTC.
/// The year is kept modulo 2^32, as a `u32` holds it.
pub open spec fn date_of_secs(secs: int) -> DateFields {
    let days = secs / 86400;
    let civil = civil_date_of(days);
    DateFields {
        year: civil.0 as u32,
        month: civil.1 as u8,
        day: civil.2 as u8,
        hour: ((secs / 3600) % 24) as u8,
        minute: ((secs / 60) % 60) as u8,
        second: (secs % 60) as u8,
        epoch_days: days as u64,
    }
}

/// The English abbreviation of the weekday of the day `i` days (modulo 7) after a Thursday.
pub open spec fn weekday_abbrev(i: int) -> Seq<char> {
    if i == 0 {
        "Thu"@
    } else if i == 1 {
        "Fri"@
    } else if i == 2 {
        "Sat"@
    } else if i == 3 {
        "Sun"@
    } else if i == 4 {
        "Mon"@
    } else if i == 5 {
        "Tue"@
    } else {
        "Wed"@
    }
}

/// The English abbreviation of month `m` (1 = January).
pub open spec fn month_abbrev(m: int) -> Seq<char> {
    if m == 1 {
        "Jan"@
    } else if m == 2 {
        "Feb"@
    } else if m == 3 {
        "Mar"@
    } else if m == 4 {
        "Apr"@
    } else if m == 5 {
        "May"@
    } else if m == 6 {
        "Jun"@
    } else if m == 7 {
        "Jul"@
    } else if m == 8 {
        "Aug"@
    } else if m == 9 {
        "Sep"@
    } else if m == 10 {
        "Oct"@
    } else if m == 11 {
        "Nov"@
    } else {
        "Dec"@
    }
}

/// The last two decimal digits of `v`.
pub open spec fn two_digits(v: int) -> Seq<char> {
    seq![digit((v / 10) % 10), digit(v % 10)]
}

/// The last four decimal digits of `v`.
pub open spec fn four_digits(v: int) -> Seq<char> {
    seq![digit((v / 1000) % 10), digit((v / 100) % 10), digit((v / 10) % 10), digit(v % 10)]
}

/// The RFC 1123 form of `d`, such as `Mon, 22 Nov 1990 00:00:00 GMT`.
pub open spec fn rfc1123_text(d: DateFields) -> Seq<char> {
    weekday_abbrev((d.epoch_days % 7) as int) + ", "@ + two_digits(d.day as int) + " "@
        + month_abbrev(d.month as int) + " "@ + four_digits(d.year as int) + " "@
        + two_digits(d.hour as int) + ":"@ + two_digits(d.minute as int) + ":"@
        + two_digits(d.second as int) + " GMT"@
}

/// The RFC 1123 form of a date always has 29 characters, as its fixed layout allots.
pub proof fn law_rfc1123_length(d: DateFields)
    ensures
        rfc1123_text(d).len() == 29,
{
    reveal_strlit("Thu");
    reveal_strlit("Fri");
    reveal_strlit("Sat");
    reveal_strlit("Sun");
    reveal_strlit("Mon");
    reveal_strlit("Tue");
    reveal_strlit("Wed");
    reveal_strlit("Jan");
    reveal_strlit("Feb");
    reveal_strlit("Mar");
    reveal_strlit("Apr");
    reveal_strlit("May");
    reveal_strlit("Jun");
    reveal_strlit("Jul");
    reveal_strlit("Aug");
    reveal_strlit("Sep");
    reveal_strlit("Oct");
    reveal_strlit("Nov");
    reveal_strlit("Dec");
    reveal_strlit(", ");
    reveal_strlit(" ");
    reveal_strlit(":");
    reveal_strlit(" GMT");
}

/// The month of the RFC 1123 form, its characters 8 to 10, is the English abbreviation
/// of the calendar month: Jan, Feb, Mar, Apr, May, Jun, Jul, Aug, Sep, Oct, Nov, Dec.
pub proof fn law_rfc1123_month(d: DateFields)
    requires
        d.wf(),
    ensures
        d.month == 1 ==> rfc1123_text(d).subrange(8, 11) == seq!['J', 'a', 'n'],
        d.month == 2 ==> rfc1123_text(d).subrange(8, 11) == seq!['F', 'e', 'b'],
        d.month == 3 ==> rfc1123_text(d).subrange(8, 11) == seq!['M', 'a', 'r'],
        d.month == 4 ==> rfc1123_text(d).subrange(8, 11) == seq!['A', 'p', 'r'],
        d.month == 5 ==> rfc1123_text(d).subrange(8, 11) == seq!['M', 'a', 'y'],
        d.month == 6 ==> rfc1123_text(d).subrange(8, 11) == seq!['J', 'u', 'n'],
        d.month == 7 ==> rfc1123_text(d).subrange(8, 11) == seq!['J', 'u', 'l'],
        d.month == 8 ==> rfc1123_text(d).subrange(8, 11) == seq!['A', 'u', 'g'],
        d.month == 9 ==> rfc1123_text(d).subrange(8, 11) == seq!['S', 'e', 'p'],
        d.month == 10 ==> rfc1123_text(d).subrange(8, 11) == seq!['O', 'c', 't'],
        d.month == 11 ==> rfc1123_text(d).subrange(8, 11) == seq!['N', 'o', 'v'],
        d.month == 12 ==> rfc1123_text(d).subrange(8, 11) == seq!['D', 'e', 'c'],
{
    reveal_strlit("Thu");
    reveal_strlit("Fri");
    reveal_strlit("Sat");
    reveal_strlit("Sun");
    reveal_strlit("Mon");
    reveal_strlit("Tue");
    reveal_strlit("Wed");
    reveal_strlit("Jan");
    reveal_strlit("Feb");
    reveal_strlit("Mar");
    reveal_strlit("Apr");
    reveal_strlit("May");
    reveal_strlit("Jun");
    reveal_strlit("Jul");
    reveal_strlit("Aug");
    reveal_strlit("Sep");
    reveal_strlit("Oct");
    reveal_strlit("Nov");
    reveal_strlit("Dec");
    reveal_strlit(", ");
    reveal_strlit(" ");
    reveal_strlit(":");
    reveal_strlit(" GMT");
    let w = weekday_abbrev((d.epoch_days % 7) as int);
    let m = month_abbrev(d.month as int);
    assert(w.len() == 3);
    assert(m.len() == 3);
    assert(rfc1123_text(d).subrange(8, 11) =~= m);
    assert(m =~= if d.month == 1 {
        seq!['J', 'a', 'n']
    } else if d.month == 2 {
        seq!['F', 'e', 'b']
    } else if d.month == 3 {
        seq!['M', 'a', 'r']
    } else if d.month == 4 {
        seq!['A', 'p', 'r']
    } else if d.month == 5 {
        seq!['M', 'a', 'y']
    } else if d.month == 6 {
        seq!['J', 'u', 'n']
    } else if d.month == 7 {
        seq!['J', 'u', 'l']
    } else if d.month == 8 {
        seq!['A', 'u', 'g']
    } else if d.month == 9 {
        seq!['S', 'e', 'p']
    } else if d.month == 10 {
        seq!['O', 'c', 't']
    } else if d.month == 11 {
        seq!['N', 'o', 'v']
    } else {
        seq!['D', 'e', 'c']
    });
}

/// The weekday of the RFC 1123 form, its first three characters, goes round Thu, Fri, Sat,
/// Sun, Mon, Tue, Wed from 1970-01-01, a Thursday.
pub proof fn law_rfc1123_weekday(d: DateFields)
    ensures
        d.epoch_days % 7 == 0 ==> rfc1123_text(d).take(3) == seq!['T', 'h', 'u'],
        d.epoch_days % 7 == 1 ==> rfc1123_text(d).take(3) == seq!['F', 'r', 'i'],
        d.epoch_days % 7 == 2 ==> rfc1123_text(d).take(3) == seq!['S', 'a', 't'],
        d.epoch_days % 7 == 3 ==> rfc1123_text(d).take(3) == seq!['S', 'u', 'n'],
        d.epoch_days % 7 == 4 ==> rfc1123_text(d).take(3) == seq!['M', 'o', 'n'],
        d.epoch_days % 7 == 5 ==> rfc1123_text(d).take(3) == seq!['T', 'u', 'e'],
        d.epoch_days % 7 == 6 ==> rfc1123_text(d).take(3) == seq!['W', 'e', 'd'],
{
    reveal_strlit("Thu");
    reveal_strlit("Fri");
    reveal_strlit("Sat");
    reveal_strlit("Sun");
    reveal_strlit("Mon");
    reveal_strlit("Tue");
    reveal_strlit("Wed");
    reveal_strlit("Jan");
    reveal_strlit("Feb");
    reveal_strlit("Mar");
    reveal_strlit("Apr");
    reveal_strlit("May");
    reveal_strlit("Jun");
    reveal_strlit("Jul");
    reveal_strlit("Aug");
    reveal_strlit("Sep");
    reveal_strlit("Oct");
    reveal_strlit("Nov");
    reveal_strlit("Dec");
    reveal_strlit(", ");
    reveal_strlit(" ");
    reveal_strlit(":");
    reveal_strlit(" GMT");
    let w = weekday_abbrev((d.epoch_days % 7) as int);
    assert(w.len() == 3);
    assert(rfc1123_text(d).take(3) =~= w);
    assert(w =~= if d.epoch_days % 7 == 0 {
        seq!['T', 'h', 'u']
    } else if d.epoch_days % 7 == 1 {
        seq!['F', 'r', 'i']
    } else if d.epoch_days % 7 == 2 {
        seq!['S', 'a', 't']
    } else if d.epoch_days % 7 == 3 {
        seq!['S', 'u', 'n']
    } else if d.epoch_days % 7 == 4 {
        seq!['M', 'o', 'n']
    } else if d.epoch_days % 7 == 5 {
        seq!['T', 'u', 'e']
    } else {
        seq!['W', 'e', 'd']
    });
}

fn weekday_str(i: u64) -> (r: &'static str)
    requires
        i < 7,
    ensures
        r@ == weekday_abbrev(i as int),
{
    match i {
        0 => "Thu",
        1 => "Fri",
        2 => "Sat",
        3 => "Sun",
        4 => "Mon",
        5 => "Tue",
        _ => "Wed",
    }
}

fn month_str(m: u8) -> (r: &'static str)
    requires
        1 <= m <= 12,
    ensures
        r@ == month_abbrev(m as int),
{
    match m {
        1 => "Jan",
        2 => "Feb",
        3 => "Mar",
        4 => "Apr",
        5 => "May",
        6 => "Jun",
        7 => "Jul",
        8 => "Aug",
        9 => "Sep",
        10 => "Oct",
        11 => "Nov",
        _ => "Dec",
    }
}

fn push_two_digits(s: &mut String, v: u32)
    ensures
        final(s)@ == old(s)@ + two_digits(v as int),
{
    s.append(digit_str((v / 10) % 10));
    s.append(digit_str(v % 10));
}

impl Date {
    #[verifier::type_invariant]
    spec fn inv(&self) -> bool {
        self@.wf()
    }

    /// The year.
    pub fn year(&self) -> (r: u32)
        ensures
            r == self@.year,
    {
        self.year
    }

    /// The month, 1 for January.
    pub fn month(&self) -> (r: u8)
        ensures
            r == self@.month,
    {
        self.month
    }

    /// The day of the month, from 1.
    pub fn day(&self) -> (r: u8)
        ensures
            r == self@.day,
    {
        self.day
    }

    /// The hour of the day.
    pub fn hour(&self) -> (r: u8)
        ensures
            r == self@.hour,
    {
        self.hour
    }

    /// The minute of the hour.
    pub fn minute(&self) -> (r: u8)
        ensures
            r == self@.minute,
    {
        self.minute
    }

    /// The second of the minute.
    pub fn second(&self) -> (r: u8)
        ensures
            r == self@.second,
    {
        self.second
    }

    /// The number of whole days since 1970-01-01.
    pub fn epoch_days(&self) -> (r: u64)
        ensures
            r == self@.epoch_days,
    {
        self.epoch_days
    }

    /// The calendar date (year, month, day) of the day `days` days after 1970-01-01.
    #[verifier::spinoff_prover]
    #[verifier::rlimit(40)]
    pub fn year_and_date(days: u64) -> (r: (u64, u64, u64))
        requires
            days <= u64::MAX - 719468,
        ensures
            is_civil_date(days as int, r.0 as int, r.1 as int, r.2 as int),
            (r.0 as int, r.1 as int, r.2 as int) == civil_date_of(days as int),
    {
        // Shift epoch from 1970-01-01 to 0000-03-01 layout
        let z = days + 719468;
        let era = z / 146097;
        let doe = z - era * 146097;
        let yoe = (doe - doe / 1460 + doe / 36524 - doe / 146096) / 365;
        proof {
            lemma_year_of_era(doe as int);
        }
        let year = yoe + era * 400;
        let doy = doe - (365 * yoe + yoe / 4 - yoe / 100);
        let mp = (5 * doy + 2) / 153;
        proof {
            lemma_month_of_year(doy as int);
        }
        let d = doy - (153 * mp + 2) / 5 + 1;
        let m = if mp < 10 { mp + 3 } else { mp - 9 };
        let year = year + if m <= 2 { 1 } else { 0 };
        proof {
            lemma_era_shift(era as int, yoe as int);
            lemma_march_to_civil(yoe + era * 400, mp as int, doy - march_month_start(mp as int));
            lemma_civil_date_of(days as int, year as int, m as int, d as int);
        }
        (year, m, d)
    }

    /// The date and time of `time`, or of 1970-01-01 00:00:00 UTC for a time before it.
    pub fn from_system_time(time: std::time::SystemTime) -> (d: Date)
        ensures
            d@ == date_of_secs(epoch_secs_spec(time) as int),
    {
        let secs = epoch_secs_of(time);
        Date::from_epoch_secs(secs)
    }

    /// The date and time `secs` seconds after 1970-01-01 00:00:00 UTC.
    pub fn from_epoch_secs(epoch_secs: u64) -> (d: Date)
        ensures
            d@ == date_of_secs(epoch_secs as int),
    {
        let epoch_mins = epoch_secs / 60;
        let epoch_hours = epoch_mins / 60;
        let epoch_days = epoch_hours / 24;

        let (years, months, days) = Date::year_and_date(epoch_days);

        Date {
            year: years as u32,
            month: months as u8,
            day: days as u8,
            hour: (epoch_hours % 24) as u8,
            minute: (epoch_mins % 60) as u8,
            second: (epoch_secs % 60) as u8,
            epoch_days,
        }
    }

    /// The date in the form of RFC 1123, such as `Mon, 22 Nov 1990 00:00:00 GMT`.
    pub fn to_rfc1123(&self) -> (s: String)
        ensures
            s@ == rfc1123_text(self@),
    {
        proof {
            use_type_invariant(self);
        }
        let mut s = String::new();
        s.append(weekday_str(self.epoch_days % 7));
        s.append(", ");
        push_two_digits(&mut s, self.day as u32);
        s.append(" ");
        s.append(month_str(self.month));
        s.append(" ");
        let y = self.year;
        s.append(digit_str((y / 1000) % 10));
        s.append(digit_str((y / 100) % 10));
        s.append(digit_str((y / 10) % 10));
        s.append(digit_str(y % 10));
        s.append(" ");
        push_two_digits(&mut s, self.hour as u32);
        s.append(":");
        push_two_digits(&mut s, self.minute as u32);
        s.append(":");
        push_two_digits(&mut s, self.second as u32);
        s.append(" GMT");
        proof {
            assert(s@ =~= rfc1123_text(self@));
        }
        s
    }
}

} // verus!
