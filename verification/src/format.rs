//! Times, durations and sizes as text.

use vstd::prelude::*;

use crate::text::decimal_string;

verus! {

/// `UNIX_EPOCH.elapsed` reads the system's clock: the milliseconds since the start
/// of 1970, or `None` where the clock stands before it. Nothing is claimed of the
/// value.
#[verifier::external_body]
fn millis_since_epoch() -> (r: Option<u64>)
{
    std::time::UNIX_EPOCH.elapsed().ok().map(|d| d.as_millis() as u64)
}

/// The current time in milliseconds since the start of 1970; 0 where the clock
/// stands before it.
pub fn current_timestamp_ms() -> (ms: u64)
{
    timestamp_of_reading(millis_since_epoch())
}

/// The timestamp for what the clock showed: its milliseconds since the start of 1970,
/// or 0 where it stood before it.
pub fn timestamp_of_reading(reading: Option<u64>) -> (ms: u64)
    ensures
        ms == (match reading {
            Some(n) => n,
            None => 0,
        }),
{
    match reading {
        Some(n) => n,
        None => 0,
    }
}

/// The time from `ts_ms` to `now_ms` in whole units of the largest unit that fits.
pub open spec fn relative_time(now_ms: Option<u64>, ts_ms: u64) -> Seq<char> {
    match now_ms {
        Some(now) => if now < ts_ms {
            "in the future"@
        } else {
            let seconds: nat = ((now - ts_ms) / 1000) as nat;
            if seconds < 60 {
                crate::text::decimal(seconds) + " seconds ago"@
            } else if seconds < 3600 {
                crate::text::decimal(seconds / 60) + " minutes ago"@
            } else if seconds < 86400 {
                crate::text::decimal(seconds / 3600) + " hours ago"@
            } else if seconds < 604800 {
                crate::text::decimal(seconds / 86400) + " days ago"@
            } else {
                crate::text::decimal(seconds / 604800) + " weeks ago"@
            }
        },
        None => "in the future"@,
    }
}

/// A number followed by a word.
fn counted(n: u64, word: &str) -> (s: String)
    ensures
        s@ == crate::text::decimal(n as nat) + word@,
{
    let mut s = decimal_string(n);
    s.append(word);
    s
}

/// A timestamp relative to a given moment ("2 hours ago").
pub fn format_relative_to(now_ms: Option<u64>, ts_ms: u64) -> (s: String)
    ensures
        s@ == relative_time(now_ms, ts_ms),
{
    let now: u64 = match now_ms {
        Some(now) => now,
        None => {
            return "in the future".to_owned();
        },
    };
    if now < ts_ms {
        return "in the future".to_owned();
    }
    let seconds: u64 = (now - ts_ms) / 1000;
    if seconds < 60 {
        counted(seconds, " seconds ago")
    } else if seconds < 3600 {
        counted(seconds / 60, " minutes ago")
    } else if seconds < 86400 {
        counted(seconds / 3600, " hours ago")
    } else if seconds < 604800 {
        counted(seconds / 86400, " days ago")
    } else {
        counted(seconds / 604800, " weeks ago")
    }
}

/// A timestamp relative to the current time.
pub fn format_relative_time(ts_ms: u64) -> (s: String)
    ensures
        exists|now: Option<u64>| s@ == #[trigger] relative_time(now, ts_ms),
{
    let now = millis_since_epoch();
    format_relative_to(now, ts_ms)
}

/// Whether a year of the Gregorian calendar has 366 days.
pub open spec fn is_leap(y: nat) -> bool {
    y % 4 == 0 && (y % 100 != 0 || y % 400 == 0)
}

/// The number of days in a month.
pub open spec fn days_in_month(y: nat, m: nat) -> nat {
    if m == 2 {
        if is_leap(y) {
            29
        } else {
            28
        }
    } else if m == 4 || m == 6 || m == 9 || m == 11 {
        30
    } else {
        31
    }
}

/// The number of days in the years before `y`, from year 0.
pub open spec fn days_before_year(y: nat) -> nat
    decreases y,
{
    if y == 0 {
        0
    } else {
        days_before_year((y - 1) as nat) + if is_leap((y - 1) as nat) {
            366nat
        } else {
            365nat
        }
    }
}

/// The number of days in the months before `m` of a year.
pub open spec fn days_before_month(y: nat, m: nat) -> nat
    decreases m,
{
    if m <= 1 {
        0
    } else {
        days_before_month(y, (m - 1) as nat) + days_in_month(y, (m - 1) as nat)
    }
}

/// A day of the Gregorian calendar.
pub open spec fn is_date(y: nat, m: nat, d: nat) -> bool {
    1 <= m <= 12 && 1 <= d <= days_in_month(y, m)
}

/// The number of days from the first day of year 0 to a date.
pub open spec fn day_number(y: nat, m: nat, d: nat) -> int {
    days_before_year(y) + days_before_month(y, m) + d - 1
}

/// The day number of the first of January 1970.
pub open spec fn epoch_day() -> int {
    day_number(1970, 1, 1)
}

/// The number of days before a year in closed form.
proof fn lemma_days_before_year(y: nat)
    ensures
        days_before_year(y) == 365 * y + (y + 3) / 4 - (y + 99) / 100 + (y + 399) / 400,
    decreases y,
{
    if y > 0 {
        lemma_days_before_year((y - 1) as nat);
    }
}

/// The day number of the first of January 1970 as a numeral.
proof fn lemma_epoch_day()
    ensures
        epoch_day() == 719528,
{
    lemma_days_before_year(1970);
}

/// No two dates have the same day number.
pub proof fn day_number_is_unique(y1: nat, m1: nat, d1: nat, y2: nat, m2: nat, d2: nat)
    requires
        is_date(y1, m1, d1),
        is_date(y2, m2, d2),
        day_number(y1, m1, d1) == day_number(y2, m2, d2),
    ensures
        y1 == y2 && m1 == m2 && d1 == d2,
{
    lemma_day_in_year(y1, m1, d1);
    lemma_day_in_year(y2, m2, d2);
    if y1 < y2 {
        lemma_years_monotone(y1 + 1, y2);
    } else if y2 < y1 {
        lemma_years_monotone(y2 + 1, y1);
    }
    if m1 < m2 {
        lemma_months_monotone(y1, m1 + 1, m2);
    } else if m2 < m1 {
        lemma_months_monotone(y1, m2 + 1, m1);
    }
}

proof fn lemma_years_monotone(a: nat, b: nat)
    requires
        a <= b,
    ensures
        days_before_year(a) <= days_before_year(b),
    decreases b,
{
    if a < b {
        lemma_years_monotone(a, (b - 1) as nat);
    }
}

proof fn lemma_months_monotone(y: nat, a: nat, b: nat)
    requires
        1 <= a <= b,
    ensures
        days_before_month(y, a) <= days_before_month(y, b),
    decreases b,
{
    if a < b {
        lemma_months_monotone(y, a, (b - 1) as nat);
    }
}

proof fn lemma_day_in_year(y: nat, m: nat, d: nat)
    requires
        is_date(y, m, d),
    ensures
        days_before_year(y) <= day_number(y, m, d) < days_before_year(y + 1),
{
    reveal_with_fuel(days_before_month, 13);
    lemma_months_monotone(y, m, 12);
    lemma_months_monotone(y, (m + 1) as nat, 13);
    assert(days_before_month(y, 13) == if is_leap(y) { 366nat } else { 365nat });
}

/// A date and a time of day.
#[derive(Debug, Clone, Copy, PartialEq, Eq, Structural)]
pub struct CivilTime {
    pub year: u64,
    pub month: u64,
    pub day: u64,
    pub hour: u64,
    pub minute: u64,
    pub second: u64,
}

impl CivilTime {
    /// The date and the time of day are `secs` seconds after the start of 1970.
    pub open spec fn is_at(self, secs: nat) -> bool {
        &&& is_date(self.year as nat, self.month as nat, self.day as nat)
        &&& day_number(self.year as nat, self.month as nat, self.day as nat) == epoch_day() + secs / 86400
        &&& self.hour < 24 && self.minute < 60 && self.second < 60
        &&& self.hour * 3600 + self.minute * 60 + self.second == secs % 86400
    }
}

/// The days from the first of March to the first of the month that comes `mp`
/// months later.
spec fn march_offset(mp: int) -> int {
    (153 * mp + 2) / 5
}

/// The parts of a number of days counted from the first of March of year 0: groups
/// of 400, of 100 and of 4 years, single years, and days.
fn march_parts(n: u64) -> (r: (u64, u64, u64, u64, u64))
    requires
        n <= 0x1_0000_0000_0000,
    ensures
        r.1 <= 3,
        r.2 <= 24,
        r.3 <= 3,
        r.4 <= 365,
        n == r.0 * 146097 + r.1 * 36524 + r.2 * 1461 + r.3 * 365 + r.4,
        r.4 == 365 ==> r.3 == 3 && (r.2 < 24 || r.1 == 3),
{
    let era: u64 = n / 146097;
    let in_era: u64 = n % 146097;
    let century: u64 = if in_era / 36524 < 3 { in_era / 36524 } else { 3 };
    assert(century * 36524 <= in_era);
    let in_century: u64 = in_era - century * 36524;
    assert(in_century < 36524 || (in_century == 36524 && century == 3));
    let olympiad: u64 = in_century / 1461;
    let in_olympiad: u64 = in_century % 1461;
    assert(olympiad <= 24 && in_century == olympiad * 1461 + in_olympiad);
    let single: u64 = if in_olympiad / 365 < 3 { in_olympiad / 365 } else { 3 };
    assert(single * 365 <= in_olympiad);
    let doy: u64 = in_olympiad - single * 365;
    assert(doy <= 364 || (doy == 365 && single == 3 && in_olympiad == 1460));
    (era, century, olympiad, single, doy)
}

/// Year, month and day a number of days after the start of 1970, by the Gregorian
/// calendar. Years are counted from March, so that a leap day is the last day of
/// its year.
fn civil_date(days: u64) -> (r: (u64, u64, u64))
    requires
        days <= 213503982334601,
    ensures
        is_date(r.0 as nat, r.1 as nat, r.2 as nat),
        day_number(r.0 as nat, r.1 as nat, r.2 as nat) == epoch_day() + days,
{
    let from_march: u64 = days + 719468;
    let (era, century, olympiad, single, doy) = march_parts(from_march);
    assert(era <= from_march);
    let mp: u64 = (5 * doy + 2) / 153;
    proof {
        lemma_epoch_day();
        lemma_civil(
            from_march as int,
            era as int,
            century as int,
            olympiad as int,
            single as int,
            doy as int,
            mp as int,
        );
    }
    let y: u64 = era * 400 + century * 100 + olympiad * 4 + single;
    let day: u64 = doy - (153 * mp + 2) / 5 + 1;
    let month: u64 = if mp < 10 { mp + 3 } else { mp - 9 };
    let year: u64 = if month <= 2 { y + 1 } else { y };
    (year, month, day)
}

/// The date and time of day a number of seconds after the start of 1970, without
/// leap seconds.
pub fn civil_time(secs: u64) -> (t: CivilTime)
    ensures
        t.is_at(secs as nat),
{
    let (year, month, day) = civil_date(secs / 86400);
    let rest: u64 = secs % 86400;
    CivilTime { year, month, day, hour: rest / 3600, minute: (rest % 3600) / 60, second: rest % 60 }
}

/// The parts of a day count from the first of March of year 0 name its date.
proof fn lemma_civil(n: int, era: int, century: int, olympiad: int, single: int, doy: int, mp: int)
    requires
        0 <= n,
        0 <= era,
        0 <= century <= 3,
        0 <= olympiad <= 24,
        0 <= single <= 3,
        0 <= doy <= 365,
        n == era * 146097 + century * 36524 + olympiad * 1461 + single * 365 + doy,
        doy == 365 ==> single == 3 && (olympiad < 24 || century == 3),
        mp == (5 * doy + 2) / 153,
    ensures
        ({
            let y = era * 400 + century * 100 + olympiad * 4 + single;
            let m: int = if mp < 10 { mp + 3 } else { mp - 9 };
            let year: int = if m <= 2 { y + 1 } else { y };
            let d: int = doy - march_offset(mp) + 1;
            &&& d >= 1
            &&& is_date(year as nat, m as nat, d as nat)
            &&& day_number(year as nat, m as nat, d as nat) == n + 60
        }),
{
    let y = era * 400 + century * 100 + olympiad * 4 + single;
    let m: int = if mp < 10 { mp + 3 } else { mp - 9 };
    let year: int = if m <= 2 { y + 1 } else { y };
    lemma_first_of_march(era, century, olympiad, single);
    lemma_leap_after(era, century, olympiad, single);
    lemma_march_months(year as nat, doy, mp);
    assert(days_before_year((y + 1) as nat) == days_before_year(y as nat) + if is_leap(y as nat) {
        366nat
    } else {
        365nat
    });
}

/// Where a year counted from March begins.
proof fn lemma_first_of_march(era: int, century: int, olympiad: int, single: int)
    requires
        0 <= era,
        0 <= century <= 3,
        0 <= olympiad <= 24,
        0 <= single <= 3,
    ensures
        ({
            let y = era * 400 + century * 100 + olympiad * 4 + single;
            days_before_year(y as nat) + (if is_leap(y as nat) { 60int } else { 59int }) == era * 146097 + century
                * 36524 + olympiad * 1461 + single * 365 + 60
        }),
{
    let y = era * 400 + century * 100 + olympiad * 4 + single;
    lemma_days_before_year(y as nat);
    let fours: int = if single == 0 { 0 } else { 1 };
    lemma_division(y + 3, 4, 100 * era + 25 * century + olympiad + fours, if single == 0 { 3 } else { single - 1 });
    let in_century: int = olympiad * 4 + single;
    let hundreds: int = if in_century == 0 { 0 } else { 1 };
    lemma_division(y + 99, 100, 4 * era + century + hundreds, if in_century == 0 { 99 } else { in_century - 1 });
    let in_era: int = century * 100 + in_century;
    let all: int = if in_era == 0 { 0 } else { 1 };
    lemma_division(y + 399, 400, era + all, if in_era == 0 { 399 } else { in_era - 1 });
    lemma_division(y, 4, 100 * era + 25 * century + olympiad, single);
    lemma_division(y, 100, 4 * era + century, in_century);
    lemma_division(y, 400, era, in_era);
}

/// Quotient and remainder are determined by what they satisfy.
proof fn lemma_division(x: int, d: int, q: int, r: int)
    requires
        d > 0,
        0 <= r < d,
        x == q * d + r,
    ensures
        x / d == q,
        x % d == r,
{
    vstd::arithmetic::div_mod::lemma_fundamental_div_mod_converse(x, d, q, r);
}

/// When the year after has a leap day.
proof fn lemma_leap_after(era: int, century: int, olympiad: int, single: int)
    requires
        0 <= era,
        0 <= century <= 3,
        0 <= olympiad <= 24,
        0 <= single <= 3,
    ensures
        is_leap((era * 400 + century * 100 + olympiad * 4 + single + 1) as nat) <==> (single == 3 && (olympiad < 24
            || century == 3)),
{
    let z = era * 400 + century * 100 + olympiad * 4 + single + 1;
    if single < 3 {
        lemma_division(z, 4, 100 * era + 25 * century + olympiad, single + 1);
    } else {
        lemma_division(z, 4, 100 * era + 25 * century + olympiad + 1, 0);
    }
    let in_century: int = olympiad * 4 + single + 1;
    if in_century < 100 {
        lemma_division(z, 100, 4 * era + century, in_century);
    } else {
        lemma_division(z, 100, 4 * era + century + 1, 0);
    }
    let in_era: int = century * 100 + in_century;
    if in_era < 400 {
        lemma_division(z, 400, era, in_era);
    } else {
        lemma_division(z, 400, era + 1, 0);
    }
}

/// The months of a year counted from March.
proof fn lemma_march_months(year: nat, doy: int, mp: int)
    requires
        0 <= doy <= 365,
        mp == (5 * doy + 2) / 153,
        doy == 365 ==> is_leap(year),
    ensures
        ({
            let m: int = if mp < 10 { mp + 3 } else { mp - 9 };
            let d: int = doy - march_offset(mp) + 1;
            &&& 0 <= mp <= 11
            &&& 1 <= d <= days_in_month(year, m as nat)
            &&& mp < 10 ==> days_before_month(year, m as nat) == march_offset(mp) + (if is_leap(year) {
                60int
            } else {
                59int
            })
            &&& mp >= 10 ==> days_before_month(year, m as nat) == march_offset(mp) - 306
        }),
{
    reveal_with_fuel(days_before_month, 13);
    if mp == 0 {
    } else if mp == 1 {
    } else if mp == 2 {
    } else if mp == 3 {
    } else if mp == 4 {
    } else if mp == 5 {
    } else if mp == 6 {
    } else if mp == 7 {
    } else if mp == 8 {
    } else if mp == 9 {
    } else if mp == 10 {
    } else {
    }
}

/// The decimal numeral of `n` with zeros in front up to the given width.
pub open spec fn padded(n: nat, width: nat) -> Seq<char> {
    let digits = crate::text::decimal(n);
    Seq::new((if digits.len() < width { width - digits.len() } else { 0 }) as nat, |i: int| '0') + digits
}

/// Appends a numeral with zeros in front up to the given width.
pub fn push_padded(s: &mut String, n: u64, width: usize)
    ensures
        final(s)@ == old(s)@ + padded(n as nat, width as nat),
{
    let digits = decimal_string(n);
    let len: usize = digits.as_str().unicode_len();
    let zeros: usize = if len < width { width - len } else { 0 };
    let mut i: usize = 0;
    while i < zeros
        invariant
            i <= zeros,
            s@ == old(s)@ + Seq::new(i as nat, |k: int| '0'),
        decreases zeros - i,
    {
        s.push('0');
        i = i + 1;
        assert(s@ =~= old(s)@ + Seq::new(i as nat, |k: int| '0'));
    }
    s.append(digits.as_str());
    assert(s@ =~= old(s)@ + padded(n as nat, width as nat));
}

/// A date and a time of day as text: year, month and day, then hour, minute and
/// second.
pub open spec fn civil_text(t: CivilTime) -> Seq<char> {
    padded(t.year as nat, 4) + seq!['-'] + padded(t.month as nat, 2) + seq!['-'] + padded(t.day as nat, 2) + seq![' ']
        + padded(t.hour as nat, 2) + seq![':'] + padded(t.minute as nat, 2) + seq![':'] + padded(t.second as nat, 2)
}

/// Only one date and time of day are a given number of seconds after the start of
/// 1970.
pub proof fn civil_time_is_unique(t: CivilTime, u: CivilTime, secs: nat)
    requires
        t.is_at(secs),
        u.is_at(secs),
    ensures
        t == u,
{
    day_number_is_unique(
        t.year as nat,
        t.month as nat,
        t.day as nat,
        u.year as nat,
        u.month as nat,
        u.day as nat,
    );
}

/// The date and time of day in UTC of a timestamp in milliseconds.
pub open spec fn absolute_text(ts_ms: u64) -> Seq<char> {
    civil_text(choose|t: CivilTime| #[trigger] t.is_at((ts_ms / 1000) as nat))
}

/// A timestamp as a date and a time of day in UTC ("2024-01-03 14:30:00").
pub fn format_absolute_time(ts_ms: u64) -> (s: String)
    ensures
        s@ == absolute_text(ts_ms),
        exists|t: CivilTime| #[trigger] t.is_at((ts_ms / 1000) as nat) && s@ == civil_text(t),
        forall|t: CivilTime| #[trigger] t.is_at((ts_ms / 1000) as nat) ==> s@ == civil_text(t),
{
    let t = civil_time(ts_ms / 1000);
    let mut s = String::new();
    push_padded(&mut s, t.year, 4);
    s.push('-');
    push_padded(&mut s, t.month, 2);
    s.push('-');
    push_padded(&mut s, t.day, 2);
    s.push(' ');
    push_padded(&mut s, t.hour, 2);
    s.push(':');
    push_padded(&mut s, t.minute, 2);
    s.push(':');
    push_padded(&mut s, t.second, 2);
    proof {
        let secs = (ts_ms / 1000) as nat;
        assert(s@ =~= civil_text(t));
        let chosen = choose|u: CivilTime| #[trigger] u.is_at(secs);
        civil_time_is_unique(t, chosen, secs);
        assert forall|u: CivilTime| #[trigger] u.is_at(secs) implies s@ == civil_text(u) by {
            civil_time_is_unique(t, u, secs);
        }
    }
    s
}

/// The texts agree before position `k`, and there the first one ends or has the smaller
/// character.
pub open spec fn differ_at(a: Seq<char>, b: Seq<char>, k: int) -> bool {
    &&& 0 <= k <= a.len()
    &&& k < b.len()
    &&& a.take(k) == b.take(k)
    &&& k < a.len() ==> (a[k] as int) < (b[k] as int)
}

/// The first text comes before the second in the order of strings.
pub open spec fn comes_before(a: Seq<char>, b: Seq<char>) -> bool {
    exists|k: int| #[trigger] differ_at(a, b, k)
}

proof fn lemma_before_inside(p: Seq<char>, a: Seq<char>, b: Seq<char>, x: Seq<char>, y: Seq<char>)
    requires
        comes_before(a, b),
        a.len() == b.len(),
    ensures
        comes_before(p + a + x, p + b + y),
{
    let k = choose|k: int| #[trigger] differ_at(a, b, k);
    let n = p.len() as int;
    assert((p + a + x).take(n + k) =~= p + a.take(k));
    assert((p + b + y).take(n + k) =~= p + b.take(k));
    assert(differ_at(p + a + x, p + b + y, n + k));
}

/// The last digit of a number.
spec fn last_digit(n: nat) -> char {
    ((48 + n % 10) as u8) as char
}

proof fn lemma_decimal_step(n: nat)
    ensures
        n < 10 ==> crate::text::decimal(n) == seq![last_digit(n)],
        n >= 10 ==> crate::text::decimal(n) == crate::text::decimal(n / 10).push(last_digit(n)),
{
    if n < 10 {
        assert(crate::text::decimal(n) =~= seq![last_digit(n)]);
    } else {
        assert(crate::text::decimal(n) =~= crate::text::decimal(n / 10).push(last_digit(n)));
    }
}

proof fn lemma_two_digits(n: nat)
    requires
        n < 100,
    ensures
        padded(n, 2) == seq![last_digit(n / 10), last_digit(n)],
{
    lemma_decimal_step(n);
    lemma_decimal_step(n / 10);
    assert(padded(n, 2) =~= seq![last_digit(n / 10), last_digit(n)]);
}

proof fn lemma_four_digits(n: nat)
    requires
        n < 10000,
    ensures
        padded(n, 4) == seq![last_digit(n / 1000), last_digit(n / 100), last_digit(n / 10), last_digit(n)],
{
    lemma_decimal_step(n);
    lemma_decimal_step(n / 10);
    lemma_decimal_step(n / 100);
    lemma_decimal_step(n / 1000);
    assert(n / 10 / 10 == n / 100);
    assert(n / 100 / 10 == n / 1000);
    assert(padded(n, 4) =~= seq![last_digit(n / 1000), last_digit(n / 100), last_digit(n / 10), last_digit(n)]);
}

proof fn lemma_two_before(n: nat, m: nat)
    requires
        n < m < 100,
    ensures
        comes_before(padded(n, 2), padded(m, 2)),
{
    lemma_two_digits(n);
    lemma_two_digits(m);
    let a = padded(n, 2);
    let b = padded(m, 2);
    if n / 10 < m / 10 {
        assert(differ_at(a, b, 0)) by {
            assert(a.take(0) =~= b.take(0));
        }
    } else {
        assert(n / 10 == m / 10);
        assert(differ_at(a, b, 1)) by {
            assert(a.take(1) =~= b.take(1));
        }
    }
}

proof fn lemma_four_before(n: nat, m: nat)
    requires
        n < m < 10000,
    ensures
        comes_before(padded(n, 4), padded(m, 4)),
{
    lemma_halves(n);
    lemma_halves(m);
    let none = Seq::<char>::empty();
    if n / 100 < m / 100 {
        lemma_two_before(n / 100, m / 100);
        lemma_two_digits(n / 100);
        lemma_two_digits(m / 100);
        lemma_before_inside(none, padded(n / 100, 2), padded(m / 100, 2), padded(n % 100, 2), padded(m % 100, 2));
        assert(none + padded(n / 100, 2) =~= padded(n / 100, 2));
        assert(none + padded(m / 100, 2) =~= padded(m / 100, 2));
    } else {
        assert(n / 100 == m / 100 && n % 100 < m % 100);
        lemma_two_before(n % 100, m % 100);
        lemma_two_digits(n % 100);
        lemma_two_digits(m % 100);
        lemma_before_inside(padded(n / 100, 2), padded(n % 100, 2), padded(m % 100, 2), none, none);
        assert(padded(n, 4) + none =~= padded(n, 4));
        assert(padded(m, 4) + none =~= padded(m, 4));
    }
}

proof fn lemma_half_digits(n: nat)
    requires
        n < 10000,
    ensures
        last_digit(n / 100 / 10) == last_digit(n / 1000),
        last_digit((n % 100) / 10) == last_digit(n / 10),
        last_digit(n % 100) == last_digit(n),
{
    assert(n / 100 / 10 == n / 1000);
    assert((n % 100) / 10 % 10 == n / 10 % 10);
    assert(n % 100 % 10 == n % 10);
}

/// Four digits are two and two.
proof fn lemma_halves(n: nat)
    requires
        n < 10000,
    ensures
        padded(n, 4) == padded(n / 100, 2) + padded(n % 100, 2),
{
    let a = last_digit(n / 1000);
    let b = last_digit(n / 100);
    let c = last_digit(n / 10);
    let d = last_digit(n);
    assert(padded(n, 4) == seq![a, b, c, d]) by {
        lemma_four_digits(n);
    }
    assert(padded(n / 100, 2) == seq![a, b]) by {
        lemma_two_digits(n / 100);
        lemma_half_digits(n);
    }
    assert(padded(n % 100, 2) == seq![c, d]) by {
        lemma_two_digits(n % 100);
        lemma_half_digits(n);
    }
    assert(seq![a, b] + seq![c, d] =~= seq![a, b, c, d]);
}

/// An earlier date has a smaller day number.
proof fn lemma_date_order(y1: nat, m1: nat, d1: nat, y2: nat, m2: nat, d2: nat)
    requires
        is_date(y1, m1, d1),
        is_date(y2, m2, d2),
        y1 < y2 || (y1 == y2 && (m1 < m2 || (m1 == m2 && d1 < d2))),
    ensures
        day_number(y1, m1, d1) < day_number(y2, m2, d2),
{
    lemma_day_in_year(y1, m1, d1);
    lemma_day_in_year(y2, m2, d2);
    if y1 < y2 {
        lemma_years_monotone(y1 + 1, y2);
    } else if m1 < m2 {
        lemma_months_monotone(y1, m1 + 1, m2);
    }
}

/// There is a date and a time of day for every number of seconds.
proof fn lemma_moment_exists(secs: nat)
    requires
        secs <= u64::MAX,
    ensures
        exists|t: CivilTime| #[trigger] t.is_at(secs),
{
    let n: int = secs as int / 86400 + 719468;
    let era: int = n / 146097;
    let in_era: int = n % 146097;
    let century: int = if in_era / 36524 < 3 { in_era / 36524 } else { 3 };
    let in_century: int = in_era - century * 36524;
    assert(0 <= in_century && (in_century < 36524 || (in_century == 36524 && century == 3)));
    let olympiad: int = in_century / 1461;
    let in_olympiad: int = in_century % 1461;
    let single: int = if in_olympiad / 365 < 3 { in_olympiad / 365 } else { 3 };
    let doy: int = in_olympiad - single * 365;
    assert(0 <= doy && (doy <= 364 || (doy == 365 && single == 3 && in_olympiad == 1460)));
    let mp: int = (5 * doy + 2) / 153;
    lemma_epoch_day();
    lemma_civil(n, era, century, olympiad, single, doy, mp);
    lemma_march_months(4, doy, mp);
    let y = era * 400 + century * 100 + olympiad * 4 + single;
    let m: int = if mp < 10 { mp + 3 } else { mp - 9 };
    let year: int = if m <= 2 { y + 1 } else { y };
    let d: int = doy - march_offset(mp) + 1;
    let rest: int = secs as int % 86400;
    let t = CivilTime {
        year: year as u64,
        month: m as u64,
        day: d as u64,
        hour: (rest / 3600) as u64,
        minute: (rest % 3600 / 60) as u64,
        second: (rest % 60) as u64,
    };
    assert(t.is_at(secs));
}

/// The first of January of the year 10000, in seconds after the start of 1970.
pub const YEAR_10000: u64 = 253402300800;

/// The date is in a year of at most four digits.
proof fn lemma_short_year(t: CivilTime, secs: nat)
    requires
        t.is_at(secs),
        secs < YEAR_10000,
    ensures
        t.year < 10000,
{
    lemma_epoch_day();
    lemma_day_in_year(t.year as nat, t.month as nat, t.day as nat);
    if t.year >= 10000 {
        lemma_days_before_year(10000);
        lemma_years_monotone(10000, t.year as nat);
    }
}

/// The text for a date and a time of day, taken apart.
proof fn lemma_civil_text(t: CivilTime)
    requires
        t.year < 10000,
        t.month < 100,
        t.day < 100,
        t.hour < 100,
        t.minute < 100,
        t.second < 100,
    ensures
        civil_text(t).len() == 19,
        padded(t.year as nat, 4).len() == 4,
        padded(t.month as nat, 2).len() == 2,
        padded(t.day as nat, 2).len() == 2,
        padded(t.hour as nat, 2).len() == 2,
        padded(t.minute as nat, 2).len() == 2,
        padded(t.second as nat, 2).len() == 2,
{
    lemma_four_digits(t.year as nat);
    lemma_two_digits(t.month as nat);
    lemma_two_digits(t.day as nat);
    lemma_two_digits(t.hour as nat);
    lemma_two_digits(t.minute as nat);
    lemma_two_digits(t.second as nat);
}

/// The parts of a date and a time of day, the greatest first.
spec fn parts(t: CivilTime) -> Seq<nat> {
    seq![t.year as nat, t.month as nat, t.day as nat, t.hour as nat, t.minute as nat, t.second as nat]
}

/// The text of the parts from the one at `k` on.
spec fn text_from(t: CivilTime, k: int) -> Seq<char>
    decreases 6 - k,
{
    if k < 0 || k >= 6 {
        Seq::empty()
    } else {
        let mark = if k < 2 {
            '-'
        } else if k == 2 {
            ' '
        } else {
            ':'
        };
        let part = padded(parts(t)[k], if k == 0 { 4 } else { 2 });
        if k == 5 {
            part
        } else {
            part + seq![mark] + text_from(t, k + 1)
        }
    }
}

proof fn lemma_group(p: Seq<char>, a: Seq<char>, b: Seq<char>, c: Seq<char>)
    ensures
        p + a + b + c == p + (a + b + c),
{
    assert(p + a + b + c =~= p + (a + b + c));
}

proof fn lemma_text_from(t: CivilTime)
    ensures
        civil_text(t) == text_from(t, 0),
{
    let year = padded(t.year as nat, 4);
    let month = padded(t.month as nat, 2);
    let day = padded(t.day as nat, 2);
    let hour = padded(t.hour as nat, 2);
    let minute = padded(t.minute as nat, 2);
    let second = padded(t.second as nat, 2);
    let dash = seq!['-'];
    let colon = seq![':'];
    assert(text_from(t, 5) == second);
    assert(text_from(t, 4) == minute + colon + second);
    assert(text_from(t, 3) == hour + colon + text_from(t, 4));
    assert(text_from(t, 2) == day + seq![' '] + text_from(t, 3));
    assert(text_from(t, 1) == month + dash + text_from(t, 2));
    assert(text_from(t, 0) == year + dash + text_from(t, 1));
    let to_month = year + dash + month + dash;
    let to_day = to_month + day + seq![' '];
    let to_hour = to_day + hour + colon;
    lemma_group(to_hour, minute, colon, second);
    lemma_group(to_day, hour, colon, text_from(t, 4));
    lemma_group(to_month, day, seq![' '], text_from(t, 3));
    lemma_group(year + dash, month, dash, text_from(t, 2));
}

/// Texts compare as the first part in which they differ.
proof fn lemma_text_order(t: CivilTime, u: CivilTime, k: int, at: int)
    requires
        0 <= k <= at < 6,
        forall|i: int| k <= i < at ==> parts(t)[i] == #[trigger] parts(u)[i],
        parts(t)[at] < parts(u)[at],
        t.year < 10000 && u.year < 10000,
        forall|i: int| 1 <= i < 6 ==> #[trigger] parts(t)[i] < 100,
        forall|i: int| 1 <= i < 6 ==> #[trigger] parts(u)[i] < 100,
    ensures
        comes_before(text_from(t, k), text_from(u, k)),
    decreases at - k,
{
    let width: nat = if k == 0 { 4 } else { 2 };
    let a = padded(parts(t)[k], width);
    let b = padded(parts(u)[k], width);
    let none = Seq::<char>::empty();
    if k == 0 {
        lemma_four_digits(parts(t)[0]);
        lemma_four_digits(parts(u)[0]);
    } else {
        lemma_two_digits(parts(t)[k]);
        lemma_two_digits(parts(u)[k]);
    }
    let mark = if k < 2 {
        '-'
    } else if k == 2 {
        ' '
    } else {
        ':'
    };
    if k == at {
        if k == 0 {
            lemma_four_before(parts(t)[0], parts(u)[0]);
        } else {
            lemma_two_before(parts(t)[k], parts(u)[k]);
        }
        if k < 5 {
            let x = seq![mark] + text_from(t, k + 1);
            let y = seq![mark] + text_from(u, k + 1);
            lemma_before_inside(none, a, b, x, y);
            assert(none + a + x =~= text_from(t, k));
            assert(none + b + y =~= text_from(u, k));
        }
    } else {
        lemma_text_order(t, u, k + 1, at);
        let x = text_from(t, k + 1);
        let y = text_from(u, k + 1);
        lemma_before_suffix(a + seq![mark], x, y);
        assert(a == b) by {
            assert(parts(t)[k] == parts(u)[k]);
        }
        assert(a + seq![mark] + x =~= text_from(t, k));
        assert(b + seq![mark] + y =~= text_from(u, k));
    }
}

proof fn lemma_before_suffix(p: Seq<char>, a: Seq<char>, b: Seq<char>)
    requires
        comes_before(a, b),
    ensures
        comes_before(p + a, p + b),
{
    let k = choose|k: int| #[trigger] differ_at(a, b, k);
    let n = p.len() as int;
    assert((p + a).take(n + k) =~= p + a.take(k));
    assert((p + b).take(n + k) =~= p + b.take(k));
    assert(differ_at(p + a, p + b, n + k));
}

/// A text does not come before itself.
proof fn lemma_before_differs(a: Seq<char>, b: Seq<char>)
    requires
        comes_before(a, b),
    ensures
        a != b,
{
    let k = choose|k: int| #[trigger] differ_at(a, b, k);
}

/// Before the year 10000 every timestamp is shown in 19 characters, a later one is shown
/// as a later text in the order of strings, and two are shown alike exactly if they lie
/// in the same second.
pub proof fn later_times_have_later_texts(a: u64, b: u64)
    requires
        a <= b,
        b < YEAR_10000 * 1000,
    ensures
        absolute_text(a).len() == 19,
        absolute_text(b).len() == 19,
        absolute_text(a) == absolute_text(b) <==> a / 1000 == b / 1000,
        a / 1000 < b / 1000 ==> comes_before(absolute_text(a), absolute_text(b)),
{
    let x = (a / 1000) as nat;
    let y = (b / 1000) as nat;
    lemma_moment_exists(x);
    lemma_moment_exists(y);
    let t = choose|t: CivilTime| #[trigger] t.is_at(x);
    let u = choose|u: CivilTime| #[trigger] u.is_at(y);
    lemma_short_year(t, x);
    lemma_short_year(u, y);
    lemma_civil_text(t);
    lemma_civil_text(u);
    if x < y {
        lemma_text_from(t);
        lemma_text_from(u);
        let at = lemma_first_difference(t, u, x, y);
        lemma_text_order(t, u, 0, at);
        lemma_before_differs(absolute_text(a), absolute_text(b));
    }
}

/// Of two moments the earlier has the smaller first part that differs.
proof fn lemma_first_difference(t: CivilTime, u: CivilTime, x: nat, y: nat) -> (at: int)
    requires
        t.is_at(x),
        u.is_at(y),
        x < y,
    ensures
        0 <= at < 6,
        forall|i: int| 0 <= i < at ==> parts(t)[i] == #[trigger] parts(u)[i],
        parts(t)[at] < parts(u)[at],
{
    let (y1, m1, d1) = (t.year as nat, t.month as nat, t.day as nat);
    let (y2, m2, d2) = (u.year as nat, u.month as nat, u.day as nat);
    if y2 < y1 || (y2 == y1 && (m2 < m1 || (m2 == m1 && d2 < d1))) {
        lemma_date_order(y2, m2, d2, y1, m1, d1);
    }
    if y1 != y2 {
        0
    } else if m1 != m2 {
        1
    } else if d1 != d2 {
        2
    } else if t.hour != u.hour {
        3
    } else if t.minute != u.minute {
        4
    } else {
        5
    }
}

/// The quotient rounded to the nearest number, a half to the even one.
pub open spec fn round_half_even(num: nat, den: nat) -> nat {
    let q = num / den;
    let r = num % den;
    if 2 * r < den || (2 * r == den && q % 2 == 0) {
        q
    } else {
        q + 1
    }
}

/// The smallest power of two that leaves a quotient of at most 53 bits.
pub open spec fn float_unit(n: nat) -> nat
    decreases n,
{
    if n < 0x20_0000_0000_0000 {
        1
    } else {
        2 * float_unit(n / 2)
    }
}

/// `n` rounded to a binary floating-point number with 53 significant bits.
pub open spec fn to_double(n: nat) -> nat {
    round_half_even(n, float_unit(n)) * float_unit(n)
}

/// A size in hundredths of a unit, as text.
pub open spec fn hundredths_text(h: nat, unit: Seq<char>) -> Seq<char> {
    crate::text::decimal(h / 100) + seq!['.'] + padded(h % 100, 2) + unit
}

/// A size in the largest of the units B, KB, MB and GB of which it has at least
/// one; other than in bytes, rounded to hundredths.
pub open spec fn size_text(bytes: nat) -> Seq<char> {
    if bytes >= 0x4000_0000 {
        hundredths_text(round_half_even(to_double(bytes) * 100, 0x4000_0000), " GB"@)
    } else if bytes >= 0x10_0000 {
        hundredths_text(round_half_even(to_double(bytes) * 100, 0x10_0000), " MB"@)
    } else if bytes >= 0x400 {
        hundredths_text(round_half_even(to_double(bytes) * 100, 0x400), " KB"@)
    } else {
        crate::text::decimal(bytes) + " B"@
    }
}

/// Divides and rounds, a half to the even number.
fn divide_rounded(num: u128, den: u128) -> (q: u128)
    requires
        0 < den,
        den <= 0x8000_0000_0000_0000,
        num <= 0x1_0000_0000_0000_0000_0000_0000_0000,
    ensures
        q == round_half_even(num as nat, den as nat),
        q <= num / den + 1,
{
    let q: u128 = num / den;
    let r: u128 = num % den;
    assert(r < den);
    assert(q <= num) by (nonlinear_arith)
        requires
            q == num / den,
            0 < den,
    ;
    if 2 * r < den || (2 * r == den && q % 2 == 0) {
        q
    } else {
        q + 1
    }
}

/// Computes the smallest power of two that leaves a quotient of at most 53 bits.
fn float_parts(n: u64) -> (unit: u64)
    ensures
        unit == float_unit(n as nat),
        1 <= unit <= 0xFFF,
    decreases n,
{
    if n < 0x20_0000_0000_0000 {
        1
    } else {
        proof {
            lemma_float_unit(n as nat);
        }
        2 * float_parts(n / 2)
    }
}

proof fn lemma_float_unit(n: nat)
    requires
        n <= u64::MAX,
    ensures
        1 <= float_unit(n) <= 0xFFF,
        float_unit(n) == 1 || float_unit(n) * 0x10_0000_0000_0000 <= n,
    decreases n,
{
    if n >= 0x20_0000_0000_0000 {
        lemma_float_unit(n / 2);
        let u = float_unit(n / 2);
        if u > 1 {
            assert(u <= n / 2 / 0x10_0000_0000_0000);
        }
    }
}

/// A size in human-readable form.
pub fn format_size(bytes: u64) -> (s: String)
    ensures
        s@ == size_text(bytes as nat),
{
    if bytes < 0x400 {
        return counted(bytes, " B");
    }
    let unit: u64 = float_parts(bytes);
    let rounded: u128 = divide_rounded(bytes as u128, unit as u128);
    assert(rounded <= bytes + 1) by {
        assert(bytes as int / unit as int <= bytes) by (nonlinear_arith)
            requires
                1 <= unit,
                0 <= bytes,
        ;
    }
    assert(rounded * unit <= 0x2_0000_0000_0000_0000) by {
        lemma_float_unit(bytes as nat);
        let q: int = bytes as int / unit as int;
        assert(q * unit <= bytes) by (nonlinear_arith)
            requires
                q == bytes as int / unit as int,
                1 <= unit,
                0 <= bytes,
        ;
        assert(rounded * unit <= q * unit + unit) by (nonlinear_arith)
            requires
                rounded <= q + 1,
                1 <= unit,
        ;
    }
    let double: u128 = rounded * unit as u128;
    let (den, word): (u128, &str) = if bytes >= 0x4000_0000 {
        (0x4000_0000, " GB")
    } else if bytes >= 0x10_0000 {
        (0x10_0000, " MB")
    } else {
        (0x400, " KB")
    };
    let h: u128 = divide_rounded(double * 100, den);
    assert(h <= u64::MAX) by {
        if bytes < 0x4000_0000 {
            assert(unit == 1);
            assert(rounded == bytes) by {
                assert(bytes as nat / 1 == bytes as nat);
            }
        }
    }
    let h: u64 = h as u64;
    let mut s = decimal_string(h / 100);
    s.push('.');
    push_padded(&mut s, h % 100, 2);
    s.append(word);
    assert(s@ =~= hundredths_text(h as nat, word@));
    s
}

/// A count and a unit, the unit in the plural but for one.
pub open spec fn units_text(n: nat, one: Seq<char>, many: Seq<char>) -> Seq<char> {
    if n == 1 {
        one
    } else {
        crate::text::decimal(n) + many
    }
}

/// A duration in whole units of the largest unit that fits.
pub open spec fn duration_text(secs: nat) -> Seq<char> {
    if secs < 5 {
        "just now"@
    } else if secs < 60 {
        crate::text::decimal(secs) + " seconds"@
    } else if secs < 3600 {
        units_text(secs / 60, "1 minute"@, " minutes"@)
    } else if secs < 86400 {
        units_text(secs / 3600, "1 hour"@, " hours"@)
    } else if secs < 604800 {
        units_text(secs / 86400, "1 day"@, " days"@)
    } else if secs < 2592000 {
        units_text(secs / 604800, "1 week"@, " weeks"@)
    } else if secs < 31536000 {
        units_text(secs / 2592000, "1 month"@, " months"@)
    } else {
        units_text(secs / 31536000, "1 year"@, " years"@)
    }
}

/// A count and a unit.
fn units(n: u64, one: &str, many: &str) -> (s: String)
    ensures
        s@ == units_text(n as nat, one@, many@),
{
    if n == 1 {
        one.to_owned()
    } else {
        counted(n, many)
    }
}

/// A duration in its most significant unit.
pub fn format_duration(secs: u64) -> (s: String)
    ensures
        s@ == duration_text(secs as nat),
{
    if secs < 5 {
        "just now".to_owned()
    } else if secs < 60 {
        counted(secs, " seconds")
    } else if secs < 3600 {
        units(secs / 60, "1 minute", " minutes")
    } else if secs < 86400 {
        units(secs / 3600, "1 hour", " hours")
    } else if secs < 604800 {
        units(secs / 86400, "1 day", " days")
    } else if secs < 2592000 {
        units(secs / 604800, "1 week", " weeks")
    } else if secs < 31536000 {
        units(secs / 2592000, "1 month", " months")
    } else {
        units(secs / 31536000, "1 year", " years")
    }
}

/// How long ago a time was is told in the largest unit that has passed whole, and the
/// number is that of the whole units.
pub proof fn elapsed_time_is_told_in_whole_units(now: u64, ts: u64, n: nat)
    ensures
        ts > now ==> relative_time(Some(now), ts) == "in the future"@,
        now - ts >= 0 && n < 60 && n * 1000 <= now - ts < (n + 1) * 1000 ==> relative_time(Some(now), ts)
            == crate::text::decimal(n) + " seconds ago"@,
        1 <= n < 60 && n * 60000 <= now - ts < (n + 1) * 60000 ==> relative_time(Some(now), ts)
            == crate::text::decimal(n) + " minutes ago"@,
        1 <= n < 24 && n * 3600000 <= now - ts < (n + 1) * 3600000 ==> relative_time(Some(now), ts)
            == crate::text::decimal(n) + " hours ago"@,
        1 <= n < 7 && n * 86400000 <= now - ts < (n + 1) * 86400000 ==> relative_time(Some(now), ts)
            == crate::text::decimal(n) + " days ago"@,
        1 <= n && n * 604800000 <= now - ts < (n + 1) * 604800000 ==> relative_time(Some(now), ts)
            == crate::text::decimal(n) + " weeks ago"@,
{
}

/// A duration is told in the largest unit that it holds whole, with their number, and in
/// the singular where that is one.
pub proof fn durations_are_told_in_whole_units(secs: nat, n: nat)
    ensures
        secs < 5 ==> duration_text(secs) == "just now"@,
        5 <= secs < 60 ==> duration_text(secs) == crate::text::decimal(secs) + " seconds"@,
        60 <= secs < 120 ==> duration_text(secs) == "1 minute"@,
        2 <= n < 60 && n * 60 <= secs < (n + 1) * 60 ==> duration_text(secs) == crate::text::decimal(n) + " minutes"@,
        3600 <= secs < 7200 ==> duration_text(secs) == "1 hour"@,
        2 <= n < 24 && n * 3600 <= secs < (n + 1) * 3600 ==> duration_text(secs) == crate::text::decimal(n)
            + " hours"@,
        86400 <= secs < 172800 ==> duration_text(secs) == "1 day"@,
        2 <= n < 7 && n * 86400 <= secs < (n + 1) * 86400 ==> duration_text(secs) == crate::text::decimal(n)
            + " days"@,
        604800 <= secs < 1209600 ==> duration_text(secs) == "1 week"@,
        2 <= n && n * 604800 <= secs < (n + 1) * 604800 && secs < 2592000 ==> duration_text(secs)
            == crate::text::decimal(n) + " weeks"@,
        2592000 <= secs < 5184000 ==> duration_text(secs) == "1 month"@,
        2 <= n && n * 2592000 <= secs < (n + 1) * 2592000 && secs < 31536000 ==> duration_text(secs)
            == crate::text::decimal(n) + " months"@,
        2 <= n && n * 31536000 <= secs < (n + 1) * 31536000 ==> duration_text(secs) == crate::text::decimal(n)
            + " years"@,
{
}

/// Rounding gives the closest whole number, and of two that are equally close the even one.
pub proof fn rounding_gives_the_closest(num: nat, den: nat)
    requires
        den > 0,
    ensures
        2 * (round_half_even(num, den) * den) <= 2 * num + den,
        2 * num <= 2 * (round_half_even(num, den) * den) + den,
        2 * (num % den) == den ==> round_half_even(num, den) % 2 == 0,
{
    let q = num / den;
    let r = num % den;
    vstd::arithmetic::div_mod::lemma_fundamental_div_mod(num as int, den as int);
    vstd::arithmetic::div_mod::lemma_mod_bound(num as int, den as int);
    assert(q * den == den * q) by (nonlinear_arith);
    assert((q + 1) * den == q * den + den) by (nonlinear_arith);
}

/// A size is told in the largest unit that it reaches, with two decimals; up to the size
/// from which doubles have gaps, it is rounded from its own number of bytes.
pub proof fn sizes_are_told_in_the_largest_unit(bytes: nat)
    ensures
        bytes < 1024 ==> size_text(bytes) == crate::text::decimal(bytes) + " B"@,
        1024 <= bytes < 1048576 ==> size_text(bytes) == hundredths_text(round_half_even(bytes * 100, 1024), " KB"@),
        1048576 <= bytes < 1073741824 ==> size_text(bytes) == hundredths_text(
            round_half_even(bytes * 100, 1048576),
            " MB"@,
        ),
        1073741824 <= bytes < 0x20_0000_0000_0000 ==> size_text(bytes) == hundredths_text(
            round_half_even(bytes * 100, 1073741824),
            " GB"@,
        ),
{
    if bytes < 0x20_0000_0000_0000 {
        assert(float_unit(bytes) == 1);
        assert(bytes / 1 == bytes && bytes % 1 == 0);
        assert(to_double(bytes) == bytes);
    }
}

} // verus!
