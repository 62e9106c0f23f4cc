use vstd::prelude::*;
use chrono::{Datelike, Timelike};

verus! {

/// The earliest year a calendar date can carry (the range of chrono's `NaiveDate`).
pub const MIN_YEAR: i32 = -262143;

/// The latest year a calendar date can carry (the range of chrono's `NaiveDate`).
pub const MAX_YEAR: i32 = 262142;

/// A UTC date and time in the proleptic Gregorian calendar.
///
/// A nanosecond value of one billion or more marks a leap second; it may only
/// follow second 59 of a minute.
#[derive(Clone, Copy, Debug, PartialEq, Eq)]
pub struct UtcDateTime {
    pub year: i32,
    pub month: u32,
    pub day: u32,
    pub hour: u32,
    pub minute: u32,
    pub second: u32,
    pub nanosecond: u32,
}

/// Gregorian leap years: every fourth year, but not centuries unless divisible by 400.
pub open spec fn is_leap_year(y: int) -> bool {
    y % 4 == 0 && (y % 100 != 0 || y % 400 == 0)
}

/// The number of days in month `m` (1 to 12) of year `y`.
pub open spec fn days_in_month(y: int, m: int) -> int {
    if m == 2 {
        if is_leap_year(y) { 29 } else { 28 }
    } else if m == 4 || m == 6 || m == 9 || m == 11 {
        30
    } else {
        31
    }
}

/// Days from the first of January of year `y` to the first day of month `m`.
pub open spec fn days_before_month(y: int, m: int) -> int
    decreases m,
{
    if m <= 1 { 0 } else { days_before_month(y, m - 1) + days_in_month(y, m - 1) }
}

/// Days from 0000-01-01 to the first of January of year `y` (negative before it).
pub open spec fn days_before_year(y: int) -> int {
    365 * y + (y + 3) / 4 - (y + 99) / 100 + (y + 399) / 400
}

impl UtcDateTime {
    /// Each field lies in its calendar range and the day exists in its month.
    pub open spec fn wf(&self) -> bool {
        &&& MIN_YEAR <= self.year <= MAX_YEAR
        &&& 1 <= self.month <= 12
        &&& 1 <= self.day <= days_in_month(self.year as int, self.month as int)
        &&& self.hour < 24
        &&& self.minute < 60
        &&& self.second < 60
        &&& self.nanosecond < 2_000_000_000
        &&& self.nanosecond >= 1_000_000_000 ==> self.second == 59
    }

    /// The instant this value denotes, in nanoseconds after 0000-01-01T00:00:00.
    pub open spec fn instant_nanos(&self) -> int {
        let days = days_before_year(self.year as int) + days_before_month(
            self.year as int,
            self.month as int,
        ) + self.day - 1;
        let secs = days * 86400 + self.hour * 3600 + self.minute * 60 + self.second;
        secs * 1_000_000_000 + self.nanosecond
    }

    /// Builds a date and time from its fields, or `None` where they do not
    /// name one.
    pub fn new(
        year: i32,
        month: u32,
        day: u32,
        hour: u32,
        minute: u32,
        second: u32,
        nanosecond: u32,
    ) -> (r: Option<Self>)
        ensures
            r.is_some() <==> (UtcDateTime {
                year,
                month,
                day,
                hour,
                minute,
                second,
                nanosecond,
            }).wf(),
            r.is_some() ==> r.unwrap() == (UtcDateTime {
                year,
                month,
                day,
                hour,
                minute,
                second,
                nanosecond,
            }),
    {
        if year < MIN_YEAR || year > MAX_YEAR || month < 1 || month > 12 || day < 1 {
            return None;
        }
        if day > month_length(year, month) {
            return None;
        }
        if hour >= 24 || minute >= 60 || second >= 60 || nanosecond >= 2_000_000_000 {
            return None;
        }
        if nanosecond >= 1_000_000_000 && second != 59 {
            return None;
        }
        Some(UtcDateTime { year, month, day, hour, minute, second, nanosecond })
    }
}

fn leap_year(year: i32) -> (r: bool)
    requires
        MIN_YEAR <= year <= MAX_YEAR,
    ensures
        r == is_leap_year(year as int),
{
    // Shifting by a multiple of 400 keeps every remainder below and makes the
    // value non-negative, where Rust's `%` agrees with the Euclidean one.
    let y: u32 = (year as i64 + 400_000) as u32;
    assert(y as int % 4 == year as int % 4 && y as int % 100 == year as int % 100 && y as int
        % 400 == year as int % 400) by (nonlinear_arith)
        requires
            y as int == year as int + 400_000,
    ;
    y % 4 == 0 && (y % 100 != 0 || y % 400 == 0)
}

fn month_length(year: i32, month: u32) -> (r: u32)
    requires
        MIN_YEAR <= year <= MAX_YEAR,
        1 <= month <= 12,
    ensures
        r as int == days_in_month(year as int, month as int),
{
    if month == 2 {
        if leap_year(year) {
            29
        } else {
            28
        }
    } else if month == 4 || month == 6 || month == 9 || month == 11 {
        30
    } else {
        31
    }
}

/// The decimal digit character for `d`, which lies in 0 to 9.
pub open spec fn digit_char(d: int) -> char {
    ((48 + d) as u8) as char
}

/// The decimal digits of `n`, with leading zeros up to `width` digits.
pub open spec fn padded_digits(n: nat, width: nat) -> Seq<char>
    decreases n + width,
{
    if n < 10 && width <= 1 {
        seq![digit_char(n as int)]
    } else {
        padded_digits(
            n / 10,
            if width == 0 {
                0
            } else {
                (width - 1) as nat
            },
        ).push(digit_char(n as int % 10))
    }
}

/// The year as chrono writes it: four digits within 0 to 9999, else an
/// explicit sign followed by at least four digits.
pub open spec fn year_text(y: int) -> Seq<char> {
    if 0 <= y <= 9999 {
        padded_digits(y as nat, 4)
    } else if y < 0 {
        seq!['-'] + padded_digits((-y) as nat, 4)
    } else {
        seq!['+'] + padded_digits(y as nat, 4)
    }
}

/// The fractional second as chrono's automatic SI precision writes it:
/// nothing for a whole second, else a point and three, six or nine digits.
pub open spec fn fraction_text(nano: int) -> Seq<char> {
    if nano == 0 {
        seq![]
    } else if nano % 1_000_000 == 0 {
        seq!['.'] + padded_digits((nano / 1_000_000) as nat, 3)
    } else if nano % 1_000 == 0 {
        seq!['.'] + padded_digits((nano / 1_000) as nat, 6)
    } else {
        seq!['.'] + padded_digits(nano as nat, 9)
    }
}

/// The second and nanosecond as written: a leap second becomes second 60.
pub open spec fn written_second(t: UtcDateTime) -> (nat, int) {
    if t.nanosecond >= 1_000_000_000 {
        ((t.second + 1) as nat, t.nanosecond - 1_000_000_000)
    } else {
        (t.second as nat, t.nanosecond as int)
    }
}

/// `-MM-DDTHH:MM:SS`, the fixed-width part that follows the year.
pub open spec fn fields_text(t: UtcDateTime) -> Seq<char> {
    seq!['-'] + padded_digits(t.month as nat, 2) + seq!['-'] + padded_digits(t.day as nat, 2)
        + seq!['T'] + padded_digits(t.hour as nat, 2) + seq![':'] + padded_digits(
        t.minute as nat,
        2,
    ) + seq![':'] + padded_digits(written_second(t).0, 2)
}

/// Everything after the year: the fields, the fraction and the UTC offset.
pub open spec fn after_year_text(t: UtcDateTime) -> Seq<char> {
    fields_text(t) + fraction_text(written_second(t).1) + seq!['+', '0', '0', ':', '0', '0']
}

/// The RFC 3339 text of a UTC date and time, as `YYYY-MM-DDTHH:MM:SS[.f]+00:00`.
pub open spec fn rfc3339_text(t: UtcDateTime) -> Seq<char> {
    year_text(t.year as int) + after_year_text(t)
}

/// Relies on std's `SystemTime::elapsed`, measured from `UNIX_EPOCH`: the
/// time since 1970 as whole seconds and the nanoseconds past them, which
/// `Duration::subsec_nanos` keeps below one billion. `None` where the clock
/// reads before 1970.
#[verifier::external_body]
fn time_since_epoch() -> (r: Option<(u64, u32)>)
    ensures
        r.is_some() ==> r.unwrap().1 < 1_000_000_000,
{
    match std::time::UNIX_EPOCH.elapsed() {
        Ok(d) => Some((d.as_secs(), d.subsec_nanos())),
        Err(_) => None,
    }
}

/// Relies on chrono's `DateTime::<Utc>::from_timestamp`, read back through
/// its `Datelike` and `Timelike` accessors. `secs` counts non-leap seconds
/// since 1970-01-01T00:00:00 UTC; the nanoseconds are kept as given. chrono
/// gives `None` exactly where the date would pass its last year, or where
/// the nanoseconds are out of range.
#[verifier::external_body]
fn utc_from_timestamp(secs: i64, nanos: u32) -> (r: Option<UtcDateTime>)
    ensures
        r.is_some() ==> r.unwrap().wf(),
        r.is_some() ==> r.unwrap().nanosecond == nanos,
        r.is_some() && nanos < 1_000_000_000 ==> r.unwrap().instant_nanos() == (secs as int
            + (UNIX_EPOCH_SECS as int)) * 1_000_000_000 + nanos as int,
        nanos < 1_000_000_000 && 0 <= secs ==> (r.is_some() <==> secs as int + (UNIX_EPOCH_SECS as int)
            < 86400 * days_before_year(MAX_YEAR as int + 1)),
{
    match chrono::DateTime::from_timestamp(secs, nanos) {
        Some(t) => Some(UtcDateTime {
            year: t.year(),
            month: t.month(),
            day: t.day(),
            hour: t.hour(),
            minute: t.minute(),
            second: t.second(),
            nanosecond: t.nanosecond(),
        }),
        None => None,
    }
}

/// Seconds from 0000-01-01T00:00:00 to 1970-01-01T00:00:00, the Unix epoch.
pub const UNIX_EPOCH_SECS: u64 = 62_167_219_200;

impl UtcDateTime {
    /// The date and time `secs` seconds and `nanos` nanoseconds after the
    /// Unix epoch, or `None` where that lies beyond the last year a calendar
    /// date can carry.
    pub fn from_unix_time(secs: u64, nanos: u32) -> (r: Option<Self>)
        requires
            nanos < 1_000_000_000,
        ensures
            r.is_some() <==> secs as int + (UNIX_EPOCH_SECS as int) < 86400 * days_before_year(
                MAX_YEAR as int + 1,
            ),
            r.is_some() ==> r.unwrap().wf(),
            r.is_some() ==> r.unwrap().nanosecond == nanos,
            r.is_some() ==> r.unwrap().instant_nanos() == (secs as int + (UNIX_EPOCH_SECS as int))
                * 1_000_000_000 + nanos as int,
    {
        if secs > i64::MAX as u64 {
            assert(86400 * days_before_year(MAX_YEAR as int + 1) < 1_000_000_000_000_000);
            None
        } else {
            utc_from_timestamp(secs as i64, nanos)
        }
    }

    /// The current UTC date and time from the system clock, or `None` where
    /// the clock reads before 1970 or beyond the last year a calendar date
    /// can carry. A value read from the clock is never a leap second.
    pub fn now() -> (r: Option<Self>)
        ensures
            r.is_some() ==> r.unwrap().wf(),
            r.is_some() ==> r.unwrap().nanosecond < 1_000_000_000,
    {
        match time_since_epoch() {
            Some((secs, nanos)) => Self::from_unix_time(secs, nanos),
            None => None,
        }
    }
}

/// Relies on chrono's `DateTime::<Utc>::to_rfc3339` (automatic SI precision,
/// offset written as `+00:00`), on the value that `NaiveDate::from_ymd_opt`,
/// `NaiveDate::and_hms_nano_opt` and `NaiveDateTime::and_utc` build from the
/// fields; both constructors accept exactly the well-formed fields.
#[verifier::external_body]
pub(crate) fn format_rfc3339(t: &UtcDateTime) -> (r: String)
    requires
        t.wf(),
    ensures
        r@ == rfc3339_text(*t),
{
    chrono::NaiveDate::from_ymd_opt(t.year, t.month, t.day)
        .unwrap()
        .and_hms_nano_opt(t.hour, t.minute, t.second, t.nanosecond)
        .unwrap()
        .and_utc()
        .to_rfc3339()
}

/// A decimal digit character.
pub open spec fn is_digit(c: char) -> bool {
    '0' <= c <= '9'
}

/// The number that a sequence of decimal digits spells.
pub open spec fn digits_value(s: Seq<char>) -> int
    decreases s.len(),
{
    if s.len() == 0 {
        0
    } else {
        digits_value(s.drop_last()) * 10 + (s.last() as int - 48)
    }
}

/// Ten to the power `w`.
pub open spec fn pow10(w: nat) -> nat
    decreases w,
{
    if w == 0 { 1 } else { 10 * pow10((w - 1) as nat) }
}

proof fn lemma_digit_char(d: int)
    requires
        0 <= d < 10,
    ensures
        digit_char(d) as int == 48 + d,
        is_digit(digit_char(d)),
{
}

/// Padded digits are all digits, spell `n`, and take exactly `width` places
/// when `n` has no more digits than that.
proof fn lemma_padded_digits(n: nat, width: nat)
    ensures
        padded_digits(n, width).len() >= 1,
        padded_digits(n, width).len() >= width,
        forall|i: int|
            0 <= i < padded_digits(n, width).len() ==> is_digit(#[trigger] padded_digits(n, width)[i]),
        digits_value(padded_digits(n, width)) == n,
        width >= 1 && n < pow10(width) ==> padded_digits(n, width).len() == width,
    decreases n + width,
{
    let p = padded_digits(n, width);
    if n < 10 && width <= 1 {
        lemma_digit_char(n as int);
        assert(p.drop_last() =~= Seq::<char>::empty());
        assert(digits_value(Seq::<char>::empty()) == 0);
        assert(digits_value(p) == digits_value(p.drop_last()) * 10 + (p.last() as int - 48));
        if width == 1 {
            assert(pow10(0) == 1);
        }
    } else {
        let w1: nat = if width == 0 { 0 } else { (width - 1) as nat };
        lemma_padded_digits(n / 10, w1);
        lemma_digit_char(n as int % 10);
        let q = padded_digits(n / 10, w1);
        assert(p =~= q.push(digit_char(n as int % 10)));
        assert(p.drop_last() =~= q);
        assert(n == (n / 10) * 10 + n % 10);
        assert(digits_value(p) == digits_value(q) * 10 + (p.last() as int - 48));
        if width >= 1 && n < pow10(width) {
            assert(pow10(width) == 10 * pow10(w1));
            assert(n / 10 < pow10(w1)) by (nonlinear_arith)
                requires
                    n < 10 * pow10(w1),
            ;
            if w1 == 0 {
                assert(pow10(0) == 1);
            }
        }
    }
}

/// Equal padded digits of one width spell equal numbers.
proof fn lemma_padded_digits_injective(n1: nat, n2: nat, w1: nat, w2: nat)
    requires
        padded_digits(n1, w1) == padded_digits(n2, w2),
    ensures
        n1 == n2,
{
    lemma_padded_digits(n1, w1);
    lemma_padded_digits(n2, w2);
}

proof fn lemma_year_text(y: int)
    ensures
        year_text(y).len() >= 4,
        forall|i: int| 1 <= i < year_text(y).len() ==> is_digit(#[trigger] year_text(y)[i]),
        is_digit(year_text(y)[0]) <==> 0 <= y <= 9999,
        year_text(y)[0] == '-' <==> y < 0,
{
    let yt = year_text(y);
    if 0 <= y <= 9999 {
        lemma_padded_digits(y as nat, 4);
        assert(is_digit(yt[0]));
    } else {
        let m: nat = if y < 0 { (-y) as nat } else { y as nat };
        lemma_padded_digits(m, 4);
        let p = padded_digits(m, 4);
        assert forall|i: int| 1 <= i < yt.len() implies is_digit(#[trigger] yt[i]) by {
            assert(yt[i] == p[i - 1]);
        }
    }
}

proof fn lemma_year_text_injective(y1: int, y2: int)
    requires
        year_text(y1) == year_text(y2),
    ensures
        y1 == y2,
{
    lemma_year_text(y1);
    lemma_year_text(y2);
    let yt = year_text(y1);
    if 0 <= y1 <= 9999 {
        lemma_padded_digits_injective(y1 as nat, y2 as nat, 4, 4);
    } else {
        let m1: nat = if y1 < 0 { (-y1) as nat } else { y1 as nat };
        let m2: nat = if y2 < 0 { (-y2) as nat } else { y2 as nat };
        assert(yt.drop_first() =~= padded_digits(m1, 4));
        assert(year_text(y2).drop_first() =~= padded_digits(m2, 4));
        lemma_padded_digits_injective(m1, m2, 4, 4);
    }
}

proof fn lemma_pow10_values()
    ensures
        pow10(2) == 100,
        pow10(3) == 1000,
        pow10(6) == 1_000_000,
        pow10(9) == 1_000_000_000,
{
    reveal_with_fuel(pow10, 10);
}

proof fn lemma_fraction_text_injective(n1: int, n2: int)
    requires
        0 <= n1 < 1_000_000_000,
        0 <= n2 < 1_000_000_000,
        fraction_text(n1) == fraction_text(n2),
    ensures
        n1 == n2,
{
    lemma_pow10_values();
    lemma_fraction_text_len(n1);
    lemma_fraction_text_len(n2);
    let f = fraction_text(n1);
    if f.len() == 4 {
        assert(f.drop_first() =~= padded_digits((n1 / 1_000_000) as nat, 3));
        assert(fraction_text(n2).drop_first() =~= padded_digits((n2 / 1_000_000) as nat, 3));
        lemma_padded_digits_injective((n1 / 1_000_000) as nat, (n2 / 1_000_000) as nat, 3, 3);
    } else if f.len() == 7 {
        assert(f.drop_first() =~= padded_digits((n1 / 1_000) as nat, 6));
        assert(fraction_text(n2).drop_first() =~= padded_digits((n2 / 1_000) as nat, 6));
        lemma_padded_digits_injective((n1 / 1_000) as nat, (n2 / 1_000) as nat, 6, 6);
    } else if f.len() == 10 {
        assert(f.drop_first() =~= padded_digits(n1 as nat, 9));
        assert(fraction_text(n2).drop_first() =~= padded_digits(n2 as nat, 9));
        lemma_padded_digits_injective(n1 as nat, n2 as nat, 9, 9);
    }
}

proof fn lemma_fraction_text_len(n: int)
    requires
        0 <= n < 1_000_000_000,
    ensures
        n == 0 <==> fraction_text(n).len() == 0,
        n != 0 && n % 1_000_000 == 0 <==> fraction_text(n).len() == 4,
        n % 1_000_000 != 0 && n % 1_000 == 0 <==> fraction_text(n).len() == 7,
        n % 1_000 != 0 <==> fraction_text(n).len() == 10,
{
    lemma_pow10_values();
    lemma_padded_digits((n / 1_000_000) as nat, 3);
    lemma_padded_digits((n / 1_000) as nat, 6);
    lemma_padded_digits(n as nat, 9);
    if n == 0 {
        assert(n % 1_000 == 0);
    } else if n % 1_000_000 == 0 {
        assert(n / 1_000_000 < 1000);
        assert(n % 1_000 == 0) by (nonlinear_arith)
            requires
                n % 1_000_000 == 0,
                n > 0,
        ;
    } else if n % 1_000 == 0 {
        assert(n / 1_000 < 1_000_000);
    }
}

proof fn lemma_fields_text(t: UtcDateTime)
    requires
        t.wf(),
    ensures
        fields_text(t).len() == 15,
        fields_text(t).subrange(1, 3) == padded_digits(t.month as nat, 2),
        fields_text(t).subrange(4, 6) == padded_digits(t.day as nat, 2),
        fields_text(t).subrange(7, 9) == padded_digits(t.hour as nat, 2),
        fields_text(t).subrange(10, 12) == padded_digits(t.minute as nat, 2),
        fields_text(t).subrange(13, 15) == padded_digits(written_second(t).0, 2),
{
    lemma_pow10_values();
    lemma_padded_digits(t.month as nat, 2);
    lemma_padded_digits(t.day as nat, 2);
    lemma_padded_digits(t.hour as nat, 2);
    lemma_padded_digits(t.minute as nat, 2);
    lemma_padded_digits(written_second(t).0, 2);
    let f = fields_text(t);
    assert(f.subrange(1, 3) =~= padded_digits(t.month as nat, 2));
    assert(f.subrange(4, 6) =~= padded_digits(t.day as nat, 2));
    assert(f.subrange(7, 9) =~= padded_digits(t.hour as nat, 2));
    assert(f.subrange(10, 12) =~= padded_digits(t.minute as nat, 2));
    assert(f.subrange(13, 15) =~= padded_digits(written_second(t).0, 2));
}

/// Distinct valid dates and times have distinct RFC 3339 texts.
pub proof fn lemma_rfc3339_text_injective(a: UtcDateTime, b: UtcDateTime)
    requires
        a.wf(),
        b.wf(),
        rfc3339_text(a) == rfc3339_text(b),
    ensures
        a == b,
{
    let s = rfc3339_text(a);
    let ya = year_text(a.year as int);
    let yb = year_text(b.year as int);
    let ra = after_year_text(a);
    let rb = after_year_text(b);
    lemma_year_text(a.year as int);
    lemma_year_text(b.year as int);
    lemma_fields_text(a);
    lemma_fields_text(b);
    assert(ra[0] == '-');
    assert(rb[0] == '-');
    // The year ends where the first '-' after its first character stands.
    if ya.len() < yb.len() {
        assert(s[ya.len() as int] == ra[0]);
        assert(s[ya.len() as int] == yb[ya.len() as int]);
    } else if yb.len() < ya.len() {
        assert(s[yb.len() as int] == rb[0]);
        assert(s[yb.len() as int] == ya[yb.len() as int]);
    }
    assert(ya =~= s.subrange(0, ya.len() as int));
    assert(yb =~= s.subrange(0, yb.len() as int));
    assert(ra =~= s.subrange(ya.len() as int, s.len() as int));
    assert(rb =~= s.subrange(yb.len() as int, s.len() as int));
    lemma_year_text_injective(a.year as int, b.year as int);

    let fa = fields_text(a);
    let fb = fields_text(b);
    assert(fa =~= ra.subrange(0, 15));
    assert(fb =~= rb.subrange(0, 15));
    assert(fa.subrange(1, 3) == fb.subrange(1, 3));
    lemma_padded_digits_injective(a.month as nat, b.month as nat, 2, 2);
    assert(fa.subrange(4, 6) == fb.subrange(4, 6));
    lemma_padded_digits_injective(a.day as nat, b.day as nat, 2, 2);
    assert(fa.subrange(7, 9) == fb.subrange(7, 9));
    lemma_padded_digits_injective(a.hour as nat, b.hour as nat, 2, 2);
    assert(fa.subrange(10, 12) == fb.subrange(10, 12));
    lemma_padded_digits_injective(a.minute as nat, b.minute as nat, 2, 2);
    assert(fa.subrange(13, 15) == fb.subrange(13, 15));
    lemma_padded_digits_injective(written_second(a).0, written_second(b).0, 2, 2);

    let na = written_second(a).1;
    let nb = written_second(b).1;
    assert(fraction_text(na) =~= ra.subrange(15, ra.len() - 6));
    assert(fraction_text(nb) =~= rb.subrange(15, rb.len() - 6));
    lemma_fraction_text_injective(na, nb);
}

} // verus!
