//! Calendar dates, times of day, and UTC timestamps, with their fixed-width
//! textual forms `YYYY-MM-DD` and `HH:MM:SS`, and RFC 3339 for timestamps.

use vstd::prelude::*;
use vstd::utf8::encode_utf8;

verus! {

/// Proleptic-Gregorian leap year.
pub open spec fn is_leap_year(y: int) -> bool {
    y % 4 == 0 && (y % 100 != 0 || y % 400 == 0)
}

/// Number of days in month `m` of year `y`.
pub open spec fn days_in_month(y: int, m: int) -> int
    recommends
        1 <= m <= 12,
{
    if m == 2 {
        if is_leap_year(y) { 29 } else { 28 }
    } else if m == 4 || m == 6 || m == 9 || m == 11 {
        30
    } else {
        31
    }
}

/// A calendar date with a four-digit year, valid in the proleptic Gregorian
/// calendar.
pub open spec fn valid_ymd(y: int, m: int, d: int) -> bool {
    0 <= y <= 9999 && 1 <= m <= 12 && 1 <= d <= days_in_month(y, m)
}

/// A valid time of day, whole seconds.
pub open spec fn valid_hms(h: int, mi: int, s: int) -> bool {
    0 <= h <= 23 && 0 <= mi <= 59 && 0 <= s <= 59
}

/// ASCII digit byte for a digit value.
pub open spec fn dig(v: int) -> u8
    recommends
        0 <= v < 10,
{
    (48 + v) as u8
}

pub open spec fn is_digit(b: u8) -> bool {
    48 <= b <= 57
}

/// A calendar date, no time of day, no timezone.
#[derive(Debug, Clone, Copy, PartialEq, Eq, Structural)]
pub struct Date {
    pub y: u16,
    pub m: u8,
    pub d: u8,
}

/// A time of day, no date, no timezone.
#[derive(Debug, Clone, Copy, PartialEq, Eq, Structural)]
pub struct Time {
    pub h: u8,
    pub mi: u8,
    pub s: u8,
}

/// An instant in time, normalized to UTC. A leap second is carried as a
/// nanosecond count of at least one billion on second fifty-nine.
#[derive(Debug, Clone, Copy, PartialEq, Eq, Structural)]
pub struct Timestamp {
    pub y: i32,
    pub mo: u8,
    pub d: u8,
    pub h: u8,
    pub mi: u8,
    pub s: u8,
    pub n: u32,
}

impl Date {
    pub open spec fn wf(self) -> bool {
        valid_ymd(self.y as int, self.m as int, self.d as int)
    }

    pub open spec fn spec_y(self) -> int { self.y as int }

    pub open spec fn spec_m(self) -> int { self.m as int }

    pub open spec fn spec_d(self) -> int { self.d as int }

    /// Builds the calendar date `y-m-d`; rejects invalid dates.
    pub fn new(y: u16, m: u8, d: u8) -> (r: Option<Date>)
        ensures
            match r {
                Some(date) => date.wf() && date.spec_y() == y as int
                    && date.spec_m() == m as int && date.spec_d() == d as int,
                None => !valid_ymd(y as int, m as int, d as int),
            },
    {
        if y <= 9999 && 1 <= m && m <= 12 && 1 <= d && d <= days_in_month_exec(y, m) {
            Some(Date { y, m, d })
        } else {
            None
        }
    }

    /// The canonical text `YYYY-MM-DD`, as UTF-8 bytes.
    pub open spec fn spec_text(self) -> Seq<u8> {
        date_text(self.y as int, self.m as int, self.d as int)
    }
}

impl Time {
    pub open spec fn wf(self) -> bool {
        valid_hms(self.h as int, self.mi as int, self.s as int)
    }

    pub open spec fn spec_h(self) -> int { self.h as int }

    pub open spec fn spec_mi(self) -> int { self.mi as int }

    pub open spec fn spec_s(self) -> int { self.s as int }

    /// Builds the time of day `h:mi:s`; rejects invalid times.
    pub fn new(h: u8, mi: u8, s: u8) -> (r: Option<Time>)
        ensures
            match r {
                Some(t) => t.wf() && t.spec_h() == h as int && t.spec_mi() == mi as int
                    && t.spec_s() == s as int,
                None => !valid_hms(h as int, mi as int, s as int),
            },
    {
        if h <= 23 && mi <= 59 && s <= 59 {
            Some(Time { h, mi, s })
        } else {
            None
        }
    }

    /// The canonical text `HH:MM:SS`, as UTF-8 bytes.
    pub open spec fn spec_text(self) -> Seq<u8> {
        time_text(self.h as int, self.mi as int, self.s as int)
    }
}

impl Timestamp {
    /// Well-formed: a valid UTC instant with a four-digit year, leap seconds
    /// only on second fifty-nine.
    pub open spec fn wf(self) -> bool {
        valid_ymd(self.y as int, self.mo as int, self.d as int)
            && valid_hms(self.h as int, self.mi as int, self.s as int)
            && self.n < 2_000_000_000 && (self.n >= 1_000_000_000 ==> self.s == 59)
    }

    /// What the external parser guarantees of every instant it returns:
    /// calendar-valid fields, though the year may lie outside four digits.
    pub open spec fn fields_ok(self) -> bool {
        1 <= self.mo as int <= 12 && 1 <= self.d as int <= days_in_month(
            self.y as int,
            self.mo as int,
        ) && valid_hms(self.h as int, self.mi as int, self.s as int) && self.n < 2_000_000_000
            && (self.n >= 1_000_000_000 ==> self.s == 59)
    }

    /// The fields as one tuple: year, month, day, hour, minute, second,
    /// nanosecond.
    pub open spec fn tuple(self) -> (int, int, int, int, int, int, int) {
        (self.y as int, self.mo as int, self.d as int, self.h as int, self.mi as int,
        self.s as int, self.n as int)
    }

    pub open spec fn spec_y(self) -> int { self.y as int }

    /// Builds the UTC instant; rejects fields outside the representable
    /// ranges.
    pub fn new(y: i32, mo: u8, d: u8, h: u8, mi: u8, s: u8, n: u32) -> (r: Option<Timestamp>)
        ensures
            match r {
                Some(t) => t.wf() && t.tuple() == (y as int, mo as int, d as int, h as int,
                mi as int, s as int, n as int),
                None => !(Timestamp { y, mo, d, h, mi, s, n }).wf(),
            },
    {
        if 0 <= y && y <= 9999 && 1 <= mo && mo <= 12 && 1 <= d
            && d <= days_in_month_exec(y as u16, mo) && h <= 23 && mi <= 59 && s <= 59
            && n < 2_000_000_000 && (n < 1_000_000_000 || s == 59) {
            Some(Timestamp { y, mo, d, h, mi, s, n })
        } else {
            None
        }
    }

    /// Whether the year has four digits, the range this library serializes.
    pub fn year_in_range(&self) -> (r: bool)
        ensures
            r == (0 <= self.spec_y() <= 9999),
    {
        0 <= self.y && self.y <= 9999
    }
}

/// Days in month, executable form.
pub fn days_in_month_exec(y: u16, m: u8) -> (r: u8)
    requires
        1 <= m <= 12,
    ensures
        r as int == days_in_month(y as int, m as int),
{
    if m == 2 {
        if y % 4 == 0 && (y % 100 != 0 || y % 400 == 0) { 29 } else { 28 }
    } else if m == 4 || m == 6 || m == 9 || m == 11 {
        30
    } else {
        31
    }
}

/// The ten bytes of `YYYY-MM-DD`.
pub open spec fn date_text(y: int, m: int, d: int) -> Seq<u8> {
    seq![
        dig(y / 1000), dig(y / 100 % 10), dig(y / 10 % 10), dig(y % 10),
        45u8,
        dig(m / 10), dig(m % 10),
        45u8,
        dig(d / 10), dig(d % 10),
    ]
}

/// The eight bytes of `HH:MM:SS`.
pub open spec fn time_text(h: int, mi: int, s: int) -> Seq<u8> {
    seq![
        dig(h / 10), dig(h % 10),
        58u8,
        dig(mi / 10), dig(mi % 10),
        58u8,
        dig(s / 10), dig(s % 10),
    ]
}

/// What classifying ten bytes as `YYYY-MM-DD` yields: the calendar date, or
/// nothing when the shape or the calendar rejects them.
pub open spec fn spec_date_parse(s: Seq<u8>) -> Option<Date> {
    if s.len() == 10 && is_digit(s[0]) && is_digit(s[1]) && is_digit(s[2]) && is_digit(s[3])
        && s[4] == 45u8 && is_digit(s[5]) && is_digit(s[6]) && s[7] == 45u8 && is_digit(s[8])
        && is_digit(s[9]) {
        let y = (s[0] - 48) * 1000 + (s[1] - 48) * 100 + (s[2] - 48) * 10 + (s[3] - 48);
        let m = (s[5] - 48) * 10 + (s[6] - 48);
        let d = (s[8] - 48) * 10 + (s[9] - 48);
        if valid_ymd(y as int, m as int, d as int) {
            Some(Date { y: y as u16, m: m as u8, d: d as u8 })
        } else {
            None
        }
    } else {
        None
    }
}

/// What classifying eight bytes as `HH:MM:SS` yields.
pub open spec fn spec_time_parse(s: Seq<u8>) -> Option<Time> {
    if s.len() == 8 && is_digit(s[0]) && is_digit(s[1]) && s[2] == 58u8 && is_digit(s[3])
        && is_digit(s[4]) && s[5] == 58u8 && is_digit(s[6]) && is_digit(s[7]) {
        let h = (s[0] - 48) * 10 + (s[1] - 48);
        let mi = (s[3] - 48) * 10 + (s[4] - 48);
        let sec = (s[6] - 48) * 10 + (s[7] - 48);
        if valid_hms(h as int, mi as int, sec as int) {
            Some(Time { h: h as u8, mi: mi as u8, s: sec as u8 })
        } else {
            None
        }
    } else {
        None
    }
}

/// Parses `YYYY-MM-DD` from the byte form of a wire string.
pub fn date_parse(b: &[u8]) -> (r: Option<Date>)
    ensures
        r == spec_date_parse(b@),
{
    if b.len() != 10 {
        return None;
    }
    let d0 = b[0]; let d1 = b[1]; let d2 = b[2]; let d3 = b[3];
    let m0 = b[5]; let m1 = b[6];
    let day0 = b[8]; let day1 = b[9];
    if !(48 <= d0 && d0 <= 57 && 48 <= d1 && d1 <= 57 && 48 <= d2 && d2 <= 57 && 48 <= d3
        && d3 <= 57 && b[4] == 45 && 48 <= m0 && m0 <= 57 && 48 <= m1 && m1 <= 57 && b[7] == 45
        && 48 <= day0 && day0 <= 57 && 48 <= day1 && day1 <= 57) {
        return None;
    }
    let y: u16 = (d0 - 48) as u16 * 1000 + (d1 - 48) as u16 * 100 + (d2 - 48) as u16 * 10 + (d3
        - 48) as u16;
    let m: u8 = (m0 - 48) * 10 + (m1 - 48);
    let d: u8 = (day0 - 48) * 10 + (day1 - 48);
    if 1 <= m && m <= 12 && 1 <= d && d <= days_in_month_exec(y, m) {
        Some(Date { y, m, d })
    } else {
        None
    }
}

/// Parses `HH:MM:SS` from the byte form of a wire string.
pub fn time_parse(b: &[u8]) -> (r: Option<Time>)
    ensures
        r == spec_time_parse(b@),
{
    if b.len() != 8 {
        return None;
    }
    let h0 = b[0]; let h1 = b[1];
    let m0 = b[3]; let m1 = b[4];
    let s0 = b[6]; let s1 = b[7];
    if !(48 <= h0 && h0 <= 57 && 48 <= h1 && h1 <= 57 && b[2] == 58 && 48 <= m0 && m0 <= 57
        && 48 <= m1 && m1 <= 57 && b[5] == 58 && 48 <= s0 && s0 <= 57 && 48 <= s1 && s1 <= 57) {
        return None;
    }
    let h: u8 = (h0 - 48) * 10 + (h1 - 48);
    let mi: u8 = (m0 - 48) * 10 + (m1 - 48);
    let s: u8 = (s0 - 48) * 10 + (s1 - 48);
    if h <= 23 && mi <= 59 && s <= 59 {
        Some(Time { h, mi, s })
    } else {
        None
    }
}

/// Renders a valid date as `YYYY-MM-DD`.
pub fn date_format(d: &Date) -> (r: Vec<u8>)
    requires
        d.wf(),
    ensures
        r@ == d.spec_text(),
{
    let mut v: Vec<u8> = Vec::new();
    v.push(48 + (d.y / 1000) as u8);
    v.push(48 + (d.y / 100 % 10) as u8);
    v.push(48 + (d.y / 10 % 10) as u8);
    v.push(48 + (d.y % 10) as u8);
    v.push(45);
    v.push(48 + d.m / 10);
    v.push(48 + d.m % 10);
    v.push(45);
    v.push(48 + d.d / 10);
    v.push(48 + d.d % 10);
    assert(v@ =~= d.spec_text());
    v
}

/// Renders a valid time as `HH:MM:SS`.
pub fn time_format(t: &Time) -> (r: Vec<u8>)
    requires
        t.wf(),
    ensures
        r@ == t.spec_text(),
{
    let mut v: Vec<u8> = Vec::new();
    v.push(48 + t.h / 10);
    v.push(48 + t.h % 10);
    v.push(58);
    v.push(48 + t.mi / 10);
    v.push(48 + t.mi % 10);
    v.push(58);
    v.push(48 + t.s / 10);
    v.push(48 + t.s % 10);
    assert(v@ =~= t.spec_text());
    v
}

/// Rendering a valid date yields text the date parser maps back to the same
/// date, and too short for any other textual form here.
pub proof fn lemma_date_text_parses(d: Date)
    requires
        d.wf(),
    ensures
        spec_date_parse(d.spec_text()) == Some(d),
        d.spec_text().len() == 10,
{
    let s = d.spec_text();
    let y = d.spec_y();
    assert(y == (y / 1000) * 1000 + (y / 100 % 10) * 100 + (y / 10 % 10) * 10 + y % 10
        && 0 <= y / 1000 < 10 && 0 <= y / 100 % 10 < 10 && 0 <= y / 10 % 10 < 10) by (nonlinear_arith)
        requires
            0 <= y <= 9999,
    ;
    let m = d.spec_m();
    let dd = d.spec_d();
    assert(m == (m / 10) * 10 + m % 10 && dd == (dd / 10) * 10 + dd % 10);
}

/// Rendering a valid time yields text the time parser maps back to the same
/// time.
pub proof fn lemma_time_text_parses(t: Time)
    requires
        t.wf(),
    ensures
        spec_time_parse(t.spec_text()) == Some(t),
        t.spec_text().len() == 8,
        spec_date_parse(t.spec_text()) is None,
{
    let h = t.spec_h();
    let mi = t.spec_mi();
    let s = t.spec_s();
    assert(h == (h / 10) * 10 + h % 10 && mi == (mi / 10) * 10 + mi % 10 && s == (s / 10) * 10 + s
        % 10);
}

/// The fixed skeleton every RFC 3339 text has: at least nineteen bytes,
/// date dashes at positions four and seven, time colons at thirteen and
/// sixteen. The external parser rejects anything else outright.
pub open spec fn rfc3339_shape(s: Seq<u8>) -> bool {
    s.len() >= 19 && s[4] == 45u8 && s[7] == 45u8 && s[13] == 58u8 && s[16] == 58u8
}

/// What the external RFC 3339 parser returns for a wire string: the UTC
/// instant's year, month, day, hour, minute, second and nanosecond fields,
/// or nothing when the text is not an RFC 3339 timestamp.
pub uninterp spec fn rfc3339_parse_of(s: Seq<u8>) -> Option<(int, int, int, int, int, int, int)>;

/// What the external RFC 3339 renderer emits for a valid UTC instant.
pub uninterp spec fn rfc3339_text_of(t: (int, int, int, int, int, int, int)) -> Seq<u8>;

} // verus!

verus! {

/// Relies on chrono's `DateTime::parse_from_rfc3339` followed by conversion
/// to UTC: the outcome depends on the text alone; every instant chrono
/// returns carries calendar-valid fields (leap seconds as a nanosecond count
/// of at least one billion on second fifty-nine); and the parser accepts
/// only texts with the fixed RFC 3339 skeleton.
#[verifier::external_body]
pub(crate) fn ts_parse(s: &str) -> (r: Option<Timestamp>)
    ensures
        match r {
            Some(t) => rfc3339_parse_of(encode_utf8(s@)) == Some(t.tuple()) && t.fields_ok()
                && rfc3339_shape(encode_utf8(s@)),
            None => rfc3339_parse_of(encode_utf8(s@)) is None,
        },
{
    match chrono::DateTime::parse_from_rfc3339(s) {
        Ok(dt) => {
            let u = dt.with_timezone(&chrono::Utc);
            Some(Timestamp {
                y: chrono::Datelike::year(&u),
                mo: chrono::Datelike::month(&u) as u8,
                d: chrono::Datelike::day(&u) as u8,
                h: chrono::Timelike::hour(&u) as u8,
                mi: chrono::Timelike::minute(&u) as u8,
                s: chrono::Timelike::second(&u) as u8,
                n: chrono::Timelike::nanosecond(&u),
            })
        },
        Err(_) => None,
    }
}

/// Relies on chrono's `to_rfc3339` on a UTC instant rebuilt from the fields:
/// the text depends on the fields alone, carries the fixed RFC 3339 skeleton
/// with a four-digit year, and chrono's RFC 3339 parser maps it back to the
/// same instant.
#[verifier::external_body]
pub(crate) fn ts_format(t: &Timestamp) -> (r: String)
    requires
        t.wf(),
    ensures
        encode_utf8(r@) == rfc3339_text_of(t.tuple()),
        rfc3339_parse_of(encode_utf8(r@)) == Some(t.tuple()),
        encode_utf8(r@).len() >= 20,
        rfc3339_shape(encode_utf8(r@)),
{
    let d = chrono::NaiveDate::from_ymd_opt(t.y, t.mo as u32, t.d as u32).unwrap();
    let tm = chrono::NaiveTime::from_hms_nano_opt(t.h as u32, t.mi as u32, t.s as u32, t.n)
        .unwrap();
    let dt = chrono::NaiveDateTime::new(d, tm).and_utc();
    dt.to_rfc3339()
}

} // verus!
