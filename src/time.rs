//! A UTC timestamp with millisecond precision and its textual forms.
use vstd::prelude::*;
use crate::text::{decimal, push_decimal, push_all};

verus! {

/// A UTC date and time to the millisecond. `second` is 60 only on a leap second.
#[derive(Clone, Copy, Debug, PartialEq, Eq, Structural)]
pub struct Timestamp {
    pub year: i32,
    pub month: u8,
    pub day: u8,
    pub hour: u8,
    pub minute: u8,
    pub second: u8,
    pub millisecond: u16,
}

impl Timestamp {
    /// Every field lies in its calendar range.
    pub open spec fn wf(self) -> bool {
        &&& 1 <= self.month <= 12
        &&& 1 <= self.day <= 31
        &&& self.hour < 24
        &&& self.minute < 60
        &&& self.second <= 60
        &&& self.millisecond < 1000
    }
}

/// `n` zero characters.
pub open spec fn zeros(n: nat) -> Seq<char>
    decreases n,
{
    if n == 0 {
        seq![]
    } else {
        zeros((n - 1) as nat).push('0')
    }
}

/// `n` in decimal, left-padded with zeros to at least `w` digits.
pub open spec fn padded(n: nat, w: nat) -> Seq<char> {
    if decimal(n).len() >= w {
        decimal(n)
    } else {
        zeros((w - decimal(n).len()) as nat) + decimal(n)
    }
}

/// The year as RFC 3339 writes it: four digits in 0..=9999, else a sign and at
/// least four digits.
pub open spec fn year_text(y: i32) -> Seq<char> {
    if 0 <= y <= 9999 {
        padded(y as nat, 4)
    } else if y < 0 {
        seq!['-'] + padded((-y) as nat, 4)
    } else {
        seq!['+'] + padded(y as nat, 4)
    }
}

/// `HH:MM:SS.mmm`.
pub open spec fn clock_text(t: Timestamp) -> Seq<char> {
    padded(t.hour as nat, 2) + seq![':'] + padded(t.minute as nat, 2) + seq![':'] + padded(
        t.second as nat,
        2,
    ) + seq!['.'] + padded(t.millisecond as nat, 3)
}

/// `YYYY-MM-DDTHH:MM:SS.mmmZ`: RFC 3339 with milliseconds and the UTC designator.
pub open spec fn rfc3339(t: Timestamp) -> Seq<char> {
    year_text(t.year) + seq!['-'] + padded(t.month as nat, 2) + seq!['-'] + padded(t.day as nat, 2)
        + seq!['T'] + clock_text(t) + seq!['Z']
}

/// Appends `padded(n, w)`.
fn push_padded(out: &mut Vec<char>, n: u64, w: usize)
    ensures
        final(out)@ == old(out)@ + padded(n as nat, w as nat),
{
    let mut digits: Vec<char> = Vec::new();
    push_decimal(&mut digits, n);
    assert(digits@ =~= decimal(n as nat));
    let ghost start = out@;
    let mut k: usize = digits.len();
    while k < w
        invariant
            digits@.len() <= k,
            k <= w || k == digits@.len(),
            out@ == start + zeros((k - digits@.len()) as nat),
        decreases w - k,
    {
        out.push('0');
        k = k + 1;
        assert(zeros((k - digits@.len()) as nat) == zeros((k - 1 - digits@.len()) as nat).push('0'));
    }
    push_all(out, &digits);
    if digits.len() >= w {
        assert(zeros(0) == Seq::<char>::empty());
    }
    assert(final(out)@ =~= old(out)@ + padded(n as nat, w as nat));
}

/// Appends `clock_text(t)`.
pub fn push_clock(out: &mut Vec<char>, t: &Timestamp)
    ensures
        final(out)@ == old(out)@ + clock_text(*t),
{
    push_padded(out, t.hour as u64, 2);
    out.push(':');
    push_padded(out, t.minute as u64, 2);
    out.push(':');
    push_padded(out, t.second as u64, 2);
    out.push('.');
    push_padded(out, t.millisecond as u64, 3);
    assert(final(out)@ =~= old(out)@ + clock_text(*t));
}

/// Appends `rfc3339(t)`.
pub fn push_rfc3339(out: &mut Vec<char>, t: &Timestamp)
    ensures
        final(out)@ == old(out)@ + rfc3339(*t),
{
    if 0 <= t.year && t.year <= 9999 {
        push_padded(out, t.year as u64, 4);
    } else if t.year < 0 {
        out.push('-');
        let m: u64 = (0i64 - t.year as i64) as u64;
        push_padded(out, m, 4);
    } else {
        out.push('+');
        push_padded(out, t.year as u64, 4);
    }
    out.push('-');
    push_padded(out, t.month as u64, 2);
    out.push('-');
    push_padded(out, t.day as u64, 2);
    out.push('T');
    push_clock(out, t);
    out.push('Z');
    assert(final(out)@ =~= old(out)@ + rfc3339(*t));
}

/// The date-time parts that chrono's relaxed RFC 3339 parser reads from `s`,
/// converted to UTC: year, month, day, hour, minute, second, nanosecond.
pub uninterp spec fn utc_parts(s: Seq<char>) -> Option<(i32, u32, u32, u32, u32, u32, u32)>;

/// Relies on chrono's `FromStr for DateTime<Utc>` and its `Datelike` / `Timelike`
/// accessors: the result depends on `s` alone, and chrono documents the ranges
/// of month, day, hour, minute, second and nanosecond (above a billion on a
/// leap second).
#[verifier::external_body]
fn parse_utc(s: &str) -> (r: Option<(i32, u32, u32, u32, u32, u32, u32)>)
    ensures
        r == utc_parts(s@),
        r matches Some(p) ==> 1 <= p.1 <= 12 && 1 <= p.2 <= 31 && p.3 < 24 && p.4 < 60 && p.5
            < 60 && p.6 < 2_000_000_000,
{
    match s.parse::<chrono::DateTime<chrono::Utc>>() {
        Ok(t) => Some(
            (
                chrono::Datelike::year(&t),
                chrono::Datelike::month(&t),
                chrono::Datelike::day(&t),
                chrono::Timelike::hour(&t),
                chrono::Timelike::minute(&t),
                chrono::Timelike::second(&t),
                chrono::Timelike::nanosecond(&t),
            ),
        ),
        Err(_) => None,
    }
}

/// The timestamp that parts in chrono's ranges stand for: a nanosecond count of a
/// billion or more marks a leap second, shown as second 60; sub-millisecond
/// digits are dropped.
pub open spec fn timestamp_of_parts(p: (i32, u32, u32, u32, u32, u32, u32)) -> Timestamp {
    let leap = p.6 >= 1_000_000_000;
    Timestamp {
        year: p.0,
        month: p.1 as u8,
        day: p.2 as u8,
        hour: p.3 as u8,
        minute: p.4 as u8,
        second: if leap { (p.5 + 1) as u8 } else { p.5 as u8 },
        millisecond: if leap { ((p.6 - 1_000_000_000) / 1_000_000) as u16 } else { (p.6 / 1_000_000) as u16 },
    }
}

/// Builds the timestamp of date-time parts (see `timestamp_of_parts`).
pub fn timestamp_from_parts(p: (i32, u32, u32, u32, u32, u32, u32)) -> (t: Timestamp)
    requires
        1 <= p.1 <= 12 && 1 <= p.2 <= 31 && p.3 < 24 && p.4 < 60 && p.5 < 60 && p.6 < 2_000_000_000,
    ensures
        t == timestamp_of_parts(p),
        t.wf(),
{
    let leap = p.6 >= 1_000_000_000;
    Timestamp {
        year: p.0,
        month: p.1 as u8,
        day: p.2 as u8,
        hour: p.3 as u8,
        minute: p.4 as u8,
        second: if leap { (p.5 + 1) as u8 } else { p.5 as u8 },
        millisecond: if leap { ((p.6 - 1_000_000_000) / 1_000_000) as u16 } else { (p.6 / 1_000_000) as u16 },
    }
}

/// The timestamp that chrono reads from `s` (see `utc_parts`), if any.
pub open spec fn parsed_timestamp(s: Seq<char>) -> Option<Timestamp> {
    match utc_parts(s) {
        Some(p) => Some(timestamp_of_parts(p)),
        None => None,
    }
}

/// Parses a relaxed RFC 3339 date-time and converts it to UTC.
pub fn parse_timestamp(s: &str) -> (r: Option<Timestamp>)
    ensures
        r == parsed_timestamp(s@),
        r matches Some(t) ==> t.wf(),
{
    match parse_utc(s) {
        Some(p) => Some(timestamp_from_parts(p)),
        None => None,
    }
}

} // verus!
