//! Build timestamps as plain calendar values.
use vstd::prelude::*;
use chrono::{Datelike, Timelike};
use crate::text::{decimal, push_all, push_decimal, string_of};

verus! {

/// A local calendar date and time of day.
#[derive(Debug, Clone, Copy, PartialEq, Eq)]
pub struct BuildTime {
    pub year: i32,
    pub month: u32,
    pub day: u32,
    pub hour: u32,
    pub minute: u32,
    pub second: u32,
}

/// `n` in decimal, with leading zeros up to `width` digits.
pub open spec fn zero_padded(n: nat, width: nat) -> Seq<char> {
    let d = decimal(n);
    if d.len() >= width {
        d
    } else {
        Seq::new((width - d.len()) as nat, |i: int| '0') + d
    }
}

/// The year as `%Y` writes it: four digits within `0..=9999`, otherwise a
/// sign and at least four digits.
pub open spec fn year_text(y: int) -> Seq<char> {
    if 0 <= y <= 9999 {
        zero_padded(y as nat, 4)
    } else if y < 0 {
        seq!['-'] + zero_padded((-y) as nat, 4)
    } else {
        seq!['+'] + zero_padded(y as nat, 4)
    }
}

pub open spec fn date_text(t: BuildTime) -> Seq<char> {
    year_text(t.year as int) + seq!['-'] + zero_padded(t.month as nat, 2) + seq!['-'] + zero_padded(t.day as nat, 2)
}

pub open spec fn timestamp_text(t: BuildTime) -> Seq<char> {
    date_text(t) + seq![' '] + zero_padded(t.hour as nat, 2) + seq![':'] + zero_padded(t.minute as nat, 2)
        + seq![':'] + zero_padded(t.second as nat, 2)
}

fn push_padded(out: &mut Vec<char>, n: u64, width: usize)
    ensures
        final(out)@ == old(out)@ + zero_padded(n as nat, width as nat),
{
    let mut digits: Vec<char> = Vec::new();
    push_decimal(&mut digits, n);
    assert(digits@ =~= decimal(n as nat));
    let mut k: usize = digits.len();
    assert(out@ =~= old(out)@ + Seq::new((k - digits@.len()) as nat, |i: int| '0'));
    while k < width
        invariant
            digits@ == decimal(n as nat),
            digits@.len() <= k <= width || (k == digits@.len() && k >= width),
            out@ == old(out)@ + Seq::new((k - digits@.len()) as nat, |i: int| '0'),
        decreases width - k,
    {
        out.push('0');
        k += 1;
        assert(out@ =~= old(out)@ + Seq::new((k - digits@.len()) as nat, |i: int| '0'));
    }
    push_all(out, &digits);
    if digits.len() >= width {
        assert(out@ =~= old(out)@ + zero_padded(n as nat, width as nat));
    } else {
        assert(k == width);
        assert(out@ =~= old(out)@ + zero_padded(n as nat, width as nat));
    }
}

impl BuildTime {
    pub open spec fn wf(&self) -> bool {
        1 <= self.month <= 12 && 1 <= self.day <= 31 && self.hour < 24 && self.minute < 60 && self.second < 60
    }

    /// The local time now.
    pub fn now() -> (r: BuildTime)
        ensures
            r.wf(),
    {
        local_now()
    }

    fn push_date(&self, out: &mut Vec<char>)
        ensures
            final(out)@ == old(out)@ + date_text(*self),
    {
        if 0 <= self.year && self.year <= 9999 {
            push_padded(out, self.year as u64, 4);
        } else if self.year < 0 {
            out.push('-');
            push_padded(out, (-(self.year as i64)) as u64, 4);
        } else {
            out.push('+');
            push_padded(out, self.year as u64, 4);
        }
        out.push('-');
        push_padded(out, self.month as u64, 2);
        out.push('-');
        push_padded(out, self.day as u64, 2);
        assert(final(out)@ =~= old(out)@ + date_text(*self));
    }

    /// `YYYY-MM-DD`, as embedded in a published artifact.
    pub fn date_string(&self) -> (r: String)
        ensures
            r@ == date_text(*self),
    {
        let mut out: Vec<char> = Vec::new();
        self.push_date(&mut out);
        assert(out@ =~= date_text(*self));
        string_of(&out)
    }

    /// `YYYY-MM-DD HH:MM:SS`, as recorded in the version log.
    pub fn timestamp_string(&self) -> (r: String)
        ensures
            r@ == timestamp_text(*self),
    {
        let mut out: Vec<char> = Vec::new();
        self.push_date(&mut out);
        out.push(' ');
        push_padded(&mut out, self.hour as u64, 2);
        out.push(':');
        push_padded(&mut out, self.minute as u64, 2);
        out.push(':');
        push_padded(&mut out, self.second as u64, 2);
        assert(out@ =~= timestamp_text(*self));
        string_of(&out)
    }
}

/// Relies on chrono's `Local::now` and its `Datelike` / `Timelike` accessors,
/// documented to give a month in 1..=12, a day in 1..=31, an hour in 0..=23,
/// and a minute and a second in 0..=59.
#[verifier::external_body]
fn local_now() -> (r: BuildTime)
    ensures
        r.wf(),
{
    let t = chrono::Local::now();
    BuildTime { year: t.year(), month: t.month(), day: t.day(), hour: t.hour(), minute: t.minute(), second: t.second() }
}

} // verus!
