//! UTC timestamps in RFC 3339 form (`YYYY-MM-DDTHH:MM:SSZ`) from Unix
//! seconds, without a calendar library.

use vstd::prelude::*;

use crate::text::{decimal, decimal_chars, push, string_from_chars};

verus! {

/// Gregorian leap-year rule.
pub open spec fn leap(year: nat) -> bool {
    (year % 4 == 0 && year % 100 != 0) || year % 400 == 0
}

/// Days in `year`.
pub open spec fn year_len(year: nat) -> nat {
    if leap(year) {
        366
    } else {
        365
    }
}

/// Days in month `month` (0-based) of `year`.
pub open spec fn month_len(month: nat, year: nat) -> nat {
    if month == 1 {
        if leap(year) {
            29
        } else {
            28
        }
    } else if month == 3 || month == 5 || month == 8 || month == 10 {
        30
    } else {
        31
    }
}

/// `(year, day-of-year)` reached by counting `days` forward from day 0 of `year`.
pub open spec fn split_years(days: nat, year: nat) -> (nat, nat)
    decreases days,
{
    if days < year_len(year) {
        (year, days)
    } else {
        split_years((days - year_len(year)) as nat, year + 1)
    }
}

/// `(month, day-of-month)` (both 0-based) of day-of-year `days`, counting
/// from month `month`.
pub open spec fn split_months(days: nat, month: nat, year: nat) -> (nat, nat)
    decreases 12 - month,
{
    if month < 12 && days >= month_len(month, year) {
        split_months((days - month_len(month, year)) as nat, month + 1, year)
    } else {
        (month, days)
    }
}

/// `n` in decimal, left-padded with zeros to at least `width` digits.
pub open spec fn padded(n: nat, width: nat) -> Seq<char> {
    let d = decimal(n);
    if d.len() < width {
        Seq::new((width - d.len()) as nat, |i: int| '0') + d
    } else {
        d
    }
}

/// The RFC 3339 UTC text of `secs` seconds after the Unix epoch.
pub open spec fn utc_text(secs: nat) -> Seq<char> {
    let seconds = secs % 60;
    let minutes = (secs / 60) % 60;
    let hours = (secs / 3600) % 24;
    let days = secs / 86400;
    let (year, doy) = split_years(days, 1970);
    let (month, dom) = split_months(doy, 0, year);
    padded(year, 4) + seq!['-'] + padded(month + 1, 2) + seq!['-'] + padded(dom + 1, 2) + seq![
        'T',
    ] + padded(hours, 2) + seq![':'] + padded(minutes, 2) + seq![':'] + padded(seconds, 2) + seq![
        'Z',
    ]
}

/// Gregorian leap-year rule.
pub fn is_leap(year: u64) -> (r: bool)
    ensures
        r == leap(year as nat),
{
    (year % 4 == 0 && year % 100 != 0) || year % 400 == 0
}

/// Appends `n` in decimal, left-padded with zeros to `width` digits.
fn push_padded(out: &mut Vec<char>, n: u64, width: usize)
    ensures
        final(out)@ == old(out)@ + padded(n as nat, width as nat),
{
    let d = decimal_chars(n);
    let ghost pre = out@;
    if d.len() < width {
        let mut k: usize = 0;
        while k < width - d.len()
            invariant
                d@.len() < width,
                k <= width - d@.len(),
                out@ == pre + Seq::new(k as nat, |i: int| '0'),
            decreases width - d.len() - k,
        {
            out.push('0');
            k += 1;
            assert(out@ =~= pre + Seq::new(k as nat, |i: int| '0'));
        }
    }
    let ghost mid = out@;
    let mut j: usize = 0;
    while j < d.len()
        invariant
            j <= d@.len(),
            out@ == mid + d@.subrange(0, j as int),
        decreases d.len() - j,
    {
        out.push(d[j]);
        j += 1;
        assert(out@ =~= mid + d@.subrange(0, j as int));
    }
    assert(d@.subrange(0, d@.len() as int) =~= d@);
    assert(out@ =~= pre + padded(n as nat, width as nat));
}

/// Render `secs` seconds after the Unix epoch as `YYYY-MM-DDTHH:MM:SSZ`.
pub fn format_unix_utc(secs: u64) -> (r: String)
    ensures
        r@ == utc_text(secs as nat),
{
    let seconds = secs % 60;
    let minutes = (secs / 60) % 60;
    let hours = (secs / 3600) % 24;
    let mut days = secs / 86400;
    assert(secs / 60 / 60 == secs / 3600) by (nonlinear_arith);
    let mut year: u64 = 1970;
    let ghost total = days;
    loop
        invariant
            year >= 1970,
            year <= 1970 + total - days,
            days <= total,
            total == secs / 86400,
            split_years(days as nat, year as nat) == split_years(total as nat, 1970),
        ensures
            split_years(total as nat, 1970) == (year as nat, days as nat),
            days < 366,
        decreases days,
    {
        let year_days: u64 = if is_leap(year) {
            366
        } else {
            365
        };
        if days < year_days {
            break;
        }
        days = days - year_days;
        year = year + 1;
    }
    let mut month: u64 = 0;
    loop
        invariant
            month <= 12,
            days < 366,
            split_months(days as nat, month as nat, year as nat) == split_months(
                split_years(total as nat, 1970).1,
                0,
                year as nat,
            ),
            split_years(total as nat, 1970).0 == year,
        ensures
            split_months(split_years(total as nat, 1970).1, 0, year as nat) == (
                month as nat,
                days as nat,
            ),
            split_years(total as nat, 1970).0 == year,
            days < 366,
        decreases 12 - month,
    {
        if month >= 12 {
            break;
        }
        let ml: u64 = if month == 1 {
            if is_leap(year) {
                29
            } else {
                28
            }
        } else if month == 3 || month == 5 || month == 8 || month == 10 {
            30
        } else {
            31
        };
        if days < ml {
            break;
        }
        days = days - ml;
        month = month + 1;
    }
    let mut out: Vec<char> = Vec::new();
    push_padded(&mut out, year, 4);
    out.push('-');
    push_padded(&mut out, month + 1, 2);
    out.push('-');
    push_padded(&mut out, days + 1, 2);
    out.push('T');
    push_padded(&mut out, hours, 2);
    out.push(':');
    push_padded(&mut out, minutes, 2);
    out.push(':');
    push_padded(&mut out, seconds, 2);
    out.push('Z');
    let ghost expect = utc_text(secs as nat);
    assert(out@ =~= expect);
    string_from_chars(out.as_slice())
}

/// Seconds since the Unix epoch by the system clock (`SystemTime::now`);
/// 0 when the clock reads before the epoch.
#[verifier::external_body]
fn unix_now_secs() -> u64 {
    match std::time::SystemTime::now().duration_since(std::time::UNIX_EPOCH) {
        Ok(d) => d.as_secs(),
        Err(_) => 0,
    }
}

/// The current UTC time as RFC 3339 text. Which instant it is depends on
/// the clock; what is stated is the shape of the text.
pub fn current_utc_rfc3339() -> (r: String)
    ensures
        exists|secs: u64| r@ == utc_text(secs as nat),
{
    let secs = unix_now_secs();
    format_unix_utc(secs)
}

} // verus!
