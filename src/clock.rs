//! Calendar texts: the day key `mm/dd/yy` and the timestamp `mm/dd/yy HH:MM:SS`.
use vstd::prelude::*;
use crate::duration::{pad2, push_char, write_pad2};

verus! {

/// Two-digit year as chrono prints `%y`.
pub open spec fn year2(y: int) -> nat {
    (y % 100) as nat
}

/// The day key `mm/dd/yy`.
pub open spec fn day_text(y: int, mo: nat, d: nat) -> Seq<char> {
    pad2(mo) + seq!['/'] + pad2(d) + seq!['/'] + pad2(year2(y))
}

/// The timestamp `mm/dd/yy HH:MM:SS`.
pub open spec fn stamp_text(y: int, mo: nat, d: nat, h: nat, mi: nat, s: nat) -> Seq<char> {
    day_text(y, mo, d) + seq![' '] + pad2(h) + seq![':'] + pad2(mi) + seq![':'] + pad2(s)
}

/// Relies on chrono::Local::now: the local date and time as year, month,
/// day, hour, minute and second, each in the range chrono documents.
#[verifier::external_body]
fn local_now() -> (r: (i32, u32, u32, u32, u32, u32))
    ensures
        1 <= r.1 <= 12,
        1 <= r.2 <= 31,
        r.3 < 24,
        r.4 < 60,
        r.5 < 60,
{
    let t = chrono::Local::now();
    (chrono::Datelike::year(&t), chrono::Datelike::month(&t), chrono::Datelike::day(&t),
     chrono::Timelike::hour(&t), chrono::Timelike::minute(&t), chrono::Timelike::second(&t))
}

fn write_day(out: &mut String, y: i32, mo: u32, d: u32)
    ensures
        final(out)@ == old(out)@ + day_text(y as int, mo as nat, d as nat),
{
    let shifted: i64 = y as i64 + 2147483700;
    let yy: i64 = shifted % 100;
    proof {
        vstd::arithmetic::div_mod::lemma_mod_multiples_vanish(21474837, y as int, 100);
        assert(shifted as int == 100 * 21474837 + y as int);
    }
    write_pad2(out, mo as u128);
    push_char(out, '/');
    write_pad2(out, d as u128);
    push_char(out, '/');
    write_pad2(out, yy as u128);
    assert(final(out)@ =~= old(out)@ + day_text(y as int, mo as nat, d as nat));
}

/// The day key of the given date.
pub fn format_day(y: i32, mo: u32, d: u32) -> (r: String)
    ensures
        r@ == day_text(y as int, mo as nat, d as nat),
{
    let mut out = String::new();
    write_day(&mut out, y, mo, d);
    out
}

/// The timestamp text of the given date and time.
pub fn format_stamp(y: i32, mo: u32, d: u32, h: u32, mi: u32, s: u32) -> (r: String)
    ensures
        r@ == stamp_text(y as int, mo as nat, d as nat, h as nat, mi as nat, s as nat),
{
    let mut out = String::new();
    write_day(&mut out, y, mo, d);
    push_char(&mut out, ' ');
    write_pad2(&mut out, h as u128);
    push_char(&mut out, ':');
    write_pad2(&mut out, mi as u128);
    push_char(&mut out, ':');
    write_pad2(&mut out, s as u128);
    assert(out@ =~= stamp_text(y as int, mo as nat, d as nat, h as nat, mi as nat, s as nat));
    out
}

/// Today's day key in local time.
pub fn today_key() -> (r: String)
    ensures
        exists|y: i32, mo: u32, d: u32| 1 <= mo <= 12 && 1 <= d <= 31
            && r@ == day_text(y as int, mo as nat, d as nat),
{
    let (y, mo, d, _h, _mi, _s) = local_now();
    format_day(y, mo, d)
}

/// The local date and time now, as a timestamp text.
pub fn now_stamp() -> (r: String)
    ensures
        exists|y: i32, mo: u32, d: u32, h: u32, mi: u32, s: u32|
            1 <= mo <= 12 && 1 <= d <= 31 && h < 24 && mi < 60 && s < 60
            && r@ == stamp_text(y as int, mo as nat, d as nat, h as nat, mi as nat, s as nat),
{
    let (y, mo, d, h, mi, s) = local_now();
    format_stamp(y, mo, d, h, mi, s)
}

/// What chrono reads from a timestamp text `mm/dd/yy HH:MM:SS`.
pub uninterp spec fn parsed_stamp(s: Seq<char>) -> Option<(int, int, int, int, int, int)>;

/// What chrono reads from a day text `mm/dd/yy`.
pub uninterp spec fn parsed_day(s: Seq<char>) -> Option<(int, int, int)>;

/// Relies on chrono::NaiveDateTime::parse_from_str with `%m/%d/%y %H:%M:%S`:
/// the year, month, day, hour, minute and second it read, or none.
#[verifier::external_body]
fn parse_stamp(s: &str) -> (r: Option<(i32, u32, u32, u32, u32, u32)>)
    ensures
        match r {
            Some(t) => parsed_stamp(s@) == Some((t.0 as int, t.1 as int, t.2 as int, t.3 as int, t.4 as int, t.5 as int))
                && 1 <= t.1 <= 12 && 1 <= t.2 <= 31 && t.3 < 24 && t.4 < 60 && t.5 < 60,
            None => parsed_stamp(s@) is None,
        },
{
    match chrono::NaiveDateTime::parse_from_str(s, "%m/%d/%y %H:%M:%S") {
        Ok(t) => Some((chrono::Datelike::year(&t), chrono::Datelike::month(&t), chrono::Datelike::day(&t),
            chrono::Timelike::hour(&t), chrono::Timelike::minute(&t), chrono::Timelike::second(&t))),
        Err(_) => None,
    }
}

/// Relies on chrono::NaiveDate::parse_from_str with `%m/%d/%y`: the year,
/// month and day it read, or none.
#[verifier::external_body]
fn parse_day(s: &str) -> (r: Option<(i32, u32, u32)>)
    ensures
        match r {
            Some(t) => parsed_day(s@) == Some((t.0 as int, t.1 as int, t.2 as int))
                && 1 <= t.1 <= 12 && 1 <= t.2 <= 31,
            None => parsed_day(s@) is None,
        },
{
    match chrono::NaiveDate::parse_from_str(s, "%m/%d/%y") {
        Ok(t) => Some((chrono::Datelike::year(&t), chrono::Datelike::month(&t), chrono::Datelike::day(&t))),
        Err(_) => None,
    }
}

/// Sort key of texts that do not parse: after every date.
pub const UNDATED: i128 = 170141183460469231731687303715884105727;

/// Seconds-like ordinal of a moment: later moments have larger keys.
pub open spec fn moment_key(y: int, mo: int, d: int, h: int, mi: int, s: int) -> int {
    ((((y * 12 + (mo - 1)) * 31 + (d - 1)) * 24 + h) * 60 + mi) * 60 + s
}

/// Sort key of a timestamp text.
pub open spec fn stamp_key(s: Seq<char>) -> int {
    match parsed_stamp(s) {
        Some(t) => moment_key(t.0, t.1, t.2, t.3, t.4, t.5),
        None => UNDATED as int,
    }
}

/// Sort key of a day text.
pub open spec fn day_key(s: Seq<char>) -> int {
    match parsed_day(s) {
        Some(t) => moment_key(t.0, t.1, t.2, 0, 0, 0),
        None => UNDATED as int,
    }
}

fn moment_key_exec(y: i32, mo: u32, d: u32, h: u32, mi: u32, s: u32) -> (r: i128)
    requires
        1 <= mo <= 12,
        1 <= d <= 31,
        h < 24,
        mi < 60,
        s < 60,
    ensures
        r as int == moment_key(y as int, mo as int, d as int, h as int, mi as int, s as int),
        r < UNDATED,
{
    let a: i128 = y as i128 * 12 + (mo as i128 - 1);
    assert(-30000000000 < a < 30000000000);
    let b: i128 = a * 31 + (d as i128 - 1);
    assert(-1000000000000 < b < 1000000000000) by (nonlinear_arith)
        requires b == a * 31 + (d as i128 - 1), -30000000000 < a < 30000000000, 1 <= d <= 31;
    let c: i128 = b * 24 + h as i128;
    assert(-100000000000000 < c < 100000000000000) by (nonlinear_arith)
        requires c == b * 24 + h as i128, -1000000000000 < b < 1000000000000, h < 24;
    let e: i128 = c * 60 + mi as i128;
    assert(-10000000000000000 < e < 10000000000000000) by (nonlinear_arith)
        requires e == c * 60 + mi as i128, -100000000000000 < c < 100000000000000, mi < 60;
    let f: i128 = e * 60 + s as i128;
    assert(-1000000000000000000 < f < 1000000000000000000) by (nonlinear_arith)
        requires f == e * 60 + s as i128, -10000000000000000 < e < 10000000000000000, s < 60;
    f
}

/// Sort key of a timestamp text; texts that do not parse come last.
pub fn stamp_sort_key(s: &str) -> (r: i128)
    ensures
        r as int == stamp_key(s@),
{
    match parse_stamp(s) {
        Some((y, mo, d, h, mi, se)) => moment_key_exec(y, mo, d, h, mi, se),
        None => UNDATED,
    }
}

/// Sort key of a day text; texts that do not parse come last.
pub fn day_sort_key(s: &str) -> (r: i128)
    ensures
        r as int == day_key(s@),
{
    match parse_day(s) {
        Some((y, mo, d)) => moment_key_exec(y, mo, d, 0, 0, 0),
        None => UNDATED,
    }
}

} // verus!
