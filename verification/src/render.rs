//! Rendering of durations and ages as short strings such as `5h`, `3d17h`
//! or `2Y41d`, from a count of nanoseconds.

use vstd::prelude::*;

verus! {

pub const NS_PER_HOUR: u128 = 1_000_000_000 * 3600;

pub const NS_PER_DAY: u128 = NS_PER_HOUR * 24;

pub const NS_PER_YEAR: u128 = NS_PER_DAY * 365 + 5 * NS_PER_HOUR;

pub const NS_PER_MILLI: u128 = 1_000_000;

pub open spec fn digit_char(d: nat) -> char {
    ((48 + d) as u8) as char
}

/// The decimal rendering of `n`, most significant digit first, with no
/// leading zeros except for `0` itself.
pub open spec fn dec_of(n: nat) -> Seq<char>
    decreases n,
{
    if n < 10 {
        seq![digit_char(n)]
    } else {
        dec_of(n / 10).push(digit_char(n % 10))
    }
}

/// A duration below a day is `<hours>h`; below a year, `<days>d<hours>h`;
/// from a year up, `<years>Y<days>d`. A year counts as 365 days and 5
/// hours.
pub open spec fn spec_dur_to_str(ns: nat) -> Seq<char> {
    if ns < NS_PER_DAY {
        dec_of(ns / (NS_PER_HOUR as nat)) + seq!['h']
    } else if ns < NS_PER_YEAR {
        dec_of(ns / (NS_PER_DAY as nat)) + seq!['d'] + dec_of(
            (ns % (NS_PER_DAY as nat)) / (NS_PER_HOUR as nat),
        ) + seq!['h']
    } else {
        dec_of(ns / (NS_PER_YEAR as nat)) + seq!['Y'] + dec_of(
            (ns % (NS_PER_YEAR as nat)) / (NS_PER_DAY as nat),
        ) + seq!['d']
    }
}

/// Relies on `String::push`: appends exactly the one character.
#[verifier::external_body]
fn push_char(s: &mut String, c: char)
    ensures
        final(s)@ == old(s)@ + seq![c],
{
    s.push(c);
}

/// Render `n` in decimal.
pub fn to_decimal(n: u128) -> (r: String)
    ensures
        r@ == dec_of(n as nat),
    decreases n,
{
    if n < 10 {
        let c = ((n as u8) + 48) as char;
        let mut s = String::new();
        push_char(&mut s, c);
        assert(s@ =~= seq![c]);
        s
    } else {
        proof {
            assert(n / 10 < n) by (nonlinear_arith)
                requires
                    n >= 10,
            ;
        }
        let mut s = to_decimal(n / 10);
        let c = (((n % 10) as u8) + 48) as char;
        push_char(&mut s, c);
        assert(s@ =~= dec_of((n / 10) as nat).push(digit_char((n % 10) as nat)));
        s
    }
}

/// Render a duration, given in nanoseconds, as hours, days-and-hours or
/// years-and-days.
pub fn dur_to_str(ns: u128) -> (r: String)
    ensures
        r@ == spec_dur_to_str(ns as nat),
{
    if ns < NS_PER_DAY {
        let mut s = to_decimal(ns / NS_PER_HOUR);
        push_char(&mut s, 'h');
        assert(s@ =~= spec_dur_to_str(ns as nat));
        s
    } else if ns < NS_PER_YEAR {
        let mut s = to_decimal(ns / NS_PER_DAY);
        push_char(&mut s, 'd');
        let t = to_decimal((ns % NS_PER_DAY) / NS_PER_HOUR);
        s.append(t.as_str());
        push_char(&mut s, 'h');
        assert(s@ =~= spec_dur_to_str(ns as nat));
        s
    } else {
        let mut s = to_decimal(ns / NS_PER_YEAR);
        push_char(&mut s, 'Y');
        let t = to_decimal((ns % NS_PER_YEAR) / NS_PER_DAY);
        s.append(t.as_str());
        push_char(&mut s, 'd');
        assert(s@ =~= spec_dur_to_str(ns as nat));
        s
    }
}

/// Age of a timestamp relative to `now_ms`, both in epoch milliseconds.
/// Timestamps from the future are the caller's to rule out.
pub fn get_age(now_ms: u64, time_ms: u64) -> (r: String)
    requires
        time_ms <= now_ms,
    ensures
        r@ == spec_dur_to_str(((now_ms - time_ms) * NS_PER_MILLI) as nat),
{
    let delta_ns = (now_ms - time_ms) as u128 * NS_PER_MILLI;
    dur_to_str(delta_ns)
}

/// Width of the timestamp range `[old_ms, new_ms]`, rendered as an age.
pub fn get_age_delta(old_ms: u64, new_ms: u64) -> (r: String)
    requires
        old_ms <= new_ms,
    ensures
        r@ == spec_dur_to_str(((new_ms - old_ms) * NS_PER_MILLI) as nat),
{
    let delta_ns = (new_ms - old_ms) as u128 * NS_PER_MILLI;
    dur_to_str(delta_ns)
}

} // verus!
