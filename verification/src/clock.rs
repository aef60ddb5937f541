//! Durations and times of day as the panels print them.

use vstd::prelude::*;
use crate::text::{dec, pad2, push_char, push_dec, push_str, signed_dec};

verus! {

/// `v` with the sign that `neg` asks for.
pub open spec fn with_sign(neg: bool, v: int) -> int {
    if neg {
        -v
    } else {
        v
    }
}

/// A running contact's length as `{h}:{m:02}:{s:02}` once it has passed the
/// hour and `{m}:{s:02}` before, where `h`, `m` and `s` are the quotient by
/// 3600, the minutes past the hour and the seconds past the minute, each taken
/// with Rust's truncating division (so a negative count carries its sign into
/// every field).
pub open spec fn elapsed_text(secs: int) -> Seq<char> {
    let neg = secs < 0;
    let mag = if neg { -secs } else { secs };
    let h = with_sign(neg, mag / 3600);
    let m = with_sign(neg, (mag / 60) % 60);
    let s = with_sign(neg, mag % 60);
    if h > 0 {
        signed_dec(h) + seq![':'] + pad2(m) + seq![':'] + pad2(s)
    } else {
        signed_dec(m) + seq![':'] + pad2(s)
    }
}

/// A short age for a tooltip: seconds under a minute and a half, whole minutes
/// under an hour and a half, whole hours beyond; a negative age reads as zero.
pub open spec fn age_text(secs: int) -> Seq<char> {
    let s: nat = if secs < 0 { 0 } else { secs as nat };
    if s < 90 {
        dec(s) + seq![' ', 's']
    } else if s < 5400 {
        dec(s / 60) + seq![' ', 'm', 'i', 'n']
    } else {
        dec(s / 3600) + seq![' ', 'h']
    }
}

/// `HH:MM` for a time written as the number `HHMM`.
pub open spec fn hhmm_digits_text(hhmm: nat) -> Seq<char> {
    pad2((hhmm / 100) as int) + seq![':'] + pad2((hhmm % 100) as int)
}

/// Append the signed number `with_sign(neg, v)`.
fn push_signed(out: &mut String, neg: bool, v: u64)
    ensures
        final(out)@ == old(out)@ + signed_dec(with_sign(neg, v as int)),
{
    if neg && v > 0 {
        push_char(out, '-');
    }
    push_dec(out, v);
    proof {
        if neg && v > 0 {
            assert(old(out)@.push('-') + dec(v as nat) =~= old(out)@ + (seq!['-'] + dec(
                (-with_sign(neg, v as int)) as nat,
            )));
        }
    }
}

/// Append the signed number `with_sign(neg, v)` as `{:02}` prints it.
fn push_pad2(out: &mut String, neg: bool, v: u64)
    ensures
        final(out)@ == old(out)@ + pad2(with_sign(neg, v as int)),
{
    if v < 10 && !(neg && v > 0) {
        push_char(out, '0');
        push_dec(out, v);
        assert(old(out)@.push('0') + dec(v as nat) =~= old(out)@ + (seq!['0'] + dec(v as nat)));
    } else {
        push_signed(out, neg, v);
    }
}

/// A running contact's length: `M:SS` until it passes the hour, then
/// `H:MM:SS`.
pub fn elapsed_hms(secs: i64) -> (r: String)
    ensures
        r@ == elapsed_text(secs as int),
{
    let wide: i128 = secs as i128;
    let neg: bool = wide < 0;
    let mag: u64 = if neg { (0i128 - wide) as u64 } else { wide as u64 };
    let h: u64 = mag / 3600;
    let m: u64 = (mag / 60) % 60;
    let s: u64 = mag % 60;
    let mut out = String::new();
    if !neg && h > 0 {
        push_signed(&mut out, neg, h);
        push_char(&mut out, ':');
        push_pad2(&mut out, neg, m);
        push_char(&mut out, ':');
        push_pad2(&mut out, neg, s);
    } else {
        push_signed(&mut out, neg, m);
        push_char(&mut out, ':');
        push_pad2(&mut out, neg, s);
    }
    out
}

/// A short age for a tooltip: `12 s`, `4 min`, `2 h`.
pub fn fmt_age(secs: i64) -> (r: String)
    ensures
        r@ == age_text(secs as int),
        secs < 90 ==> r@.len() >= 3 && r@.subrange(r@.len() - 2, r@.len() as int) == seq![' ', 's'],
        90 <= secs < 5400 ==> r@.len() >= 5 && r@.subrange(r@.len() - 4, r@.len() as int) == seq![
            ' ',
            'm',
            'i',
            'n',
        ],
        secs >= 5400 ==> r@.len() >= 3 && r@.subrange(r@.len() - 2, r@.len() as int) == seq![' ', 'h'],
{
    let s: u64 = if secs < 0 { 0 } else { secs as u64 };
    let mut out = String::new();
    if s < 90 {
        push_dec(&mut out, s);
        push_char(&mut out, ' ');
        push_char(&mut out, 's');
    } else if s < 5400 {
        push_dec(&mut out, s / 60);
        push_char(&mut out, ' ');
        push_char(&mut out, 'm');
        push_char(&mut out, 'i');
        push_char(&mut out, 'n');
    } else {
        push_dec(&mut out, s / 3600);
        push_char(&mut out, ' ');
        push_char(&mut out, 'h');
    }
    out
}

/// `HH:MM` for a schedule time kept as the number `HHMM`.
pub fn hhmm_text(hhmm: u16) -> (r: String)
    ensures
        r@ == hhmm_digits_text(hhmm as nat),
{
    let mut out = String::new();
    push_pad2(&mut out, false, (hhmm / 100) as u64);
    push_char(&mut out, ':');
    push_pad2(&mut out, false, (hhmm % 100) as u64);
    out
}

} // verus!

verus! {

/// Seconds in a day.
pub const DAY_S: i64 = 86_400;

/// The instant a schedule filter at `HHMM` means: that time of day on the
/// UTC day holding `now`.
pub open spec fn today_at(now: int, hhmm: nat) -> int {
    (now / 86_400) * 86_400 + (hhmm / 100) as int * 3600 + (hhmm % 100) as int * 60
}

/// `floor(a / d)` for a positive divisor, as `i64::div_euclid` gives it.
fn floor_div(a: i64, d: i64) -> (q: i64)
    requires
        d > 0,
    ensures
        q as int == a as int / d as int,
{
    if a >= 0 {
        a / d
    } else {
        let m: i64 = -(a + 1);
        let q: i64 = m / d;
        proof {
            let ai = a as int;
            let di = d as int;
            let qi = q as int;
            let ri = (m as int) % di;
            assert(m as int == qi * di + ri) by (nonlinear_arith)
                requires
                    qi == (m as int) / di,
                    ri == (m as int) % di,
                    di > 0,
            ;
            assert(ai == (-qi - 1) * di + (di - 1 - ri)) by (nonlinear_arith)
                requires
                    m as int == qi * di + ri,
                    m as int == -(ai + 1),
            ;
            assert(0 <= ri < di);
            vstd::arithmetic::div_mod::lemma_fundamental_div_mod_converse(
                ai,
                di,
                -qi - 1,
                di - 1 - ri,
            );
        }
        -q - 1
    }
}

/// `a` modulo a positive `d`, in `0..d`, as `i64::rem_euclid` gives it.
fn floor_rem(a: i64, d: i64) -> (r: i64)
    requires
        d > 0,
    ensures
        r as int == a as int % d as int,
        0 <= r < d,
{
    if a >= 0 {
        a % d
    } else {
        let m: i64 = -(a + 1);
        let q: i64 = m / d;
        let r: i64 = m % d;
        proof {
            let ai = a as int;
            let di = d as int;
            let qi = q as int;
            let ri = r as int;
            assert(m as int == qi * di + ri) by (nonlinear_arith)
                requires
                    qi == (m as int) / di,
                    ri == (m as int) % di,
                    di > 0,
            ;
            assert(ai == (-qi - 1) * di + (di - 1 - ri)) by (nonlinear_arith)
                requires
                    m as int == qi * di + ri,
                    m as int == -(ai + 1),
            ;
            vstd::arithmetic::div_mod::lemma_fundamental_div_mod_converse(
                ai,
                di,
                -qi - 1,
                di - 1 - ri,
            );
        }
        d - 1 - r
    }
}

/// The UTC instant the schedule is filtered at: `now` itself, or today at
/// the chosen `HHMM`.
pub fn schedule_time(now: i64, use_now: bool, hhmm: u16) -> (t: i64)
    requires
        use_now || (i64::MIN <= (now as int / 86_400) * 86_400 && today_at(now as int, hhmm as nat)
            <= i64::MAX),
    ensures
        t as int == if use_now { now as int } else { today_at(now as int, hhmm as nat) },
{
    if use_now {
        return now;
    }
    let day: i64 = floor_div(now, DAY_S);
    assert(day * 86_400 <= now) by (nonlinear_arith)
        requires
            day as int == now as int / 86_400,
    ;
    assert(day * 86_400 > now - 86_400) by (nonlinear_arith)
        requires
            day as int == now as int / 86_400,
    ;
    let start: i64 = day * DAY_S;
    start + (hhmm as i64 / 100) * 3600 + (hhmm as i64 % 100) * 60
}

/// `HH:MM` UTC for an instant: the hour and minute of its place in the UTC
/// day.
pub open spec fn utc_hhmm_text(unix: int) -> Seq<char> {
    let sod = unix % 86_400;
    pad2(sod / 3600) + seq![':'] + pad2((sod % 3600) / 60)
}

/// `HH:MM` in UTC for a Unix timestamp.
pub fn utc_hhmm(unix: i64) -> (r: String)
    ensures
        r@ == utc_hhmm_text(unix as int),
{
    let sod: i64 = floor_rem(unix, DAY_S);
    let mut out = String::new();
    push_pad2(&mut out, false, (sod / 3600) as u64);
    push_char(&mut out, ':');
    push_pad2(&mut out, false, ((sod % 3600) / 60) as u64);
    out
}

} // verus!
