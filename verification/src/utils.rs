//! Terminal colours, wall-clock time and human-readable ages, and the
//! answers that count as "yes".
use vstd::prelude::*;

use std::time::{Duration, SystemTime, SystemTimeError, UNIX_EPOCH};

use crate::text::{
    chars_of, decimal, decimal_string, lowercase, push_char, string_of, to_lowercase, trim,
    trimmed_chars,
};

verus! {

pub const CLR_RESET: &'static str = "\x1B[0m";

pub const CLR_BOLD: &'static str = "\x1B[1m";

pub const CLR_GREEN: &'static str = "\x1B[32m";

pub const CLR_YELLOW: &'static str = "\x1B[33m";

pub const CLR_CYAN: &'static str = "\x1B[36m";

pub const CLR_RED: &'static str = "\x1B[31m";

/// Turns on ANSI escape processing where the terminal needs it; on this
/// platform terminals understand the escapes already, so nothing is done.
pub fn enable_ansi() {
}

// ------------------------------------------------------------------
// Wall-clock time
// ------------------------------------------------------------------

/// `std::time::SystemTime`, an instant of the system clock; opaque here.
#[verifier::external_type_specification]
#[verifier::external_body]
pub struct ExSystemTime(SystemTime);

/// `std::time::SystemTimeError`, the error for an instant before the
/// reference point; opaque here.
#[verifier::external_type_specification]
#[verifier::external_body]
pub struct ExSystemTimeError(SystemTimeError);

/// `SystemTime::now`: the clock's reading, of which nothing is stated.
#[verifier::external_body]
fn system_now() -> SystemTime {
    SystemTime::now()
}

/// What `t.duration_since(UNIX_EPOCH).ok()` gives: the time from the epoch
/// to `t`, or nothing for an instant before the epoch.
pub uninterp spec fn since_epoch(t: SystemTime) -> Option<Duration>;

/// What `Duration::as_secs` gives: the whole seconds of a duration.
pub uninterp spec fn whole_secs(d: Duration) -> u64;

/// `SystemTime::duration_since(UNIX_EPOCH)`: the contract names the result
/// (`Ok` exactly when [`since_epoch`] has a duration, and then that duration);
/// when an instant lies before the epoch is not stated here.
#[verifier::external_body]
fn duration_since_epoch(t: &SystemTime) -> (r: Result<Duration, SystemTimeError>)
    ensures
        r is Ok <==> since_epoch(*t) is Some,
        r matches Ok(d) ==> since_epoch(*t) == Some(d),
{
    t.duration_since(UNIX_EPOCH)
}

/// `Duration::as_secs`: the contract names the result ([`whole_secs`]).
#[verifier::external_body]
fn duration_secs(d: &Duration) -> (r: u64)
    ensures
        r == whole_secs(*d),
{
    d.as_secs()
}

/// The whole seconds from the Unix epoch to `t`, or 0 for an instant before it.
pub open spec fn secs_since_epoch(t: SystemTime) -> u64 {
    match since_epoch(t) {
        Some(d) => whole_secs(d),
        None => 0,
    }
}

/// Whole seconds from the Unix epoch to `t`, or 0 for an instant before it.
pub fn sys_time_to_secs(t: SystemTime) -> (r: u64)
    ensures
        r == secs_since_epoch(t),
{
    match duration_since_epoch(&t) {
        Ok(d) => duration_secs(&d),
        Err(_) => 0,
    }
}

/// The current time in whole seconds since the Unix epoch (0 when the
/// clock stands before the epoch).
pub fn current_unix_secs() -> (r: u64)
    ensures
        exists|t: SystemTime| r == secs_since_epoch(t),
{
    sys_time_to_secs(system_now())
}

// ------------------------------------------------------------------
// Ages
// ------------------------------------------------------------------

/// The age of timestamp `secs` at time `now` in its largest whole unit:
/// seconds below a minute, minutes below an hour, hours below a day, else
/// days; `"0s"` for an unknown (0) timestamp or one not in the past.
pub open spec fn age_text(now: nat, secs: nat) -> Seq<char> {
    if now <= secs || secs == 0 {
        seq!['0', 's']
    } else {
        let diff = (now - secs) as nat;
        if diff <= 59 {
            decimal(diff).push('s')
        } else if diff <= 3599 {
            decimal(diff / 60).push('m')
        } else if diff <= 86399 {
            decimal(diff / 3600).push('h')
        } else {
            decimal(diff / 86400).push('d')
        }
    }
}

/// The number that the age shows (see [`age_text`]).
pub open spec fn age_count(now: nat, secs: nat) -> nat {
    if now <= secs || secs == 0 {
        0
    } else {
        let diff = (now - secs) as nat;
        if diff <= 59 {
            diff
        } else if diff <= 3599 {
            diff / 60
        } else if diff <= 86399 {
            diff / 3600
        } else {
            diff / 86400
        }
    }
}

/// The seconds in the unit that the age is shown in.
pub open spec fn age_unit_secs(now: nat, secs: nat) -> nat {
    if now <= secs || secs == 0 {
        1
    } else {
        let diff = (now - secs) as nat;
        if diff <= 59 {
            1
        } else if diff <= 3599 {
            60
        } else if diff <= 86399 {
            3600
        } else {
            86400
        }
    }
}

/// The letter of the unit that the age is shown in.
pub open spec fn age_unit_char(now: nat, secs: nat) -> char {
    let u = age_unit_secs(now, secs);
    if u == 1 {
        's'
    } else if u == 60 {
        'm'
    } else if u == 3600 {
        'h'
    } else {
        'd'
    }
}

/// The age in seconds that the text stands for: its number times its unit.
pub open spec fn age_shown_secs(now: nat, secs: nat) -> nat {
    age_count(now, secs) * age_unit_secs(now, secs)
}

/// An age is a number followed by its unit letter.
pub proof fn lemma_age_text_parts(now: nat, secs: nat)
    ensures
        age_text(now, secs) == decimal(age_count(now, secs)).push(age_unit_char(now, secs)),
{
    if now <= secs || secs == 0 {
        assert(decimal(0) =~= seq!['0']);
        assert(age_text(now, secs) =~= decimal(0).push('s'));
    }
}

/// The age shown is the time passed, cut down to a whole number of its
/// unit: never more than the seconds since `secs`, and short of them by
/// less than one unit.
pub proof fn lemma_age_accuracy(now: nat, secs: nat)
    requires
        0 < secs < now,
    ensures
        age_shown_secs(now, secs) <= now - secs,
        now - secs < age_shown_secs(now, secs) + age_unit_secs(now, secs),
{
    let d = (now - secs) as nat;
    let u = age_unit_secs(now, secs);
    assert(age_count(now, secs) == d / u);
    assert((d / u) * u <= d < (d / u) * u + u) by (nonlinear_arith)
        requires
            u > 0,
    ;
}

proof fn lemma_floor_mult(d1: nat, d2: nat, u: nat)
    requires
        u > 0,
        d1 >= d2,
    ensures
        (d1 / u) * u >= (d2 / u) * u,
        (d2 / u) * u <= d2,
        d1 >= u ==> (d1 / u) * u >= u,
{
    assert((d1 / u) * u >= (d2 / u) * u) by (nonlinear_arith)
        requires
            u > 0,
            d1 >= d2,
    ;
    assert((d2 / u) * u <= d2) by (nonlinear_arith)
        requires
            u > 0,
    ;
    assert(d1 >= u ==> (d1 / u) * u >= u) by (nonlinear_arith)
        requires
            u > 0,
    ;
}

/// An older timestamp never shows a smaller age: for a fixed `now`, the age
/// shown (number times unit) does not grow as the timestamp moves later.
pub proof fn lemma_age_monotone(now: nat, s1: nat, s2: nat)
    requires
        0 < s1 <= s2,
    ensures
        age_shown_secs(now, s1) >= age_shown_secs(now, s2),
{
    if now > s2 {
        let d1 = (now - s1) as nat;
        let d2 = (now - s2) as nat;
        let u1 = age_unit_secs(now, s1);
        let u2 = age_unit_secs(now, s2);
        lemma_floor_mult(d1, d2, u2);
        lemma_floor_mult(d1, d1, u1);
        lemma_floor_mult(d2, d2, u2);
        assert(d1 / 1 == d1);
        assert(d2 / 1 == d2);
        assert(age_shown_secs(now, s1) == (d1 / u1) * u1);
        assert(age_shown_secs(now, s2) == (d2 / u2) * u2);
        assert(u1 >= u2);
        if u1 > u2 {
            assert(d2 < u1);
            assert(d1 >= u1);
            assert((d2 / u2) * u2 <= d2);
            assert((d1 / u1) * u1 >= u1);
        } else {
            assert(u1 == u2);
            assert((d1 / u1) * u1 >= (d2 / u2) * u2);
        }
    } else {
        assert(age_count(now, s2) == 0);
        assert(age_unit_secs(now, s2) == 1);
        assert(0nat * 1nat == 0nat);
    }
}

/// The age of `secs` at time `now` (see [`age_text`]).
pub fn human_age_at(secs: u64, now: u64) -> (s: String)
    ensures
        s@ == age_text(now as nat, secs as nat),
{
    if now <= secs || secs == 0 {
        let mut s = String::new();
        push_char(&mut s, '0');
        push_char(&mut s, 's');
        assert(s@ =~= seq!['0', 's']);
        return s;
    }
    let diff = now - secs;
    let (value, unit) = if diff <= 59 {
        (diff, 's')
    } else if diff <= 3599 {
        (diff / 60, 'm')
    } else if diff <= 86399 {
        (diff / 3600, 'h')
    } else {
        (diff / 86400, 'd')
    };
    let mut s = decimal_string(value);
    push_char(&mut s, unit);
    s
}

/// The age of `secs` now, read from the system clock.
pub fn human_age_secs(secs: u64) -> (s: String)
    ensures
        exists|now: u64| s@ == age_text(now as nat, secs as nat),
{
    let now = current_unix_secs();
    human_age_at(secs, now)
}

// ------------------------------------------------------------------
// Answers to yes/no questions
// ------------------------------------------------------------------

/// The answer as it is compared: trimmed, then lower-cased.
pub open spec fn normalized_answer(answer: Seq<char>) -> Seq<char> {
    lowercase(trim(answer))
}

fn normalize_answer(answer: &str) -> (v: Vec<char>)
    ensures
        v@ == normalized_answer(answer@),
{
    let t = string_of(&trimmed_chars(answer));
    let l = to_lowercase(t.as_str());
    chars_of(l.as_str())
}

/// Whether an answer, already trimmed and lower-cased, is `y` or `yes`.
pub fn is_yes_word(v: &Vec<char>) -> (b: bool)
    ensures
        b == (v@ == seq!['y'] || v@ == seq!['y', 'e', 's']),
{
    if v.len() == 1 {
        let r = v[0] == 'y';
        assert(r ==> v@ =~= seq!['y']);
        r
    } else if v.len() == 3 {
        let r = v[0] == 'y' && v[1] == 'e' && v[2] == 's';
        assert(r ==> v@ =~= seq!['y', 'e', 's']);
        r
    } else {
        false
    }
}

/// An answer of `y` or `yes`, in any case and with surrounding whitespace.
pub fn is_confirmation(answer: &str) -> (b: bool)
    ensures
        b == (normalized_answer(answer@) == seq!['y'] || normalized_answer(answer@) == seq![
            'y',
            'e',
            's',
        ]),
{
    let v = normalize_answer(answer);
    is_yes_word(&v)
}

/// An answer that accepts the report: empty, or starting with `y`, after
/// trimming and lower-casing.
pub fn accepts_default_yes(answer: &str) -> (b: bool)
    ensures
        b == (normalized_answer(answer@).len() == 0 || normalized_answer(answer@)[0] == 'y'),
{
    let v = normalize_answer(answer);
    v.len() == 0 || v[0] == 'y'
}

} // verus!
