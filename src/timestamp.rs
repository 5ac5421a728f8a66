//! The instant a snapshot date denotes, in microseconds, used to order the
//! history.
use vstd::prelude::*;
use crate::filename::{all_digits, digit_run_end, head_char_ok, is_digit, valid_date, valid_zone};

verus! {

pub open spec fn digit_value(c: char) -> int {
    c as int - '0' as int
}

/// The number written by the `n` digits of `s` that start at `a`.
pub open spec fn num_at(s: Seq<char>, a: int, n: nat) -> int
    decreases n,
{
    if n == 0 {
        0
    } else {
        num_at(s, a, (n - 1) as nat) * 10 + digit_value(s[a + n - 1])
    }
}

pub open spec fn pow10(n: nat) -> int
    decreases n,
{
    if n == 0 {
        1
    } else {
        10 * pow10((n - 1) as nat)
    }
}

/// The number of digits that `s` starts with.
pub open spec fn leading_digits(s: Seq<char>) -> nat
    decreases s.len(),
{
    if s.len() > 0 && is_digit(s[0]) {
        1 + leading_digits(s.drop_first())
    } else {
        0
    }
}

/// The days from 1970-01-01 to year `y`, month `m`, day `d` of the proleptic
/// Gregorian calendar. The year is shifted by 400 (one full cycle of leap
/// years) so that every term stays non-negative from year 0 on.
pub open spec fn day_number(y: int, m: int, d: int) -> int {
    let yy = if m <= 2 {
        y + 399
    } else {
        y + 400
    };
    let mp = if m > 2 {
        m - 3
    } else {
        m + 9
    };
    365 * yy + yy / 4 - yy / 100 + yy / 400 + (153 * mp + 2) / 5 + d - 1 - 865565
}

/// The seconds a zone designator lies ahead of UTC.
pub open spec fn zone_offset_secs(z: Seq<char>) -> int {
    if z.len() == 6 {
        let v = num_at(z, 1, 2) * 3600 + num_at(z, 4, 2) * 60;
        if z[0] == '-' {
            -v
        } else {
            v
        }
    } else {
        0
    }
}

/// The fraction digits of `f` as microseconds: the first six, padded with
/// zeros.
pub open spec fn micros_prefix(f: Seq<char>, p: nat) -> int
    decreases p,
{
    if p == 0 {
        0
    } else {
        micros_prefix(f, (p - 1) as nat) * 10 + if p - 1 < f.len() {
            digit_value(f[p - 1])
        } else {
            0
        }
    }
}

/// The fraction digits of the part `t` after the seconds.
pub open spec fn fraction_of(t: Seq<char>) -> Seq<char> {
    if t.len() > 0 && t[0] == '.' {
        t.subrange(1, 1 + leading_digits(t.drop_first()) as int)
    } else {
        Seq::empty()
    }
}

/// The zone designator of the part `t` after the seconds.
pub open spec fn zone_of(t: Seq<char>) -> Seq<char> {
    if t.len() > 0 && t[0] == '.' {
        t.subrange(1 + leading_digits(t.drop_first()) as int, t.len() as int)
    } else {
        t
    }
}

/// The instant that the date `d` denotes, in microseconds.
pub open spec fn date_key(d: Seq<char>) -> int {
    let t = d.subrange(19, d.len() as int);
    let secs = day_number(num_at(d, 0, 4), num_at(d, 5, 2), num_at(d, 8, 2)) * 86400 + num_at(d, 11, 2)
        * 3600 + num_at(d, 14, 2) * 60 + num_at(d, 17, 2) - zone_offset_secs(zone_of(t));
    secs * 1_000_000 + micros_prefix(fraction_of(t), 6)
}


proof fn lemma_leading_digits(s: Seq<char>, e: int)
    requires
        0 <= e <= s.len(),
        all_digits(s.subrange(0, e)),
        e == s.len() || !is_digit(s[e]),
    ensures
        leading_digits(s) == e,
    decreases e,
{
    if e > 0 {
        assert(s.subrange(0, e)[0] == s[0]);
        assert forall|i: int| 0 <= i < e - 1 implies is_digit(#[trigger] s.drop_first().subrange(0, e - 1)[i]) by {
            assert(s.subrange(0, e)[i + 1] == s[i + 1]);
        }
        lemma_leading_digits(s.drop_first(), e - 1);
    }
}

fn digit_at(d: &Vec<char>, i: usize) -> (r: i64)
    requires
        i < d@.len(),
        is_digit(d@[i as int]),
    ensures
        r == digit_value(d@[i as int]),
        0 <= r <= 9,
{
    (d[i] as u32 - '0' as u32) as i64
}

fn two_digits(d: &Vec<char>, i: usize) -> (r: i64)
    requires
        i + 1 < d@.len(),
        is_digit(d@[i as int]),
        is_digit(d@[i + 1]),
    ensures
        r == num_at(d@, i as int, 2),
        0 <= r <= 99,
{
    reveal_with_fuel(num_at, 3);
    let _len = d.len();
    let hi = digit_at(d, i);
    let lo = digit_at(d, i + 1);
    hi * 10 + lo
}

/// The instant that the date `d` denotes, in microseconds.
pub fn date_key_of(d: &Vec<char>) -> (r: i64)
    requires
        valid_date(d@),
    ensures
        r == date_key(d@),
{
    let n = d.len();
    let ghost t = d@.subrange(19, n as int);
    assert(head_char_ok(0, d@[0]) && head_char_ok(1, d@[1]) && head_char_ok(2, d@[2]) && head_char_ok(3, d@[3]));
    assert(head_char_ok(5, d@[5]) && head_char_ok(6, d@[6]) && head_char_ok(8, d@[8]) && head_char_ok(9, d@[9]));
    assert(head_char_ok(11, d@[11]) && head_char_ok(12, d@[12]) && head_char_ok(14, d@[14]) && head_char_ok(15, d@[15]));
    assert(head_char_ok(17, d@[17]) && head_char_ok(18, d@[18]));
    let year = two_digits(d, 0) * 100 + two_digits(d, 2);
    proof {
        reveal_with_fuel(num_at, 5);
    }
    assert(year == num_at(d@, 0, 4));
    let month = two_digits(d, 5);
    let day = two_digits(d, 8);
    let hour = two_digits(d, 11);
    let minute = two_digits(d, 14);
    let second = two_digits(d, 17);
    let yy: i64 = if month <= 2 { year + 399 } else { year + 400 };
    let mp: i64 = if month > 2 { month - 3 } else { month + 9 };
    assert(0 <= 153 * mp + 2 <= 153 * 108 + 2) by (nonlinear_arith)
        requires 0 <= mp <= 108;
    let days: i64 = 365 * yy + yy / 4 - yy / 100 + yy / 400 + (153 * mp + 2) / 5 + day - 1 - 865565;
    assert(day_number(num_at(d@, 0, 4), num_at(d@, 5, 2), num_at(d@, 8, 2)) == days);
    assert(-800_000 < days < 3_200_000);
    let local: i64 = days * 86400 + hour * 3600 + minute * 60 + second;
    assert(-70_000_000_000 < local < 280_000_000_000) by (nonlinear_arith)
        requires -800_000 < days < 3_200_000, 0 <= hour <= 99, 0 <= minute <= 99, 0 <= second <= 99,
            local == days * 86400 + hour * 3600 + minute * 60 + second;
    // split the part after the seconds into fraction digits and zone
    let mut frac_start: usize = 19;
    let mut frac_end: usize = 19;
    let mut zone_start: usize = 19;
    if n > 19 && d[19] == '.' {
        frac_start = 20;
        frac_end = digit_run_end(d, 20, n);
        zone_start = frac_end;
        proof {
            assert(t.drop_first() =~= d@.subrange(20, n as int));
            assert(d@.subrange(20, n as int).subrange(0, frac_end - 20) =~= d@.subrange(20, frac_end as int));
            if frac_end < n {
                assert(d@.subrange(20, n as int)[frac_end - 20] == d@[frac_end as int]);
            }
            lemma_leading_digits(d@.subrange(20, n as int), frac_end - 20);
            assert(fraction_of(t) =~= d@.subrange(20, frac_end as int));
            assert(zone_of(t) =~= d@.subrange(frac_end as int, n as int));
        }
    } else {
        proof {
            assert(fraction_of(t) =~= d@.subrange(19, 19));
            assert(zone_of(t) =~= d@.subrange(19, n as int));
        }
    }
    let ghost z = d@.subrange(zone_start as int, n as int);
    let ghost f = d@.subrange(frac_start as int, frac_end as int);
    assert(zone_of(t) == z);
    assert(fraction_of(t) == f);
    assert(valid_zone(z)) by {
        if !valid_zone(t) {
            let m = choose|m: int| 1 <= m < t.len() && all_digits(#[trigger] t.subrange(1, 1 + m)) && valid_zone(
                t.subrange(1 + m, t.len() as int));
            assert(t.drop_first().subrange(0, m) =~= t.subrange(1, 1 + m));
            if 1 + m < t.len() {
                assert(t.drop_first()[m] == t[1 + m]);
            }
            lemma_leading_digits(t.drop_first(), m);
        } else if t.len() > 0 && t[0] == '.' {
            assert(false);
        }
    }
    assert(all_digits(f));
    let mut offset: i64 = 0;
    if n - zone_start == 6 {
        assert(z[1] == d@[zone_start + 1] && z[2] == d@[zone_start + 2]);
        assert(z[4] == d@[zone_start + 4] && z[5] == d@[zone_start + 5]);
        let oh = two_digits(d, zone_start + 1);
        let om = two_digits(d, zone_start + 4);
        proof {
            reveal_with_fuel(num_at, 3);
        }
        let v = oh * 3600 + om * 60;
        offset = if d[zone_start] == '-' { -v } else { v };
    }
    assert(offset == zone_offset_secs(z));
    assert(-400_000 < offset < 400_000);
    let secs: i64 = local - offset;
    let mut micros: i64 = 0;
    let mut p: usize = 0;
    while p < 6
        invariant
            p <= 6,
            frac_start <= frac_end <= n,
            n == d@.len(),
            f == d@.subrange(frac_start as int, frac_end as int),
            all_digits(f),
            micros == micros_prefix(f, p as nat),
            0 <= micros < pow10(p as nat),
        decreases 6 - p,
    {
        assert(pow10(p as nat) <= 100_000) by {
            reveal_with_fuel(pow10, 7);
        }
        let mut dv: i64 = 0;
        if p < frac_end - frac_start {
            assert(f[p as int] == d@[frac_start + p]);
            assert(is_digit(f[p as int]));
            dv = digit_at(d, frac_start + p);
        }
        assert(micros * 10 + dv < pow10((p + 1) as nat)) by (nonlinear_arith)
            requires 0 <= micros < pow10(p as nat), 0 <= dv <= 9, pow10((p + 1) as nat) == 10 * pow10(p as nat);
        micros = micros * 10 + dv;
        p = p + 1;
    }
    assert(pow10(6) == 1_000_000) by {
        reveal_with_fuel(pow10, 7);
    }
    assert(secs * 1_000_000 + micros < 400_000_000_000_000_000) by (nonlinear_arith)
        requires secs < 280_000_000_000 + 400_000, 0 <= micros < 1_000_000;
    assert(secs * 1_000_000 + micros > -80_000_000_000_000_000) by (nonlinear_arith)
        requires secs > -70_000_000_000 - 400_000, 0 <= micros < 1_000_000;
    secs * 1_000_000 + micros
}

} // verus!
