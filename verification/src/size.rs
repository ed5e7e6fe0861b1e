//! Sizes in KB with one decimal, as `format!("{:.1}", n as f64 / 1024.0)`
//! prints them, computed with integers only.
use vstd::prelude::*;

use crate::text::{decimal, decimal_string, digit_char, push_char};

verus! {

/// `2^e`.
pub open spec fn two_to(e: nat) -> nat
    decreases e,
{
    if e == 0 {
        1
    } else {
        2 * two_to((e - 1) as nat)
    }
}

/// The number of binary digits of `n` (0 for 0).
pub open spec fn bit_length(n: nat) -> nat
    decreases n,
{
    if n == 0 {
        0
    } else {
        1 + bit_length(n / 2)
    }
}

/// `n / d` rounded to the nearest integer, ties to the even one.
pub open spec fn div_round_even(n: nat, d: nat) -> nat {
    let q = n / d;
    let r = n % d;
    if 2 * r > d || (2 * r == d && q % 2 == 1) {
        q + 1
    } else {
        q
    }
}

/// The distance between neighbouring `f64` values near `n`: 1 while `n`
/// has at most 53 significant bits, and `2^(bits - 53)` above.
pub open spec fn f64_spacing(n: nat) -> nat {
    if bit_length(n) <= 53 {
        1
    } else {
        two_to((bit_length(n) - 53) as nat)
    }
}

/// The value of `n as f64` for an unsigned integer `n`: `n` rounded to 53
/// significant bits, to nearest, ties to even.
pub open spec fn as_f64(n: nat) -> nat {
    div_round_even(n, f64_spacing(n)) * f64_spacing(n)
}

/// Tenths of a KB that `{:.1}` shows for `n as f64 / 1024.0`: the exact
/// quotient rounded to one decimal, ties to even.
pub open spec fn kib_tenths(n: nat) -> nat {
    div_round_even(as_f64(n) * 10, 1024)
}

/// The text of `format!("{:.1}", n as f64 / 1024.0)`.
pub open spec fn kib_text(n: nat) -> Seq<char> {
    decimal(kib_tenths(n) / 10) + seq!['.'] + seq![digit_char(kib_tenths(n) % 10)]
}

proof fn lemma_two_to_pos(e: nat)
    ensures
        two_to(e) >= 1,
    decreases e,
{
    if e > 0 {
        lemma_two_to_pos((e - 1) as nat);
    }
}

proof fn lemma_two_to_mono(a: nat, b: nat)
    requires
        a <= b,
    ensures
        two_to(a) <= two_to(b),
    decreases b,
{
    if a < b {
        lemma_two_to_mono(a, (b - 1) as nat);
    }
}

proof fn lemma_bit_length_bound(n: nat, k: nat)
    requires
        n < two_to(k),
    ensures
        bit_length(n) <= k,
    decreases k,
{
    if n > 0 {
        assert(k > 0);
        lemma_bit_length_bound(n / 2, (k - 1) as nat);
    }
}

proof fn lemma_bit_length_low(n: nat)
    requires
        bit_length(n) > 53,
    ensures
        n >= two_to(53),
    decreases n,
{
    // n < 2^53 would give at most 53 bits
    if n < two_to(53) {
        lemma_bit_length_bound(n, 53);
    }
}

/// Below 2^53 bytes, the shown KB are within half a tenth of the exact
/// quotient: `|tenths * 1024 - 10 * n| <= 512`.
pub proof fn lemma_kib_accuracy(n: nat)
    requires
        n < two_to(53),
    ensures
        kib_tenths(n) * 1024 <= 10 * n + 512,
        10 * n <= kib_tenths(n) * 1024 + 512,
{
    lemma_bit_length_bound(n, 53);
    assert(f64_spacing(n) == 1);
    assert(div_round_even(n, 1) == n);
    assert(as_f64(n) == n);
    let m = 10 * n;
    let q = m / 1024;
    let r = m % 1024;
    assert(m == q * 1024 + r);
    let t = kib_tenths(n);
    assert(t == q || t == q + 1);
    if t == q + 1 {
        assert(2 * r >= 1024);
    } else {
        assert(2 * r <= 1024);
    }
}

fn bit_length_of(n: u64) -> (b: u64)
    ensures
        b as nat == bit_length(n as nat),
        b <= 64,
{
    let mut x: u64 = n;
    let mut b: u64 = 0;
    proof {
        assert(two_to(64) == 0x1_0000_0000_0000_0000) by {
            reveal_with_fuel(two_to, 65);
        }
        lemma_bit_length_bound(n as nat, 64);
    }
    while x > 0
        invariant
            bit_length(n as nat) == b + bit_length(x as nat),
            bit_length(n as nat) <= 64,
        decreases x,
    {
        x = x / 2;
        b = b + 1;
    }
    b
}

fn two_to_exec(e: u64) -> (p: u64)
    requires
        e <= 11,
    ensures
        p as nat == two_to(e as nat),
        1 <= p <= 2048,
{
    let mut p: u64 = 1;
    let mut i: u64 = 0;
    while i < e
        invariant
            i <= e <= 11,
            p as nat == two_to(i as nat),
            p <= two_to(i as nat),
        decreases e - i,
    {
        proof {
            lemma_two_to_mono(i as nat, 10);
            assert(two_to(10) == 1024) by {
                reveal_with_fuel(two_to, 11);
            }
        }
        p = p * 2;
        i = i + 1;
    }
    proof {
        lemma_two_to_pos(e as nat);
        lemma_two_to_mono(e as nat, 11);
        assert(two_to(11) == 2048) by {
            reveal_with_fuel(two_to, 12);
        }
    }
    p
}

fn div_round_even_exec(n: u128, d: u128) -> (q: u128)
    requires
        d > 0,
        n < 0x1_0000_0000_0000_0000_0000,
    ensures
        q as nat == div_round_even(n as nat, d as nat),
        q as nat <= n as nat / d as nat + 1,
{
    let q = n / d;
    let r = n % d;
    assert(r < d);
    if r > d - r || (r == d - r && q % 2 == 1) {
        assert(q < n / d + 1);
        q + 1
    } else {
        q
    }
}

/// `format!("{:.1}", n as f64 / 1024.0)`.
pub fn kib_string(n: u64) -> (s: String)
    ensures
        s@ == kib_text(n as nat),
{
    let bits = bit_length_of(n);
    let spacing: u64 = if bits <= 53 {
        1
    } else {
        two_to_exec(bits - 53)
    };
    assert(spacing as nat == f64_spacing(n as nat));
    let q = div_round_even_exec(n as u128, spacing as u128);
    proof {
        assert(q as nat <= n as nat / spacing as nat + 1);
        assert((n as nat / spacing as nat) * spacing <= n) by (nonlinear_arith)
            requires
                spacing >= 1,
        ;
        assert(q * spacing <= n + spacing) by (nonlinear_arith)
            requires
                q as nat <= n as nat / spacing as nat + 1,
                (n as nat / spacing as nat) * spacing <= n,
                spacing >= 1,
        ;
    }
    let m: u128 = q * (spacing as u128);
    assert(m as nat == as_f64(n as nat));
    let t = div_round_even_exec(m * 10, 1024);
    assert(t as nat == kib_tenths(n as nat));
    assert(t <= 0xFFFF_FFFF_FFFF_FFFF) by (nonlinear_arith)
        requires
            t as nat <= (m * 10) as nat / 1024 + 1,
            m <= 0xFFFF_FFFF_FFFF_FFFF + 2048,
    ;
    let t64: u64 = t as u64;
    let mut s = decimal_string(t64 / 10);
    push_char(&mut s, '.');
    let d: u8 = 48u8 + ((t64 % 10) as u8);
    proof {
        assert(d as int == (t64 % 10) + 48);
    }
    push_char(&mut s, d as char);
    assert(s@ =~= kib_text(n as nat));
    s
}

} // verus!
