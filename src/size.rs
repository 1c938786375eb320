use vstd::prelude::*;
use vstd::arithmetic::div_mod::{
    lemma_div_denominator, lemma_div_is_ordered_by_denominator, lemma_fundamental_div_mod,
};
use vstd::string::*;

use crate::text::{decimal_string, decimal_text, digit_char, digit_str};

verus! {

/// 2^53: integers below it are exact in a `f64`.
pub const F64_EXACT_LIMIT: u128 = 0x20_0000_0000_0000;

/// The power of two by which `n` is scaled down to fit in 53 bits.
pub open spec fn float_scale(n: nat) -> nat
    decreases n,
{
    if n < 0x20_0000_0000_0000 {
        1
    } else {
        2 * float_scale(n / 2)
    }
}

/// `n / p` rounded to the nearest integer, ties to the even one.
pub open spec fn div_round_even(n: nat, p: nat) -> nat
    recommends
        p > 0,
{
    let q = n / p;
    let r = n % p;
    if 2 * r > p || (2 * r == p && q % 2 == 1) {
        q + 1
    } else {
        q
    }
}

/// The value `n as f64` holds: `n` rounded to 53 significant bits, ties to
/// even.
pub open spec fn f64_of(n: u64) -> nat {
    div_round_even(n as nat, float_scale(n as nat)) * float_scale(n as nat)
}

/// 1024 to the power `k`, for the units used.
pub open spec fn unit_scale(k: nat) -> nat {
    if k == 0 {
        1
    } else if k == 1 {
        0x400
    } else if k == 2 {
        0x10_0000
    } else if k == 3 {
        0x4000_0000
    } else if k == 4 {
        0x100_0000_0000
    } else {
        0x4_0000_0000_0000
    }
}

/// The largest unit (up to PB) that a value reaches.
pub open spec fn unit_of(f: nat) -> nat {
    if f >= unit_scale(5) {
        5
    } else if f >= unit_scale(4) {
        4
    } else if f >= unit_scale(3) {
        3
    } else if f >= unit_scale(2) {
        2
    } else if f >= unit_scale(1) {
        1
    } else {
        0
    }
}

/// The name of a unit.
pub open spec fn unit_name(k: nat) -> Seq<char> {
    if k == 0 {
        "bytes"@
    } else if k == 1 {
        "KB"@
    } else if k == 2 {
        "MB"@
    } else if k == 3 {
        "GB"@
    } else if k == 4 {
        "TB"@
    } else {
        "PB"@
    }
}

/// A size as people read it: bytes below 1 KB, otherwise the value in the
/// largest unit it reaches, with two decimals. The value is the size as a
/// `f64`, divided by the unit and rounded to two decimals (ties to even).
pub open spec fn readable_size_text(size: u64) -> Seq<char> {
    let f = f64_of(size);
    let k = unit_of(f);
    if k == 0 {
        decimal_text(f) + " bytes"@
    } else {
        let v = div_round_even(100 * f, unit_scale(k));
        decimal_text(v / 100) + "."@ + seq![digit_char(((v % 100) / 10) as int), digit_char((v % 10) as int)]
            + " "@ + unit_name(k)
    }
}

/// `n / p` rounded to the nearest integer, ties to the even one.
fn div_round_even_exec(n: u128, p: u128) -> (r: u128)
    requires
        p > 0,
        n < 0x1_0000_0000_0000_0000_0000,
    ensures
        r == div_round_even(n as nat, p as nat),
{
    let q = n / p;
    let r = n % p;
    if r > p / 2 || (2 * r == p && q % 2 == 1) {
        q + 1
    } else {
        q
    }
}

fn unit_label(k: u128) -> (r: &'static str)
    ensures
        r@ == unit_name(k as nat),
{
    if k == 0 {
        "bytes"
    } else if k == 1 {
        "KB"
    } else if k == 2 {
        "MB"
    } else if k == 3 {
        "GB"
    } else if k == 4 {
        "TB"
    } else {
        "PB"
    }
}

/// A size as people read it, e.g. `512 bytes` or `4.00 KB`.
pub fn human_readable_size(size: u64) -> (r: String)
    ensures
        r@ == readable_size_text(size),
{
    let n = size as u128;
    let mut p: u128 = 1;
    while n / p >= F64_EXACT_LIMIT
        invariant
            n == size as u128,
            1 <= p <= 4096,
            float_scale(n as nat) == p * float_scale((n / p) as nat),
        decreases n / p,
    {
        proof {
            lemma_fundamental_div_mod(n as int, p as int);
            assert(p * 0x20_0000_0000_0000 <= n) by (nonlinear_arith)
                requires
                    n / p >= 0x20_0000_0000_0000,
                    n == p * (n / p) + n % p,
                    n % p >= 0,
                    p >= 1,
            ;
            lemma_div_denominator(n as int, p as int, 2);
            let ni = n as int;
            let pi = p as int;
            assert(float_scale((ni / pi) as nat) == 2 * float_scale(((ni / pi) / 2) as nat));
            assert(ni / (pi * 2) == (ni / pi) / 2);
            assert(pi * (2 * float_scale((ni / (pi * 2)) as nat)) == (pi * 2) * float_scale(
                (ni / (pi * 2)) as nat,
            )) by (nonlinear_arith);
            assert(ni / (pi * 2) < ni / pi) by (nonlinear_arith)
                requires
                    ni / pi >= 0x20_0000_0000_0000,
                    ni / (pi * 2) == (ni / pi) / 2,
            ;
        }
        p = p * 2;
    }
    proof {
        lemma_fundamental_div_mod(n as int, p as int);
        assert(float_scale((n / p) as nat) == 1);
        assert(float_scale(n as nat) == p * float_scale((n / p) as nat));
        let fs = float_scale((n / p) as nat);
        let whole_scale = float_scale(n as nat);
        assert(whole_scale == p) by (nonlinear_arith)
            requires
                whole_scale == p * fs,
                fs == 1,
        ;
        assert(n as nat == size as nat);
        assert(p == float_scale(size as nat));
    }
    let q = div_round_even_exec(n, p);
    assert(q * p <= n + p) by (nonlinear_arith)
        requires
            q <= n / p + 1,
            n == p * (n / p) + n % p,
            n % p >= 0,
            p >= 1,
    ;
    let f = q * p;
    assert(f == f64_of(size));
    let k: u128 = if f >= 0x4_0000_0000_0000 {
        5
    } else if f >= 0x100_0000_0000 {
        4
    } else if f >= 0x4000_0000 {
        3
    } else if f >= 0x10_0000 {
        2
    } else if f >= 0x400 {
        1
    } else {
        0
    };
    assert(k == unit_of(f as nat));
    if k == 0 {
        return decimal_string(f as u64).concat(" bytes");
    }
    let d: u128 = if k == 1 {
        0x400
    } else if k == 2 {
        0x10_0000
    } else if k == 3 {
        0x4000_0000
    } else if k == 4 {
        0x100_0000_0000
    } else {
        0x4_0000_0000_0000
    };
    assert(d == unit_scale(k as nat));
    let v = div_round_even_exec(100 * f, d);
    proof {
        lemma_div_is_ordered_by_denominator((100 * f) as int, 0x400, d as int);
    }
    let whole = (v / 100) as u64;
    let tens = ((v % 100) / 10) as u64;
    let ones = (v % 10) as u64;
    let r = decimal_string(whole).concat(".").concat(digit_str(tens)).concat(digit_str(ones));
    r.concat(" ").concat(unit_label(k))
}

} // verus!
