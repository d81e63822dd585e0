//! A byte count in megabytes with one decimal, as `{:.1}` prints the
//! double `bytes as f64 / 1e6`, computed exactly in integers.
use vstd::prelude::*;
use crate::text::{dec_nat, push_u64};

verus! {

/// `2` to the power `k`.
pub open spec fn pow2n(k: nat) -> nat
    decreases k,
{
    if k == 0 {
        1
    } else {
        2 * pow2n((k - 1) as nat)
    }
}

/// `a / b` rounded to the nearest integer, ties to the even one.
pub open spec fn round_half_even(a: nat, b: nat) -> nat {
    let q = a / b;
    let r = a % b;
    if 2 * r > b || (2 * r == b && q % 2 == 1) {
        q + 1
    } else {
        q
    }
}

/// `2^53`: a double carries 53 significant bits.
pub open spec fn double_span() -> nat {
    0x20000000000000
}

/// How many low bits of `n` a double cannot hold: how often `n` is halved
/// before it is below `2^53`.
pub open spec fn excess_bits(n: nat) -> nat
    decreases n,
{
    if n < double_span() {
        0
    } else {
        1 + excess_bits(n / 2)
    }
}

/// The double nearest to `n` (`n as f64`), ties to the even significand.
pub open spec fn as_double(n: nat) -> nat {
    let p = pow2n(excess_bits(n));
    round_half_even(n, p) * p
}

/// `2^52 * 10^6`: a quotient by `10^6` scaled by `2^s` has a 53-bit
/// significand once it reaches `2^52`.
pub open spec fn quotient_floor() -> nat {
    4503599627370496000000
}

/// The scale `2^s`, from `s` up, that gives `v / 10^6` a 53-bit
/// significand.
pub open spec fn quotient_scale(v: nat, s: nat) -> nat
    decreases 100 - s,
{
    if s >= 100 || v * pow2n(s) >= quotient_floor() {
        s
    } else {
        quotient_scale(v, s + 1)
    }
}

/// The tenths that `{:.1}` prints for `bytes as f64 / 1_000_000.0`: the
/// byte count as a double, divided by `10^6` and rounded to a double
/// (ties to even), then rounded to tenths (ties to even).
pub open spec fn megabyte_tenths(bytes: nat) -> nat {
    let v = as_double(bytes);
    let s = quotient_scale(v, 0);
    let m = round_half_even(v * pow2n(s), 1000000);
    round_half_even(10 * m, pow2n(s))
}

/// A byte count in megabytes with one decimal.
pub open spec fn megabytes_text(bytes: nat) -> Seq<char> {
    let t = megabyte_tenths(bytes);
    dec_nat(t / 10) + "."@ + dec_nat(t % 10)
}

proof fn lemma_pow2n_positive(k: nat)
    ensures
        pow2n(k) >= 1,
    decreases k,
{
    if k > 0 {
        lemma_pow2n_positive((k - 1) as nat);
    }
}

/// `a / b` rounded half to even.
fn div_round_half_even(a: u128, b: u128) -> (r: u128)
    requires
        b > 0,
        a < u128::MAX,
    ensures
        r == round_half_even(a as nat, b as nat),
        r <= a / b + 1,
{
    let q = a / b;
    let r = a % b;
    if r > b - r || (r == b - r && q % 2 == 1) {
        q + 1
    } else {
        q
    }
}

/// The tenths of `megabyte_tenths(bytes)`.
fn tenths_of(bytes: usize) -> (t: u64)
    ensures
        t == megabyte_tenths(bytes as nat),
{
    let n: u128 = bytes as u128;
    // `n as f64`: the bits below the 53 leading ones are dropped.
    let mut m: u128 = n;
    let mut p: u128 = 1;
    let ghost mut e: nat = 0;
    while m >= 0x20000000000000
        invariant
            n == bytes as u128,
            n <= 0xffff_ffff_ffff_ffff,
            p >= 1,
            p == pow2n(e),
            m as int == (n as int) / (p as int),
            m * p <= n,
            excess_bits(n as nat) == e + excess_bits(m as nat),
            e > 0 ==> m >= 0x10000000000000,
        decreases m,
    {
        let ghost p0 = p as int;
        let ghost m0 = m as int;
        proof {
            assert(p0 * 0x20000000000000 <= m0 * p0) by (nonlinear_arith)
                requires
                    m0 >= 0x20000000000000,
                    p0 >= 1,
            ;
            vstd::arithmetic::div_mod::lemma_div_denominator(n as int, p0, 2);
        }
        m = m / 2;
        p = p * 2;
        proof {
            e = e + 1;
            let pi = p as int;
            let ni = n as int;
            vstd::arithmetic::div_mod::lemma_fundamental_div_mod(ni, pi);
            vstd::arithmetic::div_mod::lemma_mod_bound(ni, pi);
            assert((m as int) * pi <= ni) by (nonlinear_arith)
                requires
                    ni == pi * (ni / pi) + ni % pi,
                    m as int == ni / pi,
                    ni % pi >= 0,
            ;
        }
    }
    proof {
        assert(p <= 0x1000) by (nonlinear_arith)
            requires
                e > 0 ==> m >= 0x10000000000000,
                m * p <= n,
                n <= 0xffff_ffff_ffff_ffff,
                p >= 1,
                e == 0 ==> p == 1,
        ;
    }
    let d = div_round_half_even(n, p);
    assert(d <= 0x20000000000000);
    assert((d as int) * (p as int) <= 0x20000000000000 * 0x1000) by (nonlinear_arith)
        requires
            d <= 0x20000000000000,
            p <= 0x1000,
    ;
    let v: u128 = d * p;
    assert(v as nat == as_double(bytes as nat));
    if v == 0 {
        proof {
            let s0 = quotient_scale(0, 0);
            lemma_pow2n_positive(s0);
            assert(0 * pow2n(s0) == 0);
            assert(round_half_even(0, 1000000) == 0);
            assert(round_half_even(0, pow2n(s0)) == 0);
        }
        return 0;
    }
    // The quotient by 10^6, scaled by 2^s to a 53-bit significand.
    let limit: u128 = 4503599627370496000000;
    let mut s: u64 = 0;
    let mut q: u128 = 1;
    let mut vp: u128 = v;
    while s < 100 && vp < limit
        invariant
            v >= 1,
            v <= 0x20000000000000 * 0x1000,
            s <= 100,
            q == pow2n(s as nat),
            q >= 1,
            vp == v * q,
            vp < 2 * limit || s == 0,
            limit == quotient_floor(),
            quotient_scale(v as nat, 0) == quotient_scale(v as nat, s as nat),
        decreases 100 - s,
    {
        let ghost q0 = q as int;
        let ghost vp0 = vp as int;
        proof {
            assert(q0 <= vp0) by (nonlinear_arith)
                requires
                    vp0 == (v as int) * q0,
                    v >= 1,
                    q0 >= 1,
            ;
        }
        vp = vp * 2;
        q = q * 2;
        s = s + 1;
        proof {
            assert(vp == v * q) by (nonlinear_arith)
                requires
                    vp0 == (v as int) * q0,
                    vp as int == vp0 * 2,
                    q as int == q0 * 2,
            ;
        }
    }
    assert(quotient_scale(v as nat, s as nat) == s as nat);
    let m2 = div_round_half_even(vp, 1000000);
    let t = div_round_half_even(10 * m2, q);
    proof {
        vstd::arithmetic::div_mod::lemma_div_is_ordered_by_denominator((10 * m2) as int, 1, q as int);
        assert(vp < 2 * limit || vp <= 0x20000000000000 * 0x1000);
        assert(m2 <= vp / 1000000 + 1);
        assert(t <= 10 * m2 + 1);
    }
    t as u64
}

/// `bytes` in megabytes with one decimal, as `format!("{:.1}", bytes as
/// f64 / 1_000_000.0)` prints it.
pub fn megabytes(bytes: usize) -> (r: String)
    ensures
        r@ == megabytes_text(bytes as nat),
{
    let mut r = String::new();
    push_megabytes(&mut r, bytes);
    proof {
        assert(r@ =~= Seq::<char>::empty() + megabytes_text(bytes as nat));
    }
    r
}

/// Appends `bytes` in megabytes with one decimal.
pub fn push_megabytes(s: &mut String, bytes: usize)
    ensures
        final(s)@ == old(s)@ + megabytes_text(bytes as nat),
{
    let t = tenths_of(bytes);
    push_u64(s, t / 10);
    s.append(".");
    push_u64(s, t % 10);
}

} // verus!
