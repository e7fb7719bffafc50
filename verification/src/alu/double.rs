use vstd::prelude::*;
use vstd::arithmetic::power2::{lemma2_to64, lemma2_to64_rest, lemma_pow2_adds, lemma_pow2_pos, lemma_pow2_strictly_increases, lemma_pow2_unfold, pow2};
use crate::alu::float_magnitude;
use vstd::arithmetic::div_mod::{lemma_fundamental_div_mod, lemma_fundamental_div_mod_converse_div, lemma_fundamental_div_mod_converse_mod, lemma_mod_pos_bound};

verus! {

/// The sign bit of the double `b` is set.
pub open spec fn double_negative(b: u64) -> bool {
    b >= 0x8000_0000_0000_0000
}

/// The biased exponent of the double `b`.
pub open spec fn double_exponent(b: u64) -> int {
    (b as int % 0x8000_0000_0000_0000) / 0x10_0000_0000_0000
}

/// The significand of the double `b` read as a normal one: its fraction with the hidden bit.
pub open spec fn double_significand(b: u64) -> int {
    b as int % 0x10_0000_0000_0000 + 0x10_0000_0000_0000
}

/// The absolute value of `x`.
pub open spec fn magnitude(x: int) -> int {
    if x < 0 { -x } else { x }
}

/// The double `b` denotes the integer `x` exactly: zero for zero, else a normal double of
/// `x`'s sign whose significand times its power of two is `|x|`.
pub open spec fn double_denotes_integer(b: u64, x: int) -> bool {
    if x == 0 {
        b == 0
    } else {
        let e = double_exponent(b);
        let m = double_significand(b);
        &&& double_negative(b) == (x < 0)
        &&& 1 <= e <= 2046
        &&& if e < 1075 {
            m == magnitude(x) * pow2((1075 - e) as nat)
        } else {
            m * pow2((e - 1075) as nat) == magnitude(x)
        }
    }
}

/// The double `b` is the double nearest to the integer `x`, ties going to an even
/// significand: zero for zero; otherwise a normal double of `x`'s sign that is `|x|` itself
/// when its binade has steps below one, and else, as `v`, lies no farther from `|x|` than
/// half the step to the next double above (`u`) and half the step to the next double below
/// (`u`, or `u / 2` at the bottom of the binade).
pub open spec fn nearest_double(b: u64, x: int) -> bool {
    if x == 0 {
        b == 0
    } else {
        let a = magnitude(x);
        let e = double_exponent(b);
        let m = double_significand(b);
        &&& double_negative(b) == (x < 0)
        &&& 1 <= e <= 2046
        &&& if e < 1075 {
            m == a * pow2((1075 - e) as nat)
        } else {
            let u = pow2((e - 1075) as nat) as int;
            let v = m * u;
            let low = if m == 0x10_0000_0000_0000 { u } else { 2 * u };
            &&& 2 * (a - v) <= u
            &&& 4 * (v - a) <= low
            &&& (2 * (a - v) == u || (v > a && 4 * (v - a) == low)) ==> m % 2 == 0
        }
    }
}

/// The bits of the normal double with the given sign, biased exponent and significand.
proof fn lemma_double_fields(negative: bool, e: int, m: int, b: int)
    requires
        1 <= e <= 2046,
        0x10_0000_0000_0000 <= m < 0x20_0000_0000_0000,
        b == (if negative { 0x8000_0000_0000_0000int } else { 0 }) + e * 0x10_0000_0000_0000 + (m - 0x10_0000_0000_0000),
    ensures
        0 <= b < 0x1_0000_0000_0000_0000,
        double_negative(b as u64) == negative,
        double_exponent(b as u64) == e,
        double_significand(b as u64) == m,
{
    let s: int = if negative { 1 } else { 0 };
    let f = m - 0x10_0000_0000_0000;
    let low = e * 0x10_0000_0000_0000 + f;
    assert(0 <= low < 0x8000_0000_0000_0000);
    assert(b == s * 0x8000_0000_0000_0000 + low);
    lemma_fundamental_div_mod_converse_mod(b, 0x8000_0000_0000_0000, s, low);
    lemma_fundamental_div_mod_converse_div(low, 0x10_0000_0000_0000, e, f);
    assert(b == (s * 2048 + e) * 0x10_0000_0000_0000 + f);
    lemma_fundamental_div_mod_converse_mod(b, 0x10_0000_0000_0000, s * 2048 + e, f);
}

/// Rounding `a == u * q + r` (with `q` of 53 binary digits) to the nearest multiple of
/// `u`, ties to an even quotient, gives a significand `m` and step `w` (`u`, or `2u` when
/// the quotient reached 2^53) that meet the conditions of `nearest_double`.
proof fn lemma_rounding(a: int, u: int, q: int, r: int, up: bool, m: int, w: int)
    requires
        u >= 2,
        a == u * q + r,
        0 <= r < u,
        0x10_0000_0000_0000 <= q < 0x20_0000_0000_0000,
        up == (2 * r > u || (2 * r == u && q % 2 == 1)),
        (up && q + 1 == 0x20_0000_0000_0000) ==> m == 0x10_0000_0000_0000 && w == 2 * u,
        !(up && q + 1 == 0x20_0000_0000_0000) ==> w == u && m == (if up { q + 1 } else { q }),
    ensures
        0x10_0000_0000_0000 <= m < 0x20_0000_0000_0000,
        2 * (a - m * w) <= w,
        4 * (m * w - a) <= (if m == 0x10_0000_0000_0000 { w } else { 2 * w }),
        (2 * (a - m * w) == w || (m * w > a && 4 * (m * w - a) == (if m == 0x10_0000_0000_0000 { w } else { 2 * w })))
            ==> m % 2 == 0,
{
    if up && q + 1 == 0x20_0000_0000_0000 {
        assert(m * w == 0x20_0000_0000_0000 * u) by (nonlinear_arith)
            requires m == 0x10_0000_0000_0000, w == 2 * u;
        assert(m * w - a == u - r) by (nonlinear_arith)
            requires m * w == 0x20_0000_0000_0000 * u, q + 1 == 0x20_0000_0000_0000, a == u * q + r;
    } else if up {
        assert(m * w - a == u - r) by (nonlinear_arith)
            requires m == q + 1, w == u, a == u * q + r;
    } else {
        assert(a - m * w == r) by (nonlinear_arith)
            requires m == q, w == u, a == u * q + r;
    }
}

/// The double nearest to the integer `x`: `x as f64`.
#[verifier::rlimit(100)]
#[verifier::spinoff_prover]
pub fn int_to_double(x: i128) -> (b: u64)
    requires
        -0x1_0000_0000_0000_0000 < x < 0x1_0000_0000_0000_0000,
    ensures
        nearest_double(b, x as int),
{
    if x == 0 {
        return 0;
    }
    proof { lemma2_to64(); lemma2_to64_rest(); }
    let negative = x < 0;
    let a: u128 = if negative { (0 - x) as u128 } else { x as u128 };
    assert(a as int == magnitude(x as int));
    // The number of binary digits of `a`.
    let mut n: u64 = 0;
    let mut p: u128 = 1;
    while p <= a
        invariant
            1 <= a < 0x1_0000_0000_0000_0000,
            p == pow2(n as nat),
            n <= 64,
            n > 0 ==> pow2((n - 1) as nat) <= a,
            pow2(64) == 0x1_0000_0000_0000_0000,
        decreases 64 - n,
    {
        if n >= 64 {
            proof {
                if n > 64 {
                    lemma_pow2_strictly_increases(64, n as nat);
                }
            }
            assert(false);
        }
        proof { lemma_pow2_unfold((n + 1) as nat); }
        p = p * 2;
        n = n + 1;
    }
    proof { lemma2_to64(); lemma2_to64_rest(); }
    assert(n > 0) by {
        if n == 0 {
            assert(pow2(0) == 1);
        }
    }
    let ghost aa = a as int;
    let mut m: u128;
    let mut e: u64;
    if n <= 53 {
        m = a;
        let mut k: u64 = n;
        proof {
            lemma_pow2_unfold(n as nat);
            assert(aa * pow2(0) == aa);
        }
        while k < 53
            invariant
                1 <= n <= k <= 53,
                m == aa * pow2((k - n) as nat),
                pow2((k - 1) as nat) <= m < pow2(k as nat),
                pow2(53) == 0x20_0000_0000_0000,
            decreases 53 - k,
        {
            proof {
                lemma_pow2_unfold((k + 1 - n) as nat);
                lemma_pow2_unfold((k + 1) as nat);
                lemma_pow2_unfold(k as nat);
                lemma_pow2_strictly_increases(k as nat, 53);
                let t = pow2((k - n) as nat) as int;
                assert(aa * t * 2 == aa * (2 * t)) by (nonlinear_arith);
            }
            m = m * 2;
            k = k + 1;
        }
        e = 1022 + n;
        proof {
            lemma2_to64();
            lemma2_to64_rest();
            if n == 53 {
                assert(m == aa);
            }
            if k > 0 {
                lemma_pow2_strictly_increases(52, 53);
            }
        }
        assert(0x10_0000_0000_0000 <= m < 0x20_0000_0000_0000 && 1023 <= e <= 1075);
    } else {
        let sh: u64 = n - 53;
        let mut u: u128 = 1;
        let mut j: u64 = 0;
        while j < sh
            invariant
                j <= sh,
                sh <= 11,
                u == pow2(j as nat),
            decreases sh - j,
        {
            proof {
                lemma_pow2_unfold((j + 1) as nat);
                lemma_pow2_strictly_increases((j + 1) as nat, 12);
                lemma2_to64();
                lemma2_to64_rest();
            }
            u = u * 2;
            j = j + 1;
        }
        let q = a / u;
        let r = a % u;
        let ghost ui = u as int;
        proof {
            lemma_pow2_pos(sh as nat);
            lemma_pow2_strictly_increases(0, sh as nat);
            lemma_fundamental_div_mod(aa, ui);
            lemma_pow2_adds(52, sh as nat);
            lemma_pow2_adds(53, sh as nat);
            assert(52 + sh == n - 1);
            assert(0x10_0000_0000_0000 * ui <= aa);
            assert(aa < 0x20_0000_0000_0000 * ui);
            let qi = q as int;
            let ri = r as int;
            assert(aa == ui * qi + ri);
            assert(0 <= ri < ui);
            assert(0x10_0000_0000_0000 <= qi < 0x20_0000_0000_0000) by (nonlinear_arith)
                requires
                    aa == ui * qi + ri,
                    0 <= ri < ui,
                    0x10_0000_0000_0000 * ui <= aa < 0x20_0000_0000_0000 * ui,
                    ui > 0;
        }
        let up = 2 * r > u || (2 * r == u && q % 2 == 1);
        if up {
            m = q + 1;
        } else {
            m = q;
        }
        e = 1075 + sh;
        if m == 0x20_0000_0000_0000 {
            m = 0x10_0000_0000_0000;
            e = e + 1;
        }
        proof {
            let ee = e as int;
            if ee == 1076 + sh {
                lemma_pow2_unfold((sh + 1) as nat);
            }
            lemma_rounding(aa, ui, q as int, r as int, up, m as int, pow2((ee - 1075) as nat) as int);
        }
        assert(0x10_0000_0000_0000 <= m < 0x20_0000_0000_0000 && 1076 <= e <= 1087);
    }
    let sign: u64 = if negative { 0x8000_0000_0000_0000 } else { 0 };
    let b = sign + e * 0x10_0000_0000_0000 + (m as u64 - 0x10_0000_0000_0000);
    proof {
        lemma_double_fields(negative, e as int, m as int, b as int);
    }
    b
}

/// A double nearest to an integer of at most 53 binary digits denotes it exactly.
pub proof fn lemma_nearest_is_exact(b: u64, x: int)
    requires
        nearest_double(b, x),
        -0x20_0000_0000_0000 <= x <= 0x20_0000_0000_0000,
    ensures
        double_denotes_integer(b, x),
{
    if x != 0 {
        let a = magnitude(x);
        let e = double_exponent(b);
        let m = double_significand(b);
        if e >= 1075 {
            let u = pow2((e - 1075) as nat) as int;
            let v = m * u;
            lemma_pow2_pos((e - 1075) as nat);
            lemma_mod_pos_bound(b as int, 0x10_0000_0000_0000);
            lemma2_to64();
            if u == 1 {
                assert(v == m) by (nonlinear_arith) requires v == m * u, u == 1;
            } else {
                assert(u >= 2);
                if m == 0x10_0000_0000_0000 {
                    if u == 2 {
                        assert(v == 0x20_0000_0000_0000) by (nonlinear_arith)
                            requires v == m * u, m == 0x10_0000_0000_0000, u == 2;
                    } else {
                        assert(4 * (v - a) > u) by (nonlinear_arith)
                            requires v == m * u, m == 0x10_0000_0000_0000, u >= 3, a <= 0x20_0000_0000_0000;
                    }
                } else {
                    assert(2 * (v - a) > u) by (nonlinear_arith)
                        requires v == m * u, m > 0x10_0000_0000_0000, u >= 2, a <= 0x20_0000_0000_0000;
                }
            }
        }
    }
}

/// The integer part, towards zero, of the finite double `b`: its significand (without the
/// hidden bit for a subnormal) times its power of two, rounded towards zero, with its sign.
pub open spec fn double_trunc(b: u64) -> int {
    let e = double_exponent(b);
    let m = if e == 0 { b as int % 0x10_0000_0000_0000 } else { double_significand(b) };
    let t = if e >= 1075 { m * pow2((e - 1075) as nat) } else { m / (pow2((1075 - e) as nat) as int) };
    if double_negative(b) { -t } else { t }
}

/// The integer part of a double of magnitude at most 2^64: `b as i128` for a double.
#[verifier::rlimit(100)]
#[verifier::spinoff_prover]
pub fn trunc_double(b: u64) -> (t: i128)
    requires
        float_magnitude(b) <= 0x43f0_0000_0000_0000,
    ensures
        t == double_trunc(b),
{
    proof { lemma2_to64(); lemma2_to64_rest(); }
    let negative = b >= 0x8000_0000_0000_0000u64;
    let mag: u64 = if negative { b - 0x8000_0000_0000_0000u64 } else { b };
    let e: u64 = mag / 0x10_0000_0000_0000u64;
    let f: u64 = mag % 0x10_0000_0000_0000u64;
    proof {
        let s: int = if negative { 1 } else { 0 };
        lemma_fundamental_div_mod_converse_mod(b as int, 0x8000_0000_0000_0000, s, mag as int);
        lemma_fundamental_div_mod(mag as int, 0x10_0000_0000_0000);
        assert(b as int == (s * 2048 + e) * 0x10_0000_0000_0000 + f);
        lemma_fundamental_div_mod_converse_mod(b as int, 0x10_0000_0000_0000, s * 2048 + e, f as int);
        assert(e <= 1087);
    }
    let m: u128 = if e == 0 { f as u128 } else { f as u128 + 0x10_0000_0000_0000u128 };
    let t: u128;
    if e >= 1075 {
        let mut p: u128 = m;
        let mut j: u64 = 0;
        while j < e - 1075
            invariant
                j <= e - 1075,
                e <= 1087,
                m < 0x20_0000_0000_0000,
                p == m * pow2(j as nat),
                pow2(12) == 0x1000,
            decreases e - 1075 - j,
        {
            proof {
                lemma_pow2_unfold((j + 1) as nat);
                lemma_pow2_strictly_increases(j as nat, 12);
                let w = pow2(j as nat) as int;
                assert(m * w * 2 == m * (2 * w)) by (nonlinear_arith);
                assert(m * w < 0x20_0000_0000_0000 * 0x1000) by (nonlinear_arith)
                    requires m < 0x20_0000_0000_0000, w < 0x1000, w >= 0;
            }
            p = p * 2;
            j = j + 1;
        }
        proof {
            if e > 1075 {
                lemma_pow2_strictly_increases((e - 1075) as nat, 13);
            }
            let w = pow2((e - 1075) as nat) as int;
            assert(m * w <= 0x20_0000_0000_0000 * 0x2000) by (nonlinear_arith)
                requires m < 0x20_0000_0000_0000, w <= 0x2000, w >= 0;
        }
        t = p;
    } else {
        let k: u64 = 1075 - e;
        if k >= 64 {
            proof {
                lemma_pow2_strictly_increases(53, k as nat);
                lemma_fundamental_div_mod_converse_div(m as int, pow2(k as nat) as int, 0, m as int);
            }
            t = 0;
        } else {
            let mut p: u128 = 1;
            let mut j: u64 = 0;
            while j < k
                invariant
                    j <= k,
                    k < 64,
                    p == pow2(j as nat),
                    pow2(64) == 0x1_0000_0000_0000_0000,
                decreases k - j,
            {
                proof {
                    lemma_pow2_unfold((j + 1) as nat);
                    lemma_pow2_strictly_increases((j + 1) as nat, 64);
                }
                p = p * 2;
                j = j + 1;
            }
            proof { lemma_pow2_pos(k as nat); }
            t = m / p;
        }
    }
    if negative { 0 - (t as i128) } else { t as i128 }
}

/// A double that denotes an integer exactly has that integer as its integer part.
pub proof fn lemma_trunc_of_exact(b: u64, x: int)
    requires
        double_denotes_integer(b, x),
    ensures
        double_trunc(b) == x,
{
    if x != 0 {
        let e = double_exponent(b);
        let m = double_significand(b);
        if e < 1075 {
            let p = pow2((1075 - e) as nat) as int;
            lemma_pow2_pos((1075 - e) as nat);
            lemma_fundamental_div_mod_converse_div(m, p, magnitude(x), 0);
        }
    } else {
        assert(double_exponent(0) == 0);
        assert(0int % 0x10_0000_0000_0000 == 0);
        lemma_pow2_pos(1075);
        lemma_fundamental_div_mod_converse_div(0, pow2(1075) as int, 0, 0);
    }
}

} // verus!
