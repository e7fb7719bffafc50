use vstd::prelude::*;
use vstd::arithmetic::power2::{lemma2_to64, lemma2_to64_rest, lemma_pow2_adds, lemma_pow2_pos, lemma_pow2_strictly_increases, lemma_pow2_unfold, pow2};
use vstd::arithmetic::div_mod::{lemma_fundamental_div_mod, lemma_fundamental_div_mod_converse_div, lemma_fundamental_div_mod_converse_mod};
use crate::alu::double::double_exponent;
use crate::alu::{float_is_finite, float_magnitude};

verus! {

/// 2^(e + 2148): a power of two of a double, or of a product of two doubles, made whole.
pub open spec fn scaled(e: int) -> int {
    pow2((e + 2148) as nat) as int
}

/// The exponent of the unit in the last place of the finite double `b`.
pub open spec fn double_unit_exponent(b: u64) -> int {
    if double_exponent(b) == 0 { -1074 } else { double_exponent(b) - 1075 }
}

/// The significand of the finite double `b`, counted in units in its last place.
pub open spec fn double_units(b: u64) -> int {
    if double_exponent(b) == 0 {
        b as int % 0x10_0000_0000_0000
    } else {
        b as int % 0x10_0000_0000_0000 + 0x10_0000_0000_0000
    }
}

/// The least magnitude that rounds to infinity, made whole: (2^54 - 1) * 2^970.
pub open spec fn overflow_threshold() -> int {
    (0x40_0000_0000_0000 - 1) * scaled(970)
}

/// The magnitude of the double `b` is the double magnitude nearest to `p * 2^k`, ties
/// going to an even significand: no farther from it than half the step to the next double
/// above (`u`) and half the step to the next double below (`u`, or `u / 2` at the bottom of
/// a binade above the least).
pub open spec fn nearest_scaled(b: u64, p: int, k: int) -> bool {
    let e = double_exponent(b);
    let m = double_units(b);
    let u = scaled(double_unit_exponent(b));
    let v = m * u;
    let r = p * scaled(k);
    let low = if m == 0x10_0000_0000_0000 && e > 1 { u } else { 2 * u };
    &&& e <= 2046
    &&& 2 * (r - v) <= u
    &&& 4 * (v - r) <= low
    &&& (2 * (r - v) == u || (v > r && 4 * (v - r) == low)) ==> m % 2 == 0
}

/// Multiplying by a positive factor keeps orders and equalities.
proof fn lemma_scale(x: int, y: int, f: int)
    requires
        f > 0,
    ensures
        x <= y <==> x * f <= y * f,
        x == y <==> x * f == y * f,
        x < y <==> x * f < y * f,
{
    if x <= y {
        assert(x * f <= y * f) by (nonlinear_arith) requires x <= y, f > 0;
    } else {
        assert(x * f > y * f) by (nonlinear_arith) requires x > y, f > 0;
    }
    if x < y {
        assert(x * f < y * f) by (nonlinear_arith) requires x < y, f > 0;
    } else {
        assert(x * f >= y * f) by (nonlinear_arith) requires x >= y, f > 0;
    }
}

/// The bits of a finite double of magnitude `q * 2^qe` in units: `q` itself below 2^52
/// (where `qe` is the least exponent), else the biased exponent and the fraction.
proof fn lemma_double_of_units(q: int, qe: int, bits: int)
    requires
        -1074 <= qe <= 971,
        0 <= q < 0x20_0000_0000_0000,
        q < 0x10_0000_0000_0000 ==> qe == -1074 && bits == q,
        q >= 0x10_0000_0000_0000 ==> bits == (qe + 1075) * 0x10_0000_0000_0000 + (q - 0x10_0000_0000_0000),
    ensures
        0 <= bits < 0x7ff0_0000_0000_0000,
        double_units(bits as u64) == q,
        double_unit_exponent(bits as u64) == qe,
        double_exponent(bits as u64) == (if q < 0x10_0000_0000_0000 { 0 } else { qe + 1075 }),
{
    if q < 0x10_0000_0000_0000 {
        lemma_fundamental_div_mod_converse_mod(bits, 0x8000_0000_0000_0000, 0, bits);
        lemma_fundamental_div_mod_converse_div(bits, 0x10_0000_0000_0000, 0, bits);
        lemma_fundamental_div_mod_converse_mod(bits, 0x10_0000_0000_0000, 0, bits);
    } else {
        let e = qe + 1075;
        let f = q - 0x10_0000_0000_0000;
        lemma_fundamental_div_mod_converse_mod(bits, 0x8000_0000_0000_0000, 0, bits);
        lemma_fundamental_div_mod_converse_div(bits, 0x10_0000_0000_0000, e, f);
        lemma_fundamental_div_mod_converse_mod(bits, 0x10_0000_0000_0000, e, f);
    }
}

/// Rounding `a == u * q + r` to a multiple `m` of `w`: `q` or `q + 1` steps of `u`, or,
/// when rounding up reaches the next binade (`norm`), half as many steps of `2u`.
proof fn lemma_round_units(a: int, u: int, q: int, r: int, up: bool, norm: bool, m: int, w: int)
    requires
        u >= 2,
        a == u * q + r,
        0 <= r < u,
        q >= 0,
        up == (2 * r > u || (2 * r == u && q % 2 == 1)),
        norm ==> up && q + 1 == 2 * m && w == 2 * u && m % 2 == 0,
        !norm ==> w == u && m == (if up { q + 1 } else { q }),
    ensures
        2 * (a - m * w) <= w,
        4 * (m * w - a) <= (if norm { w } else { 2 * w }),
        !up ==> m * w <= a,
        2 * (a - m * w) == w ==> m % 2 == 0,
        (m * w > a && 4 * (m * w - a) == (if norm { w } else { 2 * w })) ==> m % 2 == 0,
{
    if norm {
        assert(m * w == (q + 1) * u) by (nonlinear_arith)
            requires q + 1 == 2 * m, w == 2 * u;
        assert(m * w - a == u - r) by (nonlinear_arith)
            requires m * w == (q + 1) * u, a == u * q + r;
    } else if up {
        assert(m * w - a == u - r) by (nonlinear_arith)
            requires m == q + 1, w == u, a == u * q + r;
    } else {
        assert(a - m * w == r) by (nonlinear_arith)
            requires m == q, w == u, a == u * q + r;
    }
}

/// `scaled(x + d) == 2^d * scaled(x)` for `d >= 0`.
proof fn lemma_scaled_adds(x: int, d: int)
    requires
        x >= -2148,
        d >= 0,
    ensures
        scaled(x + d) == pow2(d as nat) * scaled(x),
        scaled(x) > 0,
{
    lemma_pow2_adds(d as nat, (x + 2148) as nat);
    lemma_pow2_pos((x + 2148) as nat);
}

/// `scaled` grows with its exponent.
proof fn lemma_scaled_grows(x: int, y: int)
    requires
        -2148 <= x <= y,
    ensures
        scaled(x) <= scaled(y),
{
    if x < y {
        lemma_pow2_strictly_increases((x + 2148) as nat, (y + 2148) as nat);
    }
}

/// `q` units of 2^qe (a significand below 2^52 only at the least exponent) are the double
/// magnitude nearest to `p * 2^k`, as `nearest_scaled` states it of a double's bits.
pub open spec fn rounded_units(q: int, qe: int, p: int, k: int) -> bool {
    let u = scaled(qe);
    let v = q * u;
    let r = p * scaled(k);
    let e = if q < 0x10_0000_0000_0000 { 0 } else { qe + 1075 };
    let low = if q == 0x10_0000_0000_0000 && e > 1 { u } else { 2 * u };
    &&& 2 * (r - v) <= u
    &&& 4 * (v - r) <= low
    &&& (2 * (r - v) == u || (v > r && 4 * (v - r) == low)) ==> q % 2 == 0
}

/// The nearest magnitude is a finite double exactly when `p * 2^k` lies below the least
/// magnitude that rounds to infinity.
proof fn lemma_finite_iff(q: int, qe: int, p: int, k: int)
    requires
        rounded_units(q, qe, p, k),
        0 <= q < 0x20_0000_0000_0000,
        q < 0x10_0000_0000_0000 ==> qe == -1074,
        -1074 <= qe,
        -2148 <= k,
        p >= 0,
    ensures
        qe <= 971 <==> p * scaled(k) < overflow_threshold(),
{
    let u = scaled(qe);
    let v = q * u;
    let r = p * scaled(k);
    let w = scaled(970);
    lemma_scaled_adds(970, 0);
    lemma_scaled_adds(qe, 0);
    if qe <= 970 {
        lemma_scaled_grows(qe, 970);
        assert(2 * r <= (2 * q + 1) * u) by (nonlinear_arith)
            requires 2 * (r - v) <= u, v == q * u;
        if 2 * r == (2 * q + 1) * u {
            assert(2 * (r - v) == u) by (nonlinear_arith) requires 2 * r == (2 * q + 1) * u, v == q * u;
            assert(q % 2 == 0);
        }
        assert(2 * r < (0x40_0000_0000_0000 - 1) * 2 * w) by (nonlinear_arith)
            requires 2 * r <= (2 * q + 1) * u, 0 <= q < 0x20_0000_0000_0000, u <= w, u > 0,
                2 * r == (2 * q + 1) * u ==> q % 2 == 0;
        assert((0x40_0000_0000_0000 - 1) * 2 * w == 2 * ((0x40_0000_0000_0000 - 1) * w)) by (nonlinear_arith);
        assert(r < overflow_threshold());
    } else if qe == 971 {
        lemma_scaled_adds(970, 1);
        lemma2_to64();
        assert(u == 2 * w);
        assert(2 * r <= (2 * q + 1) * u) by (nonlinear_arith)
            requires 2 * (r - v) <= u, v == q * u;
        if 2 * r == (2 * q + 1) * u {
            assert(2 * (r - v) == u) by (nonlinear_arith) requires 2 * r == (2 * q + 1) * u, v == q * u;
            assert(q % 2 == 0);
        }
        assert(r < (0x40_0000_0000_0000 - 1) * w) by (nonlinear_arith)
            requires 2 * r <= (2 * q + 1) * u, 0 <= q < 0x20_0000_0000_0000, u == 2 * w, w > 0,
                2 * r == (2 * q + 1) * u ==> q % 2 == 0;
        assert(r < overflow_threshold());
    } else {
        lemma_scaled_adds(972, qe - 972);
        lemma_scaled_adds(970, 2);
        lemma2_to64();
        lemma_pow2_pos((qe - 972) as nat);
        assert(u >= 4 * w) by (nonlinear_arith)
            requires u == pow2((qe - 972) as nat) * scaled(972), pow2((qe - 972) as nat) >= 1, scaled(972) == 4 * w, w > 0;
        if q == 0x10_0000_0000_0000 {
            assert(4 * r >= (4 * q - 1) * u) by (nonlinear_arith)
                requires 4 * (v - r) <= u, v == q * u;
        } else {
            assert(4 * r >= (4 * q - 2) * u) by (nonlinear_arith)
                requires 4 * (v - r) <= 2 * u, v == q * u;
        }
        assert(r >= (0x40_0000_0000_0000 - 1) * w) by (nonlinear_arith)
            requires q >= 0x10_0000_0000_0000, u >= 4 * w, w > 0,
                q == 0x10_0000_0000_0000 ==> 4 * r >= (4 * q - 1) * u,
                q != 0x10_0000_0000_0000 ==> 4 * r >= (4 * q - 2) * u;
        assert(!(r < overflow_threshold()));
    }
}

/// The double magnitude nearest to `p * 2^k`, or infinity when that rounds beyond the
/// greatest double: rounding to nearest, ties to even, with subnormal results.
#[verifier::rlimit(100)]
#[verifier::spinoff_prover]
pub fn round_to_double(p: u128, k: i64) -> (b: u64)
    requires
        1 <= p < 0x400_0000_0000_0000_0000_0000_0000,
        -2148 <= k <= 2000,
    ensures
        b < 0x8000_0000_0000_0000,
        b < 0x7ff0_0000_0000_0000 ==> nearest_scaled(b, p as int, k as int),
        b < 0x7ff0_0000_0000_0000 <==> p * scaled(k as int) < overflow_threshold(),
        b >= 0x7ff0_0000_0000_0000 ==> b == 0x7ff0_0000_0000_0000,
{
    proof { lemma2_to64(); lemma2_to64_rest(); }
    // The number of binary digits of `p`.
    let mut n: u64 = 0;
    let mut t: u128 = 1;
    while t <= p
        invariant
            1 <= p < 0x400_0000_0000_0000_0000_0000_0000,
            t == pow2(n as nat),
            n <= 106,
            n > 0 ==> pow2((n - 1) as nat) <= p,
        decreases 106 - n,
    {
        if n >= 106 {
            proof {
                lemma_pow2_adds(64, 42);
                lemma2_to64();
                lemma2_to64_rest();
                if n > 106 {
                    lemma_pow2_strictly_increases(106, n as nat);
                }
            }
            assert(false);
        }
        proof { lemma_pow2_unfold((n + 1) as nat); }
        t = t * 2;
        n = n + 1;
    }
    assert(n > 0) by {
        if n == 0 {
            assert(pow2(0) == 1);
        }
    }
    let nn: i64 = n as i64;
    let mut qe: i64 = k + nn - 53;
    let clamped = qe < -1074;
    if clamped {
        qe = -1074;
    }
    let s: i64 = qe - k;
    let ghost f = scaled(k as int);
    let ghost pi = p as int;
    proof {
        lemma_scaled_adds(k as int, 0);
    }
    let q: u128;
    let qf: i64;
    if s <= 0 {
        // Exact: `p * 2^(-s)` units of 2^qe.
        let mut m: u128 = p;
        let mut j: i64 = 0;
        while j < -s
            invariant
                s <= 0,
                -52 <= s,
                0 <= j <= -s,
                m == pi * pow2(j as nat),
                m < pow2((nn + j) as nat),
                nn - s <= 53,
                1 <= nn <= 106,
                pow2(53) == 0x20_0000_0000_0000,
            decreases -s - j,
        {
            proof {
                lemma_pow2_unfold((j + 1) as nat);
                lemma_pow2_unfold((nn + j + 1) as nat);
                lemma_pow2_strictly_increases((nn + j) as nat, 53);
                let w = pow2(j as nat) as int;
                assert(pi * w * 2 == pi * (2 * w)) by (nonlinear_arith);
            }
            m = m * 2;
            j = j + 1;
        }
        proof {
            let d = (-s) as nat;
            lemma_scaled_adds(qe as int, -s as int);
            assert(pi * scaled(k as int) == m * scaled(qe as int)) by (nonlinear_arith)
                requires scaled(k as int) == pow2(d) * scaled(qe as int), m == pi * pow2(d);
            if !clamped {
                lemma_pow2_adds((nn - 1) as nat, d);
                assert(nn - 1 + d == 52);
                assert(pow2((nn - 1) as nat) * pow2(d) <= m) by (nonlinear_arith)
                    requires pow2((nn - 1) as nat) <= pi, m == pi * pow2(d);
            } else {
                if nn - s < 52 {
                    lemma_pow2_strictly_increases((nn - s) as nat, 52);
                }
            }
        }
        assert(rounded_units(m as int, qe as int, pi, k as int));
        q = m;
        qf = qe;
    } else if s > 106 {
        // Below half the least subnormal: zero.
        proof {
            lemma_scaled_adds(k as int, s as int);
            lemma_pow2_adds(64, 42);
            if s > 107 {
                lemma_pow2_strictly_increases(107, s as nat);
            }
            lemma_pow2_unfold(107);
            assert(2 * (pi * scaled(k as int)) < scaled(qe as int) && pi * scaled(k as int) >= 0) by (nonlinear_arith)
                requires scaled(qe as int) == pow2(s as nat) * scaled(k as int), scaled(k as int) > 0,
                    pow2(s as nat) >= pow2(107), pow2(107) == 2 * pow2(106), pi < pow2(106), pi >= 1;
            assert(0 * scaled(qe as int) == 0);
            assert(rounded_units(0, qe as int, pi, k as int));
        }
        q = 0;
        qf = qe;
    } else {
        let mut u: u128 = 1;
        let mut j: i64 = 0;
        proof { lemma_pow2_adds(64, 42); }
        while j < s
            invariant
                1 <= s <= 106,
                0 <= j <= s,
                u == pow2(j as nat),
                pow2(106) == 0x400_0000_0000_0000_0000_0000_0000,
            decreases s - j,
        {
            proof {
                lemma_pow2_unfold((j + 1) as nat);
                if j + 1 < 106 {
                    lemma_pow2_strictly_increases((j + 1) as nat, 106);
                }
            }
            u = u * 2;
            j = j + 1;
        }
        proof { lemma_pow2_pos(s as nat); }
        let q0 = p / u;
        let r = p % u;
        let ghost ui = u as int;
        proof {
            lemma_pow2_pos(s as nat);
            lemma_pow2_strictly_increases(0, s as nat);
            lemma_fundamental_div_mod(pi, ui);
            if !clamped {
                lemma_pow2_adds(52, s as nat);
                lemma_pow2_adds(53, s as nat);
                assert(52 + s == nn - 1);
                assert(0x10_0000_0000_0000 <= q0 < 0x20_0000_0000_0000) by (nonlinear_arith)
                    requires pi == ui * q0 + r, 0 <= r < ui, ui > 0,
                        pow2(52) * ui <= pi, pi < pow2(53) * ui,
                        pow2(52) == 0x10_0000_0000_0000, pow2(53) == 0x20_0000_0000_0000;
            } else {
                lemma_pow2_adds(52, s as nat);
                assert(nn <= 52 + s);
                if nn < 52 + s {
                    lemma_pow2_strictly_increases(nn as nat, (52 + s) as nat);
                }
                assert(q0 < 0x10_0000_0000_0000) by (nonlinear_arith)
                    requires pi == ui * q0 + r, 0 <= r < ui, ui > 0, pi < pow2((52 + s) as nat),
                        pow2((52 + s) as nat) == pow2(52) * ui, pow2(52) == 0x10_0000_0000_0000;
            }
        }
        let up = 2 * r > u || (2 * r == u && q0 % 2 == 1);
        let mut m: u128 = if up { q0 + 1 } else { q0 };
        let mut e2: i64 = qe;
        let norm = m == 0x20_0000_0000_0000;
        if norm {
            m = 0x10_0000_0000_0000;
            e2 = qe + 1;
        }
        proof {
            let w: int = if norm { 2 * ui } else { ui };
            lemma_round_units(pi, ui, q0 as int, r as int, up, norm, m as int, w);
            let ff = scaled(k as int);
            lemma_scaled_adds(k as int, s as int);
            if norm {
                lemma_scaled_adds(k as int, s as int + 1);
                lemma_pow2_unfold((s + 1) as nat);
            }
            assert(scaled(e2 as int) == w * ff) by (nonlinear_arith)
                requires
                    norm ==> scaled(e2 as int) == pow2((s + 1) as nat) * ff && pow2((s + 1) as nat) == 2 * pow2(s as nat),
                    !norm ==> scaled(e2 as int) == pow2(s as nat) * ff,
                    ui == pow2(s as nat),
                    w == (if norm { 2 * ui } else { ui });
            let uu = scaled(e2 as int);
            let v = m * uu;
            let rr = pi * ff;
            assert(v - rr == (m * w - pi) * ff) by (nonlinear_arith)
                requires v == m * uu, uu == w * ff, rr == pi * ff;
            lemma_scale(2 * (pi - m * w), w, ff);
            lemma_scale(4 * (m * w - pi), if norm { w } else { 2 * w }, ff);
            lemma_scale(m * w, pi, ff);
            lemma_scale(4 * (m * w - pi), 0, ff);
            assert(2 * (rr - v) == 2 * (pi - m * w) * ff) by (nonlinear_arith)
                requires v - rr == (m * w - pi) * ff;
            assert(4 * (v - rr) == 4 * (m * w - pi) * ff) by (nonlinear_arith)
                requires v - rr == (m * w - pi) * ff;
            assert((2 * w) * ff == 2 * uu) by (nonlinear_arith) requires uu == w * ff;
            assert(m as int == 0x10_0000_0000_0000 && !norm && !up ==> v <= rr);
            if m == 0x10_0000_0000_0000 && !norm && up {
                assert(clamped);
            }
            assert(rounded_units(m as int, e2 as int, pi, k as int));
        }
        q = m;
        qf = e2;
    }
    if qf > 971 {
        proof {
            lemma_finite_iff(q as int, qf as int, pi, k as int);
        }
        return 0x7ff0_0000_0000_0000;
    }
    let bits: u64 = if q < 0x10_0000_0000_0000 {
        q as u64
    } else {
        ((qf + 1075) as u64) * 0x10_0000_0000_0000 + (q as u64 - 0x10_0000_0000_0000)
    };
    proof {
        lemma_double_of_units(q as int, qf as int, bits as int);
        lemma_finite_iff(q as int, qf as int, pi, k as int);
    }
    bits
}

/// The exponent field and significand of a double depend on its magnitude alone.
pub proof fn lemma_fields_of_magnitude(b: u64)
    ensures
        double_exponent(b) == float_magnitude(b) / 0x10_0000_0000_0000,
        b as int % 0x10_0000_0000_0000 == float_magnitude(b) % 0x10_0000_0000_0000,
        float_is_finite(b) ==> double_exponent(b) <= 2046,
{
    let s: int = if b >= 0x8000_0000_0000_0000 { 1 } else { 0 };
    let mag = float_magnitude(b);
    lemma_fundamental_div_mod_converse_mod(b as int, 0x8000_0000_0000_0000, s, mag);
    lemma_fundamental_div_mod(mag, 0x10_0000_0000_0000);
    let e = mag / 0x10_0000_0000_0000;
    let f = mag % 0x10_0000_0000_0000;
    assert(b as int == (s * 2048 + e) * 0x10_0000_0000_0000 + f);
    lemma_fundamental_div_mod_converse_mod(b as int, 0x10_0000_0000_0000, s * 2048 + e, f);
}

/// The significand in units in the last place and the exponent of that unit of a finite
/// double.
pub fn decode_double(b: u64) -> (r: (u128, i64))
    requires
        float_is_finite(b),
    ensures
        r.0 == double_units(b),
        r.1 == double_unit_exponent(b),
        r.0 < 0x20_0000_0000_0000,
        -1074 <= r.1 <= 971,
        r.0 < 0x10_0000_0000_0000 ==> r.1 == -1074,
{
    proof { lemma_fields_of_magnitude(b); }
    let mag: u64 = if b >= 0x8000_0000_0000_0000u64 { b - 0x8000_0000_0000_0000u64 } else { b };
    let e: u64 = mag / 0x10_0000_0000_0000u64;
    let f: u64 = mag % 0x10_0000_0000_0000u64;
    if e == 0 {
        (f as u128, -1074)
    } else {
        (f as u128 + 0x10_0000_0000_0000u128, e as i64 - 1075)
    }
}

/// A double that is `m` units of `2^x` with `m` its significand is nearest to that product
/// of itself and is finite, below the least magnitude that rounds to infinity.
pub proof fn lemma_exact_is_nearest(b: u64, p: int, k: int)
    requires
        float_is_finite(b),
        -2148 <= k,
        k <= double_unit_exponent(b),
        p * scaled(k) == double_units(b) * scaled(double_unit_exponent(b)),
        p >= 0,
    ensures
        nearest_scaled(b, p, k),
        p * scaled(k) < overflow_threshold(),
{
    lemma_fields_of_magnitude(b);
    lemma_fundamental_div_mod(b as int, 0x10_0000_0000_0000);
    let q = double_units(b);
    let qe = double_unit_exponent(b);
    lemma_scaled_adds(qe, 0);
    assert(rounded_units(q, qe, p, k));
    lemma_finite_iff(q, qe, p, k);
}

/// `scaled(x + d) == 2^d * scaled(x)` for `d >= 0`, and `scaled` is positive.
pub proof fn lemma_scaled_adds_pub(x: int, d: int)
    requires
        x >= -2148,
        d >= 0,
    ensures
        scaled(x + d) == pow2(d as nat) * scaled(x),
        scaled(x) > 0,
{
    lemma_scaled_adds(x, d);
}

} // verus!
