//! Magic multipliers that replace a division by a constant with a
//! multiplication and a shift.

use vstd::prelude::*;
use vstd::arithmetic::power2::{pow2, lemma_pow2_unfold, lemma_pow2_adds, lemma2_to64, lemma2_to64_rest, lemma_pow2_pos};
use vstd::arithmetic::div_mod::{lemma_fundamental_div_mod, lemma_fundamental_div_mod_converse};

verus! {

/// `a / d` rounded up.
pub open spec fn ceil_div(a: nat, d: nat) -> nat {
    if a % d == 0 {
        a / d
    } else {
        a / d + 1
    }
}

/// The shift `s` admits the multiplier `ceil(2^(64+s) / d)` for unsigned
/// division of values below `2^63`: the multiplier fits in 64 bits, and its
/// rounding error times `2^63` stays within `2^(64+s)`.
pub open spec fn unsigned_magic_fits(d: nat, s: nat) -> bool {
    let p = 64 + s;
    let m = ceil_div(pow2(p), d);
    &&& s <= 62
    &&& m < pow2(64)
    &&& (m * d - pow2(p)) * pow2(63) <= pow2(p)
}

/// Doubling a dividend doubles its quotient, plus one where the doubled
/// remainder reaches the divisor.
proof fn lemma_double_divmod(x: int, a: int)
    requires
        x >= 0,
        a > 0,
    ensures
        (2 * x) / a == 2 * (x / a) + (if 2 * (x % a) >= a { 1int } else { 0int }),
        (2 * x) % a == 2 * (x % a) - (if 2 * (x % a) >= a { a } else { 0int }),
{
    lemma_fundamental_div_mod(x, a);
    let q = x / a;
    let r = x % a;
    if 2 * r >= a {
        assert(2 * x == (2 * q + 1) * a + (2 * r - a)) by (nonlinear_arith)
            requires
                x == a * q + r,
        ;
        lemma_fundamental_div_mod_converse(2 * x, a, 2 * q + 1, 2 * r - a);
    } else {
        assert(2 * x == (2 * q) * a + 2 * r) by (nonlinear_arith)
            requires
                x == a * q + r,
        ;
        lemma_fundamental_div_mod_converse(2 * x, a, 2 * q, 2 * r);
    }
}

/// The rounding error of `ceil(a / d)`: `ceil(a / d) * d - a` is the distance
/// from `a` up to the next multiple of `d`.
proof fn lemma_ceil_div_error(a: nat, d: nat)
    requires
        d > 0,
    ensures
        ceil_div(a, d) * d >= a,
        ceil_div(a, d) * d - a == (if a % d == 0 { 0int } else { d - a % d }),
        ceil_div(a, d) * d - a < d,
{
    lemma_fundamental_div_mod(a as int, d as int);
    let q = a / d;
    let r = a % d;
    if r == 0 {
        assert(ceil_div(a, d) * d == a) by (nonlinear_arith)
            requires
                a == d * q + r,
                r == 0,
                ceil_div(a, d) == q,
        ;
    } else {
        assert(ceil_div(a, d) * d == a - r + d) by (nonlinear_arith)
            requires
                a == d * q + r,
                ceil_div(a, d) == q + 1,
        ;
    }
}

/// Dividing by `d` is multiplying by the magic multiplier and keeping the
/// bits above `64 + s`: for every `n` below `2^63`,
/// `n * m / 2^(64+s) == n / d`, where `m` is the multiplier of a shift that
/// `unsigned_magic_fits` admits.
pub proof fn lemma_unsigned_magic_divides(d: nat, s: nat, n: nat)
    requires
        d >= 2,
        unsigned_magic_fits(d, s),
        n < pow2(63),
    ensures
        (n * ceil_div(pow2(64 + s), d)) / pow2(64 + s) == n / d,
{
    let pp = pow2(64 + s);
    let m = ceil_div(pp, d);
    lemma_pow2_pos(64 + s);
    lemma_ceil_div_error(pp, d);
    let delta: int = m * d - pp;
    let big: int = pow2(63) as int;
    assert(delta * big <= pp);
    lemma_fundamental_div_mod(n as int, d as int);
    let q0: int = n as int / d as int;
    let r0: int = n as int % d as int;
    assert(n * delta < pp) by (nonlinear_arith)
        requires
            0 <= n < big,
            0 <= delta,
            delta * big <= pp,
            pp > 0,
    ;
    assert(n * m * d == n * pp + n * delta) by (nonlinear_arith)
        requires
            delta == m * d - pp,
    ;
    assert(q0 * pp <= n * m) by (nonlinear_arith)
        requires
            n * m * d == n * pp + n * delta,
            n == d * q0 + r0,
            0 <= r0,
            0 <= n * delta,
            d > 0,
            pp > 0,
    ;
    assert(n * m < (q0 + 1) * pp) by (nonlinear_arith)
        requires
            n * m * d == n * pp + n * delta,
            n == d * q0 + r0,
            0 <= r0 < d,
            n * delta < pp,
            d > 0,
            pp > 0,
    ;
    assert((q0 + 1) * pp == q0 * pp + pp) by (nonlinear_arith);
    lemma_fundamental_div_mod_converse((n * m) as int, pp as int, q0, n * m - q0 * pp);
}

/// The multiplier and shift that turn an unsigned division by `d` of any
/// value below `2^63` into a multiplication and a right shift by `64 + s`:
/// the first shift `s` that `unsigned_magic_fits` admits, with its multiplier
/// `ceil(2^(64+s) / d)`. `None` for `d` of 0 or 1, and where no shift fits.
pub fn compute_magic_u64_nonneg(d: u64) -> (r: Option<(u64, u8)>)
    ensures
        match r {
            Some((m, s)) => {
                &&& d >= 2
                &&& unsigned_magic_fits(d as nat, s as nat)
                &&& m == ceil_div(pow2((64 + s) as nat), d as nat)
                &&& forall|t: nat| t < s ==> !unsigned_magic_fits(d as nat, t)
            },
            None => d < 2 || forall|t: nat| !unsigned_magic_fits(d as nat, t),
        },
{
    if d == 0 || d == 1 {
        return None;
    }
    proof {
        lemma2_to64();
        lemma2_to64_rest();
    }
    let dd = d as u128;
    let mut s: u8 = 0;
    let mut two_p: u128 = 0x1_0000_0000_0000_0000;
    while s < 63
        invariant
            d >= 2,
            dd == d,
            s <= 63,
            two_p == pow2((64 + s) as nat),
            s < 63 ==> two_p <= 0x4000_0000_0000_0000_0000_0000_0000_0000,
            s < 63 ==> two_p * pow2((62 - s) as nat) == 0x4000_0000_0000_0000_0000_0000_0000_0000,
            pow2(63) == 0x8000_0000_0000_0000,
            pow2(64) == 0x1_0000_0000_0000_0000,
            forall|t: nat| t < s ==> !unsigned_magic_fits(d as nat, t),
        decreases 63 - s,
    {
        let q = two_p / dd;
        let rem = two_p % dd;
        let m = if rem == 0 { q } else { q + 1 };
        proof {
            lemma_ceil_div_error(two_p as nat, d as nat);
            assert(m == ceil_div(two_p as nat, d as nat));
        }
        if m < 0x1_0000_0000_0000_0000 {
            let delta = if rem == 0 { 0 } else { dd - rem };
            if delta * 0x8000_0000_0000_0000 <= two_p {
                proof {
                    assert(m * d - two_p == delta);
                    assert(unsigned_magic_fits(d as nat, s as nat));
                }
                return Some((m as u64, s));
            }
            proof {
                assert(m * d - two_p == delta);
            }
        }
        proof {
            assert(!unsigned_magic_fits(d as nat, s as nat));
            if s < 62 {
                lemma_pow2_unfold((62 - s) as nat);
                lemma_pow2_pos((61 - s) as nat);
                assert(two_p * pow2((62 - s) as nat) == 2 * two_p * pow2((61 - s) as nat)) by (nonlinear_arith)
                    requires
                        pow2((62 - s) as nat) == 2 * pow2((61 - s) as nat),
                ;
                assert(2 * two_p <= 0x4000_0000_0000_0000_0000_0000_0000_0000) by (nonlinear_arith)
                    requires
                        2 * two_p * pow2((61 - s) as nat) == 0x4000_0000_0000_0000_0000_0000_0000_0000,
                        pow2((61 - s) as nat) >= 1,
                ;
            }
            lemma_pow2_unfold((65 + s) as nat);
        }
        two_p = two_p * 2;
        s = s + 1;
    }
    proof {
        assert forall|t: nat| !unsigned_magic_fits(d as nat, t) by {
            if t < s {
            }
        }
    }
    None
}

/// `|d|`.
pub open spec fn abs_nat(d: int) -> nat {
    if d < 0 {
        (-d) as nat
    } else {
        d as nat
    }
}

/// `2^63`, plus one for a negative divisor.
pub open spec fn signed_magic_t(d: int) -> nat {
    pow2(63) + if d < 0 {
        1nat
    } else {
        0nat
    }
}

/// The largest value below `signed_magic_t(d)` that is one less than a
/// multiple of `|d|`.
pub open spec fn signed_magic_anc(d: int) -> int {
    signed_magic_t(d) - 1 - signed_magic_t(d) % abs_nat(d)
}

/// The search for a signed multiplier stops at the exponent `p` once `2^p`
/// exceeds `anc * (|d| - 2^p mod |d|)`.
pub open spec fn signed_magic_stops(d: int, p: nat) -> bool {
    pow2(p) > signed_magic_anc(d) * (abs_nat(d) - pow2(p) % abs_nat(d))
}

/// The search always stops by the exponent 127.
proof fn lemma_signed_magic_stops_by_127(d: int)
    requires
        d != 0,
        i64::MIN <= d <= i64::MAX,
        1 <= signed_magic_anc(d) <= pow2(63),
        abs_nat(d) <= pow2(63),
    ensures
        signed_magic_stops(d, 127),
{
    lemma2_to64_rest();
    lemma2_to64();
    lemma_pow2_adds(64, 63);
    let ad = abs_nat(d) as int;
    let anc = signed_magic_anc(d);
    let r = pow2(127) as int % ad;
    assert(0 <= r < ad);
    assert(anc * (ad - r) <= pow2(63) * pow2(63)) by (nonlinear_arith)
        requires
            1 <= anc <= pow2(63),
            0 <= r < ad,
            ad <= pow2(63),
    ;
}

/// Below `signed_magic_t(d)`, the rounding error of the multiplier for an
/// exponent where the search stops never carries a dividend `x` past the
/// next multiple of `|d|`: `x * e < (|d| - x % |d|) * 2^p`, where
/// `e = |d| - 2^p % |d|` is that error times `|d|`.
proof fn lemma_signed_magic_error(d: int, p: nat, x: int)
    requires
        2 <= abs_nat(d) <= pow2(63),
        signed_magic_stops(d, p),
        0 <= x < signed_magic_t(d),
    ensures
        x * (abs_nat(d) - pow2(p) % abs_nat(d)) < (abs_nat(d) - x % (abs_nat(d) as int)) * pow2(p),
{
    let ad = abs_nat(d) as int;
    let t = signed_magic_t(d) as int;
    let big = pow2(p) as int;
    let anc = signed_magic_anc(d);
    let e = ad - big % ad;
    lemma_pow2_pos(p);
    lemma_fundamental_div_mod(t, ad);
    lemma_fundamental_div_mod(big, ad);
    lemma_fundamental_div_mod(x, ad);
    let tq = t / ad;
    let r = x % ad;
    assert(anc + 1 == ad * tq);
    assert(pow2(63) >= 1) by {
        lemma_pow2_pos(63);
    }
    assert(tq >= 1) by (nonlinear_arith)
        requires
            t == ad * tq + t % ad,
            0 <= t % ad < ad,
            ad <= t,
            ad > 0,
    ;
    assert(anc >= ad - 1) by (nonlinear_arith)
        requires
            anc + 1 == ad * tq,
            tq >= 1,
            ad > 0,
    ;
    assert(1 <= e <= ad);
    assert(big > anc * e);
    if x <= anc {
        assert(x * e <= anc * e) by (nonlinear_arith)
            requires
                0 <= x <= anc,
                e >= 0,
        ;
        assert(big <= (ad - r) * big) by (nonlinear_arith)
            requires
                0 <= r < ad,
                big > 0,
        ;
    } else {
        let j = x - (anc + 1);
        assert(0 <= j <= ad - 2);
        lemma_fundamental_div_mod_converse(x, ad, tq, j);
        assert(r == j);
        assert(x * e == anc * e + (1 + j) * e) by (nonlinear_arith)
            requires
                x == anc + 1 + j,
        ;
        assert((1 + j) * e <= anc * e) by (nonlinear_arith)
            requires
                1 + j <= anc,
                e >= 0,
        ;
        assert(2 * big <= (ad - r) * big) by (nonlinear_arith)
            requires
                r <= ad - 2,
                big > 0,
        ;
    }
}

/// A power of two that divides `k * ad`, with `ad` odd, divides `k`.
proof fn lemma_pow2_divides_odd_product(k: int, ad: int, j: nat, m: int) -> (a: int)
    requires
        ad > 0,
        ad % 2 == 1,
        k * ad == pow2(j) * m,
    ensures
        k == pow2(j) * a,
    decreases j,
{
    if j == 0 {
        assert(pow2(0) == 1) by {
            lemma2_to64();
        }
        k
    } else {
        lemma_pow2_unfold(j);
        let pj = pow2((j - 1) as nat) as int;
        lemma_fundamental_div_mod(k, 2);
        lemma_fundamental_div_mod(ad, 2);
        let h = k / 2;
        let b = k % 2;
        let g = ad / 2;
        assert(k * ad == 2 * (2 * h * g + h + b * g) + b) by (nonlinear_arith)
            requires
                k == 2 * h + b,
                ad == 2 * g + 1,
        ;
        assert(k * ad == 2 * (pj * m)) by (nonlinear_arith)
            requires
                k * ad == pow2(j) * m,
                pow2(j) == 2 * pj,
        ;
        assert(b == 0);
        assert(h * ad == pj * m) by (nonlinear_arith)
            requires
                k == 2 * h,
                k * ad == 2 * (pj * m),
        ;
        let a1 = lemma_pow2_divides_odd_product(h, ad, (j - 1) as nat, m);
        assert(k == pow2(j) * a1) by (nonlinear_arith)
            requires
                k == 2 * h,
                h == pj * a1,
                pow2(j) == 2 * pj,
        ;
        a1
    }
}

/// For `d > 0` whose multiple lies just above `2^63`, the rounding error of
/// the multiplier times `2^63` stays within `2^p`.
proof fn lemma_signed_magic_edge(d: int, p: nat)
    requires
        2 <= d < pow2(63),
        p >= 64,
        signed_magic_stops(d, p),
        (pow2(63) as int) % d == d - 1,
    ensures
        pow2(63) * (d - pow2(p) % (d as nat)) <= pow2(p),
{
    let t = pow2(63) as int;
    let big = pow2(p) as int;
    let e = d - big % d;
    let anc = signed_magic_anc(d);
    lemma_pow2_pos(p);
    lemma_pow2_pos(62);
    lemma_pow2_unfold(63);
    lemma_fundamental_div_mod(t, d);
    lemma_fundamental_div_mod(big, d);
    lemma_fundamental_div_mod(d, 2);
    assert(abs_nat(d) == d);
    assert(signed_magic_t(d) == t);
    assert(anc == t - d);
    assert(d % 2 == 1) by {
        if d % 2 == 0 {
            let g = d / 2;
            let q = t / d;
            assert(t == 2 * (g * q + g) - 1) by (nonlinear_arith)
                requires
                    t == d * q + (d - 1),
                    d == 2 * g,
            ;
            assert(t == 2 * (pow2(62) as int));
        }
    }
    let c = pow2((p - 63) as nat) as int;
    lemma_pow2_adds(63, (p - 63) as nat);
    assert(big == t * c);
    let kk = (t / d + 1) * e - (big / d + 1);
    assert(t * e - big == d * kk) by (nonlinear_arith)
        requires
            t == d * (t / d) + (d - 1),
            big == d * (big / d) + big % d,
            e == d - big % d,
            kk == (t / d + 1) * e - (big / d + 1),
    ;
    assert(big > anc * e);
    assert(d * kk < d * e) by (nonlinear_arith)
        requires
            t * e - big == d * kk,
            big > (t - d) * e,
    ;
    assert(kk < e) by (nonlinear_arith)
        requires
            d * kk < d * e,
            d > 0,
    ;
    if t * e > big {
        assert(kk > 0) by (nonlinear_arith)
            requires
                t * e - big == d * kk,
                t * e > big,
                d > 0,
        ;
        assert(kk * d == pow2(63) * (e - c)) by (nonlinear_arith)
            requires
                t * e - big == d * kk,
                big == t * c,
                t == pow2(63),
        ;
        let a = lemma_pow2_divides_odd_product(kk, d, 63, e - c);
        assert(kk >= t) by (nonlinear_arith)
            requires
                kk == pow2(63) * a,
                kk > 0,
                t == pow2(63),
                t > 0,
        ;
        assert(false);
    }
}

/// The dividend `2^63` itself, for `d > 0`: its rounding error reaches at
/// most the next multiple of `d`.
proof fn lemma_signed_magic_error_top(d: int, p: nat)
    requires
        2 <= d < pow2(63),
        p >= 64,
        signed_magic_stops(d, p),
    ensures
        pow2(63) * (d - pow2(p) % (d as nat)) <= (d - (pow2(63) as int) % d) * pow2(p),
{
    let t = pow2(63) as int;
    let big = pow2(p) as int;
    let e = d - big % d;
    let anc = signed_magic_anc(d);
    let r = t % d;
    lemma_pow2_pos(p);
    lemma_fundamental_div_mod(t, d);
    lemma_fundamental_div_mod(big, d);
    assert(abs_nat(d) == d);
    assert(signed_magic_t(d) == t);
    assert(anc == t - 1 - r);
    if r == d - 1 {
        lemma_signed_magic_edge(d, p);
        assert(pow2(p) % (d as nat) == big % d);
        assert(pow2(63) * (d - pow2(p) % (d as nat)) == t * e);
        assert((d - r) * big == big) by (nonlinear_arith)
            requires
                d - r == 1,
        ;
        assert(t * e <= (d - r) * big);
    } else {
        let tq = t / d;
        assert(anc + 1 == d * tq);
        assert(tq >= 1) by (nonlinear_arith)
            requires
                t == d * tq + r,
                0 <= r < d,
                d <= t,
                d > 0,
        ;
        assert(anc >= d - 1) by (nonlinear_arith)
            requires
                anc + 1 == d * tq,
                tq >= 1,
                d > 0,
        ;
        assert(t * e == anc * e + (1 + r) * e) by (nonlinear_arith)
            requires
                t == anc + 1 + r,
        ;
        assert((1 + r) * e <= anc * e) by (nonlinear_arith)
            requires
                1 + r <= anc,
                e >= 0,
        ;
        assert(big > anc * e);
        assert(2 * big <= (d - r) * big) by (nonlinear_arith)
            requires
                r <= d - 2,
                big > 0,
        ;
        assert(t * e <= (d - r) * big);
    }
    assert(pow2(p) % (d as nat) == big % d);
    assert(pow2(63) * (d - pow2(p) % (d as nat)) == t * e);
    assert((d - (pow2(63) as int) % d) * pow2(p) == (d - r) * big);
}

/// Signed division by `d` is multiplication by `m = 2^p / |d| + 1` and
/// keeping the bits above `p`, for an exponent `p >= 64` where the search for
/// the multiplier stops: for `n >= 0`, `n * m / 2^p` (rounded down) is
/// `n / |d|`; for `n < 0`, adding one to it gives the quotient of `n` by
/// `|d|` rounded toward zero.
pub proof fn lemma_signed_magic_divides(d: int, p: nat, n: int)
    requires
        i64::MIN <= d <= i64::MAX,
        2 <= abs_nat(d) <= pow2(63),
        p >= 64,
        signed_magic_stops(d, p),
        -pow2(63) <= n < pow2(63),
    ensures
        n >= 0 ==> (n * (pow2(p) / abs_nat(d) + 1)) / (pow2(p) as int) == n / (abs_nat(d) as int),
        n < 0 ==> (n * (pow2(p) / abs_nat(d) + 1)) / (pow2(p) as int) + 1 == -((-n) / (abs_nat(d) as int)),
{
    let ad = abs_nat(d) as int;
    let big = pow2(p) as int;
    let mm = big / ad + 1;
    let e = ad - big % ad;
    lemma_pow2_pos(p);
    lemma_fundamental_div_mod(big, ad);
    assert(mm * ad == big + e) by (nonlinear_arith)
        requires
            big == ad * (big / ad) + big % ad,
            mm == big / ad + 1,
            e == ad - big % ad,
    ;
    assert(e >= 1);
    let x: int = if n >= 0 { n } else { -n };
    lemma_fundamental_div_mod(x, ad);
    let q = x / ad;
    let r = x % ad;
    if x < signed_magic_t(d) {
        lemma_signed_magic_error(d, p, x);
    } else {
        assert(d > 0 && x == pow2(63));
        assert(d < pow2(63)) by {
            lemma2_to64_rest();
        }
        lemma_signed_magic_error_top(d, p);
    }
    assert(x * e <= (ad - r) * big);
    assert(x * mm * ad == x * big + x * e) by (nonlinear_arith)
        requires
            mm * ad == big + e,
    ;
    assert(x * mm <= (q + 1) * big) by (nonlinear_arith)
        requires
            x * mm * ad == x * big + x * e,
            x * e <= (ad - r) * big,
            x == ad * q + r,
            ad > 0,
    ;
    if n >= 0 {
        assert(x < signed_magic_t(d));
        assert(x * e < (ad - r) * big);
        assert(x * mm < (q + 1) * big) by (nonlinear_arith)
            requires
                x * mm * ad == x * big + x * e,
                x * e < (ad - r) * big,
                x == ad * q + r,
                ad > 0,
        ;
        assert(q * big <= x * mm) by (nonlinear_arith)
            requires
                x * mm * ad == x * big + x * e,
                x == ad * q + r,
                0 <= r,
                x >= 0,
                e >= 0,
                ad > 0,
                big > 0,
        ;
        assert((q + 1) * big == q * big + big) by (nonlinear_arith);
        lemma_fundamental_div_mod_converse(n * mm, big, q, n * mm - q * big);
    } else {
        assert(q * big < x * mm) by (nonlinear_arith)
            requires
                x * mm * ad == x * big + x * e,
                x == ad * q + r,
                0 <= r,
                x >= 1,
                e >= 1,
                ad > 0,
                big > 0,
        ;
        assert(n * mm == -(x * mm)) by (nonlinear_arith)
            requires
                n == -x,
        ;
        assert((q + 1) * big == q * big + big) by (nonlinear_arith);
        assert(-(q + 1) * big == -((q + 1) * big)) by (nonlinear_arith);
        lemma_fundamental_div_mod_converse(n * mm, big, -(q + 1), n * mm + (q + 1) * big);
    }
}

/// The multiplier, shift and add indicator that turn a signed division by
/// `d` into a multiplication, as the search over exponents from 64 upward
/// finds them: `p` is the first exponent at which `signed_magic_stops`, the
/// shift is `p - 64`, the multiplier is `2^p / |d| + 1` taken to 64 bits,
/// and the indicator tells whether that multiplier reaches `2^63`.
pub fn compute_magic_s64(d: i64) -> (r: (i64, u8, bool))
    requires
        d != 0,
    ensures
        r.1 <= 63,
        signed_magic_stops(d as int, (64 + r.1) as nat),
        forall|q: nat| 64 <= q < 64 + r.1 ==> !signed_magic_stops(d as int, q),
        r.2 == (pow2((64 + r.1) as nat) / abs_nat(d as int) + 1 >= pow2(63)),
        r.0 == (pow2((64 + r.1) as nat) / abs_nat(d as int) + 1) as i64,
{
    proof {
        lemma2_to64();
        lemma2_to64_rest();
        lemma_pow2_adds(63, 63);
    }
    let ad: u128 = if d < 0 {
        (0i128 - (d as i128)) as u128
    } else {
        d as u128
    };
    let t: u128 = 0x8000_0000_0000_0000 + if d < 0 {
        1
    } else {
        0
    };
    let anc = t - 1 - (t % ad);
    let ghost sd: int = d as int;
    proof {
        assert(ad == abs_nat(sd));
        assert(t == signed_magic_t(sd));
        assert(anc == signed_magic_anc(sd));
        lemma_signed_magic_stops_by_127(sd);
    }
    let mut p: u32 = 63;
    let mut q1 = 0x8000_0000_0000_0000u128 / anc;
    let mut r1 = 0x8000_0000_0000_0000u128 % anc;
    let mut q2 = 0x8000_0000_0000_0000u128 / ad;
    let mut r2 = 0x8000_0000_0000_0000u128 % ad;
    loop
        invariant_except_break
            63 <= p <= 126,
            forall|q: nat| 64 <= q <= p ==> !signed_magic_stops(sd, q),
        invariant
            sd == d,
            ad == abs_nat(sd),
            anc == signed_magic_anc(sd),
            1 <= anc <= 0x8000_0000_0000_0000,
            1 <= ad <= 0x8000_0000_0000_0000,
            signed_magic_stops(sd, 127),
            pow2(63) == 0x8000_0000_0000_0000,
            pow2(126) == 0x4000_0000_0000_0000_0000_0000_0000_0000,
            q1 == pow2(p as nat) as int / (anc as int),
            r1 == pow2(p as nat) as int % (anc as int),
            q2 == pow2(p as nat) as int / (ad as int),
            r2 == pow2(p as nat) as int % (ad as int),
            q2 <= 0x8000_0000_0000_0000_0000_0000_0000_0000,
        ensures
            64 <= p <= 127,
            signed_magic_stops(sd, p as nat),
            forall|q: nat| 64 <= q < p ==> !signed_magic_stops(sd, q),
            q2 == pow2(p as nat) as int / (ad as int),
            q2 <= 0x8000_0000_0000_0000_0000_0000_0000_0000,
        decreases 127 - p,
    {
        proof {
            let tp = pow2(p as nat) as int;
            if p < 126 {
                vstd::arithmetic::power2::lemma_pow2_strictly_increases(p as nat, 126);
            }
            assert(tp <= 0x4000_0000_0000_0000_0000_0000_0000_0000);
            lemma_fundamental_div_mod(tp, anc as int);
            lemma_fundamental_div_mod(tp, ad as int);
            assert(q1 <= tp) by (nonlinear_arith)
                requires
                    tp == anc * q1 + r1,
                    anc >= 1,
                    r1 >= 0,
                    q1 >= 0,
            ;
            assert(q2 <= tp) by (nonlinear_arith)
                requires
                    tp == ad * q2 + r2,
                    ad >= 1,
                    r2 >= 0,
                    q2 >= 0,
            ;
            lemma_double_divmod(tp, anc as int);
            lemma_double_divmod(tp, ad as int);
            lemma_pow2_unfold((p + 1) as nat);
        }
        p = p + 1;
        q1 = q1 * 2;
        r1 = r1 * 2;
        if r1 >= anc {
            q1 = q1 + 1;
            r1 = r1 - anc;
        }
        q2 = q2 * 2;
        r2 = r2 * 2;
        if r2 >= ad {
            q2 = q2 + 1;
            r2 = r2 - ad;
        }
        let delta = ad - r2;
        proof {
            let tp = pow2(p as nat) as int;
            lemma_fundamental_div_mod(tp, anc as int);
            lemma_fundamental_div_mod(tp, ad as int);
            assert(q2 <= tp) by (nonlinear_arith)
                requires
                    tp == ad * q2 + r2,
                    ad >= 1,
                    r2 >= 0,
                    q2 >= 0,
            ;
            assert((!(q1 < delta || (q1 == delta && r1 == 0))) == (tp > anc * delta)) by (nonlinear_arith)
                requires
                    tp == anc * q1 + r1,
                    0 <= r1 < anc,
                    q1 >= 0,
                    delta >= 0,
            ;
        }
        if !(q1 < delta || (q1 == delta && r1 == 0)) {
            break;
        }
    }
    let m = q2 + 1;
    let shift = (p - 64) as u8;
    let add_indicator = m >= 0x8000_0000_0000_0000;
    let m_signed = m as i64;
    (m_signed, shift, add_indicator)
}

} // verus!
