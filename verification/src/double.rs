//! The double nearest to a positive fraction, as Rust's `str::parse::<f64>`
//! picks it: 53 significant bits (fewer below the smallest normal value),
//! rounded to the nearest, a tie to the even significand.

use vstd::prelude::*;
use crate::memory::{lemma_pow10_add, pow10};
use crate::humanize::{bit_length, lemma_bit_length_bounds, lemma_two_to_add, lemma_two_to_grows, round_even, two_to};

verus! {

pub open spec fn pos_part(a: int) -> nat {
    if a >= 0 {
        a as nat
    } else {
        0
    }
}

pub open spec fn neg_part(a: int) -> nat {
    if a < 0 {
        (-a) as nat
    } else {
        0
    }
}

/// `num / den >= 2^a`.
pub open spec fn at_least_pow2(num: nat, den: nat, a: int) -> bool {
    num * two_to(neg_part(a)) >= den * two_to(pos_part(a))
}

/// `floor(log2(num / den))` for a positive fraction.
pub open spec fn binade(num: nat, den: nat) -> int {
    if num >= den {
        bit_length(num / den) - 1
    } else {
        -(bit_length(((den - 1) as nat) / num) as int)
    }
}

/// The exponent of the last significand bit of a double in binade `e`: 52
/// below the leading bit, but not below the smallest step, `2^-1074`.
pub open spec fn ulp_exponent(e: int) -> int {
    if e - 52 < -1074 {
        -1074
    } else {
        e - 52
    }
}

/// `num / den / 2^exp` as a fraction.
pub open spec fn scaled_fraction(num: nat, den: nat, exp: int) -> (nat, nat) {
    if exp <= 0 {
        (num * two_to((-exp) as nat), den)
    } else {
        (num, den * two_to(exp as nat))
    }
}

/// The double nearest to `num / den`, as significand and exponent: the
/// value is `significand * 2^exponent`.
pub open spec fn nearest_double(num: nat, den: nat) -> (nat, int) {
    let exp = ulp_exponent(binade(num, den));
    let ab = scaled_fraction(num, den, exp);
    (round_even(ab.0, ab.1), exp)
}

/// `m * 2^exp` is at least `2^1024`, beyond the largest double: Rust reads
/// such a number as infinity.
pub open spec fn beyond_doubles(m: nat, exp: int) -> bool {
    if exp >= 0 {
        m * two_to(exp as nat) >= two_to(1024)
    } else {
        m >= two_to((1024 - exp) as nat)
    }
}

/// `x * 2^exp` rounded to the nearest integer, halves up.
pub open spec fn round_pow2(x: nat, exp: int) -> nat {
    if exp >= 0 {
        x * two_to(exp as nat)
    } else {
        (2 * x + two_to((-exp) as nat)) / (2 * two_to((-exp) as nat))
    }
}

// ---- lemmas ----

pub proof fn lemma_two_to_pos(a: nat)
    ensures
        two_to(a) >= 1,
{
    lemma_two_to_grows(0, a);
}

/// `at_least_pow2` with any common shift.
proof fn lemma_at_least_shift(num: nat, den: nat, a: int, t: nat)
    requires
        t >= neg_part(a),
    ensures
        at_least_pow2(num, den, a) == (num * two_to(t) >= den * two_to((t + a) as nat)),
{
    let s = (t - neg_part(a)) as nat;
    lemma_two_to_add(neg_part(a), s);
    lemma_two_to_add(pos_part(a), s);
    assert(neg_part(a) + s == t);
    assert(pos_part(a) + s == t + a);
    let x = num * two_to(neg_part(a));
    let y = den * two_to(pos_part(a));
    let c = two_to(s);
    lemma_two_to_pos(s);
    assert(num * two_to(t) == x * c) by (nonlinear_arith)
        requires
            two_to(t) == two_to(neg_part(a)) * c,
            x == num * two_to(neg_part(a)),
    ;
    assert(den * two_to((t + a) as nat) == y * c) by (nonlinear_arith)
        requires
            two_to((t + a) as nat) == two_to(pos_part(a)) * c,
            y == den * two_to(pos_part(a)),
    ;
    assert((x >= y) == (x * c >= y * c)) by (nonlinear_arith)
        requires
            c >= 1,
    ;
}

/// A fraction at least `2^a` is at least every smaller power of two.
pub proof fn lemma_at_least_mono(num: nat, den: nat, a: int, c: int)
    requires
        c <= a,
        at_least_pow2(num, den, a),
    ensures
        at_least_pow2(num, den, c),
{
    let t = neg_part(c);
    lemma_at_least_shift(num, den, a, t);
    lemma_at_least_shift(num, den, c, t);
    lemma_two_to_grows((t + c) as nat, (t + a) as nat);
    assert(den * two_to((t + a) as nat) >= den * two_to((t + c) as nat)) by (nonlinear_arith)
        requires
            two_to((t + a) as nat) >= two_to((t + c) as nat),
    ;
}

/// `binade` is the one `e` with `2^e <= num / den < 2^(e + 1)`.
pub proof fn lemma_binade(num: nat, den: nat)
    requires
        num > 0,
        den > 0,
    ensures
        at_least_pow2(num, den, binade(num, den)),
        !at_least_pow2(num, den, binade(num, den) + 1),
{
    if num >= den {
        let n = num / den;
        lemma_bit_length_bounds(n);
        let b = bit_length(n);
        assert(n >= 1) by (nonlinear_arith)
            requires
                num >= den,
                den > 0,
                n == num / den,
        ;
        let e = b - 1;
        assert(neg_part(e) == 0 && pos_part(e) == (b - 1) as nat);
        assert(neg_part(e + 1) == 0 && pos_part(e + 1) == b);
        assert(two_to(0) == 1);
        assert(num * 1 >= den * two_to((b - 1) as nat)) by (nonlinear_arith)
            requires
                two_to((b - 1) as nat) <= n,
                n == num / den,
                den > 0,
        ;
        assert(num * 1 < den * two_to(b)) by (nonlinear_arith)
            requires
                n < two_to(b),
                n == num / den,
                den > 0,
        ;
    } else {
        let t = ((den - 1) as nat) / num;
        lemma_bit_length_bounds(t);
        let b = bit_length(t);
        assert(t >= 1) by (nonlinear_arith)
            requires
                num < den,
                num > 0,
                t == ((den - 1) as nat) / num,
        ;
        assert(neg_part(-b) == b && pos_part(-b) == 0);
        assert(neg_part(-b + 1) == (b - 1) as nat && pos_part(-b + 1) == 0);
        assert(two_to(0) == 1);
        assert(num * two_to(b) >= den * 1) by (nonlinear_arith)
            requires
                t < two_to(b),
                t == ((den - 1) as nat) / num,
                num > 0,
                den > 0,
        ;
        assert(num * two_to((b - 1) as nat) < den * 1) by (nonlinear_arith)
            requires
                two_to((b - 1) as nat) <= t,
                t == ((den - 1) as nat) / num,
                num > 0,
                den > 0,
        ;
    }
}

/// Only `binade` lies between the powers of two around a fraction.
pub proof fn lemma_binade_is(num: nat, den: nat, a: int)
    requires
        num > 0,
        den > 0,
        at_least_pow2(num, den, a),
        !at_least_pow2(num, den, a + 1),
    ensures
        binade(num, den) == a,
{
    let e = binade(num, den);
    lemma_binade(num, den);
    if a < e {
        lemma_at_least_mono(num, den, e, a + 1);
    } else if e < a {
        lemma_at_least_mono(num, den, a, e + 1);
    }
}

/// Multiplying by `2^s` moves the binade up by `s`.
pub proof fn lemma_binade_scale(num: nat, den: nat, s: nat)
    requires
        num > 0,
        den > 0,
    ensures
        binade(num * two_to(s), den) == binade(num, den) + s,
{
    let e = binade(num, den);
    lemma_binade(num, den);
    lemma_two_to_pos(s);
    let big = num * two_to(s);
    assert(big > 0) by (nonlinear_arith)
        requires
            num > 0,
            two_to(s) >= 1,
            big == num * two_to(s),
    ;
    let t = neg_part(e) + neg_part(e + s) + 1;
    lemma_at_least_shift(num, den, e, t);
    lemma_at_least_shift(num, den, e + 1, t);
    lemma_at_least_shift(big, den, e + s, t);
    lemma_at_least_shift(big, den, e + s + 1, t);
    lemma_two_to_add((t + e) as nat, s);
    lemma_two_to_add((t + e + 1) as nat, s);
    let p = two_to(s);
    let u = two_to(t);
    assert(big * u == (num * u) * p) by (nonlinear_arith)
        requires
            big == num * p,
    ;
    assert(den * two_to((t + e + s) as nat) == (den * two_to((t + e) as nat)) * p) by (nonlinear_arith)
        requires
            two_to((t + e + s) as nat) == two_to((t + e) as nat) * p,
    ;
    assert(den * two_to((t + e + 1 + s) as nat) == (den * two_to((t + e + 1) as nat)) * p) by (
    nonlinear_arith)
        requires
            two_to((t + e + 1 + s) as nat) == two_to((t + e + 1) as nat) * p,
    ;
    let x = num * u;
    let y0 = den * two_to((t + e) as nat);
    let y1 = den * two_to((t + e + 1) as nat);
    assert((x >= y0) == (x * p >= y0 * p)) by (nonlinear_arith)
        requires
            p >= 1,
    ;
    assert((x >= y1) == (x * p >= y1 * p)) by (nonlinear_arith)
        requires
            p >= 1,
    ;
    assert((t + e + s) as nat == (t + (e + s)) as nat);
    assert((t + e + 1 + s) as nat == (t + (e + s + 1)) as nat);
    lemma_binade_is(big, den, e + s);
}

/// `round_even` of a fraction lies between its floor and its ceiling.
pub proof fn lemma_round_even_between(a: nat, b: nat)
    requires
        b > 0,
    ensures
        a / b <= round_even(a, b) <= a / b + 1,
        a % b == 0 ==> round_even(a, b) == a / b,
{
    assert(a % b < b) by (nonlinear_arith)
        requires
            b > 0,
    ;
}

/// `round_even` reaches an even integer `t` exactly when the fraction is at
/// least `t - 1/2`.
pub proof fn lemma_round_even_reaches(a: nat, b: nat, t: nat)
    requires
        b > 0,
        t % 2 == 0,
        t >= 1,
    ensures
        (round_even(a, b) >= t) == (2 * a >= (2 * t - 1) * b),
{
    let q = a / b;
    let r = a % b;
    assert(a == q * b + r && 0 <= r < b) by (nonlinear_arith)
        requires
            b > 0,
            q == a / b,
            r == a % b,
    ;
    if q >= t {
        assert(2 * a >= (2 * t - 1) * b) by (nonlinear_arith)
            requires
                a == q * b + r,
                q >= t,
                r >= 0,
                b > 0,
        ;
    } else if q + 1 == t {
        // q is odd: a tie goes up to t
        assert(q % 2 == 1);
        assert((2 * a >= (2 * t - 1) * b) == (2 * r >= b)) by (nonlinear_arith)
            requires
                a == q * b + r,
                q + 1 == t,
        ;
    } else {
        assert(q + 1 < t);
        assert(2 * a < (2 * t - 1) * b) by (nonlinear_arith)
            requires
                a == q * b + r,
                q + 2 <= t,
                r < b,
                b > 0,
        ;
    }
}

/// `round_even` is zero exactly when the fraction is at most one half (a
/// half ties to zero, which is even).
pub proof fn lemma_round_even_zero(a: nat, b: nat)
    requires
        b > 0,
    ensures
        (round_even(a, b) == 0) == (2 * a <= b),
{
    let q = a / b;
    let r = a % b;
    assert(a == q * b + r && 0 <= r < b) by (nonlinear_arith)
        requires
            b > 0,
            q == a / b,
            r == a % b,
    ;
    if q >= 1 {
        assert(2 * a > b) by (nonlinear_arith)
            requires
                a == q * b + r,
                q >= 1,
                r >= 0,
                b > 0,
        ;
    } else {
        assert(q == 0);
        assert(q * b == 0) by (nonlinear_arith)
            requires
                q == 0,
        ;
        assert(a == r);
    }
}

/// How many binary places of `y`'s fraction decide its rounding: 55 below
/// one, else `54 - bit_length(k)` for its integer part `k`.
pub open spec fn deciding_bits(k: nat) -> nat {
    if k == 0 {
        55
    } else {
        (54 - bit_length(k)) as nat
    }
}

/// `(2 * M + S) / (2 * S)`, `M / S` rounded halves up, for `M` within
/// `[k * S, (k + 1) * S]`: `k + 1` from `k * S + S / 2` on, else `k`.
proof fn lemma_half_up_step(m: nat, s: nat, k: nat)
    requires
        s >= 2,
        s % 2 == 0,
        k * s <= m <= (k + 1) * s,
    ensures
        (2 * m + s) / (2 * s) == if m >= k * s + s / 2 {
            k + 1
        } else {
            k
        },
{
    let h = s / 2;
    assert(s == 2 * h);
    let ks = k * s;
    assert((k + 1) * s == ks + s && (k + 1) * (2 * s) == 2 * ks + 2 * s && k * (2 * s) == 2 * ks) by (nonlinear_arith)
        requires
            ks == k * s,
    ;
    if m >= k * s + h {
        let r: int = 2 * m + s - 2 * s * (k + 1);
        assert(2 * s * (k + 1) == 2 * ks + 2 * s) by (nonlinear_arith)
            requires
                ks == k * s,
        ;
        assert(2 * m + s == (k + 1) * (2 * s) + r && 0 <= r < 2 * s);
        vstd::arithmetic::div_mod::lemma_fundamental_div_mod_converse(
            (2 * m + s) as int,
            (2 * s) as int,
            (k + 1) as int,
            r,
        );
    } else {
        let r: int = 2 * m + s - 2 * s * k;
        assert(2 * s * k == 2 * ks) by (nonlinear_arith)
            requires
                ks == k * s,
        ;
        assert(2 * m + s == k * (2 * s) + r && 0 <= r < 2 * s);
        vstd::arithmetic::div_mod::lemma_fundamental_div_mod_converse(
            (2 * m + s) as int,
            (2 * s) as int,
            k as int,
            r,
        );
    }
}

/// For `y = num * 2^lm / den` between `2^-1000` and `2^50`, with integer
/// part `k` and remainder `rem`, the double nearest to `num / den`, times
/// `2^lm` and rounded halves up, is `k + 1` exactly when the first
/// `deciding_bits(k)` binary places of `y`'s fraction reach
/// `2^(b - 1) - 1` (that is, when the fraction is at least
/// `1/2 - 2^-b`), and `k` otherwise. The double is positive and finite.
#[verifier::spinoff_prover]
#[verifier::rlimit(80)]
pub proof fn lemma_rounds_to(num: nat, den: nat, lm: nat)
    requires
        num > 0,
        den > 0,
        lm == 0 || lm == 10,
        num * two_to(lm) * two_to(1000) >= den,
        num * two_to(lm) < two_to(50) * den,
    ensures
        ({
            let y = num * two_to(lm);
            let k = y / den;
            let rem = y % den;
            let b = deciding_bits(k);
            let md = nearest_double(num, den);
            &&& !beyond_doubles(md.0, md.1)
            &&& md.0 > 0
            &&& md.1 < 0
            &&& round_pow2(md.0 * two_to(lm), md.1) == k + if (rem * two_to(b)) / den >= two_to((b - 1) as nat) - 1 {
                1nat
            } else {
                0nat
            }
        }),
{
    let p = two_to(lm);
    let y = num * p;
    let k = y / den;
    let rem = y % den;
    let b = deciding_bits(k);
    lemma_two_to_pos(lm);
    assert(y > 0) by (nonlinear_arith)
        requires
            num > 0,
            p >= 1,
            y == num * p,
    ;
    assert(y == k * den + rem && rem < den) by (nonlinear_arith)
        requires
            den > 0,
            k == y / den,
            rem == y % den,
    ;
    // the binade of y and of num / den
    let j = binade(y, den);
    lemma_binade(y, den);
    lemma_binade_scale(num, den, lm);
    let e = binade(num, den);
    assert(j == e + lm);
    // -1000 <= j <= 49
    assert(two_to(0) == 1);
    if j >= 50 {
        lemma_at_least_mono(y, den, j, 50);
        assert(neg_part(50) == 0 && pos_part(50) == 50);
        assert(y * 1 >= den * two_to(50));
        assert(false) by (nonlinear_arith)
            requires
                y * 1 >= den * two_to(50),
                y < two_to(50) * den,
        ;
    }
    if j < -1000 {
        assert(neg_part(-1000) == 1000 && pos_part(-1000) == 0);
        assert(den * two_to(0) == den);
        assert(y * two_to(1000) >= den);
        assert(at_least_pow2(y, den, -1000));
        lemma_at_least_mono(y, den, -1000, j + 1);
    }
    assert(-1000 <= j <= 49);
    let ex = e - 52;
    assert(ulp_exponent(e) == ex);
    let sh = (52 - j) as nat;
    let s = two_to(sh);
    assert((-ex) as nat == lm + sh);
    lemma_two_to_add(lm, sh);
    let pe = two_to((-ex) as nat);
    assert(pe == p * s);
    let md = nearest_double(num, den);
    assert(scaled_fraction(num, den, ex) == (num * pe, den));
    assert(num * pe == y * s) by (nonlinear_arith)
        requires
            pe == p * s,
            y == num * p,
    ;
    let m = md.0;
    assert(m == round_even(y * s, den));
    assert(md.1 == ex);
    // 2^52 <= y * s / den < 2^53
    lemma_at_least_shift(y, den, j, sh);
    lemma_at_least_shift(y, den, j + 1, sh);
    assert((sh + j) as nat == 52);
    assert((sh + j + 1) as nat == 53);
    let z = y * s;
    assert(z >= den * two_to(52));
    assert(z < den * two_to(53));
    lemma_two_to_add(52, 1);
    assert(two_to(53) == two_to(52) * 2) by {
        assert(two_to(1) == 2 * two_to(0));
    }
    lemma_round_even_between(z, den);
    assert(z / den >= two_to(52)) by {
        vstd::arithmetic::div_mod::lemma_div_is_ordered((den * two_to(52)) as int, z as int, den as int);
        vstd::arithmetic::div_mod::lemma_div_multiples_vanish(two_to(52) as int, den as int);
        assert(den * two_to(52) == two_to(52) * den) by (nonlinear_arith);
    }
    assert(z / den < two_to(53)) by {
        vstd::arithmetic::div_mod::lemma_div_by_multiple_is_strongly_ordered(
            z as int,
            (den * two_to(53)) as int,
            two_to(53) as int,
            den as int,
        );
        assert(den * two_to(53) == two_to(53) * den) by (nonlinear_arith);
        vstd::arithmetic::div_mod::lemma_div_multiples_vanish(two_to(53) as int, den as int);
    }
    assert(m >= two_to(52));
    lemma_two_to_pos(52);
    assert(m > 0);
    assert(m <= two_to(53));
    // finite
    lemma_two_to_grows(54, (1024 - ex) as nat);
    assert(two_to(54) == 2 * two_to(53)) by {
        assert(two_to(54) == 2 * two_to(53));
    }
    assert(!beyond_doubles(md.0, md.1));
    // the rounding
    assert(round_pow2(m * p, ex) == (2 * (m * p) + pe) / (2 * pe));
    assert(2 * (m * p) + pe == p * (2 * m + s) && 2 * pe == p * (2 * s)) by (nonlinear_arith)
        requires
            pe == p * s,
    ;
    lemma_two_to_pos(sh);
    assert(s >= 8) by {
        lemma_two_to_grows(3, sh);
        reveal_with_fuel(two_to, 4);
    }
    assert(s % 2 == 0) by {
        assert(two_to(sh) == 2 * two_to((sh - 1) as nat));
    }
    assert((s / 2) % 2 == 0) by {
        assert(two_to(sh) == 2 * two_to((sh - 1) as nat));
        assert(two_to((sh - 1) as nat) == 2 * two_to((sh - 2) as nat));
    }
    let qq = (2 * m + s) / (2 * s);
    let rr = (2 * m + s) % (2 * s);
    assert(2 * m + s == qq * (2 * s) + rr && rr < 2 * s) by (nonlinear_arith)
        requires
            s > 0,
            qq == (2 * m + s) / (2 * s),
            rr == (2 * m + s) % (2 * s),
    ;
    assert(p * (2 * m + s) == qq * (p * (2 * s)) + p * rr && p * rr < p * (2 * s)) by (nonlinear_arith)
        requires
            2 * m + s == qq * (2 * s) + rr,
            rr < 2 * s,
            p >= 1,
    ;
    vstd::arithmetic::div_mod::lemma_fundamental_div_mod_converse(
        (p * (2 * m + s)) as int,
        (p * (2 * s)) as int,
        qq as int,
        (p * rr) as int,
    );
    assert(round_pow2(m * p, ex) == qq);
    assert(m * p == md.0 * two_to(lm));
    // y * s = k * s * den + rem * s
    assert(z == (k * s) * den + rem * s) by (nonlinear_arith)
        requires
            z == y * s,
            y == k * den + rem,
    ;
    assert(z / den == k * s + (rem * s) / den) by {
        let q2 = (rem * s) / den;
        let r2 = (rem * s) % den;
        assert(rem * s == q2 * den + r2 && r2 < den) by (nonlinear_arith)
            requires
                den > 0,
                q2 == (rem * s) / den,
                r2 == (rem * s) % den,
        ;
        assert(z == (k * s + q2) * den + r2) by (nonlinear_arith)
            requires
                z == (k * s) * den + rem * s,
                rem * s == q2 * den + r2,
        ;
        vstd::arithmetic::div_mod::lemma_fundamental_div_mod_converse(
            z as int,
            den as int,
            (k * s + q2) as int,
            r2 as int,
        );
    }
    assert((rem * s) / den < s) by {
        assert(rem * s < den * s) by (nonlinear_arith)
            requires
                rem < den,
                s > 0,
        ;
        assert(den * s == s * den) by (nonlinear_arith);
        vstd::arithmetic::div_mod::lemma_div_by_multiple_is_strongly_ordered(
            (rem * s) as int,
            (den * s) as int,
            s as int,
            den as int,
        );
        vstd::arithmetic::div_mod::lemma_div_multiples_vanish(s as int, den as int);
    }
    assert((k + 1) * s == k * s + s) by (nonlinear_arith);
    assert(k * s <= m <= (k + 1) * s);
    lemma_half_up_step(m, s, k);
    let t = k * s + s / 2;
    assert(t % 2 == 0) by {
        let g = (s / 2) / 2;
        assert(s / 2 == 2 * g);
        assert(s == 4 * g);
        assert(t == (2 * k * g + g) * 2) by (nonlinear_arith)
            requires
                t == k * s + s / 2,
                s == 4 * g,
                s / 2 == 2 * g,
        ;
        vstd::arithmetic::div_mod::lemma_mod_multiples_basic((2 * k * g + g) as int, 2);
    }
    assert(t >= 1);
    lemma_round_even_reaches(z, den, t);
    // m >= t  <==>  2 * rem * s >= (s - 1) * den
    assert((2 * z >= (2 * t - 1) * den) == (2 * rem * s >= (s - 1) * den)) by (nonlinear_arith)
        requires
            z == (k * s) * den + rem * s,
            t == k * s + s / 2,
            s == 2 * (s / 2),
    ;
    let tb = two_to(b);
    let tb1 = two_to((b - 1) as nat);
    lemma_two_to_pos((b - 1) as nat);
    let rb = (rem * tb) / den;
    assert((rb >= tb1 - 1) == (rem * tb >= (tb1 - 1) * den)) by {
        let rr2 = (rem * tb) % den;
        assert(rem * tb == rb * den + rr2 && rr2 < den) by (nonlinear_arith)
            requires
                den > 0,
                rb == (rem * tb) / den,
                rr2 == (rem * tb) % den,
        ;
        assert((rb >= tb1 - 1) == (rem * tb >= (tb1 - 1) * den)) by (nonlinear_arith)
            requires
                rem * tb == rb * den + rr2,
                0 <= rr2 < den,
                tb1 >= 1,
        ;
    }
    if k >= 1 {
        lemma_bit_length_bounds(k);
        assert(k * den >= den) by (nonlinear_arith)
            requires
                k >= 1,
        ;
        assert(y >= den);
        assert(j == bit_length(y / den) - 1);
        assert(b == sh + 1);
        assert(tb == 2 * s) by {
            assert(two_to(b) == 2 * two_to((b - 1) as nat));
        }
        assert(tb1 == s);
        assert(rem * tb == 2 * rem * s) by (nonlinear_arith)
            requires
                tb == 2 * s,
        ;
    } else {
        assert(rem == y);
        assert(b == 55);
        lemma_two_to_add(54, 1);
        assert(tb == 2 * tb1) by {
            assert(two_to(55) == 2 * two_to(54));
        }
        assert(y < den);
        if j == -1 {
            assert(sh == 53);
            assert(at_least_pow2(y, den, -1));
            assert(neg_part(-1) == 1 && pos_part(-1) == 0);
            assert(two_to(1) == 2) by {
                assert(two_to(1) == 2 * two_to(0));
            }
            assert(y * 2 >= den);
            assert(s == tb1 / 2) by {
                lemma_two_to_add(53, 1);
                assert(two_to(54) == 2 * two_to(53)) by {
                    assert(two_to(1) == 2 * two_to(0));
                }
            }
            assert(2 * rem * s >= (s - 1) * den) by (nonlinear_arith)
                requires
                    y * 2 >= den,
                    rem == y,
                    s >= 1,
            ;
            assert(rem * tb >= (tb1 - 1) * den) by (nonlinear_arith)
                requires
                    y * 2 >= den,
                    rem == y,
                    tb == 2 * tb1,
                    tb1 >= 1,
            ;
        } else if j == -2 {
            assert(sh == 54);
            assert(s == tb1);
            assert(rem * tb == 2 * rem * s) by (nonlinear_arith)
                requires
                    tb == 2 * tb1,
                    s == tb1,
            ;
        } else {
            assert(j <= -3);
            assert(!at_least_pow2(y, den, -2)) by {
                if at_least_pow2(y, den, -2) {
                    lemma_at_least_mono(y, den, -2, j + 1);
                }
            }
            assert(neg_part(-2) == 2 && pos_part(-2) == 0);
            assert(two_to(2) == 4) by {
                reveal_with_fuel(two_to, 3);
            }
            assert(y * 4 < den);
            assert(tb1 >= 4) by {
                lemma_two_to_grows(2, 54);
            }
            assert(s >= tb1) by {
                lemma_two_to_grows(54, sh);
            }
            assert(!(2 * rem * s >= (s - 1) * den)) by (nonlinear_arith)
                requires
                    y * 4 < den,
                    rem == y,
                    s >= 8,
            ;
            assert(!(rem * tb >= (tb1 - 1) * den)) by (nonlinear_arith)
                requires
                    y * 4 < den,
                    rem == y,
                    tb == 2 * tb1,
                    tb1 >= 4,
            ;
        }
    }
    assert((m >= t) == (rb >= tb1 - 1));
    assert(qq == if m >= t {
        k + 1
    } else {
        k
    });
    assert(round_pow2(md.0 * two_to(lm), md.1) == qq);
}

/// Some powers of two used below.
pub proof fn lemma_two_to_facts()
    ensures
        two_to(0) == 1,
        two_to(1) == 2,
        two_to(2) == 4,
        two_to(10) == 1024,
        two_to(16) == 65536,
        two_to(33) == 8589934592,
        two_to(50) == 1125899906842624,
{
    reveal_with_fuel(two_to, 3);
    assert(two_to(2) == 4);
    lemma_two_to_add(2, 2);
    assert(two_to(4) == 16);
    lemma_two_to_add(4, 4);
    assert(two_to(8) == 256);
    lemma_two_to_add(8, 2);
    assert(two_to(10) == 1024);
    lemma_two_to_add(8, 8);
    assert(two_to(16) == 65536);
    lemma_two_to_add(16, 16);
    lemma_two_to_add(32, 1);
    lemma_two_to_add(32, 16);
    lemma_two_to_add(48, 2);
}

/// A fraction below `10^-5`: the double nearest to it is finite, zero
/// exactly when the fraction is at most `2^-1075`, and even times `2^10`
/// rounds to zero.
pub proof fn lemma_tiny(num: nat, den: nat, lm: nat)
    requires
        num > 0,
        den > 0,
        lm <= 10,
        num * 100000 < den,
    ensures
        ({
            let md = nearest_double(num, den);
            &&& !beyond_doubles(md.0, md.1)
            &&& (md.0 == 0) == (num * two_to(1075) <= den)
            &&& round_pow2(md.0 * two_to(lm), md.1) == 0
        }),
{
    lemma_two_to_facts();
    let e = binade(num, den);
    lemma_binade(num, den);
    if e >= -16 {
        lemma_at_least_mono(num, den, e, -16);
        assert(neg_part(-16) == 16 && pos_part(-16) == 0);
        assert(num * 65536 >= den * 1);
        assert(false) by (nonlinear_arith)
            requires
                num * 65536 >= den * 1,
                num * 100000 < den,
        ;
    }
    let ex = ulp_exponent(e);
    assert(ex <= -69);
    let t = (-ex) as nat;
    let pe = two_to(t);
    let md = nearest_double(num, den);
    assert(scaled_fraction(num, den, ex) == (num * pe, den));
    let z = num * pe;
    let m = md.0;
    assert(m == round_even(z, den));
    // z < 2^53 * den
    lemma_two_to_add(1021, 53);
    assert(!at_least_pow2(num, den, -1021) || e + 1 > -1021) by {
        if at_least_pow2(num, den, -1021) && e + 1 <= -1021 {
            lemma_at_least_mono(num, den, -1021, e + 1);
        }
    }
    if ex == e - 52 {
        lemma_at_least_shift(num, den, e + 1, t);
        lemma_at_least_shift(num, den, e, t);
        assert((t + e + 1) as nat == 53);
        assert((t + e) as nat == 52);
        assert(z < den * two_to(53));
        assert(z >= den * two_to(52));
    } else {
        assert(ex == -1074);
        assert(e < -1022);
        assert(neg_part(-1021) == 1021 && pos_part(-1021) == 0);
        assert(num * two_to(1021) < den * 1);
        lemma_two_to_add(1021, 53);
        lemma_two_to_pos(53);
        assert(t == 1074);
        assert(z < den * two_to(53)) by (nonlinear_arith)
            requires
                num * two_to(1021) < den * 1,
                z == num * pe,
                pe == two_to(1021) * two_to(53),
                two_to(53) >= 1,
        ;
    }
    lemma_two_to_pos(53);
    lemma_round_even_between(z, den);
    assert(z / den < two_to(53)) by {
        assert(den * two_to(53) == two_to(53) * den) by (nonlinear_arith);
        vstd::arithmetic::div_mod::lemma_div_by_multiple_is_strongly_ordered(
            z as int,
            (den * two_to(53)) as int,
            two_to(53) as int,
            den as int,
        );
        vstd::arithmetic::div_mod::lemma_div_multiples_vanish(two_to(53) as int, den as int);
    }
    assert(m <= two_to(53));
    // finite
    lemma_two_to_grows(54, (1024 - ex) as nat);
    lemma_two_to_add(53, 1);
    assert(!beyond_doubles(md.0, md.1));
    // rounds to zero
    lemma_two_to_add(53, 1);
    lemma_two_to_add(54, 10);
    lemma_two_to_grows(lm, 10);
    lemma_two_to_grows(69, t);
    lemma_two_to_add(64, 5);
    lemma_two_to_pos(64);
    let p = two_to(lm);
    assert(2 * (m * p) < pe) by (nonlinear_arith)
        requires
            m <= two_to(53),
            p <= two_to(10),
            two_to(54) == two_to(53) * two_to(1),
            two_to(64) == two_to(54) * two_to(10),
            two_to(69) == two_to(64) * two_to(5),
            two_to(5) >= 2,
            two_to(1) == 2,
            two_to(69) <= pe,
            two_to(64) >= 1,
    ;
    assert(two_to(5) >= 2) by {
        lemma_two_to_grows(1, 5);
    }
    vstd::arithmetic::div_mod::lemma_basic_div((2 * (m * p) + pe) as int, (2 * pe) as int);
    assert(round_pow2(m * p, ex) == 0);
    // zero exactly at or below 2^-1075
    lemma_round_even_zero(z, den);
    lemma_two_to_add(1074, 1);
    if ex == e - 52 {
        assert(e >= -1022);
        assert(2 * z > den) by (nonlinear_arith)
            requires
                z >= den * two_to(52),
                two_to(52) >= 1,
                den > 0,
        ;
        lemma_two_to_pos(52);
        lemma_at_least_mono(num, den, e, -1074);
        assert(neg_part(-1074) == 1074 && pos_part(-1074) == 0);
        assert(num * two_to(1074) >= den * 1);
        assert(num * two_to(1075) > den) by (nonlinear_arith)
            requires
                num * two_to(1074) >= den * 1,
                two_to(1075) == two_to(1074) * two_to(1),
                two_to(1) == 2,
                den > 0,
        ;
    } else {
        assert(2 * z == num * two_to(1075)) by (nonlinear_arith)
            requires
                z == num * pe,
                pe == two_to(1074),
                two_to(1075) == two_to(1074) * two_to(1),
                two_to(1) == 2,
        ;
    }
}

/// A fraction of at least `10^10`: the double nearest to it is infinite,
/// or at least `2^33`, even rounded.
pub proof fn lemma_huge(num: nat, den: nat, lm: nat)
    requires
        num > 0,
        den > 0,
        lm <= 10,
        num >= den * 10000000000,
    ensures
        ({
            let md = nearest_double(num, den);
            md.0 > 0 && (beyond_doubles(md.0, md.1) || round_pow2(md.0 * two_to(lm), md.1) > u32::MAX)
        }),
{
    lemma_two_to_facts();
    let e = binade(num, den);
    lemma_binade(num, den);
    if e <= 32 {
        if at_least_pow2(num, den, 33) {
            lemma_at_least_mono(num, den, 33, e + 1);
        }
        assert(neg_part(33) == 0 && pos_part(33) == 33);
        assert(num * 1 < den * 8589934592);
        assert(false) by (nonlinear_arith)
            requires
                num * 1 < den * 8589934592,
                num >= den * 10000000000,
        ;
    }
    let ex = e - 52;
    assert(ulp_exponent(e) == ex);
    let md = nearest_double(num, den);
    let m = md.0;
    let p = two_to(lm);
    lemma_two_to_pos(lm);
    lemma_two_to_pos(52);
    if ex > 0 {
        let pe = two_to(ex as nat);
        lemma_two_to_pos(ex as nat);
        assert(scaled_fraction(num, den, ex) == (num, den * pe));
        assert(den * pe > 0) by (nonlinear_arith)
            requires
                den > 0,
                pe >= 1,
        ;
        lemma_two_to_add(ex as nat, 52);
        assert(neg_part(e) == 0 && pos_part(e) == e);
        assert(num * 1 >= den * two_to(e as nat));
        assert(num >= (den * pe) * two_to(52)) by (nonlinear_arith)
            requires
                num * 1 >= den * two_to(e as nat),
                two_to(e as nat) == pe * two_to(52),
        ;
        lemma_round_even_between(num, den * pe);
        assert(num / (den * pe) >= two_to(52)) by {
            vstd::arithmetic::div_mod::lemma_div_is_ordered(((den * pe) * two_to(52)) as int, num as int, (den * pe) as int);
            assert((den * pe) * two_to(52) == two_to(52) * (den * pe)) by (nonlinear_arith);
            vstd::arithmetic::div_mod::lemma_div_multiples_vanish(two_to(52) as int, (den * pe) as int);
        }
        lemma_two_to_grows(33, e as nat);
        assert(round_pow2(m * p, ex) == (m * p) * pe);
        assert((m * p) * pe >= two_to(e as nat)) by (nonlinear_arith)
            requires
                m >= two_to(52),
                p >= 1,
                two_to(e as nat) == pe * two_to(52),
                pe >= 1,
        ;
    } else {
        let t = (-ex) as nat;
        let pe = two_to(t);
        assert(scaled_fraction(num, den, ex) == (num * pe, den));
        let z = num * pe;
        lemma_at_least_shift(num, den, e, t);
        assert((t + e) as nat == 52);
        assert(z >= den * two_to(52));
        lemma_round_even_between(z, den);
        assert(z / den >= two_to(52)) by {
            vstd::arithmetic::div_mod::lemma_div_is_ordered((den * two_to(52)) as int, z as int, den as int);
            assert(den * two_to(52) == two_to(52) * den) by (nonlinear_arith);
            vstd::arithmetic::div_mod::lemma_div_multiples_vanish(two_to(52) as int, den as int);
        }
        assert(m >= two_to(52));
        if ex == 0 {
            lemma_two_to_grows(33, 52);
            assert(round_pow2(m * p, ex) == (m * p) * 1);
            assert((m * p) * 1 >= two_to(52)) by (nonlinear_arith)
                requires
                    m >= two_to(52),
                    p >= 1,
            ;
        } else {
            // (2 * m * p + pe) / (2 * pe) >= 2^33
            lemma_two_to_add(t, 33);
            assert(t + 33 <= 52);
            lemma_two_to_grows(t + 33, 52);
            lemma_two_to_pos(t);
            let big = two_to(33);
            assert(2 * (m * p) + pe >= (2 * pe) * big) by (nonlinear_arith)
                requires
                    m >= two_to(52),
                    p >= 1,
                    two_to(t + 33) == pe * big,
                    two_to(t + 33) <= two_to(52),
            ;
            vstd::arithmetic::div_mod::lemma_div_is_ordered(((2 * pe) * big) as int, (2 * (m * p) + pe) as int, (2 * pe) as int);
            assert((2 * pe) * big == big * (2 * pe)) by (nonlinear_arith);
            vstd::arithmetic::div_mod::lemma_div_multiples_vanish(big as int, (2 * pe) as int);
        }
    }
}

/// `2^1075` lies between `10^323` and `10^324`: the fraction `2^-1075`
/// below which a decimal reads as zero has 324 places before its first digit.
pub proof fn lemma_smallest_half()
    ensures
        pow10(323) < two_to(1075),
        two_to(1075) < pow10(324),
{
    lemma_two_to_facts();
    reveal_with_fuel(two_to, 10);
    assert(two_to(9) == 512);
    lemma_two_to_add(50, 50);
    assert(two_to(100) == 1267650600228229401496703205376);
    lemma_two_to_add(100, 100);
    assert(two_to(200) == 1606938044258990275541962092341162602522202993782792835301376);
    lemma_two_to_add(200, 200);
    assert(two_to(400) == 2582249878086908589655919172003011874329705792829223512830659356540647622016841194629645353280137831435903171972747493376);
    lemma_two_to_add(400, 400);
    assert(two_to(800) == 6668014432879854274079851790721257797144758322315908160396257811764037237817632071521432200871554290742929910593433240445888801654119365080363356052330830046095157579514014558463078285911814024728965016135886601981690748037476461291163877376);
    lemma_two_to_add(800, 200);
    assert(two_to(1000) == 10715086071862673209484250490600018105614048117055336074437503883703510511249361224931983788156958581275946729175531468251871452856923140435984577574698574803934567774824230985421074605062371141877954182153046474983581941267398767559165543946077062914571196477686542167660429831652624386837205668069376);
    lemma_two_to_add(1000, 50);
    assert(two_to(1050) == 12064114410120881697684249086315471354100504503497011563593230129923244688987454586741947156276531487416450850028801674329627080999958126358211839195533902044386710183415792069701368078118158360793576698212191168580174892152827542937880954483101341506291035205862448784848059094859987648259778470316291228729945882624);
    lemma_two_to_add(1050, 16);
    assert(two_to(1066) == 790633801981682102939434948120770730662330663141180149831645929794649763937481823796720248833738767559324522907487546528866440380413255769011771093518509804380927438580337349079948858367551626332967842494034160424070341732127705853976966233004529516956289283251401443563802400840744150516352841830648461966045733363646464);
    lemma_two_to_add(1066, 9);
    assert(two_to(1075) == 404804506614621236704990693437834614099113299528284236713802716054860679135990693783920767402874248990374155728633623822779617474771586953734026799881477019843034848553132722728933815484186432682479535356945490137124014966849385397236206711298319112681620113024717539104666829230461005064372655017292012526615415482186989568);
    reveal_with_fuel(pow10, 2);
    assert(pow10(1) == 10);
    lemma_pow10_add(1, 1);
    assert(pow10(2) == 100);
    lemma_pow10_add(2, 2);
    assert(pow10(4) == 10000);
    lemma_pow10_add(4, 4);
    assert(pow10(8) == 100000000);
    lemma_pow10_add(8, 8);
    assert(pow10(16) == 10000000000000000);
    lemma_pow10_add(16, 16);
    assert(pow10(32) == 100000000000000000000000000000000);
    lemma_pow10_add(32, 32);
    assert(pow10(64) == 10000000000000000000000000000000000000000000000000000000000000000);
    lemma_pow10_add(64, 64);
    assert(pow10(128) == 100000000000000000000000000000000000000000000000000000000000000000000000000000000000000000000000000000000000000000000000000000000);
    lemma_pow10_add(128, 128);
    assert(pow10(256) == 10000000000000000000000000000000000000000000000000000000000000000000000000000000000000000000000000000000000000000000000000000000000000000000000000000000000000000000000000000000000000000000000000000000000000000000000000000000000000000000000000000000000000000);
    lemma_pow10_add(256, 64);
    assert(pow10(320) == 100000000000000000000000000000000000000000000000000000000000000000000000000000000000000000000000000000000000000000000000000000000000000000000000000000000000000000000000000000000000000000000000000000000000000000000000000000000000000000000000000000000000000000000000000000000000000000000000000000000000000000000000000000000);
    lemma_pow10_add(320, 2);
    assert(pow10(322) == 10000000000000000000000000000000000000000000000000000000000000000000000000000000000000000000000000000000000000000000000000000000000000000000000000000000000000000000000000000000000000000000000000000000000000000000000000000000000000000000000000000000000000000000000000000000000000000000000000000000000000000000000000000000000);
    lemma_pow10_add(322, 1);
    assert(pow10(323) == 100000000000000000000000000000000000000000000000000000000000000000000000000000000000000000000000000000000000000000000000000000000000000000000000000000000000000000000000000000000000000000000000000000000000000000000000000000000000000000000000000000000000000000000000000000000000000000000000000000000000000000000000000000000000);
    lemma_pow10_add(323, 1);
    assert(pow10(324) == 1000000000000000000000000000000000000000000000000000000000000000000000000000000000000000000000000000000000000000000000000000000000000000000000000000000000000000000000000000000000000000000000000000000000000000000000000000000000000000000000000000000000000000000000000000000000000000000000000000000000000000000000000000000000000);
}

} // verus!
