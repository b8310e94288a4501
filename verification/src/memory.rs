//! Memory sizes as users type them: `4G`, `1.5g`, `4096M`, `6144MB`,
//! `2048` (mebibytes). The number is read in the grammar of Rust's
//! floating-point literals (sign, digits, fraction, exponent, `inf`, `nan`),
//! taken as the double nearest to it as Rust's `f64` parse does, then
//! scaled and rounded.

use vstd::prelude::*;
use crate::text::{
    ascii_lower, ascii_upper, chars_of, decimal, digit_char as decimal_digit, ends_with, ends_with_seq, eq_ignore_ascii_case, eq_ignore_case, slice_chars, to_upper,
    is_white_space, leading_ws, lower_seq, trailing_ws, trim, trimmed, upper_seq,
};
use crate::double::{
    neg_part, pos_part, beyond_doubles, deciding_bits, lemma_huge, lemma_rounds_to, lemma_smallest_half, lemma_tiny,
    lemma_two_to_facts, lemma_two_to_pos, nearest_double, round_pow2,
};
use crate::humanize::{bit_length, bit_length_exec, lemma_bit_length_below, lemma_two_to_add, lemma_two_to_grows, two_to, two_to_exec};
use vstd::arithmetic::div_mod::*;
use vstd::arithmetic::mul::*;

verus! {

/// `10^k`.
pub open spec fn pow10(k: nat) -> nat
    decreases k,
{
    if k == 0 {
        1
    } else {
        10 * pow10((k - 1) as nat)
    }
}

pub open spec fn is_digit(c: char) -> bool {
    '0' <= c && c <= '9'
}

pub open spec fn digit_value(c: char) -> nat {
    ((c as u32) - ('0' as u32)) as nat
}

/// Number of decimal digits at the start of `s`.
pub open spec fn digit_run(s: Seq<char>) -> nat
    decreases s.len(),
{
    if s.len() > 0 && is_digit(s[0]) {
        1 + digit_run(s.drop_first())
    } else {
        0
    }
}

/// The value of a string of decimal digits.
pub open spec fn digits_value(s: Seq<char>) -> nat
    decreases s.len(),
{
    if s.len() == 0 {
        0
    } else {
        digits_value(s.drop_last()) * 10 + digit_value(s.last())
    }
}

pub open spec fn all_digits(s: Seq<char>) -> bool {
    forall|i: int| 0 <= i < s.len() ==> is_digit(#[trigger] s[i])
}

/// A number in the grammar of Rust's `f64` literals.
pub enum Number {
    NotANumber,
    Infinite { negative: bool },
    /// `mantissa * 10^scale`, negated when `negative`.
    Finite { negative: bool, mantissa: nat, scale: int },
}

/// Length of an optional leading `+` or `-`.
pub open spec fn sign_len(s: Seq<char>) -> nat {
    if s.len() > 0 && (s[0] == '+' || s[0] == '-') {
        1
    } else {
        0
    }
}

pub open spec fn signed(negative: bool, v: nat) -> int {
    if negative {
        -v
    } else {
        v as int
    }
}

/// The exponent part after the `e`/`E`: optional sign and at least one digit.
pub open spec fn exponent_of(r: Seq<char>) -> Option<int> {
    let b = r.skip(sign_len(r) as int);
    if b.len() > 0 && all_digits(b) {
        Some(signed(sign_len(r) == 1 && r[0] == '-', digits_value(b)))
    } else {
        None
    }
}

/// Parse `s` in the grammar of Rust's `f64` parse (`str::parse::<f64>`),
/// keeping the decimal value as written (`positive_mib` then takes the
/// double nearest to it):
/// `[+-]? ( inf | infinity | nan | digits [. digits] ([eE] [+-]? digits)? )`,
/// with at least one digit before the exponent, letters in any case.
pub open spec fn parse_number(s: Seq<char>) -> Option<Number> {
    let negative = sign_len(s) == 1 && s[0] == '-';
    let b = s.skip(sign_len(s) as int);
    if eq_ignore_case(b, seq!['i', 'n', 'f']) || eq_ignore_case(
        b,
        seq!['i', 'n', 'f', 'i', 'n', 'i', 't', 'y'],
    ) {
        Some(Number::Infinite { negative })
    } else if eq_ignore_case(b, seq!['n', 'a', 'n']) {
        Some(Number::NotANumber)
    } else {
        let a = digit_run(b);
        let r1 = b.skip(a as int);
        let has_point = r1.len() > 0 && r1[0] == '.';
        let r2 = if has_point {
            r1.skip(1)
        } else {
            r1
        };
        let f = if has_point {
            digit_run(r2)
        } else {
            0
        };
        let r3 = r2.skip(f as int);
        let mantissa = digits_value(b.take(a as int) + r2.take(f as int));
        if a + f == 0 {
            None
        } else if r3.len() == 0 {
            Some(Number::Finite { negative, mantissa, scale: -f })
        } else if r3[0] == 'e' || r3[0] == 'E' {
            match exponent_of(r3.skip(1)) {
                Some(e) => Some(Number::Finite { negative, mantissa, scale: e - f }),
                None => None,
            }
        } else {
            None
        }
    }
}

/// `mantissa * 10^scale` as a fraction.
pub open spec fn decimal_fraction(mantissa: nat, scale: int) -> (nat, nat) {
    if scale >= 0 {
        (mantissa * pow10(scale as nat), 1)
    } else {
        (mantissa, pow10((-scale) as nat))
    }
}

/// Mebibytes for the positive decimal `mantissa * 10^scale` times `mult`:
/// the number is read as the double nearest to it, as Rust's `f64` parse
/// reads it; infinity gives `u32::MAX`, zero (a number too small for any
/// double) gives nothing, and otherwise the double times `mult` is rounded,
/// halves up, and capped at `u32::MAX`.
pub open spec fn positive_mib(mantissa: nat, mult: nat, scale: int) -> Option<u32> {
    let q = decimal_fraction(mantissa, scale);
    let md = nearest_double(q.0, q.1);
    if beyond_doubles(md.0, md.1) {
        Some(u32::MAX)
    } else if md.0 == 0 {
        None
    } else {
        Some(cap_u32(round_pow2(md.0 * mult, md.1)))
    }
}

pub open spec fn cap_u32(v: nat) -> u32 {
    if v > u32::MAX {
        u32::MAX
    } else {
        v as u32
    }
}

/// The number text and the multiplier to mebibytes: a `G` or `GB` suffix
/// means gibibytes, `M` or `MB` (or none) mebibytes. `t` is upper case.
pub open spec fn memory_split(t: Seq<char>) -> (Seq<char>, nat) {
    if ends_with_seq(t, seq!['G']) {
        (t.drop_last(), 1024)
    } else if ends_with_seq(t, seq!['G', 'B']) {
        (t.take(t.len() - 2), 1024)
    } else if ends_with_seq(t, seq!['M']) {
        (t.drop_last(), 1)
    } else if ends_with_seq(t, seq!['M', 'B']) {
        (t.take(t.len() - 2), 1)
    } else {
        (t, 1)
    }
}

/// What `parse_memory` gives for `text`: the size in mebibytes when the
/// number, read as a double, is positive; rounded and capped at `u32::MAX`.
pub open spec fn memory_mib(text: Seq<char>) -> Option<u32> {
    let t = upper_seq(trimmed(text));
    let (num, mult) = memory_split(t);
    match parse_number(trimmed(num)) {
        Some(Number::Finite { negative, mantissa, scale }) => {
            if !negative && mantissa > 0 {
                positive_mib(mantissa, mult, scale)
            } else {
                None
            }
        },
        Some(Number::Infinite { negative }) => {
            if negative {
                None
            } else {
                Some(u32::MAX)
            }
        },
        _ => None,
    }
}

proof fn lemma_pow10_pos(k: nat)
    ensures
        pow10(k) >= 1,
    decreases k,
{
    if k > 0 {
        lemma_pow10_pos((k - 1) as nat);
    }
}

pub(crate) proof fn lemma_pow10_add(a: nat, b: nat)
    ensures
        pow10(a + b) == pow10(a) * pow10(b),
    decreases a,
{
    if a > 0 {
        lemma_pow10_add((a - 1) as nat, b);
        let x = pow10((a - 1) as nat) as int;
        let y = pow10(b) as int;
        assert(pow10(a + b) == 10 * pow10((a - 1 + b) as nat));
        assert(pow10(a) == 10 * x);
        assert(10 * (x * y) == (10 * x) * y) by (nonlinear_arith);
        assert(pow10(a + b) == pow10(a) * pow10(b));
    } else {
        assert(pow10(0) == 1);
        assert(a + b == b);
        assert(pow10(a) * pow10(b) == pow10(b));
    }
}

proof fn lemma_pow10_mono(a: nat, b: nat)
    requires
        a <= b,
    ensures
        pow10(a) <= pow10(b),
{
    lemma_pow10_add(a, (b - a) as nat);
    lemma_pow10_pos((b - a) as nat);
    lemma_pow10_pos(a);
    lemma_mul_inequality(1, pow10((b - a) as nat) as int, pow10(a) as int);
}

proof fn lemma_pow10_ten()
    ensures
        pow10(10) == 10_000_000_000,
        pow10(5) == 100_000,
{
    reveal_with_fuel(pow10, 11);
}

proof fn lemma_digits_unfold(s: Seq<char>)
    requires
        s.len() > 0,
    ensures
        digits_value(s) == digits_value(s.drop_last()) * 10 + digit_value(s.last()),
{
}

proof fn lemma_digits_single(c: char)
    ensures
        digits_value(seq![c]) == digit_value(c),
{
    lemma_digits_unfold(seq![c]);
    assert(seq![c].drop_last() =~= Seq::<char>::empty());
}

proof fn lemma_digits_append(a: Seq<char>, b: Seq<char>)
    ensures
        digits_value(a + b) == digits_value(a) * pow10(b.len()) + digits_value(b),
    decreases b.len(),
{
    if b.len() == 0 {
        assert(a + b =~= a);
        assert(pow10(0) == 1);
        assert(digits_value(b) == 0);
        assert(digits_value(a) * pow10(b.len()) == digits_value(a));
    } else {
        let b0 = b.drop_last();
        lemma_digits_append(a, b0);
        assert((a + b).drop_last() =~= a + b0);
        assert((a + b).last() == b.last());
        lemma_digits_unfold(a + b);
        lemma_digits_unfold(b);
        let x = digits_value(a) as int;
        let pp = pow10(b0.len()) as int;
        let y = digits_value(b0) as int;
        let d = digit_value(b.last()) as int;
        assert(pow10(b.len()) == 10 * pow10(b0.len()));
        assert(digits_value(a + b0) == x * pp + y);
        assert(digits_value(a + b) == (x * pp + y) * 10 + d);
        assert(digits_value(b) == y * 10 + d);
        assert((x * pp + y) * 10 + d == x * (10 * pp) + (y * 10 + d)) by (nonlinear_arith);
        assert(digits_value(a + b) == digits_value(a) * pow10(b.len()) + digits_value(b));
    }
}

proof fn lemma_zeros_value(s: Seq<char>)
    requires
        forall|i: int| 0 <= i < s.len() ==> s[i] == '0',
    ensures
        digits_value(s) == 0,
    decreases s.len(),
{
    if s.len() > 0 {
        lemma_zeros_value(s.drop_last());
    }
}

proof fn lemma_digits_bound(s: Seq<char>)
    requires
        all_digits(s),
    ensures
        digits_value(s) < pow10(s.len()),
    decreases s.len(),
{
    if s.len() > 0 {
        let s0 = s.drop_last();
        assert(is_digit(s[s.len() - 1]));
        lemma_digits_bound(s0);
        let v = digits_value(s0) as int;
        let pp = pow10(s0.len()) as int;
        let d = digit_value(s.last()) as int;
        assert(d <= 9);
        assert(v * 10 + d < 10 * pp) by (nonlinear_arith)
            requires
                v < pp,
                d <= 9,
        ;
    }
}

proof fn lemma_digits_lower(s: Seq<char>)
    requires
        all_digits(s),
        s.len() > 0,
        s[0] != '0',
    ensures
        digits_value(s) >= pow10((s.len() - 1) as nat),
{
    let a = s.take(1);
    let b = s.skip(1);
    assert(a + b =~= s);
    lemma_digits_append(a, b);
    assert(a =~= seq![s[0]]);
    lemma_digits_single(s[0]);
    assert(is_digit(s[0]));
    assert(digit_value(s[0]) >= 1);
    lemma_pow10_pos(b.len());
    lemma_mul_inequality(1, digits_value(a) as int, pow10(b.len()) as int);
}

/// Largest exponent magnitude kept exactly; larger ones only need their sign.
pub const EXP_CAP: i128 = 1_267_650_600_228_229_401_496_703_205_376i128;

fn digit_of(c: char) -> (d: u64)
    requires
        is_digit(c),
    ensures
        d == digit_value(c),
        d <= 9,
{
    ((c as u32) - 48) as u64
}

/// The first `ip` digits of `tail` followed by `extra` zeros, as a number.
fn leading_value(tail: &Vec<char>, ip: usize, extra: usize) -> (x: u64)
    requires
        all_digits(tail@),
        ip <= tail.len(),
        ip + extra <= 10,
    ensures
        x == digits_value(tail@.take(ip as int)) * pow10(extra as nat),
        x < pow10((ip + extra) as nat),
{
    proof {
        lemma_pow10_ten();
    }
    let mut x: u64 = 0;
    let mut i: usize = 0;
    proof {
        assert(tail@.take(0) =~= Seq::<char>::empty());
    }
    while i < ip
        invariant
            0 <= i <= ip,
            ip <= tail@.len(),
            ip + extra <= 10,
            all_digits(tail@),
            x == digits_value(tail@.take(i as int)),
            x < pow10(i as nat),
            pow10(10) == 10_000_000_000,
        decreases ip - i,
    {
        let d = digit_of(tail[i]);
        proof {
            assert(tail@.take(i + 1).drop_last() =~= tail@.take(i as int));
            lemma_digits_unfold(tail@.take(i + 1));
            lemma_pow10_mono((i + 1) as nat, 10);
            assert(pow10((i + 1) as nat) == 10 * pow10(i as nat));
            assert(x * 10 + d < 10 * pow10(i as nat)) by (nonlinear_arith)
                requires
                    x < pow10(i as nat),
                    d <= 9,
            ;
        }
        x = x * 10 + d;
        i += 1;
    }
    let ghost xi = x;
    let mut j: usize = 0;
    while j < extra
        invariant
            0 <= j <= extra,
            ip + extra <= 10,
            x == xi * pow10(j as nat),
            xi < pow10(ip as nat),
            x < pow10((ip + j) as nat),
            pow10(10) == 10_000_000_000,
        decreases extra - j,
    {
        proof {
            lemma_pow10_mono((ip + j + 1) as nat, 10);
            assert(pow10((ip + j + 1) as nat) == 10 * pow10((ip + j) as nat));
            assert(pow10((j + 1) as nat) == 10 * pow10(j as nat));
            assert(xi * (10 * pow10(j as nat)) == (xi * pow10(j as nat)) * 10) by (
            nonlinear_arith);
        }
        x = x * 10;
        j += 1;
    }
    x
}

/// `lead0` zeros followed by the digits of `tail` from position `ip` on.
fn fraction_digits(tail: &Vec<char>, ip: usize, lead0: usize) -> (frac: Vec<char>)
    requires
        ip <= tail.len(),
        all_digits(tail@),
    ensures
        frac@.len() == lead0 + tail@.len() - ip,
        all_digits(frac@),
        digits_value(frac@) == digits_value(tail@.skip(ip as int)),
{
    let mut frac: Vec<char> = Vec::new();
    let mut q: usize = 0;
    while q < lead0
        invariant
            0 <= q <= lead0,
            frac@.len() == q,
            forall|t: int| 0 <= t < q ==> frac@[t] == '0',
        decreases lead0 - q,
    {
        frac.push('0');
        q += 1;
    }
    let ghost zeros = frac@;
    let rest = slice_chars(tail, ip, tail.len());
    let mut q2: usize = 0;
    while q2 < rest.len()
        invariant
            0 <= q2 <= rest.len(),
            frac@ == zeros + rest@.take(q2 as int),
        decreases rest.len() - q2,
    {
        frac.push(rest[q2]);
        q2 += 1;
        assert(frac@ == zeros + rest@.take(q2 as int));
    }
    proof {
        assert(rest@.take(rest@.len() as int) =~= rest@);
        assert(rest@ =~= tail@.skip(ip as int));
        lemma_zeros_value(zeros);
        lemma_digits_append(zeros, rest@);
        assert forall|t: int| 0 <= t < frac@.len() implies is_digit(#[trigger] frac@[t]) by {
            if t >= lead0 {
                assert(frac@[t] == tail@[ip + t - lead0]);
            }
        }
    }
    frac
}

/// `frac * m` for a string of digits `frac`: the carry `c` out of its
/// length, so that `frac * m == c * 10^len + low`.
fn carry_wide(frac: &Vec<char>, m: u128) -> (r: (u128, Ghost<nat>))
    requires
        all_digits(frac@),
        1 <= m <= 0x4_0000_0000_0000_0000_0000,
    ensures
        r.0 < m,
        digits_value(frac@) * m == r.0 * pow10(frac@.len()) + r.1@,
        r.1@ < pow10(frac@.len()),
{
    let k = frac.len();
    let mut c: u128 = 0;
    let mut jj: usize = k;
    let ghost mut low: nat = 0;
    proof {
        assert(frac@.skip(k as int) =~= Seq::<char>::empty());
        assert(pow10(0) == 1);
        assert(digits_value(frac@.skip(k as int)) == 0);
        assert(digits_value(frac@.skip(k as int)) * m == 0);
        assert(c * pow10((k - jj) as nat) + low == 0);
    }
    while jj > 0
        invariant
            0 <= jj <= k,
            k == frac@.len(),
            all_digits(frac@),
            1 <= m <= 0x4_0000_0000_0000_0000_0000,
            c < m,
            digits_value(frac@.skip(jj as int)) * m == c * pow10((k - jj) as nat) + low,
            low < pow10((k - jj) as nat),
        decreases jj,
    {
        jj -= 1;
        let d = digit_of(frac[jj]) as u128;
        assert(d * m + c < 10 * m) by (nonlinear_arith)
            requires
                d <= 9,
                c < m,
        ;
        let t = d * m + c;
        let ghost w = (k - jj - 1) as nat;
        let ghost pw = pow10(w) as int;
        let ghost v2 = digits_value(frac@.skip(jj + 1)) as int;
        proof {
            let s1 = frac@.skip(jj as int);
            let s2 = frac@.skip(jj + 1);
            assert(seq![frac@[jj as int]] + s2 =~= s1);
            lemma_digits_append(seq![frac@[jj as int]], s2);
            lemma_digits_single(frac@[jj as int]);
            assert(pow10((w + 1) as nat) == 10 * pow10(w));
            lemma_pow10_pos(w);
            assert(digits_value(s1) == d * pw + v2);
        }
        let c2 = t / 10;
        let d2 = t % 10;
        proof {
            assert(v2 * m == c * pw + low);
            assert(t == 10 * c2 + d2);
            assert((d * pw + v2) * m == c2 * (10 * pw) + (d2 * pw + low)) by (nonlinear_arith)
                requires
                    v2 * m == c * pw + low,
                    t == d * m + c,
                    t == 10 * c2 + d2,
            ;
            assert(d2 * pw + low < 10 * pw) by (nonlinear_arith)
                requires
                    d2 <= 9,
                    low < pw,
            ;
            low = (d2 * pw + low) as nat;
        }
        c = c2;
    }
    proof {
        assert(frac@.skip(0) =~= frac@);
    }
    (c, Ghost(low))
}

/// Twice a number written in digits, its first digit not zero.
fn times_two(v: &Vec<char>) -> (r: Vec<char>)
    requires
        all_digits(v@),
        v@.len() >= 1,
        v@[0] != '0',
        v@.len() < usize::MAX,
    ensures
        all_digits(r@),
        r@.len() >= 1,
        r@[0] != '0',
        r@.len() <= v@.len() + 1,
        digits_value(r@) == 2 * digits_value(v@),
{
    let n = v.len();
    let mut out = v.clone();
    let mut c: u64 = 0;
    let mut jj: usize = n;
    proof {
        assert(out@ == v@);
        assert(v@.skip(n as int) =~= Seq::<char>::empty());
        assert(out@.skip(n as int) =~= Seq::<char>::empty());
        assert(pow10(0) == 1);
    }
    while jj > 0
        invariant
            0 <= jj <= n,
            n == v@.len(),
            out@.len() == n,
            all_digits(v@),
            all_digits(out@),
            c <= 1,
            out@.take(jj as int) == v@.take(jj as int),
            digits_value(v@.skip(jj as int)) * 2 == c * pow10((n - jj) as nat) + digits_value(out@.skip(jj as int)),
        decreases jj,
    {
        jj -= 1;
        let d = digit_of(v[jj]);
        let t = d * 2 + c;
        let nd = t % 10;
        let nc = t / 10;
        let ch = char_of_digit(nd);
        let ghost before = out@;
        out.set(jj, ch);
        proof {
            let w = (n - jj - 1) as nat;
            let s1 = v@.skip(jj as int);
            let s2 = v@.skip(jj + 1);
            assert(seq![v@[jj as int]] + s2 =~= s1);
            lemma_digits_append(seq![v@[jj as int]], s2);
            lemma_digits_single(v@[jj as int]);
            let o1 = out@.skip(jj as int);
            let o2 = out@.skip(jj + 1);
            assert(o2 =~= before.skip(jj + 1));
            assert(seq![ch] + o2 =~= o1);
            lemma_digits_append(seq![ch], o2);
            lemma_digits_single(ch);
            assert(pow10((w + 1) as nat) == 10 * pow10(w));
            let pw = pow10(w) as int;
            let v2 = digits_value(s2) as int;
            let o2v = digits_value(o2) as int;
            assert(v2 * 2 == c * pw + o2v);
            assert((d * pw + v2) * 2 == nc * (10 * pw) + (nd * pw + o2v)) by (nonlinear_arith)
                requires
                    v2 * 2 == c * pw + o2v,
                    t == d * 2 + c,
                    t == 10 * nc + nd,
            ;
            assert forall|i: int| 0 <= i < out@.len() implies is_digit(#[trigger] out@[i]) by {
                if i != jj {
                    assert(out@[i] == before[i]);
                }
            }
            assert(out@.take(jj as int) =~= before.take(jj as int));
            assert(before.take(jj as int) =~= before.take(jj + 1).take(jj as int));
            assert(v@.take(jj as int) =~= v@.take(jj + 1).take(jj as int));
        }
        c = nc;
    }
    proof {
        assert(v@.skip(0) =~= v@);
        assert(out@.skip(0) =~= out@);
        lemma_digits_lower(v@);
        lemma_digits_bound(out@);
    }
    if c > 0 {
        let mut r: Vec<char> = Vec::new();
        r.push('1');
        let mut i: usize = 0;
        while i < n
            invariant
                0 <= i <= n,
                n == out@.len(),
                r@ == seq!['1'] + out@.take(i as int),
            decreases n - i,
        {
            r.push(out[i]);
            i += 1;
            assert(r@ =~= seq!['1'] + out@.take(i as int));
        }
        proof {
            assert(out@.take(n as int) =~= out@);
            lemma_digits_append(seq!['1'], out@);
            lemma_digits_single('1');
            assert forall|i: int| 0 <= i < r@.len() implies is_digit(#[trigger] r@[i]) by {
                if i > 0 {
                    assert(r@[i] == out@[i - 1]);
                }
            }
        }
        r
    } else {
        proof {
            // 2 * v has as many digits as v: its first digit is not zero
            let o0 = out@.take(1);
            let orest = out@.skip(1);
            assert(o0 + orest =~= out@);
            lemma_digits_append(o0, orest);
            lemma_digits_bound(orest);
            assert(o0 =~= seq![out@[0]]);
            lemma_digits_single(out@[0]);
            lemma_pow10_pos((n - 1) as nat);
            assert(n >= 1);
            assert(orest.len() == n - 1);
            assert(all_digits(orest)) by {
                assert forall|i: int| 0 <= i < orest.len() implies is_digit(#[trigger] orest[i]) by {
                    assert(orest[i] == out@[i + 1]);
                }
            }
            assert(digits_value(out@) == 2 * digits_value(v@));
            assert(digits_value(out@) == digit_value(out@[0]) * pow10((n - 1) as nat) + digits_value(orest));
            assert(pow10(n as nat) == 10 * pow10((n - 1) as nat));
            if out@[0] == '0' {
                assert(digit_value(out@[0]) == 0);
                assert(digit_value(out@[0]) * pow10((n - 1) as nat) == 0) by (nonlinear_arith)
                    requires
                        digit_value(out@[0]) == 0,
                ;
                assert(digits_value(out@) < pow10((n - 1) as nat));
                assert(false) by (nonlinear_arith)
                    requires
                        digits_value(out@) == 2 * digits_value(v@),
                        digits_value(v@) >= pow10((n - 1) as nat),
                        digits_value(out@) < pow10((n - 1) as nat),
                ;
            }
        }
        out
    }
}

fn char_of_digit(d: u64) -> (c: char)
    requires
        d <= 9,
    ensures
        is_digit(c),
        digit_value(c) == d,
{
    let c = if d == 0 {
        '0'
    } else if d == 1 {
        '1'
    } else if d == 2 {
        '2'
    } else if d == 3 {
        '3'
    } else if d == 4 {
        '4'
    } else if d == 5 {
        '5'
    } else if d == 6 {
        '6'
    } else if d == 7 {
        '7'
    } else if d == 8 {
        '8'
    } else {
        '9'
    };
    c
}

/// `5^k`.
pub open spec fn pow5(k: nat) -> nat
    decreases k,
{
    if k == 0 {
        1
    } else {
        5 * pow5((k - 1) as nat)
    }
}

proof fn lemma_pow10_split(k: nat)
    ensures
        pow10(k) == two_to(k) * pow5(k),
    decreases k,
{
    if k > 0 {
        let k1 = (k - 1) as nat;
        lemma_pow10_split(k1);
        let a = two_to(k1);
        let b = pow5(k1);
        assert(two_to(k) == 2 * a);
        assert(pow10(k) == 10 * pow10(k1));
        assert(pow5(k) == 5 * b);
        assert(pow10(k1) == a * b);
        assert(10 * (a * b) == (2 * a) * (5 * b)) by (nonlinear_arith);
    } else {
        assert(pow10(0) == 1 && two_to(0) == 1 && pow5(0) == 1);
    }
}

/// The fraction is at least `10^a`.
pub open spec fn at_least_pow10(num: nat, den: nat, a: int) -> bool {
    num * pow10(neg_part(a)) >= den * pow10(pos_part(a))
}

/// A number of `l` digits times `10^scale` is at least `10^a` exactly when
/// its point lies past `a`, that is, when `l + scale > a`.
proof fn lemma_decimal_vs_pow10(n: nat, l: nat, scale: int, a: int)
    requires
        l >= 1,
        pow10((l - 1) as nat) <= n,
        n < pow10(l),
    ensures
        l + scale >= a + 1 ==> at_least_pow10(decimal_fraction(n, scale).0, decimal_fraction(n, scale).1, a),
        l + scale <= a ==> !at_least_pow10(decimal_fraction(n, scale).0, decimal_fraction(n, scale).1, a),
{
    let q = decimal_fraction(n, scale);
    let ea = pos_part(scale) + neg_part(a);
    let eb = neg_part(scale) + pos_part(a);
    lemma_pow10_add(pos_part(scale), neg_part(a));
    lemma_pow10_add(neg_part(scale), pos_part(a));
    assert(pow10(0) == 1);
    let lhs = q.0 * pow10(neg_part(a));
    let rhs = q.1 * pow10(pos_part(a));
    if scale >= 0 {
        assert(lhs == n * pow10(ea)) by (nonlinear_arith)
            requires
                lhs == (n * pow10(scale as nat)) * pow10(neg_part(a)),
                pow10(ea) == pow10(scale as nat) * pow10(neg_part(a)),
                pos_part(scale) == scale,
        ;
        assert(rhs == pow10(eb));
    } else {
        assert(lhs == n * pow10(ea));
        assert(rhs == pow10(eb));
    }
    lemma_pow10_pos(ea);
    if l + scale >= a + 1 {
        lemma_pow10_add((l - 1) as nat, ea);
        lemma_pow10_mono(eb, (l - 1 + ea) as nat);
        assert(n * pow10(ea) >= pow10((l - 1) as nat) * pow10(ea)) by (nonlinear_arith)
            requires
                n >= pow10((l - 1) as nat),
        ;
    }
    if l + scale <= a {
        lemma_pow10_add(l, ea);
        lemma_pow10_mono((l + ea) as nat, eb);
        assert(n * pow10(ea) < pow10(l) * pow10(ea)) by (nonlinear_arith)
            requires
                n < pow10(l),
                pow10(ea) >= 1,
        ;
    }
}

/// How a number written in digits (first digit not zero) compares with
/// `10^k`: `0` below, `1` equal, `2` above.
fn compare_pow10(x: &Vec<char>, k: usize) -> (r: u8)
    requires
        all_digits(x@),
        x@.len() >= 1,
        x@[0] != '0',
    ensures
        r <= 2,
        (r == 0) == (digits_value(x@) < pow10(k as nat)),
        (r == 1) == (digits_value(x@) == pow10(k as nat)),
{
    let n = x.len();
    proof {
        lemma_digits_lower(x@);
        lemma_digits_bound(x@);
    }
    if n <= k {
        proof {
            lemma_pow10_mono(n as nat, k as nat);
        }
        return 0;
    }
    if n - 1 > k {
        proof {
            lemma_pow10_mono((k + 1) as nat, (n - 1) as nat);
            assert(pow10((k + 1) as nat) == 10 * pow10(k as nat));
            lemma_pow10_pos(k as nat);
        }
        return 2;
    }
    // n == k + 1: x = d * 10^k + rest
    let rest = slice_chars(x, 1, n);
    assert(rest@ =~= x@.skip(1));
    let ghost head = x@.take(1);
    proof {
        assert(head + rest@ =~= x@);
        lemma_digits_append(head, rest@);
        assert(head =~= seq![x@[0]]);
        lemma_digits_single(x@[0]);
        assert(is_digit(x@[0]));
        assert forall|i: int| 0 <= i < rest@.len() implies is_digit(#[trigger] rest@[i]) by {
            assert(rest@[i] == x@[i + 1]);
        }
        lemma_digits_bound(rest@);
        assert(rest@.len() == k);
        lemma_pow10_pos(k as nat);
    }
    let zero_rest = is_zero(&rest);
    if x[0] == '1' && zero_rest {
        proof {
            assert(digit_value(x@[0]) == 1);
            assert(digit_value(x@[0]) * pow10(k as nat) == pow10(k as nat)) by (nonlinear_arith)
                requires
                    digit_value(x@[0]) == 1,
            ;
        }
        1
    } else {
        proof {
            assert(digit_value(x@[0]) >= 1);
            if x@[0] != '1' {
                assert(digit_value(x@[0]) >= 2);
                assert(digits_value(x@) >= 2 * pow10(k as nat)) by (nonlinear_arith)
                    requires
                        digits_value(x@) == digit_value(x@[0]) * pow10(k as nat) + digits_value(rest@),
                        digit_value(x@[0]) >= 2,
                ;
            } else {
                assert(digit_value(x@[0]) == 1);
                assert(digit_value(x@[0]) * pow10(k as nat) == pow10(k as nat)) by (nonlinear_arith)
                    requires
                        digit_value(x@[0]) == 1,
                ;
                assert(!zero_rest);
                assert(digits_value(rest@) > 0);
                assert(digits_value(x@) > pow10(k as nat));
            }
        }
        2
    }
}

/// Whether `n * 2^1075 <= 10^(l + 323)` for the number `n` written by the
/// `l` digits `tail` (first not zero). Only its first 800 digits are
/// doubled: past `10^752` the bound is a multiple of `2^1075`.
fn at_most_smallest_half(tail: &Vec<char>) -> (r: bool)
    requires
        all_digits(tail@),
        tail@.len() >= 1,
        tail@[0] != '0',
    ensures
        r == (digits_value(tail@) * two_to(1075) <= pow10((tail@.len() + 323) as nat)),
{
    let l = tail.len();
    let h: usize = if l < 800 {
        l
    } else {
        800
    };
    let head = slice_chars(tail, 0, h);
    let rest = slice_chars(tail, h, l);
    assert(head@ =~= tail@.take(h as int));
    assert(rest@ =~= tail@.skip(h as int));
    proof {
        assert(head@ + rest@ =~= tail@);
        lemma_digits_append(head@, rest@);
        assert forall|i: int| 0 <= i < head@.len() implies is_digit(#[trigger] head@[i]) by {
            assert(head@[i] == tail@[i]);
        }
        assert forall|i: int| 0 <= i < rest@.len() implies is_digit(#[trigger] rest@[i]) by {
            assert(rest@[i] == tail@[i + h]);
        }
        assert(head@[0] == tail@[0]);
        lemma_digits_bound(rest@);
    }
    let ghost hv = digits_value(head@);
    let mut x = head;
    let mut i: usize = 0;
    proof {
        assert(two_to(0) == 1);
        assert(hv * two_to(0) == hv) by (nonlinear_arith)
            requires
                two_to(0) == 1,
        ;
        assert(digits_value(x@) == hv);
    }
    while i < 1075
        invariant
            0 <= i <= 1075,
            h <= 800,
            all_digits(x@),
            x@.len() >= 1,
            x@[0] != '0',
            x@.len() <= h + i,
            digits_value(x@) == digits_value(head@) * two_to(i as nat),
        decreases 1075 - i,
    {
        let y = times_two(&x);
        proof {
            assert(two_to((i + 1) as nat) == 2 * two_to(i as nat));
            let a = digits_value(head@);
            let t = two_to(i as nat);
            assert(2 * (a * t) == a * (2 * t)) by (nonlinear_arith);
        }
        x = y;
        i += 1;
    }
    let c = compare_pow10(&x, h + 323);
    let rz = is_zero(&rest);
    let r = c == 0 || (c == 1 && rz);
    proof {
        let big_p = digits_value(head@);
        let xr = digits_value(rest@);
        let n = digits_value(tail@);
        let g = (l - h) as nat;
        let kk = (l + 323) as nat;
        let kh = (h + 323) as nat;
        let t = two_to(1075);
        lemma_two_to_pos(1075);
        lemma_pow10_add(kh, g);
        assert(kh + g == kk);
        lemma_pow10_pos(g);
        assert(n == big_p * pow10(g) + xr);
        // n * t vs 10^kk = 10^kh * 10^g
        if c == 2 {
            // P * t > 10^kh: n >= P * 10^g
            assert(n * t > pow10(kk)) by (nonlinear_arith)
                requires
                    n == big_p * pow10(g) + xr,
                    big_p * t > pow10(kh),
                    pow10(kk) == pow10(kh) * pow10(g),
                    pow10(g) >= 1,
            ;
        } else if c == 1 {
            if rz {
                assert(n * t == pow10(kk)) by (nonlinear_arith)
                    requires
                        n == big_p * pow10(g) + xr,
                        xr == 0,
                        big_p * t == pow10(kh),
                        pow10(kk) == pow10(kh) * pow10(g),
                ;
            } else {
                assert(n * t > pow10(kk)) by (nonlinear_arith)
                    requires
                        n == big_p * pow10(g) + xr,
                        xr > 0,
                        t >= 1,
                        big_p * t == pow10(kh),
                        pow10(kk) == pow10(kh) * pow10(g),
                ;
            }
        } else {
            // P * t < 10^kh, so (P + 1) * t <= 10^kh
            if g > 0 {
                assert(h == 800);
                lemma_pow10_split(1075);
                lemma_pow10_add(1075, (kh - 1075) as nat);
                let w = pow5(1075) * pow10((kh - 1075) as nat);
                assert(pow10(kh) == t * w) by (nonlinear_arith)
                    requires
                        pow10(kh) == pow10(1075) * pow10((kh - 1075) as nat),
                        pow10(1075) == t * pow5(1075),
                        w == pow5(1075) * pow10((kh - 1075) as nat),
                ;
                assert(big_p < w) by (nonlinear_arith)
                    requires
                        big_p * t < t * w,
                        t >= 1,
                ;
                assert((big_p + 1) * t <= pow10(kh)) by (nonlinear_arith)
                    requires
                        big_p + 1 <= w,
                        pow10(kh) == t * w,
                        t >= 1,
                ;
                assert(n * t <= pow10(kk)) by (nonlinear_arith)
                    requires
                        n == big_p * pow10(g) + xr,
                        xr < pow10(g),
                        (big_p + 1) * t <= pow10(kh),
                        pow10(kk) == pow10(kh) * pow10(g),
                        t >= 1,
                ;
            } else {
                assert(rest@.len() == 0);
                assert(pow10(0) == 1);
                assert(n * t <= pow10(kk));
            }
        }
    }
    r
}

/// Mebibytes for the positive number `digits * 10^scale` times `mult`, as
/// `positive_mib` says. `exp` is the exponent as read (saturated at
/// `EXP_CAP`); `scale` is its exact value minus `frac_len`.
#[verifier::rlimit(80)]
fn mib_of(digits: &Vec<char>, frac_len: usize, exp: i128, mult: u32, Ghost(scale): Ghost<int>) -> (r:
    Option<u32>)
    requires
        all_digits(digits@),
        digits_value(digits@) > 0,
        mult == 1 || mult == 1024,
        -EXP_CAP <= exp <= EXP_CAP,
        -EXP_CAP < exp < EXP_CAP ==> scale == exp - frac_len,
        exp == EXP_CAP ==> scale + frac_len >= EXP_CAP,
        exp == -EXP_CAP ==> scale + frac_len <= -EXP_CAP,
    ensures
        r == positive_mib(digits_value(digits@), mult as nat, scale),
{
    let n = digits.len();
    let mut z: usize = 0;
    while z < n && digits[z] == '0'
        invariant
            0 <= z <= n,
            n == digits@.len(),
            forall|i: int| 0 <= i < z ==> digits@[i] == '0',
        decreases n - z,
    {
        z += 1;
    }
    proof {
        lemma_zeros_value(digits@.take(z as int));
        lemma_digits_append(digits@.take(z as int), digits@.skip(z as int));
        assert(digits@.take(z as int) + digits@.skip(z as int) =~= digits@);
        if z == n {
            assert(digits@.skip(z as int) =~= Seq::<char>::empty());
        }
    }
    let tail = slice_chars(digits, z, n);
    assert(tail@ =~= digits@.skip(z as int));
    let ghost big_n = digits_value(tail@);
    proof {
        assert(digits_value(digits@.take(z as int)) == 0);
        assert(digits_value(digits@) == 0 * pow10(digits@.skip(z as int).len()) + digits_value(digits@.skip(z as int)));
        assert(0 * pow10(digits@.skip(z as int).len()) == 0);
    }
    assert(big_n == digits_value(digits@));
    let l: usize = n - z;
    assert(all_digits(tail@)) by {
        assert forall|i: int| 0 <= i < tail@.len() implies is_digit(#[trigger] tail@[i]) by {
            assert(tail@[i] == digits@[z + i]);
        }
    }
    proof {
        lemma_digits_bound(tail@);
        lemma_digits_lower(tail@);
        lemma_two_to_facts();
        lemma_pow10_ten();
    }
    let ghost lm: nat = if mult == 1 {
        0
    } else {
        10
    };
    assert(two_to(lm) == mult);
    let ghost q = decimal_fraction(big_n, scale);
    proof {
        if scale < 0 {
            lemma_pow10_pos((-scale) as nat);
        }
        lemma_pow10_pos((l - 1) as nat);
        if scale >= 0 {
            lemma_pow10_pos(scale as nat);
            assert(q.0 >= 1) by (nonlinear_arith)
                requires
                    q.0 == big_n * pow10(scale as nat),
                    big_n >= 1,
                    pow10(scale as nat) >= 1,
            ;
        }
        assert(q.0 > 0 && q.1 > 0);
    }
    let p: i128 = (l as i128) + exp - (frac_len as i128);
    if p > 10 {
        proof {
            lemma_decimal_vs_pow10(big_n, l as nat, scale, 10);
            assert(q.0 * 1 >= q.1 * 10_000_000_000);
            lemma_huge(q.0, q.1, lm);
        }
        return Some(u32::MAX);
    }
    if p < -4 {
        proof {
            lemma_decimal_vs_pow10(big_n, l as nat, scale, -5);
            assert(neg_part(-5) == 5 && pos_part(-5) == 0);
            assert(q.0 * 100000 < q.1 * 1);
            lemma_tiny(q.0, q.1, lm);
            lemma_smallest_half();
        }
        if p < -323 {
            proof {
                lemma_decimal_vs_pow10(big_n, l as nat, scale, -324);
                assert(neg_part(-324) == 324 && pos_part(-324) == 0);
                assert(q.0 * two_to(1075) <= q.1) by (nonlinear_arith)
                    requires
                        q.0 * pow10(324) < q.1 * 1,
                        two_to(1075) < pow10(324),
                ;
            }
            return None;
        }
        if p > -323 {
            proof {
                lemma_decimal_vs_pow10(big_n, l as nat, scale, -323);
                assert(neg_part(-323) == 323 && pos_part(-323) == 0);
                assert(q.0 * two_to(1075) > q.1) by (nonlinear_arith)
                    requires
                        q.0 * pow10(323) >= q.1 * 1,
                        pow10(323) < two_to(1075),
                        q.0 > 0,
                ;
            }
            return Some(0);
        }
        assert(scale == exp - frac_len);
        assert(q == (big_n, pow10((l + 323) as nat)));
        if at_most_smallest_half(&tail) {
            return None;
        } else {
            return Some(0);
        }
    }
    assert(scale == exp - frac_len);
    proof {
        // 10^-5 <= q < 10^10
        lemma_decimal_vs_pow10(big_n, l as nat, scale, -5);
        lemma_decimal_vs_pow10(big_n, l as nat, scale, 10);
        assert(neg_part(-5) == 5 && pos_part(-5) == 0);
        assert(q.0 * 100000 >= q.1 * 1);
        assert(q.0 * 1 < q.1 * 10_000_000_000);
        lemma_two_to_grows(17, 1000);
        lemma_two_to_add(16, 1);
        assert(q.0 * two_to(lm) * two_to(1000) >= q.1) by (nonlinear_arith)
            requires
                q.0 * 100000 >= q.1 * 1,
                two_to(1000) >= two_to(17),
                two_to(17) == two_to(16) * two_to(1),
                two_to(16) == 65536,
                two_to(1) == 2,
                two_to(lm) >= 1,
        ;
        assert(q.0 * two_to(lm) < two_to(50) * q.1) by (nonlinear_arith)
            requires
                q.0 * 1 < q.1 * 10_000_000_000,
                two_to(lm) <= 1024,
                two_to(50) == 1125899906842624,
        ;
        lemma_pow10_pos((-scale) as nat);
        assert(q.0 > 0 && q.1 > 0);
        lemma_rounds_to(q.0, q.1, lm);
    }
    let ip: usize = if p <= 0 {
        0
    } else if p >= l as i128 {
        l
    } else {
        p as usize
    };
    let extra: usize = if p > l as i128 {
        (p - l as i128) as usize
    } else {
        0
    };
    let x = leading_value(&tail, ip, extra);
    let m64 = mult as u64;
    proof {
        lemma_pow10_mono((ip + extra) as nat, 10);
    }
    if p >= l as i128 {
        // a whole number: it rounds to itself
        proof {
            assert(tail@.take(l as int) =~= tail@);
            assert(extra == scale);
            let y = q.0 * two_to(lm);
            assert(q.0 == x);
            assert(y / 1 == y && y % 1 == 0);
            let k = y / q.1;
            assert(q.1 == 1);
            assert(k == x * mult);
            assert(k < two_to(44)) by {
                lemma_two_to_add(34, 10);
                lemma_two_to_grows(34, 34);
                assert(two_to(34) == 2 * two_to(33));
                assert(x * mult < two_to(34) * two_to(10)) by (nonlinear_arith)
                    requires
                        x < 10_000_000_000,
                        mult <= 1024,
                        two_to(34) == 17179869184,
                        two_to(10) == 1024,
                ;
            }
            if k > 0 {
                lemma_bit_length_below(k, 44);
            }
            let b = deciding_bits(k);
            assert(b >= 10);
            lemma_two_to_grows(9, (b - 1) as nat);
            assert(two_to(9) == 512) by {
                lemma_two_to_add(8, 1);
                lemma_two_to_add(4, 4);
                lemma_two_to_add(2, 2);
            }
            assert(0 * two_to(b) == 0);
            assert((0 * two_to(b)) / 1 == 0);
        }
        let v: u64 = x * m64;
        return Some(if v > u32::MAX as u64 {
            u32::MAX
        } else {
            v as u32
        });
    }
    let lead0: usize = if p < 0 {
        (0 - p) as usize
    } else {
        0
    };
    let frac = fraction_digits(&tail, ip, lead0);
    let kf = frac.len();
    let (c1, Ghost(low1)) = carry_wide(&frac, mult as u128);
    proof {
        lemma_two_to_add(34, 10);
        assert(two_to(34) == 2 * two_to(33));
        assert(x * mult + c1 < two_to(44)) by (nonlinear_arith)
            requires
                x < 10_000_000_000,
                mult <= 1024,
                c1 < mult,
                two_to(44) == two_to(34) * two_to(10),
                two_to(34) == 17179869184,
                two_to(10) == 1024,
        ;
        if x * mult + c1 > 0 {
            lemma_bit_length_below((x * mult + c1) as nat, 44);
        }
    }
    let k: u64 = x * m64 + (c1 as u64);
    let b: u32 = if k == 0 {
        55
    } else {
        54 - bit_length_exec(k as u128)
    };
    assert(b <= 55);
    proof {
        lemma_two_to_grows(b as nat, 55);
        lemma_two_to_add(50, 5);
        reveal_with_fuel(two_to, 6);
        assert(two_to(55) == 36028797018963968);
    }
    let tb = two_to_exec(b);
    let (c2, Ghost(low2)) = carry_wide(&frac, (mult as u128) * tb);
    proof {
        assert(kf == l - p);
        assert(extra == 0);
        let tk = tail@.take(ip as int);
        let ts = tail@.skip(ip as int);
        lemma_digits_append(tk, ts);
        assert(tk + ts =~= tail@);
        assert(pow10(0) == 1);
        assert(pow10(extra as nat) == 1);
        assert(x == digits_value(tk)) by (nonlinear_arith)
            requires
                x == digits_value(tk) * pow10(extra as nat),
                pow10(extra as nat) == 1,
        ;
        if p < 0 {
            assert(tk =~= Seq::<char>::empty());
            assert(digits_value(tk) == 0);
            assert(ts =~= tail@);
            assert(x * pow10(kf as nat) == 0) by (nonlinear_arith)
                requires
                    x == 0,
            ;
        } else {
            assert(ts.len() == kf);
        }
        let fv = digits_value(frac@);
        let pk = pow10(kf as nat);
        lemma_pow10_pos(kf as nat);
        assert(big_n == x * pk + fv);
        assert(q == (big_n, pk));
        // y = (x * mult + c1) * 10^kf + low1
        let y = big_n * mult;
        assert(y == (x * mult + c1) * pk + low1) by (nonlinear_arith)
            requires
                y == big_n * mult,
                big_n == x * pk + fv,
                fv * mult == c1 * pk + low1,
        ;
        vstd::arithmetic::div_mod::lemma_fundamental_div_mod_converse(y as int, pk as int, (x * mult + c1) as int, low1 as int);
        // low1 * tb = (c2 - c1 * tb) * 10^kf + low2
        assert(fv * (mult * tb) == (c1 * tb) * pk + low1 * tb) by (nonlinear_arith)
            requires
                fv * mult == c1 * pk + low1,
        ;
        assert(c2 >= c1 * tb) by (nonlinear_arith)
            requires
                fv * (mult * tb) == c2 * pk + low2,
                fv * (mult * tb) == (c1 * tb) * pk + low1 * tb,
                low2 < pk,
                pk > 0,
        ;
        assert(low1 * tb == (c2 - c1 * tb) * pk + low2) by (nonlinear_arith)
            requires
                fv * (mult * tb) == c2 * pk + low2,
                fv * (mult * tb) == (c1 * tb) * pk + low1 * tb,
        ;
        vstd::arithmetic::div_mod::lemma_fundamental_div_mod_converse((low1 * tb) as int, pk as int, (c2 - c1 * tb) as int, low2 as int);
        assert(mult as nat == two_to(lm));
        assert(deciding_bits(k as nat) == b);
    }
    let rb: u128 = c2 - (c1 as u128) * tb;
    let tb1 = two_to_exec(b - 1);
    let up: u64 = if rb >= tb1 - 1 {
        1
    } else {
        0
    };
    let v: u64 = k + up;
    Some(if v > u32::MAX as u64 {
        u32::MAX
    } else {
        v as u32
    })
}

proof fn lemma_digit_run(s: Seq<char>, k: int)
    requires
        0 <= k <= s.len(),
        forall|i: int| 0 <= i < k ==> is_digit(s[i]),
        k == s.len() || !is_digit(s[k]),
    ensures
        digit_run(s) == k,
    decreases k,
{
    if k > 0 {
        let t = s.drop_first();
        assert forall|i: int| 0 <= i < k - 1 implies is_digit(t[i]) by {
            assert(t[i] == s[i + 1]);
        }
        if k < s.len() {
            assert(t[k - 1] == s[k]);
        }
        lemma_digit_run(t, k - 1);
    }
}

fn digit_char(c: char) -> (b: bool)
    ensures
        b == is_digit(c),
{
    '0' <= c && c <= '9'
}

/// Number of digits at the start of `v`.
fn count_digits(v: &Vec<char>) -> (k: usize)
    ensures
        k == digit_run(v@),
        k <= v@.len(),
        all_digits(v@.take(k as int)),
        (k == v@.len()) == all_digits(v@),
{
    let mut k: usize = 0;
    while k < v.len() && digit_char(v[k])
        invariant
            0 <= k <= v.len(),
            forall|i: int| 0 <= i < k ==> is_digit(v@[i]),
        decreases v.len() - k,
    {
        k += 1;
    }
    proof {
        lemma_digit_run(v@, k as int);
        assert forall|i: int| 0 <= i < k implies is_digit(#[trigger] v@.take(k as int)[i]) by {
            assert(v@.take(k as int)[i] == v@[i]);
        }
    }
    k
}

/// Whether every digit is `0`, that is, whether the value is zero.
fn is_zero(digits: &Vec<char>) -> (b: bool)
    requires
        all_digits(digits@),
    ensures
        b == (digits_value(digits@) == 0),
{
    let mut i: usize = 0;
    while i < digits.len()
        invariant
            0 <= i <= digits.len(),
            all_digits(digits@),
            forall|j: int| 0 <= j < i ==> digits@[j] == '0',
        decreases digits.len() - i,
    {
        if digits[i] != '0' {
            proof {
                let a = digits@.take(i + 1);
                let b = digits@.skip(i + 1);
                assert(a + b =~= digits@);
                lemma_digits_append(a, b);
                lemma_digits_unfold(a);
                assert(a.last() == digits@[i as int]);
                assert(is_digit(digits@[i as int]));
                assert(digit_value(a.last()) >= 1);
                lemma_pow10_pos(b.len());
                lemma_mul_inequality(1, digits_value(a) as int, pow10(b.len()) as int);
            }
            return false;
        }
        i += 1;
    }
    proof {
        lemma_zeros_value(digits@);
    }
    true
}

/// The digits of an exponent as a number, saturated at `EXP_CAP`.
fn exponent_value(ed: &Vec<char>) -> (v: i128)
    requires
        all_digits(ed@),
    ensures
        0 <= v <= EXP_CAP,
        v < EXP_CAP ==> v == digits_value(ed@),
        v == EXP_CAP ==> digits_value(ed@) >= EXP_CAP,
{
    let mut v: i128 = 0;
    let mut i: usize = 0;
    proof {
        assert(ed@.take(0) =~= Seq::<char>::empty());
    }
    while i < ed.len()
        invariant
            0 <= i <= ed.len(),
            all_digits(ed@),
            0 <= v <= EXP_CAP,
            v < EXP_CAP ==> v == digits_value(ed@.take(i as int)),
            v == EXP_CAP ==> digits_value(ed@.take(i as int)) >= EXP_CAP,
        decreases ed.len() - i,
    {
        let d = digit_of(ed[i]);
        proof {
            assert(ed@.take(i + 1).drop_last() =~= ed@.take(i as int));
            lemma_digits_unfold(ed@.take(i + 1));
        }
        if v < EXP_CAP {
            let nv = v * 10 + (d as i128);
            v = if nv >= EXP_CAP {
                EXP_CAP
            } else {
                nv
            };
        }
        i += 1;
    }
    proof {
        assert(ed@.take(ed@.len() as int) =~= ed@);
    }
    v
}

/// A number as read: its digits (integer then fraction part), how many of
/// them follow the point, and the exponent saturated at `EXP_CAP`.
enum Scanned {
    NotANumber,
    Infinite { negative: bool },
    Finite { negative: bool, digits: Vec<char>, frac_len: usize, exp: i128 },
}

spec fn scanned_as(sc: Scanned, num: Option<Number>) -> bool {
    match sc {
        Scanned::NotANumber => num == Some(Number::NotANumber),
        Scanned::Infinite { negative } => num == Some(Number::Infinite { negative }),
        Scanned::Finite { negative, digits, frac_len, exp } => match num {
            Some(Number::Finite { negative: ng, mantissa, scale }) => {
                &&& ng == negative
                &&& all_digits(digits@)
                &&& digits_value(digits@) == mantissa
                &&& -EXP_CAP <= exp <= EXP_CAP
                &&& -EXP_CAP < exp < EXP_CAP ==> scale == exp - frac_len
                &&& exp == EXP_CAP ==> scale + frac_len >= EXP_CAP
                &&& exp == -EXP_CAP ==> scale + frac_len <= -EXP_CAP
            },
            _ => false,
        },
    }
}

/// Read `s` in the grammar of `parse_number`.
fn scan_number(s: &Vec<char>) -> (r: Option<Scanned>)
    ensures
        r is None <==> parse_number(s@) is None,
        r matches Some(sc) ==> scanned_as(sc, parse_number(s@)),
{
    let n = s.len();
    let mut start: usize = 0;
    let mut negative = false;
    if n > 0 && (s[0] == '+' || s[0] == '-') {
        negative = s[0] == '-';
        start = 1;
    }
    let b = slice_chars(s, start, n);
    assert(b@ =~= s@.skip(sign_len(s@) as int));
    assert(negative == (sign_len(s@) == 1 && s@[0] == '-'));
    let inf = vec!['i', 'n', 'f'];
    let infinity = vec!['i', 'n', 'f', 'i', 'n', 'i', 't', 'y'];
    let nan = vec!['n', 'a', 'n'];
    assert(inf@ =~= seq!['i', 'n', 'f']);
    assert(infinity@ =~= seq!['i', 'n', 'f', 'i', 'n', 'i', 't', 'y']);
    assert(nan@ =~= seq!['n', 'a', 'n']);
    if eq_ignore_ascii_case(&b, &inf) || eq_ignore_ascii_case(&b, &infinity) {
        return Some(Scanned::Infinite { negative });
    }
    if eq_ignore_ascii_case(&b, &nan) {
        return Some(Scanned::NotANumber);
    }
    let a = count_digits(&b);
    let r1 = slice_chars(&b, a, b.len());
    assert(r1@ =~= b@.skip(a as int));
    let has_point = r1.len() > 0 && r1[0] == '.';
    let r2 = if has_point {
        slice_chars(&r1, 1, r1.len())
    } else {
        slice_chars(&r1, 0, r1.len())
    };
    assert(has_point ==> r2@ =~= r1@.skip(1));
    assert(!has_point ==> r2@ =~= r1@);
    let f = if has_point {
        count_digits(&r2)
    } else {
        0
    };
    let r3 = slice_chars(&r2, f, r2.len());
    assert(r3@ =~= r2@.skip(f as int));
    // the mantissa's digits
    let mut digits = slice_chars(&b, 0, a);
    let mut q: usize = 0;
    while q < f
        invariant
            0 <= q <= f,
            f <= r2@.len(),
            digits@ == b@.take(a as int) + r2@.take(q as int),
        decreases f - q,
    {
        digits.push(r2[q]);
        q += 1;
        assert(digits@ == b@.take(a as int) + r2@.take(q as int));
    }
    assert(all_digits(digits@)) by {
        assert forall|i: int| 0 <= i < digits@.len() implies is_digit(#[trigger] digits@[i]) by {
            if i < a {
                assert(digits@[i] == b@.take(a as int)[i]);
            } else {
                assert(digits@[i] == r2@.take(f as int)[i - a]);
            }
        }
    }
    if a == 0 && f == 0 {
        return None;
    }
    if r3.len() == 0 {
        return Some(Scanned::Finite { negative, digits, frac_len: f, exp: 0 });
    }
    if r3[0] == 'e' || r3[0] == 'E' {
        let r4 = slice_chars(&r3, 1, r3.len());
        assert(r4@ =~= r3@.skip(1));
        let mut es: usize = 0;
        let mut eneg = false;
        if r4.len() > 0 && (r4[0] == '+' || r4[0] == '-') {
            eneg = r4[0] == '-';
            es = 1;
        }
        let ed = slice_chars(&r4, es, r4.len());
        assert(ed@ =~= r4@.skip(sign_len(r4@) as int));
        if ed.len() == 0 {
            return None;
        }
        let k = count_digits(&ed);
        if k != ed.len() {
            return None;
        }
        let v = exponent_value(&ed);
        let exp: i128 = if eneg {
            0 - v
        } else {
            v
        };
        return Some(Scanned::Finite { negative, digits, frac_len: f, exp });
    }
    None
}

/// The number text and its multiplier (exec form of `memory_split`).
fn split_number(t: &Vec<char>) -> (r: (Vec<char>, u32))
    ensures
        r.0@ == memory_split(t@).0,
        r.1 as nat == memory_split(t@).1,
{
    let g = vec!['G'];
    let gb = vec!['G', 'B'];
    let m = vec!['M'];
    let mb = vec!['M', 'B'];
    assert(g@ =~= seq!['G']);
    assert(gb@ =~= seq!['G', 'B']);
    assert(m@ =~= seq!['M']);
    assert(mb@ =~= seq!['M', 'B']);
    let n = t.len();
    if ends_with(t, &g) {
        assert(t@.take(n - 1) =~= t@.drop_last());
        (slice_chars(t, 0, n - 1), 1024)
    } else if ends_with(t, &gb) {
        (slice_chars(t, 0, n - 2), 1024)
    } else if ends_with(t, &m) {
        assert(t@.take(n - 1) =~= t@.drop_last());
        (slice_chars(t, 0, n - 1), 1)
    } else if ends_with(t, &mb) {
        (slice_chars(t, 0, n - 2), 1)
    } else {
        (slice_chars(t, 0, n), 1)
    }
}

/// Parse `4G`, `4096M`, `4096` (MiB) into MiB.
///
/// Surrounding white space and letter case are ignored; `G`/`GB` means
/// gibibytes, `M`/`MB` or no suffix mebibytes. The number may have a sign,
/// a fraction and an exponent (`1.5G`, `4e3`), or be `inf`. It is read as
/// the nearest double, as Rust's `f64` parse reads it; that times the unit
/// is rounded half up and capped at `u32::MAX`. `None` when the text is not
/// a number or the double is not positive.
pub fn parse_memory(text: &str) -> (r: Option<u32>)
    ensures
        r == memory_mib(text@),
{
    let v = chars_of(text);
    let trimmed_text = trim(&v);
    let t = to_upper(&trimmed_text);
    let (num, mult) = split_number(&t);
    let nt = trim(&num);
    let ghost parsed = parse_number(nt@);
    match scan_number(&nt) {
        None => None,
        Some(Scanned::NotANumber) => None,
        Some(Scanned::Infinite { negative }) => {
            if negative {
                None
            } else {
                Some(u32::MAX)
            }
        },
        Some(Scanned::Finite { negative, digits, frac_len, exp }) => {
            let ghost scale = match parsed {
                Some(Number::Finite { scale, .. }) => scale,
                _ => 0,
            };
            if negative || is_zero(&digits) {
                None
            } else {
                mib_of(&digits, frac_len, exp, mult, Ghost(scale))
            }
        },
    }
}

proof fn lemma_decimal_digits(n: nat)
    ensures
        all_digits(decimal(n)),
        digits_value(decimal(n)) == n,
        decimal(n).len() >= 1,
    decreases n,
{
    if n < 10 {
        let c = decimal_digit(n);
        assert((c as u32) == 48 + n);
        lemma_digits_single(c);
        assert(decimal(n) == seq![c]);
    } else {
        lemma_decimal_digits(n / 10);
        let d = decimal(n);
        let c = decimal_digit(n % 10);
        assert((c as u32) == 48 + n % 10);
        assert(d == decimal(n / 10).push(c));
        assert(d.drop_last() =~= decimal(n / 10));
        lemma_digits_unfold(d);
        assert forall|i: int| 0 <= i < d.len() implies is_digit(#[trigger] d[i]) by {
            if i < d.len() - 1 {
                assert(d[i] == decimal(n / 10)[i]);
            }
        }
    }
}

/// A non-empty text that starts and ends with a non-space is its own trim.
proof fn lemma_trim_noop(s: Seq<char>)
    requires
        s.len() > 0,
        !is_white_space(s[0]),
        !is_white_space(s.last()),
    ensures
        trimmed(s) == s,
{
    assert(leading_ws(s) == 0);
    assert(s.skip(0) =~= s);
    assert(trailing_ws(s) == 0);
    assert(s.take(s.len() as int) =~= s);
}

/// The parse of a positive whole number written in decimal.
proof fn lemma_parse_decimal(n: nat)
    requires
        n > 0,
    ensures
        trimmed(decimal(n)) == decimal(n),
        upper_seq(decimal(n)) == decimal(n),
        parse_number(decimal(n)) == Some(Number::Finite { negative: false, mantissa: n, scale: 0 }),
{
    lemma_decimal_digits(n);
    let d = decimal(n);
    assert(is_digit(d[0]));
    assert(is_digit(d.last()));
    lemma_trim_noop(d);
    assert(upper_seq(d) =~= d) by {
        assert forall|i: int| 0 <= i < d.len() implies upper_seq(d)[i] == d[i] by {
            assert(is_digit(d[i]));
        }
    }
    assert(sign_len(d) == 0);
    assert(d.skip(0) =~= d);
    assert(!eq_ignore_case(d, seq!['i', 'n', 'f'])) by {
        if lower_seq(d) == lower_seq(seq!['i', 'n', 'f']) {
            assert(lower_seq(d)[0] == lower_seq(seq!['i', 'n', 'f'])[0]);
        }
    }
    assert(!eq_ignore_case(d, seq!['i', 'n', 'f', 'i', 'n', 'i', 't', 'y'])) by {
        if lower_seq(d) == lower_seq(seq!['i', 'n', 'f', 'i', 'n', 'i', 't', 'y']) {
            assert(lower_seq(d)[0] == lower_seq(seq!['i', 'n', 'f', 'i', 'n', 'i', 't', 'y'])[0]);
        }
    }
    assert(!eq_ignore_case(d, seq!['n', 'a', 'n'])) by {
        if lower_seq(d) == lower_seq(seq!['n', 'a', 'n']) {
            assert(lower_seq(d)[0] == lower_seq(seq!['n', 'a', 'n'])[0]);
        }
    }
    lemma_digit_run(d, d.len() as int);
    assert(d.skip(d.len() as int) =~= Seq::<char>::empty());
    let e = Seq::<char>::empty();
    assert(e.skip(0) =~= e);
    assert(e.take(0) =~= e);
    assert(d.take(d.len() as int) + e.take(0) =~= d);
}

/// A whole number below `2^32` is read as itself.
proof fn lemma_whole_mib(n: nat, lm: nat)
    requires
        1 <= n <= u32::MAX,
        lm == 0 || lm == 10,
    ensures
        positive_mib(n, two_to(lm), 0) == Some(cap_u32(n * two_to(lm))),
{
    lemma_two_to_facts();
    assert(pow10(0) == 1);
    let q = decimal_fraction(n, 0);
    assert(q.0 == n * 1 && q.1 == 1);
    lemma_two_to_pos(lm);
    lemma_two_to_pos(1000);
    assert(n * two_to(lm) * two_to(1000) >= 1) by (nonlinear_arith)
        requires
            n >= 1,
            two_to(lm) >= 1,
            two_to(1000) >= 1,
    ;
    assert(n * two_to(lm) < two_to(50) * 1) by (nonlinear_arith)
        requires
            n <= u32::MAX,
            two_to(lm) <= 1024,
            two_to(50) == 1125899906842624,
    ;
    lemma_rounds_to(n, 1, lm);
    let k = n * two_to(lm);
    assert(k / 1 == k && k % 1 == 0);
    lemma_two_to_add(34, 10);
    assert(two_to(34) == 2 * two_to(33));
    assert(k < two_to(44)) by (nonlinear_arith)
        requires
            k == n * two_to(lm),
            n <= u32::MAX,
            two_to(lm) <= 1024,
            two_to(44) == two_to(34) * two_to(10),
            two_to(34) == 17179869184,
            two_to(10) == 1024,
    ;
    lemma_bit_length_below(k, 44);
    let b = deciding_bits(k);
    assert(b >= 10);
    lemma_two_to_grows(9, (b - 1) as nat);
    lemma_two_to_add(8, 1);
    lemma_two_to_add(4, 4);
    lemma_two_to_add(2, 2);
    assert(two_to(9) == 512);
    let tb = two_to(b);
    assert(0 * tb == 0) by (nonlinear_arith);
    assert((0 * tb) / 1 == 0);
}

/// A whole number of mebibytes written in decimal reads back as itself, with
/// or without an `M`; followed by a `G` it reads as that many gibibytes, in
/// mebibytes (capped at `u32::MAX`).
#[verifier::rlimit(60)]
pub proof fn law_whole_sizes(n: u32)
    requires
        n > 0,
    ensures
        memory_mib(decimal(n as nat)) == Some(n),
        memory_mib(decimal(n as nat) + seq!['M']) == Some(n),
        memory_mib(decimal(n as nat) + seq!['G']) == Some(cap_u32(n as nat * 1024)),
{
    let d = decimal(n as nat);
    lemma_parse_decimal(n as nat);
    lemma_decimal_digits(n as nat);
    assert(pow10(0) == 1);
    // without a suffix
    assert(!ends_with_seq(d, seq!['G'])) by {
        if ends_with_seq(d, seq!['G']) {
            assert(d.skip(d.len() - 1)[0] == d.last());
            assert(is_digit(d.last()));
        }
    }
    assert(!ends_with_seq(d, seq!['G', 'B'])) by {
        if ends_with_seq(d, seq!['G', 'B']) {
            assert(d.skip(d.len() - 2)[1] == d.last());
            assert(is_digit(d.last()));
        }
    }
    assert(!ends_with_seq(d, seq!['M'])) by {
        if ends_with_seq(d, seq!['M']) {
            assert(d.skip(d.len() - 1)[0] == d.last());
            assert(is_digit(d.last()));
        }
    }
    assert(!ends_with_seq(d, seq!['M', 'B'])) by {
        if ends_with_seq(d, seq!['M', 'B']) {
            assert(d.skip(d.len() - 2)[1] == d.last());
            assert(is_digit(d.last()));
        }
    }
    lemma_whole_mib(n as nat, 0);
    lemma_two_to_facts();
    // with a suffix letter
    let dm = d + seq!['M'];
    let dg = d + seq!['G'];
    assert(is_digit(d[0]));
    assert(dm[0] == d[0] && dg[0] == d[0]);
    lemma_trim_noop(dm);
    lemma_trim_noop(dg);
    assert(upper_seq(dm) =~= dm) by {
        assert forall|i: int| 0 <= i < dm.len() implies upper_seq(dm)[i] == dm[i] by {
            if i < d.len() {
                assert(is_digit(d[i]));
            }
        }
    }
    assert(upper_seq(dg) =~= dg) by {
        assert forall|i: int| 0 <= i < dg.len() implies upper_seq(dg)[i] == dg[i] by {
            if i < d.len() {
                assert(is_digit(d[i]));
            }
        }
    }
    assert(ends_with_seq(dg, seq!['G'])) by {
        assert(dg.skip(dg.len() - 1) =~= seq!['G']);
    }
    assert(dg.drop_last() =~= d);
    assert(!ends_with_seq(dm, seq!['G'])) by {
        if ends_with_seq(dm, seq!['G']) {
            assert(dm.skip(dm.len() - 1)[0] == 'M');
        }
    }
    assert(!ends_with_seq(dm, seq!['G', 'B'])) by {
        if ends_with_seq(dm, seq!['G', 'B']) {
            assert(dm.skip(dm.len() - 2)[1] == 'M');
        }
    }
    assert(ends_with_seq(dm, seq!['M'])) by {
        assert(dm.skip(dm.len() - 1) =~= seq!['M']);
    }
    assert(dm.drop_last() =~= d);
    lemma_whole_mib(n as nat, 10);
}

proof fn lemma_map_leading(s: Seq<char>, f: spec_fn(char) -> char)
    requires
        forall|c: char| #[trigger] is_white_space(f(c)) == is_white_space(c),
    ensures
        leading_ws(s.map_values(f)) == leading_ws(s),
    decreases s.len(),
{
    if s.len() > 0 {
        assert(s.map_values(f).drop_first() =~= s.drop_first().map_values(f));
        lemma_map_leading(s.drop_first(), f);
    }
}

proof fn lemma_map_trailing(s: Seq<char>, f: spec_fn(char) -> char)
    requires
        forall|c: char| #[trigger] is_white_space(f(c)) == is_white_space(c),
    ensures
        trailing_ws(s.map_values(f)) == trailing_ws(s),
    decreases s.len(),
{
    if s.len() > 0 {
        assert(s.map_values(f).drop_last() =~= s.drop_last().map_values(f));
        lemma_map_trailing(s.drop_last(), f);
    }
}

proof fn lemma_ws_bounds(s: Seq<char>)
    ensures
        leading_ws(s) <= s.len(),
        trailing_ws(s) <= s.len(),
    decreases s.len(),
{
    if s.len() > 0 {
        lemma_ws_bounds(s.drop_first());
        lemma_ws_bounds(s.drop_last());
    }
}

/// Trimming commutes with a character map that keeps white space white.
proof fn lemma_map_trimmed(s: Seq<char>, f: spec_fn(char) -> char)
    requires
        forall|c: char| #[trigger] is_white_space(f(c)) == is_white_space(c),
    ensures
        trimmed(s.map_values(f)) == trimmed(s).map_values(f),
{
    lemma_map_leading(s, f);
    lemma_ws_bounds(s);
    let t = s.skip(leading_ws(s) as int);
    lemma_ws_bounds(t);
    assert(s.map_values(f).skip(leading_ws(s) as int) =~= t.map_values(f));
    lemma_map_trailing(t, f);
    assert(t.map_values(f).take(t.len() - trailing_ws(t)) =~= t.take(
        t.len() - trailing_ws(t),
    ).map_values(f));
}

/// Letter case does not matter to `parse_memory`.
pub proof fn law_case_insensitive(text: Seq<char>)
    ensures
        memory_mib(lower_seq(text)) == memory_mib(text),
        memory_mib(upper_seq(text)) == memory_mib(text),
{
    let lo = |c: char| ascii_lower(c);
    let up = |c: char| ascii_upper(c);
    assert forall|c: char| #[trigger] is_white_space(lo(c)) == is_white_space(c) by {
        if 'A' <= c && c <= 'Z' {
            assert((c as u32) + 32 <= 0x7a);
        }
    }
    assert forall|c: char| #[trigger] is_white_space(up(c)) == is_white_space(c) by {
        if 'a' <= c && c <= 'z' {
            assert((c as u32) - 32 >= 0x41);
        }
    }
    lemma_map_trimmed(text, lo);
    lemma_map_trimmed(text, up);
    let t = trimmed(text);
    assert(upper_seq(trimmed(lower_seq(text))) =~= upper_seq(t)) by {
        assert(trimmed(lower_seq(text)) == t.map_values(lo));
        assert forall|i: int| 0 <= i < t.len() implies ascii_upper(ascii_lower(t[i])) == ascii_upper(
            t[i],
        ) by {
            let c = t[i];
            if 'A' <= c && c <= 'Z' {
                assert(((c as u32) + 32) as char as u32 == (c as u32) + 32);
            }
        }
    }
    assert(upper_seq(trimmed(upper_seq(text))) =~= upper_seq(t)) by {
        assert(trimmed(upper_seq(text)) == t.map_values(up));
        assert forall|i: int| 0 <= i < t.len() implies ascii_upper(ascii_upper(t[i])) == ascii_upper(
            t[i],
        ) by {
            let c = t[i];
            if 'a' <= c && c <= 'z' {
                assert(((c as u32) - 32) as char as u32 == (c as u32) - 32);
            }
        }
    }
}

} // verus!
