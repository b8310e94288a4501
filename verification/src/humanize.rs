//! Numbers and times as the launcher shows them: download counts, sizes,
//! "3 days ago", and texture names for remote icons.

use vstd::prelude::*;
use vstd::string::*;
use crate::text::{decimal, decimal_string, digit_char, push_char};

verus! {

/// `q / 10` with one decimal: `123` is "12.3".
pub open spec fn tenths(q: nat) -> Seq<char> {
    decimal(q / 10).push('.').push(digit_char(q % 10))
}

/// `2^e`.
pub open spec fn two_to(e: nat) -> nat
    decreases e,
{
    if e == 0 {
        1
    } else {
        2 * two_to((e - 1) as nat)
    }
}

/// How many binary digits `n` has (none for 0).
pub open spec fn bit_length(n: nat) -> nat
    decreases n,
{
    if n == 0 {
        0
    } else {
        1 + bit_length(n / 2)
    }
}

/// `a / b` rounded to the nearest integer, a tie to the even one.
pub open spec fn round_even(a: nat, b: nat) -> nat {
    let q = a / b;
    let r = a % b;
    if 2 * r > b || (2 * r == b && q % 2 == 1) {
        q + 1
    } else {
        q
    }
}

/// The value of an integer converted to a double (`n as f64`): kept to 53
/// significant bits, rounded to the nearest, a tie to the even one.
pub open spec fn as_double(n: nat) -> nat {
    if bit_length(n) <= 53 {
        n
    } else {
        let s = (bit_length(n) - 53) as nat;
        round_even(n, two_to(s)) * two_to(s)
    }
}

/// The tenths that `{:.1}` shows of the double nearest to `a / d` (a
/// quotient from 1 up to `2^52`): the double has `53 - bit_length(a / d)`
/// fractional bits and a 53-bit mantissa `m`, and its tenths are rounded to
/// the nearest, a tie to the even one.
pub open spec fn quotient_tenths(a: nat, d: nat) -> nat {
    let s = (53 - bit_length(a / d)) as nat;
    let m = round_even(a * two_to(s), d);
    round_even(10 * m, two_to(s))
}

/// What `compact` shows for `n`: the number itself below a thousand, then
/// thousands with one decimal and `K`, then millions with `M`, the decimal
/// being the one `{:.1}` shows of the double quotient (`n as f64 / 1e3`,
/// `/ 1e6`).
pub open spec fn compact_text(n: nat) -> Seq<char> {
    if n < 1000 {
        decimal(n)
    } else if n < 1_000_000 {
        tenths(quotient_tenths(n, 1000)).push('K')
    } else {
        tenths(quotient_tenths(as_double(n), 1_000_000)).push('M')
    }
}

/// Appends `q / 10` with one decimal.
fn push_tenths(s: &mut String, q: u64)
    ensures
        final(s)@ == old(s)@ + tenths(q as nat),
{
    let whole = decimal_string(q / 10);
    s.append(whole.as_str());
    push_char(s, '.');
    let d = q % 10;
    let c: char = ((48 + d) as u8) as char;
    assert(c == digit_char(d as nat));
    push_char(s, c);
    assert(final(s)@ =~= old(s)@ + tenths(q as nat));
}

/// `2^a * 2^b == 2^(a + b)`.
pub(crate) proof fn lemma_two_to_add(a: nat, b: nat)
    ensures
        two_to(a) * two_to(b) == two_to(a + b),
    decreases a,
{
    if a > 0 {
        let a1 = (a - 1) as nat;
        lemma_two_to_add(a1, b);
        let p = two_to(a1);
        let q = two_to(b);
        assert(two_to(a) == 2 * p);
        assert(a1 + b + 1 == a + b);
        assert(two_to(a + b) == 2 * two_to(a1 + b));
        assert((2 * p) * q == 2 * (p * q)) by (nonlinear_arith);
        assert(two_to(a) * two_to(b) == 2 * (p * q));
    } else {
        assert(two_to(a) == 1);
        assert(two_to(a) * two_to(b) == two_to(b));
    }
}

/// Powers of two grow with the exponent, and stay positive.
pub(crate) proof fn lemma_two_to_grows(a: nat, b: nat)
    requires
        a <= b,
    ensures
        0 < two_to(a) <= two_to(b),
    decreases b,
{
    if b > a {
        lemma_two_to_grows(a, (b - 1) as nat);
    } else if b > 0 {
        lemma_two_to_grows(0, (b - 1) as nat);
    }
}

/// A number is below the power of two of its bit length, and (when not 0)
/// at least the one below.
pub(crate) proof fn lemma_bit_length_bounds(n: nat)
    ensures
        n < two_to(bit_length(n)),
        n > 0 ==> two_to((bit_length(n) - 1) as nat) <= n,
        n > 0 ==> bit_length(n) >= 1,
    decreases n,
{
    if n > 0 {
        lemma_bit_length_bounds(n / 2);
    }
}

/// The powers of two the conversions below use.
pub(crate) proof fn lemma_two_to_values()
    ensures
        two_to(11) == 2048,
        two_to(20) == 0x10_0000,
        two_to(52) == 0x10_0000_0000_0000,
        two_to(53) == 0x20_0000_0000_0000,
        two_to(64) == 0x1_0000_0000_0000_0000,
        two_to(128) == 0x1_0000_0000_0000_0000_0000_0000_0000_0000,
{
    reveal_with_fuel(two_to, 5);
    assert(two_to(1) == 2);
    assert(two_to(3) == 8);
    assert(two_to(4) == 16);
    lemma_two_to_add(4, 4);
    assert(two_to(8) == 256);
    lemma_two_to_add(8, 3);
    assert(two_to(11) == 2048);
    lemma_two_to_add(8, 8);
    assert(two_to(16) == 0x1_0000);
    lemma_two_to_add(16, 4);
    assert(two_to(20) == 0x10_0000);
    lemma_two_to_add(16, 16);
    assert(two_to(32) == 0x1_0000_0000);
    lemma_two_to_add(32, 20);
    assert(two_to(52) == 0x10_0000_0000_0000);
    lemma_two_to_add(52, 1);
    assert(two_to(53) == 0x20_0000_0000_0000);
    lemma_two_to_add(32, 32);
    assert(two_to(64) == 0x1_0000_0000_0000_0000);
    lemma_two_to_add(64, 64);
}

/// A number below `2^k` has at most `k` binary digits.
pub(crate) proof fn lemma_bit_length_below(n: nat, k: nat)
    requires
        n < two_to(k),
    ensures
        bit_length(n) <= k,
{
    lemma_bit_length_bounds(n);
    if bit_length(n) > k {
        lemma_two_to_grows(k, (bit_length(n) - 1) as nat);
    }
}

proof fn lemma_div_le(a: nat, b: nat)
    requires
        b > 0,
    ensures
        a / b <= a,
{
    assert(a / b <= a) by (nonlinear_arith)
        requires
            b > 0,
    ;
}

/// `2^e` for a small `e`.
pub(crate) fn two_to_exec(e: u32) -> (r: u128)
    requires
        e <= 64,
    ensures
        r == two_to(e as nat),
        r > 0,
{
    let mut r: u128 = 1;
    let mut i: u32 = 0;
    while i < e
        invariant
            i <= e <= 64,
            r == two_to(i as nat),
        decreases e - i,
    {
        proof {
            lemma_two_to_grows((i + 1) as nat, 64);
            lemma_two_to_values();
        }
        r = r * 2;
        i += 1;
    }
    proof {
        lemma_two_to_grows(0, e as nat);
    }
    r
}

/// The bit length of `n`.
pub(crate) fn bit_length_exec(n: u128) -> (r: u32)
    ensures
        r == bit_length(n as nat),
        r <= 128,
{
    let mut m = n;
    let mut r: u32 = 0;
    proof {
        lemma_two_to_values();
        lemma_bit_length_below(n as nat, 128);
    }
    while m > 0
        invariant
            bit_length(n as nat) == r + bit_length(m as nat),
            r + bit_length(m as nat) <= 128,
        decreases m,
    {
        m = m / 2;
        r += 1;
    }
    proof {
        lemma_two_to_values();
        lemma_bit_length_below(n as nat, 128);
    }
    r
}

/// `a / b` rounded to the nearest, a tie to the even one.
fn round_even_exec(a: u128, b: u128) -> (r: u128)
    requires
        b > 0,
    ensures
        r == round_even(a as nat, b as nat),
        r <= a / b + 1,
{
    let q = a / b;
    let rem = a % b;
    let up = rem > b - rem || (rem == b - rem && q % 2 == 1);
    if up {
        assert(q < u128::MAX) by (nonlinear_arith)
            requires
                q == a / b,
                b > 0,
                rem == a % b,
                rem > 0,
        {
            assert(a == b * q + rem);
        }
        q + 1
    } else {
        q
    }
}

/// `n as f64`, as an integer.
fn as_double_exec(n: u64) -> (r: u128)
    ensures
        r == as_double(n as nat),
        r <= 0x1_0000_0000_0000_0800,
        r + 2048 >= n,
        n < 0x20_0000_0000_0000 ==> r == n,
{
    let len = bit_length_exec(n as u128);
    proof {
        lemma_two_to_values();
        lemma_bit_length_below(n as nat, 64);
        if n < 0x20_0000_0000_0000 {
            lemma_bit_length_below(n as nat, 53);
        }
    }
    if len <= 53 {
        return n as u128;
    }
    let s = len - 53;
    let p = two_to_exec(s);
    let m = round_even_exec(n as u128, p);
    proof {
        lemma_two_to_grows(s as nat, 11);
        assert(m * p <= 0x1_0000_0000_0000_0800) by (nonlinear_arith)
            requires
                m <= (n as u128) / p + 1,
                p > 0,
                p <= 2048,
                n <= u64::MAX,
        {
            assert(((n as u128) / p) * p <= n);
        }
        assert(m * p + 2048 >= n) by (nonlinear_arith)
            requires
                m == round_even(n as nat, p as nat),
                p > 0,
                p <= 2048,
        {
            assert(m >= (n as nat) / (p as nat));
            assert(((n as nat) / (p as nat)) * p + (n as nat) % (p as nat) == n);
        }
    }
    m * p
}

/// `{:.1}` of the double nearest to `a / d`, in tenths.
fn quotient_tenths_exec(a: u128, d: u128) -> (t: u64)
    requires
        0 < d <= a,
        a <= 0x1_0000_0000_0000_0800,
        a / d < 0x10_0000_0000_0000,
    ensures
        t == quotient_tenths(a as nat, d as nat),
{
    let q = a / d;
    let len = bit_length_exec(q);
    proof {
        lemma_bit_length_bounds(q as nat);
        assert(q >= 1) by (nonlinear_arith)
            requires
                0 < d <= a,
                q == a / d,
        ;
        lemma_two_to_values();
        lemma_bit_length_below(q as nat, 52);
    }
    let s = 53 - len;
    let p = two_to_exec(s);
    proof {
        lemma_two_to_grows(s as nat, 52);
        lemma_two_to_add(len as nat, s as nat);
        assert(a * p <= 0x1_0000_0000_0000_0800 * 0x10_0000_0000_0000) by (nonlinear_arith)
            requires
                a <= 0x1_0000_0000_0000_0800,
                p <= 0x10_0000_0000_0000,
        ;
    }
    let m = round_even_exec(a * p, d);
    proof {
        // a < (q + 1) * d, so a * p / d < (q + 1) * p <= 2^len * 2^s = 2^53
        assert(m <= 0x20_0000_0000_0000) by (nonlinear_arith)
            requires
                m <= (a * p) as int / (d as int) + 1,
                q == a / d,
                d > 0,
                q + 1 <= two_to(len as nat),
                two_to(len as nat) * p == 0x20_0000_0000_0000,
                p > 0,
        {
            assert(a < (q + 1) * d);
            assert(a * p < (q + 1) * d * p);
            assert((a * p) as int / (d as int) < (q + 1) * p);
            assert((q + 1) * p <= two_to(len as nat) * p);
        }
    }
    let t = round_even_exec(10 * m, p);
    proof {
        lemma_div_le((10 * m) as nat, p as nat);
    }
    t as u64
}

/// 1234567 → "1.2M".
pub fn compact(n: u64) -> (r: String)
    ensures
        r@ == compact_text(n as nat),
{
    if n < 1000 {
        decimal_string(n)
    } else if n < 1_000_000 {
        let t = quotient_tenths_exec(n as u128, 1000);
        let mut s = String::new();
        push_tenths(&mut s, t);
        push_char(&mut s, 'K');
        assert(s@ =~= compact_text(n as nat));
        s
    } else {
        let a = as_double_exec(n);
        let t = quotient_tenths_exec(a, 1_000_000);
        let mut s = String::new();
        push_tenths(&mut s, t);
        push_char(&mut s, 'M');
        assert(s@ =~= compact_text(n as nat));
        s
    }
}

/// Below a thousand, `compact` shows the number as it is.
pub proof fn law_compact_small(n: u64)
    requires
        n < 1000,
    ensures
        compact_text(n as nat) == decimal(n as nat),
{
}

/// "1 day ago", "3 days ago".
pub open spec fn plural_text(n: nat, unit: Seq<char>) -> Seq<char> {
    if n == 1 {
        seq!['1', ' '] + unit + seq![' ', 'a', 'g', 'o']
    } else {
        decimal(n) + seq![' '] + unit + seq!['s', ' ', 'a', 'g', 'o']
    }
}

/// "3 days ago"
pub fn plural(n: u64, unit: &str) -> (r: String)
    ensures
        r@ == plural_text(n as nat, unit@),
{
    let mut s = if n == 1 {
        String::from_str("1 ")
    } else {
        let mut t = decimal_string(n);
        push_char(&mut t, ' ');
        t
    };
    proof {
        reveal_strlit("1 ");
    }
    s.append(unit);
    if n != 1 {
        push_char(&mut s, 's');
    }
    s.append(" ago");
    proof {
        reveal_strlit(" ago");
    }
    assert(s@ =~= plural_text(n as nat, unit@));
    s
}

pub open spec fn minute_chars() -> Seq<char> {
    seq!['m', 'i', 'n', 'u', 't', 'e']
}

pub open spec fn hour_chars() -> Seq<char> {
    seq!['h', 'o', 'u', 'r']
}

pub open spec fn day_chars() -> Seq<char> {
    seq!['d', 'a', 'y']
}

pub open spec fn month_chars() -> Seq<char> {
    seq!['m', 'o', 'n', 't', 'h']
}

/// How long ago something was played, from the seconds since then (`None`
/// when it never was, or when its time lies in the future).
pub open spec fn ago_text(secs: Option<u64>) -> Seq<char> {
    match secs {
        None => seq!['n', 'e', 'v', 'e', 'r', ' ', 'p', 'l', 'a', 'y', 'e', 'd'],
        Some(s) => if s < 60 {
            seq!['j', 'u', 's', 't', ' ', 'n', 'o', 'w']
        } else if s < 3600 {
            plural_text((s / 60) as nat, minute_chars())
        } else if s < 86_400 {
            plural_text((s / 3600) as nat, hour_chars())
        } else if s < 2_592_000 {
            plural_text((s / 86_400) as nat, day_chars())
        } else {
            plural_text((s / 2_592_000) as nat, month_chars())
        },
    }
}

/// A unit of elapsed time for `ago`: its length in seconds, its name,
/// and the length of the next larger unit (none after months).
pub open spec fn time_unit(d: nat, name: Seq<char>, next: nat) -> bool {
    ||| (d, name, next) == (60nat, seq!['m', 'i', 'n', 'u', 't', 'e'], 3600nat)
    ||| (d, name, next) == (3600nat, seq!['h', 'o', 'u', 'r'], 86_400nat)
    ||| (d, name, next) == (86_400nat, seq!['d', 'a', 'y'], 2_592_000nat)
    ||| (d, name, next) == (2_592_000nat, seq!['m', 'o', 'n', 't', 'h'], 0x1_0000_0000_0000_0000nat)
}

/// A minute or more ago is told in the largest unit that fits (minutes,
/// hours, days, then 30-day months): the count is the whole number of
/// those units, never zero, and the next larger unit does not fit yet.
/// Under a minute it is "just now".
pub proof fn law_ago_largest_unit(s: u64)
    ensures
        s < 60 ==> ago_text(Some(s)) == seq!['j', 'u', 's', 't', ' ', 'n', 'o', 'w'],
        s >= 60 ==> exists|d: nat, name: Seq<char>, next: nat|
            #[trigger] time_unit(d, name, next) && d <= s < next && (s as nat) / d >= 1
                && ago_text(Some(s)) == plural_text((s as nat) / d, name),
{
    if s >= 60 {
        if s < 3600 {
            assert(time_unit(60, minute_chars(), 3600));
        } else if s < 86_400 {
            assert(time_unit(3600, hour_chars(), 86_400));
        } else if s < 2_592_000 {
            assert(time_unit(86_400, day_chars(), 2_592_000));
        } else {
            assert(time_unit(2_592_000, month_chars(), 0x1_0000_0000_0000_0000));
        }
    }
}

/// "3 days ago", given the seconds elapsed since then.
pub fn ago(secs: Option<u64>) -> (r: String)
    ensures
        r@ == ago_text(secs),
{
    proof {
        reveal_strlit("never played");
        reveal_strlit("just now");
        reveal_strlit("minute");
        reveal_strlit("hour");
        reveal_strlit("day");
        reveal_strlit("month");
    }
    match secs {
        None => String::from_str("never played"),
        Some(s) => if s < 60 {
            String::from_str("just now")
        } else if s < 3600 {
            plural(s / 60, "minute")
        } else if s < 86_400 {
            plural(s / 3600, "hour")
        } else if s < 2_592_000 {
            plural(s / 86_400, "day")
        } else {
            plural(s / 2_592_000, "month")
        },
    }
}

/// What `megabytes` shows: the size in MiB with the one decimal `{:.1}`
/// gives of the double `bytes as f64 / 2^20`, and " MB".
pub open spec fn megabytes_text(bytes: nat) -> Seq<char> {
    tenths(round_even(10 * as_double(bytes), two_to(20))) + seq![' ', 'M', 'B']
}

/// A byte count as mebibytes with one decimal ("12.5 MB").
pub fn megabytes(bytes: u64) -> (r: String)
    ensures
        r@ == megabytes_text(bytes as nat),
{
    let a = as_double_exec(bytes);
    let p = two_to_exec(20);
    let t = round_even_exec(10 * a, p);
    proof {
        lemma_two_to_values();
        assert(t <= 0xFFFF_FFFF_FFFF_FFFF) by (nonlinear_arith)
            requires
                t <= (10 * a) as u128 / p + 1,
                p == 0x10_0000,
                a <= 0x1_0000_0000_0000_0800,
        ;
    }
    let mut s = String::new();
    push_tenths(&mut s, t as u64);
    s.append(" MB");
    proof {
        reveal_strlit(" MB");
    }
    assert(s@ =~= megabytes_text(bytes as nat));
    s
}

/// What the standard library's default hasher (`DefaultHasher`, SipHash
/// with fixed keys) gives for a string.
pub uninterp spec fn url_hash(url: Seq<char>) -> u64;

/// Calls `BuildHasher::hash_one` with the default hasher, which hashes the
/// string as `Hash for str` does and returns the hasher's `finish`. Claims
/// only that the result is `url_hash` of the text.
#[verifier::external_body]
fn hash_url(url: &str) -> (h: u64)
    ensures
        h == url_hash(url@),
{
    std::hash::BuildHasher::hash_one(
        &std::hash::BuildHasherDefault::<std::collections::hash_map::DefaultHasher>::default(),
        url,
    )
}

/// The lower-case hexadecimal digit for `d < 16`.
pub open spec fn hex_digit(d: nat) -> char {
    if d < 10 {
        digit_char(d)
    } else {
        (('a' as u32) + d - 10) as char
    }
}

/// The last `width` hexadecimal digits of `v`, most significant first
/// (`{:016x}` for 16).
pub open spec fn hex_width(v: nat, width: nat) -> Seq<char>
    decreases width,
{
    if width == 0 {
        Seq::empty()
    } else {
        hex_width(v / 16, (width - 1) as nat).push(hex_digit(v % 16))
    }
}

/// Sixteen lower-case hexadecimal digits of `v`.
fn hex16(v: u64) -> (r: Vec<char>)
    ensures
        r@ == hex_width(v as nat, 16),
{
    // digits, least significant first
    let mut rev: Vec<char> = Vec::new();
    let mut m: u64 = v;
    let mut i: usize = 0;
    let ghost mut tail: Seq<char> = Seq::empty();
    while i < 16
        invariant
            0 <= i <= 16,
            hex_width(v as nat, 16) == hex_width(m as nat, (16 - i) as nat) + tail,
            tail.len() == i,
            rev@.len() == tail.len(),
            forall|k: int| 0 <= k < rev@.len() ==> rev@[k] == tail[tail.len() - 1 - k],
        decreases 16 - i,
    {
        let d = m % 16;
        let c: char = if d < 10 {
            ((48 + d) as u8) as char
        } else {
            ((87 + d) as u8) as char
        };
        assert(c == hex_digit(d as nat));
        rev.push(c);
        proof {
            let w = (16 - i) as nat;
            assert(hex_width(m as nat, w) == hex_width((m / 16) as nat, (w - 1) as nat).push(c));
            assert(hex_width((m / 16) as nat, (w - 1) as nat).push(c) + tail == hex_width(
                (m / 16) as nat,
                (w - 1) as nat,
            ) + (seq![c] + tail));
            tail = seq![c] + tail;
        }
        m = m / 16;
        i += 1;
    }
    assert(hex_width(m as nat, 0) =~= Seq::<char>::empty());
    assert(hex_width(v as nat, 16) =~= tail);
    let mut out: Vec<char> = Vec::new();
    let mut j: usize = 16;
    while j > 0
        invariant
            0 <= j <= 16,
            rev@.len() == 16,
            tail.len() == 16,
            forall|k: int| 0 <= k < rev@.len() ==> rev@[k] == tail[tail.len() - 1 - k],
            out@ == tail.subrange(0, 16 - j),
        decreases j,
    {
        j -= 1;
        out.push(rev[j]);
        assert(out@ == tail.subrange(0, 16 - j));
    }
    assert(out@ =~= tail);
    out
}

/// The texture name under which a remote icon is registered.
pub open spec fn icon_uri_text(url: Seq<char>) -> Seq<char> {
    "bytes://modicon/"@ + hex_width(url_hash(url) as nat, 16)
}

/// Stable, unique texture URI for a remote icon URL.
pub fn icon_texture_uri(url: &str) -> (r: String)
    ensures
        r@ == icon_uri_text(url@),
{
    let h = hash_url(url);
    let digits = hex16(h);
    let mut s = String::from_str("bytes://modicon/");
    let mut i: usize = 0;
    while i < digits.len()
        invariant
            0 <= i <= digits.len(),
            s@ == "bytes://modicon/"@ + digits@.subrange(0, i as int),
        decreases digits.len() - i,
    {
        push_char(&mut s, digits[i]);
        i += 1;
        assert(s@ == "bytes://modicon/"@ + digits@.subrange(0, i as int));
    }
    assert(digits@.subrange(0, digits@.len() as int) =~= digits@);
    s
}

} // verus!
