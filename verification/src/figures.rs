//! Sizes and counts as people read them. Each is written as binary floating
//! point would give it: the number rounded to 53 significant bits, halves to
//! even, and that value rounded to the decimals shown, halves to even.

use vstd::prelude::*;
use crate::text::{decimal, decimal_text, digit_char, digit_of};

verus! {

/// A fraction rounded to the nearest whole number, halves to even.
pub open spec fn half_even(num: nat, den: nat) -> nat {
    let q = num / den;
    let r = num % den;
    if 2 * r > den || (2 * r == den && q % 2 == 1) {
        q + 1
    } else {
        q
    }
}

pub fn round_half_even(num: u128, den: u128) -> (r: u128)
    requires
        den > 0,
    ensures
        r == half_even(num as nat, den as nat),
{
    let q: u128 = num / den;
    let r: u128 = num % den;
    if r > den - r || (r == den - r && q % 2 == 1) {
        assert(q < u128::MAX) by (nonlinear_arith)
            requires
                q == num / den,
                num <= u128::MAX,
                den >= 2,
        ;
        q + 1
    } else {
        q
    }
}

/// The quotient and the rest of `a * b` over `d`, where the product need not fit
/// a number.
pub fn scaled(a: u128, b: u64, d: u128) -> (r: (u128, u128))
    requires
        d > 0,
        a * b <= d * u64::MAX,
    ensures
        a * b == r.0 * d + r.1,
        r.1 < d,
        r.0 <= u64::MAX,
    decreases b,
{
    if b == 0 {
        assert(a * b == 0) by (nonlinear_arith)
            requires
                b == 0,
        ;
        assert(0 * d == 0);
        return (0, 0);
    }
    let h: u64 = b / 2;
    assert(a * h <= a * b) by (nonlinear_arith)
        requires
            h <= b,
            a >= 0,
    ;
    let (q, r) = scaled(a, h, d);
    let ghost ah = (a * h) as int;
    let mut q2: u128 = 2 * q;
    let mut r2: u128 = 0;
    if r >= d - r {
        q2 = q2 + 1;
        r2 = r - (d - r);
    } else {
        r2 = r + r;
    }
    assert(2 * ah == q2 * d + r2) by (nonlinear_arith)
        requires
            ah == q * d + r,
            (q2 == 2 * q + 1 && r2 == 2 * r - d) || (q2 == 2 * q && r2 == 2 * r),
    ;
    if b % 2 == 1 {
        assert(a * b == 2 * ah + a) by (nonlinear_arith)
            requires
                b == 2 * h + 1,
                ah == a * h,
        ;
        let qa: u128 = a / d;
        let ra: u128 = a % d;
        assert(a == qa * d + ra) by (nonlinear_arith)
            requires
                qa == a / d,
                ra == a % d,
                d > 0,
        ;
        assert(q2 * d + qa * d <= d * u64::MAX);
        assert(q2 + qa <= u64::MAX) by (nonlinear_arith)
            requires
                q2 * d + qa * d <= d * u64::MAX,
                d > 0,
        ;
        let ghost before = q2 * d + r2;
        let mut q3: u128 = q2 + qa;
        let mut r3: u128 = 0;
        if r2 >= d - ra {
            q3 = q3 + 1;
            r3 = r2 - (d - ra);
        } else {
            r3 = r2 + ra;
        }
        assert(a * b == q3 * d + r3) by (nonlinear_arith)
            requires
                a * b == q2 * d + r2 + a,
                a == qa * d + ra,
                (q3 == q2 + qa + 1 && r3 == r2 + ra - d) || (q3 == q2 + qa && r3 == r2 + ra),
        ;
        assert(q3 <= u64::MAX) by (nonlinear_arith)
            requires
                q3 * d <= d * u64::MAX,
                d > 0,
        ;
        (q3, r3)
    } else {
        assert(a * b == 2 * ah) by (nonlinear_arith)
            requires
                b == 2 * h,
                ah == a * h,
        ;
        assert(q2 <= u64::MAX) by (nonlinear_arith)
            requires
                q2 * d <= d * u64::MAX,
                d > 0,
        ;
        (q2, r2)
    }
}

/// `a * b` over `d` rounded, where the product need not fit a number.
pub fn round_scaled(a: u128, b: u64, d: u128) -> (r: u128)
    requires
        d > 0,
        a * b <= d * u64::MAX,
    ensures
        r == half_even((a * b) as nat, d as nat),
{
    let (q, rest) = scaled(a, b, d);
    let ghost n = (a * b) as int;
    assert(n / (d as int) == q && n % (d as int) == rest) by (nonlinear_arith)
        requires
            n == q * d + rest,
            0 <= rest < d,
    ;
    if rest > d - rest || (rest == d - rest && q % 2 == 1) {
        q + 1
    } else {
        q
    }
}

/// `n` over `d * m` rounded, where the product need not fit a number.
pub fn round_over(n: u128, d: u128, m: u64) -> (r: u128)
    requires
        d > 0,
        m > 0,
    ensures
        r == half_even(n as nat, (d * m) as nat),
{
    let q: u128 = n / d;
    let r: u128 = n % d;
    let k: u128 = m as u128;
    let whole: u128 = q / k;
    let part: u128 = q % k;
    let ghost rest = part * d + r;
    let ghost e = k - 2 * part;
    proof {
        assert(n == q * d + r) by (nonlinear_arith)
            requires
                q == n / d,
                r == n % d,
                d > 0,
        ;
        assert(q == whole * k + part) by (nonlinear_arith)
            requires
                whole == q / k,
                part == q % k,
                k > 0,
        ;
        assert(n == whole * (d * k) + rest && 0 <= rest < d * k && whole <= n) by (nonlinear_arith)
            requires
                n == q * d + r,
                q == whole * k + part,
                rest == part * d + r,
                0 <= r < d,
                0 <= part <= k - 1,
                whole >= 0,
                d >= 1,
                k >= 1,
        ;
        assert(n as int / (d * k) == whole && n as int % (d * k) == rest) by (nonlinear_arith)
            requires
                n == whole * (d * k) + rest,
                0 <= rest < d * k,
        ;
        assert(d * k - 2 * rest == e * d - 2 * r) by (nonlinear_arith)
            requires
                rest == part * d + r,
                e == k - 2 * part,
        ;
        if e < 0 {
            assert(e * d < 0) by (nonlinear_arith)
                requires
                    e < 0,
                    d > 0,
            ;
        } else if e >= 2 {
            assert(e * d >= 2 * d) by (nonlinear_arith)
                requires
                    e >= 2,
                    d > 0,
            ;
        }
        assert(0 * d == 0 && 1 * d == d);
    }
    let above = 2 * part > k || (2 * part == k && r > 0) || (2 * part + 1 == k && r > d - r);
    let tie = (2 * part == k && r == 0) || (2 * part + 1 == k && r == d - r);
    if above || (tie && whole % 2 == 1) {
        assert(whole < u128::MAX) by (nonlinear_arith)
            requires
                n == whole * (d * k) + rest,
                rest > 0,
                n <= u128::MAX,
                d * k >= 1,
                whole >= 0,
        ;
        whole + 1
    } else {
        whole
    }
}

/// A fraction rounds the same however it is expanded.
pub proof fn lemma_half_even_expanded(num: nat, den: nat, k: nat)
    requires
        den > 0,
        k > 0,
    ensures
        half_even(num * k, den * k) == half_even(num, den),
{
    let q = num / den;
    let r = num % den;
    assert(num == q * den + r) by (nonlinear_arith)
        requires
            q == num / den,
            r == num % den,
            den > 0,
    ;
    let (n, d, x) = (num * k, den * k, r * k);
    assert(n == q * d + x && 0 <= x < d) by (nonlinear_arith)
        requires
            num == q * den + r,
            0 <= r < den,
            n == num * k,
            d == den * k,
            x == r * k,
            k > 0,
    ;
    assert(n / d == q && n % d == x) by (nonlinear_arith)
        requires
            n == q * d + x,
            0 <= x < d,
    ;
    assert((2 * x > d <==> 2 * r > den) && (2 * x == d <==> 2 * r == den)) by (nonlinear_arith)
        requires
            x == r * k,
            d == den * k,
            k > 0,
    ;
}

/// A number in exactly `width` decimal digits.
pub open spec fn digits_fixed(n: nat, width: nat) -> Seq<char>
    decreases width,
{
    if width == 0 {
        seq![]
    } else {
        digits_fixed(n / 10, (width - 1) as nat).push(digit_char((n % 10) as int))
    }
}

/// A number of hundredths, tenths or units with its decimal point.
pub open spec fn point_text(n: nat, decimals: nat) -> Seq<char> {
    if decimals == 0 {
        decimal(n)
    } else if decimals == 1 {
        decimal(n / 10) + "."@ + digits_fixed(n % 10, 1)
    } else {
        decimal(n / 100) + "."@ + digits_fixed(n % 100, 2)
    }
}

pub open spec fn tens(decimals: nat) -> nat {
    if decimals == 0 {
        1
    } else if decimals == 1 {
        10
    } else {
        100
    }
}

pub fn write_point(n: u128, decimals: u8) -> (r: String)
    requires
        decimals <= 2,
    ensures
        r@ == point_text(n as nat, decimals as nat),
{
    if decimals == 0 {
        decimal_text(n)
    } else if decimals == 1 {
        let mut r: String = decimal_text(n / 10);
        r.append(".");
        let ghost before = r@;
        r.push(digit_of((n % 10) as u8));
        proof {
            reveal_with_fuel(digits_fixed, 3);
            assert(r@ =~= before + digits_fixed((n % 10) as nat, 1));
        }
        r
    } else {
        let mut r: String = decimal_text(n / 100);
        r.append(".");
        let ghost before = r@;
        let h: u128 = n % 100;
        r.push(digit_of((h / 10) as u8));
        r.push(digit_of((h % 10) as u8));
        proof {
            reveal_with_fuel(digits_fixed, 3);
            assert((h / 10) % 10 == h / 10);
            assert(r@ =~= before + digits_fixed(h as nat, 2));
        }
        r
    }
}

/// The largest power of two that `den` can be multiplied by and stay within
/// `num`.
pub open spec fn top_power(num: nat, den: nat) -> nat
    decreases num - den,
{
    if den > 0 && num >= 2 * den {
        2 * top_power(num, 2 * den)
    } else {
        1
    }
}

/// 2 to the 52.
pub const UNIT: u128 = 4503599627370496;

/// A whole number rounded to 53 significant bits.
pub open spec fn double_of(n: nat) -> nat {
    let p = top_power(n, UNIT as nat);
    half_even(n, p) * p
}

/// A fraction of at least one rounded to 53 significant bits, in units of 2 to
/// the minus 52.
pub open spec fn double_ratio(num: nat, den: nat) -> nat {
    let p = top_power(num, den);
    half_even(num * UNIT as nat, den * p) * p
}

/// A fraction of at least one in binary floating point, written with one
/// decimal.
pub open spec fn ratio_text(num: nat, den: nat) -> Seq<char> {
    point_text(half_even(double_ratio(num, den) * 10, UNIT as nat), 1)
}

proof fn lemma_top_power(num: nat, den: nat)
    requires
        den > 0,
        num >= den,
    ensures
        top_power(num, den) > 0,
        den * top_power(num, den) <= num,
        num < 2 * (den * top_power(num, den)),
    decreases num - den,
{
    if num >= 2 * den {
        lemma_top_power(num, 2 * den);
        let t = top_power(num, 2 * den);
        assert(den * (2 * t) == (2 * den) * t) by (nonlinear_arith);
    } else {
        assert(den * 1 == den);
    }
}

fn find_top_power(num: u128, den: u128) -> (r: u128)
    requires
        0 < den <= num,
        num < 0x4000_0000_0000_0000_0000_0000_0000_0000,
    ensures
        r == top_power(num as nat, den as nat),
        r > 0,
        den * r <= num,
        num < 2 * (den * r),
{
    let mut d: u128 = den;
    let mut p: u128 = 1;
    while num >= 2 * d
        invariant
            0 < den <= d <= num,
            num < 0x4000_0000_0000_0000_0000_0000_0000_0000,
            p > 0,
            d == den * p,
            top_power(num as nat, den as nat) == p * top_power(num as nat, d as nat),
        decreases num - d,
    {
        let ghost t = top_power(num as nat, (2 * d) as nat);
        assert(p * (2 * t) == (2 * p) * t) by (nonlinear_arith);
        assert(2 * (den * p) == den * (2 * p)) by (nonlinear_arith);
        assert(p <= d) by (nonlinear_arith)
            requires
                d == den * p,
                den > 0,
                p > 0,
        ;
        d = 2 * d;
        p = 2 * p;
    }
    proof {
        lemma_top_power(num as nat, den as nat);
        assert(top_power(num as nat, d as nat) == 1);
        assert(p * 1 == p);
    }
    p
}

fn to_double(n: u64) -> (r: u128)
    ensures
        r == double_of(n as nat),
        n < UNIT ==> r == n,
        r <= 0x1_0000_0000_0000_0000,
        n > 0 ==> r > 0,
{
    let m: u128 = n as u128;
    if m < UNIT {
        assert(half_even(n as nat, 1) == n);
        return m;
    }
    let p: u128 = find_top_power(m, UNIT);
    proof {
        lemma_double_bound(n as nat, p as nat);
    }
    let q: u128 = round_half_even(m, p);
    q * p
}

/// A whole number rounded to 53 significant bits.
pub fn round_to_double(n: u128) -> (r: u128)
    requires
        n < 0x4000_0000_0000_0000_0000_0000_0000_0000,
    ensures
        r == double_of(n as nat),
        r <= 2 * n,
{
    if n < UNIT {
        assert(top_power(n as nat, UNIT as nat) == 1);
        assert(half_even(n as nat, 1) == n);
        return n;
    }
    let p: u128 = find_top_power(n, UNIT);
    assert(p <= n) by (nonlinear_arith)
        requires
            UNIT * p <= n,
            UNIT >= 1,
    ;
    let q: u128 = round_half_even(n, p);
    assert(q * p <= 2 * n) by (nonlinear_arith)
        requires
            q <= n / p + 1,
            0 < p <= n,
            n >= 0,
    ;
    q * p
}

/// The rounded number stays within a power of two that the number is within.
proof fn lemma_double_bound(n: nat, p: nat)
    requires
        p > 0,
        UNIT * p <= n,
        n < 2 * (UNIT * p),
        n <= u64::MAX,
        p == top_power(n, UNIT as nat),
    ensures
        p <= 2048,
        half_even(n, p) * p <= 0x1_0000_0000_0000_0000,
        half_even(n, p) * p >= UNIT,
        half_even(n, p) <= 0x20_0000_0000_0000,
{
    assert(p < 4096) by (nonlinear_arith)
        requires
            UNIT * p <= n,
            n <= u64::MAX,
            UNIT == 4503599627370496,
    ;
    lemma_power_values(n, UNIT as nat);
    let q = n / p;
    assert(q <= 2 * UNIT - 1 && q >= UNIT) by (nonlinear_arith)
        requires
            q == n / p,
            p > 0,
            UNIT * p <= n,
            n < 2 * (UNIT * p),
    ;
    let h = half_even(n, p);
    assert(h <= 2 * UNIT);
    assert(h * p <= 2 * UNIT * p) by (nonlinear_arith)
        requires
            h <= 2 * UNIT,
            p > 0,
    ;
    assert(2 * UNIT * p <= 0x1_0000_0000_0000_0000) by (nonlinear_arith)
        requires
            p <= 2048,
            UNIT == 4503599627370496,
    ;
    assert(h * p >= UNIT) by (nonlinear_arith)
        requires
            h >= UNIT,
            p >= 1,
    ;
}

/// A top power that stays below 4096 is at most half of it.
proof fn lemma_power_values(num: nat, den: nat)
    requires
        den > 0,
        top_power(num, den) < 4096,
    ensures
        top_power(num, den) <= 2048,
{
    reveal_with_fuel(top_power, 14);
}

/// Rounding to 53 significant bits never halves a number.
pub proof fn lemma_double_is_half_at_least(n: nat)
    ensures
        n <= 2 * double_of(n),
{
    let p = top_power(n, UNIT as nat);
    if n >= UNIT {
        lemma_top_power(n, UNIT as nat);
        let q = n / p;
        assert(n < q * p + p) by (nonlinear_arith)
            requires
                q == n / p,
                p > 0,
        ;
        assert(q * p <= half_even(n, p) * p) by (nonlinear_arith)
            requires
                q <= half_even(n, p),
        ;
        assert(2 * p <= n) by (nonlinear_arith)
            requires
                UNIT * p <= n,
                UNIT >= 2,
                p > 0,
        ;
    } else {
        assert(half_even(n, 1) == n);
        assert(half_even(n, 1) * 1 == n);
    }
}

/// A number with a unit of 2 to the 30, in binary floating point.
pub open spec fn in_gigabytes(bytes: nat, decimals: nat) -> Seq<char> {
    point_text(half_even(double_of(bytes) * tens(decimals), 0x4000_0000), decimals)
}

/// A number with a unit of 2 to the 20, rounded to the unit.
pub open spec fn in_megabytes(bytes: nat) -> Seq<char> {
    decimal(half_even(double_of(bytes), 0x10_0000))
}

/// A size for people to read, with `decimals` where it is given in gigabytes.
pub open spec fn size_text(bytes: nat, decimals: nat) -> Seq<char> {
    if bytes >= 0x4000_0000 {
        in_gigabytes(bytes, decimals) + " GB"@
    } else {
        in_megabytes(bytes) + " MB"@
    }
}

fn write_size(bytes: u64, decimals: u8) -> (r: String)
    requires
        1 <= decimals <= 2,
    ensures
        r@ == size_text(bytes as nat, decimals as nat),
{
    let b: u128 = to_double(bytes);
    if bytes >= 0x4000_0000 {
        let t: u128 = if decimals == 1 {
            10
        } else {
            100
        };
        let n: u128 = round_half_even(b * t, 0x4000_0000);
        let mut r: String = write_point(n, decimals);
        r.append(" GB");
        r
    } else {
        let n: u128 = round_half_even(b, 0x10_0000);
        let mut r: String = decimal_text(n);
        r.append(" MB");
        r
    }
}

/// A size for people to read.
pub fn fmt_bytes(bytes: u64) -> (r: String)
    ensures
        r@ == size_text(bytes as nat, 1),
{
    write_size(bytes, 1)
}

/// A size with one decimal more, for progress displays, where steps of a tenth
/// of a gigabyte are too coarse to see movement.
pub fn fmt_bytes_precise(bytes: u64) -> (r: String)
    ensures
        r@ == size_text(bytes as nat, 2),
{
    write_size(bytes, 2)
}

/// A count for people to read.
pub open spec fn count_text(n: nat) -> Seq<char> {
    if n <= 999 {
        decimal(n)
    } else if n <= 999_999 {
        ratio_text(n, 1000) + "k"@
    } else {
        ratio_text(double_of(n), 1_000_000) + "M"@
    }
}

fn write_ratio(num: u128, den: u128) -> (r: String)
    requires
        0 < den <= num,
        den <= 1_000_000,
        num <= 0x1_0000_0000_0000_0000,
    ensures
        r@ == ratio_text(num as nat, den as nat),
{
    let p: u128 = find_top_power(num, den);
    assert(p <= num) by (nonlinear_arith)
        requires
            den * p <= num,
            den >= 1,
    ;
    let ghost dp = den * p;
    assert(dp <= num && dp >= p) by (nonlinear_arith)
        requires
            dp == den * p,
            den * p <= num,
            den >= 1,
            p > 0,
    ;
    let m: u128 = round_half_even(num * UNIT, den * p);
    proof {
        let q = (num * UNIT) / dp;
        assert(q <= 2 * UNIT) by (nonlinear_arith)
            requires
                q == (num * UNIT) / dp,
                num < 2 * dp,
                dp > 0,
                UNIT == 4503599627370496,
        ;
        assert(m <= 2 * UNIT + 1);
        assert(m * p <= (2 * UNIT + 1) * 0x1_0000_0000_0000_0000) by (nonlinear_arith)
            requires
                m <= 2 * UNIT + 1,
                p <= 0x1_0000_0000_0000_0000,
                m >= 0,
                p >= 0,
        ;
    }
    let n: u128 = round_half_even(m * p * 10, UNIT);
    write_point(n, 1)
}

/// A count for people to read: in thousands or millions where it is large.
pub fn fmt_count(n: u64) -> (r: String)
    ensures
        r@ == count_text(n as nat),
{
    if n <= 999 {
        decimal_text(n as u128)
    } else if n <= 999_999 {
        let mut r: String = write_ratio(n as u128, 1000);
        r.append("k");
        r
    } else {
        let d: u128 = to_double(n);
        proof {
            if n >= UNIT {
                lemma_top_power(n as nat, UNIT as nat);
                lemma_double_bound(n as nat, top_power(n as nat, UNIT as nat));
            }
        }
        let mut r: String = write_ratio(d, 1_000_000);
        r.append("M");
        r
    }
}

/// Rounding gives a nearest whole number; half way between two it is even.
pub proof fn law_rounding_is_to_the_nearest(num: nat, den: nat)
    requires
        den > 0,
    ensures
        2 * (half_even(num, den) * den) <= 2 * num + den,
        2 * (half_even(num, den) * den) + den >= 2 * num,
        2 * (half_even(num, den) * den) == 2 * num + den || 2 * (half_even(num, den) * den) + den
            == 2 * num ==> half_even(num, den) % 2 == 0,
{
    let q = num / den;
    let r = num % den;
    assert(num == q * den + r) by (nonlinear_arith)
        requires
            q == num / den,
            r == num % den,
            den > 0,
    ;
    assert((q + 1) * den == q * den + den) by (nonlinear_arith);
}

/// A number of fixed width has that many digits, and reads as the number where it
/// has room.
pub proof fn law_fixed_digits_read_back(n: nat, width: nat)
    ensures
        digits_fixed(n, width).len() == width,
        forall|i: int|
            0 <= i < width ==> crate::text::digit_value(#[trigger] digits_fixed(n, width)[i])
                is Some,
        width == 1 && n < 10 ==> crate::text::number_of(digits_fixed(n, width)) == n,
        width == 2 && n < 100 ==> crate::text::number_of(digits_fixed(n, width)) == n,
    decreases width,
{
    if width > 0 {
        let front = digits_fixed(n / 10, (width - 1) as nat);
        law_fixed_digits_read_back(n / 10, (width - 1) as nat);
        let d = digits_fixed(n, width);
        assert(d.drop_last() =~= front);
        assert(crate::text::digit_value(d.last()) == Some((n % 10) as int));
        assert forall|i: int| 0 <= i < width implies crate::text::digit_value(
            #[trigger] d[i],
        ) is Some by {
            if i < width - 1 {
                assert(d[i] == front[i]);
            }
        }
        if width == 1 {
            assert(front =~= Seq::<char>::empty());
            assert(crate::text::number_of(front) == 0);
        }
    }
}

/// A number of tenths or hundredths is written with its point before them.
pub proof fn law_points_stand_before_the_decimals(whole: nat, part: nat)
    ensures
        part < 10 ==> point_text(whole * 10 + part, 1) == decimal(whole) + "."@ + digits_fixed(
            part,
            1,
        ),
        part < 100 ==> point_text(whole * 100 + part, 2) == decimal(whole) + "."@ + digits_fixed(
            part,
            2,
        ),
        point_text(whole, 0) == decimal(whole),
{
}

/// Numbers of up to 53 bits are kept as they are.
pub proof fn law_small_numbers_are_exact(n: nat)
    requires
        n < UNIT,
    ensures
        double_of(n) == n,
{
    assert(half_even(n, 1) == n);
    assert(n * 1 == n);
}

/// A size is told in gigabytes from one on, to the nearest tenth, and below that
/// in megabytes, to the nearest.
pub proof fn law_sizes_are_told(bytes: nat)
    requires
        bytes < UNIT,
    ensures
        bytes >= 1_073_741_824 ==> size_text(bytes, 1) == point_text(
            half_even(bytes * 10, 1_073_741_824),
            1,
        ) + " GB"@,
        bytes >= 1_073_741_824 ==> size_text(bytes, 2) == point_text(
            half_even(bytes * 100, 1_073_741_824),
            2,
        ) + " GB"@,
        bytes < 1_073_741_824 ==> size_text(bytes, 1) == decimal(half_even(bytes, 1_048_576))
            + " MB"@,
{
    law_small_numbers_are_exact(bytes);
}

/// Counts below a thousand are told as they are, then in thousands, then in
/// millions.
pub proof fn law_counts_are_told(n: nat)
    ensures
        n < 1000 ==> count_text(n) == decimal(n),
        1000 <= n < 1_000_000 ==> count_text(n) == ratio_text(n, 1000) + "k"@,
        1_000_000 <= n < UNIT ==> count_text(n) == ratio_text(n, 1_000_000) + "M"@,
{
    if n < UNIT {
        law_small_numbers_are_exact(n);
    }
}

/// A number of at most 53 bits stays exact however often it is doubled.
pub proof fn lemma_doubled_exact(n: nat, k: nat)
    requires
        n < UNIT,
    ensures
        double_of(n * crate::single::two_to(k)) == n * crate::single::two_to(k),
{
    let w = crate::single::two_to(k);
    let x = n * w;
    crate::single::lemma_two_grows(0, k);
    let p = top_power(x, UNIT as nat);
    if x < UNIT {
        law_small_numbers_are_exact(x);
    } else {
        lemma_top_power(x, UNIT as nat);
        lemma_power_is_two(x, UNIT as nat);
        let j = choose|j: nat| p == #[trigger] crate::single::two_to(j);
        assert(j <= k) by {
            if j > k {
                crate::single::lemma_two_grows(k + 1, j);
                assert(crate::single::two_to(k + 1) == w * 2);
                assert(UNIT * p <= x);
                assert(UNIT * p >= UNIT * w) by (nonlinear_arith)
                    requires
                        p >= 2 * w,
                        w >= 0,
                ;
                assert(n * w < UNIT * w) by (nonlinear_arith)
                    requires
                        n < UNIT,
                        w > 0,
                ;
            }
        }
        crate::single::lemma_two_adds(j, (k - j) as nat);
        let m = n * crate::single::two_to((k - j) as nat);
        let v = crate::single::two_to((k - j) as nat);
        assert(x == m * p) by (nonlinear_arith)
            requires
                x == n * w,
                w == p * v,
                m == n * v,
        ;
        assert(x / p == m && x % p == 0) by (nonlinear_arith)
            requires
                x == m * p,
                p > 0,
        ;
        assert(half_even(x, p) == m);
    }
}

proof fn lemma_power_is_two(num: nat, den: nat)
    requires
        den > 0,
    ensures
        exists|j: nat| top_power(num, den) == #[trigger] crate::single::two_to(j),
    decreases num - den,
{
    if num >= 2 * den {
        lemma_power_is_two(num, 2 * den);
        let j = choose|j: nat| top_power(num, 2 * den) == #[trigger] crate::single::two_to(j);
        assert(crate::single::two_to((j + 1) as nat) == crate::single::two_to(j) * 2);
        assert(top_power(num, den) == crate::single::two_to((j + 1) as nat));
    } else {
        assert(crate::single::two_to(0) == 1);
    }
}

/// A fraction is brought to 53 bits with an error of less than a part in 2 to the
/// 53.
pub proof fn law_fractions_are_nearly_exact(num: nat, den: nat)
    requires
        0 < den <= num,
    ensures
        2 * (double_ratio(num, den) * den) <= 2 * (num * UNIT) + num,
        2 * (double_ratio(num, den) * den) + num >= 2 * (num * UNIT),
        ratio_text(num, den) == point_text(half_even(double_ratio(num, den) * 10, UNIT as nat), 1),
{
    lemma_top_power(num, den);
    let p = top_power(num, den);
    let d = den * p;
    let n = num * UNIT as nat;
    let h = half_even(n, d);
    assert(d > 0) by (nonlinear_arith)
        requires
            d == den * p,
            den > 0,
            p > 0,
    ;
    law_rounding_is_to_the_nearest(n, d);
    assert((h * p) * den == h * d) by (nonlinear_arith)
        requires
            d == den * p,
    ;
}

} // verus!
