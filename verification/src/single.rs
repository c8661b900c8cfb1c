//! Numbers in binary floating point of single precision: 24 significant bits,
//! rounded to the nearest and to even between two.

use vstd::prelude::*;
use crate::figures::half_even;

verus! {

/// Two to the power of `n`.
pub open spec fn two_to(n: nat) -> nat
    decreases n,
{
    if n == 0 {
        1
    } else {
        two_to((n - 1) as nat) * 2
    }
}

/// Ten to the power of `n`.
pub open spec fn power_of_ten(n: nat) -> nat
    decreases n,
{
    if n == 0 {
        1
    } else {
        power_of_ten((n - 1) as nat) * 10
    }
}

/// 2 to the 24.
pub const BITS_24: u64 = 16777216;

/// 2 to the 23.
pub const BITS_23: u64 = 8388608;

/// Whether `num / den` is below 24 bits in units of 2 to the `e`.
pub open spec fn fits(num: nat, den: nat, e: int) -> bool {
    if e >= 0 {
        num < den * (BITS_24 * two_to(e as nat))
    } else {
        num * two_to((-e) as nat) < den * BITS_24
    }
}

/// The least exponent from `e` on in whose units `num / den` fits 24 bits, or
/// the one that is too large for any number.
pub open spec fn unit_from(num: nat, den: nat, e: int) -> int
    decreases 105 - e,
{
    if e >= 105 || fits(num, den, e) {
        e
    } else {
        unit_from(num, den, e + 1)
    }
}

/// `num / den` in units of 2 to the `e`, rounded.
pub open spec fn in_units(num: nat, den: nat, e: int) -> nat {
    if e >= 0 {
        half_even(num, den * two_to(e as nat))
    } else {
        half_even(num * two_to((-e) as nat), den)
    }
}

/// `num / den` in single precision: a whole number of at most 24 bits and the
/// exponent of its unit. None where it is beyond every number.
pub open spec fn single_of(num: nat, den: nat) -> Option<(nat, int)> {
    let e = unit_from(num, den, -149);
    let m = in_units(num, den, e);
    if e > 104 || (e == 104 && m == BITS_24) {
        None
    } else {
        Some((m, e))
    }
}

proof fn lemma_fits_above(num: nat, den: nat, e: int, f: int)
    requires
        e <= f,
        fits(num, den, e),
    ensures
        fits(num, den, f),
    decreases f - e,
{
    if e < f {
        if e >= 0 {
            let t = two_to(e as nat);
            assert(two_to((e + 1) as nat) == t * 2);
            assert(den * (BITS_24 * t) <= den * (BITS_24 * (t * 2))) by (nonlinear_arith)
                requires
                    den >= 0,
                    t >= 0,
            ;
        } else {
            let t = two_to((-e - 1) as nat);
            assert(two_to((-e) as nat) == t * 2);
            assert(num * t <= num * (t * 2)) by (nonlinear_arith)
                requires
                    num >= 0,
                    t >= 0,
            ;
            if e == -1 {
                assert(t == 1);
                assert(num * 1 == num);
                assert(den * (BITS_24 * two_to(0)) == den * BITS_24);
            }
        }
        lemma_fits_above(num, den, e + 1, f);
    }
}

/// The unit is the one that fits where the one below does not.
pub proof fn lemma_unit(num: nat, den: nat, e: int, unit: int)
    requires
        e <= unit <= 105,
        unit < 105 ==> fits(num, den, unit),
        unit == -149 || !fits(num, den, unit - 1),
        -149 <= e,
    ensures
        unit_from(num, den, e) == unit,
    decreases unit - e,
{
    if e < unit {
        if fits(num, den, e) {
            lemma_fits_above(num, den, e, unit - 1);
        }
        lemma_unit(num, den, e + 1, unit);
    }
}

// ---------------------------------------------------------------------------
// Decimal fractions

/// Decimal digits as a number.
pub open spec fn digits_value(d: Seq<u8>) -> nat
    decreases d.len(),
{
    if d.len() == 0 {
        0
    } else {
        d[0] as nat * power_of_ten((d.len() - 1) as nat) + digits_value(d.skip(1))
    }
}

pub open spec fn digits_ok(d: Seq<u8>) -> bool {
    forall|i: int| 0 <= i < d.len() ==> (#[trigger] d[i]) <= 9
}

pub proof fn lemma_digits_below(d: Seq<u8>)
    requires
        digits_ok(d),
    ensures
        digits_value(d) < power_of_ten(d.len()),
    decreases d.len(),
{
    if d.len() > 0 {
        let rest = d.skip(1);
        assert forall|i: int| 0 <= i < rest.len() implies (#[trigger] rest[i]) <= 9 by {
            assert(rest[i] == d[i + 1]);
        }
        lemma_digits_below(rest);
        let t = power_of_ten(rest.len());
        assert(d[0] as nat * t <= 9 * t) by (nonlinear_arith)
            requires
                d[0] <= 9,
                t >= 0,
        ;
    }
}

pub proof fn lemma_digits_push(d: Seq<u8>, x: u8)
    ensures
        digits_value(d.push(x)) == digits_value(d) * 10 + x,
    decreases d.len(),
{
    let p = d.push(x);
    if d.len() > 0 {
        let rest = d.skip(1);
        lemma_digits_push(rest, x);
        assert(p.skip(1) =~= rest.push(x));
        let t = power_of_ten(rest.len());
        assert(power_of_ten(d.len()) == t * 10);
        assert(p[0] == d[0]);
        assert(digits_value(p) == d[0] as nat * (t * 10) + digits_value(p.skip(1)));
        assert(d[0] as nat * (t * 10) == (d[0] as nat * t) * 10) by (nonlinear_arith);
    } else {
        assert(p.skip(1) =~= Seq::<u8>::empty());
        assert(power_of_ten(0) == 1);
        assert(x as nat * 1 == x);
        assert(digits_value(p) == x as nat * power_of_ten(0) + digits_value(p.skip(1)));
    }
}

/// Whether a decimal fraction is more than nothing.
fn is_more_than_zero(d: &Vec<u8>) -> (r: bool)
    ensures
        r == (digits_value(d@) > 0),
{
    let mut i: usize = 0;
    assert(d@.skip(0) =~= d@);
    while i < d.len()
        invariant
            i <= d.len(),
            digits_value(d@) == digits_value(d@.skip(i as int)),
        decreases d.len() - i,
    {
        let ghost rest = d@.skip(i as int);
        let ghost t = power_of_ten((rest.len() - 1) as nat);
        proof {
            lemma_ten_positive((rest.len() - 1) as nat);
            assert(rest.skip(1) =~= d@.skip(i + 1));
        }
        if d[i] > 0 {
            assert(rest[0] as nat * t >= 1) by (nonlinear_arith)
                requires
                    rest[0] >= 1,
                    t >= 1,
            ;
            return true;
        }
        assert(0 * t == 0);
        i += 1;
    }
    false
}

pub proof fn lemma_ten_positive(n: nat)
    ensures
        power_of_ten(n) > 0,
    decreases n,
{
    if n > 0 {
        lemma_ten_positive((n - 1) as nat);
    }
}

proof fn lemma_two_positive(n: nat)
    ensures
        two_to(n) > 0,
    decreases n,
{
    if n > 0 {
        lemma_two_positive((n - 1) as nat);
    }
}

/// Doubles a decimal fraction. Gives the whole that it comes to.
fn double(d: &mut Vec<u8>) -> (carry: u32)
    requires
        digits_ok(old(d)@),
    ensures
        digits_ok(final(d)@),
        final(d)@.len() == old(d)@.len(),
        carry <= 1,
        2 * digits_value(old(d)@) == carry * power_of_ten(old(d)@.len()) + digits_value(final(d)@),
{
    let ghost all = d@;
    let mut c: u8 = 0;
    let mut i: usize = d.len();
    assert(all.skip(i as int) =~= Seq::<u8>::empty());
    assert(d@.skip(i as int) =~= Seq::<u8>::empty());
    while i > 0
        invariant
            i <= d.len(),
            d@.len() == all.len(),
            digits_ok(all),
            digits_ok(d@),
            c <= 1,
            forall|k: int| 0 <= k < i ==> d@[k] == all[k],
            2 * digits_value(all.skip(i as int)) == c * power_of_ten((all.len() - i) as nat)
                + digits_value(d@.skip(i as int)),
        decreases i,
    {
        let ghost before = d@;
        let ghost n = (all.len() - i) as nat;
        let ghost t = power_of_ten(n);
        let ghost old_c = c as int;
        i -= 1;
        let x: u8 = d[i];
        let y: u8 = 2 * x + c;
        d.set(i, y % 10);
        c = y / 10;
        proof {
            let a = all.skip(i as int);
            let b = d@.skip(i as int);
            assert(a.skip(1) =~= all.skip(i + 1));
            assert(b.skip(1) =~= before.skip(i + 1));
            assert(power_of_ten((n + 1) as nat) == t * 10);
            assert(digits_value(a) == x as nat * t + digits_value(all.skip(i + 1)));
            assert(digits_value(b) == (y % 10) as nat * t + digits_value(before.skip(i + 1)));
            assert(2 * (x as int * t) + old_c * t == (y / 10) as int * (t * 10) + (y % 10) as int
                * t) by (nonlinear_arith)
                requires
                    2 * x + old_c == 10 * (y / 10) + y % 10,
            ;
        }
    }
    assert(all.skip(0) =~= all);
    assert(d@.skip(0) =~= d@);
    c as u32
}

pub proof fn lemma_two_adds(a: nat, b: nat)
    ensures
        two_to(a + b) == two_to(a) * two_to(b),
    decreases b,
{
    if b > 0 {
        lemma_two_adds(a, (b - 1) as nat);
        let (x, y) = (two_to(a), two_to((b - 1) as nat));
        assert(two_to(a + b) == two_to((a + b - 1) as nat) * 2);
        assert((x * y) * 2 == x * (y * 2)) by (nonlinear_arith);
    } else {
        assert(two_to(a) * 1 == two_to(a));
    }
}

pub proof fn lemma_two_grows(a: nat, b: nat)
    requires
        a <= b,
    ensures
        0 < two_to(a) <= two_to(b),
    decreases b,
{
    lemma_two_positive(a);
    if a < b {
        lemma_two_grows(a, (b - 1) as nat);
    }
}

/// The largest unit, and that all numbers of 128 bits are below 24 bits of it.
proof fn lemma_largest_unit()
    ensures
        two_to(104) * BITS_24 == u128::MAX + 1,
{
    assert(two_to(26) == 67108864) by {
        reveal_with_fuel(two_to, 27);
    }
    lemma_two_adds(26, 26);
    lemma_two_adds(52, 52);
    assert(67108864 * 67108864 == 4503599627370496int);
    assert(4503599627370496int * 4503599627370496int == 20282409603651670423947251286016int);
}

/// A number of at least 24 bits with a decimal fraction behind it.
fn round_large(whole: u128, d: &Vec<u8>) -> (r: Option<(u32, i32)>)
    requires
        digits_ok(d@),
        whole >= BITS_24,
    ensures
        ({
            let t = power_of_ten(d@.len());
            let s = single_of((whole * t + digits_value(d@)) as nat, t);
            match r {
                Some(x) => s == Some((x.0 as nat, x.1 as int)) && x.0 <= BITS_24 && -149 <= x.1
                    <= 104,
                None => s is None,
            }
        }),
{
    let ghost t = power_of_ten(d@.len());
    let ghost f = digits_value(d@);
    let ghost num = (whole * t + f) as nat;
    proof {
        lemma_ten_positive(d@.len());
        lemma_digits_below(d@);
        lemma_largest_unit();
        assert(two_to(0) == 1);
    }
    let mut p: u128 = 1;
    let mut e: i32 = 0;
    while whole / p >= BITS_24 as u128
        invariant
            0 <= e <= 104,
            p == two_to(e as nat),
            0 < p,
            two_to(104) * BITS_24 == u128::MAX + 1,
            e > 0 ==> whole >= BITS_24 * two_to((e - 1) as nat),
            whole >= BITS_24,
        ensures
            whole / p < BITS_24,
        decreases 104 - e,
    {
        assert(whole >= BITS_24 * p) by (nonlinear_arith)
            requires
                whole / p >= BITS_24,
                p > 0,
        ;
        proof {
            if e == 104 {
                assert(false);
            }
            lemma_two_grows((e + 1) as nat, 104);
            assert(two_to((e + 1) as nat) == two_to(e as nat) * 2);
        }
        p = p * 2;
        e = e + 1;
    }
    proof {
        if e == 0 {
            assert(whole / 1 == whole);
        }
    }
    let q: u128 = whole / p;
    let rest: u128 = whole % p;
    let half: u128 = p / 2;
    let ghost n = (rest * t + f) as int;
    proof {
        let below = two_to((e - 1) as nat);
        assert(p == below * 2);
        assert(whole == q * p + rest) by (nonlinear_arith)
            requires
                q == whole / p,
                rest == whole % p,
                p > 0,
        ;
        assert(whole + 1 <= BITS_24 * p) by (nonlinear_arith)
            requires
                whole == q * p + rest,
                rest < p,
                q + 1 <= BITS_24,
        ;
        assert(num < t * (BITS_24 * p)) by (nonlinear_arith)
            requires
                num == whole * t + f,
                f < t,
                whole + 1 <= BITS_24 * p,
                t > 0,
        ;
        assert(num >= t * (BITS_24 * below)) by (nonlinear_arith)
            requires
                num >= whole * t,
                whole >= BITS_24 * below,
                t > 0,
        ;
        lemma_unit(num, t, -149, e as int);
        assert(num == q * (t * p) + n && 0 <= n < t * p) by (nonlinear_arith)
            requires
                num == whole * t + f,
                whole == q * p + rest,
                n == rest * t + f,
                0 <= f < t,
                0 <= rest <= p - 1,
                t > 0,
        ;
        assert(num as int / (t * p) == q && num as int % (t * p) == n) by (nonlinear_arith)
            requires
                num == q * (t * p) + n,
                0 <= n < t * p,
        ;
        assert(t * p == (half * 2) * t) by (nonlinear_arith)
            requires
                p == half * 2,
        ;
        if rest > half {
            assert(2 * n > (half * 2) * t) by (nonlinear_arith)
                requires
                    n >= rest * t,
                    rest >= half + 1,
                    t > 0,
            ;
        } else if rest < half {
            assert(2 * n < (half * 2) * t) by (nonlinear_arith)
                requires
                    n == rest * t + f,
                    rest + 1 <= half,
                    f < t,
                    t > 0,
            ;
        } else {
            assert(2 * n == (half * 2) * t + 2 * f) by (nonlinear_arith)
                requires
                    n == half * t + f,
            ;
        }
    }
    let more = is_more_than_zero(d);
    let up = rest > half || (rest == half && (more || q % 2 == 1));
    let m: u32 = if up {
        q as u32 + 1
    } else {
        q as u32
    };
    assert(m == in_units(num, t, e as int));
    if e == 104 && m as u64 == BITS_24 {
        None
    } else {
        Some((m, e))
    }
}

/// A number of fewer than 24 bits with a decimal fraction behind it.
fn round_small(whole: u32, d: &mut Vec<u8>) -> (r: (u32, i32))
    requires
        digits_ok(old(d)@),
        whole < BITS_24,
    ensures
        ({
            let t = power_of_ten(old(d)@.len());
            single_of((whole * t + digits_value(old(d)@)) as nat, t) == Some(
                (r.0 as nat, r.1 as int),
            )
        }),
        r.0 <= BITS_24,
        -149 <= r.1 <= 0,
{
    let ghost k = d@.len();
    let ghost t = power_of_ten(k);
    let ghost num = (whole * t + digits_value(d@)) as nat;
    proof {
        lemma_ten_positive(k);
        lemma_digits_below(d@);
        assert(two_to(0) == 1);
        assert(num * 1 == num);
    }
    let mut m: u32 = whole;
    let mut e: i32 = 0;
    while (m as u64) < BITS_23 && e > -149
        invariant
            -149 <= e <= 0,
            m < BITS_24,
            digits_ok(d@),
            d@.len() == k,
            t == power_of_ten(k),
            num * two_to((-e) as nat) == m * t + digits_value(d@),
        decreases e + 149,
    {
        let ghost f = digits_value(d@);
        let ghost w = two_to((-e) as nat);
        let ghost old_m = m as int;
        let c: u32 = double(d);
        m = 2 * m + c;
        e = e - 1;
        proof {
            assert(two_to((-e) as nat) == w * 2);
            assert(num * (w * 2) == m * t + digits_value(d@)) by (nonlinear_arith)
                requires
                    num * w == old_m * t + f,
                    2 * f == c * t + digits_value(d@),
                    m == 2 * old_m + c,
            ;
        }
    }
    let ghost f = digits_value(d@);
    let ghost w = two_to((-e) as nat);
    proof {
        lemma_digits_below(d@);
        assert(num * w < t * BITS_24) by (nonlinear_arith)
            requires
                num * w == m * t + f,
                f < t,
                m + 1 <= BITS_24,
        ;
        if e == 0 {
            assert(num < t * (BITS_24 * two_to(0)));
        }
        if e > -149 {
            assert(two_to((-e + 1) as nat) == w * 2);
            assert(num * (w * 2) >= t * BITS_24) by (nonlinear_arith)
                requires
                    num * w >= m * t,
                    2 * m >= BITS_24,
                    t > 0,
            ;
            assert(!fits(num, t, e - 1));
        }
        lemma_unit(num, t, -149, e as int);
        let n = num * w;
        assert(n / t == m && n % t == f) by (nonlinear_arith)
            requires
                n == m * t + f,
                0 <= f < t,
        ;
        if e == 0 {
            assert(t * two_to(0) == t);
        }
    }
    let c: u32 = double(d);
    let more = is_more_than_zero(d);
    assert(c == 1 ==> 2 * f == t + digits_value(d@));
    assert(c == 0 ==> 2 * f == digits_value(d@)) by {
        assert(0 * t == 0);
    }
    proof {
        lemma_digits_below(d@);
    }
    if c == 1 && (more || m % 2 == 1) {
        (m + 1, e)
    } else {
        (m, e)
    }
}

/// A decimal fraction behind a whole number, in single precision: `big` tells
/// that the whole number has more than 128 bits.
pub(crate) fn single_figure(whole: u128, big: bool, d: Vec<u8>, Ghost(num): Ghost<nat>) -> (r: Option<
    (u32, i32),
>)
    requires
        digits_ok(d@),
        big ==> num >= (u128::MAX + 1) * power_of_ten(d@.len()),
        !big ==> num == whole * power_of_ten(d@.len()) + digits_value(d@),
    ensures
        match r {
            Some(x) => single_of(num, power_of_ten(d@.len())) == Some((x.0 as nat, x.1 as int))
                && x.0 <= BITS_24 && -149 <= x.1 <= 104,
            None => single_of(num, power_of_ten(d@.len())) is None,
        },
{
    if big {
        proof {
            let t = power_of_ten(d@.len());
            lemma_largest_unit();
            lemma_ten_positive(d@.len());
            assert(t * (BITS_24 * two_to(104)) == (u128::MAX + 1) * t) by (nonlinear_arith)
                requires
                    two_to(104) * BITS_24 == u128::MAX + 1,
            ;
            assert(!fits(num, t, 104));
            lemma_unit(num, t, -149, 105);
        }
        return None;
    }
    if whole >= BITS_24 as u128 {
        round_large(whole, &d)
    } else {
        let mut rest = d;
        Some(round_small(whole as u32, &mut rest))
    }
}

/// A fraction below one, but not much below the smallest that matter, in single
/// precision: a whole number and the power of two that it is divided by.
pub fn single_part(num: u128, den: u128) -> (r: (u64, u64))
    requires
        0 < num < den,
        den <= 0x10_0000_0000_0000_0000_0000,
        num * 0x1_0000_0000 >= den,
    ensures
        BITS_23 <= r.0 <= BITS_24,
        r.0 <= r.1,
        0 < r.1 <= 0x80_0000_0000_0000,
        num * r.1 < den * BITS_24,
        match single_of(num as nat, den as nat) {
            Some(x) => x.0 == r.0 && -149 <= x.1 <= 0 && two_to((-x.1) as nat) == r.1,
            None => false,
        },
{
    let mut cur: u128 = num;
    let mut p: u64 = 1;
    let mut e: i32 = 0;
    proof {
        assert(two_to(0) == 1);
        assert(num * 1 == num);
    }
    while cur < den * (BITS_23 as u128)
        invariant
            0 < num < den,
            den <= 0x10_0000_0000_0000_0000_0000,
            num * 0x1_0000_0000 >= den,
            0 <= e <= 55,
            p == two_to(e as nat),
            0 < p <= 0x80_0000_0000_0000,
            cur == num * p,
            cur < den * BITS_24,
        decreases 0x100_0000_0000_0000 - p,
    {
        proof {
            assert(p < 0x80_0000_0000_0000) by (nonlinear_arith)
                requires
                    num * p < den * BITS_23,
                    num * 0x1_0000_0000 >= den,
                    num > 0,
                    BITS_23 == 0x80_0000,
            ;
            lemma_two_55();
            if e >= 55 {
                lemma_two_grows(55, e as nat);
            }
            assert(two_to((e + 1) as nat) == two_to(e as nat) * 2);
            lemma_two_grows((e + 1) as nat, 55);
            assert(num * (p * 2) == (num * p) * 2) by (nonlinear_arith);
        }
        cur = cur * 2;
        p = p * 2;
        e = e + 1;
    }
    let q: u128 = cur / den;
    let rest: u128 = cur % den;
    proof {
        let (n, d) = (num as nat, den as nat);
        assert(n * two_to(e as nat) == cur);
        if e == 0 {
            assert(false) by (nonlinear_arith)
                requires
                    num < den,
                    num >= den * BITS_23,
                    BITS_23 >= 1,
            ;
        }
        assert(two_to((e + 1) as nat) == p * 2);
        assert(n * (p * 2) == cur * 2) by (nonlinear_arith)
            requires
                cur == n * p,
        ;
        assert(!fits(n, d, -e - 1));
        lemma_unit(n, d, -149, -e as int);
        assert(BITS_23 <= q < BITS_24) by (nonlinear_arith)
            requires
                q == cur / den,
                den * BITS_23 <= cur < den * BITS_24,
                den > 0,
        ;
        assert(q < p) by (nonlinear_arith)
            requires
                q == cur / den,
                cur == num * p,
                num < den,
                p > 0,
                den > 0,
        ;
    }
    if rest > den - rest || (rest == den - rest && q % 2 == 1) {
        (q as u64 + 1, p)
    } else {
        (q as u64, p)
    }
}

pub proof fn lemma_two_55()
    ensures
        two_to(55) == 0x80_0000_0000_0000,
{
    assert(two_to(26) == 67108864 && two_to(3) == 8) by {
        reveal_with_fuel(two_to, 27);
    }
    lemma_two_adds(26, 26);
    lemma_two_adds(52, 3);
}

proof fn lemma_unit_found(num: nat, den: nat, e: int, f: int)
    requires
        e <= f <= 104,
        fits(num, den, f),
    ensures
        e <= unit_from(num, den, e) <= f,
        fits(num, den, unit_from(num, den, e)),
        unit_from(num, den, e) > e ==> !fits(num, den, unit_from(num, den, e) - 1),
    decreases f - e,
{
    if !fits(num, den, e) {
        lemma_unit_found(num, den, e + 1, f);
    }
}

/// A fraction below one that is not too small stays above nothing and at most
/// one in single precision.
pub proof fn lemma_part_stays(num: nat, den: nat)
    requires
        num < den,
        num * 64 >= den,
    ensures
        match single_of(num, den) {
            Some(x) => x.1 <= 0 && 0 < x.0 <= two_to((-x.1) as nat),
            None => false,
        },
{
    assert(two_to(0) == 1);
    assert(den * (BITS_24 * 1) >= den);
    lemma_unit_found(num, den, -149, 0);
    let e = unit_from(num, den, -149);
    let w = two_to((-e) as nat);
    let n = num * w;
    lemma_two_positive((-e) as nat);
    let m = in_units(num, den, e);
    if e == 0 {
        assert(den * two_to(0) == den && num * 1 == num);
    }
    assert(m == half_even(n, den));
    let q = n / den;
    assert(q < w) by (nonlinear_arith)
        requires
            q == n / den,
            n == num * w,
            num < den,
            w > 0,
    ;
    assert(n >= den) by {
        if e > -149 {
            assert(two_to((-e + 1) as nat) == w * 2);
            assert(num * (w * 2) == n * 2) by (nonlinear_arith)
                requires
                    n == num * w,
            ;
            assert(den * BITS_24 >= den * 2);
        } else {
            assert(two_to(6) == 64) by {
                reveal_with_fuel(two_to, 7);
            }
            lemma_two_grows(6, 149);
            assert(n >= num * 64) by (nonlinear_arith)
                requires
                    n == num * w,
                    w >= 64,
            ;
        }
    }
    assert(q >= 1) by (nonlinear_arith)
        requires
            q == n / den,
            n >= den,
            den > 0,
    ;
}

/// A whole number of at most 24 bits is kept exactly.
pub proof fn law_small_wholes_are_exact(n: nat)
    requires
        n < BITS_24,
    ensures
        match single_of(n, 1) {
            Some(x) => x.1 <= 0 && x.0 == n * two_to((-x.1) as nat),
            None => false,
        },
{
    assert(two_to(0) == 1);
    lemma_unit_found(n, 1, -149, 0);
    let e = unit_from(n, 1, -149);
    let w = n * two_to((-e) as nat);
    if e == 0 {
        assert(1 * two_to(0) == 1 && n * 1 == n);
    }
    assert(w / 1 == w && w % 1 == 0);
}

} // verus!
