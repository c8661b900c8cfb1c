//! How fast a model generates on a machine, and what a finished run says of the
//! machine.
//!
//! Generation is bound by memory: every token reads the weights once. Rates are
//! exact fractions.

use vstd::prelude::*;
use vstd::slice::slice_subrange;
use crate::figures::{half_even, point_text, round_half_even, round_scaled, scaled, write_point};
use crate::single::{
    digits_ok, digits_value, lemma_digits_push, lemma_part_stays, lemma_two_55, lemma_two_grows,
    lemma_unit, power_of_ten, single_figure, single_of, single_part, two_to, BITS_24,
};
use crate::text::{
    chars_of, decimal, decimal_text, digit_value, find, first, lemma_first_from, occurs_at,
    upper_text, uppered,
};

verus! {

/// A fraction.
#[derive(Clone, Copy, PartialEq, Eq, Structural, Debug)]
pub struct Ratio {
    pub num: u128,
    pub den: u128,
}

// ---------------------------------------------------------------------------
// What a name says

/// A digit or a decimal point.
pub open spec fn figure_char(c: char) -> bool {
    c == '.' || digit_value(c) is Some
}

fn is_figure_char(c: char) -> (r: bool)
    ensures
        r == figure_char(c),
{
    c == '.' || (c >= '0' && c <= '9')
}

/// How many characters of a figure a text begins with.
pub open spec fn figure_start(s: Seq<char>) -> nat
    decreases s.len(),
{
    if s.len() == 0 || !figure_char(s[0]) {
        0
    } else {
        1 + figure_start(s.skip(1))
    }
}

/// How many characters of a figure a text ends with.
pub open spec fn figure_end(s: Seq<char>) -> nat
    decreases s.len(),
{
    if s.len() == 0 || !figure_char(s.last()) {
        0
    } else {
        1 + figure_end(s.drop_last())
    }
}

/// What a name says of a mixture of experts, such as `30B-A3B`: the figures for
/// all parameters and for the active ones.
pub open spec fn expert_figures(name: Seq<char>) -> Option<(Seq<char>, Seq<char>)> {
    let n = uppered(name);
    match first(n, "B-A"@) {
        Some(i) => {
            let front = n.take(i);
            let back = n.skip(i + 3);
            Some((front.skip(front.len() - figure_end(front)), back.take(figure_start(back) as int)))
        },
        None => None,
    }
}

/// How many points a figure has.
pub open spec fn points(s: Seq<char>) -> nat
    decreases s.len(),
{
    if s.len() == 0 {
        0
    } else {
        points(s.drop_last()) + (if s.last() == '.' {
            1nat
        } else {
            0nat
        })
    }
}

/// The digits of a figure as one number.
pub open spec fn mantissa(s: Seq<char>) -> nat
    decreases s.len(),
{
    if s.len() == 0 {
        0
    } else if s.last() == '.' {
        mantissa(s.drop_last())
    } else {
        mantissa(s.drop_last()) * 10 + digit_value(s.last())->0 as nat
    }
}

/// How many digits of a figure stand behind its point.
pub open spec fn decimals(s: Seq<char>) -> nat
    decreases s.len(),
{
    if s.len() == 0 || points(s) == 0 {
        0
    } else {
        decimals(s.drop_last()) + (if s.last() == '.' {
            0nat
        } else {
            1nat
        })
    }
}

/// A figure in single precision; zero where it is none.
pub open spec fn figure_value(s: Seq<char>) -> Option<(nat, int)> {
    if points(s) <= 1 && points(s) < s.len() {
        single_of(mantissa(s), power_of_ten(decimals(s)))
    } else {
        Some((0, -149))
    }
}

/// Two hundredths in single precision, in units of 2 to the minus 29.
pub const TWO_HUNDREDTHS: u64 = 10737418;

/// 2 to the 29.
pub const BITS_29: u64 = 536870912;

/// One number over another, both in single precision, before it is rounded.
pub open spec fn quotient(a: (nat, int), b: (nat, int)) -> (nat, nat) {
    if a.1 <= b.1 {
        (a.0, b.0 * two_to((b.1 - a.1) as nat))
    } else {
        (a.0 * two_to((a.1 - b.1) as nat), b.0)
    }
}

/// The share of the active experts with two hundredths for the layers that are
/// always active, in single precision and at most all. A share that is too small
/// to be seen beside the two hundredths is lost.
pub open spec fn with_overhead(num: nat, den: nat) -> (nat, nat) {
    if num * 0x1_0000_0000 < den {
        (TWO_HUNDREDTHS as nat, BITS_29 as nat)
    } else {
        match single_of(num, den) {
            Some(q) => {
                let p = two_to((-q.1) as nat);
                let sum = q.0 * BITS_29 as nat + TWO_HUNDREDTHS as nat * p;
                let unit = p * BITS_29 as nat;
                if sum >= unit {
                    (1, 1)
                } else {
                    match single_of(sum, unit) {
                        Some(x) => (x.0, two_to((-x.1) as nat)),
                        None => (1, 1),
                    }
                }
            },
            None => (1, 1),
        }
    }
}

/// The share of the weights that a token reads, as a fraction: all of them, but
/// where a name tells the active experts of more, those and two hundredths for
/// the layers that are always active.
pub open spec fn active_share(name: Seq<char>) -> (nat, nat) {
    match expert_figures(name) {
        Some(f) => match figure_value(f.1) {
            Some(active) => match figure_value(f.0) {
                Some(total) => {
                    let q = quotient(active, total);
                    if active.0 > 0 && total.0 > 0 && q.0 < q.1 {
                        with_overhead(q.0, q.1)
                    } else {
                        (1, 1)
                    }
                },
                None => if active.0 > 0 {
                    (TWO_HUNDREDTHS as nat, BITS_29 as nat)
                } else {
                    (1, 1)
                },
            },
            None => (1, 1),
        },
        None => (1, 1),
    }
}

proof fn lemma_figure_end(s: Seq<char>)
    ensures
        figure_end(s) <= s.len(),
    decreases s.len(),
{
    if s.len() > 0 && figure_char(s.last()) {
        lemma_figure_end(s.drop_last());
    }
}

proof fn lemma_figure_start(s: Seq<char>)
    ensures
        figure_start(s) <= s.len(),
        forall|k: int| 0 <= k < figure_start(s) ==> figure_char(#[trigger] s[k]),
    decreases s.len(),
{
    if s.len() > 0 && figure_char(s[0]) {
        lemma_figure_start(s.skip(1));
        assert forall|k: int| 0 <= k < figure_start(s) implies figure_char(#[trigger] s[k]) by {
            if k > 0 {
                assert(s.skip(1)[k - 1] == s[k]);
            }
        }
    }
}

fn leading(s: &[char]) -> (r: usize)
    ensures
        r == figure_start(s@),
        r <= s.len(),
{
    let mut i: usize = 0;
    assert(s@.skip(0) =~= s@);
    while i < s.len() && is_figure_char(s[i])
        invariant
            i <= s.len(),
            figure_start(s@) == i + figure_start(s@.skip(i as int)),
        decreases s.len() - i,
    {
        assert(s@.skip(i as int).skip(1) =~= s@.skip(i + 1));
        i += 1;
    }
    i
}

fn trailing(s: &[char]) -> (r: usize)
    ensures
        r == figure_end(s@),
        r <= s.len(),
{
    let mut i: usize = s.len();
    assert(s@.take(i as int) =~= s@);
    while i > 0 && is_figure_char(s[i - 1])
        invariant
            i <= s.len(),
            figure_end(s@) == (s.len() - i) + figure_end(s@.take(i as int)),
        decreases i,
    {
        assert(s@.take(i as int).drop_last() =~= s@.take(i - 1));
        i -= 1;
    }
    s.len() - i
}

/// The figures in a name, cut out.
fn figures_in(name: &str) -> (r: Option<(Vec<char>, Vec<char>)>)
    ensures
        match r {
            Some(f) => expert_figures(name@) == Some((f.0@, f.1@)),
            None => expert_figures(name@) is None,
        },
{
    let upper = upper_text(name);
    let n = chars_of(upper.as_str());
    let mark = chars_of("B-A");
    proof {
        reveal_strlit("B-A");
    }
    match find(n.as_slice(), mark.as_slice()) {
        Some(i) => {
            let front = slice_subrange(n.as_slice(), 0, i);
            let back = slice_subrange(n.as_slice(), i + 3, n.len());
            assert(front@ =~= n@.take(i as int));
            assert(back@ =~= n@.skip(i + 3));
            let e: usize = trailing(front);
            let b: usize = leading(back);
            let mut total: Vec<char> = Vec::new();
            let mut active: Vec<char> = Vec::new();
            crate::text::push_all(&mut total, slice_subrange(front, front.len() - e, front.len()));
            crate::text::push_all(&mut active, slice_subrange(back, 0, b));
            assert(total@ =~= front@.skip(front@.len() - figure_end(front@)));
            assert(active@ =~= back@.take(figure_start(back@) as int));
            Some((total, active))
        },
        None => None,
    }
}

fn value_of(s: &Vec<char>) -> (r: Option<(u32, i32)>)
    requires
        forall|k: int| 0 <= k < s@.len() ==> figure_char(#[trigger] s@[k]),
    ensures
        match r {
            Some(x) => figure_value(s@) == Some((x.0 as nat, x.1 as int)) && x.0 <= BITS_24 && -149
                <= x.1 <= 104,
            None => figure_value(s@) is None,
        },
{
    let mut whole: u128 = 0;
    let mut big: bool = false;
    let mut rest: Vec<u8> = Vec::new();
    let mut dots: usize = 0;
    let mut i: usize = 0;
    proof {
        assert(s@.take(0) =~= seq![]);
        assert(power_of_ten(0) == 1);
        assert(0 * power_of_ten(0) == 0);
    }
    while i < s.len()
        invariant
            i <= s.len(),
            forall|k: int| 0 <= k < s@.len() ==> figure_char(#[trigger] s@[k]),
            dots == points(s@.take(i as int)),
            dots <= i,
            digits_ok(rest@),
            rest@.len() == decimals(s@.take(i as int)),
            dots == 0 ==> rest@.len() == 0,
            big ==> mantissa(s@.take(i as int)) >= (u128::MAX + 1) * power_of_ten(rest@.len()),
            !big ==> mantissa(s@.take(i as int)) == whole * power_of_ten(rest@.len())
                + digits_value(rest@),
        decreases s.len() - i,
    {
        let ghost before = s@.take(i as int);
        let ghost now = s@.take(i + 1);
        let ghost t = power_of_ten(rest@.len());
        assert(now.drop_last() =~= before);
        assert(now.last() == s@[i as int]);
        assert(figure_char(s@[i as int]));
        if s[i] == '.' {
            dots += 1;
            assert(rest@.len() == decimals(now));
        } else {
            let digit: u8 = (s[i] as u32 - '0' as u32) as u8;
            assert(digit_value(s@[i as int]) == Some(digit as int));
            assert(mantissa(now) == mantissa(before) * 10 + digit);
            if dots == 0 {
                assert(t == 1);
                assert(digits_value(rest@) == 0);
                assert((u128::MAX + 1) * t == u128::MAX + 1);
                assert(!big ==> mantissa(before) == whole) by {
                    assert(whole * 1 == whole);
                }
                if big || whole > u128::MAX / 10 || whole * 10 > u128::MAX - digit as u128 {
                    big = true;
                } else {
                    whole = whole * 10 + digit as u128;
                    assert(whole * t == whole) by (nonlinear_arith)
                        requires
                            t == 1,
                    ;
                }
            } else {
                let ghost old_rest = rest@;
                proof {
                    lemma_digits_push(old_rest, digit);
                    assert(power_of_ten((old_rest.len() + 1) as nat) == t * 10);
                    if big {
                        assert(mantissa(before) * 10 >= (u128::MAX + 1) * (t * 10))
                            by (nonlinear_arith)
                            requires
                                mantissa(before) >= (u128::MAX + 1) * t,
                        ;
                    } else {
                        assert((whole * t) * 10 == whole * (t * 10)) by (nonlinear_arith);
                    }
                }
                rest.push(digit);
            }
        }
        i += 1;
    }
    assert(s@.take(i as int) =~= s@);
    if dots <= 1 && dots < s.len() {
        single_figure(whole, big, rest, Ghost(mantissa(s@)))
    } else {
        Some((0, -149))
    }
}

fn two_power(k: u32) -> (r: u128)
    requires
        k <= 57,
    ensures
        r == two_to(k as nat),
        0 < r <= 0x200_0000_0000_0000,
{
    let mut r: u128 = 1;
    let mut i: u32 = 0;
    assert(two_to(0) == 1);
    proof {
        lemma_two_55();
        assert(two_to(57) == 0x200_0000_0000_0000) by {
            assert(two_to(56) == two_to(55) * 2);
        }
    }
    while i < k
        invariant
            i <= k <= 57,
            r == two_to(i as nat),
            two_to(57) == 0x200_0000_0000_0000,
        decreases k - i,
    {
        proof {
            assert(two_to((i + 1) as nat) == two_to(i as nat) * 2);
            lemma_two_grows((i + 1) as nat, 57);
        }
        r = r * 2;
        i += 1;
    }
    proof {
        lemma_two_grows(k as nat, 57);
    }
    r
}

fn add_overhead(num: u128, den: u128) -> (r: Ratio)
    requires
        0 < num < den <= 0x2_0000_0000_0000_0000_0000,
    ensures
        (r.num as nat, r.den as nat) == with_overhead(num as nat, den as nat),
        0 < r.num <= r.den <= 0x4000_0000,
        r.num <= BITS_29,
        r.num * 128 >= r.den,
{
    if num * 0x1_0000_0000 < den {
        return Ratio { num: TWO_HUNDREDTHS as u128, den: BITS_29 as u128 };
    }
    let (q, p) = single_part(num, den);
    let sum: u128 = q as u128 * BITS_29 as u128 + TWO_HUNDREDTHS as u128 * p as u128;
    let unit: u128 = p as u128 * BITS_29 as u128;
    if sum >= unit {
        return Ratio { num: 1, den: 1 };
    }
    assert(sum * 0x1_0000_0000 >= unit);
    let (m, u) = single_part(sum, unit);
    assert(u < 0x4000_0000) by (nonlinear_arith)
        requires
            sum * u < unit * BITS_24,
            sum >= TWO_HUNDREDTHS * p,
            unit == p * BITS_29,
            p > 0,
            BITS_24 == 16777216,
            BITS_29 == 536870912,
            TWO_HUNDREDTHS == 10737418,
    ;
    Ratio { num: m as u128, den: u as u128 }
}

fn part_of(active: (u32, i32), total: (u32, i32)) -> (r: Ratio)
    requires
        0 < active.0 <= BITS_24,
        0 < total.0 <= BITS_24,
        -149 <= active.1 <= 104,
        -149 <= total.1 <= 104,
    ensures
        ({
            let q = quotient(
                (active.0 as nat, active.1 as int),
                (total.0 as nat, total.1 as int),
            );
            (r.num as nat, r.den as nat) == if q.0 < q.1 {
                with_overhead(q.0, q.1)
            } else {
                (1, 1)
            }
        }),
        0 < r.num <= r.den <= 0x4000_0000,
        r.num <= BITS_29,
        r.num * 128 >= r.den,
{
    let a: u128 = active.0 as u128;
    let t: u128 = total.0 as u128;
    proof {
        lemma_two_55();
        assert(two_to(56) == two_to(55) * 2 && two_to(57) == two_to(56) * 2);
    }
    if active.1 <= total.1 {
        let k: u32 = (total.1 - active.1) as u32;
        if k >= 57 {
            proof {
                lemma_two_grows(57, k as nat);
                let w = two_to(k as nat);
                assert(t * w >= w) by (nonlinear_arith)
                    requires
                        t >= 1,
                        w >= 0,
                ;
            }
            return Ratio { num: TWO_HUNDREDTHS as u128, den: BITS_29 as u128 };
        }
        let w: u128 = two_power(k);
        assert(0 < t * w <= 0x2_0000_0000_0000_0000_0000) by (nonlinear_arith)
            requires
                1 <= t <= 16777216,
                1 <= w <= 0x200_0000_0000_0000,
        ;
        let den: u128 = t * w;
        if a < den {
            add_overhead(a, den)
        } else {
            Ratio { num: 1, den: 1 }
        }
    } else {
        let k: u32 = (active.1 - total.1) as u32;
        if k >= 25 {
            proof {
                assert(two_to(25) == 33554432) by {
                    reveal_with_fuel(two_to, 26);
                }
                lemma_two_grows(25, k as nat);
                let w = two_to(k as nat);
                assert(a * w >= w) by (nonlinear_arith)
                    requires
                        a >= 1,
                        w >= 0,
                ;
            }
            return Ratio { num: 1, den: 1 };
        }
        let w: u128 = two_power(k);
        assert(0 < a * w <= 16777216 * 0x200_0000_0000_0000) by (nonlinear_arith)
            requires
                1 <= a <= 16777216,
                1 <= w <= 0x200_0000_0000_0000,
        ;
        let num: u128 = a * w;
        if num < t {
            add_overhead(num, t)
        } else {
            Ratio { num: 1, den: 1 }
        }
    }
}

/// The share of the weights that a token reads.
pub fn active_fraction(name: &str) -> (r: Ratio)
    ensures
        (r.num as nat, r.den as nat) == active_share(name@),
        0 < r.num <= r.den <= 0x4000_0000,
        r.num <= BITS_29,
        r.num * 128 >= r.den,
{
    match figures_in(name) {
        Some(f) => {
            proof {
                let n = uppered(name@);
                let i = first(n, "B-A"@)->0;
                lemma_first_from(n, "B-A"@, 0);
                reveal_strlit("B-A");
                lemma_figure_start(n.skip(i + 3));
                lemma_figure_end(n.take(i));
                lemma_end_chars(n.take(i));
            }
            match value_of(&f.1) {
                Some(active) => {
                    if active.0 == 0 {
                        return Ratio { num: 1, den: 1 };
                    }
                    match value_of(&f.0) {
                        Some(total) => {
                            if total.0 == 0 {
                                return Ratio { num: 1, den: 1 };
                            }
                            part_of(active, total)
                        },
                        None => Ratio { num: TWO_HUNDREDTHS as u128, den: BITS_29 as u128 },
                    }
                },
                None => Ratio { num: 1, den: 1 },
            }
        },
        None => Ratio { num: 1, den: 1 },
    }
}

proof fn lemma_end_chars(s: Seq<char>)
    ensures
        figure_end(s) <= s.len(),
        forall|k: int|
            s.len() - figure_end(s) <= k < s.len() ==> figure_char(#[trigger] s[k]),
    decreases s.len(),
{
    if s.len() > 0 && figure_char(s.last()) {
        lemma_end_chars(s.drop_last());
        assert forall|k: int| s.len() - figure_end(s) <= k < s.len() implies figure_char(
            #[trigger] s[k],
        ) by {
            if k < s.len() - 1 {
                assert(s.drop_last()[k] == s[k]);
            }
        }
    }
}

// ---------------------------------------------------------------------------
// Rates

/// The bytes that a token reads, as a fraction: the weights once, without the
/// experts that stay idle.
pub open spec fn bytes_read(name: Seq<char>, size: nat) -> (nat, nat) {
    let f = active_share(name);
    (size * f.0, f.1)
}

/// The bytes that a token reads.
pub fn bytes_per_token(name: &str, size: u64) -> (r: Ratio)
    ensures
        (r.num as nat, r.den as nat) == bytes_read(name@, size as nat),
        r.num <= size * r.den,
        r.den > 0,
        size > 0 ==> r.num > 0,
{
    let f = active_fraction(name);
    let n: u128 = f.num;
    proof {
        let (x, y, z) = (size as int, f.num as int, f.den as int);
        assert(0 <= x * y <= 0xffff_ffff_ffff_ffff * 536870912 && x * y <= x * z)
            by (nonlinear_arith)
            requires
                0 <= x <= 0xffff_ffff_ffff_ffff,
                0 < y <= 536870912,
                y <= z,
        ;
        assert(x > 0 ==> x * y > 0) by (nonlinear_arith)
            requires
                y > 0,
        ;
    }
    Ratio { num: size as u128 * n, den: f.den }
}

/// The tokens per second that a machine is expected to reach with a model: four
/// fifths of its bandwidth over the bytes that a token reads.
pub fn est_tokens_per_sec(name: &str, size: u64, mem_bandwidth: u64) -> (r: Option<Ratio>)
    ensures
        match r {
            Some(t) => size > 0 && mem_bandwidth > 0 && t.num == mem_bandwidth * 4 * bytes_read(
                name@,
                size as nat,
            ).1 && t.den == 5 * bytes_read(name@, size as nat).0 && t.num > 0 && t.den > 0,
            None => size == 0 || mem_bandwidth == 0,
        },
{
    if size == 0 || mem_bandwidth == 0 {
        return None;
    }
    let f = active_fraction(name);
    let bytes = bytes_per_token(name, size);
    let b: u128 = mem_bandwidth as u128 * 4;
    proof {
        let (x, y, z) = (b as int, f.den as int, size as int);
        assert(0 < x * y <= 0xffff_ffff_ffff_ffff * 4 * 0x4000_0000) by (nonlinear_arith)
            requires
                0 < x <= 0xffff_ffff_ffff_ffff * 4,
                0 < y <= 0x4000_0000,
        ;
        assert(z * y <= 0xffff_ffff_ffff_ffff * 0x4000_0000) by (nonlinear_arith)
            requires
                0 < z <= 0xffff_ffff_ffff_ffff,
                0 < y <= 0x4000_0000,
        ;
    }
    Some(Ratio { num: b * f.den, den: 5 * bytes.num })
}

/// The bandwidth that a run at a rate implies.
pub open spec fn implied(name: Seq<char>, size: nat, num: nat, den: nat) -> nat {
    let bytes = bytes_read(name, size);
    (bytes.0 * num * 5) / (bytes.1 * den * 4)
}

/// The inverse: what bandwidth a finished run implies, at most what a number can
/// hold.
pub fn bandwidth_from_run(name: &str, size: u64, tok_per_sec: Ratio) -> (r: Option<u64>)
    ensures
        match r {
            Some(b) => size > 0 && tok_per_sec.num > 0 && tok_per_sec.den > 0 && b == ({
                let x = implied(
                    name@,
                    size as nat,
                    tok_per_sec.num as nat,
                    tok_per_sec.den as nat,
                );
                if x <= u64::MAX {
                    x
                } else {
                    u64::MAX as nat
                }
            }),
            None => size == 0 || tok_per_sec.num == 0 || tok_per_sec.den == 0,
        },
{
    if size == 0 || tok_per_sec.num == 0 || tok_per_sec.den == 0 {
        return None;
    }
    let f = active_fraction(name);
    let n: u128 = tok_per_sec.num;
    let d: u128 = tok_per_sec.den;
    let whole: u128 = n / d;
    let part: u128 = n % d;
    let most: u128 = 128 * (u64::MAX as u128);
    let ghost (s, m, u) = (size as int, f.num as int, f.den as int);
    let ghost top = (s * m) * n * 5;
    let ghost bottom = u * d * 4;
    proof {
        assert(n == whole * d + part) by (nonlinear_arith)
            requires
                whole == n / d,
                part == n % d,
                d > 0,
        ;
        assert(bottom > 0) by (nonlinear_arith)
            requires
                bottom == u * d * 4,
                u > 0,
                d > 0,
        ;
        assert(implied(name@, size as nat, n as nat, d as nat) == top / bottom);
    }
    if whole > most / (size as u128) {
        proof {
            assert(s * whole >= most) by (nonlinear_arith)
                requires
                    whole >= most / (size as u128) + 1,
                    s == size,
                    size > 0,
            ;
            lemma_saturates(s, m, u, n as int, d as int, whole as int, most as int);
        }
        return Some(u64::MAX);
    }
    assert(s * whole <= most) by (nonlinear_arith)
        requires
            whole <= most / (size as u128),
            s == size,
            size > 0,
            whole >= 0,
    ;
    assert(part * size <= d * u64::MAX) by (nonlinear_arith)
        requires
            0 <= part < d,
            0 <= size <= u64::MAX,
    ;
    let (q, rest) = scaled(part, size, d);
    let all: u128 = size as u128 * whole + q;
    let five: u64 = 5 * (f.num as u64);
    assert(rest * five <= d * u64::MAX) by (nonlinear_arith)
        requires
            0 <= rest < d,
            0 <= five <= u64::MAX,
    ;
    let (more, last) = scaled(rest, five, d);
    let ghost (a, v, w) = (all as int, five as int, more as int);
    proof {
        assert(s * n == a * d + rest) by (nonlinear_arith)
            requires
                n == whole * d + part,
                part * s == q * d + rest,
                a == s * whole + q,
        ;
        assert(0 <= a * v <= 0x81_0000_0000_0000_0000 * 2684354560) by (nonlinear_arith)
            requires
                0 <= a <= 0x81_0000_0000_0000_0000,
                0 <= v <= 2684354560,
        ;
        assert(w <= v) by (nonlinear_arith)
            requires
                rest * v == w * d + last,
                0 <= rest < d,
                last >= 0,
                v >= 0,
        ;
        assert(top == (a * v + w) * d + last) by (nonlinear_arith)
            requires
                top == (s * m) * n * 5,
                s * n == a * d + rest,
                v == 5 * m,
                rest * v == w * d + last,
        ;
        let e = a * v + w;
        let k = e / (4 * u);
        assert(4 * u * k <= e < 4 * u * k + 4 * u) by (nonlinear_arith)
            requires
                k == e / (4 * u),
                u > 0,
        ;
        assert(top / bottom == k) by (nonlinear_arith)
            requires
                top == e * d + last,
                bottom == u * d * 4,
                0 <= last < d,
                4 * u * k <= e,
                e + 1 <= 4 * u * k + 4 * u,
                u > 0,
        ;
    }
    let x: u128 = (all * five as u128 + more) / (4 * f.den);
    if x <= u64::MAX as u128 {
        Some(x as u64)
    } else {
        Some(u64::MAX)
    }
}

/// A run that moves `most` bytes in the time of a token implies more than any
/// number can hold, whatever the share of them that was read.
proof fn lemma_saturates(s: int, m: int, u: int, n: int, d: int, whole: int, most: int)
    requires
        s > 0,
        0 < m <= u,
        m * 128 >= u,
        d > 0,
        n >= whole * d,
        s * whole >= most,
        most == 128 * u64::MAX,
    ensures
        ((s * m) * n * 5) / (u * d * 4) >= u64::MAX,
{
    let top = (s * m) * n * 5;
    let bottom = u * d * 4;
    let big = u64::MAX as int;
    assert(s * n >= (128 * big) * d) by (nonlinear_arith)
        requires
            n >= whole * d,
            s * whole >= 128 * big,
            s > 0,
            d > 0,
    ;
    let sn = s * n;
    assert(top == sn * m * 5) by (nonlinear_arith)
        requires
            top == (s * m) * n * 5,
            sn == s * n,
    ;
    assert(sn * m >= (big * d) * (128 * m)) by (nonlinear_arith)
        requires
            sn >= (128 * big) * d,
            m > 0,
    ;
    assert((big * d) * (128 * m) >= (big * d) * u) by (nonlinear_arith)
        requires
            128 * m >= u,
            big >= 0,
            d > 0,
    ;
    assert((big * d) * u * 4 == big * bottom) by (nonlinear_arith)
        requires
            bottom == u * d * 4,
    ;
    assert(top >= big * bottom);
    assert(bottom > 0) by (nonlinear_arith)
        requires
            bottom == u * d * 4,
            u > 0,
            d > 0,
    ;
    assert(top / bottom >= big) by (nonlinear_arith)
        requires
            top >= big * bottom,
            bottom > 0,
    ;
}

pub open spec fn rate_text(num: nat, den: nat) -> Seq<char> {
    if num >= 10 * den {
        "~"@ + decimal(half_even(num, den)) + " t/s"@
    } else if 10 * num >= 3 * den {
        "~"@ + point_text(half_even(num * 10, den), 1) + " t/s"@
    } else {
        "<0.3 t/s"@
    }
}

/// A rate for people.
pub fn fmt_tok_s(est: Option<Ratio>) -> (r: String)
    requires
        est matches Some(t) ==> t.den > 0,
    ensures
        r@ == match est {
            Some(t) => rate_text(t.num as nat, t.den as nat),
            None => "—"@,
        },
{
    match est {
        Some(t) => {
            let whole: u128 = t.num / t.den;
            let ghost (n, d) = (t.num as int, t.den as int);
            assert(n >= 10 * d <==> whole >= 10) by (nonlinear_arith)
                requires
                    whole == n / d,
                    d > 0,
            ;
            if whole >= 10 {
                let mut s: String = "~".to_owned();
                s.append(decimal_text(round_half_even(t.num, t.den)).as_str());
                s.append(" t/s");
                s
            } else {
                let (tenths, rest) = scaled(t.num, 10, t.den);
                assert(10 * n >= 3 * d <==> tenths >= 3) by (nonlinear_arith)
                    requires
                        n * 10 == tenths * d + rest,
                        0 <= rest < d,
                ;
                if tenths >= 3 {
                    let mut s: String = "~".to_owned();
                    s.append(write_point(round_scaled(t.num, 10, t.den), 1).as_str());
                    s.append(" t/s");
                    s
                } else {
                    "<0.3 t/s".to_owned()
                }
            }
        },
        None => "—".to_owned(),
    }
}

// ---------------------------------------------------------------------------
// Laws

/// A run at the rate that is expected of a bandwidth implies that bandwidth: the
/// measurement and the estimate are inverses.
pub proof fn law_measurement_inverts_the_estimate(name: Seq<char>, size: nat, bandwidth: nat)
    requires
        size > 0,
    ensures
        ({
            let bytes = bytes_read(name, size);
            implied(name, size, bandwidth * 4 * bytes.1, 5 * bytes.0) == bandwidth
        }),
{
    law_reads_no_more_than_the_weights(name, size);
    let (a, b) = (bytes_read(name, size).0 as int, bytes_read(name, size).1 as int);
    let w = bandwidth as int;
    let top = a * (w * 4 * b) * 5;
    let bottom = b * (5 * a) * 4;
    assert(top == w * bottom && bottom > 0) by (nonlinear_arith)
        requires
            top == a * (w * 4 * b) * 5,
            bottom == b * (5 * a) * 4,
            a > 0,
            b > 0,
    ;
    assert(top / bottom == w) by (nonlinear_arith)
        requires
            top == w * bottom,
            bottom > 0,
    ;
}

/// The constant for two hundredths is the number of single precision next to
/// them.
pub proof fn law_two_hundredths()
    ensures
        single_of(1, 50) == Some((TWO_HUNDREDTHS as nat, -29int)),
{
    assert(two_to(29) == 536870912 && two_to(30) == 1073741824) by {
        reveal_with_fuel(two_to, 31);
    }
    lemma_unit(1, 50, -149, -29);
}

proof fn lemma_share(name: Seq<char>)
    ensures
        0 < active_share(name).0 <= active_share(name).1,
{
    match expert_figures(name) {
        Some(f) => {
            let (total, active) = (figure_value(f.0), figure_value(f.1));
            if total is Some && active is Some {
                let q = quotient(active->0, total->0);
                lemma_with_overhead(q.0, q.1);
            }
        },
        None => {},
    }
}

proof fn lemma_with_overhead(num: nat, den: nat)
    ensures
        0 < with_overhead(num, den).0 <= with_overhead(num, den).1,
{
    if num * 0x1_0000_0000 >= den && single_of(num, den) is Some {
        let q = single_of(num, den)->0;
        let p = two_to((-q.1) as nat);
        lemma_two_grows(0, (-q.1) as nat);
        let sum = q.0 * BITS_29 as nat + TWO_HUNDREDTHS as nat * p;
        let unit = p * BITS_29 as nat;
        if sum < unit {
            lemma_part_stays(sum, unit);
        }
    }
}

/// A token reads some of the weights and no more than all of them.
pub proof fn law_reads_no_more_than_the_weights(name: Seq<char>, size: nat)
    ensures
        ({
            let bytes = bytes_read(name, size);
            &&& bytes.1 > 0
            &&& bytes.0 <= size * bytes.1
            &&& size > 0 ==> bytes.0 > 0
        }),
{
    lemma_share(name);
    let f = active_share(name);
    let (x, y, z) = (size as int, f.0 as int, f.1 as int);
    assert(x * y <= x * z && (x > 0 ==> x * y > 0)) by (nonlinear_arith)
        requires
            x >= 0,
            0 < y <= z,
    ;
}

/// A model whose name tells of no experts is read whole for every token.
pub proof fn law_dense_models_are_read_whole(name: Seq<char>, size: nat)
    requires
        expert_figures(name) is None,
    ensures
        bytes_read(name, size) == (size, 1nat),
{
    assert(active_share(name) == (1nat, 1nat));
    assert(size * 1 == size);
}

proof fn lemma_figures_end(s: Seq<char>, t: Seq<char>)
    requires
        s.len() == 0 || !figure_char(s.last()),
        forall|k: int| 0 <= k < t.len() ==> figure_char(#[trigger] t[k]),
    ensures
        figure_end(s + t) == t.len(),
    decreases t.len(),
{
    let u = s + t;
    if t.len() > 0 {
        let r = t.drop_last();
        assert forall|k: int| 0 <= k < r.len() implies figure_char(#[trigger] r[k]) by {
            assert(r[k] == t[k]);
        }
        lemma_figures_end(s, r);
        assert(u.drop_last() =~= s + r);
        assert(u.last() == t[t.len() - 1]);
    } else {
        assert(u =~= s);
    }
}

proof fn lemma_figures_start(t: Seq<char>, s: Seq<char>)
    requires
        s.len() == 0 || !figure_char(s[0]),
        forall|k: int| 0 <= k < t.len() ==> figure_char(#[trigger] t[k]),
    ensures
        figure_start(t + s) == t.len(),
    decreases t.len(),
{
    let u = t + s;
    if t.len() > 0 {
        let r = t.skip(1);
        assert forall|k: int| 0 <= k < r.len() implies figure_char(#[trigger] r[k]) by {
            assert(r[k] == t[k + 1]);
        }
        lemma_figures_start(r, s);
        assert(u.skip(1) =~= r + s);
        assert(u[0] == t[0]);
    } else {
        assert(u =~= s);
    }
}

/// A name tells of experts by the figures around the first `B-A`: all that stand
/// directly before it, and all directly behind.
pub proof fn law_figures_stand_around_the_mark(
    pre: Seq<char>,
    total: Seq<char>,
    active: Seq<char>,
    post: Seq<char>,
)
    requires
        ({
            let s = pre + total + "B-A"@ + active + post;
            &&& uppered(s) == s
            &&& forall|k: int| 0 <= k < pre.len() + total.len() ==> !occurs_at(s, "B-A"@, k)
        }),
        pre.len() == 0 || !figure_char(pre.last()),
        post.len() == 0 || !figure_char(post[0]),
        forall|k: int| 0 <= k < total.len() ==> figure_char(#[trigger] total[k]),
        forall|k: int| 0 <= k < active.len() ==> figure_char(#[trigger] active[k]),
    ensures
        expert_figures(pre + total + "B-A"@ + active + post) == Some((total, active)),
        forall|c: char| #[trigger] figure_char(c) <==> c == '.' || 48 <= c as u32 <= 57,
{
    reveal_strlit("B-A");
    let s = pre + total + "B-A"@ + active + post;
    let n = (pre.len() + total.len()) as int;
    lemma_first_from(s, "B-A"@, 0);
    assert(s.subrange(n, n + 3) =~= "B-A"@);
    assert(occurs_at(s, "B-A"@, n));
    assert(first(s, "B-A"@) == Some(n));
    let front = s.take(n);
    let back = s.skip(n + 3);
    assert(front =~= pre + total);
    assert(back =~= active + post);
    lemma_figures_end(pre, total);
    lemma_figures_start(active, post);
    assert(front.skip(front.len() - total.len()) =~= total);
    assert(back.take(active.len() as int) =~= active);
}

/// A figure reads as the number that it writes: its digits as one number, over ten
/// for each behind its point.
pub proof fn law_figures_read_as_they_are_written(n: nat, d: Seq<char>, x: char)
    ensures
        mantissa(decimal(n)) == n,
        decimals(decimal(n)) == 0,
        points(decimal(n)) == 0,
        mantissa(d.push('.')) == mantissa(d),
        points(d.push('.')) == points(d) + 1,
        points(d) == 0 ==> decimals(d.push('.')) == 0,
        48 <= x as u32 <= 57 ==> mantissa(d.push(x)) == mantissa(d) * 10 + (x as u32 - 48) as nat,
        48 <= x as u32 <= 57 && points(d) > 0 ==> decimals(d.push(x)) == decimals(d) + 1,
    decreases n,
{
    assert(d.push('.').drop_last() =~= d);
    assert(d.push(x).drop_last() =~= d);
    if points(d) == 0 {
        lemma_no_decimals(d);
    }
    let s = decimal(n);
    if n < 10 {
        assert(s.drop_last() =~= Seq::<char>::empty());
        assert(digit_value(s[0]) == Some(n as int));
        assert(mantissa(Seq::<char>::empty()) == 0 && points(Seq::<char>::empty()) == 0);
    } else {
        law_figures_read_as_they_are_written(n / 10, d, x);
        assert(s.drop_last() =~= decimal(n / 10));
        assert(digit_value(s.last()) == Some((n % 10) as int));
    }
}

proof fn lemma_no_decimals(d: Seq<char>)
    requires
        points(d) == 0,
    ensures
        decimals(d) == 0,
{
}

/// A rate is told to the token from ten on, to the tenth from three tenths on, and
/// as less below.
pub proof fn law_rates_are_told(num: nat, den: nat)
    requires
        den > 0,
    ensures
        num >= 10 * den ==> rate_text(num, den) == "~"@ + decimal(half_even(num, den)) + " t/s"@,
        num < 10 * den && 10 * num >= 3 * den ==> rate_text(num, den) == "~"@ + point_text(
            half_even(num * 10, den),
            1,
        ) + " t/s"@,
        10 * num < 3 * den ==> rate_text(num, den) == "<0.3 t/s"@,
{
}

/// Models of one size are read the faster, the smaller the share of their experts
/// is: a name that tells of none is read whole, one that does at least in part.
pub proof fn law_experts_are_read_in_part(name: Seq<char>, size: nat)
    requires
        size > 0,
    ensures
        ({
            let f = active_share(name);
            let b = bytes_read(name, size);
            &&& b.0 * f.1 == size * f.0 * b.1
            &&& f.0 <= f.1
        }),
        expert_figures(name) is None ==> active_share(name) == (1nat, 1nat),
{
    lemma_share(name);
}

} // verus!
