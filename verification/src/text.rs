//! Text as a sequence of characters: searching, trimming, splitting, replacing
//! and writing numbers.

use vstd::prelude::*;
use vstd::slice::slice_subrange;
use vstd::utf8::{encode_scalar, encode_utf8};

verus! {

/// `std::string::String::push`: appends one character at the end.
pub assume_specification[ String::push ](s: &mut String, c: char)
    ensures
        final(s)@ == old(s)@.push(c),
;

// ---------------------------------------------------------------------------
// Conversions

/// The characters of a string.
pub fn chars_of(s: &str) -> (r: Vec<char>)
    ensures
        r@ == s@,
{
    let mut r: Vec<char> = Vec::new();
    for c in it: s.chars()
        invariant
            r@ == it.seq().take(it.index()),
            it.seq() == s@,
    {
        r.push(c);
        assert(it.seq().take(it.index() + 1) =~= it.seq().take(it.index()).push(c));
    }
    assert(r@ =~= s@);
    r
}

/// A string made of the given characters.
pub fn text_of(s: &[char]) -> (r: String)
    ensures
        r@ == s@,
{
    let mut r: String = String::new();
    let mut i: usize = 0;
    while i < s.len()
        invariant
            i <= s.len(),
            r@ == s@.take(i as int),
        decreases s.len() - i,
    {
        r.push(s[i]);
        assert(s@.take(i + 1) =~= s@.take(i as int).push(s[i as int]));
        i += 1;
    }
    assert(s@.take(i as int) =~= s@);
    r
}

/// The views of a sequence of strings.
pub open spec fn views(v: Seq<String>) -> Seq<Seq<char>> {
    v.map_values(|s: String| s@)
}

/// Whether two texts are equal.
pub fn same(a: &[char], b: &[char]) -> (r: bool)
    ensures
        r == (a@ == b@),
{
    if a.len() != b.len() {
        return false;
    }
    let mut i: usize = 0;
    while i < a.len()
        invariant
            i <= a.len(),
            a.len() == b.len(),
            forall|k: int| 0 <= k < i ==> a@[k] == b@[k],
        decreases a.len() - i,
    {
        if a[i] != b[i] {
            return false;
        }
        i += 1;
    }
    assert(a@ =~= b@);
    true
}

/// Whether two strings hold the same text.
pub fn equal(a: &str, b: &str) -> (r: bool)
    ensures
        r == (a@ == b@),
{
    let x = chars_of(a);
    let y = chars_of(b);
    same(x.as_slice(), y.as_slice())
}

// ---------------------------------------------------------------------------
// Size in bytes

/// How many bytes the UTF-8 form of a text takes.
pub open spec fn byte_len(s: Seq<char>) -> nat {
    encode_utf8(s).len()
}

/// How many bytes the UTF-8 form of one character takes.
pub open spec fn char_width(c: char) -> nat {
    encode_scalar(c as u32).len()
}

pub fn width_of(c: char) -> (r: usize)
    ensures
        r == char_width(c),
        1 <= r <= 4,
{
    let n: u32 = c as u32;
    if n <= 0x7f {
        1
    } else if n <= 0x7ff {
        2
    } else if n <= 0xffff {
        3
    } else {
        4
    }
}

pub fn bytes_in(s: &str) -> (r: usize)
    ensures
        r == byte_len(s@),
{
    s.as_bytes().len()
}

pub proof fn lemma_encode_concat(a: Seq<char>, b: Seq<char>)
    ensures
        encode_utf8(a + b) == encode_utf8(a) + encode_utf8(b),
    decreases a.len(),
{
    if a.len() == 0 {
        assert(a + b =~= b);
        assert(encode_utf8(a) + encode_utf8(b) =~= encode_utf8(b));
    } else {
        lemma_encode_concat(a.drop_first(), b);
        assert((a + b).drop_first() =~= a.drop_first() + b);
        assert(encode_utf8(a + b) =~= encode_utf8(a) + encode_utf8(b));
    }
}

/// How many characters at the start of a text take exactly `n` bytes.
pub open spec fn chars_in_bytes(s: Seq<char>, n: nat) -> Option<int>
    decreases s.len(),
{
    if n == 0 {
        Some(0)
    } else if s.len() == 0 || char_width(s[0]) > n {
        None
    } else {
        match chars_in_bytes(s.skip(1), (n - char_width(s[0])) as nat) {
            Some(k) => Some(k + 1),
            None => None,
        }
    }
}

/// `chars_in_bytes` gives a prefix of the text that takes that many bytes.
pub proof fn lemma_chars_in_bytes(s: Seq<char>, n: nat)
    ensures
        match chars_in_bytes(s, n) {
            Some(k) => 0 <= k <= s.len() && byte_len(s.take(k)) == n,
            None => forall|k: int| 0 <= k <= s.len() ==> byte_len(#[trigger] s.take(k)) != n,
        },
    decreases s.len(),
{
    if n == 0 {
        assert(s.take(0) =~= Seq::<char>::empty());
    } else {
        assert forall|k: int| 0 < k <= s.len() implies byte_len(#[trigger] s.take(k)) == char_width(
            s[0],
        ) + byte_len(s.skip(1).take(k - 1)) by {
            assert(s.take(k).drop_first() =~= s.skip(1).take(k - 1));
        }
        assert(s.take(0) =~= Seq::<char>::empty());
        if s.len() > 0 {
            if char_width(s[0]) <= n {
                lemma_chars_in_bytes(s.skip(1), (n - char_width(s[0])) as nat);
            }
        }
    }
}

/// A character takes one to four bytes.
pub proof fn lemma_byte_len_bounds(s: Seq<char>)
    ensures
        s.len() <= byte_len(s) <= 4 * s.len(),
    decreases s.len(),
{
    if s.len() > 0 {
        lemma_byte_len_bounds(s.drop_first());
    }
}

/// Counts the characters at the start of a text that take exactly `n` bytes.
pub fn count_in_bytes(s: &[char], n: usize) -> (r: Option<usize>)
    ensures
        match r {
            Some(k) => chars_in_bytes(s@, n as nat) == Some(k as int) && k <= s.len(),
            None => chars_in_bytes(s@, n as nat) is None,
        },
{
    let mut left: usize = n;
    let mut i: usize = 0;
    assert(s@.skip(0) =~= s@);
    while left > 0
        invariant
            i <= s.len(),
            chars_in_bytes(s@, n as nat) == match chars_in_bytes(s@.skip(i as int), left as nat) {
                Some(k) => Some(k + i),
                None => None,
            },
        decreases left,
    {
        if i == s.len() {
            return None;
        }
        let w: usize = width_of(s[i]);
        if w > left {
            return None;
        }
        assert(s@.skip(i as int).skip(1) =~= s@.skip(i + 1));
        left -= w;
        i += 1;
    }
    Some(i)
}

// ---------------------------------------------------------------------------
// Searching

/// Whether `p` stands in `s` at position `i`.
pub open spec fn occurs_at(s: Seq<char>, p: Seq<char>, i: int) -> bool {
    0 <= i && i + p.len() <= s.len() && s.subrange(i, i + p.len()) == p
}

/// The first position at or after `from` where `p` stands in `s`.
pub open spec fn first_from(s: Seq<char>, p: Seq<char>, from: int) -> Option<int>
    decreases s.len() + 1 - from,
{
    if from < 0 || from + p.len() > s.len() {
        None
    } else if occurs_at(s, p, from) {
        Some(from)
    } else {
        first_from(s, p, from + 1)
    }
}

/// The first position where `p` stands in `s`.
pub open spec fn first(s: Seq<char>, p: Seq<char>) -> Option<int> {
    first_from(s, p, 0)
}

/// The last position at or before `to` where `p` stands in `s`.
pub open spec fn last_to(s: Seq<char>, p: Seq<char>, to: int) -> Option<int>
    decreases to + 1,
{
    if to < 0 {
        None
    } else if occurs_at(s, p, to) {
        Some(to)
    } else {
        last_to(s, p, to - 1)
    }
}

/// The last position where `p` stands in `s`.
pub open spec fn last(s: Seq<char>, p: Seq<char>) -> Option<int> {
    last_to(s, p, s.len() - p.len())
}

/// Whether `p` stands anywhere in `s`.
pub open spec fn mentions(s: Seq<char>, p: Seq<char>) -> bool {
    first(s, p) is Some
}

pub open spec fn begins(s: Seq<char>, p: Seq<char>) -> bool {
    occurs_at(s, p, 0)
}

pub open spec fn ends(s: Seq<char>, p: Seq<char>) -> bool {
    occurs_at(s, p, s.len() - p.len())
}

/// `first_from` gives the least position at or after `from` where `p` stands.
pub proof fn lemma_first_from(s: Seq<char>, p: Seq<char>, from: int)
    requires
        0 <= from,
    ensures
        match first_from(s, p, from) {
            Some(i) => from <= i && occurs_at(s, p, i) && (forall|k: int|
                from <= k < i ==> !occurs_at(s, p, k)),
            None => forall|k: int| from <= k ==> !occurs_at(s, p, k),
        },
    decreases s.len() + 1 - from,
{
    if from + p.len() > s.len() {
    } else if occurs_at(s, p, from) {
    } else {
        lemma_first_from(s, p, from + 1);
    }
}

/// `last_to` gives the greatest position at or before `to` where `p` stands.
pub proof fn lemma_last_to(s: Seq<char>, p: Seq<char>, to: int)
    ensures
        match last_to(s, p, to) {
            Some(i) => i <= to && occurs_at(s, p, i) && (forall|k: int|
                i < k <= to ==> !occurs_at(s, p, k)),
            None => forall|k: int| k <= to ==> !occurs_at(s, p, k),
        },
    decreases to + 1,
{
    if to < 0 {
    } else if occurs_at(s, p, to) {
    } else {
        lemma_last_to(s, p, to - 1);
    }
}

/// A text holds `p` exactly where `p` stands at some position of it.
pub proof fn lemma_has(s: Seq<char>, p: Seq<char>)
    ensures
        mentions(s, p) <==> exists|i: int| occurs_at(s, p, i),
{
    lemma_first_from(s, p, 0);
}

pub fn stands_at(s: &[char], p: &[char], i: usize) -> (r: bool)
    ensures
        r == occurs_at(s@, p@, i as int),
{
    if i > s.len() || p.len() > s.len() - i {
        return false;
    }
    let mut k: usize = 0;
    while k < p.len()
        invariant
            k <= p.len(),
            i + p.len() <= s.len(),
            forall|j: int| 0 <= j < k ==> s@[i + j] == p@[j],
        decreases p.len() - k,
    {
        if s[i + k] != p[k] {
            assert(s@.subrange(i as int, i + p.len())[k as int] != p@[k as int]);
            return false;
        }
        k += 1;
    }
    assert(s@.subrange(i as int, i + p.len()) =~= p@);
    true
}

pub fn find_from(s: &[char], p: &[char], from: usize) -> (r: Option<usize>)
    ensures
        match r {
            Some(i) => first_from(s@, p@, from as int) == Some(i as int) && from <= i && i + p.len()
                <= s.len(),
            None => first_from(s@, p@, from as int) is None,
        },
{
    if from > s.len() || p.len() > s.len() - from {
        return None;
    }
    let mut i: usize = from;
    while i <= s.len() - p.len()
        invariant
            from <= i,
            p.len() <= s.len(),
            i <= s.len() - p.len() + 1,
            first_from(s@, p@, from as int) == first_from(s@, p@, i as int),
        decreases s.len() - i,
    {
        if stands_at(s, p, i) {
            return Some(i);
        }
        if i == s.len() - p.len() {
            assert(first_from(s@, p@, i + 1) is None);
            return None;
        }
        i += 1;
    }
    None
}

pub fn find(s: &[char], p: &[char]) -> (r: Option<usize>)
    ensures
        match r {
            Some(i) => first(s@, p@) == Some(i as int) && i + p.len() <= s.len(),
            None => first(s@, p@) is None,
        },
{
    find_from(s, p, 0)
}

pub fn rfind(s: &[char], p: &[char]) -> (r: Option<usize>)
    ensures
        match r {
            Some(i) => last(s@, p@) == Some(i as int) && i + p.len() <= s.len(),
            None => last(s@, p@) is None,
        },
{
    if p.len() > s.len() {
        return None;
    }
    let mut i: usize = s.len() - p.len();
    loop
        invariant
            p.len() <= s.len(),
            i <= s.len() - p.len(),
            last(s@, p@) == last_to(s@, p@, i as int),
        decreases i,
    {
        if stands_at(s, p, i) {
            return Some(i);
        }
        if i == 0 {
            assert(last_to(s@, p@, -1) is None);
            return None;
        }
        i -= 1;
    }
}

/// Whether the text holds `p`.
pub fn contains(s: &str, p: &str) -> (r: bool)
    ensures
        r == mentions(s@, p@),
{
    let a = chars_of(s);
    let b = chars_of(p);
    find(a.as_slice(), b.as_slice()).is_some()
}

/// Whether the text begins with `p`.
pub fn starts_with(s: &str, p: &str) -> (r: bool)
    ensures
        r == begins(s@, p@),
{
    let a = chars_of(s);
    let b = chars_of(p);
    stands_at(a.as_slice(), b.as_slice(), 0)
}

/// Whether the text ends with `p`.
pub fn ends_with(s: &str, p: &str) -> (r: bool)
    ensures
        r == ends(s@, p@),
{
    let a = chars_of(s);
    let b = chars_of(p);
    if b.len() > a.len() {
        return false;
    }
    stands_at(a.as_slice(), b.as_slice(), a.len() - b.len())
}

// ---------------------------------------------------------------------------
// Blanks

/// The characters of Unicode's `White_Space` property.
pub open spec fn blank(c: char) -> bool {
    let n = c as u32;
    ||| 0x09 <= n <= 0x0d
    ||| n == 0x20
    ||| n == 0x85
    ||| n == 0xa0
    ||| n == 0x1680
    ||| 0x2000 <= n <= 0x200a
    ||| n == 0x2028
    ||| n == 0x2029
    ||| n == 0x202f
    ||| n == 0x205f
    ||| n == 0x3000
}

pub fn is_blank(c: char) -> (r: bool)
    ensures
        r == blank(c),
{
    let n: u32 = c as u32;
    (0x09 <= n && n <= 0x0d) || n == 0x20 || n == 0x85 || n == 0xa0 || n == 0x1680 || (0x2000 <= n
        && n <= 0x200a) || n == 0x2028 || n == 0x2029 || n == 0x202f || n == 0x205f || n == 0x3000
}

/// The text without the blanks at its start.
pub open spec fn trimmed_start(s: Seq<char>) -> Seq<char>
    decreases s.len(),
{
    if s.len() > 0 && blank(s[0]) {
        trimmed_start(s.skip(1))
    } else {
        s
    }
}

/// The text without the blanks at its end.
pub open spec fn trimmed_end(s: Seq<char>) -> Seq<char>
    decreases s.len(),
{
    if s.len() > 0 && blank(s.last()) {
        trimmed_end(s.drop_last())
    } else {
        s
    }
}

/// The text without the blanks at its two ends.
pub open spec fn trimmed(s: Seq<char>) -> Seq<char> {
    trimmed_end(trimmed_start(s))
}

pub fn trim_start<'a>(s: &'a [char]) -> (r: &'a [char])
    ensures
        r@ == trimmed_start(s@),
{
    let mut i: usize = 0;
    assert(s@.skip(0) =~= s@);
    while i < s.len() && is_blank(s[i])
        invariant
            i <= s.len(),
            trimmed_start(s@) == trimmed_start(s@.skip(i as int)),
        decreases s.len() - i,
    {
        assert(s@.skip(i as int).skip(1) =~= s@.skip(i + 1));
        i += 1;
    }
    assert(s@.subrange(i as int, s@.len() as int) =~= s@.skip(i as int));
    slice_subrange(s, i, s.len())
}

pub fn trim_end<'a>(s: &'a [char]) -> (r: &'a [char])
    ensures
        r@ == trimmed_end(s@),
{
    let mut i: usize = s.len();
    assert(s@.take(i as int) =~= s@);
    while i > 0 && is_blank(s[i - 1])
        invariant
            i <= s.len(),
            trimmed_end(s@) == trimmed_end(s@.take(i as int)),
        decreases i,
    {
        assert(s@.take(i as int).drop_last() =~= s@.take(i - 1));
        i -= 1;
    }
    assert(s@.subrange(0, i as int) =~= s@.take(i as int));
    slice_subrange(s, 0, i)
}

pub fn trim<'a>(s: &'a [char]) -> (r: &'a [char])
    ensures
        r@ == trimmed(s@),
{
    trim_end(trim_start(s))
}

/// A copy of the text without the blanks at its two ends.
pub fn trim_text(s: &str) -> (r: String)
    ensures
        r@ == trimmed(s@),
{
    let v = chars_of(s);
    text_of(trim(v.as_slice()))
}

/// Whether the text holds nothing but blanks.
pub fn is_blank_text(s: &str) -> (r: bool)
    ensures
        r == (trimmed(s@).len() == 0),
{
    let v = chars_of(s);
    trim(v.as_slice()).len() == 0
}

// ---------------------------------------------------------------------------
// Numbers

pub open spec fn digit_char(d: int) -> char {
    (48 + d) as char
}

/// A natural number in decimal digits.
pub open spec fn decimal(n: nat) -> Seq<char>
    decreases n,
{
    if n < 10 {
        seq![digit_char(n as int)]
    } else {
        decimal(n / 10).push(digit_char((n % 10) as int))
    }
}

/// An integer in decimal digits, with a minus sign where it is negative.
pub open spec fn decimal_int(n: int) -> Seq<char> {
    if n < 0 {
        seq!['-'] + decimal((-n) as nat)
    } else {
        decimal(n as nat)
    }
}

pub fn digit_of(d: u8) -> (r: char)
    requires
        d < 10,
    ensures
        r == digit_char(d as int),
{
    (48 + d) as char
}

fn push_decimal(n: u128, out: &mut Vec<char>)
    ensures
        final(out)@ == old(out)@ + decimal(n as nat),
    decreases n,
{
    if n < 10 {
        out.push(digit_of(n as u8));
        assert(out@ =~= old(out)@ + decimal(n as nat));
    } else {
        push_decimal(n / 10, out);
        out.push(digit_of((n % 10) as u8));
        assert(out@ =~= old(out)@ + decimal(n as nat));
    }
}

pub fn decimal_text(n: u128) -> (r: String)
    ensures
        r@ == decimal(n as nat),
{
    let mut v: Vec<char> = Vec::new();
    push_decimal(n, &mut v);
    assert(v@ =~= decimal(n as nat));
    text_of(v.as_slice())
}

pub fn decimal_int_text(n: i64) -> (r: String)
    ensures
        r@ == decimal_int(n as int),
{
    let mut v: Vec<char> = Vec::new();
    if n < 0 {
        v.push('-');
        let m: i128 = -(n as i128);
        push_decimal(m as u128, &mut v);
        assert(v@ =~= decimal_int(n as int));
    } else {
        push_decimal(n as u128, &mut v);
        assert(v@ =~= decimal_int(n as int));
    }
    text_of(v.as_slice())
}

/// The value of a character as a decimal digit.
pub open spec fn digit_value(c: char) -> Option<int> {
    let n = c as u32;
    if 48 <= n <= 57 {
        Some(n - 48)
    } else {
        None
    }
}

/// Whether a text is made of decimal digits, at least one.
pub open spec fn all_digits(s: Seq<char>) -> bool {
    s.len() > 0 && forall|i: int| 0 <= i < s.len() ==> digit_value(#[trigger] s[i]) is Some
}

/// The number that a run of decimal digits writes.
pub open spec fn number_of(s: Seq<char>) -> nat
    decreases s.len(),
{
    if s.len() == 0 {
        0
    } else {
        (number_of(s.drop_last()) * 10 + digit_value(s.last()).unwrap_or(0)) as nat
    }
}

/// The unsigned number, at most `max`, that a text writes: digits, with an
/// optional plus sign before them.
pub open spec fn unsigned_in(s: Seq<char>, max: nat) -> Option<nat> {
    let d = if s.len() > 0 && s[0] == '+' {
        s.skip(1)
    } else {
        s
    };
    if all_digits(d) && number_of(d) <= max {
        Some(number_of(d))
    } else {
        None
    }
}

/// The signed 64-bit number that a text writes: digits, with an optional sign
/// before them.
pub open spec fn signed_in(s: Seq<char>) -> Option<int> {
    if s.len() > 0 && s[0] == '-' {
        let d = s.skip(1);
        if all_digits(d) && number_of(d) <= 0x8000_0000_0000_0000 {
            Some(-(number_of(d) as int))
        } else {
            None
        }
    } else {
        match unsigned_in(s, i64::MAX as nat) {
            Some(n) => Some(n as int),
            None => None,
        }
    }
}

proof fn lemma_number_of_prefix(s: Seq<char>, k: int)
    requires
        0 <= k <= s.len(),
    ensures
        number_of(s.take(k)) <= number_of(s),
    decreases s.len(),
{
    if k == s.len() {
        assert(s.take(k) =~= s);
    } else {
        lemma_number_of_prefix(s.drop_last(), k);
        assert(s.drop_last().take(k) =~= s.take(k));
        assert(number_of(s) >= number_of(s.drop_last())) by (nonlinear_arith)
            requires
                number_of(s) == (number_of(s.drop_last()) * 10 + digit_value(s.last()).unwrap_or(
                    0,
                )) as nat,
                digit_value(s.last()).unwrap_or(0) >= 0,
        ;
    }
}

fn digits_value(s: &[char], max: u64) -> (r: Option<u64>)
    ensures
        match r {
            Some(n) => all_digits(s@) && number_of(s@) <= max && n == number_of(s@),
            None => !(all_digits(s@) && number_of(s@) <= max),
        },
{
    if s.len() == 0 {
        return None;
    }
    let mut n: u128 = 0;
    let mut i: usize = 0;
    while i < s.len()
        invariant
            i <= s.len(),
            n == number_of(s@.take(i as int)),
            n <= max,
            forall|k: int| 0 <= k < i ==> digit_value(#[trigger] s@[k]) is Some,
        decreases s.len() - i,
    {
        let c: u32 = s[i] as u32;
        if c < 48 || c > 57 {
            assert(digit_value(s@[i as int]) is None);
            return None;
        }
        assert(s@.take(i + 1).drop_last() =~= s@.take(i as int));
        let m: u128 = n * 10 + (c - 48) as u128;
        assert(m == number_of(s@.take(i + 1)));
        if m > max as u128 {
            proof {
                lemma_number_of_prefix(s@, i + 1);
            }
            return None;
        }
        n = m;
        i += 1;
    }
    assert(s@.take(i as int) =~= s@);
    Some(n as u64)
}

/// Reads an unsigned number of at most `max`.
pub fn read_unsigned(s: &[char], max: u64) -> (r: Option<u64>)
    ensures
        match r {
            Some(n) => unsigned_in(s@, max as nat) == Some(n as nat),
            None => unsigned_in(s@, max as nat) is None,
        },
{
    if s.len() > 0 && s[0] == '+' {
        assert(s@.subrange(1, s@.len() as int) =~= s@.skip(1));
        digits_value(slice_subrange(s, 1, s.len()), max)
    } else {
        digits_value(s, max)
    }
}

/// Reads a signed 64-bit number.
pub fn read_signed(s: &[char]) -> (r: Option<i64>)
    ensures
        match r {
            Some(n) => signed_in(s@) == Some(n as int),
            None => signed_in(s@) is None,
        },
{
    if s.len() > 0 && s[0] == '-' {
        assert(s@.subrange(1, s@.len() as int) =~= s@.skip(1));
        match digits_value(slice_subrange(s, 1, s.len()), 0x8000_0000_0000_0000) {
            Some(n) => Some((-(n as i128)) as i64),
            None => None,
        }
    } else {
        match read_unsigned(s, i64::MAX as u64) {
            Some(n) => Some(n as i64),
            None => None,
        }
    }
}

// ---------------------------------------------------------------------------
// Taking apart and putting together

/// The pieces of a text between the characters `c`; one more than there are
/// such characters.
pub open spec fn pieces(s: Seq<char>, c: char) -> Seq<Seq<char>>
    decreases s.len(),
{
    match first(s, seq![c]) {
        Some(i) => if 0 <= i < s.len() {
            seq![s.take(i)] + pieces(s.skip(i + 1), c)
        } else {
            seq![s]
        },
        None => seq![s],
    }
}

/// A line without the carriage return that ends it.
pub open spec fn chomped(s: Seq<char>) -> Seq<char> {
    if s.len() > 0 && s.last() == '\r' {
        s.drop_last()
    } else {
        s
    }
}

/// The lines of a text: each ends at a line feed, which may have a carriage
/// return before it, or at the end of the text.
pub open spec fn lines_of(s: Seq<char>) -> Seq<Seq<char>>
    decreases s.len(),
{
    if s.len() == 0 {
        seq![]
    } else {
        match first(s, seq!['\n']) {
            Some(i) => if 0 <= i < s.len() {
                seq![chomped(s.take(i))] + lines_of(s.skip(i + 1))
            } else {
                seq![s]
            },
            None => seq![s],
        }
    }
}

/// The pieces joined, with `sep` between each two.
pub open spec fn joined(parts: Seq<Seq<char>>, sep: Seq<char>) -> Seq<char>
    decreases parts.len(),
{
    if parts.len() == 0 {
        seq![]
    } else if parts.len() == 1 {
        parts[0]
    } else {
        joined(parts.drop_last(), sep) + sep + parts.last()
    }
}

/// The text with each `p` in it, from the left, replaced by `r`.
pub open spec fn replaced(s: Seq<char>, p: Seq<char>, r: Seq<char>) -> Seq<char>
    decreases s.len(),
{
    match first(s, p) {
        Some(i) => if p.len() > 0 && 0 <= i && i + p.len() <= s.len() {
            s.take(i) + r + replaced(s.skip(i + p.len()), p, r)
        } else {
            s
        },
        None => s,
    }
}

/// The length of the run of characters that are not blank at the start.
pub open spec fn word_len(s: Seq<char>) -> nat
    decreases s.len(),
{
    if s.len() > 0 && !blank(s[0]) {
        1 + word_len(s.skip(1))
    } else {
        0
    }
}

/// The runs of characters that are not blank.
pub open spec fn words(s: Seq<char>) -> Seq<Seq<char>>
    decreases s.len(),
{
    if s.len() == 0 {
        seq![]
    } else if blank(s[0]) {
        words(s.skip(1))
    } else {
        let n = word_len(s);
        if 0 < n <= s.len() {
            seq![s.take(n as int)] + words(s.skip(n as int))
        } else {
            seq![]
        }
    }
}

pub open spec fn lower_char(c: char) -> char {
    let n = c as u32;
    if 65 <= n <= 90 {
        (n + 32) as char
    } else {
        c
    }
}

/// The text with the letters A to Z in lower case.
pub open spec fn lowered(s: Seq<char>) -> Seq<char> {
    s.map_values(|c: char| lower_char(c))
}

pub fn lower_of(c: char) -> (r: char)
    ensures
        r == lower_char(c),
{
    let n: u32 = c as u32;
    if 65 <= n && n <= 90 {
        ((n + 32) as u8) as char
    } else {
        c
    }
}

pub fn lower(s: &[char]) -> (r: Vec<char>)
    ensures
        r@ == lowered(s@),
{
    let mut r: Vec<char> = Vec::new();
    let mut i: usize = 0;
    while i < s.len()
        invariant
            i <= s.len(),
            r@ == lowered(s@.take(i as int)),
        decreases s.len() - i,
    {
        r.push(lower_of(s[i]));
        assert(lowered(s@.take(i + 1)) =~= lowered(s@.take(i as int)).push(lower_char(s@[i as int])));
        i += 1;
    }
    assert(s@.take(i as int) =~= s@);
    r
}

/// Appends a run of characters.
pub fn push_all(out: &mut Vec<char>, s: &[char])
    ensures
        final(out)@ == old(out)@ + s@,
{
    let mut i: usize = 0;
    assert(s@.take(0) =~= Seq::<char>::empty());
    assert(old(out)@ + s@.take(0) =~= old(out)@);
    while i < s.len()
        invariant
            i <= s.len(),
            out@ == old(out)@ + s@.take(i as int),
        decreases s.len() - i,
    {
        out.push(s[i]);
        assert(s@.take(i + 1) =~= s@.take(i as int).push(s@[i as int]));
        assert(out@ =~= old(out)@ + s@.take(i + 1));
        i += 1;
    }
    assert(s@.take(i as int) =~= s@);
}

/// The position of the first `c` at or after `from`.
pub fn find_char(s: &[char], c: char, from: usize) -> (r: Option<usize>)
    ensures
        match r {
            Some(i) => first_from(s@, seq![c], from as int) == Some(i as int) && from <= i < s.len()
                && s@[i as int] == c,
            None => first_from(s@, seq![c], from as int) is None,
        },
{
    let mut p: Vec<char> = Vec::new();
    p.push(c);
    assert(p@ =~= seq![c]);
    let r = find_from(s, p.as_slice(), from);
    proof {
        lemma_first_from(s@, seq![c], from as int);
        if r is Some {
            let i = r->0 as int;
            assert(s@.subrange(i, i + 1)[0] == seq![c][0]);
        }
    }
    r
}

/// Dropping a prefix before the place where the search starts shifts the
/// position that it finds.
pub proof fn lemma_first_shift(s: Seq<char>, p: Seq<char>, k: int, from: int)
    requires
        0 <= k <= s.len(),
        0 <= from,
    ensures
        first_from(s.skip(k), p, from) == match first_from(s, p, k + from) {
            Some(i) => Some(i - k),
            None => None,
        },
    decreases s.len() + 1 - from - k,
{
    if k + from + p.len() <= s.len() {
        assert(s.skip(k).subrange(from, from + p.len()) =~= s.subrange(
            k + from,
            k + from + p.len(),
        ));
        if !occurs_at(s, p, k + from) {
            lemma_first_shift(s, p, k, from + 1);
        }
    }
}

pub fn replace(s: &[char], p: &[char], r: &[char]) -> (out: Vec<char>)
    requires
        p.len() > 0,
    ensures
        out@ == replaced(s@, p@, r@),
{
    let mut out: Vec<char> = Vec::new();
    let mut pos: usize = 0;
    assert(s@.skip(0) =~= s@);
    assert(out@ + replaced(s@, p@, r@) =~= replaced(s@, p@, r@));
    loop
        invariant
            pos <= s.len(),
            p.len() > 0,
            replaced(s@, p@, r@) == out@ + replaced(s@.skip(pos as int), p@, r@),
        decreases s.len() - pos,
    {
        proof {
            lemma_first_shift(s@, p@, pos as int, 0);
        }
        match find_from(s, p, pos) {
            Some(i) => {
                let ghost before = out@;
                push_all(&mut out, slice_subrange(s, pos, i));
                push_all(&mut out, r);
                assert(s@.skip(pos as int).take(i - pos) =~= s@.subrange(pos as int, i as int));
                assert(s@.skip(pos as int).skip(i - pos + p.len()) =~= s@.skip(i + p.len()));
                assert(before + (s@.subrange(pos as int, i as int) + r@ + replaced(
                    s@.skip(i + p.len()),
                    p@,
                    r@,
                )) =~= out@ + replaced(s@.skip(i + p.len()), p@, r@));
                pos = i + p.len();
            },
            None => {
                push_all(&mut out, slice_subrange(s, pos, s.len()));
                assert(s@.subrange(pos as int, s@.len() as int) =~= s@.skip(pos as int));
                return out;
            },
        }
    }
}

/// Splits at each `c`.
pub fn split_at_char(s: &[char], c: char) -> (r: Vec<String>)
    ensures
        views(r@) == pieces(s@, c),
{
    let mut r: Vec<String> = Vec::new();
    let mut pos: usize = 0;
    assert(s@.skip(0) =~= s@);
    assert(views(r@) + pieces(s@, c) =~= pieces(s@, c));
    loop
        invariant
            pos <= s.len(),
            pieces(s@, c) == views(r@) + pieces(s@.skip(pos as int), c),
        decreases s.len() - pos,
    {
        proof {
            lemma_first_shift(s@, seq![c], pos as int, 0);
        }
        match find_char(s, c, pos) {
            Some(i) => {
                let ghost before = views(r@);
                r.push(text_of(slice_subrange(s, pos, i)));
                assert(views(r@) =~= before.push(s@.subrange(pos as int, i as int)));
                assert(s@.skip(pos as int).take(i - pos) =~= s@.subrange(pos as int, i as int));
                assert(s@.skip(pos as int).skip(i - pos + 1) =~= s@.skip(i + 1));
                assert(before + (seq![s@.subrange(pos as int, i as int)] + pieces(
                    s@.skip(i + 1),
                    c,
                )) =~= views(r@) + pieces(s@.skip(i + 1), c));
                pos = i + 1;
            },
            None => {
                let ghost before = views(r@);
                r.push(text_of(slice_subrange(s, pos, s.len())));
                assert(s@.subrange(pos as int, s@.len() as int) =~= s@.skip(pos as int));
                assert(views(r@) =~= before + seq![s@.skip(pos as int)]);
                return r;
            },
        }
    }
}

fn chomp<'a>(s: &'a [char]) -> (r: &'a [char])
    ensures
        r@ == chomped(s@),
{
    if s.len() > 0 && s[s.len() - 1] == '\r' {
        assert(s@.subrange(0, s@.len() - 1) =~= s@.drop_last());
        slice_subrange(s, 0, s.len() - 1)
    } else {
        s
    }
}

/// Splits into lines.
pub fn lines(s: &[char]) -> (r: Vec<String>)
    ensures
        views(r@) == lines_of(s@),
{
    let mut r: Vec<String> = Vec::new();
    let mut pos: usize = 0;
    assert(s@.skip(0) =~= s@);
    assert(views(r@) + lines_of(s@) =~= lines_of(s@));
    while pos < s.len()
        invariant
            pos <= s.len(),
            lines_of(s@) == views(r@) + lines_of(s@.skip(pos as int)),
        decreases s.len() - pos,
    {
        proof {
            lemma_first_shift(s@, seq!['\n'], pos as int, 0);
        }
        match find_char(s, '\n', pos) {
            Some(i) => {
                let ghost before = views(r@);
                let line = chomp(slice_subrange(s, pos, i));
                r.push(text_of(line));
                assert(views(r@) =~= before.push(line@));
                assert(s@.skip(pos as int).take(i - pos) =~= s@.subrange(pos as int, i as int));
                assert(s@.skip(pos as int).skip(i - pos + 1) =~= s@.skip(i + 1));
                assert(before + (seq![line@] + lines_of(s@.skip(i + 1))) =~= views(r@) + lines_of(
                    s@.skip(i + 1),
                ));
                pos = i + 1;
            },
            None => {
                let ghost before = views(r@);
                r.push(text_of(slice_subrange(s, pos, s.len())));
                assert(s@.subrange(pos as int, s@.len() as int) =~= s@.skip(pos as int));
                assert(views(r@) =~= before + seq![s@.skip(pos as int)]);
                return r;
            },
        }
    }
    assert(views(r@) + lines_of(s@.skip(pos as int)) =~= views(r@));
    r
}

proof fn lemma_word_len(s: Seq<char>)
    ensures
        word_len(s) <= s.len(),
        s.len() > 0 && !blank(s[0]) ==> word_len(s) > 0,
    decreases s.len(),
{
    if s.len() > 0 && !blank(s[0]) {
        lemma_word_len(s.skip(1));
    }
}

/// Splits into the runs of characters that are not blank.
pub fn split_words(s: &[char]) -> (r: Vec<String>)
    ensures
        views(r@) == words(s@),
{
    let mut r: Vec<String> = Vec::new();
    let mut pos: usize = 0;
    assert(s@.skip(0) =~= s@);
    assert(views(r@) + words(s@) =~= words(s@));
    while pos < s.len()
        invariant
            pos <= s.len(),
            words(s@) == views(r@) + words(s@.skip(pos as int)),
        decreases s.len() - pos,
    {
        if is_blank(s[pos]) {
            assert(s@.skip(pos as int).skip(1) =~= s@.skip(pos + 1));
            pos += 1;
        } else {
            let ghost rest = s@.skip(pos as int);
            let mut end: usize = pos;
            assert(rest.skip(0) =~= rest);
            while end < s.len() && !is_blank(s[end])
                invariant
                    pos <= end <= s.len(),
                    rest == s@.skip(pos as int),
                    word_len(rest) == (end - pos) + word_len(rest.skip(end - pos)),
                decreases s.len() - end,
            {
                assert(rest.skip(end - pos).skip(1) =~= rest.skip(end + 1 - pos));
                end += 1;
            }
            proof {
                lemma_word_len(rest);
            }
            let ghost before = views(r@);
            r.push(text_of(slice_subrange(s, pos, end)));
            assert(views(r@) =~= before.push(s@.subrange(pos as int, end as int)));
            assert(rest.take(end - pos) =~= s@.subrange(pos as int, end as int));
            assert(rest.skip(end - pos) =~= s@.skip(end as int));
            assert(before + (seq![s@.subrange(pos as int, end as int)] + words(s@.skip(end as int)))
                =~= views(r@) + words(s@.skip(end as int)));
            pos = end;
        }
    }
    assert(views(r@) + words(s@.skip(pos as int)) =~= views(r@));
    r
}

/// Joins the strings, with `sep` between each two.
pub fn join(parts: &Vec<String>, sep: &str) -> (r: String)
    ensures
        r@ == joined(views(parts@), sep@),
{
    let mut r: String = String::new();
    let mut i: usize = 0;
    assert(views(parts@).take(0) =~= Seq::<Seq<char>>::empty());
    while i < parts.len()
        invariant
            i <= parts.len(),
            r@ == joined(views(parts@).take(i as int), sep@),
        decreases parts.len() - i,
    {
        let ghost now = views(parts@).take(i + 1);
        assert(now.drop_last() =~= views(parts@).take(i as int));
        assert(now.last() == parts@[i as int]@);
        if i > 0 {
            r.append(sep);
            r.append(parts[i].as_str());
        } else {
            r = parts[i].clone();
        }
        i += 1;
    }
    assert(views(parts@).take(i as int) =~= views(parts@));
    r
}

/// The text with no more than its first `n` characters.
pub open spec fn head(s: Seq<char>, n: nat) -> Seq<char> {
    if s.len() <= n {
        s
    } else {
        s.take(n as int)
    }
}

/// A copy of at most the first `n` characters.
pub fn take_chars(s: &str, n: usize) -> (r: String)
    ensures
        r@ == head(s@, n as nat),
{
    let v = chars_of(s);
    if v.len() <= n {
        text_of(v.as_slice())
    } else {
        assert(v@.subrange(0, n as int) =~= v@.take(n as int));
        text_of(slice_subrange(v.as_slice(), 0, n))
    }
}

/// The text with each block that runs from `open` to the next `close`, or to
/// the end, replaced by `fill`, until none is left. With `fold` the letters A
/// to Z count as lower case in the search.
pub open spec fn cut_blocks(
    s: Seq<char>,
    open: Seq<char>,
    close: Seq<char>,
    fill: Seq<char>,
    fold: bool,
) -> Seq<char>
    decreases s.len(),
{
    let t = if fold {
        lowered(s)
    } else {
        s
    };
    match first(t, open) {
        Some(i) => {
            let end = match first_from(t, close, i) {
                Some(j) => j + close.len(),
                None => s.len() as int,
            };
            if 0 <= i && i + fill.len() < end <= s.len() {
                cut_blocks(s.take(i) + fill + s.skip(end), open, close, fill, fold)
            } else {
                s
            }
        },
        None => s,
    }
}

pub fn remove_blocks(s: &[char], open: &[char], close: &[char], fill: &[char], fold: bool) -> (r:
    Vec<char>)
    requires
        fill.len() < open.len(),
        fill.len() < close.len(),
    ensures
        r@ == cut_blocks(s@, open@, close@, fill@, fold),
{
    let mut out: Vec<char> = Vec::new();
    push_all(&mut out, s);
    assert(out@ =~= s@);
    loop
        invariant
            fill.len() < open.len(),
            fill.len() < close.len(),
            cut_blocks(out@, open@, close@, fill@, fold) == cut_blocks(
                s@,
                open@,
                close@,
                fill@,
                fold,
            ),
        decreases out.len(),
    {
        let mut t: Vec<char> = Vec::new();
        if fold {
            t = lower(out.as_slice());
        } else {
            push_all(&mut t, out.as_slice());
            assert(t@ =~= out@);
        }
        match find(t.as_slice(), open) {
            Some(i) => {
                proof {
                    lemma_first_from(t@, open@, 0);
                    lemma_first_from(t@, close@, i as int);
                }
                let end: usize = match find_from(t.as_slice(), close, i) {
                    Some(j) => j + close.len(),
                    None => out.len(),
                };
                let mut next: Vec<char> = Vec::new();
                push_all(&mut next, slice_subrange(out.as_slice(), 0, i));
                push_all(&mut next, fill);
                push_all(&mut next, slice_subrange(out.as_slice(), end, out.len()));
                assert(next@ =~= out@.take(i as int) + fill@ + out@.skip(end as int));
                out = next;
            },
            None => {
                return out;
            },
        }
    }
}

/// No `open` is left once every block is cut.
pub proof fn lemma_cut_blocks(
    s: Seq<char>,
    open: Seq<char>,
    close: Seq<char>,
    fill: Seq<char>,
    fold: bool,
)
    requires
        fill.len() < open.len(),
        fill.len() < close.len(),
    ensures
        !mentions(
            if fold {
                lowered(cut_blocks(s, open, close, fill, fold))
            } else {
                cut_blocks(s, open, close, fill, fold)
            },
            open,
        ),
    decreases s.len(),
{
    let t = if fold {
        lowered(s)
    } else {
        s
    };
    lemma_first_from(t, open, 0);
    match first(t, open) {
        Some(i) => {
            lemma_first_from(t, close, i);
            let end = match first_from(t, close, i) {
                Some(j) => j + close.len(),
                None => s.len() as int,
            };
            lemma_cut_blocks(s.take(i) + fill + s.skip(end), open, close, fill, fold);
        },
        None => {},
    }
}

/// Where a text holds no `p`, no part of it does.
pub proof fn lemma_part_has_not(s: Seq<char>, p: Seq<char>, a: int, b: int)
    requires
        0 <= a <= b <= s.len(),
        !mentions(s, p),
    ensures
        !mentions(s.subrange(a, b), p),
{
    lemma_has(s, p);
    lemma_has(s.subrange(a, b), p);
    if mentions(s.subrange(a, b), p) {
        let i = choose|i: int| occurs_at(s.subrange(a, b), p, i);
        assert(s.subrange(a + i, a + i + p.len()) =~= s.subrange(a, b).subrange(i, i + p.len()));
        assert(occurs_at(s, p, a + i));
    }
}

/// Trimming keeps one unbroken part of a text, whose ends are not blank.
pub proof fn lemma_trimmed(s: Seq<char>)
    ensures
        exists|a: int, b: int|
            0 <= a <= b <= s.len() && #[trigger] s.subrange(a, b) == trimmed(s),
        trimmed(s).len() > 0 ==> !blank(trimmed(s)[0]) && !blank(trimmed(s).last()),
        trimmed(trimmed(s)) == trimmed(s),
{
    lemma_trimmed_start(s);
    let t = trimmed_start(s);
    lemma_trimmed_end(t);
    let a = choose|a: int| 0 <= a <= s.len() && #[trigger] s.skip(a) == t;
    let b = choose|b: int| 0 <= b <= t.len() && #[trigger] t.take(b) == trimmed_end(t);
    assert(s.subrange(a, a + b) =~= trimmed(s));
    assert(trimmed_start(trimmed(s)) == trimmed(s));
    assert(trimmed_end(trimmed(s)) == trimmed(s));
}

pub proof fn lemma_trimmed_start(s: Seq<char>)
    ensures
        exists|a: int| 0 <= a <= s.len() && #[trigger] s.skip(a) == trimmed_start(s),
        trimmed_start(s).len() > 0 ==> !blank(trimmed_start(s)[0]),
    decreases s.len(),
{
    if s.len() > 0 && blank(s[0]) {
        lemma_trimmed_start(s.skip(1));
        let a = choose|a: int|
            0 <= a <= s.len() - 1 && #[trigger] s.skip(1).skip(a) == trimmed_start(s.skip(1));
        assert(s.skip(a + 1) =~= s.skip(1).skip(a));
    } else {
        assert(s.skip(0) =~= s);
    }
}

pub proof fn lemma_trimmed_end(s: Seq<char>)
    ensures
        exists|b: int| 0 <= b <= s.len() && #[trigger] s.take(b) == trimmed_end(s),
        trimmed_end(s).len() > 0 ==> !blank(trimmed_end(s).last()),
    decreases s.len(),
{
    if s.len() > 0 && blank(s.last()) {
        lemma_trimmed_end(s.drop_last());
        let b = choose|b: int|
            0 <= b <= s.len() - 1 && #[trigger] s.drop_last().take(b) == trimmed_end(s.drop_last());
        assert(s.take(b) =~= s.drop_last().take(b));
    } else {
        assert(s.take(s.len() as int) =~= s);
    }
}

pub open spec fn upper_char(c: char) -> char {
    let n = c as u32;
    if 97 <= n <= 122 {
        (n - 32) as char
    } else {
        c
    }
}

/// The text with the letters a to z in upper case.
pub open spec fn uppered(s: Seq<char>) -> Seq<char> {
    s.map_values(|c: char| upper_char(c))
}

/// A copy with the letters a to z in upper case.
pub fn upper_text(s: &str) -> (r: String)
    ensures
        r@ == uppered(s@),
{
    let v = chars_of(s);
    let mut r: String = String::new();
    let mut i: usize = 0;
    assert(uppered(v@.take(0)) =~= r@);
    while i < v.len()
        invariant
            i <= v.len(),
            r@ == uppered(v@.take(i as int)),
        decreases v.len() - i,
    {
        let n: u32 = v[i] as u32;
        if 97 <= n && n <= 122 {
            r.push(((n - 32) as u8) as char);
        } else {
            r.push(v[i]);
        }
        assert(uppered(v@.take(i + 1)) =~= uppered(v@.take(i as int)).push(upper_char(v@[i as int])));
        i += 1;
    }
    assert(v@.take(i as int) =~= v@);
    r
}

/// A copy with the letters A to Z in lower case.
pub fn lower_text(s: &str) -> (r: String)
    ensures
        r@ == lowered(s@),
{
    let v = chars_of(s);
    let l = lower(v.as_slice());
    text_of(l.as_slice())
}

/// Whether one text comes before another or equals it, character by character.
pub open spec fn text_le(a: Seq<char>, b: Seq<char>) -> bool
    decreases a.len(),
{
    if a.len() == 0 {
        true
    } else if b.len() == 0 {
        false
    } else if a[0] != b[0] {
        (a[0] as u32) < (b[0] as u32)
    } else {
        text_le(a.skip(1), b.skip(1))
    }
}

pub fn is_text_le(a: &str, b: &str) -> (r: bool)
    ensures
        r == text_le(a@, b@),
{
    let x = chars_of(a);
    let y = chars_of(b);
    let mut i: usize = 0;
    assert(x@.skip(0) =~= x@);
    assert(y@.skip(0) =~= y@);
    while i < x.len()
        invariant
            i <= x.len(),
            i <= y.len(),
            x@ == a@,
            y@ == b@,
            text_le(a@, b@) == text_le(x@.skip(i as int), y@.skip(i as int)),
        decreases x.len() - i,
    {
        if i == y.len() {
            return false;
        }
        if x[i] != y[i] {
            return (x[i] as u32) < (y[i] as u32);
        }
        assert(x@.skip(i as int).skip(1) =~= x@.skip(i + 1));
        assert(y@.skip(i as int).skip(1) =~= y@.skip(i + 1));
        i += 1;
    }
    true
}

/// The order of texts is total and transitive.
pub proof fn lemma_text_le(a: Seq<char>, b: Seq<char>, c: Seq<char>)
    ensures
        text_le(a, a),
        text_le(a, b) || text_le(b, a),
        text_le(a, b) && text_le(b, c) ==> text_le(a, c),
        text_le(a, b) && text_le(b, a) ==> a == b,
    decreases a.len() + b.len(),
{
    if a.len() > 0 && b.len() > 0 {
        vstd::utf8::char_u32_cast(a[0], a[0] as u32);
        vstd::utf8::char_u32_cast(b[0], b[0] as u32);
        if a[0] != b[0] {
            assert((a[0] as u32) < (b[0] as u32) || (b[0] as u32) < (a[0] as u32));
        }
    }
    if a.len() > 0 && b.len() > 0 && c.len() > 0 {
        lemma_text_le(a.skip(1), b.skip(1), c.skip(1));
        if a[0] == b[0] && a.skip(1) == b.skip(1) {
            assert(a =~= seq![a[0]] + a.skip(1));
            assert(b =~= seq![b[0]] + b.skip(1));
        }
    } else if a.len() > 0 && b.len() > 0 {
        lemma_text_le(a.skip(1), b.skip(1), c);
        if a[0] == b[0] && a.skip(1) == b.skip(1) {
            assert(a =~= seq![a[0]] + a.skip(1));
            assert(b =~= seq![b[0]] + b.skip(1));
        }
    } else if a.len() > 0 {
        lemma_text_le(a.skip(1), b, c);
    } else if b.len() == 0 {
        assert(a =~= b);
    }
}

/// A text that may be there.
pub open spec fn opt_view(t: Option<String>) -> Option<Seq<char>> {
    match t {
        Some(s) => Some(s@),
        None => None,
    }
}

/// Replaces a text in characters.
pub fn swap_text(s: &[char], p: &str, r: &str) -> (out: Vec<char>)
    requires
        p@.len() > 0,
    ensures
        out@ == replaced(s@, p@, r@),
{
    let a = chars_of(p);
    let b = chars_of(r);
    replace(s, a.as_slice(), b.as_slice())
}

// ---------------------------------------------------------------------------
// Laws

proof fn lemma_trim_front(s: Seq<char>) -> (a: int)
    ensures
        0 <= a <= s.len(),
        trimmed_start(s) == s.skip(a),
        forall|k: int| 0 <= k < a ==> blank(#[trigger] s[k]),
        a < s.len() ==> !blank(s[a]),
    decreases s.len(),
{
    if s.len() > 0 && blank(s[0]) {
        let rest = s.skip(1);
        let a = lemma_trim_front(rest) + 1;
        assert(rest.skip(a - 1) =~= s.skip(a));
        assert forall|k: int| 0 <= k < a implies blank(#[trigger] s[k]) by {
            if k > 0 {
                assert(rest[k - 1] == s[k]);
            }
        }
        if a < s.len() {
            assert(rest[a - 1] == s[a]);
        }
        a
    } else {
        assert(s.skip(0) =~= s);
        0
    }
}

proof fn lemma_trim_back(s: Seq<char>) -> (b: int)
    ensures
        0 <= b <= s.len(),
        trimmed_end(s) == s.take(b),
        forall|k: int| b <= k < s.len() ==> blank(#[trigger] s[k]),
        b > 0 ==> !blank(s[b - 1]),
    decreases s.len(),
{
    if s.len() > 0 && blank(s.last()) {
        let rest = s.drop_last();
        let b = lemma_trim_back(rest);
        assert(rest.take(b) =~= s.take(b));
        assert forall|k: int| b <= k < s.len() implies blank(#[trigger] s[k]) by {
            if k < s.len() - 1 {
                assert(rest[k] == s[k]);
            }
        }
        if b > 0 {
            assert(rest[b - 1] == s[b - 1]);
        }
        b
    } else {
        assert(s.take(s.len() as int) =~= s);
        s.len() as int
    }
}

/// Trimming takes away blanks at the two ends, all of them, and nothing else:
/// what is left stands from `r.0` up to `r.1`.
pub proof fn law_trimming_takes_blanks_only(s: Seq<char>) -> (r: (int, int))
    ensures
        0 <= r.0 <= r.1 <= s.len(),
        trimmed(s) == s.subrange(r.0, r.1),
        forall|k: int| 0 <= k < r.0 ==> blank(#[trigger] s[k]),
        forall|k: int| r.1 <= k < s.len() ==> blank(#[trigger] s[k]),
        r.0 < r.1 ==> !blank(s[r.0]) && !blank(s[r.1 - 1]),
{
    let a = lemma_trim_front(s);
    let t = s.skip(a);
    let n = lemma_trim_back(t);
    assert(t.take(n) =~= s.subrange(a, a + n));
    assert forall|k: int| a + n <= k < s.len() implies blank(#[trigger] s[k]) by {
        assert(t[k - a] == s[k]);
    }
    if n > 0 {
        assert(t[0] == s[a] && t[n - 1] == s[a + n - 1]);
    }
    (a, a + n)
}

/// The first word ends before the first blank.
pub proof fn law_word_ends_at_a_blank(s: Seq<char>)
    ensures
        word_len(s) <= s.len(),
        forall|k: int| 0 <= k < word_len(s) ==> !blank(#[trigger] s[k]),
        word_len(s) < s.len() ==> blank(s[word_len(s) as int]),
    decreases s.len(),
{
    if s.len() > 0 && !blank(s[0]) {
        let rest = s.skip(1);
        law_word_ends_at_a_blank(rest);
        assert forall|k: int| 0 <= k < word_len(s) implies !blank(#[trigger] s[k]) by {
            if k > 0 {
                assert(rest[k - 1] == s[k]);
            }
        }
        if word_len(s) < s.len() {
            assert(rest[word_len(rest) as int] == s[word_len(s) as int]);
        }
    }
}

/// Only the letters of ASCII have a case, and the two cases lie 32 apart.
pub proof fn law_case_is_of_letters(s: Seq<char>, i: int)
    requires
        0 <= i < s.len(),
    ensures
        lowered(s).len() == s.len(),
        uppered(s).len() == s.len(),
        65 <= s[i] as u32 <= 90 ==> lowered(s)[i] as u32 == s[i] as u32 + 32,
        !(65 <= s[i] as u32 <= 90) ==> lowered(s)[i] == s[i],
        97 <= s[i] as u32 <= 122 ==> uppered(s)[i] as u32 == s[i] as u32 - 32,
        !(97 <= s[i] as u32 <= 122) ==> uppered(s)[i] == s[i],
{
}

/// A number that is written in decimal reads as that number, and begins with no
/// zero but its own.
pub proof fn law_decimal_reads_back(n: nat)
    ensures
        all_digits(decimal(n)),
        number_of(decimal(n)) == n,
        decimal(n).len() > 1 ==> decimal(n)[0] != '0',
        n > 0 ==> decimal(n)[0] != '0',
    decreases n,
{
    if n < 10 {
        let s = decimal(n);
        assert(s.drop_last() =~= Seq::<char>::empty());
        assert(number_of(Seq::<char>::empty()) == 0);
        assert(digit_value(s[0]) == Some(n as int));
    } else {
        law_decimal_reads_back(n / 10);
        let front = decimal(n / 10);
        let s = decimal(n);
        assert(s.drop_last() =~= front);
        assert(digit_value(s.last()) == Some((n % 10) as int));
        assert forall|i: int| 0 <= i < s.len() implies digit_value(#[trigger] s[i]) is Some by {
            if i < front.len() {
                assert(s[i] == front[i]);
            }
        }
        assert(front.len() > 0);
        assert(s[0] == front[0]);
    }
}

proof fn lemma_joined_front(a: Seq<char>, parts: Seq<Seq<char>>, sep: Seq<char>)
    requires
        parts.len() > 0,
    ensures
        joined(seq![a] + parts, sep) == a + sep + joined(parts, sep),
    decreases parts.len(),
{
    let all = seq![a] + parts;
    if parts.len() == 1 {
        assert(all.drop_last() =~= seq![a]);
        assert(joined(seq![a], sep) == a);
    } else {
        lemma_joined_front(a, parts.drop_last(), sep);
        assert(all.drop_last() =~= seq![a] + parts.drop_last());
        assert(joined(all, sep) =~= a + sep + joined(parts, sep));
    }
}

/// A text splits into pieces that hold no separator, and that give the text when
/// they are joined by it.
pub proof fn law_pieces_join_to_the_text(s: Seq<char>, c: char)
    ensures
        pieces(s, c).len() > 0,
        joined(pieces(s, c), seq![c]) == s,
        forall|i: int| 0 <= i < pieces(s, c).len() ==> !(#[trigger] pieces(s, c)[i]).contains(c),
    decreases s.len(),
{
    lemma_first_from(s, seq![c], 0);
    match first(s, seq![c]) {
        Some(i) => {
            assert(s.subrange(i, i + 1)[0] == c);
            let rest = s.skip(i + 1);
            law_pieces_join_to_the_text(rest, c);
            lemma_joined_front(s.take(i), pieces(rest, c), seq![c]);
            assert(s.take(i) + seq![c] + rest =~= s);
            let p = pieces(s, c);
            assert forall|k: int| 0 <= k < p.len() implies !(#[trigger] p[k]).contains(c) by {
                if k == 0 {
                    lemma_no_single(s, c, i);
                } else {
                    assert(p[k] == pieces(rest, c)[k - 1]);
                }
            }
        },
        None => {
            lemma_no_single(s, c, s.len() as int);
            assert(s.take(s.len() as int) =~= s);
        },
    }
}

proof fn lemma_no_single(s: Seq<char>, c: char, n: int)
    requires
        0 <= n <= s.len(),
        forall|k: int| 0 <= k < n ==> !occurs_at(s, seq![c], k),
    ensures
        !s.take(n).contains(c),
{
    if s.take(n).contains(c) {
        let k = choose|k: int| 0 <= k < n && s.take(n)[k] == c;
        assert(s.subrange(k, k + 1) =~= seq![c]);
        assert(occurs_at(s, seq![c], k));
    }
}

/// The lines of a text without carriage returns are its pieces between line
/// feeds, but for an empty one at its end.
pub proof fn law_lines_are_pieces(s: Seq<char>)
    requires
        !s.contains('\r'),
    ensures
        s.len() == 0 ==> lines_of(s).len() == 0,
        s.len() > 0 ==> pieces(s, '\n') == if s.last() == '\n' {
            lines_of(s).push(seq![])
        } else {
            lines_of(s)
        },
    decreases s.len(),
{
    if s.len() > 0 {
        lemma_first_from(s, seq!['\n'], 0);
        match first(s, seq!['\n']) {
            Some(i) => {
                assert(s.subrange(i, i + 1)[0] == '\n');
                assert(s[i] == '\n');
                let rest = s.skip(i + 1);
                assert(!rest.contains('\r')) by {
                    if rest.contains('\r') {
                        let k = choose|k: int| 0 <= k < rest.len() && rest[k] == '\r';
                        assert(s[k + i + 1] == '\r');
                    }
                }
                law_lines_are_pieces(rest);
                if i > 0 {
                    assert(s.take(i).last() == s[i - 1]);
                }
                assert(chomped(s.take(i)) == s.take(i));
                if rest.len() == 0 {
                    assert(s.last() == '\n');
                    assert(first(rest, seq!['\n']) is None);
                    assert(pieces(rest, '\n') =~= seq![rest]);
                    assert(rest =~= Seq::<char>::empty());
                    assert(pieces(s, '\n') =~= lines_of(s).push(seq![]));
                } else {
                    assert(rest.last() == s.last());
                    if s.last() == '\n' {
                        assert(pieces(s, '\n') =~= lines_of(s).push(seq![]));
                    } else {
                        assert(pieces(s, '\n') =~= lines_of(s));
                    }
                }
            },
            None => {
                if s.last() == '\n' {
                    assert(s.subrange(s.len() - 1, s.len() as int) =~= seq!['\n']);
                    assert(occurs_at(s, seq!['\n'], s.len() - 1));
                }
            },
        }
    }
}

/// Words are not empty and hold no blank.
pub proof fn law_words_hold_no_blank(s: Seq<char>, i: int)
    requires
        0 <= i < words(s).len(),
    ensures
        words(s)[i].len() > 0,
        forall|k: int| 0 <= k < words(s)[i].len() ==> !blank(#[trigger] words(s)[i][k]),
    decreases s.len(),
{
    if s.len() > 0 {
        if blank(s[0]) {
            law_words_hold_no_blank(s.skip(1), i);
        } else {
            law_word_ends_at_a_blank(s);
            let n = word_len(s);
            assert(n > 0);
            if i == 0 {
                assert(words(s)[0] == s.take(n as int));
            } else {
                law_words_hold_no_blank(s.skip(n as int), i - 1);
                assert(words(s)[i] == words(s.skip(n as int))[i - 1]);
            }
        }
    }
}

/// A text without blanks, but not empty, is one word.
pub proof fn law_text_without_blanks_is_a_word(s: Seq<char>)
    requires
        s.len() > 0,
        forall|k: int| 0 <= k < s.len() ==> !blank(#[trigger] s[k]),
    ensures
        words(s) == seq![s],
        trimmed(s) == s,
        word_len(s) == s.len(),
{
    law_word_ends_at_a_blank(s);
    let n = word_len(s) as int;
    assert(n == s.len());
    assert(s.take(n) =~= s);
    assert(s.skip(n) =~= Seq::<char>::empty());
    assert(words(Seq::<char>::empty()) =~= seq![]);
    assert(words(s) =~= seq![s.take(n)] + words(s.skip(n)));
    let (a, b) = law_trimming_takes_blanks_only(s);
    assert(a == 0) by {
        if a > 0 {
            assert(blank(s[0]));
        }
    }
    assert(b == s.len()) by {
        if b < s.len() {
            assert(blank(s[b]));
        }
    }
    assert(s.subrange(0, s.len() as int) =~= s);
}

/// The head of a text is its start, as long as it may be.
pub proof fn law_head_is_the_start(s: Seq<char>, n: nat)
    ensures
        head(s, n).is_prefix_of(s),
        head(s, n).len() == if s.len() < n {
            s.len()
        } else {
            n
        },
{
    assert(head(s, n) =~= s.take(head(s, n).len() as int));
}

proof fn lemma_unsigned(n: nat, max: nat)
    ensures
        n <= max ==> unsigned_in(decimal(n), max) == Some(n),
        n > max ==> unsigned_in(decimal(n), max) is None,
        n <= max ==> unsigned_in(seq!['+'] + decimal(n), max) == Some(n),
{
    law_decimal_reads_back(n);
    let d = decimal(n);
    assert(digit_value(d[0]) is Some);
    assert((seq!['+'] + d).skip(1) =~= d);
}

/// A number that is written reads as itself, with its sign, where it fits.
pub proof fn law_numbers_read_back(n: int, max: nat)
    ensures
        0 <= n <= max ==> unsigned_in(decimal(n as nat), max) == Some(n as nat),
        n > max ==> unsigned_in(decimal(n as nat), max) is None,
        i64::MIN <= n <= i64::MAX ==> signed_in(decimal_int(n)) == Some(n),
        n >= 0 ==> decimal_int(n) == decimal(n as nat),
        n < 0 ==> decimal_int(n) == seq!['-'] + decimal((-n) as nat),
        unsigned_in(Seq::<char>::empty(), max) is None,
{
    if n >= 0 {
        lemma_unsigned(n as nat, max);
        lemma_unsigned(n as nat, i64::MAX as nat);
        law_decimal_reads_back(n as nat);
        assert(digit_value(decimal(n as nat)[0]) is Some);
    } else {
        let d = decimal((-n) as nat);
        law_decimal_reads_back((-n) as nat);
        assert((seq!['-'] + d).skip(1) =~= d);
    }
}

/// A line ends at a line feed; a carriage return before it belongs to the end.
pub proof fn law_lines_end_at_line_feeds(a: Seq<char>, b: Seq<char>)
    requires
        !a.contains('\n'),
        a.len() == 0 || a.last() != '\r',
    ensures
        lines_of(a + seq!['\n'] + b) == seq![a] + lines_of(b),
        lines_of(a + seq!['\r', '\n'] + b) == seq![a] + lines_of(b),
        a.len() > 0 ==> lines_of(a) == seq![a],
{
    let s = a + seq!['\n'] + b;
    let t = a + seq!['\r', '\n'] + b;
    let n = a.len() as int;
    lemma_first_from(s, seq!['\n'], 0);
    lemma_first_from(t, seq!['\n'], 0);
    lemma_first_from(a, seq!['\n'], 0);
    assert(s.subrange(n, n + 1) =~= seq!['\n']);
    assert(occurs_at(s, seq!['\n'], n));
    assert(t.subrange(n + 1, n + 2) =~= seq!['\n']);
    assert(occurs_at(t, seq!['\n'], n + 1));
    let i = first(s, seq!['\n'])->0;
    let j = first(t, seq!['\n'])->0;
    assert(i == n) by {
        if i < n {
            assert(s.subrange(i, i + 1)[0] == '\n');
            assert(a[i] == '\n');
        }
    }
    assert(j == n + 1) by {
        if j < n + 1 {
            assert(t.subrange(j, j + 1)[0] == '\n');
            assert(t[j] == '\n');
            if j < n {
                assert(a[j] == '\n');
            }
        }
    }
    assert(s.take(n) =~= a);
    assert(s.skip(n + 1) =~= b);
    assert(t.take(n + 1).drop_last() =~= a);
    assert(t.take(n + 1).last() == '\r');
    assert(t.skip(n + 2) =~= b);
    if first(a, seq!['\n']) is Some {
        let k = first(a, seq!['\n'])->0;
        assert(a.subrange(k, k + 1)[0] == '\n');
        assert(a[k] == '\n');
    }
}

/// What is said of texts that may be there, and of several, is said of what they
/// hold.
pub proof fn law_texts_are_what_they_hold(t: Option<String>, v: Seq<String>, i: int)
    ensures
        t matches Some(s) ==> opt_view(t) == Some(s@),
        t is None ==> opt_view(t) is None,
        views(v).len() == v.len(),
        0 <= i < v.len() ==> views(v)[i] == v[i]@,
{
}

/// Texts are ordered by their first characters that differ.
pub proof fn law_texts_are_ordered_by_character(p: Seq<char>, a: Seq<char>, b: Seq<char>)
    ensures
        text_le(p, p + a),
        a.len() > 0 && b.len() > 0 && (a[0] as u32) < (b[0] as u32) ==> text_le(p + a, p + b)
            && !text_le(p + b, p + a),
        a.len() > 0 ==> !text_le(p + a, p),
    decreases p.len(),
{
    if p.len() > 0 {
        law_texts_are_ordered_by_character(p.skip(1), a, b);
        assert((p + a).skip(1) =~= p.skip(1) + a);
        assert((p + b).skip(1) =~= p.skip(1) + b);
    } else {
        assert(p + a =~= a);
        assert(p + b =~= b);
    }
}

} // verus!
