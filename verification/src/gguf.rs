//! The header of a GGUF model file: how many layers the model has, and what
//! its key-value cache costs per token.

use vstd::prelude::*;
use vstd::slice::slice_subrange;
use crate::html::{lossy, lossy_text};
use crate::text::{begins, chars_of, ends, ends_with, equal, starts_with, text_of};

verus! {

/// "GGUF", read as a little-endian number.
pub const MAGIC: u64 = 0x4655_4747;

/// The longest string that is read.
pub const MAX_STRING: u64 = 0x10_0000;

/// What a header tells about a model's shape.
#[derive(Clone, Copy, Debug, PartialEq, Eq, Structural)]
pub struct GgufDims {
    /// How many pieces the weights split into where only part of the model
    /// goes to the GPU.
    pub layers: u64,
    pub kv_bytes_per_token: u64,
}

/// What reading gives: a value and the position after it, or that the bytes
/// end too early, or that the file is not one that can be read.
pub enum Scan<T> {
    Got(T, int),
    Short,
    Bad,
}

/// The value of bytes in little-endian order.
pub open spec fn little_endian(b: Seq<u8>) -> nat
    decreases b.len(),
{
    if b.len() == 0 {
        0
    } else {
        (b[0] as nat) + 256 * little_endian(b.skip(1))
    }
}

pub open spec fn uint_at(b: Seq<u8>, p: int, n: int) -> Scan<nat> {
    if p + n > b.len() {
        Scan::Short
    } else {
        Scan::Got(little_endian(b.subrange(p, p + n)), p + n)
    }
}

pub open spec fn string_at(b: Seq<u8>, p: int) -> Scan<Seq<char>> {
    match uint_at(b, p, 8) {
        Scan::Got(n, q) => if n > MAX_STRING {
            Scan::Bad
        } else if q + n > b.len() {
            Scan::Short
        } else {
            Scan::Got(lossy(b.subrange(q, q + n)), q + n)
        },
        Scan::Short => Scan::Short,
        Scan::Bad => Scan::Bad,
    }
}

/// The position after `n` strings.
pub open spec fn strings_end(b: Seq<u8>, p: int, n: nat) -> Scan<()>
    decreases n,
{
    if n == 0 {
        Scan::Got((), p)
    } else {
        match string_at(b, p) {
            Scan::Got(_, q) => strings_end(b, q, (n - 1) as nat),
            Scan::Short => Scan::Short,
            Scan::Bad => Scan::Bad,
        }
    }
}

/// The sum of the `n` numbers of `size` bytes at a position.
pub open spec fn sum_at(b: Seq<u8>, p: int, size: int, n: nat) -> nat
    decreases n,
{
    if n == 0 {
        0
    } else {
        sum_at(b, p, size, (n - 1) as nat) + little_endian(
            b.subrange(p + size * (n - 1), p + size * n),
        )
    }
}

/// How many bytes a value of a type takes; strings and arrays vary.
pub open spec fn scalar_len(t: nat) -> Option<int> {
    if t == 0 || t == 1 || t == 7 {
        Some(1)
    } else if t == 2 || t == 3 {
        Some(2)
    } else if 4 <= t <= 6 {
        Some(4)
    } else if 10 <= t <= 12 {
        Some(8)
    } else {
        None
    }
}

/// What has been read of a model's metadata.
pub struct MetaView {
    /// The prefix of the keys that describe the model, empty until it is known.
    pub prefix: Seq<char>,
    pub layers: Option<nat>,
    pub kv_heads: Option<nat>,
    /// The sum of head counts given layer by layer.
    pub kv_heads_sum: Option<nat>,
    pub key_len: Option<nat>,
    pub val_len: Option<nat>,
    pub embd: Option<nat>,
    pub heads: Option<nat>,
}

pub open spec fn no_meta() -> MetaView {
    MetaView {
        prefix: seq![],
        layers: None,
        kv_heads: None,
        kv_heads_sum: None,
        key_len: None,
        val_len: None,
        embd: None,
        heads: None,
    }
}

/// Whether a key describes the model.
pub open spec fn wanted(m: MetaView, key: Seq<char>) -> bool {
    m.prefix.len() > 0 && begins(key, m.prefix)
}

/// The metadata once the number under a key is known.
pub open spec fn with_number(m: MetaView, key: Seq<char>, n: nat) -> MetaView {
    if !wanted(m, key) {
        m
    } else {
        let sub = key.skip(m.prefix.len() as int);
        if sub == "block_count"@ {
            MetaView { layers: Some(n), ..m }
        } else if sub == "attention.head_count_kv"@ {
            MetaView { kv_heads: Some(n), ..m }
        } else if sub == "attention.head_count"@ {
            MetaView { heads: Some(n), ..m }
        } else if sub == "attention.key_length"@ {
            MetaView { key_len: Some(n), ..m }
        } else if sub == "attention.value_length"@ {
            MetaView { val_len: Some(n), ..m }
        } else if sub == "embedding_length"@ {
            MetaView { embd: Some(n), ..m }
        } else {
            m
        }
    }
}

/// Whether everything that matters has been read once a key is met: the
/// tokenizer's arrays come after it.
pub open spec fn complete_at(m: MetaView, key: Seq<char>) -> bool {
    begins(key, "tokenizer."@) && m.layers is Some && (m.kv_heads is Some || m.kv_heads_sum is Some)
}

/// The metadata after a value of type `t` at a position.
pub open spec fn value_at(b: Seq<u8>, p: int, m: MetaView, key: Seq<char>, t: nat) -> Scan<
    MetaView,
> {
    if t == 8 {
        match string_at(b, p) {
            Scan::Got(v, q) => if key == "general.architecture"@ {
                Scan::Got(MetaView { prefix: v + "."@, ..m }, q)
            } else {
                Scan::Got(m, q)
            },
            Scan::Short => Scan::Short,
            Scan::Bad => Scan::Bad,
        }
    } else if t == 9 {
        match uint_at(b, p, 4) {
            Scan::Got(et, q) => match uint_at(b, q, 8) {
                Scan::Got(n, s) => if et == 8 {
                    match strings_end(b, s, n) {
                        Scan::Got(_, e) => Scan::Got(m, e),
                        Scan::Short => Scan::Short,
                        Scan::Bad => Scan::Bad,
                    }
                } else {
                    match scalar_len(et) {
                        Some(size) => if s + size * n > b.len() {
                            Scan::Short
                        } else if wanted(m, key) && ends(key, ".attention.head_count_kv"@) {
                            Scan::Got(
                                MetaView { kv_heads_sum: Some(sum_at(b, s, size, n)), ..m },
                                s + size * n,
                            )
                        } else {
                            Scan::Got(m, s + size * n)
                        },
                        None => Scan::Bad,
                    }
                },
                Scan::Short => Scan::Short,
                Scan::Bad => Scan::Bad,
            },
            Scan::Short => Scan::Short,
            Scan::Bad => Scan::Bad,
        }
    } else {
        match scalar_len(t) {
            Some(size) => match uint_at(b, p, size) {
                Scan::Got(n, q) => Scan::Got(with_number(m, key, n), q),
                Scan::Short => Scan::Short,
                Scan::Bad => Scan::Bad,
            },
            None => Scan::Bad,
        }
    }
}

/// The metadata after `count` entries, or after those before the tokenizer's.
pub open spec fn entries_at(b: Seq<u8>, p: int, m: MetaView, count: nat) -> Scan<MetaView>
    decreases count,
{
    if count == 0 {
        Scan::Got(m, p)
    } else {
        match string_at(b, p) {
            Scan::Got(key, q) => match uint_at(b, q, 4) {
                Scan::Got(t, s) => if complete_at(m, key) {
                    Scan::Got(m, s)
                } else {
                    match value_at(b, s, m, key, t) {
                        Scan::Got(next, e) => entries_at(b, e, next, (count - 1) as nat),
                        Scan::Short => Scan::Short,
                        Scan::Bad => Scan::Bad,
                    }
                },
                Scan::Short => Scan::Short,
                Scan::Bad => Scan::Bad,
            },
            Scan::Short => Scan::Short,
            Scan::Bad => Scan::Bad,
        }
    }
}

/// The metadata of a file.
pub open spec fn header_of(b: Seq<u8>) -> Scan<MetaView> {
    match uint_at(b, 0, 4) {
        Scan::Got(magic, _) => if magic != MAGIC {
            Scan::Bad
        } else {
            match uint_at(b, 4, 4) {
                Scan::Got(version, _) => if version < 2 || version > 3 {
                    Scan::Bad
                } else {
                    match uint_at(b, 8, 8) {
                        Scan::Got(_, _) => match uint_at(b, 16, 8) {
                            Scan::Got(count, p) => entries_at(b, p, no_meta(), count),
                            Scan::Short => Scan::Short,
                            Scan::Bad => Scan::Bad,
                        },
                        Scan::Short => Scan::Short,
                        Scan::Bad => Scan::Bad,
                    }
                },
                Scan::Short => Scan::Short,
                Scan::Bad => Scan::Bad,
            }
        },
        Scan::Short => Scan::Short,
        Scan::Bad => Scan::Bad,
    }
}

/// The metadata of a model.
pub struct Meta {
    pub prefix: String,
    pub layers: Option<u64>,
    pub kv_heads: Option<u64>,
    pub kv_heads_sum: Option<u128>,
    pub key_len: Option<u64>,
    pub val_len: Option<u64>,
    pub embd: Option<u64>,
    pub heads: Option<u64>,
}

pub open spec fn opt_nat(n: Option<u64>) -> Option<nat> {
    match n {
        Some(v) => Some(v as nat),
        None => None,
    }
}

pub open spec fn opt_nat_wide(n: Option<u128>) -> Option<nat> {
    match n {
        Some(v) => Some(v as nat),
        None => None,
    }
}

impl View for Meta {
    type V = MetaView;

    open spec fn view(&self) -> MetaView {
        MetaView {
            prefix: self.prefix@,
            layers: opt_nat(self.layers),
            kv_heads: opt_nat(self.kv_heads),
            kv_heads_sum: opt_nat_wide(self.kv_heads_sum),
            key_len: opt_nat(self.key_len),
            val_len: opt_nat(self.val_len),
            embd: opt_nat(self.embd),
            heads: opt_nat(self.heads),
        }
    }
}

/// What reading a header gives.
pub enum HeaderRead {
    Fields(Meta),
    /// The bytes end before the metadata does.
    Short,
    /// Not a file that can be read.
    Bad,
}

proof fn lemma_little_endian_bound(b: Seq<u8>)
    requires
        b.len() <= 8,
    ensures
        little_endian(b) <= u64::MAX,
{
    reveal_with_fuel(little_endian, 10);
}

fn read_uint(b: &[u8], p: usize, n: usize) -> (r: Option<u64>)
    requires
        n <= 8,
        p <= b.len(),
    ensures
        match r {
            Some(v) => uint_at(b@, p as int, n as int) == Scan::Got(v as nat, p + n) && p + n
                <= b.len(),
            None => uint_at(b@, p as int, n as int) == Scan::<nat>::Short,
        },
{
    if b.len() - p < n {
        return None;
    }
    let ghost part = b@.subrange(p as int, p + n);
    let mut v: u64 = 0;
    let mut i: usize = n;
    assert(part.skip(n as int) =~= seq![]);
    while i > 0
        invariant
            n <= 8,
            i <= n,
            p + n <= b.len(),
            part == b@.subrange(p as int, p + n),
            v == little_endian(part.skip(i as int)),
        decreases i,
    {
        proof {
            lemma_little_endian_bound(part.skip(i - 1));
            assert(part.skip(i - 1).skip(1) =~= part.skip(i as int));
            assert(part.skip(i - 1)[0] == b@[p + i - 1]);
        }
        v = (b[p + i - 1] as u64) + 256 * v;
        i -= 1;
    }
    assert(part.skip(0) =~= part);
    Some(v)
}

/// A value that was read and the position after it, or the reason why not.
enum Taken<T> {
    Got(T, usize),
    Short,
    Bad,
}

fn read_string(b: &[u8], p: usize) -> (r: Taken<String>)
    requires
        p <= b.len(),
    ensures
        match r {
            Taken::Got(t, q) => string_at(b@, p as int) == Scan::Got(t@, q as int) && q <= b.len(),
            Taken::Short => string_at(b@, p as int) == Scan::<Seq<char>>::Short,
            Taken::Bad => string_at(b@, p as int) == Scan::<Seq<char>>::Bad,
        },
{
    match read_uint(b, p, 8) {
        Some(n) => {
            if n > MAX_STRING {
                return Taken::Bad;
            }
            let q: usize = p + 8;
            if (b.len() - q) as u64 >= n {
                let e: usize = q + n as usize;
                Taken::Got(lossy_text(slice_subrange(b, q, e)), e)
            } else {
                Taken::Short
            }
        },
        None => Taken::Short,
    }
}

fn skip_strings(b: &[u8], p: usize, n: u64) -> (r: Taken<()>)
    requires
        p <= b.len(),
    ensures
        match r {
            Taken::Got(_, q) => strings_end(b@, p as int, n as nat) == Scan::Got((), q as int) && q
                <= b.len(),
            Taken::Short => strings_end(b@, p as int, n as nat) == Scan::<()>::Short,
            Taken::Bad => strings_end(b@, p as int, n as nat) == Scan::<()>::Bad,
        },
{
    let mut left: u64 = n;
    let mut at: usize = p;
    while left > 0
        invariant
            at <= b.len(),
            strings_end(b@, p as int, n as nat) == strings_end(b@, at as int, left as nat),
        decreases left,
    {
        match read_string(b, at) {
            Taken::Got(_, q) => {
                at = q;
                left -= 1;
            },
            Taken::Short => {
                return Taken::Short;
            },
            Taken::Bad => {
                return Taken::Bad;
            },
        }
    }
    Taken::Got((), at)
}

proof fn lemma_sum_bound(b: Seq<u8>, p: int, size: int, n: nat)
    requires
        0 <= p,
        1 <= size <= 8,
        p + size * n <= b.len(),
    ensures
        sum_at(b, p, size, n) <= n * u64::MAX,
    decreases n,
{
    if n > 0 {
        assert(size * (n - 1) <= size * n) by (nonlinear_arith)
            requires
                size >= 1,
        ;
        assert(size * n == size * (n - 1) + size) by (nonlinear_arith);
        assert(size * (n - 1) >= 0) by (nonlinear_arith)
            requires
                size >= 1,
                n >= 1,
        ;
        lemma_sum_bound(b, p, size, (n - 1) as nat);
        lemma_little_endian_bound(b.subrange(p + size * (n - 1), p + size * n));
        assert((n - 1) * u64::MAX + u64::MAX == n * u64::MAX) by (nonlinear_arith);
    }
}

fn sum_numbers(b: &[u8], p: usize, size: usize, n: u64) -> (r: u128)
    requires
        1 <= size <= 8,
        p + size * n <= b.len(),
    ensures
        r == sum_at(b@, p as int, size as int, n as nat),
{
    let mut sum: u128 = 0;
    let mut i: u64 = 0;
    let mut at: usize = p;
    while i < n
        invariant
            1 <= size <= 8,
            p + size * n <= b.len(),
            i <= n,
            at == p + size * i,
            sum == sum_at(b@, p as int, size as int, i as nat),
            sum <= i * u64::MAX,
        decreases n - i,
    {
        assert(size * (i + 1) == size * i + size) by (nonlinear_arith);
        assert(size * (i + 1) <= size * n) by (nonlinear_arith)
            requires
                i + 1 <= n,
                size >= 1,
        ;
        assert(i * u64::MAX + u64::MAX == (i + 1) * u64::MAX) by (nonlinear_arith);
        assert((i + 1) * u64::MAX <= 0xffff_ffff_ffff_ffff * 0xffff_ffff_ffff_ffff)
            by (nonlinear_arith)
            requires
                i + 1 <= u64::MAX,
        ;
        match read_uint(b, at, size) {
            Some(v) => {
                assert(size * (i + 1 - 1) == size * i);
                sum = sum + v as u128;
            },
            None => {},
        }
        at = at + size;
        i += 1;
    }
    sum
}

fn scalar_size(t: u64) -> (r: Option<usize>)
    ensures
        match r {
            Some(n) => scalar_len(t as nat) == Some(n as int) && 1 <= n <= 8,
            None => scalar_len(t as nat) is None,
        },
{
    if t == 0 || t == 1 || t == 7 {
        Some(1)
    } else if t == 2 || t == 3 {
        Some(2)
    } else if 4 <= t && t <= 6 {
        Some(4)
    } else if 10 <= t && t <= 12 {
        Some(8)
    } else {
        None
    }
}

fn is_wanted(m: &Meta, key: &str) -> (r: bool)
    ensures
        r == wanted(m@, key@),
{
    !m.prefix.as_str().is_empty() && starts_with(key, m.prefix.as_str())
}

fn set_number(m: Meta, key: &str, n: u64) -> (r: Meta)
    ensures
        r@ == with_number(m@, key@, n as nat),
{
    if !is_wanted(&m, key) {
        return m;
    }
    let k = chars_of(key);
    let p = chars_of(m.prefix.as_str());
    let rest = slice_subrange(k.as_slice(), p.len(), k.len());
    assert(rest@ =~= key@.skip(m@.prefix.len() as int));
    let sub = text_of(rest);
    let mut m = m;
    if equal(sub.as_str(), "block_count") {
        m.layers = Some(n);
    } else if equal(sub.as_str(), "attention.head_count_kv") {
        m.kv_heads = Some(n);
    } else if equal(sub.as_str(), "attention.head_count") {
        m.heads = Some(n);
    } else if equal(sub.as_str(), "attention.key_length") {
        m.key_len = Some(n);
    } else if equal(sub.as_str(), "attention.value_length") {
        m.val_len = Some(n);
    } else if equal(sub.as_str(), "embedding_length") {
        m.embd = Some(n);
    }
    m
}

fn read_array(b: &[u8], p: usize, m: Meta, key: &str) -> (r: Taken<Meta>)
    requires
        p <= b.len(),
    ensures
        match r {
            Taken::Got(next, q) => value_at(b@, p as int, m@, key@, 9) == Scan::Got(
                next@,
                q as int,
            ) && q <= b.len(),
            Taken::Short => value_at(b@, p as int, m@, key@, 9) == Scan::<MetaView>::Short,
            Taken::Bad => value_at(b@, p as int, m@, key@, 9) == Scan::<MetaView>::Bad,
        },
{
    let et: u64 = match read_uint(b, p, 4) {
        Some(v) => v,
        None => {
            return Taken::Short;
        },
    };
    let n: u64 = match read_uint(b, p + 4, 8) {
        Some(v) => v,
        None => {
            return Taken::Short;
        },
    };
    let s: usize = p + 12;
    if et == 8 {
        return match skip_strings(b, s, n) {
            Taken::Got(_, e) => Taken::Got(m, e),
            Taken::Short => Taken::Short,
            Taken::Bad => Taken::Bad,
        };
    }
    match scalar_size(et) {
        Some(size) => {
            assert(size * n <= 8 * 0xffff_ffff_ffff_ffff) by (nonlinear_arith)
                requires
                    size <= 8,
                    n <= u64::MAX,
                    n >= 0,
                    size >= 0,
            ;
            let total: u128 = (size as u128) * (n as u128);
            if total > (b.len() - s) as u128 {
                return Taken::Short;
            }
            let end: usize = s + total as usize;
            if is_wanted(&m, key) && ends_with(key, ".attention.head_count_kv") {
                let sum: u128 = sum_numbers(b, s, size, n);
                let mut m = m;
                m.kv_heads_sum = Some(sum);
                Taken::Got(m, end)
            } else {
                Taken::Got(m, end)
            }
        },
        None => Taken::Bad,
    }
}

fn read_value(b: &[u8], p: usize, m: Meta, key: &str, t: u64) -> (r: Taken<Meta>)
    requires
        p <= b.len(),
    ensures
        match r {
            Taken::Got(next, q) => value_at(b@, p as int, m@, key@, t as nat) == Scan::Got(
                next@,
                q as int,
            ) && q <= b.len(),
            Taken::Short => value_at(b@, p as int, m@, key@, t as nat)
                == Scan::<MetaView>::Short,
            Taken::Bad => value_at(b@, p as int, m@, key@, t as nat) == Scan::<MetaView>::Bad,
        },
{
    if t == 8 {
        match read_string(b, p) {
            Taken::Got(v, q) => {
                if equal(key, "general.architecture") {
                    let mut prefix: String = v;
                    prefix.append(".");
                    let mut m = m;
                    m.prefix = prefix;
                    Taken::Got(m, q)
                } else {
                    Taken::Got(m, q)
                }
            },
            Taken::Short => Taken::Short,
            Taken::Bad => Taken::Bad,
        }
    } else if t == 9 {
        read_array(b, p, m, key)
    } else {
        match scalar_size(t) {
            Some(size) => match read_uint(b, p, size) {
                Some(n) => Taken::Got(set_number(m, key, n), p + size),
                None => Taken::Short,
            },
            None => Taken::Bad,
        }
    }
}

fn read_entries(b: &[u8], p: usize, count: u64) -> (r: HeaderRead)
    requires
        p <= b.len(),
    ensures
        match r {
            HeaderRead::Fields(m) => entries_at(b@, p as int, no_meta(), count as nat) matches
                Scan::Got(v, _) && v == m@,
            HeaderRead::Short => entries_at(b@, p as int, no_meta(), count as nat)
                == Scan::<MetaView>::Short,
            HeaderRead::Bad => entries_at(b@, p as int, no_meta(), count as nat)
                == Scan::<MetaView>::Bad,
        },
{
    let mut m = Meta {
        prefix: String::new(),
        layers: None,
        kv_heads: None,
        kv_heads_sum: None,
        key_len: None,
        val_len: None,
        embd: None,
        heads: None,
    };
    assert(m@.prefix =~= no_meta().prefix);
    let mut at: usize = p;
    let mut left: u64 = count;
    while left > 0
        invariant
            at <= b.len(),
            entries_at(b@, p as int, no_meta(), count as nat) == entries_at(
                b@,
                at as int,
                m@,
                left as nat,
            ),
        decreases left,
    {
        let (key, q) = match read_string(b, at) {
            Taken::Got(key, q) => (key, q),
            Taken::Short => {
                return HeaderRead::Short;
            },
            Taken::Bad => {
                return HeaderRead::Bad;
            },
        };
        let t: u64 = match read_uint(b, q, 4) {
            Some(t) => t,
            None => {
                return HeaderRead::Short;
            },
        };
        if starts_with(key.as_str(), "tokenizer.") && m.layers.is_some() && (m.kv_heads.is_some()
            || m.kv_heads_sum.is_some()) {
            return HeaderRead::Fields(m);
        }
        match read_value(b, q + 4, m, key.as_str(), t) {
            Taken::Got(next, e) => {
                m = next;
                at = e;
                left -= 1;
            },
            Taken::Short => {
                return HeaderRead::Short;
            },
            Taken::Bad => {
                return HeaderRead::Bad;
            },
        }
    }
    HeaderRead::Fields(m)
}

/// Reads the metadata out of the first bytes of a file.
pub fn read_header(b: &[u8]) -> (r: HeaderRead)
    ensures
        match r {
            HeaderRead::Fields(m) => header_of(b@) matches Scan::Got(v, _) && v == m@,
            HeaderRead::Short => header_of(b@) == Scan::<MetaView>::Short,
            HeaderRead::Bad => header_of(b@) == Scan::<MetaView>::Bad,
        },
{
    match read_uint(b, 0, 4) {
        Some(magic) => {
            if magic != MAGIC {
                return HeaderRead::Bad;
            }
        },
        None => {
            return HeaderRead::Short;
        },
    }
    match read_uint(b, 4, 4) {
        Some(version) => {
            if version < 2 || version > 3 {
                return HeaderRead::Bad;
            }
        },
        None => {
            return HeaderRead::Short;
        },
    }
    match read_uint(b, 8, 8) {
        Some(_) => {},
        None => {
            return HeaderRead::Short;
        },
    }
    match read_uint(b, 16, 8) {
        Some(count) => read_entries(b, 24, count),
        None => HeaderRead::Short,
    }
}

// ---------------------------------------------------------------------------
// The model's shape

/// The length of a key vector: as given, or the embedding split among the
/// heads.
pub open spec fn head_dim(m: MetaView) -> Option<nat> {
    match m.key_len {
        Some(n) => Some(n),
        None => match (m.embd, m.heads) {
            (Some(e), Some(h)) => Some(e / h),
            _ => None,
        },
    }
}

/// The length of a value vector: as given, or that of a key vector.
pub open spec fn value_dim(m: MetaView) -> nat {
    match m.val_len {
        Some(n) => n,
        None => head_dim(m).unwrap_or(0),
    }
}

/// Whether the metadata gives what the shape needs.
pub open spec fn has_shape(m: MetaView) -> bool {
    m.layers is Some && head_dim(m) is Some && (m.kv_heads is Some || m.kv_heads_sum is Some)
}

/// How many key-value heads all layers have together: their sum where they are
/// given layer by layer, else as many in every layer.
pub open spec fn total_heads(m: MetaView) -> nat {
    match m.kv_heads_sum {
        Some(n) => n,
        None => m.kv_heads->0 * m.layers->0,
    }
}

/// Bytes of key-value cache per token: two vectors of two-byte numbers for
/// every head.
pub open spec fn cache_cost(m: MetaView) -> nat {
    total_heads(m) * (head_dim(m)->0 + value_dim(m)) * 2
}

/// Whether the numbers of the metadata can be worked with: nothing is divided
/// by zero, and no sum or product leaves 64 bits.
pub open spec fn computable(m: MetaView) -> bool {
    &&& m.kv_heads_sum is Some ==> m.kv_heads_sum->0 <= u64::MAX
    &&& m.layers is Some && m.key_len is None && m.embd is Some ==> m.heads != Some(0nat)
    &&& has_shape(m) ==> {
        &&& m.kv_heads_sum is None ==> m.kv_heads->0 * m.layers->0 <= u64::MAX
        &&& head_dim(m)->0 + value_dim(m) <= u64::MAX
        &&& cache_cost(m) <= u64::MAX
    }
}

impl Meta {
    /// Whether the numbers can be worked with.
    pub fn is_computable(&self) -> (r: bool)
        ensures
            r == computable(self@),
    {
        match self.kv_heads_sum {
            Some(s) => {
                if s > u64::MAX as u128 {
                    return false;
                }
            },
            None => {},
        }
        if self.layers.is_some() && self.key_len.is_none() && self.embd.is_some() {
            match self.heads {
                Some(h) => {
                    if h == 0 {
                        return false;
                    }
                },
                None => {},
            }
        }
        let layers: u64 = match self.layers {
            Some(n) => n,
            None => {
                return true;
            },
        };
        let key: u64 = match self.key_len {
            Some(n) => n,
            None => match (self.embd, self.heads) {
                (Some(e), Some(h)) => e / h,
                _ => {
                    return true;
                },
            },
        };
        let value: u64 = match self.val_len {
            Some(n) => n,
            None => key,
        };
        let heads: u128 = match (self.kv_heads_sum, self.kv_heads) {
            (Some(s), _) => s,
            (None, Some(n)) => {
                assert((n as int) * (layers as int) <= u64::MAX * u64::MAX) by (nonlinear_arith)
                    requires
                        0 <= n <= u64::MAX,
                        0 <= layers <= u64::MAX,
                ;
                let product: u128 = (n as u128) * (layers as u128);
                if product > u64::MAX as u128 {
                    return false;
                }
                product
            },
            (None, None) => {
                return true;
            },
        };
        let both: u128 = key as u128 + value as u128;
        if both > u64::MAX as u128 {
            return false;
        }
        assert((heads as int) * (both as int) <= u64::MAX * u64::MAX) by (nonlinear_arith)
            requires
                0 <= heads <= u64::MAX,
                0 <= both <= u64::MAX,
        ;
        let cost: u128 = heads * both;
        cost <= 0x7fff_ffff_ffff_ffff
    }

    /// The model's shape, where the metadata gives it.
    pub fn dims(&self) -> (r: Option<GgufDims>)
        requires
            computable(self@),
        ensures
            match r {
                Some(d) => has_shape(self@) && d.layers == self@.layers->0 && d.kv_bytes_per_token
                    == cache_cost(self@),
                None => !has_shape(self@),
            },
    {
        let layers: u64 = match self.layers {
            Some(n) => n,
            None => {
                return None;
            },
        };
        let key: u64 = match self.key_len {
            Some(n) => n,
            None => match (self.embd, self.heads) {
                (Some(e), Some(h)) => e / h,
                _ => {
                    return None;
                },
            },
        };
        let value: u64 = match self.val_len {
            Some(n) => n,
            None => key,
        };
        let heads: u64 = match (self.kv_heads_sum, self.kv_heads) {
            (Some(s), _) => s as u64,
            (None, Some(n)) => n * layers,
            (None, None) => {
                return None;
            },
        };
        let ghost both = (key + value) as int;
        assert(heads * both <= cache_cost(self@));
        Some(GgufDims { layers, kv_bytes_per_token: heads * (key + value) * 2 })
    }
}

/// Whether a file's metadata, if it can be read, can be worked with.
pub open spec fn header_ok(b: Seq<u8>) -> bool {
    header_of(b) matches Scan::Got(m, _) ==> computable(m)
}

/// The shape that a file's header states.
pub open spec fn dims_of(b: Seq<u8>) -> Option<GgufDims> {
    match header_of(b) {
        Scan::Got(m, _) => if has_shape(m) {
            Some(
                GgufDims { layers: m.layers->0 as u64, kv_bytes_per_token: cache_cost(m) as u64 },
            )
        } else {
            None
        },
        _ => None,
    }
}

/// Reads the number of layers and the cache cost per token out of a file's
/// header.
pub fn gguf_dims(b: &[u8]) -> (r: Option<GgufDims>)
    requires
        header_ok(b@),
    ensures
        r == dims_of(b@),
{
    match read_header(b) {
        HeaderRead::Fields(m) => m.dims(),
        _ => None,
    }
}

/// Bytes of key-value cache per token, read from a file's header.
pub fn kv_bytes_per_token(b: &[u8]) -> (r: Option<u64>)
    requires
        header_ok(b@),
    ensures
        match r {
            Some(n) => dims_of(b@) matches Some(d) && d.kv_bytes_per_token == n,
            None => dims_of(b@) is None,
        },
{
    match gguf_dims(b) {
        Some(d) => Some(d.kv_bytes_per_token),
        None => None,
    }
}

// ---------------------------------------------------------------------------
// Laws

proof fn lemma_uint_longer(b: Seq<u8>, more: Seq<u8>, p: int, n: int)
    requires
        0 <= p,
        0 <= n,
    ensures
        !(uint_at(b, p, n) is Short) ==> uint_at(b + more, p, n) == uint_at(b, p, n),
        uint_at(b, p, n) matches Scan::Got(_, q) ==> q == p + n,
{
    if p + n <= b.len() {
        assert((b + more).subrange(p, p + n) =~= b.subrange(p, p + n));
    }
}

proof fn lemma_string_longer(b: Seq<u8>, more: Seq<u8>, p: int)
    requires
        0 <= p,
    ensures
        !(string_at(b, p) is Short) ==> string_at(b + more, p) == string_at(b, p),
        string_at(b, p) matches Scan::Got(_, q) ==> q >= p + 8,
{
    lemma_uint_longer(b, more, p, 8);
    match uint_at(b, p, 8) {
        Scan::Got(n, q) => {
            if q + n <= b.len() {
                assert((b + more).subrange(q, q + n) =~= b.subrange(q, q + n));
            }
        },
        _ => {},
    }
}

proof fn lemma_strings_longer(b: Seq<u8>, more: Seq<u8>, p: int, n: nat)
    requires
        0 <= p,
    ensures
        !(strings_end(b, p, n) is Short) ==> strings_end(b + more, p, n) == strings_end(b, p, n),
        strings_end(b, p, n) matches Scan::Got(_, q) ==> q >= p,
    decreases n,
{
    if n > 0 {
        lemma_string_longer(b, more, p);
        match string_at(b, p) {
            Scan::Got(_, q) => {
                lemma_strings_longer(b, more, q, (n - 1) as nat);
            },
            _ => {},
        }
    }
}

proof fn lemma_sum_longer(b: Seq<u8>, more: Seq<u8>, p: int, size: int, n: nat)
    requires
        0 <= p,
        1 <= size,
        p + size * n <= b.len(),
    ensures
        sum_at(b + more, p, size, n) == sum_at(b, p, size, n),
    decreases n,
{
    if n > 0 {
        assert(size * n == size * (n - 1) + size) by (nonlinear_arith);
        assert(size * (n - 1) >= 0) by (nonlinear_arith)
            requires
                size >= 1,
                n >= 1,
        ;
        lemma_sum_longer(b, more, p, size, (n - 1) as nat);
        assert((b + more).subrange(p + size * (n - 1), p + size * n) =~= b.subrange(
            p + size * (n - 1),
            p + size * n,
        ));
    }
}

proof fn lemma_value_longer(b: Seq<u8>, more: Seq<u8>, p: int, m: MetaView, key: Seq<char>, t: nat)
    requires
        0 <= p,
    ensures
        !(value_at(b, p, m, key, t) is Short) ==> value_at(b + more, p, m, key, t) == value_at(
            b,
            p,
            m,
            key,
            t,
        ),
        value_at(b, p, m, key, t) matches Scan::Got(_, q) ==> q >= p,
{
    if t == 8 {
        lemma_string_longer(b, more, p);
    } else if t == 9 {
        lemma_uint_longer(b, more, p, 4);
        match uint_at(b, p, 4) {
            Scan::Got(et, q) => {
                lemma_uint_longer(b, more, q, 8);
                match uint_at(b, q, 8) {
                    Scan::Got(n, s) => {
                        lemma_strings_longer(b, more, s, n);
                        match scalar_len(et) {
                            Some(size) => {
                                assert(size * n >= 0) by (nonlinear_arith)
                                    requires
                                        size >= 1,
                                        n >= 0,
                                ;
                                if s + size * n <= b.len() {
                                    lemma_sum_longer(b, more, s, size, n);
                                }
                            },
                            None => {},
                        }
                    },
                    _ => {},
                }
            },
            _ => {},
        }
    } else {
        match scalar_len(t) {
            Some(size) => {
                lemma_uint_longer(b, more, p, size);
            },
            None => {},
        }
    }
}

proof fn lemma_entries_longer(b: Seq<u8>, more: Seq<u8>, p: int, m: MetaView, count: nat)
    requires
        0 <= p,
    ensures
        !(entries_at(b, p, m, count) is Short) ==> entries_at(b + more, p, m, count) == entries_at(
            b,
            p,
            m,
            count,
        ),
    decreases count,
{
    if count > 0 {
        lemma_string_longer(b, more, p);
        match string_at(b, p) {
            Scan::Got(key, q) => {
                lemma_uint_longer(b, more, q, 4);
                match uint_at(b, q, 4) {
                    Scan::Got(t, s) => {
                        lemma_value_longer(b, more, s, m, key, t);
                        match value_at(b, s, m, key, t) {
                            Scan::Got(next, e) => {
                                lemma_entries_longer(b, more, e, next, (count - 1) as nat);
                            },
                            _ => {},
                        }
                    },
                    _ => {},
                }
            },
            _ => {},
        }
    }
}

/// Once the first bytes of a file decide what its header says, reading more of
/// the file changes nothing: a header may be read from a growing prefix.
pub proof fn law_prefix_decides(b: Seq<u8>, more: Seq<u8>)
    ensures
        !(header_of(b) is Short) ==> header_of(b + more) == header_of(b),
{
    lemma_uint_longer(b, more, 0, 4);
    lemma_uint_longer(b, more, 4, 4);
    lemma_uint_longer(b, more, 8, 8);
    lemma_uint_longer(b, more, 16, 8);
    match uint_at(b, 16, 8) {
        Scan::Got(count, p) => {
            lemma_entries_longer(b, more, p, no_meta(), count);
        },
        _ => {},
    }
}

/// Where no key length is given, a head's share of the embedding is as long as
/// all heads together can have it; a length that is given counts as it is.
pub proof fn law_heads_share_the_embedding(m: MetaView)
    ensures
        m.key_len matches Some(n) ==> head_dim(m) == Some(n),
        m.key_len is None && m.embd is Some && m.heads is Some && m.heads->0 > 0 ==> (head_dim(
            m,
        ) matches Some(d) && d * m.heads->0 <= m.embd->0 && m.embd->0 < (d + 1) * m.heads->0),
        m.key_len is None && (m.embd is None || m.heads is None) ==> head_dim(m) is None,
        m.val_len matches Some(n) ==> value_dim(m) == n,
        m.val_len is None ==> (head_dim(m) matches Some(d) ==> value_dim(m) == d),
{
    if m.key_len is None && m.embd is Some && m.heads is Some && m.heads->0 > 0 {
        let (e, h) = (m.embd->0, m.heads->0);
        let d = e / h;
        assert(d * h <= e && e < (d + 1) * h) by (nonlinear_arith)
            requires
                d == e / h,
                h > 0,
        ;
    }
}

/// Every layer keeps two bytes for each number of a key and of a value, for each
/// of its heads: with as many of those as there are heads, and the embedding split
/// evenly, four bytes for each number of the embedding.
pub proof fn law_cache_holds_every_layer(m: MetaView)
    requires
        m.layers is Some,
        m.kv_heads is Some,
        m.kv_heads_sum is None,
        m.embd is Some,
        m.heads is Some,
        m.heads->0 > 0,
        m.key_len is None,
        m.val_len is None,
        m.embd->0 % m.heads->0 == 0,
    ensures
        m.kv_heads->0 == m.heads->0 ==> cache_cost(m) == m.layers->0 * m.embd->0 * 4,
        cache_cost(m) * m.heads->0 == m.layers->0 * m.embd->0 * 4 * m.kv_heads->0,
{
    let (e, h, k, l) = (m.embd->0, m.heads->0, m.kv_heads->0, m.layers->0);
    let d = e / h;
    assert(d * h == e) by (nonlinear_arith)
        requires
            d == e / h,
            e % h == 0,
            h > 0,
    ;
    assert(cache_cost(m) == (k * l) * (d + d) * 2);
    assert((k * l) * (d + d) * 2 * h == l * e * 4 * k) by (nonlinear_arith)
        requires
            d * h == e,
    ;
    if k == h {
        assert((h * l) * (d + d) * 2 == l * e * 4) by (nonlinear_arith)
            requires
                d * h == e,
        ;
    }
}

/// Head counts that are given layer by layer cost what their sum does: as much as
/// one count for all layers where they come to the same.
pub proof fn law_layers_may_differ(m: MetaView, one: MetaView)
    requires
        m.kv_heads_sum is Some,
        one == (MetaView { kv_heads_sum: None, ..m }),
        one.kv_heads is Some,
        m.layers is Some,
        m.kv_heads_sum->0 == one.kv_heads->0 * m.layers->0,
    ensures
        cache_cost(m) == cache_cost(one),
        head_dim(m) is Some ==> has_shape(m) && has_shape(one),
{
}

/// A key or value that is longer costs more by that: two bytes for each head.
pub proof fn law_longer_keys_cost_more(m: MetaView, k: nat, v: nat)
    requires
        m.kv_heads_sum is Some,
        m.key_len == Some(k),
        m.val_len == Some(v),
    ensures
        cache_cost(m) == m.kv_heads_sum->0 * k * 2 + m.kv_heads_sum->0 * v * 2,
{
    let s = m.kv_heads_sum->0;
    assert(s * (k + v) * 2 == s * k * 2 + s * v * 2) by (nonlinear_arith);
}

/// Numbers are little-endian: a byte more counts 256 times the one before.
pub proof fn law_numbers_are_little_endian(b: Seq<u8>, hi: u8)
    ensures
        little_endian(seq![hi] + b) == hi + 256 * little_endian(b),
        b.len() == 4 ==> little_endian(b) == b[0] + 256 * b[1] + 65536 * b[2] + 16777216 * b[3],
        b.len() == 1 ==> little_endian(b) == b[0],
        b.len() == 2 ==> little_endian(b) == b[0] + 256 * b[1],
{
    assert((seq![hi] + b).skip(1) =~= b);
    reveal_with_fuel(little_endian, 6);
    if b.len() == 4 {
        assert(b.skip(1)[0] == b[1]);
        assert(b.skip(1).skip(1)[0] == b[2]);
        assert(b.skip(1).skip(1).skip(1)[0] == b[3]);
    }
    if b.len() == 2 {
        assert(b.skip(1)[0] == b[1]);
    }
}

/// The number under each of the model's keys is kept for what the key names, and
/// other keys change nothing.
pub proof fn law_keys_name_their_numbers(m: MetaView, sub: Seq<char>, n: nat)
    requires
        m.prefix.len() > 0,
    ensures
        ({
            let now = with_number(m, m.prefix + sub, n);
            &&& sub == "block_count"@ ==> now == (MetaView { layers: Some(n), ..m })
            &&& sub == "attention.head_count_kv"@ ==> now == (MetaView { kv_heads: Some(n), ..m })
            &&& sub == "attention.head_count"@ ==> now == (MetaView { heads: Some(n), ..m })
            &&& sub == "attention.key_length"@ ==> now == (MetaView { key_len: Some(n), ..m })
            &&& sub == "attention.value_length"@ ==> now == (MetaView { val_len: Some(n), ..m })
            &&& sub == "embedding_length"@ ==> now == (MetaView { embd: Some(n), ..m })
            &&& sub.len() < 11 || sub.len() > 23 || (sub.len() > 0 && sub[0] != 'a' && sub[0] != 'b'
                && sub[0] != 'e') ==> now == m
        }),
        forall|key: Seq<char>|
            !begins(key, m.prefix) ==> #[trigger] with_number(m, key, n) == m,
{
    let key = m.prefix + sub;
    assert(key.subrange(0, m.prefix.len() as int) =~= m.prefix);
    assert(key.skip(m.prefix.len() as int) =~= sub);
    reveal_strlit("block_count");
    reveal_strlit("attention.head_count_kv");
    reveal_strlit("attention.head_count");
    reveal_strlit("attention.key_length");
    reveal_strlit("attention.value_length");
    reveal_strlit("embedding_length");
    assert("attention.value_length"@[10] == 'v');
    assert("attention.key_length"@[10] == 'k');
    assert("attention.head_count"@[10] == 'h');
}

/// How long a value of each type is.
pub proof fn law_types_have_their_lengths(t: nat)
    ensures
        scalar_len(t) == Some(1int) <==> t == 0 || t == 1 || t == 7,
        scalar_len(t) == Some(2int) <==> t == 2 || t == 3,
        scalar_len(t) == Some(4int) <==> t == 4 || t == 5 || t == 6,
        scalar_len(t) == Some(8int) <==> t == 10 || t == 11 || t == 12,
        scalar_len(t) is Some ==> scalar_len(t)->0 == 1 || scalar_len(t)->0 == 2 || scalar_len(t)->0
            == 4 || scalar_len(t)->0 == 8,
{
}

/// The value that stands behind a key of the model is taken up, and reading goes
/// on behind it: a number of four bytes here, a text for the architecture.
pub proof fn law_values_are_taken_up(b: Seq<u8>, p: int, m: MetaView, key: Seq<char>)
    requires
        0 <= p,
        p + 4 <= b.len(),
    ensures
        value_at(b, p, m, key, 4) == Scan::Got(
            with_number(
                m,
                key,
                (b[p] + 256 * b[p + 1] + 65536 * b[p + 2] + 16777216 * b[p + 3]) as nat,
            ),
            p + 4,
        ),
        string_at(b, p) matches Scan::Got(t, q) ==> value_at(b, p, m, "general.architecture"@, 8)
            == Scan::Got(MetaView { prefix: t + "."@, ..m }, q),
        string_at(b, p) matches Scan::Got(t, q) ==> (key != "general.architecture"@ ==> value_at(
            b,
            p,
            m,
            key,
            8,
        ) == Scan::Got(m, q)),
{
    let four = b.subrange(p, p + 4);
    law_numbers_are_little_endian(four, 0);
    assert(four[0] == b[p] && four[1] == b[p + 1] && four[2] == b[p + 2] && four[3] == b[p + 3]);
}

/// A text is preceded by its length in eight bytes, and is as long as that says.
pub proof fn law_texts_are_as_long_as_they_say(b: Seq<u8>, p: int)
    requires
        0 <= p,
        p + 8 <= b.len(),
        ({
            let n = little_endian(b.subrange(p, p + 8));
            n <= 1048576 && p + 8 + n <= b.len()
        }),
    ensures
        ({
            let n = little_endian(b.subrange(p, p + 8));
            string_at(b, p) == Scan::Got(lossy(b.subrange(p + 8, p + 8 + n)), p + 8 + n)
        }),
{
}

/// A count for each layer adds up: those of one more layer come on top.
pub proof fn law_counts_add_up(b: Seq<u8>, p: int, size: int, n: nat)
    ensures
        sum_at(b, p, size, 0) == 0,
        sum_at(b, p, size, n + 1) == sum_at(b, p, size, n) + little_endian(
            b.subrange(p + size * n, p + size * (n + 1)),
        ),
{
}

/// Only files that begin with "GGUF", in version 2 or 3, are read.
pub proof fn law_other_files_are_refused(b: Seq<u8>)
    requires
        b.len() >= 8,
    ensures
        header_of(b) is Got ==> b[0] == 0x47 && b[1] == 0x47 && b[2] == 0x55 && b[3] == 0x46,
        header_of(b) is Got ==> (b[4] == 2 || b[4] == 3) && b[5] == 0 && b[6] == 0 && b[7] == 0,
        b[0] == 0x47 && b[1] == 0x47 && b[2] == 0x55 && b[3] == 0x46 && (b[4] == 2 || b[4] == 3)
            && b[5] == 0 && b[6] == 0 && b[7] == 0 && b.len() >= 24 && little_endian(
            b.subrange(16, 24),
        ) == 0 ==> header_of(b) == Scan::Got(no_meta(), 24),
{
    let (x, y) = (b.subrange(0, 4), b.subrange(4, 8));
    law_numbers_are_little_endian(x, 0);
    law_numbers_are_little_endian(y, 0);
    assert(x[0] == b[0] && x[1] == b[1] && x[2] == b[2] && x[3] == b[3]);
    assert(y[0] == b[4] && y[1] == b[5] && y[2] == b[6] && y[3] == b[7]);
}

/// An entry is its key, its type and its value, and the entries follow one
/// another; those of the tokenizer are not needed once layers and heads are known.
pub proof fn law_entries_follow_one_another(b: Seq<u8>, p: int, m: MetaView, count: nat)
    requires
        count > 0,
        string_at(b, p) is Got,
    ensures
        ({
            let key = string_at(b, p)->Got_0;
            let q = string_at(b, p)->Got_1;
            let t = little_endian(b.subrange(q, q + 4));
            &&& q + 4 > b.len() ==> entries_at(b, p, m, count) == Scan::<MetaView>::Short
            &&& q + 4 <= b.len() && begins(key, "tokenizer."@) && m.layers is Some && m.kv_heads
                is Some ==> (entries_at(b, p, m, count) matches Scan::Got(r, _) && r == m)
            &&& q + 4 <= b.len() && !begins(key, "tokenizer."@) ==> match value_at(
                b,
                q + 4,
                m,
                key,
                t,
            ) {
                Scan::Got(next, e) => entries_at(b, p, m, count) == entries_at(
                    b,
                    e,
                    next,
                    (count - 1) as nat,
                ),
                Scan::Short => entries_at(b, p, m, count) is Short,
                Scan::Bad => entries_at(b, p, m, count) is Bad,
            }
        }),
{
}

/// The shape of a model is its layers and the cost of its cache, where the header
/// gives them and they can be worked with.
pub proof fn law_dimensions_come_from_the_header(b: Seq<u8>)
    requires
        header_ok(b),
    ensures
        match header_of(b) {
            Scan::Got(m, _) => {
                &&& dims_of(b) is Some <==> m.layers is Some && (m.key_len is Some || (m.embd is Some
                    && m.heads is Some)) && (m.kv_heads is Some || m.kv_heads_sum is Some)
                &&& dims_of(b) matches Some(d) ==> d.layers == m.layers->0 as u64
                    && d.kv_bytes_per_token == cache_cost(m)
            },
            _ => dims_of(b) is None,
        },
{
}

/// The numbers of every model of a usual size can be worked with.
pub proof fn law_usual_models_can_be_worked_with(m: MetaView)
    requires
        m.layers matches Some(n) ==> n <= 100_000,
        m.kv_heads matches Some(n) ==> n <= 100_000,
        m.kv_heads_sum matches Some(n) ==> n <= 1_000_000_000,
        m.key_len matches Some(n) ==> n <= 100_000,
        m.val_len matches Some(n) ==> n <= 100_000,
        m.embd matches Some(n) ==> n <= 100_000,
        m.heads matches Some(n) ==> n > 0,
    ensures
        computable(m),
{
    if has_shape(m) {
        let d = head_dim(m)->0;
        let v = value_dim(m);
        assert(d <= 100_000) by {
            if m.key_len is None {
                let (e, h) = (m.embd->0, m.heads->0);
                assert(e / h <= e) by (nonlinear_arith)
                    requires
                        h > 0,
                ;
            }
        }
        if m.kv_heads_sum is None {
            let (k, l) = (m.kv_heads->0, m.layers->0);
            assert(k * l <= 10_000_000_000) by (nonlinear_arith)
                requires
                    k <= 100_000,
                    l <= 100_000,
            ;
        }
        let t = total_heads(m);
        assert(t * (d + v) <= 10_000_000_000 * 200_000) by (nonlinear_arith)
            requires
                t <= 10_000_000_000,
                d + v <= 200_000,
        ;
    }
}

/// What is said of metadata is said of what it holds.
pub proof fn law_metadata_is_what_it_holds(m: Meta)
    ensures
        m@.prefix == m.prefix@,
        m.layers matches Some(n) ==> m@.layers == Some(n as nat),
        m.layers is None ==> m@.layers is None,
        m.kv_heads matches Some(n) ==> m@.kv_heads == Some(n as nat),
        m.kv_heads is None ==> m@.kv_heads is None,
        m.kv_heads_sum matches Some(n) ==> m@.kv_heads_sum == Some(n as nat),
        m.kv_heads_sum is None ==> m@.kv_heads_sum is None,
        m.key_len matches Some(n) ==> m@.key_len == Some(n as nat),
        m.key_len is None ==> m@.key_len is None,
        m.val_len matches Some(n) ==> m@.val_len == Some(n as nat),
        m.val_len is None ==> m@.val_len is None,
        m.embd matches Some(n) ==> m@.embd == Some(n as nat),
        m.embd is None ==> m@.embd is None,
        m.heads matches Some(n) ==> m@.heads == Some(n as nat),
        m.heads is None ==> m@.heads is None,
{
}

/// Head counts that are given layer by layer are added up, where they are the
/// model's; other arrays are passed over.
pub proof fn law_counts_by_layer_are_added_up(b: Seq<u8>, p: int, m: MetaView, key: Seq<char>, n: nat)
    requires
        0 <= p,
        p + 12 <= b.len(),
        little_endian(b.subrange(p, p + 4)) == 4,
        little_endian(b.subrange(p + 4, p + 12)) == n,
        p + 12 + 4 * n <= b.len(),
        m.prefix.len() > 0,
    ensures
        begins(key, m.prefix) && ends(key, ".attention.head_count_kv"@) ==> value_at(b, p, m, key, 9)
            == Scan::Got(
            MetaView { kv_heads_sum: Some(sum_at(b, p + 12, 4, n)), ..m },
            p + 12 + 4 * n,
        ),
        !begins(key, m.prefix) || !ends(key, ".attention.head_count_kv"@) ==> value_at(
            b,
            p,
            m,
            key,
            9,
        ) == Scan::Got(m, p + 12 + 4 * n),
{
}

} // verus!
