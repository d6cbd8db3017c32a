//! Big-endian (network order) integer encodings, the building block of the wire format.
use vstd::prelude::*;

verus! {

/// 256 to the power `n`.
pub open spec fn pow256(n: nat) -> nat
    decreases n,
{
    if n == 0 {
        1
    } else {
        256 * pow256((n - 1) as nat)
    }
}

/// The number that a sequence of bytes denotes, most significant byte first.
pub open spec fn be_value(s: Seq<u8>) -> nat
    decreases s.len(),
{
    if s.len() == 0 {
        0
    } else {
        be_value(s.drop_last()) * 256 + s.last() as nat
    }
}

/// The `n` least significant bytes of `v`, most significant first.
pub open spec fn be_bytes(v: nat, n: nat) -> Seq<u8>
    decreases n,
{
    if n == 0 {
        seq![]
    } else {
        be_bytes(v / 256, (n - 1) as nat).push((v % 256) as u8)
    }
}

/// `n` zero bytes.
pub open spec fn zeros(n: nat) -> Seq<u8> {
    Seq::new(n, |_i: int| 0u8)
}

pub open spec fn be16(v: u16) -> Seq<u8> {
    be_bytes(v as nat, 2)
}

pub open spec fn be32(v: u32) -> Seq<u8> {
    be_bytes(v as nat, 4)
}

pub open spec fn be64(v: u64) -> Seq<u8> {
    be_bytes(v as nat, 8)
}

pub open spec fn be128(v: u128) -> Seq<u8> {
    be_bytes(v as nat, 16)
}

/// The 16-bit number stored at `s[i..i + 2]`.
pub open spec fn u16_at(s: Seq<u8>, i: int) -> u16 {
    be_value(s.subrange(i, i + 2)) as u16
}

/// The 32-bit number stored at `s[i..i + 4]`.
pub open spec fn u32_at(s: Seq<u8>, i: int) -> u32 {
    be_value(s.subrange(i, i + 4)) as u32
}

/// The 64-bit number stored at `s[i..i + 8]`.
pub open spec fn u64_at(s: Seq<u8>, i: int) -> u64 {
    be_value(s.subrange(i, i + 8)) as u64
}

/// The 128-bit number stored at `s[i..i + 16]`.
pub open spec fn u128_at(s: Seq<u8>, i: int) -> u128 {
    be_value(s.subrange(i, i + 16)) as u128
}

pub proof fn lemma_pow256_values()
    ensures
        pow256(0) == 1,
        pow256(1) == 256,
        pow256(2) == 0x1_0000,
        pow256(4) == 0x1_0000_0000,
        pow256(8) == 0x1_0000_0000_0000_0000,
        pow256(16) == 0x1_0000_0000_0000_0000_0000_0000_0000_0000,
{
    reveal_with_fuel(pow256, 17);
}

pub proof fn lemma_pow256_pos(n: nat)
    ensures
        pow256(n) >= 1,
    decreases n,
{
    if n > 0 {
        lemma_pow256_pos((n - 1) as nat);
    }
}

pub proof fn lemma_be_bytes_len(v: nat, n: nat)
    ensures
        be_bytes(v, n).len() == n,
    decreases n,
{
    if n > 0 {
        lemma_be_bytes_len(v / 256, (n - 1) as nat);
    }
}

pub proof fn lemma_be_value_bound(s: Seq<u8>)
    ensures
        be_value(s) < pow256(s.len()),
    decreases s.len(),
{
    if s.len() > 0 {
        lemma_be_value_bound(s.drop_last());
    }
}

/// Decoding an encoding gives back the number.
pub proof fn lemma_be_value_bytes(v: nat, n: nat)
    requires
        v < pow256(n),
    ensures
        be_value(be_bytes(v, n)) == v,
    decreases n,
{
    lemma_be_bytes_len(v, n);
    if n > 0 {
        let q = v / 256;
        assert(q < pow256((n - 1) as nat)) by (nonlinear_arith)
            requires
                v < 256 * pow256((n - 1) as nat),
                q == v / 256,
        ;
        lemma_be_value_bytes(q, (n - 1) as nat);
        let s = be_bytes(v, n);
        assert(s.drop_last() =~= be_bytes(q, (n - 1) as nat));
        assert(v == q * 256 + v % 256);
    }
}

/// Encoding a decoded number gives back the bytes.
pub proof fn lemma_be_bytes_value(s: Seq<u8>)
    ensures
        be_bytes(be_value(s), s.len()) == s,
    decreases s.len(),
{
    if s.len() > 0 {
        let p = s.drop_last();
        lemma_be_bytes_value(p);
        let v = be_value(s);
        assert(v == be_value(p) * 256 + s.last());
        assert(v / 256 == be_value(p));
        assert(v % 256 == s.last());
        assert(be_bytes(v, s.len()) =~= s);
    }
}

/// Fixed-width encodings are injective and decode back.
pub proof fn lemma_be16(v: u16)
    ensures
        be16(v).len() == 2,
        be_value(be16(v)) == v,
{
    lemma_pow256_values();
    lemma_be_bytes_len(v as nat, 2);
    lemma_be_value_bytes(v as nat, 2);
}

pub proof fn lemma_be32(v: u32)
    ensures
        be32(v).len() == 4,
        be_value(be32(v)) == v,
{
    lemma_pow256_values();
    lemma_be_bytes_len(v as nat, 4);
    lemma_be_value_bytes(v as nat, 4);
}

pub proof fn lemma_be64(v: u64)
    ensures
        be64(v).len() == 8,
        be_value(be64(v)) == v,
{
    lemma_pow256_values();
    lemma_be_bytes_len(v as nat, 8);
    lemma_be_value_bytes(v as nat, 8);
}

pub proof fn lemma_be128(v: u128)
    ensures
        be128(v).len() == 16,
        be_value(be128(v)) == v,
{
    lemma_pow256_values();
    lemma_be_bytes_len(v as nat, 16);
    lemma_be_value_bytes(v as nat, 16);
}

/// Reading a number back where it was written: `x ++ encode(v) ++ y` at offset `|x|`.
pub proof fn lemma_u16_at(x: Seq<u8>, v: u16, y: Seq<u8>)
    ensures
        u16_at(x + be16(v) + y, x.len() as int) == v,
{
    lemma_be16(v);
    assert((x + be16(v) + y).subrange(x.len() as int, x.len() + 2 as int) =~= be16(v));
}

pub proof fn lemma_u32_at(x: Seq<u8>, v: u32, y: Seq<u8>)
    ensures
        u32_at(x + be32(v) + y, x.len() as int) == v,
{
    lemma_be32(v);
    assert((x + be32(v) + y).subrange(x.len() as int, x.len() + 4 as int) =~= be32(v));
}

pub proof fn lemma_u64_at(x: Seq<u8>, v: u64, y: Seq<u8>)
    ensures
        u64_at(x + be64(v) + y, x.len() as int) == v,
{
    lemma_be64(v);
    assert((x + be64(v) + y).subrange(x.len() as int, x.len() + 8 as int) =~= be64(v));
}

pub proof fn lemma_u128_at(x: Seq<u8>, v: u128, y: Seq<u8>)
    ensures
        u128_at(x + be128(v) + y, x.len() as int) == v,
{
    lemma_be128(v);
    assert((x + be128(v) + y).subrange(x.len() as int, x.len() + 16 as int) =~= be128(v));
}

/// Reads `n <= 16` bytes at `start` as a big-endian number.
fn read_be(s: &[u8], start: usize, n: usize) -> (r: u128)
    requires
        n <= 16,
        start + n <= s@.len(),
    ensures
        r as nat == be_value(s@.subrange(start as int, start + n)),
{
    let mut acc: u128 = 0;
    let mut k: usize = 0;
    proof {
        lemma_pow256_values();
    }
    while k < n
        invariant
            k <= n <= 16,
            start + n <= s@.len(),
            acc as nat == be_value(s@.subrange(start as int, start + k)),
            pow256(16) == 0x1_0000_0000_0000_0000_0000_0000_0000_0000,
        decreases n - k,
    {
        let ghost prefix = s@.subrange(start as int, start + k);
        proof {
            lemma_be_value_bound(prefix);
            lemma_pow256_mono(k as nat, 15);
        }
        assert(s@.subrange(start as int, start + k + 1).drop_last() =~= prefix);
        assert(start + k < s.len());
        let idx: usize = start + k;
        let b = s[idx];
        assert(acc * 256 + b < 0x1_0000_0000_0000_0000_0000_0000_0000_0000) by (nonlinear_arith)
            requires
                acc < pow256(k as nat),
                pow256(k as nat) <= pow256(15),
                pow256(16) == 256 * pow256(15),
                pow256(16) == 0x1_0000_0000_0000_0000_0000_0000_0000_0000,
                b < 256,
        ;
        assert(acc * 256 <= 0xffff_ffff_ffff_ffff_ffff_ffff_ffff_ff00);
        let shifted: u128 = acc * 256;
        acc = shifted + b as u128;
        k = k + 1;
    }
    acc
}

pub proof fn lemma_pow256_mono(a: nat, b: nat)
    requires
        a <= b,
    ensures
        pow256(a) <= pow256(b),
    decreases b,
{
    if a < b {
        lemma_pow256_mono(a, (b - 1) as nat);
        lemma_pow256_pos((b - 1) as nat);
    }
}

/// The 16-bit big-endian number at `s[i..i + 2]`.
pub fn read_u16(s: &[u8], i: usize) -> (r: u16)
    requires
        i + 2 <= s@.len(),
    ensures
        r == u16_at(s@, i as int),
{
    let v = read_be(s, i, 2);
    proof {
        lemma_pow256_values();
        lemma_be_value_bound(s@.subrange(i as int, i + 2));
    }
    v as u16
}

/// The 32-bit big-endian number at `s[i..i + 4]`.
pub fn read_u32(s: &[u8], i: usize) -> (r: u32)
    requires
        i + 4 <= s@.len(),
    ensures
        r == u32_at(s@, i as int),
{
    let v = read_be(s, i, 4);
    proof {
        lemma_pow256_values();
        lemma_be_value_bound(s@.subrange(i as int, i + 4));
    }
    v as u32
}

/// The 64-bit big-endian number at `s[i..i + 8]`.
pub fn read_u64(s: &[u8], i: usize) -> (r: u64)
    requires
        i + 8 <= s@.len(),
    ensures
        r == u64_at(s@, i as int),
{
    let v = read_be(s, i, 8);
    proof {
        lemma_pow256_values();
        lemma_be_value_bound(s@.subrange(i as int, i + 8));
    }
    v as u64
}

/// The 128-bit big-endian number at `s[i..i + 16]`.
pub fn read_u128(s: &[u8], i: usize) -> (r: u128)
    requires
        i + 16 <= s@.len(),
    ensures
        r == u128_at(s@, i as int),
{
    let v = read_be(s, i, 16);
    proof {
        lemma_pow256_values();
        lemma_be_value_bound(s@.subrange(i as int, i + 16));
    }
    v
}

/// Appends the `n` least significant bytes of `v`, most significant first.
fn push_be(buf: &mut Vec<u8>, v: u128, n: usize)
    requires
        n <= 16,
    ensures
        final(buf)@ == old(buf)@ + be_bytes(v as nat, n as nat),
    decreases n,
{
    if n == 0 {
        assert(old(buf)@ + be_bytes(v as nat, 0) =~= old(buf)@);
    } else {
        push_be(buf, v / 256, n - 1);
        buf.push((v % 256) as u8);
        assert(buf@ =~= old(buf)@ + be_bytes(v as nat, n as nat));
    }
}

pub fn put_u8(buf: &mut Vec<u8>, v: u8)
    ensures
        final(buf)@ == old(buf)@ + seq![v],
{
    buf.push(v);
    assert(buf@ =~= old(buf)@ + seq![v]);
}

pub fn put_u16(buf: &mut Vec<u8>, v: u16)
    ensures
        final(buf)@ == old(buf)@ + be16(v),
{
    push_be(buf, v as u128, 2);
}

pub fn put_u32(buf: &mut Vec<u8>, v: u32)
    ensures
        final(buf)@ == old(buf)@ + be32(v),
{
    push_be(buf, v as u128, 4);
}

pub fn put_u64(buf: &mut Vec<u8>, v: u64)
    ensures
        final(buf)@ == old(buf)@ + be64(v),
{
    push_be(buf, v as u128, 8);
}

pub fn put_u128(buf: &mut Vec<u8>, v: u128)
    ensures
        final(buf)@ == old(buf)@ + be128(v),
{
    push_be(buf, v, 16);
}

/// Appends all of `data`.
pub fn put_slice(buf: &mut Vec<u8>, data: &[u8])
    ensures
        final(buf)@ == old(buf)@ + data@,
{
    let mut i: usize = 0;
    while i < data.len()
        invariant
            i <= data@.len(),
            buf@ == old(buf)@ + data@.subrange(0, i as int),
        decreases data@.len() - i,
    {
        buf.push(data[i]);
        i = i + 1;
        assert(buf@ =~= old(buf)@ + data@.subrange(0, i as int));
    }
    assert(data@.subrange(0, data@.len() as int) =~= data@);
}

/// Appends `n` zero bytes.
pub fn put_zeros(buf: &mut Vec<u8>, n: usize)
    ensures
        final(buf)@ == old(buf)@ + zeros(n as nat),
{
    let mut i: usize = 0;
    while i < n
        invariant
            i <= n,
            buf@ == old(buf)@ + Seq::new(i as nat, |_i: int| 0u8),
        decreases n - i,
    {
        buf.push(0u8);
        i = i + 1;
        assert(buf@ =~= old(buf)@ + Seq::new(i as nat, |_i: int| 0u8));
    }
}

/// A copy of `s[i..j]`.
pub fn copy_range(s: &[u8], i: usize, j: usize) -> (r: Vec<u8>)
    requires
        i <= j <= s@.len(),
    ensures
        r@ == s@.subrange(i as int, j as int),
{
    let sub = vstd::slice::slice_subrange(s, i, j);
    let mut r: Vec<u8> = Vec::new();
    put_slice(&mut r, sub);
    assert(r@ =~= s@.subrange(i as int, j as int));
    r
}

} // verus!
