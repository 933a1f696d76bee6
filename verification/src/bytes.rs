//! Little-endian integers as byte strings.

use vstd::prelude::*;

verus! {

/// The number a byte string spells when read little-endian: the first byte is
/// the least significant.
pub open spec fn le_value(bytes: Seq<u8>) -> nat
    decreases bytes.len(),
{
    if bytes.len() == 0 {
        0
    } else {
        bytes[0] as nat + 256 * le_value(bytes.drop_first())
    }
}

/// The `width` low-order bytes of `value`, least significant first.
pub open spec fn le_bytes(value: nat, width: nat) -> Seq<u8>
    decreases width,
{
    if width == 0 {
        Seq::empty()
    } else {
        seq![(value % 256) as u8] + le_bytes(value / 256, (width - 1) as nat)
    }
}

/// A run of `n` zero bytes.
pub open spec fn zeros(n: nat) -> Seq<u8> {
    Seq::new(n, |i: int| 0u8)
}

/// `le_bytes` yields exactly `width` bytes.
pub proof fn lemma_le_bytes_len(value: nat, width: nat)
    ensures
        le_bytes(value, width).len() == width,
    decreases width,
{
    if width > 0 {
        lemma_le_bytes_len(value / 256, (width - 1) as nat);
    }
}

/// Spelling a byte string's value in as many bytes gives the string back.
pub proof fn lemma_le_bytes_of_value(bytes: Seq<u8>)
    ensures
        le_bytes(le_value(bytes), bytes.len()) == bytes,
    decreases bytes.len(),
{
    if bytes.len() > 0 {
        let rest = bytes.drop_first();
        lemma_le_bytes_of_value(rest);
        let v = le_value(bytes);
        assert(v % 256 == bytes[0] as nat);
        assert(v / 256 == le_value(rest));
        assert(le_bytes(v, bytes.len()) =~= bytes);
    } else {
        assert(le_bytes(le_value(bytes), 0) =~= bytes);
    }
}

/// `256^n`: the number of values that `n` bytes can spell.
pub open spec fn pow256(n: nat) -> nat
    decreases n,
{
    if n == 0 {
        1
    } else {
        256 * pow256((n - 1) as nat)
    }
}

/// Two, four and eight bytes spell the 16-, 32- and 64-bit numbers.
pub proof fn lemma_pow256_widths()
    ensures
        pow256(2) == 0x1_0000,
        pow256(4) == 0x1_0000_0000,
        pow256(8) == 0x1_0000_0000_0000_0000,
{
    reveal_with_fuel(pow256, 9);
}

/// The value of `n` bytes is below `256^n`.
pub proof fn lemma_le_value_bound(bytes: Seq<u8>)
    ensures
        le_value(bytes) < pow256(bytes.len()),
    decreases bytes.len(),
{
    if bytes.len() > 0 {
        lemma_le_value_bound(bytes.drop_first());
    }
}

/// Reading back the `width` bytes of a value returns the value, provided
/// that `width` bytes can spell it.
pub proof fn lemma_le_value_of_bytes(value: nat, width: nat)
    requires
        value < pow256(width),
    ensures
        le_value(le_bytes(value, width)) == value,
    decreases width,
{
    if width > 0 {
        lemma_le_value_of_bytes(value / 256, (width - 1) as nat);
        let s = le_bytes(value, width);
        assert(s.drop_first() =~= le_bytes(value / 256, (width - 1) as nat));
    }
}

/// The 16-bit number at `at`, little-endian.
pub fn read_u16_le(bytes: &[u8], at: usize) -> (v: u16)
    requires
        at + 2 <= bytes@.len(),
    ensures
        v == le_value(bytes@.subrange(at as int, at + 2)),
{
    proof {
        reveal_with_fuel(le_value, 3);
    }
    bytes[at] as u16 + 256 * (bytes[at + 1] as u16)
}

/// The 32-bit number at `at`, little-endian.
pub fn read_u32_le(bytes: &[u8], at: usize) -> (v: u32)
    requires
        at + 4 <= bytes@.len(),
    ensures
        v == le_value(bytes@.subrange(at as int, at + 4)),
{
    proof {
        reveal_with_fuel(le_value, 5);
    }
    bytes[at] as u32 + 256 * (bytes[at + 1] as u32 + 256 * (bytes[at + 2] as u32 + 256 * (bytes[at
        + 3] as u32)))
}

/// The 64-bit number at `at`, little-endian.
pub fn read_u64_le(bytes: &[u8], at: usize) -> (v: u64)
    requires
        at + 8 <= bytes@.len(),
    ensures
        v == le_value(bytes@.subrange(at as int, at + 8)),
{
    let len = bytes.len();
    assert(at + 8 <= len);
    let low = read_u32_le(bytes, at);
    let high = read_u32_le(bytes, at + 4);
    proof {
        let s = bytes@.subrange(at as int, at + 8);
        lemma_le_value_split(s, 4);
        reveal_with_fuel(pow256, 5);
        assert(s.take(4) =~= bytes@.subrange(at as int, at + 4));
        assert(s.skip(4) =~= bytes@.subrange(at + 4, at + 8));
    }
    low as u64 + 0x1_0000_0000 * (high as u64)
}

/// The value of a byte string is the value of its first `n` bytes plus
/// `256^n` times the value of the rest.
pub proof fn lemma_le_value_split(bytes: Seq<u8>, n: int)
    requires
        0 <= n <= bytes.len(),
    ensures
        le_value(bytes) == le_value(bytes.take(n)) + pow256(n as nat) * le_value(bytes.skip(n)),
    decreases n,
{
    if n == 0 {
        assert(bytes.skip(0) =~= bytes);
        assert(bytes.take(0) =~= Seq::<u8>::empty());
        assert(pow256(0) * le_value(bytes) == le_value(bytes)) by (nonlinear_arith)
            requires
                pow256(0) == 1,
        ;
    } else {
        let rest = bytes.drop_first();
        lemma_le_value_split(rest, n - 1);
        assert(rest.take(n - 1) =~= bytes.take(n).drop_first());
        assert(rest.skip(n - 1) =~= bytes.skip(n));
        assert(bytes.take(n)[0] == bytes[0]);
        let a = le_value(rest.take(n - 1));
        let b = le_value(bytes.skip(n));
        let p = pow256((n - 1) as nat);
        assert(le_value(rest) == a + p * b);
        assert(le_value(bytes) == bytes[0] as nat + 256 * le_value(rest));
        assert(le_value(bytes.take(n)) == bytes[0] as nat + 256 * a);
        assert(pow256(n as nat) == 256 * p);
        assert(256 * (a + p * b) == 256 * a + pow256(n as nat) * b) by (nonlinear_arith)
            requires
                pow256(n as nat) == 256 * p,
        ;
    }
}

/// Appends the two bytes of `v`, least significant first.
pub fn push_u16_le(out: &mut Vec<u8>, v: u16)
    ensures
        final(out)@ == old(out)@ + le_bytes(v as nat, 2),
{
    proof {
        reveal_with_fuel(le_bytes, 3);
    }
    out.push((v % 256) as u8);
    out.push((v / 256) as u8);
    assert(out@ =~= old(out)@ + le_bytes(v as nat, 2));
}

/// Appends the four bytes of `v`, least significant first.
pub fn push_u32_le(out: &mut Vec<u8>, v: u32)
    ensures
        final(out)@ == old(out)@ + le_bytes(v as nat, 4),
{
    proof {
        reveal_with_fuel(le_bytes, 5);
    }
    let b1: u32 = v / 256;
    let b2: u32 = b1 / 256;
    let b3: u32 = b2 / 256;
    out.push((v % 256) as u8);
    out.push((b1 % 256) as u8);
    out.push((b2 % 256) as u8);
    out.push(b3 as u8);
    assert(out@ =~= old(out)@ + le_bytes(v as nat, 4));
}

/// Appends the eight bytes of `v`, least significant first.
pub fn push_u64_le(out: &mut Vec<u8>, v: u64)
    ensures
        final(out)@ == old(out)@ + le_bytes(v as nat, 8),
{
    let ghost before = out@;
    let mut rest: u64 = v;
    let mut i: usize = 0;
    while i < 8
        invariant
            i <= 8,
            out@ + le_bytes(rest as nat, (8 - i) as nat) == before + le_bytes(v as nat, 8),
        decreases 8 - i,
    {
        let ghost prev = out@;
        out.push((rest % 256) as u8);
        proof {
            assert(le_bytes(rest as nat, (8 - i) as nat) == seq![(rest % 256) as u8] + le_bytes(
                (rest / 256) as nat,
                (8 - i - 1) as nat,
            ));
            assert(out@ + le_bytes((rest / 256) as nat, (8 - i - 1) as nat) =~= prev + le_bytes(
                rest as nat,
                (8 - i) as nat,
            ));
        }
        rest = rest / 256;
        i = i + 1;
    }
    assert(out@ =~= out@ + le_bytes(rest as nat, 0));
}

/// Appends `n` zero bytes.
pub fn push_zeros(out: &mut Vec<u8>, n: usize)
    ensures
        final(out)@ == old(out)@ + zeros(n as nat),
{
    let mut i: usize = 0;
    assert(out@ =~= old(out)@ + zeros(0));
    while i < n
        invariant
            i <= n,
            out@ == old(out)@ + zeros(i as nat),
        decreases n - i,
    {
        out.push(0);
        i = i + 1;
        assert(out@ =~= old(out)@ + zeros(i as nat));
    }
}

} // verus!
