//! Numbers on the wire: little-endian, of fixed width.

use vstd::prelude::*;
use vstd::slice::spec_slice_len;

verus! {

/// The number of values that `width` bytes can tell apart: 256 to the
/// power of `width`.
pub open spec fn limit(width: nat) -> nat
    decreases width,
{
    if width == 0 {
        1
    } else {
        256 * limit((width - 1) as nat)
    }
}

/// The `width` bytes of `value`, least significant first.
pub open spec fn le_bytes(value: nat, width: nat) -> Seq<u8>
    decreases width,
{
    if width == 0 {
        Seq::empty()
    } else {
        seq![(value % 256) as u8] + le_bytes(value / 256, (width - 1) as nat)
    }
}

/// The number that `bytes` spell, least significant byte first.
pub open spec fn le_value(bytes: Seq<u8>) -> nat
    decreases bytes.len(),
{
    if bytes.len() == 0 {
        0
    } else {
        bytes[0] as nat + 256 * le_value(bytes.drop_first())
    }
}

/// Four bytes tell 2^32 values apart, eight bytes 2^64.
pub proof fn lemma_limits()
    ensures
        limit(4) == 0x1_0000_0000,
        limit(8) == 0x1_0000_0000_0000_0000,
{
    reveal_with_fuel(limit, 9);
}

/// A number written in `width` bytes takes `width` bytes.
pub proof fn lemma_le_bytes_len(value: nat, width: nat)
    ensures
        le_bytes(value, width).len() == width,
    decreases width,
{
    if width > 0 {
        lemma_le_bytes_len(value / 256, (width - 1) as nat);
    }
}

/// What bytes spell is less than the limit of their number.
pub proof fn lemma_le_value_bound(bytes: Seq<u8>)
    ensures
        le_value(bytes) < limit(bytes.len()),
    decreases bytes.len(),
{
    if bytes.len() > 0 {
        lemma_le_value_bound(bytes.drop_first());
    }
}

/// Reading back the bytes of a number that fits their width gives the number.
pub proof fn lemma_le_value_of_bytes(value: nat, width: nat)
    requires
        value < limit(width),
    ensures
        le_value(le_bytes(value, width)) == value,
    decreases width,
{
    if width > 0 {
        let rest = le_bytes(value / 256, (width - 1) as nat);
        let all = le_bytes(value, width);
        lemma_le_bytes_len(value / 256, (width - 1) as nat);
        assert(all.drop_first() =~= rest);
        lemma_le_value_of_bytes(value / 256, (width - 1) as nat);
    }
}

/// Writing the number that bytes spell gives the bytes.
pub proof fn lemma_le_bytes_of_value(bytes: Seq<u8>)
    ensures
        le_bytes(le_value(bytes), bytes.len()) == bytes,
    decreases bytes.len(),
{
    if bytes.len() > 0 {
        let rest = bytes.drop_first();
        lemma_le_bytes_of_value(rest);
        let value = le_value(bytes);
        assert(value % 256 == bytes[0] as nat && value / 256 == le_value(rest));
        assert(le_bytes(value, bytes.len()) =~= bytes);
    } else {
        assert(le_bytes(le_value(bytes), 0) =~= bytes);
    }
}

/// Appends the four bytes of `value`.
pub fn put_u32(out: &mut Vec<u8>, value: u32)
    ensures
        final(out)@ == old(out)@ + le_bytes(value as nat, 4),
{
    out.push((value % 256) as u8);
    out.push((value / 0x100 % 256) as u8);
    out.push((value / 0x1_0000 % 256) as u8);
    out.push((value / 0x100_0000 % 256) as u8);
    proof {
        reveal_with_fuel(le_bytes, 5);
        let v = value as nat;
        assert(v / 256 / 256 == v / 0x1_0000);
        assert(v / 256 / 256 / 256 == v / 0x100_0000);
        assert(out@ =~= old(out)@ + le_bytes(v, 4));
    }
}

/// Appends the eight bytes of `value`.
pub fn put_u64(out: &mut Vec<u8>, value: u64)
    ensures
        final(out)@ == old(out)@ + le_bytes(value as nat, 8),
{
    let low: u32 = (value % 0x1_0000_0000) as u32;
    let high: u32 = (value / 0x1_0000_0000) as u32;
    let ghost before = out@;
    put_u32(out, low);
    put_u32(out, high);
    proof {
        lemma_le_bytes_split(value as nat);
        assert(out@ =~= before + le_bytes(value as nat, 8));
    }
}

/// The eight bytes of a number are the four of its low half and the four of
/// its high half.
pub proof fn lemma_le_bytes_split(value: nat)
    ensures
        le_bytes(value, 8) == le_bytes(value % 0x1_0000_0000, 4) + le_bytes(
            value / 0x1_0000_0000,
            4,
        ),
{
    reveal_with_fuel(le_bytes, 9);
    let low = value % 0x1_0000_0000;
    let high = value / 0x1_0000_0000;
    assert(low % 256 == value % 256);
    assert(low / 256 % 256 == value / 256 % 256);
    assert(low / 256 / 256 % 256 == value / 256 / 256 % 256);
    assert(low / 256 / 256 / 256 % 256 == value / 256 / 256 / 256 % 256);
    assert(value / 256 / 256 / 256 / 256 == high);
    assert(le_bytes(value, 8) =~= le_bytes(low, 4) + le_bytes(high, 4));
}

/// The number that the four bytes at `pos` spell.
pub fn read_u32(bytes: &[u8], pos: usize) -> (value: u32)
    requires
        pos + 4 <= bytes@.len(),
    ensures
        value == le_value(bytes@.subrange(pos as int, pos + 4)),
{
    let b0 = bytes[pos] as u32;
    let b1 = bytes[pos + 1] as u32;
    let b2 = bytes[pos + 2] as u32;
    let b3 = bytes[pos + 3] as u32;
    proof {
        reveal_with_fuel(le_value, 5);
        let four = bytes@.subrange(pos as int, pos + 4);
        assert(four.drop_first().drop_first().drop_first().drop_first().len() == 0);
    }
    b0 + b1 * 0x100 + b2 * 0x1_0000 + b3 * 0x100_0000
}

/// The number that the eight bytes at `pos` spell.
pub fn read_u64(bytes: &[u8], pos: usize) -> (value: u64)
    requires
        pos + 8 <= bytes@.len(),
    ensures
        value == le_value(bytes@.subrange(pos as int, pos + 8)),
{
    assert(bytes@.len() == spec_slice_len(bytes));
    let low = read_u32(bytes, pos) as u64;
    let high = read_u32(bytes, pos + 4) as u64;
    proof {
        let eight = bytes@.subrange(pos as int, pos + 8);
        lemma_le_value_concat(eight.subrange(0, 4), eight.subrange(4, 8));
        assert(eight.subrange(0, 4) + eight.subrange(4, 8) =~= eight);
        assert(eight.subrange(0, 4) =~= bytes@.subrange(pos as int, pos + 4));
        assert(eight.subrange(4, 8) =~= bytes@.subrange(pos + 4, pos + 8));
        lemma_limits();
    }
    low + high * 0x1_0000_0000
}

/// What two runs of bytes spell when joined: the first run's number, and
/// the second run's number shifted behind it.
pub proof fn lemma_le_value_concat(low: Seq<u8>, high: Seq<u8>)
    ensures
        le_value(low + high) == le_value(low) + limit(low.len()) * le_value(high),
    decreases low.len(),
{
    let rest = le_value(high);
    if low.len() == 0 {
        assert(low + high =~= high);
        assert(limit(0) * rest == rest) by (nonlinear_arith)
            requires
                limit(0) == 1,
        ;
    } else {
        let joined = low + high;
        assert(joined.drop_first() =~= low.drop_first() + high);
        assert(joined[0] == low[0]);
        lemma_le_value_concat(low.drop_first(), high);
        let scale = limit((low.len() - 1) as nat);
        let shifted = scale * rest;
        assert(le_value(joined.drop_first()) == le_value(low.drop_first()) + shifted);
        assert(limit(low.len()) * rest == 256 * shifted) by (nonlinear_arith)
            requires
                limit(low.len()) == 256 * scale,
                shifted == scale * rest,
        ;
    }
}

} // verus!
