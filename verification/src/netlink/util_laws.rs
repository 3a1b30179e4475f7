//! How numbers stand in bytes.
use crate::addr::{group_high, group_low};
use crate::netlink::util::{
    signed, u16_at, u16_bytes, u32_at, u32_bytes, unsigned, zeros, ByteOrder,
};
use vstd::prelude::*;

verus! {

/// The value of some bytes, the last one counting most.
pub open spec fn value(bytes: Seq<u8>) -> int
    decreases bytes.len(),
{
    if bytes.len() == 0 {
        0
    } else {
        bytes[0] + 256 * value(bytes.drop_first())
    }
}

proof fn lemma_value_two(s: Seq<u8>)
    requires
        s.len() == 2,
    ensures
        value(s) == s[0] + 256 * s[1],
{
    reveal_with_fuel(value, 3);
}

proof fn lemma_value_four(s: Seq<u8>)
    requires
        s.len() == 4,
    ensures
        value(s) == s[0] + 256 * s[1] + 65536 * s[2] + 16777216 * s[3],
{
    reveal_with_fuel(value, 5);
    let a = s.drop_first();
    let b = a.drop_first();
    let c = b.drop_first();
    assert(a[0] == s[1] && b[0] == s[2] && c[0] == s[3]);
}

/// On a little-endian machine the first byte counts least, on a big-endian one
/// most.
pub proof fn where_the_low_byte_stands(v: u16, w: u32)
    ensures
        value(u16_bytes(ByteOrder::Little, v)) == v,
        value(u16_bytes(ByteOrder::Big, v).reverse()) == v,
        value(u32_bytes(ByteOrder::Little, w)) == w,
        value(u32_bytes(ByteOrder::Big, w).reverse()) == w,
        u16_bytes(ByteOrder::Little, v).len() == 2,
        u16_bytes(ByteOrder::Big, v).len() == 2,
        u32_bytes(ByteOrder::Little, w).len() == 4,
        u32_bytes(ByteOrder::Big, w).len() == 4,
{
    lemma_value_two(u16_bytes(ByteOrder::Little, v));
    lemma_value_two(u16_bytes(ByteOrder::Big, v).reverse());
    lemma_value_four(u32_bytes(ByteOrder::Little, w));
    lemma_value_four(u32_bytes(ByteOrder::Big, w).reverse());
    assert(v == (v % 256) + 256 * (v / 256));
    assert(w == (w % 256) + 256 * ((w / 256) % 256) + 65536 * ((w / 65536) % 256) + 16777216 * (w
        / 16777216)) by (nonlinear_arith);
}

/// Reading takes the bytes in the same order.
pub proof fn reading_takes_the_same_order(s: Seq<u8>, off: int)
    requires
        0 <= off,
        off + 4 <= s.len(),
    ensures
        u16_at(ByteOrder::Little, s, off) == value(s.subrange(off, off + 2)),
        u16_at(ByteOrder::Big, s, off) == value(s.subrange(off, off + 2).reverse()),
        u32_at(ByteOrder::Little, s, off) == value(s.subrange(off, off + 4)),
        u32_at(ByteOrder::Big, s, off) == value(s.subrange(off, off + 4).reverse()),
{
    lemma_value_two(s.subrange(off, off + 2));
    lemma_value_two(s.subrange(off, off + 2).reverse());
    lemma_value_four(s.subrange(off, off + 4));
    lemma_value_four(s.subrange(off, off + 4).reverse());
}

/// A signed number and its bits differ by nothing, or by the whole range.
pub proof fn signs_are_the_top_half(v: u32, n: i32)
    ensures
        signed(v) == v || signed(v) == v - 0x1_0000_0000,
        (signed(v) < 0) == (v >= 0x8000_0000),
        unsigned(n) == n || unsigned(n) == n + 0x1_0000_0000,
        (unsigned(n) >= 0x8000_0000) == (n < 0),
{
}

/// Padding is zeros, as many as are asked for.
pub proof fn padding_is_zeros(n: nat)
    ensures
        zeros(n).len() == n,
        forall|i: int| 0 <= i < n ==> #[trigger] zeros(n)[i] == 0,
{
}

/// The two bytes of an address group, the high one first, make up the group.
pub proof fn groups_are_two_bytes(g: u16)
    ensures
        256 * group_high(g) + group_low(g) == g,
{
}

} // verus!
