//! Reading and writing the fixed-width fields of netlink messages.
//!
//! Every structure is encoded byte by byte, so that no buffer alignment is ever
//! assumed. Netlink fields are in the byte order of the machine; the functions
//! here take that order as an argument.
use vstd::prelude::*;

verus! {

/// The order in which a machine stores the bytes of an integer.
#[derive(Debug, Clone, Copy, PartialEq, Eq, Structural)]
pub enum ByteOrder {
    /// Least significant byte first.
    Little,
    /// Most significant byte first.
    Big,
}

/// The two bytes of `v`.
pub open spec fn u16_bytes(order: ByteOrder, v: u16) -> Seq<u8> {
    match order {
        ByteOrder::Little => seq![(v % 256) as u8, (v / 256) as u8],
        ByteOrder::Big => seq![(v / 256) as u8, (v % 256) as u8],
    }
}

/// The four bytes of `v`.
pub open spec fn u32_bytes(order: ByteOrder, v: u32) -> Seq<u8> {
    let b0 = (v % 256) as u8;
    let b1 = ((v / 256) % 256) as u8;
    let b2 = ((v / 65536) % 256) as u8;
    let b3 = (v / 16777216) as u8;
    match order {
        ByteOrder::Little => seq![b0, b1, b2, b3],
        ByteOrder::Big => seq![b3, b2, b1, b0],
    }
}

/// The number that the two bytes at `off` stand for.
pub open spec fn u16_at(order: ByteOrder, buf: Seq<u8>, off: int) -> u16 {
    match order {
        ByteOrder::Little => (buf[off] + 256 * buf[off + 1]) as u16,
        ByteOrder::Big => (buf[off + 1] + 256 * buf[off]) as u16,
    }
}

/// The number that the four bytes at `off` stand for.
pub open spec fn u32_at(order: ByteOrder, buf: Seq<u8>, off: int) -> u32 {
    match order {
        ByteOrder::Little => (buf[off] + 256 * buf[off + 1] + 65536 * buf[off + 2] + 16777216
            * buf[off + 3]) as u32,
        ByteOrder::Big => (buf[off + 3] + 256 * buf[off + 2] + 65536 * buf[off + 1] + 16777216
            * buf[off]) as u32,
    }
}

/// The signed number with the same 32 bits as `v` (two's complement).
pub open spec fn signed(v: u32) -> i32 {
    if v < 0x8000_0000 {
        v as i32
    } else {
        (v - 0x1_0000_0000) as i32
    }
}

/// The unsigned number with the same 32 bits as `v` (two's complement).
pub open spec fn unsigned(v: i32) -> u32 {
    if v >= 0 {
        v as u32
    } else {
        (v + 0x1_0000_0000) as u32
    }
}

/// `len` rounded up to a multiple of four.
pub open spec fn align4(len: int) -> int {
    ((len + 3) / 4) * 4
}

/// `n` zero bytes.
pub open spec fn zeros(n: nat) -> Seq<u8> {
    Seq::new(n, |i: int| 0u8)
}

/// Reading back the two bytes of a number gives that number.
pub proof fn u16_round_trip(order: ByteOrder, v: u16)
    ensures
        u16_bytes(order, v).len() == 2,
        u16_at(order, u16_bytes(order, v), 0) == v,
{
}

/// Reading back the four bytes of a number gives that number.
pub proof fn u32_round_trip(order: ByteOrder, v: u32)
    ensures
        u32_bytes(order, v).len() == 4,
        u32_at(order, u32_bytes(order, v), 0) == v,
{
    let v = v as int;
    assert(v == v % 256 + 256 * ((v / 256) % 256) + 65536 * ((v / 65536) % 256) + 16777216 * (v
        / 16777216)) by {
        assert((v / 256) / 256 == v / 65536);
        assert((v / 65536) / 256 == v / 16777216);
    }
}

/// Reinterpreting a number as signed and back gives that number.
pub proof fn signed_round_trip(v: u32)
    ensures
        unsigned(signed(v)) == v,
{
}

/// `u16::to_ne_bytes` of the standard library: the two bytes of `v` in the
/// order of the machine, which is one of the two orders.
#[verifier::external_body]
fn u16_to_ne_bytes(v: u16) -> (r: [u8; 2])
    ensures
        r@ == u16_bytes(ByteOrder::Little, v) || r@ == u16_bytes(ByteOrder::Big, v),
{
    v.to_ne_bytes()
}

impl ByteOrder {
    /// The byte order of this machine. Which one that is depends on the machine
    /// alone, so nothing is stated of the result.
    pub fn native() -> ByteOrder {
        let one = u16_to_ne_bytes(1);
        ByteOrder::of_one(one)
    }

    /// The byte order in which the number 1 is written as these two bytes: the
    /// little-endian one if its bytes are these, else the other.
    pub fn of_one(one: [u8; 2]) -> (r: ByteOrder)
        ensures
            r == (if one@ == u16_bytes(ByteOrder::Little, 1) {
                ByteOrder::Little
            } else {
                ByteOrder::Big
            }),
            one@ == u16_bytes(ByteOrder::Big, 1) ==> r == ByteOrder::Big,
    {
        let little = u16_to_bytes(ByteOrder::Little, 1);
        assert(u16_bytes(ByteOrder::Little, 1)[0] != u16_bytes(ByteOrder::Big, 1)[0]);
        if one[0] == little[0] && one[1] == little[1] {
            assert(one@ =~= u16_bytes(ByteOrder::Little, 1));
            ByteOrder::Little
        } else {
            ByteOrder::Big
        }
    }
}

/// The bytes of `v` in the given order.
pub fn u16_to_bytes(order: ByteOrder, v: u16) -> (r: [u8; 2])
    ensures
        r@ == u16_bytes(order, v),
{
    let b0 = (v % 256) as u8;
    let b1 = (v / 256) as u8;
    let r = match order {
        ByteOrder::Little => [b0, b1],
        ByteOrder::Big => [b1, b0],
    };
    assert(r@ =~= u16_bytes(order, v));
    r
}

/// The bytes of `v` in the given order.
pub fn u32_to_bytes(order: ByteOrder, v: u32) -> (r: [u8; 4])
    ensures
        r@ == u32_bytes(order, v),
{
    let b0 = (v % 256) as u8;
    let b1 = ((v / 256) % 256) as u8;
    let b2 = ((v / 65536) % 256) as u8;
    let b3 = (v / 16777216) as u8;
    let r = match order {
        ByteOrder::Little => [b0, b1, b2, b3],
        ByteOrder::Big => [b3, b2, b1, b0],
    };
    assert(r@ =~= u32_bytes(order, v));
    r
}

/// The signed number with the same bits as `v`.
pub fn to_signed(v: u32) -> (r: i32)
    ensures
        r == signed(v),
{
    if v < 0x8000_0000 {
        v as i32
    } else {
        (v as i64 - 0x1_0000_0000) as i32
    }
}

/// The unsigned number with the same bits as `v`.
pub fn to_unsigned(v: i32) -> (r: u32)
    ensures
        r == unsigned(v),
{
    if v >= 0 {
        v as u32
    } else {
        (v as i64 + 0x1_0000_0000) as u32
    }
}

/// The 16-bit number at `off`, or `None` if the buffer ends before it does.
#[inline]
pub fn read_u16(order: ByteOrder, buf: &[u8], off: usize) -> (r: Option<u16>)
    ensures
        r == (if off + 2 <= buf@.len() {
            Some(u16_at(order, buf@, off as int))
        } else {
            None
        }),
{
    if buf.len() < 2 || off > buf.len() - 2 {
        return None;
    }
    let x = buf[off] as u16;
    let y = buf[off + 1] as u16;
    match order {
        ByteOrder::Little => Some(x + 256 * y),
        ByteOrder::Big => Some(y + 256 * x),
    }
}

/// The 32-bit number at `off`, or `None` if the buffer ends before it does.
#[inline]
pub fn read_u32(order: ByteOrder, buf: &[u8], off: usize) -> (r: Option<u32>)
    ensures
        r == (if off + 4 <= buf@.len() {
            Some(u32_at(order, buf@, off as int))
        } else {
            None
        }),
{
    if buf.len() < 4 || off > buf.len() - 4 {
        return None;
    }
    let x0 = buf[off] as u32;
    let x1 = buf[off + 1] as u32;
    let x2 = buf[off + 2] as u32;
    let x3 = buf[off + 3] as u32;
    match order {
        ByteOrder::Little => Some(x0 + 256 * x1 + 65536 * x2 + 16777216 * x3),
        ByteOrder::Big => Some(x3 + 256 * x2 + 65536 * x1 + 16777216 * x0),
    }
}

/// The signed 32-bit number at `off`, or `None` if the buffer ends before it does.
#[inline]
pub fn read_i32(order: ByteOrder, buf: &[u8], off: usize) -> (r: Option<i32>)
    ensures
        r == (if off + 4 <= buf@.len() {
            Some(signed(u32_at(order, buf@, off as int)))
        } else {
            None
        }),
{
    match read_u32(order, buf, off) {
        Some(v) => Some(to_signed(v)),
        None => None,
    }
}

/// `buf` with `bytes` laid over it from `off` on.
pub open spec fn overlay(buf: Seq<u8>, off: int, bytes: Seq<u8>) -> Seq<u8> {
    Seq::new(
        buf.len(),
        |i: int|
            if off <= i < off + bytes.len() {
                bytes[i - off]
            } else {
                buf[i]
            },
    )
}

/// Writes `v` at `off`; a buffer that ends before the number would is left as it is.
#[inline]
pub fn write_u16(order: ByteOrder, buf: &mut [u8], off: usize, v: u16)
    ensures
        final(buf)@ == (if off + 2 <= old(buf)@.len() {
            overlay(old(buf)@, off as int, u16_bytes(order, v))
        } else {
            old(buf)@
        }),
{
    if buf.len() < 2 || off > buf.len() - 2 {
        return;
    }
    let b = u16_to_bytes(order, v);
    buf[off] = b[0];
    buf[off + 1] = b[1];
    assert(buf@ =~= overlay(old(buf)@, off as int, u16_bytes(order, v)));
}

/// Writes `v` at `off`; a buffer that ends before the number would is left as it is.
#[inline]
pub fn write_u32(order: ByteOrder, buf: &mut [u8], off: usize, v: u32)
    ensures
        final(buf)@ == (if off + 4 <= old(buf)@.len() {
            overlay(old(buf)@, off as int, u32_bytes(order, v))
        } else {
            old(buf)@
        }),
{
    if buf.len() < 4 || off > buf.len() - 4 {
        return;
    }
    let b = u32_to_bytes(order, v);
    buf[off] = b[0];
    buf[off + 1] = b[1];
    buf[off + 2] = b[2];
    buf[off + 3] = b[3];
    assert(buf@ =~= overlay(old(buf)@, off as int, u32_bytes(order, v)));
}

/// The netlink message header (`struct nlmsghdr`).
#[derive(Debug, Clone, Copy, PartialEq, Eq, Structural)]
pub struct NlMsgHdr {
    pub nlmsg_len: u32,
    pub nlmsg_type: u16,
    pub nlmsg_flags: u16,
    pub nlmsg_seq: u32,
    pub nlmsg_pid: u32,
}

impl Default for NlMsgHdr {
    fn default() -> (r: NlMsgHdr)
        ensures
            r == (NlMsgHdr {
                nlmsg_len: 0,
                nlmsg_type: 0,
                nlmsg_flags: 0,
                nlmsg_seq: 0,
                nlmsg_pid: 0,
            }),
    {
        NlMsgHdr { nlmsg_len: 0, nlmsg_type: 0, nlmsg_flags: 0, nlmsg_seq: 0, nlmsg_pid: 0 }
    }
}

impl NlMsgHdr {
    pub const LEN: usize = 16;

    /// The sixteen bytes of the header.
    pub open spec fn bytes(self, order: ByteOrder) -> Seq<u8> {
        u32_bytes(order, self.nlmsg_len) + u16_bytes(order, self.nlmsg_type) + u16_bytes(
            order,
            self.nlmsg_flags,
        ) + u32_bytes(order, self.nlmsg_seq) + u32_bytes(order, self.nlmsg_pid)
    }

    /// The header that the first sixteen bytes of `buf` stand for.
    #[verifier::opaque]
    pub open spec fn at(order: ByteOrder, buf: Seq<u8>) -> NlMsgHdr {
        NlMsgHdr {
            nlmsg_len: u32_at(order, buf, 0),
            nlmsg_type: u16_at(order, buf, 4),
            nlmsg_flags: u16_at(order, buf, 6),
            nlmsg_seq: u32_at(order, buf, 8),
            nlmsg_pid: u32_at(order, buf, 12),
        }
    }

    /// Encodes the header.
    pub fn to_bytes(self, order: ByteOrder) -> (r: [u8; 16])
        ensures
            r@ == self.bytes(order),
    {
        let len = u32_to_bytes(order, self.nlmsg_len);
        let typ = u16_to_bytes(order, self.nlmsg_type);
        let flags = u16_to_bytes(order, self.nlmsg_flags);
        let seq = u32_to_bytes(order, self.nlmsg_seq);
        let pid = u32_to_bytes(order, self.nlmsg_pid);
        let r = [
            len[0],
            len[1],
            len[2],
            len[3],
            typ[0],
            typ[1],
            flags[0],
            flags[1],
            seq[0],
            seq[1],
            seq[2],
            seq[3],
            pid[0],
            pid[1],
            pid[2],
            pid[3],
        ];
        assert(r@ =~= self.bytes(order));
        r
    }

    /// Decodes the header at the start of `buf`; `None` if the buffer is too short.
    pub fn from_bytes(order: ByteOrder, buf: &[u8]) -> (r: Option<NlMsgHdr>)
        ensures
            r == (if buf@.len() >= NlMsgHdr::LEN {
                Some(NlMsgHdr::at(order, buf@))
            } else {
                None
            }),
    {
        reveal(NlMsgHdr::at);
        if buf.len() < NlMsgHdr::LEN {
            return None;
        }
        Some(
            NlMsgHdr {
                nlmsg_len: read_u32(order, buf, 0)?,
                nlmsg_type: read_u16(order, buf, 4)?,
                nlmsg_flags: read_u16(order, buf, 6)?,
                nlmsg_seq: read_u32(order, buf, 8)?,
                nlmsg_pid: read_u32(order, buf, 12)?,
            },
        )
    }
}

/// Decoding the bytes of a header, whatever follows them, gives that header.
pub proof fn header_round_trip(order: ByteOrder, h: NlMsgHdr, rest: Seq<u8>)
    ensures
        h.bytes(order).len() == NlMsgHdr::LEN,
        NlMsgHdr::at(order, h.bytes(order) + rest) == h,
{
    reveal(NlMsgHdr::at);
    u32_round_trip(order, h.nlmsg_len);
    u32_round_trip(order, h.nlmsg_seq);
    u32_round_trip(order, h.nlmsg_pid);
    u16_round_trip(order, h.nlmsg_type);
    u16_round_trip(order, h.nlmsg_flags);
}

/// The length that an attribute of `len` bytes takes up in a message.
#[inline]
pub fn rta_align(len: usize) -> (r: usize)
    requires
        len + 3 <= usize::MAX,
    ensures
        r == align4(len as int),
{
    (len + 3) / 4 * 4
}

/// The length that a message of `len` bytes takes up in a buffer.
#[allow(dead_code)]
#[inline]
pub fn nlmsg_align(len: usize) -> (r: usize)
    requires
        len + 3 <= usize::MAX,
    ensures
        r == align4(len as int),
{
    (len + 3) / 4 * 4
}

/// Alignment is the least multiple of four that is no less than the length.
pub proof fn align4_is_least(len: int)
    ensures
        align4(len) % 4 == 0,
        len <= align4(len) < len + 4,
        align4(align4(len)) == align4(len),
{
}

/// A copy of `data`.
pub fn copy_bytes(data: &[u8]) -> (r: Vec<u8>)
    ensures
        r@ == data@,
{
    let mut r: Vec<u8> = Vec::new();
    append_bytes(&mut r, data);
    assert(r@ =~= data@);
    r
}

/// Appends `data` to `buf`.
pub fn append_bytes(buf: &mut Vec<u8>, data: &[u8])
    ensures
        final(buf)@ == old(buf)@ + data@,
{
    let mut i: usize = 0;
    while i < data.len()
        invariant
            i <= data@.len(),
            buf@ == old(buf)@ + data@.take(i as int),
        decreases data@.len() - i,
    {
        buf.push(data[i]);
        i += 1;
        assert(buf@ =~= old(buf)@ + data@.take(i as int));
    }
    assert(data@.take(i as int) =~= data@);
}

/// Whether two runs of bytes are the same.
pub fn bytes_equal(a: &[u8], b: &[u8]) -> (r: bool)
    ensures
        r == (a@ == b@),
{
    if a.len() != b.len() {
        return false;
    }
    let mut i: usize = 0;
    while i < a.len()
        invariant
            i <= a@.len(),
            a@.len() == b@.len(),
            forall|j: int| 0 <= j < i ==> a@[j] == b@[j],
        decreases a@.len() - i,
    {
        if a[i] != b[i] {
            return false;
        }
        i += 1;
    }
    assert(a@ =~= b@);
    true
}

/// The bytes `from..to` of `buf`.
pub fn sub_bytes(buf: &[u8], from: usize, to: usize) -> (r: Vec<u8>)
    requires
        from <= to <= buf@.len(),
    ensures
        r@ == buf@.subrange(from as int, to as int),
{
    copy_bytes(vstd::slice::slice_subrange(buf, from, to))
}

} // verus!
