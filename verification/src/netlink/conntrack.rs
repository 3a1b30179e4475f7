//! Connection tracking: deleting the connections that go through given addresses.
use crate::addr::Ipv4Addr;
use crate::netlink::conntrack_laws::every_known_address_counts;
use crate::netlink::message::{after_attr, attr_views, attrs, contents, finish_msg, message,
    messages, parse_attrs, split_messages, Attr, AttrView, ATTR_HDR_LEN, ATTR_KIND_BITS};
use crate::netlink::reply::{NLMSG_DONE, NLMSG_ERROR};
use crate::netlink::route::AF_INET;
use crate::netlink::util::{align4, append_bytes, nlmsg_align, read_u16, rta_align, sub_bytes,
    u16_at, u16_bytes, u16_to_bytes, zeros, ByteOrder, NlMsgHdr};
use vstd::prelude::*;

verus! {

pub const NETLINK_NETFILTER: i32 = 12;

pub const NFNL_SUBSYS_CTNETLINK: u16 = 1;

pub const IPCTNL_MSG_CT_NEW: u16 = 0;

pub const IPCTNL_MSG_CT_GET: u16 = 1;

pub const IPCTNL_MSG_CT_DELETE: u16 = 2;

/// Message types: the subsystem in the high byte, the message in the low one.
pub const CT_NEW: u16 = 0x100;

pub const CT_GET: u16 = 0x101;

pub const CT_DELETE: u16 = 0x102;

pub const NLM_F_REQUEST: u16 = 0x01;

pub const NLM_F_DUMP: u16 = 0x300;

/// `NLM_F_REQUEST | NLM_F_DUMP`.
pub const CT_DUMP_FLAGS: u16 = 0x301;

pub const CTA_UNSPEC: u16 = 0;

pub const CTA_TUPLE_ORIG: u16 = 1;

pub const CTA_TUPLE_REPLY: u16 = 2;

pub const CTA_TUPLE_IP: u16 = 1;

pub const CTA_IP_V4_SRC: u16 = 1;

pub const CTA_IP_V4_DST: u16 = 2;

/// The bits of an attribute's type that name its kind.
pub const NLA_TYPE_MASK: u16 = 0x3fff;

/// Deletions are sent once that many bytes of them have come together.
pub const DELETE_BATCH_LIMIT: usize = 8192;

/// The message types are made of the subsystem and the message.
pub proof fn message_types()
    ensures
        CT_NEW == (NFNL_SUBSYS_CTNETLINK << 8) | IPCTNL_MSG_CT_NEW,
        CT_GET == (NFNL_SUBSYS_CTNETLINK << 8) | IPCTNL_MSG_CT_GET,
        CT_DELETE == (NFNL_SUBSYS_CTNETLINK << 8) | IPCTNL_MSG_CT_DELETE,
        CT_DUMP_FLAGS == NLM_F_REQUEST | NLM_F_DUMP,
{
    assert(0x100u16 == (1u16 << 8) | 0u16) by (bit_vector);
    assert(0x101u16 == (1u16 << 8) | 1u16) by (bit_vector);
    assert(0x102u16 == (1u16 << 8) | 2u16) by (bit_vector);
    assert(0x301u16 == 0x01u16 | 0x300u16) by (bit_vector);
}

/// Taking the kind of an attribute by the remainder is the same as by the mask.
pub proof fn kind_mask(kind: u16)
    ensures
        kind % ATTR_KIND_BITS == kind & NLA_TYPE_MASK,
{
    assert(kind % 0x4000 == kind & 0x3fff) by (bit_vector);
}

/// `struct nfgenmsg`.
#[derive(Debug, Clone, Copy)]
pub struct NfGenMsg {
    pub nfgen_family: u8,
    pub version: u8,
    pub res_id: u16,
}

impl NfGenMsg {
    pub const LEN: usize = 4;

    pub open spec fn bytes(self, order: ByteOrder) -> Seq<u8> {
        seq![self.nfgen_family, self.version] + u16_bytes(order, self.res_id)
    }

    pub fn to_bytes(self, order: ByteOrder) -> (r: [u8; 4])
        ensures
            r@ == self.bytes(order),
    {
        let z = u16_to_bytes(order, self.res_id);
        let r = [self.nfgen_family, self.version, z[0], z[1]];
        assert(r@ =~= self.bytes(order));
        r
    }
}

/// The fixed part of the messages made here.
pub open spec fn nf_head() -> NfGenMsg {
    NfGenMsg { nfgen_family: AF_INET, version: 0, res_id: 0 }
}

/// A message with a payload after the fixed part.
pub open spec fn nf_msg(order: ByteOrder, msg_type: u16, flags: u16, seq: u32, payload: Seq<u8>) -> Seq<
    u8,
> {
    message(order, msg_type, flags, seq, nf_head().bytes(order) + payload)
}

/// Builds a message with a payload after the fixed part.
pub fn build_msg(order: ByteOrder, msg_type: u16, flags: u16, seq: u32, payload: &[u8]) -> (r: Vec<
    u8,
>)
    requires
        payload@.len() + 20 <= usize::MAX,
    ensures
        r@ == nf_msg(order, msg_type, flags, seq, payload@),
{
    let head = NfGenMsg { nfgen_family: AF_INET, version: 0, res_id: 0 };
    let mut body: Vec<u8> = Vec::new();
    append_bytes(&mut body, &head.to_bytes(order));
    append_bytes(&mut body, payload);
    assert(body@ =~= nf_head().bytes(order) + payload@);
    finish_msg(order, &body, msg_type, flags, seq)
}

/// A deletion in a batch: the connection's original tuple, and zeros up to a
/// multiple of four. No answer is asked for.
#[verifier::opaque]
pub open spec fn delete_bytes(order: ByteOrder, seq: u32, tuple: Seq<u8>) -> Seq<u8> {
    nf_msg(order, CT_DELETE, NLM_F_REQUEST, seq, tuple) + zeros(
        (align4(20 + tuple.len() as int) - (20 + tuple.len())) as nat,
    )
}

/// Appends a deletion to a batch.
pub fn append_delete_msg(order: ByteOrder, batch: &mut Vec<u8>, seq: u32, tuple: &[u8])
    requires
        tuple@.len() + 23 <= usize::MAX,
    ensures
        final(batch)@ == old(batch)@ + delete_bytes(order, seq, tuple@),
{
    reveal(delete_bytes);
    let msg = build_msg(order, CT_DELETE, NLM_F_REQUEST, seq, tuple);
    append_bytes(batch, msg.as_slice());
    let len: usize = NlMsgHdr::LEN + NfGenMsg::LEN + tuple.len();
    let padded: usize = nlmsg_align(len);
    let ghost head = batch@;
    let mut pad: usize = 0;
    while pad < padded - len
        invariant
            pad <= padded - len,
            batch@ == head + zeros(pad as nat),
        decreases padded - len - pad,
    {
        batch.push(0);
        pad += 1;
        assert(batch@ =~= head + zeros(pad as nat));
    }
    assert(batch@ =~= old(batch)@ + delete_bytes(order, seq, tuple@));
}

/// Whether an attribute holds one of the addresses.
pub open spec fn holds_ip(a: AttrView, ips: Seq<Ipv4Addr>) -> bool {
    a.data.len() == 4 && ips.contains(
        Ipv4Addr { a: a.data[0], b: a.data[1], c: a.data[2], d: a.data[3] },
    )
}

/// Whether any attribute of a list holds one of the addresses.
pub open spec fn any_holds_ip(list: Seq<AttrView>, ips: Seq<Ipv4Addr>) -> bool {
    exists|i: int| 0 <= i < list.len() && holds_ip(#[trigger] list[i], ips)
}

/// Whether an attribute of a tuple is its address part and holds one of the addresses.
pub open spec fn ip_part_matches(order: ByteOrder, a: AttrView, ips: Seq<Ipv4Addr>) -> bool {
    a.kind % ATTR_KIND_BITS == CTA_TUPLE_IP && any_holds_ip(attrs(order, a.data), ips)
}

/// Whether one of the addresses is an end of a tuple.
pub open spec fn tuple_matches(order: ByteOrder, tuple: Seq<u8>, ips: Seq<Ipv4Addr>) -> bool {
    exists|i: int|
        0 <= i < attrs(order, tuple).len() && ip_part_matches(
            order,
            #[trigger] attrs(order, tuple)[i],
            ips,
        )
}

fn list_holds_ip(list: &Vec<Attr>, ips: &[Ipv4Addr]) -> (r: bool)
    ensures
        r == any_holds_ip(attr_views(list@), ips@),
{
    let ghost views = attr_views(list@);
    let mut i: usize = 0;
    while i < list.len()
        invariant
            i <= list@.len(),
            views == attr_views(list@),
            forall|j: int| 0 <= j < i ==> !holds_ip(#[trigger] views[j], ips@),
        decreases list@.len() - i,
    {
        let d = &list[i].data;
        assert(views[i as int] == list@[i as int]@);
        if d.len() == 4 {
            let ip = Ipv4Addr { a: d[0], b: d[1], c: d[2], d: d[3] };
            if contains_ip(ips, ip) {
                assert(holds_ip(views[i as int], ips@));
                return true;
            }
        }
        i += 1;
    }
    false
}

/// Whether an address is in a list.
pub fn contains_ip(ips: &[Ipv4Addr], ip: Ipv4Addr) -> (r: bool)
    ensures
        r == ips@.contains(ip),
{
    let mut i: usize = 0;
    while i < ips.len()
        invariant
            i <= ips@.len(),
            forall|j: int| 0 <= j < i ==> ips@[j] != ip,
        decreases ips@.len() - i,
    {
        if ips[i] == ip {
            return true;
        }
        i += 1;
    }
    false
}

/// Whether one of the addresses is an end of a tuple.
pub fn tuple_matches_ip(order: ByteOrder, tuple: &[u8], ips: &[Ipv4Addr]) -> (r: bool)
    ensures
        r == tuple_matches(order, tuple@, ips@),
{
    let list = parse_attrs(order, tuple, 0, tuple.len());
    assert(tuple@.subrange(0, tuple@.len() as int) =~= tuple@);
    let ghost views = attrs(order, tuple@);
    let mut i: usize = 0;
    while i < list.len()
        invariant
            i <= list@.len(),
            views == attr_views(list@),
            views == attrs(order, tuple@),
            forall|j: int| 0 <= j < i ==> !ip_part_matches(order, #[trigger] views[j], ips@),
        decreases list@.len() - i,
    {
        let a = &list[i];
        assert(views[i as int] == a@);
        if a.kind % ATTR_KIND_BITS == CTA_TUPLE_IP {
            let inner = parse_attrs(order, a.data.as_slice(), 0, a.data.len());
            assert(a.data@.subrange(0, a.data@.len() as int) =~= a.data@);
            if list_holds_ip(&inner, ips) {
                assert(ip_part_matches(order, views[i as int], ips@));
                return true;
            }
        }
        i += 1;
    }
    false
}

/// Whether an attribute of a connection is one of its tuples and one of the
/// addresses is an end of it. After address translation the line's own address is
/// in the reply.
pub open spec fn part_matches(order: ByteOrder, a: AttrView, ips: Seq<Ipv4Addr>) -> bool {
    (a.kind % ATTR_KIND_BITS == CTA_TUPLE_ORIG || a.kind % ATTR_KIND_BITS == CTA_TUPLE_REPLY)
        && tuple_matches(order, a.data, ips)
}

/// Whether a connection goes through one of the addresses.
pub open spec fn connection_matches(order: ByteOrder, stream: Seq<u8>, ips: Seq<Ipv4Addr>) -> bool {
    exists|i: int|
        0 <= i < attrs(order, stream).len() && part_matches(
            order,
            #[trigger] attrs(order, stream)[i],
            ips,
        )
}

/// The place of the original tuple, header and all, among a connection's
/// attributes, which start at `base`: the last one if there are several.
pub open spec fn orig_range(order: ByteOrder, s: Seq<u8>, base: int) -> Option<(int, int)>
    decreases s.len(),
{
    if s.len() < 4 {
        None
    } else {
        let len = u16_at(order, s, 0) as int;
        if len < 4 || len > s.len() {
            None
        } else {
            match orig_range(order, after_attr(s, len), base + align4(len)) {
                Some(r) => Some(r),
                None => if u16_at(order, s, 2) % ATTR_KIND_BITS == CTA_TUPLE_ORIG {
                    Some((base, base + len))
                } else {
                    None
                },
            }
        }
    }
}

/// The original tuple of a connection that goes through one of the addresses.
pub open spec fn matching_tuple(order: ByteOrder, stream: Seq<u8>, ips: Seq<Ipv4Addr>) -> Option<
    (int, int),
> {
    if connection_matches(order, stream, ips) {
        orig_range(order, stream, 0)
    } else {
        None
    }
}

pub proof fn lemma_range_in_stream(order: ByteOrder, s: Seq<u8>, base: int)
    ensures
        orig_range(order, s, base) matches Some(r) ==> base <= r.0 && r.0 + 4 <= r.1 <= base
            + s.len(),
    decreases s.len(),
{
    if s.len() >= 4 {
        let len = u16_at(order, s, 0) as int;
        if 4 <= len <= s.len() {
            lemma_range_in_stream(order, after_attr(s, len), base + align4(len));
        }
    }
}

/// Finds the original tuple of a connection that goes through one of the
/// addresses: where it starts and ends in `stream`.
pub fn extract_matching_orig_tuple(order: ByteOrder, stream: &[u8], ips: &[Ipv4Addr]) -> (r: Option<
    (usize, usize),
>)
    ensures
        match matching_tuple(order, stream@, ips@) {
            Some(t) => r matches Some(u) && u.0 == t.0 && u.1 == t.1,
            None => r is None,
        },
        r matches Some(u) ==> u.0 + 4 <= u.1 <= stream@.len(),
{
    proof {
        lemma_range_in_stream(order, stream@, 0);
    }
    if connection_has_ip(order, stream, ips) {
        find_orig(order, stream)
    } else {
        None
    }
}

fn connection_has_ip(order: ByteOrder, stream: &[u8], ips: &[Ipv4Addr]) -> (r: bool)
    ensures
        r == connection_matches(order, stream@, ips@),
{
    let list = parse_attrs(order, stream, 0, stream.len());
    assert(stream@.subrange(0, stream@.len() as int) =~= stream@);
    let ghost views = attrs(order, stream@);
    let mut i: usize = 0;
    while i < list.len()
        invariant
            i <= list@.len(),
            views == attr_views(list@),
            views == attrs(order, stream@),
            forall|j: int| 0 <= j < i ==> !part_matches(order, #[trigger] views[j], ips@),
        decreases list@.len() - i,
    {
        let a = &list[i];
        assert(views[i as int] == a@);
        let kind: u16 = a.kind % ATTR_KIND_BITS;
        if (kind == CTA_TUPLE_ORIG || kind == CTA_TUPLE_REPLY) && tuple_matches_ip(
            order,
            a.data.as_slice(),
            ips,
        ) {
            assert(part_matches(order, views[i as int], ips@));
            return true;
        }
        i += 1;
    }
    false
}

/// What was found, unless something is found further on.
spec fn or_else(later: Option<(int, int)>, found: Option<(usize, usize)>) -> Option<(int, int)> {
    match later {
        Some(r) => Some(r),
        None => match found {
            Some(f) => Some((f.0 as int, f.1 as int)),
            None => None,
        },
    }
}

fn find_orig(order: ByteOrder, stream: &[u8]) -> (r: Option<(usize, usize)>)
    ensures
        match orig_range(order, stream@, 0) {
            Some(t) => r matches Some(u) && u.0 == t.0 && u.1 == t.1,
            None => r is None,
        },
{
    let ghost all = orig_range(order, stream@, 0);
    let len: usize = stream.len();
    let mut at: usize = 0;
    let mut found: Option<(usize, usize)> = None;
    assert(stream@.skip(0) =~= stream@);
    loop
        invariant_except_break
            at <= len,
            len == stream@.len(),
            or_else(orig_range(order, stream@.skip(at as int), at as int), found) == all,
        ensures
            or_else(None, found) == all,
        decreases len - at,
    {
        let ghost s = stream@.skip(at as int);
        if len - at < ATTR_HDR_LEN {
            break;
        }
        let (attr_len, kind) = match (read_u16(order, stream, at), read_u16(order, stream, at + 2)) {
            (Some(l), Some(k)) => (l as usize, k),
            _ => (0usize, 0u16),
        };
        assert(attr_len == u16_at(order, s, 0) && kind == u16_at(order, s, 2));
        if attr_len < ATTR_HDR_LEN || attr_len > len - at {
            break;
        }
        let ghost before = found;
        if kind % ATTR_KIND_BITS == CTA_TUPLE_ORIG {
            found = Some((at, at + attr_len));
        }
        let step: usize = rta_align(attr_len);
        let ghost here = at;
        let ghost rest = after_attr(s, attr_len as int);
        at = if step >= len - at {
            len
        } else {
            at + step
        };
        proof {
            assert(stream@.skip(at as int) =~= rest);
            if step >= len - here {
                assert(rest.len() == 0);
                assert(orig_range(order, rest, here + align4(attr_len as int)) is None);
                assert(orig_range(order, rest, at as int) is None);
            } else {
                assert(at == here + align4(attr_len as int));
            }
            assert(orig_range(order, s, here as int) == match orig_range(
                order,
                rest,
                here + align4(attr_len as int),
            ) {
                Some(r) => Some(r),
                None => if kind % ATTR_KIND_BITS == CTA_TUPLE_ORIG {
                    Some((here as int, here + attr_len))
                } else {
                    None
                },
            });
        }
    }
    found
}

/// What a dumped message means to a flush.
pub ghost enum Verdict {
    /// The dump is over, or has failed.
    Stop,
    /// Nothing to do: another connection, or the answer to a deletion.
    Skip,
    /// The connection with this original tuple is to be deleted.
    Delete(Seq<u8>),
}

/// What a message means to the flush whose dump is `dump_seq`.
#[verifier::opaque]
pub open spec fn verdict(order: ByteOrder, msg: Seq<u8>, dump_seq: u32, ips: Seq<Ipv4Addr>) -> Verdict {
    let hdr = NlMsgHdr::at(order, msg);
    if hdr.nlmsg_type == NLMSG_DONE {
        Verdict::Stop
    } else if hdr.nlmsg_type == NLMSG_ERROR {
        if hdr.nlmsg_seq == dump_seq {
            Verdict::Stop
        } else {
            Verdict::Skip
        }
    } else if hdr.nlmsg_type == CT_NEW && hdr.nlmsg_seq == dump_seq && msg.len() > 20 {
        match matching_tuple(order, msg.skip(20), ips) {
            Some(t) => Verdict::Delete(msg.skip(20).subrange(t.0, t.1)),
            None => Verdict::Skip,
        }
    } else {
        Verdict::Skip
    }
}

/// The number after `seq`; it wraps around.
pub open spec fn seq_after(seq: u32) -> u32 {
    if seq == u32::MAX {
        0
    } else {
        (seq + 1) as u32
    }
}

/// What a flush has come to: the number of the last request, the deletions that
/// wait to be sent, and how many connections were asked to go. The count stops at
/// the greatest number.
pub ghost struct FlushView {
    pub seq: u32,
    pub batch: Seq<u8>,
    pub deleted: usize,
}

/// What to do next in a flush.
pub ghost enum FlushStepView {
    Send(Seq<u8>),
    Receive,
    Done(Option<i32>),
}

pub ghost struct FlushState {
    pub f: FlushView,
    pub at: int,
    pub over: bool,
    pub step: FlushStepView,
}

impl FlushView {
    /// With one more deletion.
    pub open spec fn with(self, order: ByteOrder, tuple: Seq<u8>) -> FlushView {
        FlushView {
            seq: seq_after(self.seq),
            batch: self.batch + delete_bytes(order, seq_after(self.seq), tuple),
            deleted: if self.deleted < usize::MAX {
                (self.deleted + 1) as usize
            } else {
                self.deleted
            },
        }
    }

    pub open spec fn sent(self) -> FlushView {
        FlushView { batch: Seq::empty(), ..self }
    }
}

/// No more messages come: what waits is sent, then the flush is over.
pub open spec fn wind_up(f: FlushView, at: int) -> FlushState {
    if f.batch.len() > 0 {
        FlushState { f: f.sent(), at, over: true, step: FlushStepView::Send(f.batch) }
    } else {
        FlushState { f, at, over: true, step: FlushStepView::Done(None) }
    }
}

/// Goes through the messages of a buffer, from the place `at` on, until enough
/// deletions have come together to be sent.
pub open spec fn advance(
    order: ByteOrder,
    dump_seq: u32,
    ips: Seq<Ipv4Addr>,
    msgs: Seq<Seq<u8>>,
    at: int,
    f: FlushView,
) -> FlushState
    decreases msgs.len() - at,
{
    if at >= msgs.len() {
        FlushState { f, at, over: false, step: FlushStepView::Receive }
    } else {
        match verdict(order, msgs[at], dump_seq, ips) {
            Verdict::Stop => wind_up(f, at),
            Verdict::Skip => advance(order, dump_seq, ips, msgs, at + 1, f),
            Verdict::Delete(tuple) => {
                let g = f.with(order, tuple);
                if g.batch.len() >= DELETE_BATCH_LIMIT {
                    FlushState {
                        f: g.sent(),
                        at: at + 1,
                        over: false,
                        step: FlushStepView::Send(g.batch),
                    }
                } else {
                    advance(order, dump_seq, ips, msgs, at + 1, g)
                }
            },
        }
    }
}

/// The connection-tracking manager.
pub struct ConntrackManager {
    pub order: ByteOrder,
    /// The number of the last request.
    pub seq: u32,
}

/// What to do next in a flush.
pub enum FlushStep {
    /// Send these bytes and say whether that worked.
    Send(Vec<u8>),
    /// Receive a buffer.
    Receive,
    /// The flush is over; an error number if something could not be sent.
    Done(Result<usize, i32>),
}

impl View for FlushStep {
    type V = FlushStepView;

    open spec fn view(&self) -> FlushStepView {
        match *self {
            FlushStep::Send(b) => FlushStepView::Send(b@),
            FlushStep::Receive => FlushStepView::Receive,
            FlushStep::Done(Ok(_)) => FlushStepView::Done(None),
            FlushStep::Done(Err(e)) => FlushStepView::Done(Some(e)),
        }
    }
}

/// What came of the last step of a flush.
pub enum FlushEvent {
    /// The bytes were sent, or could not be, with this error number.
    Sent(Result<(), i32>),
    Received(Vec<u8>),
    /// A signal arrived first.
    Interrupted,
    /// Nothing can be received any more.
    Silent,
}

/// A flush under way.
pub struct FlushRun {
    pub targets: Vec<Ipv4Addr>,
    pub dump_seq: u32,
    pub msgs: Vec<Vec<u8>>,
    pub at: usize,
    pub batch: Vec<u8>,
    pub deleted: usize,
    /// Whether all messages of the dump have been seen.
    pub over: bool,
}

/// The part of a flush that changes with each message.
pub open spec fn flush_view(mgr: ConntrackManager, run: FlushRun) -> FlushView {
    FlushView { seq: mgr.seq, batch: run.batch@, deleted: run.deleted }
}

/// Whether a flush and its step are those of a state.
pub open spec fn flush_reached(
    mgr: ConntrackManager,
    run: FlushRun,
    step: FlushStep,
    s: FlushState,
) -> bool {
    &&& flush_view(mgr, run) == s.f
    &&& run.at == s.at
    &&& run.over == s.over
    &&& step@ == s.step
    &&& step matches FlushStep::Done(Ok(n)) ==> n == run.deleted
}

/// What stays the same throughout a flush.
pub open spec fn same_flush(a: FlushRun, b: FlushRun) -> bool {
    a.targets@ == b.targets@ && a.dump_seq == b.dump_seq
}

/// The meaning of a message, for a flush.
enum Found {
    Stop,
    Skip,
    Delete(Vec<u8>),
}

spec fn found_view(f: Found) -> Verdict {
    match f {
        Found::Stop => Verdict::Stop,
        Found::Skip => Verdict::Skip,
        Found::Delete(t) => Verdict::Delete(t@),
    }
}

fn judge(order: ByteOrder, msg: &[u8], dump_seq: u32, ips: &[Ipv4Addr]) -> (r: Found)
    requires
        msg@.len() >= 16,
    ensures
        found_view(r) == verdict(order, msg@, dump_seq, ips@),
        r matches Found::Delete(t) ==> t@.len() + 20 <= msg@.len(),
{
    reveal(verdict);
    let (kind, seq) = match NlMsgHdr::from_bytes(order, msg) {
        Some(h) => (h.nlmsg_type, h.nlmsg_seq),
        None => (0u16, 0u32),
    };
    if kind == NLMSG_DONE {
        return Found::Stop;
    }
    if kind == NLMSG_ERROR {
        if seq == dump_seq {
            return Found::Stop;
        }
        return Found::Skip;
    }
    if kind == CT_NEW && seq == dump_seq && msg.len() > 20 {
        let stream = vstd::slice::slice_subrange(msg, 20, msg.len());
        assert(stream@ =~= msg@.skip(20));
        if let Some((start, end)) = extract_matching_orig_tuple(order, stream, ips) {
            return Found::Delete(sub_bytes(stream, start, end));
        }
    }
    Found::Skip
}

/// Whether the messages of a flush are whole.
pub open spec fn msgs_wf(msgs: Seq<Vec<u8>>) -> bool {
    forall|i: int| 0 <= i < msgs.len() ==> 16 <= (#[trigger] msgs[i])@.len() <= usize::MAX - 64
}

impl ConntrackManager {
    /// A manager for a machine with the given byte order.
    pub fn with_order(order: ByteOrder) -> (r: ConntrackManager)
        ensures
            r == (ConntrackManager { order, seq: 1 }),
    {
        ConntrackManager { order, seq: 1 }
    }

    /// A manager for this machine.
    pub fn new() -> (r: ConntrackManager)
        ensures
            r == (ConntrackManager { order: r.order, seq: 1 }),
    {
        ConntrackManager::with_order(ByteOrder::native())
    }

    fn end(&mut self, run: &mut FlushRun) -> (step: FlushStep)
        ensures
            flush_reached(
                *final(self),
                *final(run),
                step,
                wind_up(flush_view(*old(self), *old(run)), old(run).at as int),
            ),
            *final(self) == *old(self),
            same_flush(*final(run), *old(run)),
            final(run).msgs == old(run).msgs,
    {
        run.over = true;
        if run.batch.len() > 0 {
            let mut batch: Vec<u8> = Vec::new();
            core::mem::swap(&mut batch, &mut run.batch);
            assert(run.batch@ =~= Seq::empty());
            FlushStep::Send(batch)
        } else {
            FlushStep::Done(Ok(run.deleted))
        }
    }

    fn go_on(&mut self, run: &mut FlushRun) -> (step: FlushStep)
        requires
            old(run).at <= old(run).msgs@.len(),
            msgs_wf(old(run).msgs@),
            !old(run).over,
        ensures
            flush_reached(
                *final(self),
                *final(run),
                step,
                advance(
                    old(self).order,
                    old(run).dump_seq,
                    old(run).targets@,
                    contents(old(run).msgs@),
                    old(run).at as int,
                    flush_view(*old(self), *old(run)),
                ),
            ),
            final(self).order == old(self).order,
            same_flush(*final(run), *old(run)),
            final(run).msgs == old(run).msgs,
            final(run).at <= final(run).msgs@.len(),
    {
        let ghost msgs = contents(run.msgs@);
        let ghost target = advance(
            self.order,
            run.dump_seq,
            run.targets@,
            msgs,
            run.at as int,
            flush_view(*self, *run),
        );
        while run.at < run.msgs.len()
            invariant
                run.at <= run.msgs@.len(),
                msgs == contents(run.msgs@),
                msgs_wf(run.msgs@),
                self.order == old(self).order,
                same_flush(*run, *old(run)),
                run.msgs == old(run).msgs,
                !run.over,
                target == advance(
                    old(self).order,
                    old(run).dump_seq,
                    old(run).targets@,
                    contents(old(run).msgs@),
                    old(run).at as int,
                    flush_view(*old(self), *old(run)),
                ),
                advance(
                    self.order,
                    run.dump_seq,
                    run.targets@,
                    msgs,
                    run.at as int,
                    flush_view(*self, *run),
                ) == target,
            decreases run.msgs@.len() - run.at,
        {
            let at: usize = run.at;
            let ghost before = flush_view(*self, *run);
            assert(msgs[at as int] == run.msgs@[at as int]@);
            match judge(
                self.order,
                run.msgs[at].as_slice(),
                run.dump_seq,
                run.targets.as_slice(),
            ) {
                Found::Stop => {
                    return self.end(run);
                },
                Found::Skip => {
                    run.at = at + 1;
                },
                Found::Delete(tuple) => {
                    self.seq = self.seq.wrapping_add(1);
                    append_delete_msg(self.order, &mut run.batch, self.seq, tuple.as_slice());
                    if run.deleted < usize::MAX {
                        run.deleted = run.deleted + 1;
                    }
                    run.at = at + 1;
                    assert(flush_view(*self, *run) == before.with(self.order, tuple@));
                    if run.batch.len() >= DELETE_BATCH_LIMIT {
                        let mut batch: Vec<u8> = Vec::new();
                        core::mem::swap(&mut batch, &mut run.batch);
                        assert(run.batch@ =~= Seq::empty());
                        return FlushStep::Send(batch);
                    }
                },
            }
        }
        FlushStep::Receive
    }

    /// Starts to delete the connections that go through one of the addresses, with
    /// the request for a dump of all connections.
    pub fn flush_by_ips(&mut self, targets: &[Ipv4Addr]) -> (r: (FlushRun, FlushStep))
        ensures
            final(self).order == old(self).order,
            final(self).seq == seq_after(old(self).seq),
            r.0.targets@ == targets@,
            r.0.dump_seq == final(self).seq,
            r.0.msgs@.len() == 0 && r.0.at == 0 && r.0.batch@.len() == 0 && r.0.deleted == 0
                && !r.0.over,
            r.1@ == FlushStepView::Send(
                nf_msg(
                    old(self).order,
                    CT_GET,
                    CT_DUMP_FLAGS,
                    seq_after(old(self).seq),
                    Seq::empty(),
                ),
            ),
    {
        self.seq = self.seq.wrapping_add(1);
        let empty: Vec<u8> = Vec::new();
        assert(empty@ =~= Seq::empty());
        let msg = build_msg(self.order, CT_GET, CT_DUMP_FLAGS, self.seq, empty.as_slice());
        let mut ips: Vec<Ipv4Addr> = Vec::new();
        let mut i: usize = 0;
        while i < targets.len()
            invariant
                i <= targets@.len(),
                ips@ == targets@.take(i as int),
            decreases targets@.len() - i,
        {
            ips.push(targets[i]);
            i += 1;
            assert(ips@ =~= targets@.take(i as int));
        }
        assert(ips@ =~= targets@);
        let run = FlushRun {
            targets: ips,
            dump_seq: self.seq,
            msgs: Vec::new(),
            at: 0,
            batch: Vec::new(),
            deleted: 0,
            over: false,
        };
        (run, FlushStep::Send(msg))
    }

    /// Starts to delete the connections of some interfaces, given what is known of
    /// their addresses; `None` if no address is known.
    pub fn flush_interfaces_conntrack(&mut self, ips: &[Option<Ipv4Addr>]) -> (r: Option<
        (FlushRun, FlushStep),
    >)
        ensures
            r is None == (known_ips(ips@).len() == 0),
            r is None == forall|i: int| 0 <= i < ips@.len() ==> #[trigger] ips@[i] is None,
            r is None ==> *final(self) == *old(self),
            r matches Some(f) ==> forall|a: Ipv4Addr| #[trigger]
                f.0.targets@.contains(a) <==> exists|i: int|
                    0 <= i < ips@.len() && #[trigger] ips@[i] == Some(a),
            r matches Some(f) ==> {
                &&& final(self).order == old(self).order
                &&& final(self).seq == seq_after(old(self).seq)
                &&& f.0.targets@ == known_ips(ips@)
                &&& f.0.dump_seq == final(self).seq
                &&& f.0.msgs@.len() == 0 && f.0.at == 0 && f.0.batch@.len() == 0 && f.0.deleted == 0
                    && !f.0.over
                &&& f.1@ == FlushStepView::Send(
                    nf_msg(
                        old(self).order,
                        CT_GET,
                        CT_DUMP_FLAGS,
                        seq_after(old(self).seq),
                        Seq::empty(),
                    ),
                )
            },
    {
        let mut known: Vec<Ipv4Addr> = Vec::new();
        let mut i: usize = 0;
        while i < ips.len()
            invariant
                i <= ips@.len(),
                known@ == known_ips(ips@.take(i as int)),
            decreases ips@.len() - i,
        {
            if let Some(ip) = ips[i] {
                known.push(ip);
            }
            i += 1;
            proof {
                assert(ips@.take(i as int).drop_last() =~= ips@.take(i - 1));
            }
        }
        assert(ips@.take(i as int) =~= ips@);
        proof {
            every_known_address_counts(ips@);
        }
        if known.len() == 0 {
            None
        } else {
            Some(self.flush_by_ips(known.as_slice()))
        }
    }

    /// Goes on with a flush after what came of its last step.
    pub fn resume_flush(&mut self, run: &mut FlushRun, ev: FlushEvent) -> (step: FlushStep)
        requires
            old(run).at <= old(run).msgs@.len(),
            msgs_wf(old(run).msgs@),
            ev matches FlushEvent::Received(b) ==> b@.len() <= usize::MAX - 64,
        ensures
            final(self).order == old(self).order,
            same_flush(*final(run), *old(run)),
            final(run).at <= final(run).msgs@.len(),
            msgs_wf(final(run).msgs@),
            ({
                let f = flush_view(*old(self), *old(run));
                match ev {
                    FlushEvent::Sent(Err(e)) => {
                        &&& step@ == FlushStepView::Done(Some(e))
                        &&& *final(self) == *old(self)
                        &&& *final(run) == *old(run)
                    },
                    FlushEvent::Sent(Ok(_)) => flush_reached(
                        *final(self),
                        *final(run),
                        step,
                        if old(run).over {
                            wind_up(f, old(run).at as int)
                        } else {
                            advance(
                                old(self).order,
                                old(run).dump_seq,
                                old(run).targets@,
                                contents(old(run).msgs@),
                                old(run).at as int,
                                f,
                            )
                        },
                    ),
                    FlushEvent::Interrupted => {
                        &&& step@ == FlushStepView::Receive
                        &&& *final(self) == *old(self)
                        &&& *final(run) == *old(run)
                    },
                    FlushEvent::Silent => flush_reached(
                        *final(self),
                        *final(run),
                        step,
                        wind_up(f, old(run).at as int),
                    ),
                    FlushEvent::Received(b) => flush_reached(
                        *final(self),
                        *final(run),
                        step,
                        if b@.len() == 0 || old(run).over {
                            wind_up(f, old(run).at as int)
                        } else {
                            advance(
                                old(self).order,
                                old(run).dump_seq,
                                old(run).targets@,
                                messages(old(self).order, b@),
                                0,
                                f,
                            )
                        },
                    ),
                }
            }),
    {
        match ev {
            FlushEvent::Sent(Err(e)) => FlushStep::Done(Err(e)),
            FlushEvent::Sent(Ok(_)) => {
                if run.over {
                    self.end(run)
                } else {
                    self.go_on(run)
                }
            },
            FlushEvent::Interrupted => FlushStep::Receive,
            FlushEvent::Silent => self.end(run),
            FlushEvent::Received(b) => {
                if b.len() == 0 || run.over {
                    return self.end(run);
                }
                run.msgs = split_messages(self.order, b.as_slice());
                run.at = 0;
                proof {
                    lemma_messages_fit(self.order, b@);
                    assert forall|i: int| 0 <= i < run.msgs@.len() implies 16 <= (
                    #[trigger] run.msgs@[i])@.len() <= usize::MAX - 64 by {
                        assert(contents(run.msgs@)[i] == run.msgs@[i]@);
                    }
                }
                self.go_on(run)
            },
        }
    }
}

/// The addresses that are known, in their order.
pub open spec fn known_ips(ips: Seq<Option<Ipv4Addr>>) -> Seq<Ipv4Addr>
    decreases ips.len(),
{
    if ips.len() == 0 {
        Seq::empty()
    } else {
        match ips.last() {
            Some(ip) => known_ips(ips.drop_last()).push(ip),
            None => known_ips(ips.drop_last()),
        }
    }
}

proof fn lemma_messages_fit(order: ByteOrder, s: Seq<u8>)
    ensures
        forall|i: int|
            0 <= i < messages(order, s).len() ==> (#[trigger] messages(order, s)[i]).len()
                <= s.len(),
    decreases s.len(),
{
    if s.len() >= 16 {
        let len = NlMsgHdr::at(order, s).nlmsg_len as int;
        if 16 <= len <= s.len() {
            let rest = crate::netlink::message::after_message(s, len);
            lemma_messages_fit(order, rest);
            assert forall|i: int| 0 <= i < messages(order, s).len() implies (
            #[trigger] messages(order, s)[i]).len() <= s.len() by {
                if i > 0 {
                    assert(messages(order, s)[i] == messages(order, rest)[i - 1]);
                }
            }
        }
    }
}

/// The deletions for a list of messages: one for each connection that goes
/// through one of the addresses, in order, numbered one after the other.
pub open spec fn deletions(
    order: ByteOrder,
    dump_seq: u32,
    ips: Seq<Ipv4Addr>,
    seq: u32,
    msgs: Seq<Seq<u8>>,
) -> Seq<u8>
    decreases msgs.len(),
{
    if msgs.len() == 0 {
        Seq::empty()
    } else {
        match verdict(order, msgs[0], dump_seq, ips) {
            Verdict::Stop => Seq::empty(),
            Verdict::Skip => deletions(order, dump_seq, ips, seq, msgs.drop_first()),
            Verdict::Delete(tuple) => delete_bytes(order, seq_after(seq), tuple) + deletions(
                order,
                dump_seq,
                ips,
                seq_after(seq),
                msgs.drop_first(),
            ),
        }
    }
}

/// The bytes that a step sends.
pub open spec fn sent_by(step: FlushStepView) -> Seq<u8> {
    match step {
        FlushStepView::Send(b) => b,
        _ => Seq::empty(),
    }
}

/// No deletion is lost or made up: what waits and what is still to come, is what
/// a step sends, what waits after it, and what is then still to come.
pub proof fn flush_deletes_the_matching_connections(
    order: ByteOrder,
    dump_seq: u32,
    ips: Seq<Ipv4Addr>,
    msgs: Seq<Seq<u8>>,
    at: int,
    f: FlushView,
)
    requires
        0 <= at <= msgs.len(),
    ensures
        ({
            let s = advance(order, dump_seq, ips, msgs, at, f);
            &&& at <= s.at <= msgs.len()
            &&& f.batch + deletions(order, dump_seq, ips, f.seq, msgs.skip(at)) == sent_by(s.step)
                + s.f.batch + deletions(order, dump_seq, ips, s.f.seq, msgs.skip(s.at))
        }),
    decreases msgs.len() - at,
{
    let rest = msgs.skip(at);
    if at < msgs.len() {
        assert(rest[0] == msgs[at]);
        assert(rest.drop_first() =~= msgs.skip(at + 1));
        match verdict(order, msgs[at], dump_seq, ips) {
            Verdict::Stop => {
                assert(deletions(order, dump_seq, ips, f.seq, rest) =~= Seq::empty());
                let s = wind_up(f, at);
                assert(f.batch + Seq::empty() =~= sent_by(s.step) + s.f.batch + Seq::empty());
            },
            Verdict::Skip => {
                flush_deletes_the_matching_connections(order, dump_seq, ips, msgs, at + 1, f);
            },
            Verdict::Delete(tuple) => {
                let g = f.with(order, tuple);
                let more = deletions(order, dump_seq, ips, g.seq, msgs.skip(at + 1));
                let one = delete_bytes(order, seq_after(f.seq), tuple);
                assert(f.batch + (one + more) =~= f.batch + one + more);
                if g.batch.len() >= DELETE_BATCH_LIMIT {
                    assert(g.batch + more =~= g.batch + Seq::empty() + more);
                } else {
                    flush_deletes_the_matching_connections(order, dump_seq, ips, msgs, at + 1, g);
                }
            },
        }
    } else {
        assert(f.batch + deletions(order, dump_seq, ips, f.seq, rest) =~= Seq::empty() + f.batch
            + deletions(order, dump_seq, ips, f.seq, rest));
    }
}

} // verus!
