//! What the kernel answers: acknowledgements, route lookups and dumps.
use crate::addr::Ipv4Addr;
use crate::errno::ErrorNumbers;
use crate::netlink::message::{attr_views, attrs, contents, find_last, last_attr, messages,
    parse_attrs, split_messages, Attr, AttrView};
use crate::netlink::route::{RTA_DST, RTA_GATEWAY, RTA_OIF, RTA_PRIORITY, RTA_TABLE, RTM_DELNEXTHOP,
    RTM_DELROUTE, RTM_DELRULE, RTM_NEWROUTE, RTM_NEWRULE, RT_TABLE_MAIN};
use crate::netlink::util::{read_i32, read_u16, read_u32, signed, sub_bytes, u16_at, u32_at,
    ByteOrder, NlMsgHdr};
use vstd::prelude::*;

verus! {

/// Message types that every netlink family shares.
pub const NLMSG_ERROR: u16 = 2;

pub const NLMSG_DONE: u16 = 3;

pub const ENOENT: i32 = 2;

pub const ESRCH: i32 = 3;

pub const EEXIST: i32 = 17;

pub const EINVAL: i32 = 22;

/// How many answers are read before a request counts as unanswered.
pub const ACK_RETRY_LIMIT: usize = 4;

/// Length of the header and the fixed part of a route message.
pub const ROUTE_BODY: usize = 28;

/// Why a request failed.
#[derive(Debug, Clone, Copy, PartialEq, Eq, Structural)]
pub enum NetlinkError {
    /// The request could not be sent, or the kernel refused it, with this error number.
    Os(i32),
    /// No answer could be received; the error number says why.
    Recv(i32),
    /// An answer without a whole header.
    Truncated,
    /// An error answer without a whole error number.
    ErrorTruncated,
    /// None of the answers that were read belongs to the request.
    NoAck,
    /// None of the answers that were read belongs to the lookup.
    NoReply,
    /// More nexthops than a resilient group can have buckets.
    TooManyNexthops(usize),
}

impl NetlinkError {
    /// The error number, where the error is one of the system's.
    pub open spec fn errno(self) -> Option<i32> {
        match self {
            NetlinkError::Os(e) => Some(e),
            _ => None,
        }
    }

    /// The error number, where the error is one of the system's.
    pub fn raw_os_error(&self) -> (r: Option<i32>)
        ensures
            r == self.errno(),
    {
        match *self {
            NetlinkError::Os(e) => Some(e),
            _ => None,
        }
    }
}

/// Whether an error says that what was to be deleted is not there: a route is
/// then `ESRCH`, a rule `ENOENT`, a missing table either `ENOENT` or `EINVAL`.
pub open spec fn absent(e: NetlinkError) -> bool {
    e == NetlinkError::Os(ESRCH) || e == NetlinkError::Os(ENOENT) || e == NetlinkError::Os(EINVAL)
}

/// Whether an error says that what was to be deleted is not there.
pub fn is_absent_object(e: &NetlinkError) -> (r: bool)
    ensures
        r == absent(*e),
{
    match e.raw_os_error() {
        Some(n) => n == ESRCH || n == ENOENT || n == EINVAL,
        None => false,
    }
}

/// Whether an error says that resilient groups will not work at all: the kernel
/// does not know them, or the configuration cannot be put in one.
pub open spec fn gives_up(numbers: ErrorNumbers, e: NetlinkError) -> bool {
    match e {
        NetlinkError::Os(n) => n == EINVAL || n == numbers.eopnotsupp || n == numbers.enosys || n
            == numbers.eafnosupport,
        NetlinkError::Recv(n) => n == EINVAL,
        NetlinkError::TooManyNexthops(_) => true,
        _ => false,
    }
}

/// Whether an error says that resilient groups will not work at all, on a system
/// with these error numbers.
pub fn should_give_up_on_resilient(numbers: ErrorNumbers, e: &NetlinkError) -> (r: bool)
    ensures
        r == gives_up(numbers, *e),
{
    match *e {
        NetlinkError::Os(n) => n == EINVAL || n == numbers.eopnotsupp || n == numbers.enosys || n
            == numbers.eafnosupport,
        NetlinkError::Recv(n) => n == EINVAL,
        NetlinkError::TooManyNexthops(_) => true,
        _ => false,
    }
}

/// Whether a message deletes something: its type says so.
pub open spec fn deletes(order: ByteOrder, msg: Seq<u8>) -> bool {
    msg.len() >= 6 && {
        let t = u16_at(order, msg, 4);
        t == RTM_DELROUTE || t == RTM_DELRULE || t == RTM_DELNEXTHOP
    }
}

/// Whether a message deletes something.
pub fn message_is_delete(order: ByteOrder, buf: &[u8]) -> (r: bool)
    ensures
        r == deletes(order, buf@),
{
    match read_u16(order, buf, 4) {
        Some(t) => t == RTM_DELROUTE || t == RTM_DELRULE || t == RTM_DELNEXTHOP,
        None => false,
    }
}

/// What became of a request: deleting what is not there is a success.
pub open spec fn committed(delete: bool, reply: Result<(), NetlinkError>) -> Result<
    (),
    NetlinkError,
> {
    match reply {
        Err(e) if delete && absent(e) => Ok(()),
        _ => reply,
    }
}

/// What became of a rule request: making a rule that is there is a success too.
pub open spec fn rule_committed(delete: bool, reply: Result<(), NetlinkError>) -> Result<
    (),
    NetlinkError,
> {
    match committed(delete, reply) {
        Err(NetlinkError::Os(n)) if n == EEXIST => Ok(()),
        r => r,
    }
}

/// What became of a request, given whether it deletes something.
pub fn settle(delete: bool, reply: Result<(), NetlinkError>) -> (r: Result<(), NetlinkError>)
    ensures
        r == committed(delete, reply),
{
    match reply {
        Ok(()) => reply,
        Err(e) => {
            if delete && is_absent_object(&e) {
                Ok(())
            } else {
                Err(e)
            }
        },
    }
}

/// What became of a rule request, given whether it deletes something.
pub fn settle_rule(delete: bool, reply: Result<(), NetlinkError>) -> (r: Result<(), NetlinkError>)
    ensures
        r == rule_committed(delete, reply),
{
    let settled = settle(delete, reply);
    match settled {
        Ok(()) => settled,
        Err(e) => {
            if let NetlinkError::Os(n) = e {
                if n == EEXIST {
                    return Ok(());
                }
            }
            Err(e)
        },
    }
}

/// Whether a message makes a rule: its type says so.
pub open spec fn makes_rule(order: ByteOrder, msg: Seq<u8>) -> bool {
    msg.len() >= 6 && u16_at(order, msg, 4) == RTM_NEWRULE
}

/// What became of a request that the kernel has answered. Deleting what is not
/// there and making a rule that is there are successes.
pub fn commit_msg(order: ByteOrder, msg: &[u8], reply: Result<(), NetlinkError>) -> (r: Result<
    (),
    NetlinkError,
>)
    ensures
        r == (if makes_rule(order, msg@) {
            rule_committed(false, reply)
        } else {
            committed(deletes(order, msg@), reply)
        }),
{
    if let Some(t) = read_u16(order, msg, 4) {
        if t == RTM_NEWRULE {
            return settle_rule(false, reply);
        }
    }
    settle(message_is_delete(order, msg), reply)
}

/// What became of a rule request that the kernel has answered.
pub fn commit_rule_msg(order: ByteOrder, msg: &[u8], reply: Result<(), NetlinkError>) -> (r: Result<
    (),
    NetlinkError,
>)
    ensures
        r == rule_committed(deletes(order, msg@), reply),
{
    settle_rule(message_is_delete(order, msg), reply)
}

/// Only host routes of the main table are listed, and only with the wanted
/// metric: each listed one is that of some dumped message, and no message of
/// another table, or with another metric, is listed.
pub proof fn listed_host_routes_are_ours(
    order: ByteOrder,
    msgs: Seq<Seq<u8>>,
    metric: u32,
    i: int,
)
    requires
        0 <= i < host_routes(order, msgs, metric).len(),
    ensures
        host_routes(order, msgs, metric)[i].0 == RT_TABLE_MAIN as u32,
        host_routes(order, msgs, metric)[i].2 == 32,
        exists|k: int|
            0 <= k < msgs.len() && {
                let msg = #[trigger] msgs[k];
                let list = route_attrs_of(order, msg);
                &&& host_route(order, msg, metric) == Some(host_routes(order, msgs, metric)[i])
                &&& table_of(order, msg, list) == RT_TABLE_MAIN as u32
                &&& payload_u32(order, last_attr(list, RTA_PRIORITY, 0, 65535)) == Some(metric)
            },
    decreases msgs.len(),
{
    let before = host_routes(order, msgs.drop_last(), metric);
    if i < before.len() {
        listed_host_routes_are_ours(order, msgs.drop_last(), metric, i);
        let k = choose|k: int|
            0 <= k < msgs.drop_last().len() && host_route(
                order,
                #[trigger] msgs.drop_last()[k],
                metric,
            ) == Some(before[i]);
        assert(msgs[k] == msgs.drop_last()[k]);
    } else {
        assert(msgs[msgs.len() - 1] == msgs.last());
    }
}

/// Repeating a committed deletion, or a committed creation of a rule, is a
/// success as well: the kernel then answers that the object is missing, or there.
pub proof fn commits_are_idempotent(e: i32)
    ensures
        e == ESRCH || e == ENOENT || e == EINVAL ==> committed(true, Err(NetlinkError::Os(e)))
            == Ok::<(), NetlinkError>(()),
        rule_committed(false, Err(NetlinkError::Os(EEXIST))) == Ok::<(), NetlinkError>(()),
{
}

/// The route that a lookup found.
#[derive(Debug, Clone, Copy, PartialEq, Eq)]
pub struct RouteLookup {
    /// The interface that packets leave through.
    pub ifindex: Option<u32>,
    pub gateway: Option<Ipv4Addr>,
    /// The table that the route is in.
    pub table: u32,
}

/// The number at the start of an attribute's payload, if it is long enough.
pub open spec fn payload_u32(order: ByteOrder, data: Option<Seq<u8>>) -> Option<u32> {
    match data {
        Some(d) if d.len() >= 4 => Some(u32_at(order, d, 0)),
        _ => None,
    }
}

/// The address that a four-byte payload stands for.
pub open spec fn payload_v4(data: Option<Seq<u8>>) -> Option<Ipv4Addr> {
    match data {
        Some(d) => Some(Ipv4Addr { a: d[0], b: d[1], c: d[2], d: d[3] }),
        None => None,
    }
}

/// The table of a route message: the last table attribute that holds a number,
/// else the field of the fixed part.
pub open spec fn table_of(order: ByteOrder, msg: Seq<u8>, list: Seq<AttrView>) -> u32 {
    match payload_u32(order, last_attr(list, RTA_TABLE, 4, 65535)) {
        Some(t) => t,
        None => msg[20] as u32,
    }
}

/// The attributes of a route message.
pub open spec fn route_attrs_of(order: ByteOrder, msg: Seq<u8>) -> Seq<AttrView> {
    if msg.len() < 28 {
        Seq::empty()
    } else {
        attrs(order, msg.skip(28))
    }
}

/// What a route message says: interface, gateway and table.
pub open spec fn route_reply(order: ByteOrder, msg: Seq<u8>) -> Option<RouteLookup> {
    if msg.len() < 28 {
        None
    } else {
        let list = route_attrs_of(order, msg);
        Some(
            RouteLookup {
                ifindex: payload_u32(order, last_attr(list, RTA_OIF, 0, 65535)),
                gateway: payload_v4(last_attr(list, RTA_GATEWAY, 4, 4)),
                table: table_of(order, msg, list),
            },
        )
    }
}

fn get_u32(order: ByteOrder, list: &Vec<Attr>, kind: u16, least: usize) -> (r: Option<u32>)
    ensures
        r == payload_u32(order, last_attr(attr_views(list@), kind, least as int, 65535)),
{
    match find_last(list, kind, least, 65535) {
        Some(i) => read_u32(order, list[i].data.as_slice(), 0),
        None => None,
    }
}

proof fn lemma_last_attr_size(list: Seq<AttrView>, kind: u16, least: int, most: int)
    ensures
        last_attr(list, kind, least, most) matches Some(d) ==> least <= d.len() <= most,
    decreases list.len(),
{
    if list.len() > 0 {
        lemma_last_attr_size(list.drop_last(), kind, least, most);
    }
}

fn get_v4(list: &Vec<Attr>, kind: u16) -> (r: Option<Ipv4Addr>)
    ensures
        r == payload_v4(last_attr(attr_views(list@), kind, 4, 4)),
{
    proof {
        lemma_last_attr_size(attr_views(list@), kind, 4, 4);
    }
    match find_last(list, kind, 4, 4) {
        Some(i) => {
            let d = &list[i].data;
            Some(Ipv4Addr { a: d[0], b: d[1], c: d[2], d: d[3] })
        },
        None => None,
    }
}

/// The attributes of the route message in the first `len` bytes of `buf`.
fn parse_route_attrs(order: ByteOrder, buf: &[u8], len: usize) -> (r: Vec<Attr>)
    requires
        len <= buf@.len(),
    ensures
        attr_views(r@) == route_attrs_of(order, buf@.take(len as int)),
{
    if len < ROUTE_BODY {
        let r: Vec<Attr> = Vec::new();
        assert(attr_views(r@) =~= Seq::empty());
        return r;
    }
    assert(buf@.subrange(28, len as int) =~= buf@.take(len as int).skip(28));
    parse_attrs(order, buf, ROUTE_BODY, len)
}

/// Reads the route message in the first `len` bytes of `buf`.
pub fn parse_route_reply(order: ByteOrder, buf: &[u8], len: usize) -> (r: Option<RouteLookup>)
    requires
        len <= buf@.len(),
    ensures
        r == route_reply(order, buf@.take(len as int)),
{
    if len < ROUTE_BODY {
        return None;
    }
    let list = parse_route_attrs(order, buf, len);
    let table: u32 = match get_u32(order, &list, RTA_TABLE, 4) {
        Some(t) => t,
        None => buf[20] as u32,
    };
    Some(
        RouteLookup {
            ifindex: get_u32(order, &list, RTA_OIF, 0),
            gateway: get_v4(&list, RTA_GATEWAY),
            table,
        },
    )
}

/// What an answer to a route lookup means.
#[derive(Debug, Clone, Copy)]
pub enum LookupStep {
    /// The answer is not whole or belongs to another request: read the next one.
    Skip,
    /// The lookup is over; `None` says that there is no route.
    Found(Option<RouteLookup>),
}

/// What an answer to the lookup `seq` means. An error, or any message that is no
/// route, says that there is no route.
pub open spec fn lookup_step(order: ByteOrder, buf: Seq<u8>, seq: u32) -> LookupStep {
    if buf.len() < 16 || NlMsgHdr::at(order, buf).nlmsg_seq != seq {
        LookupStep::Skip
    } else if NlMsgHdr::at(order, buf).nlmsg_type == RTM_NEWROUTE {
        LookupStep::Found(route_reply(order, buf))
    } else {
        LookupStep::Found(None)
    }
}

/// Reads an answer to the lookup `seq`.
pub fn lookup_reply(order: ByteOrder, buf: &[u8], seq: u32) -> (r: LookupStep)
    ensures
        r == lookup_step(order, buf@, seq),
{
    let hdr = match NlMsgHdr::from_bytes(order, buf) {
        Some(h) => h,
        None => return LookupStep::Skip,
    };
    if hdr.nlmsg_seq != seq {
        return LookupStep::Skip;
    }
    if hdr.nlmsg_type == RTM_NEWROUTE {
        assert(buf@.take(buf@.len() as int) =~= buf@);
        return LookupStep::Found(parse_route_reply(order, buf, buf.len()));
    }
    LookupStep::Found(None)
}

/// What an answer to a change request means.
#[derive(Debug, Clone, Copy, PartialEq, Eq)]
pub enum AckStep {
    /// The answer belongs to an earlier request: read the next one.
    Stale,
    /// The request is over.
    Over(Result<(), NetlinkError>),
}

/// The error number of the kernel's negated one; the least number has no
/// negation and stays as it is.
pub open spec fn negated(err: i32) -> i32 {
    if err == i32::MIN {
        err
    } else {
        (-err) as i32
    }
}

/// What an answer to the request `seq` means: only an error message with a
/// number other than zero is a refusal.
pub open spec fn ack_step(order: ByteOrder, buf: Seq<u8>, seq: u32) -> AckStep {
    let hdr = NlMsgHdr::at(order, buf);
    if buf.len() < 16 {
        AckStep::Over(Err(NetlinkError::Truncated))
    } else if hdr.nlmsg_seq != seq {
        AckStep::Stale
    } else if hdr.nlmsg_type != NLMSG_ERROR {
        AckStep::Over(Ok(()))
    } else if buf.len() < 20 {
        AckStep::Over(Err(NetlinkError::ErrorTruncated))
    } else if u32_at(order, buf, 16) == 0 {
        AckStep::Over(Ok(()))
    } else {
        AckStep::Over(Err(NetlinkError::Os(negated(signed(u32_at(order, buf, 16))))))
    }
}

/// Reads an answer to the request `seq`.
pub fn ack_reply(order: ByteOrder, buf: &[u8], seq: u32) -> (r: AckStep)
    ensures
        r == ack_step(order, buf@, seq),
{
    let hdr = match NlMsgHdr::from_bytes(order, buf) {
        Some(h) => h,
        None => return AckStep::Over(Err(NetlinkError::Truncated)),
    };
    if hdr.nlmsg_seq != seq {
        return AckStep::Stale;
    }
    if hdr.nlmsg_type != NLMSG_ERROR {
        return AckStep::Over(Ok(()));
    }
    match read_i32(order, buf, NlMsgHdr::LEN) {
        None => AckStep::Over(Err(NetlinkError::ErrorTruncated)),
        Some(err) => {
            if err == 0 {
                AckStep::Over(Ok(()))
            } else if err == i32::MIN {
                AckStep::Over(Err(NetlinkError::Os(err)))
            } else {
                AckStep::Over(Err(NetlinkError::Os(-err)))
            }
        },
    }
}

/// What came of trying to receive one answer.
pub enum Received {
    Bytes(Vec<u8>),
    /// A signal arrived first.
    Interrupted,
    /// Receiving failed with this error number.
    Failed(i32),
}

/// Waiting for the answer to one request.
#[derive(Debug, Clone, Copy, PartialEq, Eq, Structural)]
pub struct AckWait {
    pub seq: u32,
    /// How many more answers will be read.
    pub left: usize,
}

impl AckWait {
    /// Starts waiting for the answer to the request `seq`.
    pub fn new(seq: u32) -> (r: AckWait)
        ensures
            r == (AckWait { seq, left: ACK_RETRY_LIMIT }),
    {
        AckWait { seq, left: ACK_RETRY_LIMIT }
    }

    /// What one receipt means for the request: the outcome, or `None` to go on.
    pub open spec fn outcome(order: ByteOrder, seq: u32, left: usize, ev: Received) -> Option<
        Result<(), NetlinkError>,
    > {
        let step = match ev {
            Received::Bytes(b) => ack_step(order, b@, seq),
            Received::Interrupted => AckStep::Stale,
            Received::Failed(e) => AckStep::Over(Err(NetlinkError::Recv(e))),
        };
        match step {
            AckStep::Over(r) => Some(r),
            AckStep::Stale => if left <= 1 {
                Some(Err(NetlinkError::NoAck))
            } else {
                None
            },
        }
    }

    /// Takes one receipt; gives the outcome of the request, or `None` to read on.
    pub fn receive(&mut self, order: ByteOrder, ev: &Received) -> (r: Option<
        Result<(), NetlinkError>,
    >)
        requires
            old(self).left > 0,
        ensures
            r == AckWait::outcome(order, old(self).seq, old(self).left, *ev),
            *final(self) == (AckWait { seq: old(self).seq, left: (old(self).left - 1) as usize }),
    {
        self.left = self.left - 1;
        let step = match ev {
            Received::Bytes(b) => ack_reply(order, b.as_slice(), self.seq),
            Received::Interrupted => AckStep::Stale,
            Received::Failed(e) => AckStep::Over(Err(NetlinkError::Recv(*e))),
        };
        match step {
            AckStep::Over(r) => Some(r),
            AckStep::Stale => {
                if self.left == 0 {
                    Some(Err(NetlinkError::NoAck))
                } else {
                    None
                }
            },
        }
    }
}

/// Waiting for the answer to one route lookup.
#[derive(Debug, Clone, Copy, PartialEq, Eq, Structural)]
pub struct LookupWait {
    pub seq: u32,
    /// How many more answers will be read.
    pub left: usize,
}

impl LookupWait {
    /// Starts waiting for the answer to the lookup `seq`.
    pub fn new(seq: u32) -> (r: LookupWait)
        ensures
            r == (LookupWait { seq, left: ACK_RETRY_LIMIT }),
    {
        LookupWait { seq, left: ACK_RETRY_LIMIT }
    }

    /// What one receipt means for the lookup: its result, or `None` to go on.
    pub open spec fn outcome(order: ByteOrder, seq: u32, left: usize, ev: Received) -> Option<
        Result<Option<RouteLookup>, NetlinkError>,
    > {
        let step = match ev {
            Received::Bytes(b) => lookup_step(order, b@, seq),
            _ => LookupStep::Skip,
        };
        match (ev, step) {
            (Received::Failed(e), _) => Some(Err(NetlinkError::Os(e))),
            (_, LookupStep::Found(route)) => Some(Ok(route)),
            (_, LookupStep::Skip) => if left <= 1 {
                Some(Err(NetlinkError::NoReply))
            } else {
                None
            },
        }
    }

    /// Takes one receipt; gives the result of the lookup, or `None` to read on.
    pub fn receive(&mut self, order: ByteOrder, ev: &Received) -> (r: Option<
        Result<Option<RouteLookup>, NetlinkError>,
    >)
        requires
            old(self).left > 0,
        ensures
            r == LookupWait::outcome(order, old(self).seq, old(self).left, *ev),
            *final(self) == (LookupWait {
                seq: old(self).seq,
                left: (old(self).left - 1) as usize,
            }),
    {
        self.left = self.left - 1;
        let step = match ev {
            Received::Bytes(b) => lookup_reply(order, b.as_slice(), self.seq),
            Received::Interrupted => LookupStep::Skip,
            Received::Failed(e) => return Some(Err(NetlinkError::Os(*e))),
        };
        match step {
            LookupStep::Found(route) => Some(Ok(route)),
            LookupStep::Skip => {
                if self.left == 0 {
                    Some(Err(NetlinkError::NoReply))
                } else {
                    None
                }
            },
        }
    }
}

/// How far a dump has come.
#[derive(Debug, Clone, Copy, PartialEq, Eq, Structural)]
pub enum DumpProgress {
    /// More buffers follow.
    More,
    /// The end of the dump was seen.
    Done,
    /// A route message is too short to hold its fixed part.
    Malformed,
    /// Receiving failed with this error number.
    Failed(i32),
}

/// Whether a message is a route of the dump `seq`.
pub open spec fn is_dumped_route(order: ByteOrder, msg: Seq<u8>, seq: u32) -> bool {
    NlMsgHdr::at(order, msg).nlmsg_type == RTM_NEWROUTE && NlMsgHdr::at(order, msg).nlmsg_seq
        == seq
}

/// How far a list of messages brings a dump: up to its end, or up to the first
/// route that is too short.
pub open spec fn dump_progress(order: ByteOrder, msgs: Seq<Seq<u8>>, seq: u32) -> DumpProgress
    decreases msgs.len(),
{
    if msgs.len() == 0 {
        DumpProgress::More
    } else if NlMsgHdr::at(order, msgs[0]).nlmsg_type == NLMSG_DONE {
        DumpProgress::Done
    } else if is_dumped_route(order, msgs[0], seq) && msgs[0].len() <= 20 {
        DumpProgress::Malformed
    } else {
        dump_progress(order, msgs.drop_first(), seq)
    }
}

/// The routes of the dump `seq` in a list of messages, up to its end, or up to
/// the first route that is too short.
pub open spec fn dumped_routes(order: ByteOrder, msgs: Seq<Seq<u8>>, seq: u32) -> Seq<Seq<u8>>
    decreases msgs.len(),
{
    if msgs.len() == 0 {
        Seq::empty()
    } else if NlMsgHdr::at(order, msgs[0]).nlmsg_type == NLMSG_DONE {
        Seq::empty()
    } else if is_dumped_route(order, msgs[0], seq) {
        if msgs[0].len() <= 20 {
            Seq::empty()
        } else {
            seq![msgs[0]] + dumped_routes(order, msgs.drop_first(), seq)
        }
    } else {
        dumped_routes(order, msgs.drop_first(), seq)
    }
}

/// How far one receipt brings the dump `seq`.
pub open spec fn receipt_progress(order: ByteOrder, ev: Received, seq: u32) -> DumpProgress {
    match ev {
        Received::Bytes(b) => dump_progress(order, messages(order, b@), seq),
        Received::Interrupted => DumpProgress::More,
        Received::Failed(e) => DumpProgress::Failed(e),
    }
}

/// The routes of the dump `seq` in one receipt.
pub open spec fn receipt_routes(order: ByteOrder, ev: Received, seq: u32) -> Seq<Seq<u8>> {
    match ev {
        Received::Bytes(b) => dumped_routes(order, messages(order, b@), seq),
        _ => Seq::empty(),
    }
}

/// Picks the routes of the dump `seq` out of a received buffer.
fn split_dump(order: ByteOrder, buf: &[u8], seq: u32) -> (r: (Vec<Vec<u8>>, DumpProgress))
    ensures
        contents(r.0@) == dumped_routes(order, messages(order, buf@), seq),
        r.1 == dump_progress(order, messages(order, buf@), seq),
        forall|i: int| 0 <= i < r.0@.len() ==> (#[trigger] r.0@[i])@.len() > 20,
{
    let msgs = split_messages(order, buf);
    let ghost all = messages(order, buf@);
    let mut out: Vec<Vec<u8>> = Vec::new();
    let mut i: usize = 0;
    assert(all.skip(0) =~= all);
    assert(contents(out@) + dumped_routes(order, all.skip(0), seq) =~= dumped_routes(
        order,
        all,
        seq,
    ));
    while i < msgs.len()
        invariant
            i <= msgs@.len(),
            all == messages(order, buf@),
            contents(msgs@) == all,
            forall|j: int| 0 <= j < msgs@.len() ==> (#[trigger] msgs@[j])@.len() >= 16,
            forall|j: int| 0 <= j < out@.len() ==> (#[trigger] out@[j])@.len() > 20,
            contents(out@) + dumped_routes(order, all.skip(i as int), seq) == dumped_routes(
                order,
                all,
                seq,
            ),
            dump_progress(order, all.skip(i as int), seq) == dump_progress(order, all, seq),
        decreases msgs@.len() - i,
    {
        let msg = &msgs[i];
        let ghost tail = all.skip(i as int);
        assert(tail[0] == contents(msgs@)[i as int]);
        assert(tail[0] == msg@);
        assert(tail.drop_first() =~= all.skip(i + 1));
        let (kind, mseq) = match NlMsgHdr::from_bytes(order, msg.as_slice()) {
            Some(h) => (h.nlmsg_type, h.nlmsg_seq),
            None => (0u16, 0u32),
        };
        if kind == NLMSG_DONE {
            assert(contents(out@) =~= dumped_routes(order, all, seq));
            return (out, DumpProgress::Done);
        }
        if kind == RTM_NEWROUTE && mseq == seq {
            if msg.len() <= 20 {
                assert(contents(out@) =~= dumped_routes(order, all, seq));
                return (out, DumpProgress::Malformed);
            }
            let ghost before = contents(out@);
            let copy = sub_bytes(msg.as_slice(), 0, msg.len());
            assert(copy@ =~= msg@);
            out.push(copy);
            proof {
                assert(contents(out@) =~= before + seq![msg@]);
                let rest = dumped_routes(order, all.skip(i + 1), seq);
                assert(before + (seq![msg@] + rest) =~= before + seq![msg@] + rest);
            }
        }
        i += 1;
    }
    assert(all.skip(i as int) =~= Seq::empty());
    assert(contents(out@) =~= dumped_routes(order, all, seq));
    (out, DumpProgress::More)
}

/// The host route of the main table with metric `metric` that a dumped message
/// describes, if it does: its table, destination and prefix length, which is 32.
pub open spec fn host_route(order: ByteOrder, msg: Seq<u8>, metric: u32) -> Option<
    (u32, Ipv4Addr, u8),
> {
    let list = route_attrs_of(order, msg);
    let dst = payload_v4(last_attr(list, RTA_DST, 4, 4));
    if payload_u32(order, last_attr(list, RTA_PRIORITY, 0, 65535)) == Some(metric) && msg[17] == 32
        && dst is Some && table_of(order, msg, list) == RT_TABLE_MAIN as u32 {
        Some((RT_TABLE_MAIN as u32, dst->0, 32))
    } else {
        None
    }
}

/// The default route of the main table that a dumped message describes, if it
/// does: the table and the metric. A route without a metric has metric 0.
pub open spec fn default_route(order: ByteOrder, msg: Seq<u8>) -> Option<(u32, u32)> {
    let list = route_attrs_of(order, msg);
    if msg[17] == 0 && table_of(order, msg, list) == RT_TABLE_MAIN as u32 {
        Some(
            (
                RT_TABLE_MAIN as u32,
                match payload_u32(order, last_attr(list, RTA_PRIORITY, 0, 65535)) {
                    Some(p) => p,
                    None => 0,
                },
            ),
        )
    } else {
        None
    }
}

/// The host routes of the main table among dumped messages, in their order.
pub open spec fn host_routes(order: ByteOrder, msgs: Seq<Seq<u8>>, metric: u32) -> Seq<
    (u32, Ipv4Addr, u8),
>
    decreases msgs.len(),
{
    if msgs.len() == 0 {
        Seq::empty()
    } else {
        host_routes(order, msgs.drop_last(), metric) + (match host_route(
            order,
            msgs.last(),
            metric,
        ) {
            Some(h) => seq![h],
            None => Seq::empty(),
        })
    }
}

/// The default routes of the main table among dumped messages, in their order.
pub open spec fn default_routes(order: ByteOrder, msgs: Seq<Seq<u8>>) -> Seq<(u32, u32)>
    decreases msgs.len(),
{
    if msgs.len() == 0 {
        Seq::empty()
    } else {
        default_routes(order, msgs.drop_last()) + (match default_route(order, msgs.last()) {
            Some(h) => seq![h],
            None => Seq::empty(),
        })
    }
}

fn read_host_route(order: ByteOrder, msg: &[u8], metric: u32) -> (r: Option<(u32, Ipv4Addr, u8)>)
    requires
        msg@.len() > 20,
    ensures
        r == host_route(order, msg@, metric),
{
    assert(msg@.take(msg@.len() as int) =~= msg@);
    let list = parse_route_attrs(order, msg, msg.len());
    let priority = get_u32(order, &list, RTA_PRIORITY, 0);
    let dst = get_v4(&list, RTA_DST);
    let table: u32 = match get_u32(order, &list, RTA_TABLE, 4) {
        Some(t) => t,
        None => msg[20] as u32,
    };
    match (priority, dst) {
        (Some(p), Some(d)) => {
            if p == metric && msg[17] == 32 && table == RT_TABLE_MAIN as u32 {
                Some((table, d, 32))
            } else {
                None
            }
        },
        _ => None,
    }
}

fn read_default_route(order: ByteOrder, msg: &[u8]) -> (r: Option<(u32, u32)>)
    requires
        msg@.len() > 20,
    ensures
        r == default_route(order, msg@),
{
    assert(msg@.take(msg@.len() as int) =~= msg@);
    let list = parse_route_attrs(order, msg, msg.len());
    let priority: u32 = match get_u32(order, &list, RTA_PRIORITY, 0) {
        Some(p) => p,
        None => 0,
    };
    let table: u32 = match get_u32(order, &list, RTA_TABLE, 4) {
        Some(t) => t,
        None => msg[20] as u32,
    };
    if msg[17] == 0 && table == RT_TABLE_MAIN as u32 {
        Some((table, priority))
    } else {
        None
    }
}

/// Adds the host routes of the main table with metric `metric` in one receipt of
/// the dump `seq` to `out`.
pub fn scan_host_routes(
    order: ByteOrder,
    ev: &Received,
    seq: u32,
    metric: u32,
    out: &mut Vec<(u32, Ipv4Addr, u8)>,
) -> (r: DumpProgress)
    ensures
        final(out)@ == old(out)@ + host_routes(order, receipt_routes(order, *ev, seq), metric),
        r == receipt_progress(order, *ev, seq),
{
    let (routes, progress) = match ev {
        Received::Bytes(buf) => split_dump(order, buf.as_slice(), seq),
        Received::Interrupted => (Vec::new(), DumpProgress::More),
        Received::Failed(e) => (Vec::new(), DumpProgress::Failed(*e)),
    };
    assert(contents(routes@) =~= receipt_routes(order, *ev, seq));
    let ghost all = contents(routes@);
    let mut i: usize = 0;
    while i < routes.len()
        invariant
            i <= routes@.len(),
            all == contents(routes@),
            forall|j: int| 0 <= j < routes@.len() ==> (#[trigger] routes@[j])@.len() > 20,
            out@ == old(out)@ + host_routes(order, all.take(i as int), metric),
        decreases routes@.len() - i,
    {
        let ghost before = out@;
        let msg = &routes[i];
        if let Some(h) = read_host_route(order, msg.as_slice(), metric) {
            out.push(h);
        }
        i += 1;
        proof {
            assert(all.take(i as int).drop_last() =~= all.take(i - 1));
            assert(all.take(i as int).last() == msg@);
            assert(out@ =~= old(out)@ + host_routes(order, all.take(i as int), metric));
        }
    }
    assert(all.take(i as int) =~= all);
    progress
}

/// Adds the default routes of the main table in one receipt of the dump `seq` to
/// `out`.
pub fn scan_default_routes(
    order: ByteOrder,
    ev: &Received,
    seq: u32,
    out: &mut Vec<(u32, u32)>,
) -> (r: DumpProgress)
    ensures
        final(out)@ == old(out)@ + default_routes(order, receipt_routes(order, *ev, seq)),
        r == receipt_progress(order, *ev, seq),
{
    let (routes, progress) = match ev {
        Received::Bytes(buf) => split_dump(order, buf.as_slice(), seq),
        Received::Interrupted => (Vec::new(), DumpProgress::More),
        Received::Failed(e) => (Vec::new(), DumpProgress::Failed(*e)),
    };
    assert(contents(routes@) =~= receipt_routes(order, *ev, seq));
    let ghost all = contents(routes@);
    let mut i: usize = 0;
    while i < routes.len()
        invariant
            i <= routes@.len(),
            all == contents(routes@),
            forall|j: int| 0 <= j < routes@.len() ==> (#[trigger] routes@[j])@.len() > 20,
            out@ == old(out)@ + default_routes(order, all.take(i as int)),
        decreases routes@.len() - i,
    {
        let msg = &routes[i];
        if let Some(h) = read_default_route(order, msg.as_slice()) {
            out.push(h);
        }
        i += 1;
        proof {
            assert(all.take(i as int).drop_last() =~= all.take(i - 1));
            assert(all.take(i as int).last() == msg@);
            assert(out@ =~= old(out)@ + default_routes(order, all.take(i as int)));
        }
    }
    assert(all.take(i as int) =~= all);
    progress
}

/// Picks the routes whose metric is not `skip_metric`.
pub open spec fn is_other(skip_metric: u32) -> spec_fn((u32, u32)) -> bool {
    |r: (u32, u32)| r.1 != skip_metric
}

/// The default routes whose metric is not ours.
pub open spec fn other_routes(routes: Seq<(u32, u32)>, skip_metric: u32) -> Seq<(u32, u32)> {
    routes.filter(is_other(skip_metric))
}

/// The default routes whose metric is not `skip_metric`, in their order.
pub fn other_default_routes(routes: &Vec<(u32, u32)>, skip_metric: u32) -> (r: Vec<(u32, u32)>)
    ensures
        r@ == other_routes(routes@, skip_metric),
{
    let mut out: Vec<(u32, u32)> = Vec::new();
    let mut i: usize = 0;
    while i < routes.len()
        invariant
            i <= routes@.len(),
            out@ == routes@.take(i as int).filter(is_other(skip_metric)),
        decreases routes@.len() - i,
    {
        let route = routes[i];
        if route.1 != skip_metric {
            out.push(route);
        }
        i += 1;
        proof {
            assert(routes@.take(i as int).drop_last() =~= routes@.take(i - 1));
            reveal(Seq::filter);
        }
    }
    assert(routes@.take(i as int) =~= routes@);
    out
}

} // verus!
