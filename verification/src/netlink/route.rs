//! Routes, nexthop objects and policy rules: the messages that change them and
//! the replies that describe them.
use crate::addr::Ipv4Addr;
use crate::netlink::message::{append_attr, attr_bytes, attr_bytes_aligned, finish_attrs, holds,
    message, push_attr, start_body, stream_bytes, AttrView};
use crate::netlink::util::{append_bytes, copy_bytes, to_unsigned, u16_bytes, u16_to_bytes,
    u32_bytes, u32_to_bytes, unsigned, signed, to_signed, ByteOrder};
use vstd::prelude::*;
use vstd::string::*;

verus! {

pub const RTM_NEWROUTE: u16 = 24;

pub const RTM_DELROUTE: u16 = 25;

pub const RTM_GETROUTE: u16 = 26;

// Nexthop objects need Linux 5.3, resilient groups 5.14.
pub const RTM_NEWNEXTHOP: u16 = 104;

pub const RTM_DELNEXTHOP: u16 = 105;

pub const NLM_F_REQUEST: u16 = 0x01;

pub const NLM_F_ACK: u16 = 0x04;

pub const NLM_F_CREATE: u16 = 0x400;

pub const NLM_F_EXCL: u16 = 0x200;

pub const NLM_F_REPLACE: u16 = 0x100;

/// `NLM_F_ROOT | NLM_F_MATCH`: asks for a whole table.
pub const NLM_F_DUMP: u16 = 0x300;

/// `NLM_F_REQUEST | NLM_F_ACK`: the flags of a deletion.
pub const FLAGS_DELETE: u16 = 0x05;

/// `NLM_F_REQUEST | NLM_F_ACK | NLM_F_CREATE | NLM_F_REPLACE`: create, or replace
/// what is there.
pub const FLAGS_REPLACE: u16 = 0x505;

/// `NLM_F_REQUEST | NLM_F_ACK | NLM_F_CREATE | NLM_F_EXCL`: create, and fail if it
/// is there.
pub const FLAGS_EXCLUSIVE: u16 = 0x605;

/// `NLM_F_REQUEST | NLM_F_DUMP`.
pub const FLAGS_DUMP: u16 = 0x301;

pub const RT_TABLE_MAIN: u8 = 254;

pub const RTPROT_STATIC: u8 = 4;

pub const RT_SCOPE_UNIVERSE: u8 = 0;

pub const RT_SCOPE_LINK: u8 = 253;

pub const RTN_UNICAST: u8 = 1;

pub const AF_UNSPEC: u8 = 0;

pub const AF_INET: u8 = 2;

pub const AF_INET6: u8 = 10;

pub const RTA_OIF: u16 = 4;

pub const RTA_GATEWAY: u16 = 5;

pub const RTA_PRIORITY: u16 = 6;

pub const RTA_MULTIPATH: u16 = 9;

/// Destination prefix.
pub const RTA_DST: u16 = 1;

/// The table of a route; the only place where a table above 255 fits.
pub const RTA_TABLE: u16 = 15;

/// A route that points at a nexthop object has this attribute in place of
/// `RTA_OIF`, `RTA_GATEWAY` and `RTA_MULTIPATH`.
pub const RTA_NH_ID: u16 = 30;

pub const NHA_ID: u16 = 1;

pub const NHA_GROUP: u16 = 2;

pub const NHA_GROUP_TYPE: u16 = 3;

pub const NHA_OIF: u16 = 5;

pub const NHA_GATEWAY: u16 = 6;

pub const NHA_RES_GROUP: u16 = 12;

/// The number of buckets, a `u16` nested in `NHA_RES_GROUP`. It belongs to an
/// enumeration of its own: the top-level attribute 13 is another thing.
pub const NHA_RES_GROUP_BUCKETS: u16 = 1;

/// Marks a nested attribute; without it the kernel does not look inside.
pub const NLA_F_NESTED: u16 = 0x8000;

/// `NHA_RES_GROUP | NLA_F_NESTED`.
pub const NHA_RES_GROUP_NESTED: u16 = 0x800c;

/// The resilient kind of group: only the buckets of a failed member move.
pub const NEXTHOP_GRP_TYPE_RES: u16 = 1;

/// Group identifiers, far above those that members get.
pub const NH_GROUP_ID_V4: u32 = 0xFFFF_FF00;

pub const NH_GROUP_ID_V6: u32 = 0xFFFF_FF01;

/// Bounds on the number of buckets of a resilient group.
pub const RES_BUCKETS_MIN: usize = 8;

pub const RES_BUCKETS_MAX: usize = 256;

/// `rtnh_hops` is one byte that holds the weight less one.
pub const MAX_NEXTHOP_WEIGHT: u32 = 256;

pub const RTM_NEWRULE: u16 = 32;

pub const RTM_DELRULE: u16 = 33;

pub const FRA_PRIORITY: u16 = 6;

pub const FRA_IIFNAME: u16 = 3;

pub const FRA_OIFNAME: u16 = 17;

pub const FRA_TABLE: u16 = 15;

/// The origin of a rule; rules of other programs are told apart by it.
pub const FRA_PROTOCOL: u16 = 21;

/// The origin that the rules made here carry.
pub const PROBE_RULE_PROTOCOL: u8 = 0x4D;

/// Rule action: look the destination up in the rule's table.
pub const FR_ACT_TO_TBL: u8 = 1;

/// Line `i` has the probe table `PROBE_TABLE_BASE + i`.
pub const PROBE_TABLE_BASE: u32 = 10_000;

/// Line `i` has a rule of priority `PROBE_RULE_PRIORITY_BASE + i`.
pub const PROBE_RULE_PRIORITY_BASE: u32 = 10_000;

/// The number of lines that can be told apart that way.
pub const PROBE_SLOT_MAX: u32 = 64;

/// The metric of the host routes of probe targets in the main table.
pub const PROBE_MAIN_ROUTE_METRIC: u32 = 42_760;

/// The metric of the host routes of tunnel peers in the main table.
pub const UNDERLAY_ROUTE_METRIC: u32 = 42_761;

/// The priority of the rule that looks up the main table.
pub const MAIN_RULE_PRIORITY: u32 = 32_766;

/// What keeps the reserved ranges apart: rules come before the main table's,
/// tables need `RTA_TABLE`, and neither metric can be taken for a table, a rule
/// priority, a group identifier or the other metric.
pub proof fn reserved_ranges_are_apart()
    ensures
        PROBE_TABLE_BASE > 255,
        PROBE_RULE_PRIORITY_BASE > 0,
        PROBE_RULE_PRIORITY_BASE + PROBE_SLOT_MAX < MAIN_RULE_PRIORITY,
        PROBE_MAIN_ROUTE_METRIC != 0,
        PROBE_MAIN_ROUTE_METRIC > PROBE_RULE_PRIORITY_BASE + PROBE_SLOT_MAX,
        PROBE_MAIN_ROUTE_METRIC < NH_GROUP_ID_V4,
        UNDERLAY_ROUTE_METRIC != PROBE_MAIN_ROUTE_METRIC,
        UNDERLAY_ROUTE_METRIC > PROBE_RULE_PRIORITY_BASE + PROBE_SLOT_MAX,
        UNDERLAY_ROUTE_METRIC < NH_GROUP_ID_V4,
{
}

/// The named combinations of flags are made of the single ones.
pub proof fn flags_are_unions()
    ensures
        FLAGS_DELETE == NLM_F_REQUEST | NLM_F_ACK,
        FLAGS_REPLACE == NLM_F_REQUEST | NLM_F_ACK | NLM_F_CREATE | NLM_F_REPLACE,
        FLAGS_EXCLUSIVE == NLM_F_REQUEST | NLM_F_ACK | NLM_F_CREATE | NLM_F_EXCL,
        FLAGS_DUMP == NLM_F_REQUEST | NLM_F_DUMP,
        NHA_RES_GROUP_NESTED == NHA_RES_GROUP | NLA_F_NESTED,
{
    assert(0x05u16 == 0x01u16 | 0x04u16) by (bit_vector);
    assert(0x505u16 == 0x01u16 | 0x04u16 | 0x400u16 | 0x100u16) by (bit_vector);
    assert(0x605u16 == 0x01u16 | 0x04u16 | 0x400u16 | 0x200u16) by (bit_vector);
    assert(0x301u16 == 0x01u16 | 0x300u16) by (bit_vector);
    assert(0x800cu16 == 12u16 | 0x8000u16) by (bit_vector);
}

/// `struct rtmsg`.
#[derive(Debug, Clone, Copy)]
pub struct RtMsg {
    pub rtm_family: u8,
    pub rtm_dst_len: u8,
    pub rtm_src_len: u8,
    pub rtm_tos: u8,
    pub rtm_table: u8,
    pub rtm_protocol: u8,
    pub rtm_scope: u8,
    pub rtm_type: u8,
    pub rtm_flags: u32,
}

impl RtMsg {
    pub const LEN: usize = 12;

    pub open spec fn bytes(self, order: ByteOrder) -> Seq<u8> {
        seq![
            self.rtm_family,
            self.rtm_dst_len,
            self.rtm_src_len,
            self.rtm_tos,
            self.rtm_table,
            self.rtm_protocol,
            self.rtm_scope,
            self.rtm_type,
        ] + u32_bytes(order, self.rtm_flags)
    }

    pub fn to_bytes(self, order: ByteOrder) -> (r: [u8; 12])
        ensures
            r@ == self.bytes(order),
    {
        let f = u32_to_bytes(order, self.rtm_flags);
        let r = [
            self.rtm_family,
            self.rtm_dst_len,
            self.rtm_src_len,
            self.rtm_tos,
            self.rtm_table,
            self.rtm_protocol,
            self.rtm_scope,
            self.rtm_type,
            f[0],
            f[1],
            f[2],
            f[3],
        ];
        assert(r@ =~= self.bytes(order));
        r
    }
}

/// `struct rtattr`: the header of an attribute.
#[derive(Debug, Clone, Copy)]
pub struct RtAttr {
    pub rta_len: u16,
    pub rta_type: u16,
}

impl RtAttr {
    pub const LEN: usize = 4;

    pub open spec fn bytes(self, order: ByteOrder) -> Seq<u8> {
        u16_bytes(order, self.rta_len) + u16_bytes(order, self.rta_type)
    }

    pub fn to_bytes(self, order: ByteOrder) -> (r: [u8; 4])
        ensures
            r@ == self.bytes(order),
    {
        let l = u16_to_bytes(order, self.rta_len);
        let t = u16_to_bytes(order, self.rta_type);
        let r = [l[0], l[1], t[0], t[1]];
        assert(r@ =~= self.bytes(order));
        r
    }
}

/// `struct rtnexthop`; `rtnh_hops` is the weight less one.
#[derive(Debug, Clone, Copy)]
pub struct RtNextHop {
    pub rtnh_len: u16,
    pub rtnh_flags: u8,
    pub rtnh_hops: u8,
    pub rtnh_ifindex: i32,
}

impl RtNextHop {
    pub const LEN: usize = 8;

    pub open spec fn bytes(self, order: ByteOrder) -> Seq<u8> {
        u16_bytes(order, self.rtnh_len) + seq![self.rtnh_flags, self.rtnh_hops] + u32_bytes(
            order,
            unsigned(self.rtnh_ifindex),
        )
    }

    pub fn to_bytes(self, order: ByteOrder) -> (r: [u8; 8])
        ensures
            r@ == self.bytes(order),
    {
        let l = u16_to_bytes(order, self.rtnh_len);
        let i = u32_to_bytes(order, to_unsigned(self.rtnh_ifindex));
        let r = [l[0], l[1], self.rtnh_flags, self.rtnh_hops, i[0], i[1], i[2], i[3]];
        assert(r@ =~= self.bytes(order));
        r
    }
}

/// `struct nhmsg`: the fixed part of nexthop messages.
#[derive(Debug, Clone, Copy)]
pub struct NhMsg {
    pub nh_family: u8,
    pub nh_scope: u8,
    pub nh_protocol: u8,
    pub nh_resvd: u8,
    pub nh_flags: u32,
}

impl NhMsg {
    pub const LEN: usize = 8;

    pub open spec fn bytes(self, order: ByteOrder) -> Seq<u8> {
        seq![self.nh_family, self.nh_scope, self.nh_protocol, self.nh_resvd] + u32_bytes(
            order,
            self.nh_flags,
        )
    }

    pub fn to_bytes(self, order: ByteOrder) -> (r: [u8; 8])
        ensures
            r@ == self.bytes(order),
    {
        let f = u32_to_bytes(order, self.nh_flags);
        let r = [
            self.nh_family,
            self.nh_scope,
            self.nh_protocol,
            self.nh_resvd,
            f[0],
            f[1],
            f[2],
            f[3],
        ];
        assert(r@ =~= self.bytes(order));
        r
    }
}

/// `struct fib_rule_hdr`: the fixed part of rule messages. The two bytes before
/// `action` are reserved and zero.
#[derive(Debug, Clone, Copy)]
pub struct FibRuleHdr {
    pub family: u8,
    pub dst_len: u8,
    pub src_len: u8,
    pub tos: u8,
    pub table: u8,
    pub action: u8,
    pub flags: u32,
}

impl FibRuleHdr {
    pub const LEN: usize = 12;

    pub open spec fn bytes(self, order: ByteOrder) -> Seq<u8> {
        seq![self.family, self.dst_len, self.src_len, self.tos, self.table, 0u8, 0u8, self.action]
            + u32_bytes(order, self.flags)
    }

    pub fn to_bytes(self, order: ByteOrder) -> (r: [u8; 12])
        ensures
            r@ == self.bytes(order),
    {
        let f = u32_to_bytes(order, self.flags);
        let r = [
            self.family,
            self.dst_len,
            self.src_len,
            self.tos,
            self.table,
            0u8,
            0u8,
            self.action,
            f[0],
            f[1],
            f[2],
            f[3],
        ];
        assert(r@ =~= self.bytes(order));
        r
    }
}

/// `struct nexthop_grp`: a member of a group; `weight` is the weight less one.
#[derive(Debug, Clone, Copy)]
pub struct NextHopGrp {
    pub id: u32,
    pub weight: u8,
    pub resvd1: u8,
    pub resvd2: u16,
}

impl NextHopGrp {
    pub const LEN: usize = 8;

    pub open spec fn bytes(self, order: ByteOrder) -> Seq<u8> {
        u32_bytes(order, self.id) + seq![self.weight, self.resvd1] + u16_bytes(order, self.resvd2)
    }

    pub fn to_bytes(self, order: ByteOrder) -> (r: [u8; 8])
        ensures
            r@ == self.bytes(order),
    {
        let i = u32_to_bytes(order, self.id);
        let z = u16_to_bytes(order, self.resvd2);
        let r = [i[0], i[1], i[2], i[3], self.weight, self.resvd1, z[0], z[1]];
        assert(r@ =~= self.bytes(order));
        r
    }
}

/// The weight that a message carries: at least 1, at most 256.
pub open spec fn clamped_weight(weight: u32) -> u32 {
    if weight < 1 {
        1
    } else if weight > MAX_NEXTHOP_WEIGHT {
        MAX_NEXTHOP_WEIGHT
    } else {
        weight
    }
}

/// `weight` brought into the range that a message can carry.
pub fn clamp_weight(weight: u32) -> (r: u32)
    ensures
        r == clamped_weight(weight),
        1 <= r <= 256,
{
    if weight < 1 {
        1
    } else if weight > MAX_NEXTHOP_WEIGHT {
        MAX_NEXTHOP_WEIGHT
    } else {
        weight
    }
}

/// One way out, of either address family.
pub struct RouteNexthop {
    pub ifindex: u32,
    /// The gateway's octets (four or sixteen of them); `None` for a direct link.
    pub gateway: Option<Vec<u8>>,
    pub weight: u32,
}

/// One way out, as a mathematical value.
pub ghost struct HopView {
    pub ifindex: u32,
    pub gateway: Option<Seq<u8>>,
    pub weight: u32,
}

/// The octets of an optional gateway.
pub open spec fn gateway_view(gw: Option<Vec<u8>>) -> Option<Seq<u8>> {
    match gw {
        Some(g) => Some(g@),
        None => None,
    }
}

impl View for RouteNexthop {
    type V = HopView;

    open spec fn view(&self) -> HopView {
        HopView {
            ifindex: self.ifindex,
            gateway: gateway_view(self.gateway),
            weight: self.weight,
        }
    }
}

impl RouteNexthop {
    /// A gateway is an address: no more than sixteen octets.
    pub open spec fn wf(self) -> bool {
        self.gateway matches Some(g) ==> g@.len() <= 16
    }
}

/// The ways out of a list, as mathematical values.
pub open spec fn hop_views(hops: Seq<RouteNexthop>) -> Seq<HopView> {
    Seq::new(hops.len(), |i: int| hops[i]@)
}

/// Whether a list of ways out can be put in a message: the gateways are
/// addresses, and the message fits in memory.
pub open spec fn hops_fit(hops: Seq<RouteNexthop>) -> bool {
    &&& forall|i: int| 0 <= i < hops.len() ==> (#[trigger] hops[i]).wf()
    &&& 28 * hops.len() + 128 <= usize::MAX
}

/// Where a route goes: `table` is `None` for the main table, `dst` is the
/// destination's octets and prefix length, `None` for a default route.
#[derive(Clone, Copy)]
pub struct RouteTarget<'a> {
    pub table: Option<u32>,
    pub dst: Option<(&'a [u8], u8)>,
}

/// One nexthop of a multipath attribute.
#[verifier::opaque]
pub open spec fn hop_bytes(order: ByteOrder, hop: HopView) -> Seq<u8> {
    let gw = match hop.gateway {
        Some(g) => attr_bytes(order, RTA_GATEWAY, g),
        None => Seq::empty(),
    };
    RtNextHop {
        rtnh_len: ((8 + gw.len()) % 65536) as u16,
        rtnh_flags: 0,
        rtnh_hops: (clamped_weight(hop.weight) - 1) as u8,
        rtnh_ifindex: signed(hop.ifindex),
    }.bytes(order) + gw
}

/// The payload of a multipath attribute: one nexthop after the other.
pub open spec fn multipath_bytes(order: ByteOrder, hops: Seq<HopView>) -> Seq<u8>
    decreases hops.len(),
{
    if hops.len() == 0 {
        Seq::empty()
    } else {
        multipath_bytes(order, hops.drop_last()) + hop_bytes(order, hops.last())
    }
}

/// The attributes that say which way a route goes.
pub open spec fn hop_attrs(order: ByteOrder, hops: Seq<HopView>) -> Seq<AttrView> {
    if hops.len() == 0 {
        Seq::empty()
    } else if hops.len() == 1 {
        (match hops[0].gateway {
            Some(g) => seq![AttrView { kind: RTA_GATEWAY, data: g }],
            None => Seq::empty(),
        }).push(AttrView { kind: RTA_OIF, data: u32_bytes(order, hops[0].ifindex) })
    } else {
        seq![AttrView { kind: RTA_MULTIPATH, data: multipath_bytes(order, hops) }]
    }
}

/// The attributes of a route message.
pub open spec fn route_attrs(
    order: ByteOrder,
    priority: u32,
    table: Option<u32>,
    dst: Option<(Seq<u8>, u8)>,
    hops: Seq<HopView>,
) -> Seq<AttrView> {
    (match table {
        Some(t) => seq![AttrView { kind: RTA_TABLE, data: u32_bytes(order, t) }],
        None => Seq::empty(),
    }) + (match dst {
        Some(d) => seq![AttrView { kind: RTA_DST, data: d.0 }],
        None => Seq::empty(),
    }) + seq![AttrView { kind: RTA_PRIORITY, data: u32_bytes(order, priority) }] + hop_attrs(
        order,
        hops,
    )
}

/// The fixed part of a route message. A lone direct link has link scope. A
/// deletion names no protocol: the kernel would compare it.
pub open spec fn route_head(
    family: u8,
    table: Option<u32>,
    dst: Option<(Seq<u8>, u8)>,
    hops: Seq<HopView>,
    msg_type: u16,
) -> RtMsg {
    RtMsg {
        rtm_family: family,
        rtm_dst_len: match dst {
            Some(d) => d.1,
            None => 0,
        },
        rtm_src_len: 0,
        rtm_tos: 0,
        rtm_table: match table {
            Some(t) => (t % 256) as u8,
            None => RT_TABLE_MAIN,
        },
        rtm_protocol: if msg_type == RTM_DELROUTE {
            0
        } else {
            RTPROT_STATIC
        },
        rtm_scope: if hops.len() == 1 && hops[0].gateway is None {
            RT_SCOPE_LINK
        } else {
            RT_SCOPE_UNIVERSE
        },
        rtm_type: RTN_UNICAST,
        rtm_flags: 0,
    }
}

/// A whole route message.
pub open spec fn route_msg(
    order: ByteOrder,
    priority: u32,
    family: u8,
    table: Option<u32>,
    dst: Option<(Seq<u8>, u8)>,
    hops: Seq<HopView>,
    msg_type: u16,
    flags: u16,
    seq: u32,
) -> Seq<u8> {
    message(
        order,
        msg_type,
        flags,
        seq,
        route_head(family, table, dst, hops, msg_type).bytes(order) + stream_bytes(
            order,
            route_attrs(order, priority, table, dst, hops),
        ),
    )
}

/// The destination of a target as a mathematical value.
pub open spec fn dst_view(dst: Option<(&[u8], u8)>) -> Option<(Seq<u8>, u8)> {
    match dst {
        Some(d) => Some((d.0@, d.1)),
        None => None,
    }
}

/// The payload of a multipath attribute.
fn build_multipath(order: ByteOrder, hops: &[RouteNexthop]) -> (r: Vec<u8>)
    requires
        hops_fit(hops@),
    ensures
        r@ == multipath_bytes(order, hop_views(hops@)),
        r@.len() <= 28 * hops@.len(),
{
    let mut out: Vec<u8> = Vec::new();
    let ghost views = hop_views(hops@);
    let mut i: usize = 0;
    while i < hops.len()
        invariant
            i <= hops@.len(),
            hops_fit(hops@),
            views == hop_views(hops@),
            out@ == multipath_bytes(order, views.take(i as int)),
            out@.len() <= 28 * i,
        decreases hops@.len() - i,
    {
        let hop = &hops[i];
        let ghost before = out@;
        let mut gw: Vec<u8> = Vec::new();
        if let Some(g) = &hop.gateway {
            append_attr(order, &mut gw, RTA_GATEWAY, g.as_slice());
            proof {
                attr_bytes_aligned(order, RTA_GATEWAY, g@);
            }
        }
        let head = RtNextHop {
            rtnh_len: ((RtNextHop::LEN + gw.len()) % 65536) as u16,
            rtnh_flags: 0,
            rtnh_hops: (clamp_weight(hop.weight) - 1) as u8,
            rtnh_ifindex: to_signed(hop.ifindex),
        };
        append_bytes(&mut out, &head.to_bytes(order));
        append_bytes(&mut out, gw.as_slice());
        i += 1;
        proof {
            let v = hops@[i - 1]@;
            assert(gw@ =~= match v.gateway {
                Some(g) => attr_bytes(order, RTA_GATEWAY, g),
                None => Seq::empty(),
            });
            assert(views.take(i as int).drop_last() =~= views.take(i - 1));
            assert(views.take(i as int).last() == v);
            reveal(hop_bytes);
            assert(out@ =~= before + hop_bytes(order, v));
        }
    }
    assert(views.take(i as int) =~= views);
    out
}

/// Builds a route message.
pub fn build_route_msg_ex(
    order: ByteOrder,
    priority: u32,
    family: u8,
    target: RouteTarget<'_>,
    hops: &[RouteNexthop],
    msg_type: u16,
    flags: u16,
    seq: u32,
) -> (r: Vec<u8>)
    requires
        hops_fit(hops@),
        target.dst matches Some(d) ==> d.0@.len() <= 16,
    ensures
        r@ == route_msg(
            order,
            priority,
            family,
            target.table,
            dst_view(target.dst),
            hop_views(hops@),
            msg_type,
            flags,
            seq,
        ),
{
    let ghost views = hop_views(hops@);
    let scope = if hops.len() == 1 && hops[0].gateway.is_none() {
        RT_SCOPE_LINK
    } else {
        RT_SCOPE_UNIVERSE
    };
    let head = RtMsg {
        rtm_family: family,
        rtm_dst_len: match target.dst {
            Some(d) => d.1,
            None => 0,
        },
        rtm_src_len: 0,
        rtm_tos: 0,
        rtm_table: match target.table {
            Some(t) => (t % 256) as u8,
            None => RT_TABLE_MAIN,
        },
        rtm_protocol: if msg_type == RTM_DELROUTE {
            0
        } else {
            RTPROT_STATIC
        },
        rtm_scope: scope,
        rtm_type: RTN_UNICAST,
        rtm_flags: 0,
    };
    proof {
        if hops@.len() == 1 {
            assert(views[0].gateway is None == hops@[0].gateway is None);
        }
        assert(head == route_head(family, target.table, dst_view(target.dst), views, msg_type));
    }
    let ghost hb = head.bytes(order);
    let ghost mut list: Seq<AttrView> = Seq::empty();
    let mut buf = start_body(order, &head.to_bytes(order));
    if let Some(t) = target.table {
        let d = u32_to_bytes(order, t);
        push_attr(order, &mut buf, RTA_TABLE, &d, Ghost(hb), Ghost(list));
        proof {
            list = list.push(AttrView { kind: RTA_TABLE, data: u32_bytes(order, t) });
        }
    }
    if let Some((addr, _)) = target.dst {
        push_attr(order, &mut buf, RTA_DST, addr, Ghost(hb), Ghost(list));
        proof {
            list = list.push(AttrView { kind: RTA_DST, data: addr@ });
        }
    }
    let d = u32_to_bytes(order, priority);
    push_attr(order, &mut buf, RTA_PRIORITY, &d, Ghost(hb), Ghost(list));
    proof {
        list = list.push(AttrView { kind: RTA_PRIORITY, data: u32_bytes(order, priority) });
    }
    let ghost keyed = list;
    if hops.len() == 1 {
        let hop = &hops[0];
        assert(views[0] == hop@);
        if let Some(g) = &hop.gateway {
            push_attr(order, &mut buf, RTA_GATEWAY, g.as_slice(), Ghost(hb), Ghost(list));
            proof {
                list = list.push(AttrView { kind: RTA_GATEWAY, data: g@ });
            }
        }
        let d = u32_to_bytes(order, hop.ifindex);
        push_attr(order, &mut buf, RTA_OIF, &d, Ghost(hb), Ghost(list));
        proof {
            list = list.push(AttrView { kind: RTA_OIF, data: u32_bytes(order, hop.ifindex) });
        }
    } else if hops.len() > 1 {
        let mp = build_multipath(order, hops);
        push_attr(order, &mut buf, RTA_MULTIPATH, mp.as_slice(), Ghost(hb), Ghost(list));
        proof {
            list = list.push(AttrView { kind: RTA_MULTIPATH, data: mp@ });
        }
    }
    proof {
        assert(list =~= keyed + hop_attrs(order, views));
        assert(list =~= route_attrs(order, priority, target.table, dst_view(target.dst), views));
    }
    finish_attrs(order, &buf, msg_type, flags, seq, Ghost(hb), Ghost(list))
}

/// Builds the message for a default route in the main table.
pub fn build_route_msg(
    order: ByteOrder,
    priority: u32,
    family: u8,
    hops: &[RouteNexthop],
    msg_type: u16,
    flags: u16,
    seq: u32,
) -> (r: Vec<u8>)
    requires
        hops_fit(hops@),
    ensures
        r@ == route_msg(
            order,
            priority,
            family,
            None,
            None,
            hop_views(hops@),
            msg_type,
            flags,
            seq,
        ),
{
    build_route_msg_ex(
        order,
        priority,
        family,
        RouteTarget { table: None, dst: None },
        hops,
        msg_type,
        flags,
        seq,
    )
}

/// The fixed part of the nexthop messages made here.
pub open spec fn nexthop_head(family: u8) -> NhMsg {
    NhMsg {
        nh_family: family,
        nh_scope: RT_SCOPE_UNIVERSE,
        nh_protocol: RTPROT_STATIC,
        nh_resvd: 0,
        nh_flags: 0,
    }
}

fn nhmsg_bytes(family: u8) -> (r: NhMsg)
    ensures
        r == nexthop_head(family),
{
    NhMsg {
        nh_family: family,
        nh_scope: RT_SCOPE_UNIVERSE,
        nh_protocol: RTPROT_STATIC,
        nh_resvd: 0,
        nh_flags: 0,
    }
}

/// The attributes of a message about a single nexthop object.
pub open spec fn nexthop_attrs(
    order: ByteOrder,
    id: u32,
    ifindex: u32,
    gateway: Option<Seq<u8>>,
) -> Seq<AttrView> {
    seq![
        AttrView { kind: NHA_ID, data: u32_bytes(order, id) },
        AttrView { kind: NHA_OIF, data: u32_bytes(order, ifindex) },
    ] + (match gateway {
        Some(g) => seq![AttrView { kind: NHA_GATEWAY, data: g }],
        None => Seq::empty(),
    })
}

/// A message about a single nexthop object.
pub open spec fn nexthop_msg(
    order: ByteOrder,
    seq: u32,
    family: u8,
    id: u32,
    ifindex: u32,
    gateway: Option<Seq<u8>>,
    msg_type: u16,
    flags: u16,
) -> Seq<u8> {
    message(
        order,
        msg_type,
        flags,
        seq,
        nexthop_head(family).bytes(order) + stream_bytes(
            order,
            nexthop_attrs(order, id, ifindex, gateway),
        ),
    )
}

/// An optional run of bytes as a mathematical value.
pub open spec fn slice_view(s: Option<&[u8]>) -> Option<Seq<u8>> {
    match s {
        Some(g) => Some(g@),
        None => None,
    }
}

/// Builds a message about a single nexthop object.
pub fn build_nexthop_id_msg(
    order: ByteOrder,
    seq: u32,
    family: u8,
    id: u32,
    ifindex: u32,
    gateway: Option<&[u8]>,
    msg_type: u16,
    flags: u16,
) -> (r: Vec<u8>)
    requires
        gateway matches Some(g) ==> g@.len() <= 16,
    ensures
        r@ == nexthop_msg(
            order,
            seq,
            family,
            id,
            ifindex,
            slice_view(gateway),
            msg_type,
            flags,
        ),
{
    let head = nhmsg_bytes(family);
    let ghost hb = head.bytes(order);
    let ghost mut list: Seq<AttrView> = Seq::empty();
    let mut buf = start_body(order, &head.to_bytes(order));
    let d = u32_to_bytes(order, id);
    push_attr(order, &mut buf, NHA_ID, &d, Ghost(hb), Ghost(list));
    proof {
        list = list.push(AttrView { kind: NHA_ID, data: u32_bytes(order, id) });
    }
    let d = u32_to_bytes(order, ifindex);
    push_attr(order, &mut buf, NHA_OIF, &d, Ghost(hb), Ghost(list));
    proof {
        list = list.push(AttrView { kind: NHA_OIF, data: u32_bytes(order, ifindex) });
    }
    if let Some(g) = gateway {
        push_attr(order, &mut buf, NHA_GATEWAY, g, Ghost(hb), Ghost(list));
        proof {
            list = list.push(AttrView { kind: NHA_GATEWAY, data: g@ });
        }
    }
    assert(list =~= nexthop_attrs(order, id, ifindex, slice_view(gateway)));
    finish_attrs(order, &buf, msg_type, flags, seq, Ghost(hb), Ghost(list))
}

/// The payload of a group attribute: one member (identifier, weight) after the other.
pub open spec fn group_bytes(order: ByteOrder, members: Seq<(u32, u32)>) -> Seq<u8>
    decreases members.len(),
{
    if members.len() == 0 {
        Seq::empty()
    } else {
        group_bytes(order, members.drop_last()) + NextHopGrp {
            id: members.last().0,
            weight: (clamped_weight(members.last().1) - 1) as u8,
            resvd1: 0,
            resvd2: 0,
        }.bytes(order)
    }
}

/// The attributes of a message about a group. A resilient group names its type
/// before its members and nests the number of buckets.
pub open spec fn group_attrs(
    order: ByteOrder,
    group_id: u32,
    members: Seq<(u32, u32)>,
    buckets: Option<u16>,
) -> Seq<AttrView> {
    seq![AttrView { kind: NHA_ID, data: u32_bytes(order, group_id) }] + (match buckets {
        Some(_) => seq![
            AttrView { kind: NHA_GROUP_TYPE, data: u16_bytes(order, NEXTHOP_GRP_TYPE_RES) },
        ],
        None => Seq::empty(),
    }) + seq![AttrView { kind: NHA_GROUP, data: group_bytes(order, members) }] + (match buckets {
        Some(n) => seq![
            AttrView {
                kind: NHA_RES_GROUP_NESTED,
                data: attr_bytes(order, NHA_RES_GROUP_BUCKETS, u16_bytes(order, n)),
            },
        ],
        None => Seq::empty(),
    })
}

/// A message about a group. Groups belong to no address family.
pub open spec fn group_msg(
    order: ByteOrder,
    seq: u32,
    group_id: u32,
    members: Seq<(u32, u32)>,
    buckets: Option<u16>,
    msg_type: u16,
    flags: u16,
) -> Seq<u8> {
    message(
        order,
        msg_type,
        flags,
        seq,
        nexthop_head(AF_UNSPEC).bytes(order) + stream_bytes(
            order,
            group_attrs(order, group_id, members, buckets),
        ),
    )
}

fn build_group_members(order: ByteOrder, members: &[(u32, u32)]) -> (r: Vec<u8>)
    requires
        8 * members@.len() + 128 <= usize::MAX,
    ensures
        r@ == group_bytes(order, members@),
        r@.len() == 8 * members@.len(),
{
    let mut out: Vec<u8> = Vec::new();
    let mut i: usize = 0;
    while i < members.len()
        invariant
            i <= members@.len(),
            out@ == group_bytes(order, members@.take(i as int)),
            out@.len() == 8 * i,
        decreases members@.len() - i,
    {
        let (id, weight) = members[i];
        let entry = NextHopGrp {
            id,
            weight: (clamp_weight(weight) - 1) as u8,
            resvd1: 0,
            resvd2: 0,
        };
        append_bytes(&mut out, &entry.to_bytes(order));
        i += 1;
        assert(members@.take(i as int).drop_last() =~= members@.take(i - 1));
    }
    assert(members@.take(i as int) =~= members@);
    out
}

/// Builds a message about a group: a resilient one if a number of buckets is given.
pub fn build_nexthop_group_msg(
    order: ByteOrder,
    seq: u32,
    group_id: u32,
    members: &[(u32, u32)],
    buckets: Option<u16>,
    msg_type: u16,
    flags: u16,
) -> (r: Vec<u8>)
    requires
        8 * members@.len() + 128 <= usize::MAX,
    ensures
        r@ == group_msg(order, seq, group_id, members@, buckets, msg_type, flags),
{
    let head = nhmsg_bytes(AF_UNSPEC);
    let ghost hb = head.bytes(order);
    let ghost mut list: Seq<AttrView> = Seq::empty();
    let mut buf = start_body(order, &head.to_bytes(order));
    let d = u32_to_bytes(order, group_id);
    push_attr(order, &mut buf, NHA_ID, &d, Ghost(hb), Ghost(list));
    proof {
        list = list.push(AttrView { kind: NHA_ID, data: u32_bytes(order, group_id) });
    }
    if buckets.is_some() {
        let d = u16_to_bytes(order, NEXTHOP_GRP_TYPE_RES);
        push_attr(order, &mut buf, NHA_GROUP_TYPE, &d, Ghost(hb), Ghost(list));
        proof {
            list = list.push(
                AttrView { kind: NHA_GROUP_TYPE, data: u16_bytes(order, NEXTHOP_GRP_TYPE_RES) },
            );
        }
    }
    let grp = build_group_members(order, members);
    push_attr(order, &mut buf, NHA_GROUP, grp.as_slice(), Ghost(hb), Ghost(list));
    proof {
        list = list.push(AttrView { kind: NHA_GROUP, data: grp@ });
    }
    if let Some(n) = buckets {
        let mut res: Vec<u8> = Vec::new();
        let d = u16_to_bytes(order, n);
        append_attr(order, &mut res, NHA_RES_GROUP_BUCKETS, &d);
        proof {
            attr_bytes_aligned(order, NHA_RES_GROUP_BUCKETS, d@);
            assert(res@ =~= attr_bytes(order, NHA_RES_GROUP_BUCKETS, u16_bytes(order, n)));
        }
        push_attr(order, &mut buf, NHA_RES_GROUP_NESTED, res.as_slice(), Ghost(hb), Ghost(list));
        proof {
            list = list.push(AttrView { kind: NHA_RES_GROUP_NESTED, data: res@ });
        }
    }
    assert(list =~= group_attrs(order, group_id, members@, buckets));
    finish_attrs(order, &buf, msg_type, flags, seq, Ghost(hb), Ghost(list))
}

/// The message that deletes a nexthop object. The family is that of the object:
/// the kernel compares it.
pub open spec fn nexthop_del_msg(order: ByteOrder, seq: u32, family: u8, id: u32) -> Seq<u8> {
    message(
        order,
        RTM_DELNEXTHOP,
        FLAGS_DELETE,
        seq,
        nexthop_head(family).bytes(order) + stream_bytes(
            order,
            seq![AttrView { kind: NHA_ID, data: u32_bytes(order, id) }],
        ),
    )
}

/// Builds the message that deletes a nexthop object.
pub fn build_nexthop_del_msg(order: ByteOrder, seq: u32, family: u8, id: u32) -> (r: Vec<u8>)
    ensures
        r@ == nexthop_del_msg(order, seq, family, id),
{
    let head = nhmsg_bytes(family);
    let ghost hb = head.bytes(order);
    let mut buf = start_body(order, &head.to_bytes(order));
    let d = u32_to_bytes(order, id);
    push_attr(order, &mut buf, NHA_ID, &d, Ghost(hb), Ghost(Seq::empty()));
    let ghost list = seq![AttrView { kind: NHA_ID, data: u32_bytes(order, id) }];
    assert(list =~= Seq::empty().push(AttrView { kind: NHA_ID, data: u32_bytes(order, id) }));
    finish_attrs(order, &buf, RTM_DELNEXTHOP, FLAGS_DELETE, seq, Ghost(hb), Ghost(list))
}

/// The attributes of a default route that points at a nexthop object.
pub open spec fn via_nh_attrs(order: ByteOrder, priority: u32, nh_id: u32) -> Seq<AttrView> {
    seq![
        AttrView { kind: RTA_PRIORITY, data: u32_bytes(order, priority) },
        AttrView { kind: RTA_NH_ID, data: u32_bytes(order, nh_id) },
    ]
}

/// A message about a default route, in the main table, that points at a nexthop object.
pub open spec fn via_nh_msg(
    order: ByteOrder,
    priority: u32,
    family: u8,
    nh_id: u32,
    msg_type: u16,
    flags: u16,
    seq: u32,
) -> Seq<u8> {
    message(
        order,
        msg_type,
        flags,
        seq,
        route_head(family, None, None, Seq::empty(), msg_type).bytes(order) + stream_bytes(
            order,
            via_nh_attrs(order, priority, nh_id),
        ),
    )
}

/// Builds a message about a default route that points at a nexthop object.
pub fn build_route_msg_via_nh(
    order: ByteOrder,
    priority: u32,
    family: u8,
    nh_id: u32,
    msg_type: u16,
    flags: u16,
    seq: u32,
) -> (r: Vec<u8>)
    ensures
        r@ == via_nh_msg(order, priority, family, nh_id, msg_type, flags, seq),
{
    let head = RtMsg {
        rtm_family: family,
        rtm_dst_len: 0,
        rtm_src_len: 0,
        rtm_tos: 0,
        rtm_table: RT_TABLE_MAIN,
        rtm_protocol: if msg_type == RTM_DELROUTE {
            0
        } else {
            RTPROT_STATIC
        },
        rtm_scope: RT_SCOPE_UNIVERSE,
        rtm_type: RTN_UNICAST,
        rtm_flags: 0,
    };
    let ghost hb = head.bytes(order);
    let ghost list: Seq<AttrView> = Seq::empty();
    let mut buf = start_body(order, &head.to_bytes(order));
    let d = u32_to_bytes(order, priority);
    push_attr(order, &mut buf, RTA_PRIORITY, &d, Ghost(hb), Ghost(list));
    let ghost list = list.push(AttrView { kind: RTA_PRIORITY, data: u32_bytes(order, priority) });
    let d = u32_to_bytes(order, nh_id);
    push_attr(order, &mut buf, RTA_NH_ID, &d, Ghost(hb), Ghost(list));
    let ghost list = list.push(AttrView { kind: RTA_NH_ID, data: u32_bytes(order, nh_id) });
    assert(list =~= via_nh_attrs(order, priority, nh_id));
    finish_attrs(order, &buf, msg_type, flags, seq, Ghost(hb), Ghost(list))
}

/// A policy rule: packets that leave through (`output`) or enter by an interface
/// are looked up in a table.
#[derive(Clone, Copy)]
pub struct RuleSpec<'a> {
    pub family: u8,
    pub table: u32,
    pub ifname: &'a str,
    pub priority: u32,
    pub output: bool,
}

/// The fixed part of the rule messages made here. The table is an attribute.
pub open spec fn rule_head(family: u8) -> FibRuleHdr {
    FibRuleHdr {
        family,
        dst_len: 0,
        src_len: 0,
        tos: 0,
        table: 0,
        action: FR_ACT_TO_TBL,
        flags: 0,
    }
}

/// The attributes of a rule. The name ends in a zero byte.
pub open spec fn rule_attrs(
    order: ByteOrder,
    table: u32,
    ifname: Seq<char>,
    priority: u32,
    output: bool,
) -> Seq<AttrView> {
    seq![
        AttrView { kind: FRA_TABLE, data: u32_bytes(order, table) },
        AttrView { kind: FRA_PRIORITY, data: u32_bytes(order, priority) },
        AttrView { kind: FRA_PROTOCOL, data: seq![PROBE_RULE_PROTOCOL] },
        AttrView {
            kind: if output {
                FRA_OIFNAME
            } else {
                FRA_IIFNAME
            },
            data: vstd::utf8::encode_utf8(ifname).push(0),
        },
    ]
}

/// A whole rule message.
pub open spec fn rule_msg(
    order: ByteOrder,
    seq: u32,
    family: u8,
    table: u32,
    ifname: Seq<char>,
    priority: u32,
    output: bool,
    msg_type: u16,
    flags: u16,
) -> Seq<u8> {
    message(
        order,
        msg_type,
        flags,
        seq,
        rule_head(family).bytes(order) + stream_bytes(
            order,
            rule_attrs(order, table, ifname, priority, output),
        ),
    )
}

/// Builds a rule message.
pub fn build_rule_msg(order: ByteOrder, seq: u32, spec: RuleSpec<'_>, msg_type: u16, flags: u16) -> (r:
    Vec<u8>)
    requires
        vstd::utf8::encode_utf8(spec.ifname@).len() + 128 <= usize::MAX,
    ensures
        r@ == rule_msg(
            order,
            seq,
            spec.family,
            spec.table,
            spec.ifname@,
            spec.priority,
            spec.output,
            msg_type,
            flags,
        ),
{
    let head = FibRuleHdr {
        family: spec.family,
        dst_len: 0,
        src_len: 0,
        tos: 0,
        table: 0,
        action: FR_ACT_TO_TBL,
        flags: 0,
    };
    let ghost hb = head.bytes(order);
    let ghost list: Seq<AttrView> = Seq::empty();
    let mut buf = start_body(order, &head.to_bytes(order));
    let d = u32_to_bytes(order, spec.table);
    push_attr(order, &mut buf, FRA_TABLE, &d, Ghost(hb), Ghost(list));
    let ghost list = list.push(AttrView { kind: FRA_TABLE, data: u32_bytes(order, spec.table) });
    let d = u32_to_bytes(order, spec.priority);
    push_attr(order, &mut buf, FRA_PRIORITY, &d, Ghost(hb), Ghost(list));
    let ghost list = list.push(
        AttrView { kind: FRA_PRIORITY, data: u32_bytes(order, spec.priority) },
    );
    let d = [PROBE_RULE_PROTOCOL];
    assert(d@ =~= seq![PROBE_RULE_PROTOCOL]);
    push_attr(order, &mut buf, FRA_PROTOCOL, &d, Ghost(hb), Ghost(list));
    let ghost list = list.push(AttrView { kind: FRA_PROTOCOL, data: seq![PROBE_RULE_PROTOCOL] });
    let mut name = copy_bytes(spec.ifname.as_bytes());
    name.push(0);
    let name_attr = if spec.output {
        FRA_OIFNAME
    } else {
        FRA_IIFNAME
    };
    push_attr(order, &mut buf, name_attr, name.as_slice(), Ghost(hb), Ghost(list));
    let ghost list = list.push(AttrView { kind: name_attr, data: name@ });
    assert(list =~= rule_attrs(order, spec.table, spec.ifname@, spec.priority, spec.output));
    finish_attrs(order, &buf, msg_type, flags, seq, Ghost(hb), Ghost(list))
}

/// The message that deletes the rule with a given priority and our origin,
/// whatever its interface and table are.
pub open spec fn own_rule_del_msg(order: ByteOrder, seq: u32, priority: u32) -> Seq<u8> {
    message(
        order,
        RTM_DELRULE,
        FLAGS_DELETE,
        seq,
        rule_head(AF_INET).bytes(order) + stream_bytes(
            order,
            seq![
                AttrView { kind: FRA_PRIORITY, data: u32_bytes(order, priority) },
                AttrView { kind: FRA_PROTOCOL, data: seq![PROBE_RULE_PROTOCOL] },
            ],
        ),
    )
}

/// Builds the message that deletes one of our rules by its priority.
pub fn build_own_rule_del_msg(order: ByteOrder, seq: u32, priority: u32) -> (r: Vec<u8>)
    ensures
        r@ == own_rule_del_msg(order, seq, priority),
{
    let head = FibRuleHdr {
        family: AF_INET,
        dst_len: 0,
        src_len: 0,
        tos: 0,
        table: 0,
        action: FR_ACT_TO_TBL,
        flags: 0,
    };
    let ghost hb = head.bytes(order);
    let ghost list: Seq<AttrView> = Seq::empty();
    let mut buf = start_body(order, &head.to_bytes(order));
    let d = u32_to_bytes(order, priority);
    push_attr(order, &mut buf, FRA_PRIORITY, &d, Ghost(hb), Ghost(list));
    let ghost list = list.push(AttrView { kind: FRA_PRIORITY, data: u32_bytes(order, priority) });
    let d = [PROBE_RULE_PROTOCOL];
    assert(d@ =~= seq![PROBE_RULE_PROTOCOL]);
    push_attr(order, &mut buf, FRA_PROTOCOL, &d, Ghost(hb), Ghost(list));
    let ghost list = list.push(AttrView { kind: FRA_PROTOCOL, data: seq![PROBE_RULE_PROTOCOL] });
    assert(list =~= seq![
        AttrView { kind: FRA_PRIORITY, data: u32_bytes(order, priority) },
        AttrView { kind: FRA_PROTOCOL, data: seq![PROBE_RULE_PROTOCOL] },
    ]);
    finish_attrs(order, &buf, RTM_DELRULE, FLAGS_DELETE, seq, Ghost(hb), Ghost(list))
}

/// The attributes of a route query.
pub open spec fn getroute_attrs(
    order: ByteOrder,
    dst: Option<(Ipv4Addr, u8)>,
    oif: Option<u32>,
) -> Seq<AttrView> {
    (match dst {
        Some(d) => seq![AttrView { kind: RTA_DST, data: d.0@ }],
        None => Seq::empty(),
    }) + (match oif {
        Some(i) => seq![AttrView { kind: RTA_OIF, data: u32_bytes(order, i) }],
        None => Seq::empty(),
    })
}

/// The fixed part of a route query.
pub open spec fn getroute_head(family: u8, dst: Option<(Ipv4Addr, u8)>) -> RtMsg {
    RtMsg {
        rtm_family: family,
        rtm_dst_len: match dst {
            Some(d) => d.1,
            None => 0,
        },
        rtm_src_len: 0,
        rtm_tos: 0,
        rtm_table: RT_TABLE_MAIN,
        rtm_protocol: RTPROT_STATIC,
        rtm_scope: RT_SCOPE_UNIVERSE,
        rtm_type: RTN_UNICAST,
        rtm_flags: 0,
    }
}

/// A route query: the route to one destination, or a dump of a whole family.
pub open spec fn getroute_msg(
    order: ByteOrder,
    family: u8,
    seq: u32,
    dst: Option<(Ipv4Addr, u8)>,
    oif: Option<u32>,
    dump: bool,
) -> Seq<u8> {
    message(
        order,
        RTM_GETROUTE,
        if dump {
            FLAGS_DUMP
        } else {
            NLM_F_REQUEST
        },
        seq,
        getroute_head(family, dst).bytes(order) + stream_bytes(
            order,
            getroute_attrs(order, dst, oif),
        ),
    )
}

/// Builds a route query. With `oif` it asks as a socket bound to that interface would.
pub fn build_getroute_msg(
    order: ByteOrder,
    family: u8,
    seq: u32,
    dst: Option<(Ipv4Addr, u8)>,
    oif: Option<u32>,
    dump: bool,
) -> (r: Vec<u8>)
    ensures
        r@ == getroute_msg(order, family, seq, dst, oif, dump),
{
    let head = RtMsg {
        rtm_family: family,
        rtm_dst_len: match dst {
            Some(d) => d.1,
            None => 0,
        },
        rtm_src_len: 0,
        rtm_tos: 0,
        rtm_table: RT_TABLE_MAIN,
        rtm_protocol: RTPROT_STATIC,
        rtm_scope: RT_SCOPE_UNIVERSE,
        rtm_type: RTN_UNICAST,
        rtm_flags: 0,
    };
    let ghost hb = head.bytes(order);
    let ghost mut list: Seq<AttrView> = Seq::empty();
    let mut buf = start_body(order, &head.to_bytes(order));
    if let Some((addr, _)) = dst {
        let d = addr.octets();
        push_attr(order, &mut buf, RTA_DST, &d, Ghost(hb), Ghost(list));
        proof {
            list = list.push(AttrView { kind: RTA_DST, data: addr@ });
        }
    }
    if let Some(index) = oif {
        let d = u32_to_bytes(order, index);
        push_attr(order, &mut buf, RTA_OIF, &d, Ghost(hb), Ghost(list));
        proof {
            list = list.push(AttrView { kind: RTA_OIF, data: u32_bytes(order, index) });
        }
    }
    let flags = if dump {
        FLAGS_DUMP
    } else {
        NLM_F_REQUEST
    };
    assert(list =~= getroute_attrs(order, dst, oif));
    finish_attrs(order, &buf, RTM_GETROUTE, flags, seq, Ghost(hb), Ghost(list))
}

/// The number of buckets of a resilient group: a power of two between the two
/// bounds, the least one that covers the members.
pub open spec fn bucket_count(members: int) -> u16 {
    if members <= 8 {
        8
    } else if members <= 16 {
        16
    } else if members <= 32 {
        32
    } else if members <= 64 {
        64
    } else if members <= 128 {
        128
    } else {
        256
    }
}

/// The number of buckets of a resilient group with that many members.
pub fn res_bucket_count(members: usize) -> (r: u16)
    ensures
        r == bucket_count(members as int),
{
    let mut b: usize = RES_BUCKETS_MIN;
    while b < members && b < RES_BUCKETS_MAX
        invariant
            b == 8 || b == 16 || b == 32 || b == 64 || b == 128 || b == 256,
            b <= bucket_count(members as int),
        decreases RES_BUCKETS_MAX - b,
    {
        b = b * 2;
    }
    b as u16
}

/// The number of buckets covers the members, up to the bound, and never falls as
/// members are added.
pub proof fn bucket_count_covers(members: int, more: int)
    requires
        0 <= members <= more,
    ensures
        RES_BUCKETS_MIN <= bucket_count(members) <= RES_BUCKETS_MAX,
        members <= RES_BUCKETS_MAX ==> members <= bucket_count(members),
        bucket_count(members) <= bucket_count(more),
        members > RES_BUCKETS_MAX ==> bucket_count(members) == RES_BUCKETS_MAX,
        exists|k: nat|
            3 <= k <= 8 && bucket_count(members) == #[trigger] vstd::arithmetic::power2::pow2(k),
{
    vstd::arithmetic::power2::lemma2_to64();
}

} // verus!
