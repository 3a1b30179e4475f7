//! What the kernel finds in each request: every field and every attribute, told
//! by what the request is for.
use crate::addr::Ipv4Addr;
use crate::netlink::apply::{v4_hops, v6_hops};
use crate::netlink::manager::{ActiveWanRoute, ActiveWanRouteV6, MgrView, ProbeView};
use crate::netlink::message::{attr_bytes, attrs, message, stream_bytes, AttrView};
use crate::netlink::message_laws::{
    attrs_fit, groups_fit, header_says, lemma_header, lemma_payload, lemma_short_list,
    message_round_trip, multipath_is_walkable, multipath_view, multipath_walk, routes_fit,
};
use crate::netlink::request::{
    req_delete_host_route, req_delete_nexthop, req_delete_nh_route, req_delete_own_rule,
    req_delete_probe_route, req_delete_probe_rule, req_delete_standard_route, req_dump, req_group,
    req_host_route, req_lookup, req_nexthop, req_nh_route, req_probe_route, req_probe_rule,
    req_standard_route, table_arg,
};
use crate::netlink::route::{
    bucket_count, getroute_attrs, getroute_head, group_attrs, group_bytes, hop_attrs,
    multipath_bytes, nexthop_attrs, nexthop_head, route_attrs, route_head, rule_attrs, rule_head,
    via_nh_attrs, HopView, NextHopGrp,
};
use crate::netlink::util::{u16_bytes, u32_at, u32_bytes, u32_round_trip, ByteOrder};
use vstd::prelude::*;

verus! {

/// An attribute whose payload is a number.
pub open spec fn num_attr(order: ByteOrder, kind: u16, v: u32) -> AttrView {
    AttrView { kind, data: u32_bytes(order, v) }
}

/// Whether a message is a request of a kind, with the number after that of the
/// last request, a fixed part, and attributes.
pub open spec fn is_request(
    m: MgrView,
    msg: Seq<u8>,
    kind: u16,
    flags: u16,
    fixed: Seq<u8>,
    list: Seq<AttrView>,
) -> bool {
    &&& header_says(m.order, msg, kind, flags, ((m.seq + 1) % 0x1_0000_0000) as u32)
    &&& msg.len() >= 16 + fixed.len()
    &&& msg.subrange(16, 16 + fixed.len() as int) == fixed
    &&& attrs(m.order, msg.skip(16 + fixed.len() as int)) == list
}

/// The fixed part of a message about routes: family, length of the destination,
/// table, origin and scope.
pub open spec fn rt_fixed(family: u8, dst_len: u8, table: u8, origin: u8, scope: u8) -> Seq<u8> {
    seq![family, dst_len, 0, 0, table, origin, scope, 1, 0, 0, 0, 0]
}

proof fn lemma_zero(order: ByteOrder)
    ensures
        u32_bytes(order, 0) == seq![0u8, 0, 0, 0],
{
    assert(u32_bytes(order, 0) =~= seq![0u8, 0, 0, 0]);
}

proof fn lemma_request(
    m: MgrView,
    kind: u16,
    flags: u16,
    fixed: Seq<u8>,
    list: Seq<AttrView>,
)
    requires
        fixed.len() % 4 == 0,
        fixed.len() <= 12,
        list.len() <= 8,
        attrs_fit(list),
    ensures
        is_request(
            m,
            message(m.order, kind, flags, m.next_seq(), fixed + stream_bytes(m.order, list)),
            kind,
            flags,
            fixed,
            list,
        ),
{
    lemma_short_list(m.order, list);
    message_round_trip(m.order, kind, flags, m.next_seq(), fixed, list);
    lemma_header(m.order, kind, flags, m.next_seq(), fixed, stream_bytes(m.order, list));
}

/// A deletion of a nexthop object names it by its identifier.
pub proof fn nexthop_deletion(m: MgrView, family: u8, id: u32)
    ensures
        is_request(
            m,
            req_delete_nexthop(m, family, id),
            105,
            0x005,
            seq![family, 0, 4, 0, 0, 0, 0, 0],
            seq![num_attr(m.order, 1, id)],
        ),
{
    reveal(req_delete_nexthop);
    let fixed = seq![family, 0u8, 4, 0, 0, 0, 0, 0];
    let list = seq![num_attr(m.order, 1, id)];
    lemma_zero(m.order);
    lemma_payload(m.order, id);
    assert(nexthop_head(family).bytes(m.order) =~= fixed);
    lemma_request(m, 105, 0x005, fixed, list);
}

/// The default route over a group: in the main table, of our metric, through the
/// group of its family. Its deletion names the same, and no origin.
pub proof fn group_route(m: MgrView, family: u8)
    requires
        family == 2 || family == 10,
    ensures
        ({
            let group: u32 = if family == 10 {
                0xFFFF_FF01
            } else {
                0xFFFF_FF00
            };
            let list = seq![num_attr(m.order, 6, m.priority), num_attr(m.order, 30, group)];
            &&& is_request(
                m,
                req_nh_route(m, family),
                24,
                0x505,
                rt_fixed(family, 0, 254, 4, 0),
                list,
            )
            &&& is_request(
                m,
                req_delete_nh_route(m, family),
                25,
                0x005,
                rt_fixed(family, 0, 254, 0, 0),
                list,
            )
        }),
{
    reveal(req_nh_route);
    reveal(req_delete_nh_route);
    let group: u32 = if family == 10 {
        0xFFFF_FF01
    } else {
        0xFFFF_FF00
    };
    let list = seq![num_attr(m.order, 6, m.priority), num_attr(m.order, 30, group)];
    lemma_zero(m.order);
    lemma_payload(m.order, m.priority);
    lemma_payload(m.order, group);
    assert(via_nh_attrs(m.order, m.priority, group) =~= list);
    assert(route_head(family, None, None, Seq::empty(), 24).bytes(m.order) =~= rt_fixed(
        family,
        0,
        254,
        4,
        0,
    ));
    assert(route_head(family, None, None, Seq::empty(), 25).bytes(m.order) =~= rt_fixed(
        family,
        0,
        254,
        0,
        0,
    ));
    lemma_request(m, 24, 0x505, rt_fixed(family, 0, 254, 4, 0), list);
    lemma_request(m, 25, 0x005, rt_fixed(family, 0, 254, 0, 0), list);
}

/// The deletion of a default route names its metric and nothing else.
pub proof fn default_route_deletion(m: MgrView, family: u8)
    ensures
        is_request(
            m,
            req_delete_standard_route(m, family),
            25,
            0x005,
            rt_fixed(family, 0, 254, 0, 0),
            seq![num_attr(m.order, 6, m.priority)],
        ),
{
    reveal(req_delete_standard_route);
    let list = seq![num_attr(m.order, 6, m.priority)];
    let none: Seq<HopView> = Seq::empty();
    lemma_zero(m.order);
    lemma_payload(m.order, m.priority);
    assert(route_attrs(m.order, m.priority, None, None, none) =~= list);
    assert(route_head(family, None, None, none, 25).bytes(m.order) =~= rt_fixed(
        family,
        0,
        254,
        0,
        0,
    ));
    lemma_request(m, 25, 0x005, rt_fixed(family, 0, 254, 0, 0), list);
}

/// The attributes of a single way out: its gateway, if it has one, and its
/// interface.
pub open spec fn way_attrs(order: ByteOrder, ifindex: u32, gateway: Option<Seq<u8>>) -> Seq<AttrView> {
    match gateway {
        Some(g) => seq![AttrView { kind: 5, data: g }, num_attr(order, 4, ifindex)],
        None => seq![num_attr(order, 4, ifindex)],
    }
}

/// The scope of a single way out: that of the link, if there is no gateway.
pub open spec fn way_scope(gateway: Option<Seq<u8>>) -> u8 {
    if gateway is Some {
        0
    } else {
        253
    }
}

/// A host route in the main table leads to one address, with the given metric,
/// through the given interface and gateway.
pub proof fn host_route_request(
    m: MgrView,
    metric: u32,
    dst: Ipv4Addr,
    ifindex: u32,
    gateway: Option<Seq<u8>>,
)
    requires
        gateway matches Some(g) ==> g.len() <= 16,
    ensures
        is_request(
            m,
            req_host_route(m, metric, dst, ifindex, gateway),
            24,
            0x505,
            rt_fixed(2, 32, 254, 4, way_scope(gateway)),
            seq![
                AttrView { kind: 1, data: seq![dst.a, dst.b, dst.c, dst.d] },
                num_attr(m.order, 6, metric),
            ] + way_attrs(m.order, ifindex, gateway),
        ),
{
    reveal(req_host_route);
    let hops = seq![HopView { ifindex, gateway, weight: 1 }];
    let list = seq![
        AttrView { kind: 1, data: seq![dst.a, dst.b, dst.c, dst.d] },
        num_attr(m.order, 6, metric),
    ] + way_attrs(m.order, ifindex, gateway);
    lemma_zero(m.order);
    routes_fit(m.order, metric, None, Some((dst@, 32u8)), hops);
    assert(hop_attrs(m.order, hops) =~= way_attrs(m.order, ifindex, gateway));
    assert(route_attrs(m.order, metric, None, Some((dst@, 32u8)), hops) =~= list);
    assert(route_head(2, None, Some((dst@, 32u8)), hops, 24).bytes(m.order) =~= rt_fixed(
        2,
        32,
        254,
        4,
        way_scope(gateway),
    ));
    lemma_request(m, 24, 0x505, rt_fixed(2, 32, 254, 4, way_scope(gateway)), list);
}

/// The deletion of a host route names its destination, its metric, and its table
/// unless that is the main one.
pub proof fn host_route_deletion(m: MgrView, metric: u32, table: u32, dst: Ipv4Addr, dst_len: u8)
    ensures
        is_request(
            m,
            req_delete_host_route(m, metric, table, dst, dst_len),
            25,
            0x005,
            rt_fixed(2, dst_len, (table % 256) as u8, 0, 0),
            (if table == 254 {
                Seq::empty()
            } else {
                seq![num_attr(m.order, 15, table)]
            }) + seq![
                AttrView { kind: 1, data: seq![dst.a, dst.b, dst.c, dst.d] },
                num_attr(m.order, 6, metric),
            ],
        ),
{
    reveal(req_delete_host_route);
    let none: Seq<HopView> = Seq::empty();
    let arg = table_arg(table);
    let list = (if table == 254 {
        Seq::empty()
    } else {
        seq![num_attr(m.order, 15, table)]
    }) + seq![
        AttrView { kind: 1, data: seq![dst.a, dst.b, dst.c, dst.d] },
        num_attr(m.order, 6, metric),
    ];
    lemma_zero(m.order);
    routes_fit(m.order, metric, arg, Some((dst@, dst_len)), none);
    assert(route_attrs(m.order, metric, arg, Some((dst@, dst_len)), none) =~= list);
    assert(route_head(2, arg, Some((dst@, dst_len)), none, 25).bytes(m.order) =~= rt_fixed(
        2,
        dst_len,
        (table % 256) as u8,
        0,
        0,
    ));
    lemma_request(m, 25, 0x005, rt_fixed(2, dst_len, (table % 256) as u8, 0, 0), list);
}

/// The octets of a gateway.
pub open spec fn octets(g: Option<Ipv4Addr>) -> Option<Seq<u8>> {
    match g {
        Some(a) => Some(seq![a.a, a.b, a.c, a.d]),
        None => None,
    }
}

/// The default route of a probe path stands in the path's own table and goes
/// through the path's interface and gateway. Its deletion names the table only.
pub proof fn probe_route_requests(m: MgrView, p: ProbeView)
    ensures
        is_request(
            m,
            req_probe_route(m, p),
            24,
            0x505,
            rt_fixed(2, 0, (p.table % 256) as u8, 4, way_scope(octets(p.gateway))),
            seq![num_attr(m.order, 15, p.table), num_attr(m.order, 6, 0)] + way_attrs(
                m.order,
                p.ifindex,
                octets(p.gateway),
            ),
        ),
        is_request(
            m,
            req_delete_probe_route(m, p),
            25,
            0x005,
            rt_fixed(2, 0, (p.table % 256) as u8, 0, 0),
            seq![num_attr(m.order, 15, p.table), num_attr(m.order, 6, 0)],
        ),
{
    reveal(req_probe_route);
    reveal(req_delete_probe_route);
    let gateway = octets(p.gateway);
    let hops = seq![HopView { ifindex: p.ifindex, gateway, weight: 1 }];
    let none: Seq<HopView> = Seq::empty();
    let base = seq![num_attr(m.order, 15, p.table), num_attr(m.order, 6, 0)];
    let list = base + way_attrs(m.order, p.ifindex, gateway);
    lemma_zero(m.order);
    routes_fit(m.order, 0, Some(p.table), None, hops);
    routes_fit(m.order, 0, Some(p.table), None, none);
    assert(hop_attrs(m.order, hops) =~= way_attrs(m.order, p.ifindex, gateway));
    assert(route_attrs(m.order, 0, Some(p.table), None, hops) =~= list);
    assert(route_attrs(m.order, 0, Some(p.table), None, none) =~= base);
    let low = (p.table % 256) as u8;
    assert(route_head(2, Some(p.table), None, hops, 24).bytes(m.order) =~= rt_fixed(
        2,
        0,
        low,
        4,
        way_scope(gateway),
    ));
    assert(route_head(2, Some(p.table), None, none, 25).bytes(m.order) =~= rt_fixed(
        2,
        0,
        low,
        0,
        0,
    ));
    lemma_request(m, 24, 0x505, rt_fixed(2, 0, low, 4, way_scope(gateway)), list);
    lemma_request(m, 25, 0x005, rt_fixed(2, 0, low, 0, 0), base);
}

/// The fixed part of a message about rules.
pub open spec fn rule_fixed() -> Seq<u8> {
    seq![2u8, 0, 0, 0, 0, 0, 0, 1, 0, 0, 0, 0]
}

/// The rule of a probe path sends what leaves through the path's interface to the
/// path's table, with the path's priority and the mark of our rules. Its
/// deletion names the same.
pub proof fn probe_rule_requests(m: MgrView, p: ProbeView)
    requires
        vstd::utf8::encode_utf8(p.ifname).len() <= 60000,
    ensures
        ({
            let list = seq![
                num_attr(m.order, 15, p.table),
                num_attr(m.order, 6, p.priority),
                AttrView { kind: 21, data: seq![0x4Du8] },
                AttrView { kind: 17, data: vstd::utf8::encode_utf8(p.ifname).push(0) },
            ];
            &&& is_request(m, req_probe_rule(m, p), 32, 0x605, rule_fixed(), list)
            &&& is_request(m, req_delete_probe_rule(m, p), 33, 0x005, rule_fixed(), list)
        }),
{
    reveal(req_probe_rule);
    reveal(req_delete_probe_rule);
    let list = seq![
        num_attr(m.order, 15, p.table),
        num_attr(m.order, 6, p.priority),
        AttrView { kind: 21, data: seq![0x4Du8] },
        AttrView { kind: 17, data: vstd::utf8::encode_utf8(p.ifname).push(0) },
    ];
    lemma_zero(m.order);
    lemma_payload(m.order, p.table);
    lemma_payload(m.order, p.priority);
    assert(rule_attrs(m.order, p.table, p.ifname, p.priority, true) =~= list);
    assert(rule_head(2).bytes(m.order) =~= rule_fixed());
    lemma_request(m, 32, 0x605, rule_fixed(), list);
    lemma_request(m, 33, 0x005, rule_fixed(), list);
}

/// The deletion of a leftover rule names its priority and the mark of our rules.
pub proof fn leftover_rule_deletion(m: MgrView, priority: u32)
    ensures
        is_request(
            m,
            req_delete_own_rule(m, priority),
            33,
            0x005,
            rule_fixed(),
            seq![num_attr(m.order, 6, priority), AttrView { kind: 21, data: seq![0x4Du8] }],
        ),
{
    reveal(req_delete_own_rule);
    let list = seq![num_attr(m.order, 6, priority), AttrView { kind: 21, data: seq![0x4Du8] }];
    lemma_zero(m.order);
    lemma_payload(m.order, priority);
    assert(rule_head(2).bytes(m.order) =~= rule_fixed());
    lemma_request(m, 33, 0x005, rule_fixed(), list);
}

/// A query for all routes names the family only; one for the way to an address
/// names the address, and the interface if one is given.
pub proof fn route_queries(m: MgrView, family: u8, dst: Ipv4Addr, oif: Option<u32>)
    ensures
        is_request(
            m,
            req_dump(m, family),
            26,
            0x301,
            rt_fixed(family, 0, 254, 4, 0),
            Seq::empty(),
        ),
        is_request(
            m,
            req_lookup(m, dst, oif),
            26,
            0x001,
            rt_fixed(2, 32, 254, 4, 0),
            seq![AttrView { kind: 1, data: seq![dst.a, dst.b, dst.c, dst.d] }] + (match oif {
                Some(i) => seq![num_attr(m.order, 4, i)],
                None => Seq::empty(),
            }),
        ),
{
    reveal(req_dump);
    reveal(req_lookup);
    let none: Seq<AttrView> = Seq::empty();
    let list = seq![AttrView { kind: 1, data: seq![dst.a, dst.b, dst.c, dst.d] }] + (match oif {
        Some(i) => seq![num_attr(m.order, 4, i)],
        None => Seq::empty(),
    });
    lemma_zero(m.order);
    if let Some(i) = oif {
        lemma_payload(m.order, i);
    }
    assert(getroute_attrs(m.order, None, None) =~= none);
    assert(getroute_attrs(m.order, Some((dst, 32u8)), oif) =~= list);
    assert(getroute_head(family, None).bytes(m.order) =~= rt_fixed(family, 0, 254, 4, 0));
    assert(getroute_head(2, Some((dst, 32u8))).bytes(m.order) =~= rt_fixed(2, 32, 254, 4, 0));
    lemma_request(m, 26, 0x301, rt_fixed(family, 0, 254, 4, 0), none);
    lemma_request(m, 26, 0x001, rt_fixed(2, 32, 254, 4, 0), list);
}

/// A nexthop object has the given identifier, interface and gateway.
pub proof fn nexthop_request(m: MgrView, family: u8, id: u32, hop: HopView)
    requires
        hop.gateway matches Some(g) ==> g.len() <= 16,
    ensures
        is_request(
            m,
            req_nexthop(m, family, id, hop),
            104,
            0x505,
            seq![family, 0, 4, 0, 0, 0, 0, 0],
            seq![num_attr(m.order, 1, id), num_attr(m.order, 5, hop.ifindex)] + (
            match hop.gateway {
                Some(g) => seq![AttrView { kind: 6, data: g }],
                None => Seq::empty(),
            }),
        ),
{
    reveal(req_nexthop);
    let list = seq![num_attr(m.order, 1, id), num_attr(m.order, 5, hop.ifindex)] + (
    match hop.gateway {
        Some(g) => seq![AttrView { kind: 6, data: g }],
        None => Seq::empty(),
    });
    let fixed = seq![family, 0u8, 4, 0, 0, 0, 0, 0];
    lemma_zero(m.order);
    lemma_payload(m.order, id);
    lemma_payload(m.order, hop.ifindex);
    assert(nexthop_attrs(m.order, id, hop.ifindex, hop.gateway) =~= list);
    assert(nexthop_head(family).bytes(m.order) =~= fixed);
    lemma_request(m, 104, 0x505, fixed, list);
}

/// The weight that the kernel can hold: from 1 to 256.
pub open spec fn held(weight: u32) -> int {
    if weight == 0 {
        1
    } else if weight >= 256 {
        256
    } else {
        weight as int
    }
}

/// Whether eight bytes are the member of a group: its identifier, and its weight
/// less one.
pub open spec fn is_member(order: ByteOrder, s: Seq<u8>, member: (u32, u32)) -> bool {
    &&& s.len() == 8
    &&& u32_at(order, s, 0) == member.0
    &&& s[4] == held(member.1) - 1
}

proof fn lemma_members(order: ByteOrder, members: Seq<(u32, u32)>)
    ensures
        group_bytes(order, members).len() == 8 * members.len(),
        forall|i: int|
            0 <= i < members.len() ==> is_member(
                order,
                group_bytes(order, members).subrange(8 * i, 8 * i + 8),
                #[trigger] members[i],
            ),
    decreases members.len(),
{
    if members.len() > 0 {
        let init = members.drop_last();
        lemma_members(order, init);
        let all = group_bytes(order, members);
        let rest = group_bytes(order, init);
        let last = members.last();
        assert forall|i: int| 0 <= i < members.len() implies is_member(
            order,
            all.subrange(8 * i, 8 * i + 8),
            #[trigger] members[i],
        ) by {
            if i < init.len() {
                assert(init[i] == members[i]);
                assert(all.subrange(8 * i, 8 * i + 8) =~= rest.subrange(8 * i, 8 * i + 8));
            } else {
                lemma_one_member(order, last.0, last.1, rest);
            }
        }
    }
}

proof fn lemma_one_member(order: ByteOrder, id: u32, weight: u32, rest: Seq<u8>)
    ensures
        ({
            let one = NextHopGrp {
                id,
                weight: (crate::netlink::route::clamped_weight(weight) - 1) as u8,
                resvd1: 0,
                resvd2: 0,
            }.bytes(order);
            &&& one.len() == 8
            &&& is_member(
                order,
                (rest + one).subrange(rest.len() as int, rest.len() as int + 8),
                (id, weight),
            )
        }),
{
    let one = NextHopGrp {
        id,
        weight: (crate::netlink::route::clamped_weight(weight) - 1) as u8,
        resvd1: 0,
        resvd2: 0,
    }.bytes(order);
    u32_round_trip(order, id);
    assert((rest + one).subrange(rest.len() as int, rest.len() as int + 8) =~= one);
    assert(u32_at(order, one, 0) == id);
}

/// The resilient group of a family holds each member with its weight, in order,
/// and is told its type and the number of its buckets.
pub proof fn group_request(m: MgrView, family: u8, members: Seq<(u32, u32)>)
    requires
        family == 2 || family == 10,
        members.len() <= 8191,
    ensures
        ({
            let msg = req_group(m, family, members);
            let list = attrs(m.order, msg.skip(24));
            let group: u32 = if family == 10 {
                0xFFFF_FF01
            } else {
                0xFFFF_FF00
            };
            &&& is_request(m, msg, 104, 0x505, seq![0, 0, 4, 0, 0, 0, 0, 0], list)
            &&& list.len() == 4
            &&& list[0] == num_attr(m.order, 1, group)
            &&& list[1] == AttrView { kind: 3, data: u16_bytes(m.order, 1) }
            &&& list[2].kind == 2
            &&& list[2].data.len() == 8 * members.len()
            &&& forall|i: int|
                0 <= i < members.len() ==> is_member(
                    m.order,
                    list[2].data.subrange(8 * i, 8 * i + 8),
                    #[trigger] members[i],
                )
            &&& list[3] == AttrView {
                kind: 0x800c,
                data: attr_bytes(
                    m.order,
                    1,
                    u16_bytes(m.order, bucket_count(members.len() as int)),
                ),
            }
        }),
{
    reveal(req_group);
    let group: u32 = if family == 10 {
        0xFFFF_FF01
    } else {
        0xFFFF_FF00
    };
    let fixed = seq![0u8, 0, 4, 0, 0, 0, 0, 0];
    let buckets = Some(bucket_count(members.len() as int));
    let list = group_attrs(m.order, group, members, buckets);
    lemma_zero(m.order);
    groups_fit(m.order, group, members, buckets);
    lemma_members(m.order, members);
    assert(nexthop_head(0).bytes(m.order) =~= fixed);
    lemma_request(m, 104, 0x505, fixed, list);
}

/// A group has the least number of buckets that covers its members, and is a power
/// of two from 8 to 256: with half as many, either the members would not be
/// covered or there would be fewer than 8.
pub proof fn no_more_buckets_than_needed(members: int)
    requires
        members >= 0,
    ensures
        ({
            let n = bucket_count(members);
            &&& n == 8 || n == 16 || n == 32 || n == 64 || n == 128 || n == 256
            &&& members <= n || n == 256
            &&& n == 8 || n < 2 * members
        }),
{
}

/// A way out of a route of several, as the kernel reads it: interface, weight
/// less one, and the gateway, if there is one.
pub open spec fn is_way(
    order: ByteOrder,
    way: (u32, u8, Seq<u8>),
    ifindex: u32,
    weight: u32,
    gateway: Option<Seq<u8>>,
) -> bool {
    &&& way.0 == ifindex
    &&& way.1 + 1 == held(weight)
    &&& way.2 == (match gateway {
        Some(g) => attr_bytes(order, 5, g),
        None => Seq::empty(),
    })
}

/// Whether the default route in a message goes over some ways out, as the kernel
/// reads it: in the main table, with our metric, and each way with its interface,
/// its gateway and its weight.
pub open spec fn goes_over(m: MgrView, msg: Seq<u8>, family: u8, hops: Seq<HopView>) -> bool {
    let list = attrs(m.order, msg.skip(28));
    if hops.len() == 1 {
        is_request(
            m,
            msg,
            24,
            0x505,
            rt_fixed(family, 0, 254, 4, way_scope(hops[0].gateway)),
            seq![num_attr(m.order, 6, m.priority)] + way_attrs(
                m.order,
                hops[0].ifindex,
                hops[0].gateway,
            ),
        )
    } else {
        &&& is_request(m, msg, 24, 0x505, rt_fixed(family, 0, 254, 4, 0), list)
        &&& list.len() == 2
        &&& list[0] == num_attr(m.order, 6, m.priority)
        &&& list[1].kind == 9
        &&& multipath_walk(m.order, list[1].data).len() == hops.len()
        &&& forall|i: int|
            0 <= i < hops.len() ==> is_way(
                m.order,
                multipath_walk(m.order, list[1].data)[i],
                (#[trigger] hops[i]).ifindex,
                hops[i].weight,
                hops[i].gateway,
            )
    }
}

proof fn lemma_goes_over(m: MgrView, family: u8, hops: Seq<HopView>)
    requires
        1 <= hops.len() <= 2340,
        forall|i: int|
            0 <= i < hops.len() ==> ((#[trigger] hops[i]).gateway matches Some(g) ==> g.len()
                <= 16),
    ensures
        goes_over(m, req_standard_route(m, family, hops), family, hops),
{
    reveal(req_standard_route);
    lemma_zero(m.order);
    routes_fit(m.order, m.priority, None, None, hops);
    let list = route_attrs(m.order, m.priority, None, None, hops);
    if hops.len() == 1 {
        let gateway = hops[0].gateway;
        assert(hop_attrs(m.order, hops) =~= way_attrs(m.order, hops[0].ifindex, gateway));
        assert(list =~= seq![num_attr(m.order, 6, m.priority)] + way_attrs(
            m.order,
            hops[0].ifindex,
            gateway,
        ));
        assert(route_head(family, None, None, hops, 24).bytes(m.order) =~= rt_fixed(
            family,
            0,
            254,
            4,
            way_scope(gateway),
        ));
        lemma_request(m, 24, 0x505, rt_fixed(family, 0, 254, 4, way_scope(gateway)), list);
    } else {
        assert(list =~= seq![
            num_attr(m.order, 6, m.priority),
            AttrView { kind: 9, data: multipath_bytes(m.order, hops) },
        ]);
        assert(route_head(family, None, None, hops, 24).bytes(m.order) =~= rt_fixed(
            family,
            0,
            254,
            4,
            0,
        ));
        lemma_request(m, 24, 0x505, rt_fixed(family, 0, 254, 4, 0), list);
        lemma_ways(m.order, hops);
    }
}

proof fn lemma_ways(order: ByteOrder, hops: Seq<HopView>)
    requires
        forall|i: int|
            0 <= i < hops.len() ==> ((#[trigger] hops[i]).gateway matches Some(g) ==> g.len()
                <= 16),
    ensures
        ({
            let walk = multipath_walk(order, multipath_bytes(order, hops));
            &&& walk.len() == hops.len()
            &&& forall|i: int|
                0 <= i < hops.len() ==> is_way(
                    order,
                    walk[i],
                    (#[trigger] hops[i]).ifindex,
                    hops[i].weight,
                    hops[i].gateway,
                )
        }),
{
    let none: Seq<u8> = Seq::empty();
    multipath_is_walkable(order, hops, none);
    assert(multipath_bytes(order, hops) + none =~= multipath_bytes(order, hops));
    assert(multipath_walk(order, none) =~= Seq::empty());
    let walk = multipath_walk(order, multipath_bytes(order, hops));
    assert(walk =~= multipath_view(order, hops));
}

/// The gateway of a line, if it has one: an address of all zeros is none.
pub open spec fn next_router(g: Option<Ipv4Addr>) -> Option<Seq<u8>> {
    match g {
        Some(a) => if a.a == 0 && a.b == 0 && a.c == 0 && a.d == 0 {
            None
        } else {
            Some(seq![a.a, a.b, a.c, a.d])
        },
        None => None,
    }
}

/// Whether some ways out are those of some lines, with their interfaces, gateways
/// and weights.
pub open spec fn ways_of(wans: Seq<ActiveWanRoute>, hops: Seq<HopView>) -> bool {
    &&& hops.len() == wans.len()
    &&& forall|i: int|
        0 <= i < wans.len() ==> {
            &&& (#[trigger] hops[i]).ifindex == wans[i].ifindex
            &&& hops[i].weight == wans[i].weight
            &&& hops[i].gateway == next_router(wans[i].gateway)
        }
}

/// Whether some ways out are those of some IPv6 lines.
pub open spec fn ways_of_v6(wans: Seq<ActiveWanRouteV6>, hops: Seq<HopView>) -> bool {
    &&& hops.len() == wans.len()
    &&& forall|i: int|
        0 <= i < wans.len() ==> {
            &&& (#[trigger] hops[i]).ifindex == wans[i].ifindex
            &&& hops[i].weight == wans[i].weight
            &&& hops[i].gateway == (match wans[i].gateway {
                Some(g) => if forall|k: int| 0 <= k < 16 ==> g@[k] == 0 {
                    None
                } else {
                    Some(g@)
                },
                None => None,
            })
        }
}

/// The ways out over some lines are the lines' own, in order.
pub proof fn ways_out_are_the_lines(wans: Seq<ActiveWanRoute>, wans6: Seq<ActiveWanRouteV6>)
    ensures
        ways_of(wans, v4_hops(wans)),
        ways_of_v6(wans6, v6_hops(wans6)),
        forall|i: int|
            0 <= i < wans6.len() ==> ((#[trigger] v6_hops(wans6)[i]).gateway matches Some(g)
                ==> g.len() == 16),
{
    let hops = v4_hops(wans);
    assert forall|i: int| 0 <= i < wans.len() implies {
        &&& (#[trigger] hops[i]).ifindex == wans[i].ifindex
        &&& hops[i].weight == wans[i].weight
        &&& hops[i].gateway == next_router(wans[i].gateway)
    } by {
        if let Some(a) = wans[i].gateway {
            let zero = seq![0u8, 0, 0, 0];
            if a@ == zero {
                assert(a@[0] == 0 && a@[1] == 0 && a@[2] == 0 && a@[3] == 0);
            } else if a.a == 0 && a.b == 0 && a.c == 0 && a.d == 0 {
                assert(a@ =~= zero);
            }
        }
    }
    let hops6 = v6_hops(wans6);
    let zero6 = Seq::new(16, |i: int| 0u8);
    assert forall|i: int| 0 <= i < wans6.len() implies {
        &&& (#[trigger] hops6[i]).ifindex == wans6[i].ifindex
        &&& hops6[i].weight == wans6[i].weight
        &&& hops6[i].gateway == (match wans6[i].gateway {
            Some(g) => if forall|k: int| 0 <= k < 16 ==> g@[k] == 0 {
                None
            } else {
                Some(g@)
            },
            None => None,
        })
    } by {
        if let Some(g) = wans6[i].gateway {
            assert(g@.len() == 16);
            if forall|k: int| 0 <= k < 16 ==> g@[k] == 0 {
                assert(g@ =~= zero6);
            }
            if g@ == zero6 {
                assert forall|k: int| 0 <= k < 16 implies g@[k] == 0 by {
                    assert(zero6[k] == 0);
                }
            }
        }
    }
}

/// The default route that is sent goes over every active line, and over no other
/// way: with the line's interface, its gateway, and its weight, at least 1 and at
/// most 256.
pub proof fn default_route_goes_over_the_lines(m: MgrView, wans: Seq<ActiveWanRoute>)
    requires
        1 <= wans.len() <= 2340,
    ensures
        ({
            let hops = v4_hops(wans);
            &&& ways_of(wans, hops)
            &&& goes_over(m, req_standard_route(m, 2, hops), 2, hops)
        }),
{
    ways_out_are_the_lines(wans, Seq::empty());
    lemma_goes_over(m, 2, v4_hops(wans));
}

/// The same of IPv6.
pub proof fn default_route_goes_over_the_lines_v6(m: MgrView, wans: Seq<ActiveWanRouteV6>)
    requires
        1 <= wans.len() <= 2340,
    ensures
        ({
            let hops = v6_hops(wans);
            &&& ways_of_v6(wans, hops)
            &&& goes_over(m, req_standard_route(m, 10, hops), 10, hops)
        }),
{
    ways_out_are_the_lines(Seq::empty(), wans);
    lemma_goes_over(m, 10, v6_hops(wans));
}

/// What is configured of a line reaches the kernel: two lists of several lines
/// that differ at some place in the interface, or in the weight within 1 to 256,
/// give different requests.
pub proof fn different_lines_give_different_requests(
    m: MgrView,
    a: Seq<ActiveWanRoute>,
    b: Seq<ActiveWanRoute>,
    i: int,
)
    requires
        2 <= a.len() <= 2340,
        2 <= b.len() <= 2340,
        0 <= i < a.len(),
        0 <= i < b.len(),
        a[i].ifindex != b[i].ifindex || (a[i].weight != b[i].weight && 1 <= a[i].weight <= 256
            && 1 <= b[i].weight <= 256),
    ensures
        req_standard_route(m, 2, v4_hops(a)) != req_standard_route(m, 2, v4_hops(b)),
{
    default_route_goes_over_the_lines(m, a);
    default_route_goes_over_the_lines(m, b);
    let x = v4_hops(a)[i];
    let y = v4_hops(b)[i];
}

/// The same of IPv6.
pub proof fn different_lines_give_different_requests_v6(
    m: MgrView,
    a: Seq<ActiveWanRouteV6>,
    b: Seq<ActiveWanRouteV6>,
    i: int,
)
    requires
        2 <= a.len() <= 2340,
        2 <= b.len() <= 2340,
        0 <= i < a.len(),
        0 <= i < b.len(),
        a[i].ifindex != b[i].ifindex || (a[i].weight != b[i].weight && 1 <= a[i].weight <= 256
            && 1 <= b[i].weight <= 256),
    ensures
        req_standard_route(m, 10, v6_hops(a)) != req_standard_route(m, 10, v6_hops(b)),
{
    default_route_goes_over_the_lines_v6(m, a);
    default_route_goes_over_the_lines_v6(m, b);
    let x = v6_hops(a)[i];
    let y = v6_hops(b)[i];
}

/// A list of one attribute, or of none.
pub open spec fn attr_if(kind: u16, data: Option<Seq<u8>>) -> Seq<AttrView> {
    match data {
        Some(d) => seq![AttrView { kind, data: d }],
        None => Seq::empty(),
    }
}

/// The attributes of a route stand in this order: the table, if one is named, the
/// destination, if there is one, the metric, and the ways out. A single way out is
/// a gateway and an interface, several are one attribute, none is nothing.
pub proof fn layout_of_a_route(
    order: ByteOrder,
    metric: u32,
    table: Option<u32>,
    dst: Option<(Seq<u8>, u8)>,
    hops: Seq<HopView>,
)
    ensures
        ({
            let number = match table {
                Some(t) => Some(u32_bytes(order, t)),
                None => None,
            };
            let address = match dst {
                Some(d) => Some(d.0),
                None => None,
            };
            let ways = if hops.len() == 0 {
                Seq::empty()
            } else if hops.len() == 1 {
                attr_if(5, hops[0].gateway) + seq![num_attr(order, 4, hops[0].ifindex)]
            } else {
                seq![AttrView { kind: 9, data: multipath_bytes(order, hops) }]
            };
            route_attrs(order, metric, table, dst, hops) == attr_if(15, number) + attr_if(1, address)
                + seq![num_attr(order, 6, metric)] + ways
        }),
{
    if hops.len() == 1 {
        assert(hop_attrs(order, hops) =~= attr_if(5, hops[0].gateway) + seq![
            num_attr(order, 4, hops[0].ifindex),
        ]);
    }
}

/// The fixed part of a route message: the family, the length of the destination,
/// the low byte of the table or the main table, static origin unless it is a
/// deletion, and link scope for a single way out without a gateway.
pub proof fn fixed_part_of_a_route(
    order: ByteOrder,
    family: u8,
    table: Option<u32>,
    dst: Option<(Seq<u8>, u8)>,
    hops: Seq<HopView>,
    kind: u16,
)
    ensures
        route_head(family, table, dst, hops, kind).bytes(order) == rt_fixed(
            family,
            (match dst {
                Some(d) => d.1,
                None => 0,
            }),
            (match table {
                Some(t) => (t % 256) as u8,
                None => 254,
            }),
            (if kind == 25 {
                0
            } else {
                4
            }),
            (if hops.len() == 1 && hops[0].gateway is None {
                253
            } else {
                0
            }),
        ),
{
    lemma_zero(order);
    let low = match table {
        Some(t) => (t % 256) as u8,
        None => 254u8,
    };
    let len = match dst {
        Some(d) => d.1,
        None => 0u8,
    };
    let origin: u8 = if kind == 25 {
        0
    } else {
        4
    };
    let scope: u8 = if hops.len() == 1 && hops[0].gateway is None {
        253
    } else {
        0
    };
    assert(route_head(family, table, dst, hops, kind).bytes(order) =~= rt_fixed(
        family,
        len,
        low,
        origin,
        scope,
    ));
}

/// A rule names its table, its priority and our mark; and the interface that
/// packets leave through, or the one that they come in by.
pub proof fn layout_of_a_rule(
    order: ByteOrder,
    table: u32,
    name: Seq<char>,
    priority: u32,
    output: bool,
)
    ensures
        rule_attrs(order, table, name, priority, output) == seq![
            num_attr(order, 15, table),
            num_attr(order, 6, priority),
            AttrView { kind: 21, data: seq![0x4Du8] },
            AttrView {
                kind: if output {
                    17
                } else {
                    3
                },
                data: vstd::utf8::encode_utf8(name).push(0),
            },
        ],
{
    let kind: u16 = if output {
        17
    } else {
        3
    };
    assert(rule_attrs(order, table, name, priority, output) =~= seq![
        num_attr(order, 15, table),
        num_attr(order, 6, priority),
        AttrView { kind: 21, data: seq![0x4Du8] },
        AttrView { kind, data: vstd::utf8::encode_utf8(name).push(0) },
    ]);
}

/// A plain group names its identifier and its members; a resilient one its type
/// and its buckets as well.
pub proof fn layout_of_a_group(
    order: ByteOrder,
    id: u32,
    members: Seq<(u32, u32)>,
    buckets: Option<u16>,
)
    ensures
        ({
            let list = group_attrs(order, id, members, buckets);
            let held_members = AttrView { kind: 2, data: group_bytes(order, members) };
            match buckets {
                None => list == seq![num_attr(order, 1, id), held_members],
                Some(n) => list == seq![
                    num_attr(order, 1, id),
                    AttrView { kind: 3, data: u16_bytes(order, 1) },
                    held_members,
                    AttrView {
                        kind: 0x800c,
                        data: attr_bytes(order, 1, u16_bytes(order, n)),
                    },
                ],
            }
        }),
{
    let list = group_attrs(order, id, members, buckets);
    let held_members = AttrView { kind: 2, data: group_bytes(order, members) };
    match buckets {
        None => {
            assert(list =~= seq![num_attr(order, 1, id), held_members]);
        },
        Some(n) => {
            assert(list =~= seq![
                num_attr(order, 1, id),
                AttrView { kind: 3, data: u16_bytes(order, 1) },
                held_members,
                AttrView { kind: 0x800c, data: attr_bytes(order, 1, u16_bytes(order, n)) },
            ]);
        },
    }
}

} // verus!
