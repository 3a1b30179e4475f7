//! What is written can be read: the kernel, and the readers here, find in every
//! message what was put in it.
use crate::addr::Ipv4Addr;
use crate::netlink::message::{after_attr, attr_bytes, attr_bytes_aligned, attrs, last_attr, message,
    stream_bytes, stream_bytes_aligned, stream_round_trip, AttrView};
use crate::netlink::reply::{default_route, host_route, payload_u32, payload_v4, route_attrs_of,
    route_reply, table_of, RouteLookup};
use crate::netlink::route::{clamped_weight, getroute_attrs, getroute_head, getroute_msg,
    group_attrs, group_bytes, group_msg, hop_attrs, hop_bytes, multipath_bytes, nexthop_attrs,
    nexthop_del_msg, nexthop_head, nexthop_msg, own_rule_del_msg, route_attrs, route_head,
    route_msg, rule_attrs, rule_head, rule_msg, via_nh_attrs, via_nh_msg, HopView, RtNextHop,
    AF_INET, AF_UNSPEC, FLAGS_DELETE, FLAGS_DUMP, FRA_PRIORITY, FRA_PROTOCOL, NEXTHOP_GRP_TYPE_RES,
    NHA_ID, NHA_RES_GROUP_BUCKETS, NLM_F_REQUEST, PROBE_RULE_PROTOCOL, RTA_DST, RTA_GATEWAY,
    RTA_OIF, RTA_PRIORITY, RTA_TABLE, RTM_DELNEXTHOP, RTM_DELROUTE, RTM_DELRULE, RTM_GETROUTE,
    RT_TABLE_MAIN};
use crate::netlink::util::{header_round_trip, signed, signed_round_trip, u16_at, u16_bytes,
    u16_round_trip, u32_at, u32_bytes, u32_round_trip, ByteOrder, NlMsgHdr};
use vstd::prelude::*;

verus! {

/// Whether each attribute of a list fits its length field.
pub open spec fn attrs_fit(list: Seq<AttrView>) -> bool {
    forall|i: int| 0 <= i < list.len() ==> 4 + (#[trigger] list[i]).data.len() < 65536
}

/// Whether a message says of itself what it is: type, flags, number, and its own
/// length, a multiple of four.
pub open spec fn header_says(order: ByteOrder, msg: Seq<u8>, msg_type: u16, flags: u16, seq: u32) -> bool {
    &&& NlMsgHdr::at(order, msg) == NlMsgHdr {
        nlmsg_len: msg.len() as u32,
        nlmsg_type: msg_type,
        nlmsg_flags: flags,
        nlmsg_seq: seq,
        nlmsg_pid: 0,
    }
    &&& msg.len() % 4 == 0
}

/// A message made of a fixed part and attributes says what it is, and its
/// attributes are read back.
pub proof fn message_round_trip(
    order: ByteOrder,
    msg_type: u16,
    flags: u16,
    seq: u32,
    head: Seq<u8>,
    list: Seq<AttrView>,
)
    requires
        head.len() % 4 == 0,
        attrs_fit(list),
        16 + head.len() + stream_bytes(order, list).len() <= u32::MAX,
    ensures
        ({
            let msg = message(order, msg_type, flags, seq, head + stream_bytes(order, list));
            &&& header_says(order, msg, msg_type, flags, seq)
            &&& msg.len() >= 16 + head.len()
            &&& attrs(order, msg.skip(16 + head.len() as int)) == list
        }),
{
    let stream = stream_bytes(order, list);
    stream_round_trip(order, list);
    stream_bytes_aligned(order, list);
    lemma_header(order, msg_type, flags, seq, head, stream);
    lemma_multiple_of_four(head.len() as int, stream.len() as int);
}

proof fn lemma_multiple_of_four(a: int, b: int)
    requires
        a % 4 == 0,
        b % 4 == 0,
    ensures
        (16 + a + b) % 4 == 0,
{
}

/// A message says what it is, and its parts are where they belong.
pub proof fn lemma_header(
    order: ByteOrder,
    msg_type: u16,
    flags: u16,
    seq: u32,
    head: Seq<u8>,
    stream: Seq<u8>,
)
    requires
        16 + head.len() + stream.len() <= u32::MAX,
    ensures
        ({
            let msg = message(order, msg_type, flags, seq, head + stream);
            &&& msg.len() == 16 + head.len() + stream.len()
            &&& NlMsgHdr::at(order, msg) == NlMsgHdr {
                nlmsg_len: msg.len() as u32,
                nlmsg_type: msg_type,
                nlmsg_flags: flags,
                nlmsg_seq: seq,
                nlmsg_pid: 0,
            }
            &&& msg.skip(16 + head.len() as int) == stream
            &&& msg.subrange(16, 16 + head.len() as int) == head
        }),
{
    reveal(message);
    let body = head + stream;
    let h = NlMsgHdr {
        nlmsg_len: ((16 + body.len()) % 0x1_0000_0000) as u32,
        nlmsg_type: msg_type,
        nlmsg_flags: flags,
        nlmsg_seq: seq,
        nlmsg_pid: 0,
    };
    header_round_trip(order, h, body);
    lemma_parts(h.bytes(order), head, stream);
}

proof fn lemma_parts(hb: Seq<u8>, head: Seq<u8>, stream: Seq<u8>)
    requires
        hb.len() == 16,
    ensures
        (hb + (head + stream)).skip(16 + head.len() as int) == stream,
        (hb + (head + stream)).subrange(16, 16 + head.len() as int) == head,
        (hb + (head + stream)).len() == 16 + head.len() + stream.len(),
{
    assert((hb + (head + stream)).skip(16 + head.len() as int) =~= stream);
    assert((hb + (head + stream)).subrange(16, 16 + head.len() as int) =~= head);
}

/// How long an encoded list can be.
proof fn lemma_stream_len(order: ByteOrder, list: Seq<AttrView>, most: nat)
    requires
        forall|i: int| 0 <= i < list.len() ==> (#[trigger] list[i]).data.len() <= most,
    ensures
        stream_bytes(order, list).len() <= list.len() * (most + 7),
    decreases list.len(),
{
    if list.len() > 0 {
        let tail = list.drop_first();
        assert forall|i: int| 0 <= i < tail.len() implies (#[trigger] tail[i]).data.len()
            <= most by {
            assert(tail[i] == list[i + 1]);
        }
        lemma_stream_len(order, tail, most);
        assert(list.len() * (most + 7) == tail.len() * (most + 7) + (most + 7))
            by (nonlinear_arith)
            requires
                list.len() == tail.len() + 1,
        ;
    }
}

pub proof fn lemma_short_list(order: ByteOrder, list: Seq<AttrView>)
    requires
        list.len() <= 8,
        attrs_fit(list),
    ensures
        stream_bytes(order, list).len() <= 600000,
{
    lemma_stream_len(order, list, 65532);
    assert(list.len() * (65532 + 7) <= 600000) by (nonlinear_arith)
        requires
            list.len() <= 8,
    ;
}

/// Whether the gateways of a route are no longer than addresses are.
pub open spec fn gateways_fit(hops: Seq<HopView>) -> bool {
    forall|i: int|
        0 <= i < hops.len() ==> ((#[trigger] hops[i]).gateway matches Some(g) ==> g.len() <= 16)
}

proof fn lemma_multipath_len(order: ByteOrder, hops: Seq<HopView>)
    requires
        gateways_fit(hops),
    ensures
        multipath_bytes(order, hops).len() <= 28 * hops.len(),
    decreases hops.len(),
{
    if hops.len() > 0 {
        let init = hops.drop_last();
        assert forall|i: int| 0 <= i < init.len() implies ((#[trigger] init[i]).gateway matches Some(
            g,
        ) ==> g.len() <= 16) by {
            assert(init[i] == hops[i]);
        }
        lemma_multipath_len(order, init);
        reveal(hop_bytes);
        if let Some(g) = hops.last().gateway {
            attr_bytes_aligned(order, RTA_GATEWAY, g);
        }
    }
}

/// The attributes of a route fit their length fields, up to 2340 ways out.
pub proof fn routes_fit(
    order: ByteOrder,
    priority: u32,
    table: Option<u32>,
    dst: Option<(Seq<u8>, u8)>,
    hops: Seq<HopView>,
)
    requires
        gateways_fit(hops),
        hops.len() <= 2340,
        dst matches Some(d) ==> d.0.len() <= 16,
    ensures
        attrs_fit(route_attrs(order, priority, table, dst, hops)),
{
    lemma_multipath_len(order, hops);
    let list = route_attrs(order, priority, table, dst, hops);
    let tail = hop_attrs(order, hops);
    assert forall|i: int| 0 <= i < tail.len() implies 4 + (#[trigger] tail[i]).data.len()
        < 65536 by {}
}

/// A route message says what it is, and its attributes are read back.
pub proof fn route_msg_round_trip(
    order: ByteOrder,
    priority: u32,
    family: u8,
    table: Option<u32>,
    dst: Option<(Seq<u8>, u8)>,
    hops: Seq<HopView>,
    msg_type: u16,
    flags: u16,
    seq: u32,
)
    requires
        attrs_fit(route_attrs(order, priority, table, dst, hops)),
    ensures
        ({
            let msg = route_msg(
                order,
                priority,
                family,
                table,
                dst,
                hops,
                msg_type,
                flags,
                seq,
            );
            &&& header_says(order, msg, msg_type, flags, seq)
            &&& msg.len() >= 28
            &&& route_attrs_of(order, msg) == route_attrs(order, priority, table, dst, hops)
            &&& msg.subrange(16, 28) == route_head(family, table, dst, hops, msg_type).bytes(order)
        }),
{
    let list = route_attrs(order, priority, table, dst, hops);
    lemma_short_list(order, list);
    let head = route_head(family, table, dst, hops, msg_type).bytes(order);
    assert(head.len() == 12);
    message_round_trip(order, msg_type, flags, seq, head, list);
    let msg = route_msg(order, priority, family, table, dst, hops, msg_type, flags, seq);
    lemma_header(order, msg_type, flags, seq, head, stream_bytes(order, list));
}

/// The fields of the fixed part of a route message that readers look at.
proof fn lemma_head_fields(
    order: ByteOrder,
    family: u8,
    table: Option<u32>,
    dst: Option<(Seq<u8>, u8)>,
    hops: Seq<HopView>,
    msg_type: u16,
    msg: Seq<u8>,
)
    requires
        msg.len() >= 28,
        msg.subrange(16, 28) == route_head(family, table, dst, hops, msg_type).bytes(order),
    ensures
        msg[16] == family,
        msg[17] == (match dst {
            Some(d) => d.1,
            None => 0,
        }),
        msg[20] == (match table {
            Some(t) => (t % 256) as u8,
            None => RT_TABLE_MAIN,
        }),
{
    let head = route_head(family, table, dst, hops, msg_type).bytes(order);
    assert(msg[16] == msg.subrange(16, 28)[0]);
    assert(msg[17] == msg.subrange(16, 28)[1]);
    assert(msg[20] == msg.subrange(16, 28)[4]);
    assert(head[1] == route_head(family, table, dst, hops, msg_type).rtm_dst_len);
    assert(head[4] == route_head(family, table, dst, hops, msg_type).rtm_table);
}

pub proof fn lemma_payload(order: ByteOrder, v: u32)
    ensures
        payload_u32(order, Some(u32_bytes(order, v))) == Some(v),
        u32_bytes(order, v).len() == 4,
{
    u32_round_trip(order, v);
}

/// What the reader of route messages makes of the attributes of a route with at
/// most one way out.
proof fn lemma_read_attrs(
    order: ByteOrder,
    priority: u32,
    table: Option<u32>,
    dst: Option<(Seq<u8>, u8)>,
    hops: Seq<HopView>,
)
    requires
        hops.len() <= 1,
    ensures
        ({
            let list = route_attrs(order, priority, table, dst, hops);
            &&& last_attr(list, RTA_PRIORITY, 0, 65535) == Some(u32_bytes(order, priority))
            &&& last_attr(list, RTA_TABLE, 4, 65535) == (match table {
                Some(t) => Some(u32_bytes(order, t)),
                None => None,
            })
            &&& last_attr(list, RTA_DST, 4, 4) == (match dst {
                Some(d) if d.0.len() == 4 => Some(d.0),
                _ => None,
            })
            &&& last_attr(list, RTA_OIF, 0, 65535) == (if hops.len() == 1 {
                Some(u32_bytes(order, hops[0].ifindex))
            } else {
                None
            })
            &&& last_attr(list, RTA_GATEWAY, 4, 4) == (if hops.len() == 1 {
                match hops[0].gateway {
                    Some(g) if g.len() == 4 => Some(g),
                    _ => None,
                }
            } else {
                None
            })
        }),
{
    let list = route_attrs(order, priority, table, dst, hops);
    reveal_with_fuel(last_attr, 6);
    lemma_payload(order, priority);
    if let Some(t) = table {
        lemma_payload(order, t);
    }
    let l1 = list.drop_last();
    let l2 = l1.drop_last();
    let l3 = l2.drop_last();
    let l4 = l3.drop_last();
    let l5 = l4.drop_last();
    if list.len() >= 1 {
        assert(list.last() == list[list.len() - 1]);
    }
    if list.len() >= 2 {
        assert(l1.last() == list[list.len() - 2]);
    }
    if list.len() >= 3 {
        assert(l2.last() == list[list.len() - 3]);
    }
    if list.len() >= 4 {
        assert(l3.last() == list[list.len() - 4]);
    }
    if list.len() >= 5 {
        assert(l4.last() == list[list.len() - 5]);
    }
}

/// Looking at a message for a route with one way out, the reader finds that way
/// out and the table.
pub proof fn route_is_read_back(
    order: ByteOrder,
    priority: u32,
    family: u8,
    table: Option<u32>,
    dst: Option<(Seq<u8>, u8)>,
    hop: HopView,
    msg_type: u16,
    flags: u16,
    seq: u32,
)
    requires
        hop.gateway matches Some(g) ==> g.len() <= 16,
        dst matches Some(d) ==> d.0.len() <= 16,
    ensures
        ({
            let msg = route_msg(
                order,
                priority,
                family,
                table,
                dst,
                seq![hop],
                msg_type,
                flags,
                seq,
            );
            route_reply(order, msg) == Some(
                RouteLookup {
                    ifindex: Some(hop.ifindex),
                    gateway: match hop.gateway {
                        Some(g) if g.len() == 4 => payload_v4(Some(g)),
                        _ => None,
                    },
                    table: match table {
                        Some(t) => t,
                        None => RT_TABLE_MAIN as u32,
                    },
                },
            )
        }),
{
    let hops = seq![hop];
    routes_fit(order, priority, table, dst, hops);
    route_msg_round_trip(order, priority, family, table, dst, hops, msg_type, flags, seq);
    lemma_read_attrs(order, priority, table, dst, hops);
    lemma_payload(order, hop.ifindex);
    if let Some(t) = table {
        lemma_payload(order, t);
    }
    let msg = route_msg(order, priority, family, table, dst, hops, msg_type, flags, seq);
    lemma_head_fields(order, family, table, dst, hops, msg_type, msg);
}

/// A sweep finds every host route that is put in the main table here: a message
/// that describes such a route is recognised by its metric.
pub proof fn sweep_finds_host_routes(
    order: ByteOrder,
    metric: u32,
    dst: Ipv4Addr,
    hop: HopView,
    msg_type: u16,
    flags: u16,
    seq: u32,
)
    requires
        hop.gateway matches Some(g) ==> g.len() <= 16,
    ensures
        ({
            let msg = route_msg(
                order,
                metric,
                AF_INET,
                None,
                Some((dst@, 32u8)),
                seq![hop],
                msg_type,
                flags,
                seq,
            );
            forall|m: u32| #[trigger]
                host_route(order, msg, m) == (if m == metric {
                    Some((RT_TABLE_MAIN as u32, dst, 32u8))
                } else {
                    None
                })
        }),
{
    let hops = seq![hop];
    let d = Some((dst@, 32u8));
    let af = AF_INET;
    route_msg_round_trip(order, metric, af, None, d, hops, msg_type, flags, seq);
    lemma_read_attrs(order, metric, None, d, hops);
    lemma_payload(order, metric);
    let msg = route_msg(order, metric, af, None, d, hops, msg_type, flags, seq);
    lemma_head_fields(order, af, None, d, hops, msg_type, msg);
    assert(payload_v4(Some(dst@)) == Some(dst));
}

/// A dump shows the default route that is made here, with our metric, and no
/// route of a probe table is taken for it.
pub proof fn dump_shows_default_route(
    order: ByteOrder,
    priority: u32,
    family: u8,
    table: Option<u32>,
    hop: HopView,
    msg_type: u16,
    flags: u16,
    seq: u32,
)
    requires
        hop.gateway matches Some(g) ==> g.len() <= 16,
        table matches Some(t) ==> t != RT_TABLE_MAIN as u32,
    ensures
        default_route(
            order,
            route_msg(order, priority, family, table, None, seq![hop], msg_type, flags, seq),
        ) == (match table {
            None => Some((RT_TABLE_MAIN as u32, priority)),
            Some(_) => None,
        }),
{
    let hops = seq![hop];
    route_msg_round_trip(order, priority, family, table, None, hops, msg_type, flags, seq);
    lemma_read_attrs(order, priority, table, None, hops);
    lemma_payload(order, priority);
    if let Some(t) = table {
        lemma_payload(order, t);
    }
    let msg = route_msg(order, priority, family, table, None, hops, msg_type, flags, seq);
    lemma_head_fields(order, family, table, None, hops, msg_type, msg);
}

/// A message about a nexthop object says what it is, and is read back.
pub proof fn nexthop_msg_round_trip(
    order: ByteOrder,
    seq: u32,
    family: u8,
    id: u32,
    ifindex: u32,
    gateway: Option<Seq<u8>>,
    msg_type: u16,
    flags: u16,
)
    requires
        gateway matches Some(g) ==> g.len() <= 16,
    ensures
        ({
            let msg = nexthop_msg(order, seq, family, id, ifindex, gateway, msg_type, flags);
            &&& header_says(order, msg, msg_type, flags, seq)
            &&& msg.len() >= 24
            &&& attrs(order, msg.skip(24)) == nexthop_attrs(order, id, ifindex, gateway)
        }),
{
    let list = nexthop_attrs(order, id, ifindex, gateway);
    lemma_payload(order, id);
    lemma_payload(order, ifindex);
    assert(attrs_fit(list));
    lemma_short_list(order, list);
    message_round_trip(order, msg_type, flags, seq, nexthop_head(family).bytes(order), list);
}

/// A deletion of a nexthop object carries its identifier and nothing else.
pub proof fn nexthop_del_msg_round_trip(order: ByteOrder, seq: u32, family: u8, id: u32)
    ensures
        ({
            let msg = nexthop_del_msg(order, seq, family, id);
            &&& header_says(
                order,
                msg,
                RTM_DELNEXTHOP,
                FLAGS_DELETE,
                seq,
            )
            &&& msg.len() >= 24
            &&& attrs(order, msg.skip(24)) == seq![
                AttrView { kind: NHA_ID, data: u32_bytes(order, id) },
            ]
        }),
{
    let list = seq![AttrView { kind: NHA_ID, data: u32_bytes(order, id) }];
    lemma_payload(order, id);
    assert(attrs_fit(list));
    lemma_short_list(order, list);
    message_round_trip(
        order,
        RTM_DELNEXTHOP,
        FLAGS_DELETE,
        seq,
        nexthop_head(family).bytes(order),
        list,
    );
}

proof fn lemma_group_len(order: ByteOrder, members: Seq<(u32, u32)>)
    ensures
        group_bytes(order, members).len() == 8 * members.len(),
    decreases members.len(),
{
    if members.len() > 0 {
        lemma_group_len(order, members.drop_last());
    }
}

/// The attributes of a group fit their length fields, up to 8191 members.
pub proof fn groups_fit(
    order: ByteOrder,
    group_id: u32,
    members: Seq<(u32, u32)>,
    buckets: Option<u16>,
)
    requires
        members.len() <= 8191,
    ensures
        attrs_fit(group_attrs(order, group_id, members, buckets)),
{
    lemma_group_len(order, members);
    lemma_payload(order, group_id);
    if let Some(n) = buckets {
        u16_round_trip(order, n);
        attr_bytes_aligned(order, NHA_RES_GROUP_BUCKETS, u16_bytes(order, n));
    }
    u16_round_trip(order, NEXTHOP_GRP_TYPE_RES);
}

/// A message about a group says what it is, and is read back.
pub proof fn group_msg_round_trip(
    order: ByteOrder,
    seq: u32,
    group_id: u32,
    members: Seq<(u32, u32)>,
    buckets: Option<u16>,
    msg_type: u16,
    flags: u16,
)
    requires
        attrs_fit(group_attrs(order, group_id, members, buckets)),
    ensures
        ({
            let msg = group_msg(order, seq, group_id, members, buckets, msg_type, flags);
            &&& header_says(order, msg, msg_type, flags, seq)
            &&& msg.len() >= 24
            &&& attrs(order, msg.skip(24)) == group_attrs(order, group_id, members, buckets)
        }),
{
    let list = group_attrs(order, group_id, members, buckets);
    lemma_short_list(order, list);
    message_round_trip(
        order,
        msg_type,
        flags,
        seq,
        nexthop_head(AF_UNSPEC).bytes(order),
        list,
    );
}

/// A message about a default route that points at a group says what it is, and
/// is read back.
pub proof fn via_nh_msg_round_trip(
    order: ByteOrder,
    priority: u32,
    family: u8,
    nh_id: u32,
    msg_type: u16,
    flags: u16,
    seq: u32,
)
    ensures
        ({
            let msg = via_nh_msg(order, priority, family, nh_id, msg_type, flags, seq);
            &&& header_says(order, msg, msg_type, flags, seq)
            &&& msg.len() >= 28
            &&& route_attrs_of(order, msg) == via_nh_attrs(order, priority, nh_id)
        }),
{
    let list = via_nh_attrs(order, priority, nh_id);
    lemma_payload(order, priority);
    lemma_payload(order, nh_id);
    assert(attrs_fit(list));
    lemma_short_list(order, list);
    message_round_trip(
        order,
        msg_type,
        flags,
        seq,
        route_head(family, None, None, Seq::empty(), msg_type).bytes(order),
        list,
    );
}

/// A rule message says what it is, and is read back. The deletion of a rule
/// carries the attributes of its creation: the kernel compares them.
pub proof fn rule_msg_round_trip(
    order: ByteOrder,
    seq: u32,
    family: u8,
    table: u32,
    ifname: Seq<char>,
    priority: u32,
    output: bool,
    msg_type: u16,
    flags: u16,
)
    requires
        attrs_fit(rule_attrs(order, table, ifname, priority, output)),
    ensures
        ({
            let msg = rule_msg(
                order,
                seq,
                family,
                table,
                ifname,
                priority,
                output,
                msg_type,
                flags,
            );
            &&& header_says(order, msg, msg_type, flags, seq)
            &&& msg.len() >= 28
            &&& attrs(order, msg.skip(28)) == rule_attrs(order, table, ifname, priority, output)
        }),
{
    let list = rule_attrs(order, table, ifname, priority, output);
    lemma_short_list(order, list);
    message_round_trip(order, msg_type, flags, seq, rule_head(family).bytes(order), list);
}

/// The sweep of leftover rules spares the rules of others: each deletion carries
/// the mark of our rules besides the priority, and the kernel compares both.
pub proof fn own_rule_del_msg_round_trip(order: ByteOrder, seq: u32, priority: u32)
    ensures
        ({
            let msg = own_rule_del_msg(order, seq, priority);
            &&& header_says(order, msg, RTM_DELRULE, FLAGS_DELETE, seq)
            &&& msg.len() >= 28
            &&& attrs(order, msg.skip(28)) == seq![
                AttrView { kind: FRA_PRIORITY, data: u32_bytes(order, priority) },
                AttrView { kind: FRA_PROTOCOL, data: seq![PROBE_RULE_PROTOCOL] },
            ]
        }),
{
    let list = seq![
        AttrView { kind: FRA_PRIORITY, data: u32_bytes(order, priority) },
        AttrView { kind: FRA_PROTOCOL, data: seq![PROBE_RULE_PROTOCOL] },
    ];
    lemma_payload(order, priority);
    assert(attrs_fit(list));
    lemma_short_list(order, list);
    message_round_trip(
        order,
        RTM_DELRULE,
        FLAGS_DELETE,
        seq,
        rule_head(AF_INET).bytes(order),
        list,
    );
}

/// A route query says what it is, and is read back.
pub proof fn getroute_msg_round_trip(
    order: ByteOrder,
    family: u8,
    seq: u32,
    dst: Option<(Ipv4Addr, u8)>,
    oif: Option<u32>,
    dump: bool,
)
    ensures
        ({
            let msg = getroute_msg(order, family, seq, dst, oif, dump);
            &&& header_says(
                order,
                msg,
                RTM_GETROUTE,
                if dump {
                    FLAGS_DUMP
                } else {
                    NLM_F_REQUEST
                },
                seq,
            )
            &&& msg.len() >= 28
            &&& msg[16] == family
            &&& route_attrs_of(order, msg) == getroute_attrs(order, dst, oif)
        }),
{
    let list = getroute_attrs(order, dst, oif);
    if let Some(i) = oif {
        lemma_payload(order, i);
    }
    assert(attrs_fit(list));
    lemma_short_list(order, list);
    let head = getroute_head(family, dst).bytes(order);
    let flags = if dump {
        FLAGS_DUMP
    } else {
        NLM_F_REQUEST
    };
    let kind = RTM_GETROUTE;
    message_round_trip(order, kind, flags, seq, head, list);
    lemma_header(order, kind, flags, seq, head, stream_bytes(order, list));
    let msg = getroute_msg(order, family, seq, dst, oif, dump);
    assert(msg[16] == msg.subrange(16, 28)[0]);
}

/// Whether a message asks the kernel for the default route of a family with a
/// metric to go from the main table.
#[verifier::opaque]
pub open spec fn deletes_default_route(
    order: ByteOrder,
    msg: Seq<u8>,
    family: u8,
    metric: u32,
) -> bool {
    let list = route_attrs_of(order, msg);
    &&& msg.len() >= 28
    &&& NlMsgHdr::at(order, msg).nlmsg_type == RTM_DELROUTE
    &&& msg[16] == family
    &&& msg[17] == 0
    &&& table_of(order, msg, list) == RT_TABLE_MAIN as u32
    &&& payload_u32(order, last_attr(list, RTA_PRIORITY, 0, 65535)) == Some(metric)
}

/// A deletion that names no way out asks for a default route to go if and only if
/// it has no prefix, family and metric are those of the route, and its table is
/// the main one.
pub proof fn route_deletions_are_told_apart(
    order: ByteOrder,
    priority: u32,
    of: u8,
    table: Option<u32>,
    dst: Option<(Seq<u8>, u8)>,
    flags: u16,
    seq: u32,
    family: u8,
    metric: u32,
)
    requires
        dst matches Some(d) ==> d.0.len() <= 16,
    ensures
        ({
            let msg = route_msg(
                order,
                priority,
                of,
                table,
                dst,
                Seq::empty(),
                RTM_DELROUTE,
                flags,
                seq,
            );
            deletes_default_route(order, msg, family, metric) <==> {
                &&& of == family
                &&& priority == metric
                &&& dst matches Some(d) ==> d.1 == 0
                &&& table matches Some(t) ==> t == RT_TABLE_MAIN as u32
            }
        }),
{
    reveal(deletes_default_route);
    let hops: Seq<HopView> = Seq::empty();
    routes_fit(order, priority, table, dst, hops);
    route_msg_round_trip(order, priority, of, table, dst, hops, RTM_DELROUTE, flags, seq);
    lemma_read_attrs(order, priority, table, dst, hops);
    lemma_payload(order, priority);
    if let Some(t) = table {
        lemma_payload(order, t);
    }
    let msg = route_msg(order, priority, of, table, dst, hops, RTM_DELROUTE, flags, seq);
    lemma_head_fields(order, of, table, dst, hops, RTM_DELROUTE, msg);
}

/// The deletion of a default route that points at a group asks for that route to go.
pub proof fn group_route_deletion_is_recognised(
    order: ByteOrder,
    priority: u32,
    of: u8,
    nh_id: u32,
    flags: u16,
    seq: u32,
    family: u8,
    metric: u32,
)
    ensures
        deletes_default_route(
            order,
            via_nh_msg(order, priority, of, nh_id, RTM_DELROUTE, flags, seq),
            family,
            metric,
        ) <==> of == family && priority == metric,
{
    reveal(deletes_default_route);
    let list = via_nh_attrs(order, priority, nh_id);
    let hops: Seq<HopView> = Seq::empty();
    let head = route_head(of, None, None, hops, RTM_DELROUTE).bytes(order);
    let msg = via_nh_msg(order, priority, of, nh_id, RTM_DELROUTE, flags, seq);
    via_nh_msg_round_trip(order, priority, of, nh_id, RTM_DELROUTE, flags, seq);
    lemma_payload(order, priority);
    lemma_payload(order, nh_id);
    assert(attrs_fit(list));
    lemma_short_list(order, list);
    lemma_header(order, RTM_DELROUTE, flags, seq, head, stream_bytes(order, list));
    lemma_head_fields(order, of, None, None, hops, RTM_DELROUTE, msg);
    reveal_with_fuel(last_attr, 3);
    assert(list.drop_last().last() == list[0]);
    assert(list.drop_last().drop_last() =~= Seq::empty());
}

/// A message of another type asks for no route to go.
pub proof fn other_messages_delete_no_route(
    order: ByteOrder,
    msg_type: u16,
    flags: u16,
    seq: u32,
    body: Seq<u8>,
    family: u8,
    metric: u32,
)
    requires
        msg_type != RTM_DELROUTE,
    ensures
        !deletes_default_route(order, message(order, msg_type, flags, seq, body), family, metric),
{
    reveal(deletes_default_route);
    reveal(message);
    let h = NlMsgHdr {
        nlmsg_len: ((16 + body.len()) % 0x1_0000_0000) as u32,
        nlmsg_type: msg_type,
        nlmsg_flags: flags,
        nlmsg_seq: seq,
        nlmsg_pid: 0,
    };
    header_round_trip(order, h, body);
}

/// Reads the nexthops of a multipath attribute as the kernel does: each one gives
/// its own length, and the next starts at the following multiple of four.
pub open spec fn multipath_walk(order: ByteOrder, s: Seq<u8>) -> Seq<(u32, u8, Seq<u8>)>
    decreases s.len(),
{
    if s.len() < 8 {
        Seq::empty()
    } else {
        let len = u16_at(order, s, 0) as int;
        if len < 8 || len > s.len() {
            Seq::empty()
        } else {
            seq![(u32_at(order, s, 4), s[3], s.subrange(8, len))] + multipath_walk(
                order,
                after_attr(s, len),
            )
        }
    }
}

/// The bytes of a way out's gateway attribute; none for a direct link.
pub open spec fn gateway_attr(order: ByteOrder, hop: HopView) -> Seq<u8> {
    match hop.gateway {
        Some(g) => attr_bytes(order, RTA_GATEWAY, g),
        None => Seq::empty(),
    }
}

/// What the kernel reads for a list of ways out: interface, weight less one, and
/// the gateway attribute.
pub open spec fn multipath_view(order: ByteOrder, hops: Seq<HopView>) -> Seq<(u32, u8, Seq<u8>)> {
    Seq::new(
        hops.len(),
        |i: int|
            (
                hops[i].ifindex,
                (clamped_weight(hops[i].weight) - 1) as u8,
                gateway_attr(order, hops[i]),
            ),
    )
}

/// The kernel reads every way out of a multipath route, with its weight, and no
/// byte is left over.
pub proof fn multipath_is_walkable(order: ByteOrder, hops: Seq<HopView>, rest: Seq<u8>)
    requires
        gateways_fit(hops),
    ensures
        multipath_walk(order, multipath_bytes(order, hops) + rest) == multipath_view(order, hops)
            + multipath_walk(order, rest),
    decreases hops.len(),
{
    if hops.len() == 0 {
        assert(multipath_bytes(order, hops) + rest =~= rest);
        assert(multipath_view(order, hops) + multipath_walk(order, rest) =~= multipath_walk(
            order,
            rest,
        ));
    } else {
        let init = hops.drop_last();
        let hop = hops.last();
        assert forall|i: int| 0 <= i < init.len() implies ((#[trigger] init[i]).gateway matches Some(
            g,
        ) ==> g.len() <= 16) by {
            assert(init[i] == hops[i]);
        }
        let hb = hop_bytes(order, hop);
        multipath_is_walkable(order, init, hb + rest);
        lemma_walk_one(order, hop, rest);
        assert(multipath_bytes(order, hops) + rest =~= multipath_bytes(order, init) + (hb + rest));
        let one = multipath_view(order, seq![hop]);
        assert(multipath_view(order, hops) =~= multipath_view(order, init) + one);
        assert(multipath_view(order, init) + (one + multipath_walk(order, rest))
            =~= multipath_view(order, init) + one + multipath_walk(order, rest));
    }
}

proof fn lemma_walk_one(order: ByteOrder, hop: HopView, rest: Seq<u8>)
    requires
        hop.gateway matches Some(g) ==> g.len() <= 16,
    ensures
        multipath_walk(order, hop_bytes(order, hop) + rest) == multipath_view(order, seq![hop])
            + multipath_walk(order, rest),
{
    reveal(hop_bytes);
    let gw = gateway_attr(order, hop);
    if let Some(g) = hop.gateway {
        attr_bytes_aligned(order, RTA_GATEWAY, g);
    }
    let len = (8 + gw.len()) as int;
    let head = RtNextHop {
        rtnh_len: ((8 + gw.len()) % 65536) as u16,
        rtnh_flags: 0,
        rtnh_hops: (clamped_weight(hop.weight) - 1) as u8,
        rtnh_ifindex: signed(hop.ifindex),
    }.bytes(order);
    u16_round_trip(order, len as u16);
    u32_round_trip(order, hop.ifindex);
    signed_round_trip(hop.ifindex);
    let s = hop_bytes(order, hop) + rest;
    assert(s =~= head + gw + rest);
    assert(u16_at(order, s, 0) == len);
    assert(u32_at(order, s, 4) == hop.ifindex);
    assert(s[3] == (clamped_weight(hop.weight) - 1) as u8);
    assert(s.subrange(8, len) =~= gw);
    assert(after_attr(s, len) =~= rest);
    assert(multipath_view(order, seq![hop]) =~= seq![
        (hop.ifindex, (clamped_weight(hop.weight) - 1) as u8, gw),
    ]);
}

} // verus!
