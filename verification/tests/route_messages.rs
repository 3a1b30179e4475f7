use mwan4::addr::{Ipv4Addr, Ipv6Addr};
use mwan4::config::EcmpMode;
use mwan4::errno::ErrorNumbers;
use mwan4::netlink::apply::plan_underlay_routes;
use mwan4::netlink::manager::{ActiveWanRoute, ProbePath, RouteManager};
use mwan4::netlink::message::append_attr;
use mwan4::netlink::reply::{parse_route_reply, should_give_up_on_resilient, NetlinkError, RouteLookup};
use mwan4::netlink::route::{
    build_getroute_msg, build_nexthop_del_msg, build_nexthop_group_msg, build_nexthop_id_msg,
    build_own_rule_del_msg, build_route_msg, build_route_msg_ex, build_route_msg_via_nh,
    build_rule_msg, clamp_weight, res_bucket_count, FibRuleHdr, NextHopGrp, NhMsg, RouteNexthop,
    RouteTarget, RtAttr, RtMsg, RtNextHop, RuleSpec, AF_INET, AF_INET6, AF_UNSPEC, FLAGS_DELETE,
    FLAGS_DUMP, FLAGS_EXCLUSIVE, FLAGS_REPLACE, FRA_IIFNAME, FRA_OIFNAME, FRA_PRIORITY,
    FRA_PROTOCOL, FRA_TABLE, FR_ACT_TO_TBL, MAX_NEXTHOP_WEIGHT, NEXTHOP_GRP_TYPE_RES, NHA_GATEWAY,
    NHA_GROUP, NHA_GROUP_TYPE, NHA_ID, NHA_OIF, NHA_RES_GROUP, NHA_RES_GROUP_BUCKETS,
    NHA_RES_GROUP_NESTED, NH_GROUP_ID_V4, NH_GROUP_ID_V6, NLA_F_NESTED, NLM_F_ACK, NLM_F_CREATE,
    NLM_F_DUMP, NLM_F_EXCL, NLM_F_REPLACE, NLM_F_REQUEST, PROBE_MAIN_ROUTE_METRIC,
    PROBE_RULE_PRIORITY_BASE, PROBE_RULE_PROTOCOL, PROBE_SLOT_MAX, PROBE_TABLE_BASE,
    RES_BUCKETS_MAX, RES_BUCKETS_MIN, RTA_DST, RTA_GATEWAY, RTA_MULTIPATH, RTA_NH_ID, RTA_OIF,
    RTA_PRIORITY, RTA_TABLE, RTM_DELNEXTHOP, RTM_DELROUTE, RTM_DELRULE, RTM_GETROUTE,
    RTM_NEWNEXTHOP, RTM_NEWROUTE, RTM_NEWRULE, RTN_UNICAST, RTPROT_STATIC, RT_SCOPE_LINK,
    RT_SCOPE_UNIVERSE, RT_TABLE_MAIN,
};
use mwan4::netlink::util::{
    nlmsg_align, read_i32, read_u16, read_u32, rta_align, to_signed, to_unsigned, u32_to_bytes,
    write_u16, write_u32, ByteOrder, NlMsgHdr,
};

fn order() -> ByteOrder {
    ByteOrder::native()
}

fn parse_attr_stream(buf: &[u8], mut off: usize) -> Vec<(u16, Vec<u8>)> {
    let mut out = Vec::new();
    while off + RtAttr::LEN <= buf.len() {
        let len = read_u16(order(), buf, off).unwrap() as usize;
        let typ = read_u16(order(), buf, off + 2).unwrap();
        if len < RtAttr::LEN || off + len > buf.len() {
            break;
        }
        out.push((typ, buf[off + RtAttr::LEN..off + len].to_vec()));
        off += rta_align(len);
    }
    out
}

fn parse_attrs(buf: &[u8]) -> Vec<(u16, Vec<u8>)> {
    parse_attr_stream(buf, NlMsgHdr::LEN + RtMsg::LEN)
}

fn nh_attrs(buf: &[u8]) -> Vec<(u16, Vec<u8>)> {
    parse_attr_stream(buf, NlMsgHdr::LEN + NhMsg::LEN)
}

fn attr_types(attrs: &[(u16, Vec<u8>)]) -> Vec<u16> {
    attrs.iter().map(|(t, _)| *t).collect()
}

fn hop(ifindex: u32, gateway: Option<Vec<u8>>, weight: u32) -> RouteNexthop {
    RouteNexthop { ifindex, gateway, weight }
}

const REPLACE: u16 = NLM_F_REQUEST | NLM_F_ACK | NLM_F_CREATE | NLM_F_REPLACE;

#[test]
fn test_rtmsg_layout() {
    assert_eq!(RtMsg::LEN, 12);
    let m = RtMsg {
        rtm_family: AF_INET,
        rtm_dst_len: 0,
        rtm_src_len: 0,
        rtm_tos: 0,
        rtm_table: RT_TABLE_MAIN,
        rtm_protocol: RTPROT_STATIC,
        rtm_scope: RT_SCOPE_UNIVERSE,
        rtm_type: RTN_UNICAST,
        rtm_flags: 0,
    };
    let b = m.to_bytes(order());
    assert_eq!(&b[0..8], &[2, 0, 0, 0, 254, 4, 0, 1]);
    assert_eq!(read_u32(order(), &b, 8), Some(0));
}

#[test]
fn test_nexthop_weight_clamped() {
    assert_eq!(300u32.clamp(1, MAX_NEXTHOP_WEIGHT), 256);
    assert_eq!(0u32.clamp(1, MAX_NEXTHOP_WEIGHT), 1);
    assert_eq!((257u32.clamp(1, MAX_NEXTHOP_WEIGHT) - 1) as u8, 255);
    assert_eq!(clamp_weight(300), 256);
    assert_eq!(clamp_weight(0), 1);
    assert_eq!((clamp_weight(257) - 1) as u8, 255);
}

#[test]
fn test_nlmsghdr_roundtrip() {
    let h = NlMsgHdr {
        nlmsg_len: 52,
        nlmsg_type: RTM_NEWROUTE,
        nlmsg_flags: NLM_F_REQUEST | NLM_F_ACK,
        nlmsg_seq: 7,
        nlmsg_pid: 0,
    };
    let parsed = NlMsgHdr::from_bytes(order(), &h.to_bytes(order())).unwrap();
    assert_eq!(parsed, h);
    assert!(NlMsgHdr::from_bytes(order(), &[0u8; 8]).is_none());
}

#[test]
fn header_roundtrip_in_both_orders() {
    let h = NlMsgHdr {
        nlmsg_len: 0x0102_0304,
        nlmsg_type: 0x0506,
        nlmsg_flags: 0x0708,
        nlmsg_seq: 0x090a_0b0c,
        nlmsg_pid: 0x0d0e_0f10,
    };
    assert_eq!(
        h.to_bytes(ByteOrder::Big),
        [1, 2, 3, 4, 5, 6, 7, 8, 9, 10, 11, 12, 13, 14, 15, 16]
    );
    assert_eq!(
        h.to_bytes(ByteOrder::Little),
        [4, 3, 2, 1, 6, 5, 8, 7, 12, 11, 10, 9, 16, 15, 14, 13]
    );
    for o in [ByteOrder::Little, ByteOrder::Big] {
        assert_eq!(NlMsgHdr::from_bytes(o, &h.to_bytes(o)), Some(h));
    }
}

#[test]
fn native_order_is_that_of_the_machine() {
    let v: u32 = 0x1234_5678;
    assert_eq!(u32_to_bytes(order(), v), v.to_ne_bytes());
    assert_eq!(read_u32(order(), &v.to_ne_bytes(), 0), Some(v));
    let i: i32 = -22;
    assert_eq!(read_i32(order(), &i.to_ne_bytes(), 0), Some(i));
    let w: u16 = 0xabcd;
    assert_eq!(read_u16(order(), &w.to_ne_bytes(), 0), Some(w));
    assert_eq!(ByteOrder::of_one([1, 0]), ByteOrder::Little);
    assert_eq!(ByteOrder::of_one([0, 1]), ByteOrder::Big);
    assert_eq!(ByteOrder::of_one(1u16.to_ne_bytes()), order());
}

#[test]
fn reads_and_writes_stay_in_the_buffer() {
    let mut b = [1u8, 2, 3, 4, 5];
    assert_eq!(read_u16(ByteOrder::Little, &b, 3), Some(0x0504));
    assert_eq!(read_u16(ByteOrder::Big, &b, 3), Some(0x0405));
    assert_eq!(read_u16(ByteOrder::Little, &b, 4), None);
    assert_eq!(read_u16(ByteOrder::Little, &b, usize::MAX), None);
    assert_eq!(read_u32(ByteOrder::Little, &b, 1), Some(0x0504_0302));
    assert_eq!(read_u32(ByteOrder::Little, &b, 2), None);
    assert_eq!(read_i32(ByteOrder::Big, &[0xff, 0xff, 0xff, 0xfe], 0), Some(-2));
    assert_eq!(read_i32(ByteOrder::Big, &[0xff, 0xff, 0xff], 0), None);
    write_u16(ByteOrder::Big, &mut b, 4, 0x0909);
    assert_eq!(b, [1, 2, 3, 4, 5]);
    write_u16(ByteOrder::Big, &mut b, 3, 0x0809);
    assert_eq!(b, [1, 2, 3, 8, 9]);
    write_u32(ByteOrder::Little, &mut b, 2, 7);
    assert_eq!(b, [1, 2, 3, 8, 9]);
    write_u32(ByteOrder::Little, &mut b, 0, 0x0403_0201);
    assert_eq!(b, [1, 2, 3, 4, 9]);
    assert_eq!(to_signed(0xffff_ffff), -1);
    assert_eq!(to_unsigned(-1), 0xffff_ffff);
    assert_eq!(to_unsigned(to_signed(0x8000_0000)), 0x8000_0000);
}

#[test]
fn alignment_is_to_four() {
    for (len, want) in [(0usize, 0usize), (1, 4), (4, 4), (5, 8), (20, 20), (21, 24)] {
        assert_eq!(rta_align(len), want);
        assert_eq!(nlmsg_align(len), want);
    }
}

#[test]
fn default_header_is_zero() {
    assert_eq!(NlMsgHdr::default().to_bytes(order()), [0u8; 16]);
}

#[test]
fn test_ipv4_single_route_layout() {
    let hops = vec![hop(3, Some(vec![192, 168, 1, 1]), 1)];
    let msg = build_route_msg(order(), 0, AF_INET, &hops, RTM_NEWROUTE, REPLACE, 1);

    let hdr = NlMsgHdr::from_bytes(order(), &msg).unwrap();
    assert_eq!(hdr.nlmsg_len as usize, msg.len());
    assert_eq!(hdr.nlmsg_type, RTM_NEWROUTE);
    assert_eq!(hdr.nlmsg_seq, 1);
    assert_eq!(msg.len() % 4, 0);

    assert_eq!(&msg[NlMsgHdr::LEN], &AF_INET);
    assert_eq!(msg[NlMsgHdr::LEN + 1], 0);

    let attrs = parse_attrs(&msg);
    assert_eq!(attr_types(&attrs), vec![RTA_PRIORITY, RTA_GATEWAY, RTA_OIF]);
    assert_eq!(attrs[1].1, vec![192, 168, 1, 1]);
    assert_eq!(read_u32(order(), &attrs[2].1, 0), Some(3));
}

#[test]
fn test_ipv6_single_route_layout() {
    let gw = Ipv6Addr::new(0x2001, 0xdb8, 0, 0, 0, 0, 0, 1);
    let hops = vec![hop(4, Some(gw.octets().to_vec()), 1)];
    let msg = build_route_msg(order(), 5, AF_INET6, &hops, RTM_NEWROUTE, REPLACE, 2);

    assert_eq!(msg[NlMsgHdr::LEN], AF_INET6);
    assert_eq!(msg.len() % 4, 0);

    let attrs = parse_attrs(&msg);
    assert_eq!(attr_types(&attrs), vec![RTA_PRIORITY, RTA_GATEWAY, RTA_OIF]);
    assert_eq!(attrs[1].1.len(), 16);
    assert_eq!(attrs[1].1, gw.octets().to_vec());
    assert_eq!(
        attrs[1].1,
        vec![0x20, 0x01, 0x0d, 0xb8, 0, 0, 0, 0, 0, 0, 0, 0, 0, 0, 0, 1]
    );
    assert_eq!(read_u32(order(), &attrs[0].1, 0), Some(5));
}

#[test]
fn test_ecmp_multipath_layout() {
    let hops = vec![
        hop(3, Some(vec![192, 168, 1, 1]), 1),
        hop(4, Some(vec![192, 168, 2, 1]), 3),
    ];
    let msg = build_route_msg(order(), 0, AF_INET, &hops, RTM_NEWROUTE, REPLACE, 1);

    let attrs = parse_attrs(&msg);
    let mp = attrs
        .iter()
        .find(|(t, _)| *t == RTA_MULTIPATH)
        .expect("RTA_MULTIPATH must be present")
        .1
        .clone();

    let mut off = 0usize;
    let mut lens = Vec::new();
    let mut hops_seen = Vec::new();
    while off + RtNextHop::LEN <= mp.len() {
        let rtnh_len = read_u16(order(), &mp, off).unwrap() as usize;
        let rtnh_hops = mp[off + 3];
        let ifindex = read_u32(order(), &mp, off + 4).unwrap();
        assert!(rtnh_len >= RtNextHop::LEN, "rtnh_len too small");
        assert!(off + rtnh_len <= mp.len(), "rtnh_len overruns multipath attr");
        lens.push(rtnh_len);
        hops_seen.push((ifindex, rtnh_hops));
        off += rta_align(rtnh_len);
    }

    assert_eq!(hops_seen.len(), 2);
    assert_eq!(hops_seen[0], (3, 0));
    assert_eq!(hops_seen[1], (4, 2));
    assert_eq!(off, mp.len(), "trailing bytes after last nexthop");
    assert!(lens.iter().all(|&l| l == RtNextHop::LEN + RtAttr::LEN + 4));
}

#[test]
fn multipath_without_gateway_and_with_extreme_weights() {
    let hops = vec![hop(3, None, 0), hop(0x8000_0001, None, 1000)];
    let msg = build_route_msg(ByteOrder::Big, 0, AF_INET, &hops, RTM_NEWROUTE, REPLACE, 1);
    // Header, fixed part, metric, then the multipath attribute.
    assert_eq!(msg.len(), 16 + 12 + 8 + 4 + 16);
    assert_eq!(
        &msg[36..],
        &[
            0, 20, 0, 9, // attribute
            0, 8, 0, 0, 0, 0, 0, 3, // weight 0 counts as 1
            0, 8, 0, 255, 0x80, 0, 0, 1, // weight 1000 counts as 256
        ]
    );
}

#[test]
fn test_delete_message_has_no_nexthop_attrs() {
    let msg = build_route_msg(
        order(),
        0,
        AF_INET,
        &[],
        RTM_DELROUTE,
        NLM_F_REQUEST | NLM_F_ACK,
        9,
    );
    let hdr = NlMsgHdr::from_bytes(order(), &msg).unwrap();
    assert_eq!(hdr.nlmsg_type, RTM_DELROUTE);
    let attrs = parse_attrs(&msg);
    assert_eq!(attr_types(&attrs), vec![RTA_PRIORITY]);
    // A deletion names no protocol.
    assert_eq!(msg[NlMsgHdr::LEN + 5], 0);
}

#[test]
fn test_link_scope_when_no_gateway() {
    let hops = vec![hop(5, None, 1)];
    let msg = build_route_msg(order(), 0, AF_INET, &hops, RTM_NEWROUTE, REPLACE, 1);
    assert_eq!(msg[NlMsgHdr::LEN + 6], RT_SCOPE_LINK);
}

#[test]
fn exact_bytes_of_a_route() {
    let hops = vec![hop(3, Some(vec![192, 168, 1, 1]), 1)];
    let msg = build_route_msg(ByteOrder::Little, 5, AF_INET, &hops, RTM_NEWROUTE, REPLACE, 7);
    let want: Vec<u8> = vec![
        52, 0, 0, 0, 24, 0, 5, 5, 7, 0, 0, 0, 0, 0, 0, 0, // header
        2, 0, 0, 0, 254, 4, 0, 1, 0, 0, 0, 0, // fixed part
        8, 0, 6, 0, 5, 0, 0, 0, // metric
        8, 0, 5, 0, 192, 168, 1, 1, // gateway
        8, 0, 4, 0, 3, 0, 0, 0, // interface
    ];
    assert_eq!(msg, want);
}

#[test]
fn test_nexthop_constants_match_linux_uapi() {
    assert_eq!(RTM_NEWNEXTHOP, 104);
    assert_eq!(RTM_DELNEXTHOP, 105);
    assert_eq!(RTA_NH_ID, 30);
    assert_eq!(NHA_ID, 1);
    assert_eq!(NHA_GROUP, 2);
    assert_eq!(NHA_GROUP_TYPE, 3);
    assert_eq!(NHA_OIF, 5);
    assert_eq!(NHA_GATEWAY, 6);
    assert_eq!(NHA_RES_GROUP, 12);
    assert_eq!(NHA_RES_GROUP_BUCKETS, 1);
    assert_eq!(NEXTHOP_GRP_TYPE_RES, 1);
}

#[test]
fn test_nhmsg_and_nexthop_grp_layout() {
    assert_eq!(NhMsg::LEN, 8);
    let b = NhMsg {
        nh_family: AF_INET,
        nh_scope: RT_SCOPE_UNIVERSE,
        nh_protocol: RTPROT_STATIC,
        nh_resvd: 0,
        nh_flags: 0,
    }
    .to_bytes(order());
    assert_eq!(b[0], AF_INET);
    assert_eq!(b[1], 0);
    assert_eq!(b[2], RTPROT_STATIC);
    assert_eq!(read_u32(order(), &b, 4), Some(0));

    assert_eq!(NextHopGrp::LEN, 8);
    let g = NextHopGrp { id: 7, weight: 2, resvd1: 0, resvd2: 0 }.to_bytes(order());
    assert_eq!(read_u32(order(), &g, 0), Some(7));
    assert_eq!(g[4], 2);
    assert_eq!(read_u16(order(), &g, 6), Some(0));
}

#[test]
fn test_nexthop_member_msg_layout() {
    let msg = build_nexthop_id_msg(
        order(),
        7,
        AF_INET,
        42,
        3,
        Some(&[192, 168, 1, 1]),
        RTM_NEWNEXTHOP,
        REPLACE,
    );

    let hdr = NlMsgHdr::from_bytes(order(), &msg).unwrap();
    assert_eq!(hdr.nlmsg_len as usize, msg.len());
    assert_eq!(hdr.nlmsg_type, RTM_NEWNEXTHOP);
    assert_eq!(hdr.nlmsg_seq, 7);
    assert_eq!(msg.len() % 4, 0);
    assert_eq!(msg[NlMsgHdr::LEN], AF_INET);
    assert_eq!(msg[NlMsgHdr::LEN + 2], RTPROT_STATIC);

    let attrs = nh_attrs(&msg);
    assert_eq!(attr_types(&attrs), vec![NHA_ID, NHA_OIF, NHA_GATEWAY]);
    assert_eq!(read_u32(order(), &attrs[0].1, 0), Some(42));
    assert_eq!(read_u32(order(), &attrs[1].1, 0), Some(3));
    assert_eq!(attrs[2].1, vec![192, 168, 1, 1]);
}

#[test]
fn test_nexthop_member_without_gateway_omits_gateway_attr() {
    let msg = build_nexthop_id_msg(order(), 1, AF_INET, 1, 9, None, RTM_NEWNEXTHOP, NLM_F_REQUEST);
    assert_eq!(attr_types(&nh_attrs(&msg)), vec![NHA_ID, NHA_OIF]);
}

#[test]
fn test_nexthop_del_msg_carries_only_id() {
    let msg = build_nexthop_del_msg(order(), 3, AF_UNSPEC, 5);
    let hdr = NlMsgHdr::from_bytes(order(), &msg).unwrap();
    assert_eq!(hdr.nlmsg_type, RTM_DELNEXTHOP);
    assert_eq!(msg[NlMsgHdr::LEN], AF_UNSPEC);

    let attrs = nh_attrs(&msg);
    assert_eq!(attr_types(&attrs), vec![NHA_ID]);
    assert_eq!(read_u32(order(), &attrs[0].1, 0), Some(5));
}

#[test]
fn test_nexthop_del_msg_uses_the_same_family_as_creation() {
    let msg = build_nexthop_del_msg(order(), 7, AF_INET, 42);
    assert_eq!(msg[NlMsgHdr::LEN], AF_INET);
    assert_eq!(read_u32(order(), &nh_attrs(&msg)[0].1, 0), Some(42));

    let grp = build_nexthop_del_msg(order(), 8, AF_UNSPEC, 4294967040);
    assert_eq!(grp[NlMsgHdr::LEN], AF_UNSPEC);
}

#[test]
fn test_resilient_group_msg_layout() {
    let members = [(1u32, 1u32), (2u32, 3u32)];
    let msg = build_nexthop_group_msg(
        order(),
        9,
        NH_GROUP_ID_V4,
        &members,
        Some(16),
        RTM_NEWNEXTHOP,
        NLM_F_REQUEST,
    );

    let hdr = NlMsgHdr::from_bytes(order(), &msg).unwrap();
    assert_eq!(hdr.nlmsg_type, RTM_NEWNEXTHOP);
    assert_eq!(msg[NlMsgHdr::LEN], AF_UNSPEC);

    let attrs = nh_attrs(&msg);
    assert_eq!(
        attr_types(&attrs),
        vec![NHA_ID, NHA_GROUP_TYPE, NHA_GROUP, NHA_RES_GROUP | NLA_F_NESTED]
    );
    assert_eq!(read_u32(order(), &attrs[0].1, 0), Some(NH_GROUP_ID_V4));
    assert_eq!(read_u16(order(), &attrs[1].1, 0), Some(NEXTHOP_GRP_TYPE_RES));

    let grp = &attrs[2].1;
    assert_eq!(grp.len(), 2 * NextHopGrp::LEN);
    assert_eq!(read_u32(order(), grp, 0), Some(1));
    assert_eq!(grp[4], 0);
    assert_eq!(read_u32(order(), grp, 8), Some(2));
    assert_eq!(grp[12], 2);

    let res = parse_attr_stream(&attrs[3].1, 0);
    assert_eq!(attr_types(&res), vec![NHA_RES_GROUP_BUCKETS]);
    assert_eq!(res[0].1.len(), 2);
    assert_eq!(read_u16(order(), &res[0].1, 0), Some(16));
}

#[test]
fn test_plain_nexthop_group_has_no_res_group() {
    let members = [(1u32, 1u32)];
    let msg =
        build_nexthop_group_msg(order(), 1, 77, &members, None, RTM_NEWNEXTHOP, NLM_F_REQUEST);
    assert_eq!(attr_types(&nh_attrs(&msg)), vec![NHA_ID, NHA_GROUP]);
}

#[test]
fn test_route_via_nexthop_layout() {
    let msg =
        build_route_msg_via_nh(order(), 5, AF_INET, NH_GROUP_ID_V4, RTM_NEWROUTE, REPLACE, 11);
    let hdr = NlMsgHdr::from_bytes(order(), &msg).unwrap();
    assert_eq!(hdr.nlmsg_type, RTM_NEWROUTE);
    assert_eq!(msg[NlMsgHdr::LEN], AF_INET);
    assert_eq!(msg[NlMsgHdr::LEN + 1], 0);
    let attrs = parse_attrs(&msg);
    assert_eq!(attr_types(&attrs), vec![RTA_PRIORITY, RTA_NH_ID]);
    assert_eq!(read_u32(order(), &attrs[0].1, 0), Some(5));
    assert_eq!(read_u32(order(), &attrs[1].1, 0), Some(NH_GROUP_ID_V4));

    let del = build_route_msg_via_nh(
        order(),
        5,
        AF_INET,
        NH_GROUP_ID_V4,
        RTM_DELROUTE,
        NLM_F_REQUEST | NLM_F_ACK,
        12,
    );
    let del_attrs = parse_attrs(&del);
    assert_eq!(attr_types(&del_attrs), vec![RTA_PRIORITY, RTA_NH_ID]);
    assert_eq!(read_u32(order(), &del_attrs[1].1, 0), Some(NH_GROUP_ID_V4));
}

#[test]
fn test_res_bucket_count_is_power_of_two_and_covers_members() {
    for members in [0usize, 1, 2, 3, 8, 9, 16, 17, 64, 100, 256] {
        let b = res_bucket_count(members) as usize;
        assert!(b.is_power_of_two(), "buckets {b} must be a power of two");
        assert!(b >= members.max(1), "buckets {b} must cover {members} members");
        assert!((RES_BUCKETS_MIN..=RES_BUCKETS_MAX).contains(&b));
    }

    assert_eq!(res_bucket_count(10_000), RES_BUCKETS_MAX as u16);
    assert_eq!(res_bucket_count(RES_BUCKETS_MAX + 1), RES_BUCKETS_MAX as u16);

    assert_eq!(res_bucket_count(0), RES_BUCKETS_MIN as u16);
    assert_eq!(res_bucket_count(2), RES_BUCKETS_MIN as u16);
    assert_eq!(res_bucket_count(9), 16);
}

#[test]
fn test_too_many_members_is_treated_as_unsupported() {
    let e = NetlinkError::TooManyNexthops(300);
    assert!(should_give_up_on_resilient(ErrorNumbers::native(), &e));
}

#[test]
fn test_nexthop_ids_are_stable_per_member() {
    let mut rm = RouteManager::new(0, EcmpMode::Standard);
    let a = rm.alloc_nh_id(AF_INET, 3, &Some(vec![192, 168, 1, 1]));
    let b = rm.alloc_nh_id(AF_INET, 4, &Some(vec![192, 168, 2, 1]));
    assert_ne!(a, b);

    assert_eq!(rm.alloc_nh_id(AF_INET, 3, &Some(vec![192, 168, 1, 1])), a);

    let v6 = rm.alloc_nh_id(AF_INET6, 3, &Some(vec![0u8; 16]));
    let v4_direct = rm.alloc_nh_id(AF_INET, 3, &None);
    assert!(![a, b].contains(&v6));
    assert!(![a, b, v6].contains(&v4_direct));

    assert!(NH_GROUP_ID_V4 > rm.next_nh_id);
    assert!(NH_GROUP_ID_V6 > rm.next_nh_id);
}

fn parse_rule(buf: &[u8]) -> (FibRuleHdr, Vec<(u16, Vec<u8>)>) {
    let hdr = FibRuleHdr {
        family: buf[NlMsgHdr::LEN],
        dst_len: buf[NlMsgHdr::LEN + 1],
        src_len: buf[NlMsgHdr::LEN + 2],
        tos: buf[NlMsgHdr::LEN + 3],
        table: buf[NlMsgHdr::LEN + 4],
        action: buf[NlMsgHdr::LEN + 7],
        flags: read_u32(order(), buf, NlMsgHdr::LEN + 8).unwrap(),
    };
    (hdr, parse_attr_stream(buf, NlMsgHdr::LEN + FibRuleHdr::LEN))
}

#[test]
fn test_probe_path_constants_do_not_collide() {
    let tables: Vec<u32> = (0..8).map(|i| PROBE_TABLE_BASE + i).collect();
    assert!(tables.iter().all(|t| *t > 255));
    let priorities: Vec<u32> = (0..8).map(|i| PROBE_RULE_PRIORITY_BASE + i).collect();
    assert!(priorities.iter().all(|p| *p > 0 && *p < 32_766 && *p != 32_766));
    assert_ne!(PROBE_TABLE_BASE, 254);
}

#[test]
fn test_rule_constants_match_linux_uapi() {
    assert_eq!(RTM_NEWRULE, 32);
    assert_eq!(RTM_DELRULE, 33);
    assert_eq!(FRA_PRIORITY, 6);
    assert_eq!(FRA_TABLE, 15);
    assert_eq!(FRA_OIFNAME, 17);
    assert_eq!(FR_ACT_TO_TBL, 1);
    assert_eq!(RTM_NEWNEXTHOP, 104);
    assert_eq!(RTM_DELNEXTHOP, 105);
    assert_eq!(NHA_RES_GROUP, 12);
    assert_eq!(NHA_RES_GROUP_BUCKETS, 1);
    assert_eq!(NHA_OIF, 5);
    assert_eq!(NHA_GATEWAY, 6);
}

#[test]
fn test_getroute_request_and_reply_parsing() {
    let msg = build_getroute_msg(
        order(),
        AF_INET,
        3,
        Some((Ipv4Addr::new(203, 0, 113, 10), 32)),
        Some(7),
        false,
    );
    let hdr = NlMsgHdr::from_bytes(order(), &msg).unwrap();
    assert_eq!(hdr.nlmsg_type, RTM_GETROUTE);
    assert_eq!(hdr.nlmsg_flags & NLM_F_DUMP, 0);
    assert_eq!(msg[NlMsgHdr::LEN + 1], 32);
    let attrs = parse_attrs(&msg);
    assert_eq!(attr_types(&attrs), vec![RTA_DST, RTA_OIF]);
    assert_eq!(attrs[0].1, vec![203, 0, 113, 10]);

    let dump = build_getroute_msg(order(), AF_INET, 4, None, None, true);
    let dump_hdr = NlMsgHdr::from_bytes(order(), &dump).unwrap();
    assert_eq!(dump_hdr.nlmsg_flags & NLM_F_DUMP, NLM_F_DUMP);
    assert_eq!(dump[NlMsgHdr::LEN + 1], 0);

    let mut reply = vec![0u8; NlMsgHdr::LEN + RtMsg::LEN];
    reply[NlMsgHdr::LEN + 4] = 254;
    append_attr(order(), &mut reply, RTA_TABLE, &10_000u32.to_ne_bytes());
    append_attr(order(), &mut reply, RTA_OIF, &12u32.to_ne_bytes());
    append_attr(order(), &mut reply, RTA_GATEWAY, &[10, 99, 1, 2]);
    let parsed = parse_route_reply(order(), &reply, reply.len()).unwrap();
    assert_eq!(
        parsed,
        RouteLookup {
            ifindex: Some(12),
            gateway: Some(Ipv4Addr::new(10, 99, 1, 2)),
            table: 10_000,
        }
    );

    let bare = vec![0u8; NlMsgHdr::LEN + RtMsg::LEN];
    let parsed = parse_route_reply(order(), &bare, bare.len()).unwrap();
    assert_eq!(parsed.ifindex, None);
    assert_eq!(parsed.table, 0);
}

#[test]
fn a_route_reply_that_is_cut_off_is_none() {
    let bare = vec![0u8; NlMsgHdr::LEN + RtMsg::LEN];
    assert!(parse_route_reply(order(), &bare, bare.len() - 1).is_none());
}

#[test]
fn a_built_route_is_read_back() {
    let hops = vec![hop(12, Some(vec![10, 77, 0, 1]), 1)];
    for o in [ByteOrder::Little, ByteOrder::Big] {
        let msg = build_route_msg_ex(
            o,
            0,
            AF_INET,
            RouteTarget { table: Some(10_001), dst: None },
            &hops,
            RTM_NEWROUTE,
            REPLACE,
            3,
        );
        assert_eq!(
            parse_route_reply(o, &msg, msg.len()),
            Some(RouteLookup {
                ifindex: Some(12),
                gateway: Some(Ipv4Addr::new(10, 77, 0, 1)),
                table: 10_001,
            })
        );
    }
}

fn wan(
    ifname: &str,
    ifindex: u32,
    metric: u32,
    gateway: Option<Ipv4Addr>,
    underlay: Vec<Ipv4Addr>,
) -> ActiveWanRoute {
    ActiveWanRoute {
        ifname: ifname.to_string(),
        ifindex,
        gateway,
        weight: 1,
        metric,
        underlay_targets: underlay,
    }
}

#[test]
fn test_plan_underlay_routes_never_uses_a_tunnel_as_exit() {
    let wans = vec![
        wan("eth1", 3, 10, Some(Ipv4Addr::new(10, 176, 255, 254)), Vec::new()),
        wan(
            "vxlan0",
            45,
            10,
            Some(Ipv4Addr::new(10, 77, 0, 1)),
            vec![Ipv4Addr::new(10, 128, 0, 20)],
        ),
    ];
    let plan = plan_underlay_routes(&wans);
    assert_eq!(plan.len(), 1);
    assert_eq!(plan[0].0, Ipv4Addr::new(10, 128, 0, 20));
    assert_eq!(plan[0].1, 3);
    assert_eq!(plan[0].2, Some(vec![10, 176, 255, 254]));
}

#[test]
fn test_plan_underlay_routes_edge_cases() {
    let wans = vec![
        wan("eth2", 5, 50, Some(Ipv4Addr::new(10, 0, 0, 1)), Vec::new()),
        wan("eth1", 3, 10, Some(Ipv4Addr::new(10, 176, 255, 254)), Vec::new()),
        wan(
            "vxlan0",
            45,
            10,
            Some(Ipv4Addr::new(10, 77, 0, 1)),
            vec![Ipv4Addr::new(10, 128, 0, 20)],
        ),
    ];
    let plan = plan_underlay_routes(&wans);
    assert_eq!(plan.len(), 1);
    assert_eq!(plan[0].1, 3);

    let only_tunnels = vec![wan("wg0", 7, 10, None, vec![Ipv4Addr::new(1, 2, 3, 4)])];
    assert!(plan_underlay_routes(&only_tunnels).is_empty());

    let no_tunnel = vec![wan("eth1", 3, 10, None, Vec::new())];
    assert!(plan_underlay_routes(&no_tunnel).is_empty());

    assert!(plan_underlay_routes(&[]).is_empty());
}

#[test]
fn the_earlier_line_of_equal_metric_is_the_exit() {
    let wans = vec![
        wan("wg0", 9, 1, None, vec![Ipv4Addr::new(1, 2, 3, 4)]),
        wan("eth2", 5, 10, None, Vec::new()),
        wan("eth1", 3, 10, None, Vec::new()),
    ];
    let plan = plan_underlay_routes(&wans);
    assert_eq!(plan.len(), 1);
    assert_eq!(plan[0].1, 5);
    assert_eq!(plan[0].2, None);
}

#[test]
fn test_probe_main_route_metric_is_distinct() {
    let metric = PROBE_MAIN_ROUTE_METRIC;
    let slot_max = PROBE_RULE_PRIORITY_BASE + PROBE_SLOT_MAX;
    assert!(metric != 0 && metric > slot_max && metric < 0xFFFF_FF00);
}

#[test]
fn test_probe_rule_msg_layout() {
    let table = PROBE_TABLE_BASE + 3;
    let priority = PROBE_RULE_PRIORITY_BASE + 3;
    let spec = |output: bool| RuleSpec { family: AF_INET, table, ifname: "vxlan", priority, output };
    let msg = build_rule_msg(
        order(),
        7,
        spec(true),
        RTM_NEWRULE,
        NLM_F_REQUEST | NLM_F_ACK | NLM_F_CREATE | NLM_F_EXCL,
    );

    let nlhdr = NlMsgHdr::from_bytes(order(), &msg).unwrap();
    assert_eq!(nlhdr.nlmsg_len as usize, msg.len());
    assert_eq!(nlhdr.nlmsg_type, RTM_NEWRULE);
    assert_eq!(nlhdr.nlmsg_seq, 7);
    assert_eq!(msg.len() % 4, 0);

    let (hdr, attrs) = parse_rule(&msg);
    assert_eq!(hdr.family, AF_INET);
    assert_eq!(hdr.action, FR_ACT_TO_TBL);
    assert_eq!(hdr.dst_len, 0);
    assert_eq!(hdr.src_len, 0);

    assert_eq!(attr_types(&attrs), vec![FRA_TABLE, FRA_PRIORITY, FRA_PROTOCOL, FRA_OIFNAME]);
    assert_eq!(read_u32(order(), &attrs[0].1, 0), Some(table));
    assert_eq!(read_u32(order(), &attrs[1].1, 0), Some(priority));
    assert_eq!(attrs[2].1, vec![PROBE_RULE_PROTOCOL]);
    assert_eq!(attrs[3].1, b"vxlan\0".to_vec());

    let in_msg = build_rule_msg(
        order(),
        8,
        spec(false),
        RTM_NEWRULE,
        NLM_F_REQUEST | NLM_F_ACK | NLM_F_CREATE | NLM_F_EXCL,
    );
    assert_eq!(
        attr_types(&parse_rule(&in_msg).1),
        vec![FRA_TABLE, FRA_PRIORITY, FRA_PROTOCOL, FRA_IIFNAME]
    );

    let del = build_rule_msg(order(), 9, spec(true), RTM_DELRULE, NLM_F_REQUEST | NLM_F_ACK);
    assert_eq!(NlMsgHdr::from_bytes(order(), &del).unwrap().nlmsg_type, RTM_DELRULE);
    assert_eq!(parse_rule(&del).1, attrs);
}

#[test]
fn own_rules_are_deleted_by_priority_and_origin() {
    let msg = build_own_rule_del_msg(order(), 4, 10_007);
    let hdr = NlMsgHdr::from_bytes(order(), &msg).unwrap();
    assert_eq!(hdr.nlmsg_type, RTM_DELRULE);
    assert_eq!(hdr.nlmsg_flags, NLM_F_REQUEST | NLM_F_ACK);
    let (_, attrs) = parse_rule(&msg);
    assert_eq!(attr_types(&attrs), vec![FRA_PRIORITY, FRA_PROTOCOL]);
    assert_eq!(read_u32(order(), &attrs[0].1, 0), Some(10_007));
    assert_eq!(attrs[1].1, vec![0x4D]);
}

#[test]
fn test_probe_path_tables_are_derived_from_slot() {
    let path = ProbePath {
        ifname: "wan1".into(),
        ifindex: 7,
        gateway: Some(Ipv4Addr::new(10, 0, 0, 1)),
        targets: vec![Ipv4Addr::new(1, 1, 1, 1)],
        table: PROBE_TABLE_BASE + 5,
        priority: PROBE_RULE_PRIORITY_BASE + 5,
        main_route_targets: Vec::new(),
    };
    assert_ne!(path.table, PROBE_TABLE_BASE);
    assert_ne!(path.priority, PROBE_RULE_PRIORITY_BASE);
    assert_eq!(path.table, 10_005);
    assert_eq!(path.priority, 10_005);
    assert_ne!(PROBE_MAIN_ROUTE_METRIC, 0);
    assert_ne!(PROBE_MAIN_ROUTE_METRIC, 10_005);
}

#[test]
fn test_probe_route_msg_lives_in_its_own_table() {
    let table = PROBE_TABLE_BASE + 1;
    let hop = hop(12, Some(vec![10, 77, 0, 1]), 1);
    let msg = build_route_msg_ex(
        order(),
        0,
        AF_INET,
        RouteTarget { table: Some(table), dst: None },
        std::slice::from_ref(&hop),
        RTM_NEWROUTE,
        REPLACE,
        3,
    );

    let attrs = parse_attrs(&msg);
    assert_eq!(attr_types(&attrs), vec![RTA_TABLE, RTA_PRIORITY, RTA_GATEWAY, RTA_OIF]);
    assert_eq!(read_u32(order(), &attrs[0].1, 0), Some(table));
    assert_eq!(read_u32(order(), &attrs[1].1, 0), Some(0));
    assert_eq!(attrs[2].1, vec![10, 77, 0, 1]);
    assert_eq!(read_u32(order(), &attrs[3].1, 0), Some(12));
    assert_eq!(msg[NlMsgHdr::LEN + 1], 0);
    assert_eq!(msg[NlMsgHdr::LEN + 4], (table & 0xFF) as u8);

    let del = build_route_msg_ex(
        order(),
        0,
        AF_INET,
        RouteTarget { table: Some(table), dst: None },
        &[],
        RTM_DELROUTE,
        NLM_F_REQUEST | NLM_F_ACK,
        4,
    );
    assert_eq!(attr_types(&parse_attrs(&del)), vec![RTA_TABLE, RTA_PRIORITY]);
}

#[test]
fn test_route_msg_with_dst_prefix() {
    let hop = hop(3, None, 1);
    let msg = build_route_msg_ex(
        order(),
        0,
        AF_INET,
        RouteTarget { table: Some(PROBE_TABLE_BASE), dst: Some((&[1, 1, 1, 1], 32)) },
        std::slice::from_ref(&hop),
        RTM_NEWROUTE,
        NLM_F_REQUEST,
        5,
    );
    assert_eq!(msg[NlMsgHdr::LEN + 1], 32);
    let attrs = parse_attrs(&msg);
    let dst = attrs.iter().find(|(t, _)| *t == RTA_DST).expect("RTA_DST must be present");
    assert_eq!(dst.1, vec![1, 1, 1, 1]);
}

#[test]
fn test_main_table_route_msg_has_no_table_attr() {
    let hops = vec![hop(3, Some(vec![192, 168, 1, 1]), 1)];
    let msg = build_route_msg(order(), 0, AF_INET, &hops, RTM_NEWROUTE, REPLACE, 1);
    assert!(!attr_types(&parse_attrs(&msg)).contains(&RTA_TABLE));
}

#[test]
fn named_flags_are_combinations() {
    assert_eq!(FLAGS_DELETE, NLM_F_REQUEST | NLM_F_ACK);
    assert_eq!(FLAGS_REPLACE, REPLACE);
    assert_eq!(FLAGS_EXCLUSIVE, NLM_F_REQUEST | NLM_F_ACK | NLM_F_CREATE | NLM_F_EXCL);
    assert_eq!(FLAGS_DUMP, NLM_F_REQUEST | NLM_F_DUMP);
    assert_eq!(NHA_RES_GROUP_NESTED, NHA_RES_GROUP | NLA_F_NESTED);
}

#[test]
fn constants_agree_with_the_c_library() {
    assert_eq!(RTM_NEWROUTE, libc::RTM_NEWROUTE);
    assert_eq!(RTM_DELROUTE, libc::RTM_DELROUTE);
    assert_eq!(RTM_GETROUTE, libc::RTM_GETROUTE);
    assert_eq!(RTM_NEWRULE, libc::RTM_NEWRULE);
    assert_eq!(AF_INET as i32, libc::AF_INET);
    assert_eq!(AF_INET6 as i32, libc::AF_INET6);
    assert_eq!(RT_TABLE_MAIN as u32, libc::RT_TABLE_MAIN as u32);
    assert_eq!(mwan4::netlink::reply::ENOENT, libc::ENOENT);
    assert_eq!(mwan4::netlink::reply::ESRCH, libc::ESRCH);
    assert_eq!(mwan4::netlink::reply::EEXIST, libc::EEXIST);
    assert_eq!(mwan4::netlink::reply::EINVAL, libc::EINVAL);
    let numbers = ErrorNumbers::native();
    assert_eq!(numbers.enosys, libc::ENOSYS);
    assert_eq!(numbers.eopnotsupp, libc::EOPNOTSUPP);
    assert_eq!(numbers.eafnosupport, libc::EAFNOSUPPORT);
    assert_eq!(mwan4::netlink::reply::NLMSG_ERROR as i32, libc::NLMSG_ERROR);
    assert_eq!(mwan4::netlink::reply::NLMSG_DONE as i32, libc::NLMSG_DONE);
    assert_eq!(numbers.enobufs, libc::ENOBUFS);
    assert_eq!(numbers.einprogress, libc::EINPROGRESS);
    assert_eq!(mwan4::prober::EAGAIN, libc::EAGAIN);
    assert_eq!(numbers.econnrefused, libc::ECONNREFUSED);
}
