use mwan4::addr::Ipv4Addr;
use mwan4::errno::ErrorNumbers;
use mwan4::netlink::conntrack::{
    append_delete_msg, build_msg, extract_matching_orig_tuple, tuple_matches_ip, ConntrackManager,
    FlushEvent, FlushStep, NfGenMsg, CTA_IP_V4_DST, CTA_IP_V4_SRC, CTA_TUPLE_IP, CTA_TUPLE_ORIG,
    CTA_TUPLE_REPLY, CT_DELETE, CT_DUMP_FLAGS, CT_GET, CT_NEW, DELETE_BATCH_LIMIT,
};
use mwan4::netlink::link::{
    drain, parse_events, DrainStep, LinkEvent, LinkReceived, IFF_RUNNING, IFF_UP,
    LINK_GROUPS, RTM_DELLINK, RTM_NEWADDR, RTM_NEWLINK, RTNLGRP_IPV4_IFADDR, RTNLGRP_IPV6_IFADDR,
    RTNLGRP_LINK,
};
use mwan4::netlink::message::{finish_msg, parse_attrs, split_messages};
use mwan4::netlink::text::{cut_at_nul, parse_extack, parse_ifla_ifname, IFLA_IFNAME};
use mwan4::netlink::util::{read_u16, ByteOrder, NlMsgHdr};

/// The numbers of a MIPS machine.
const MIPS: ErrorNumbers = ErrorNumbers {
    einprogress: 150,
    econnrefused: 146,
    enobufs: 132,
    enosys: 89,
    eopnotsupp: 122,
    eafnosupport: 124,
};

fn order() -> ByteOrder {
    ByteOrder::native()
}

fn nf_attr(attr_type: u16, payload: &[u8]) -> Vec<u8> {
    let mut v = Vec::new();
    let len = (4 + payload.len()) as u16;
    v.extend_from_slice(&len.to_ne_bytes());
    v.extend_from_slice(&attr_type.to_ne_bytes());
    v.extend_from_slice(payload);
    while v.len() % 4 != 0 {
        v.push(0);
    }
    v
}

#[test]
fn test_tuple_matches_ip() {
    let ip = Ipv4Addr::new(10, 0, 0, 5);
    let mut inner = nf_attr(CTA_IP_V4_SRC, &[10, 0, 0, 5]);
    inner.extend_from_slice(&nf_attr(CTA_IP_V4_DST, &[8, 8, 8, 8]));
    let tuple = nf_attr(CTA_TUPLE_IP, &inner);

    assert!(tuple_matches_ip(order(), &tuple, &[ip]));
    assert!(tuple_matches_ip(order(), &tuple, &[Ipv4Addr::new(9, 9, 9, 9), ip]));
    assert!(!tuple_matches_ip(order(), &tuple, &[Ipv4Addr::new(10, 0, 0, 6)]));
}

#[test]
fn test_extract_matching_orig_tuple() {
    let ip = Ipv4Addr::new(203, 0, 113, 9);
    let mut inner = nf_attr(CTA_IP_V4_SRC, &[192, 168, 1, 100]);
    inner.extend_from_slice(&nf_attr(CTA_IP_V4_DST, &[8, 8, 8, 8]));
    let orig = nf_attr(CTA_TUPLE_ORIG, &nf_attr(CTA_TUPLE_IP, &inner));

    let mut r_inner = nf_attr(CTA_IP_V4_SRC, &[8, 8, 8, 8]);
    r_inner.extend_from_slice(&nf_attr(CTA_IP_V4_DST, &[203, 0, 113, 9]));
    let reply = nf_attr(CTA_TUPLE_REPLY, &nf_attr(CTA_TUPLE_IP, &r_inner));

    let mut attrs = orig.clone();
    attrs.extend_from_slice(&reply);

    let extracted = extract_matching_orig_tuple(order(), &attrs, &[ip]);
    assert_eq!(extracted, Some((0, orig.len())));
    let (start, end) = extracted.unwrap();
    assert_eq!(&attrs[start..end], &orig[..]);

    assert!(
        extract_matching_orig_tuple(order(), &attrs, &[Ipv4Addr::new(1, 2, 3, 4), ip]).is_some()
    );

    assert!(extract_matching_orig_tuple(order(), &attrs, &[Ipv4Addr::new(1, 2, 3, 4)]).is_none());
}

#[test]
fn the_original_tuple_may_come_second_and_flagged() {
    let ip = Ipv4Addr::new(203, 0, 113, 9);
    let inner = nf_attr(CTA_IP_V4_DST, &[203, 0, 113, 9]);
    let reply = nf_attr(CTA_TUPLE_REPLY | 0x8000, &nf_attr(CTA_TUPLE_IP | 0x8000, &inner));
    let orig = nf_attr(CTA_TUPLE_ORIG | 0x8000, &[1, 2, 3]);
    let mut attrs = reply.clone();
    attrs.extend_from_slice(&orig);
    assert_eq!(
        extract_matching_orig_tuple(order(), &attrs, &[ip]),
        Some((reply.len(), reply.len() + 7))
    );
    // Without an original tuple there is nothing to delete by.
    assert_eq!(extract_matching_orig_tuple(order(), &reply, &[ip]), None);
}

#[test]
fn test_nfgenmsg_layout() {
    let m = NfGenMsg { nfgen_family: 2, version: 0, res_id: 0 };
    assert_eq!(m.to_bytes(order()), [2, 0, 0, 0]);
}

#[test]
fn a_deletion_is_padded_in_the_batch() {
    let mut batch = vec![9u8];
    append_delete_msg(ByteOrder::Little, &mut batch, 5, &[7, 7, 7]);
    let want: Vec<u8> = vec![
        9, // what was there
        23, 0, 0, 0, 2, 1, 1, 0, 5, 0, 0, 0, 0, 0, 0, 0, // header
        2, 0, 0, 0, // fixed part
        7, 7, 7, 0, // tuple and padding
    ];
    assert_eq!(batch, want);
}

fn connection(seq: u32, orig: &[u8], reply_dst: [u8; 4]) -> Vec<u8> {
    let mut payload = orig.to_vec();
    let inner = nf_attr(CTA_IP_V4_DST, &reply_dst);
    payload.extend_from_slice(&nf_attr(CTA_TUPLE_REPLY, &nf_attr(CTA_TUPLE_IP, &inner)));
    build_msg(order(), CT_NEW, 2, seq, &payload)
}

fn done(seq: u32) -> Vec<u8> {
    finish_msg(order(), &vec![0u8; 4], 3, 2, seq)
}

#[test]
fn a_flush_deletes_what_matches() {
    let mut m = ConntrackManager::new();
    let known = [None, Some(Ipv4Addr::new(10, 0, 0, 1)), None];
    let (mut run, step) = m.flush_interfaces_conntrack(&known).expect("an address is known");
    let dump = match step {
        FlushStep::Send(b) => b,
        _ => panic!("the dump request comes first"),
    };
    let hdr = NlMsgHdr::from_bytes(order(), &dump).unwrap();
    assert_eq!((hdr.nlmsg_type, hdr.nlmsg_flags, hdr.nlmsg_seq), (CT_GET, CT_DUMP_FLAGS, 2));
    assert_eq!(dump.len(), 20);

    assert!(matches!(m.resume_flush(&mut run, FlushEvent::Sent(Ok(()))), FlushStep::Receive));
    assert!(matches!(m.resume_flush(&mut run, FlushEvent::Interrupted), FlushStep::Receive));

    let orig = nf_attr(CTA_TUPLE_ORIG, &[1, 2, 3, 4]);
    let mut buf = connection(2, &orig, [10, 0, 0, 1]);
    buf.extend_from_slice(&connection(2, &orig, [10, 0, 0, 2])); // another address
    buf.extend_from_slice(&connection(1, &orig, [10, 0, 0, 1])); // an earlier dump
    buf.extend_from_slice(&finish_msg(order(), &vec![0u8; 4], 2, 0, 77)); // a failed deletion
    buf.extend_from_slice(&connection(2, &orig, [10, 0, 0, 1]));
    assert!(matches!(m.resume_flush(&mut run, FlushEvent::Received(buf)), FlushStep::Receive));

    let batch = match m.resume_flush(&mut run, FlushEvent::Received(done(2))) {
        FlushStep::Send(b) => b,
        _ => panic!("what waits is sent at the end"),
    };
    let msgs = split_messages(order(), &batch);
    assert_eq!(msgs.len(), 2);
    for (i, msg) in msgs.iter().enumerate() {
        let hdr = NlMsgHdr::from_bytes(order(), msg).unwrap();
        assert_eq!(hdr.nlmsg_type, CT_DELETE);
        assert_eq!(hdr.nlmsg_seq, 3 + i as u32);
        assert_eq!(&msg[20..], &orig[..]);
    }
    match m.resume_flush(&mut run, FlushEvent::Sent(Ok(()))) {
        FlushStep::Done(r) => assert_eq!(r, Ok(2)),
        _ => panic!("the flush is over"),
    }
}

#[test]
fn a_flush_without_addresses_does_nothing() {
    let mut m = ConntrackManager::new();
    assert!(m.flush_interfaces_conntrack(&[None, None]).is_none());
    assert_eq!(m.seq, 1);
}

#[test]
fn a_failed_dump_or_send_ends_a_flush() {
    let mut m = ConntrackManager::new();
    let (mut run, _) = m.flush_by_ips(&[Ipv4Addr::new(10, 0, 0, 1)]);
    let refused = finish_msg(order(), &vec![0u8; 4], 2, 0, 2);
    match m.resume_flush(&mut run, FlushEvent::Received(refused)) {
        FlushStep::Done(r) => assert_eq!(r, Ok(0)),
        _ => panic!("the dump has failed"),
    }

    let (mut run, _) = m.flush_by_ips(&[Ipv4Addr::new(10, 0, 0, 1)]);
    match m.resume_flush(&mut run, FlushEvent::Sent(Err(105))) {
        FlushStep::Done(r) => assert_eq!(r, Err(105)),
        _ => panic!("nothing could be sent"),
    }

    let (mut run, _) = m.flush_by_ips(&[Ipv4Addr::new(10, 0, 0, 1)]);
    assert!(matches!(
        m.resume_flush(&mut run, FlushEvent::Silent),
        FlushStep::Done(Ok(0))
    ));
}

#[test]
fn long_flushes_are_sent_in_batches() {
    let mut m = ConntrackManager::new();
    let (mut run, _) = m.flush_by_ips(&[Ipv4Addr::new(10, 0, 0, 1)]);
    let orig = nf_attr(CTA_TUPLE_ORIG, &[0u8; 60]);
    let mut buf = Vec::new();
    for _ in 0..300 {
        buf.extend_from_slice(&connection(2, &orig, [10, 0, 0, 1]));
    }
    let mut sent = 0usize;
    let mut step = m.resume_flush(&mut run, FlushEvent::Received(buf));
    loop {
        step = match step {
            FlushStep::Send(b) => {
                assert!(sent > 0 || b.len() >= DELETE_BATCH_LIMIT);
                sent += split_messages(order(), &b).len();
                m.resume_flush(&mut run, FlushEvent::Sent(Ok(())))
            }
            FlushStep::Receive => m.resume_flush(&mut run, FlushEvent::Received(done(2))),
            FlushStep::Done(r) => {
                assert_eq!(r, Ok(300));
                break;
            }
        };
    }
    assert_eq!(sent, 300);
}

#[test]
fn test_link_event_ifindex_accessor() {
    let e = LinkEvent::Link { ifindex: 7, ifname: Some("wan1".into()), carrier_up: true };
    assert_eq!(e.ifindex(), 7);

    let a = LinkEvent::Address { ifindex: 9 };
    assert_eq!(a.ifindex(), 9);

    assert_eq!(LinkEvent::Resync.ifindex(), 0);
}

#[test]
fn test_parse_ifla_ifname() {
    let mut attrs = Vec::new();
    attrs.extend_from_slice(&9u16.to_ne_bytes());
    attrs.extend_from_slice(&IFLA_IFNAME.to_ne_bytes());
    attrs.extend_from_slice(b"wan1\0");
    attrs.extend_from_slice(&[0, 0, 0]);
    assert_eq!(parse_ifla_ifname(order(), &attrs).as_deref(), Some("wan1"));

    let mut mixed = Vec::new();
    mixed.extend_from_slice(&8u16.to_ne_bytes());
    mixed.extend_from_slice(&1u16.to_ne_bytes());
    mixed.extend_from_slice(&[0, 0, 0, 0]);
    mixed.extend_from_slice(&attrs);
    assert_eq!(parse_ifla_ifname(order(), &mixed).as_deref(), Some("wan1"));

    assert_eq!(parse_ifla_ifname(order(), &[0, 0, 0, 0]), None);
}

#[test]
fn invalid_names_are_shown_as_well_as_possible() {
    let attrs = nf_attr(IFLA_IFNAME, &[b'w', 0xff, b'n', 0]);
    assert_eq!(parse_ifla_ifname(order(), &attrs).as_deref(), Some("w\u{fffd}n"));
}

#[test]
fn test_iff_constants() {
    assert_eq!(IFF_UP, 0x1);
    assert_eq!(IFF_RUNNING, 0x40);
}

#[test]
fn test_group_bitmask() {
    let mask = (1u32 << (RTNLGRP_LINK - 1))
        | (1u32 << (RTNLGRP_IPV4_IFADDR - 1))
        | (1u32 << (RTNLGRP_IPV6_IFADDR - 1));
    assert_eq!(mask, (1 << 0) | (1 << 4) | (1 << 8));
    assert_eq!(mask & (1 << 0), 1 << 0);
    assert_eq!(LINK_GROUPS, mask);
}

fn link_msg(msg_type: u16, ifindex: u32, flags: u32, name: &str) -> Vec<u8> {
    let mut body = vec![0u8; 4];
    body.extend_from_slice(&ifindex.to_ne_bytes());
    body.extend_from_slice(&flags.to_ne_bytes());
    body.extend_from_slice(&[0u8; 4]);
    let mut text = name.as_bytes().to_vec();
    text.push(0);
    body.extend_from_slice(&nf_attr(IFLA_IFNAME, &text));
    finish_msg(order(), &body, msg_type, 0, 0)
}

#[test]
fn events_are_read_from_a_buffer() {
    let mut buf = link_msg(RTM_NEWLINK, 7, IFF_UP | IFF_RUNNING, "wan1");
    buf.extend_from_slice(&link_msg(RTM_NEWLINK, 8, IFF_UP, "wan2"));
    buf.extend_from_slice(&link_msg(RTM_DELLINK, 9, IFF_UP | IFF_RUNNING, "wan3"));
    let mut addr = vec![2u8, 24, 0, 0];
    addr.extend_from_slice(&11u32.to_ne_bytes());
    buf.extend_from_slice(&finish_msg(order(), &addr, RTM_NEWADDR, 0, 0));
    buf.extend_from_slice(&finish_msg(order(), &vec![0u8; 8], 99, 0, 0));
    let mut events = Vec::new();
    parse_events(order(), &buf, &mut events);
    assert_eq!(
        events,
        vec![
            LinkEvent::Link { ifindex: 7, ifname: Some("wan1".into()), carrier_up: true },
            LinkEvent::Link { ifindex: 8, ifname: Some("wan2".into()), carrier_up: false },
            LinkEvent::Link { ifindex: 9, ifname: Some("wan3".into()), carrier_up: false },
            LinkEvent::Address { ifindex: 11 },
        ]
    );
}

#[test]
fn draining_goes_on_until_nothing_is_left() {
    let mut events = Vec::new();
    let buf = link_msg(RTM_NEWLINK, 7, 0, "wan1");
    assert_eq!(drain(order(), MIPS, LinkReceived::Bytes(buf), &mut events), DrainStep::More);
    assert_eq!(drain(order(), MIPS, LinkReceived::Interrupted, &mut events), DrainStep::More);
    assert_eq!(drain(order(), MIPS, LinkReceived::Empty, &mut events), DrainStep::Over);
    assert_eq!(events.len(), 1);
    assert_eq!(drain(order(), MIPS, LinkReceived::Failed(105), &mut events), DrainStep::Failed(105));
    assert_eq!(drain(order(), MIPS, LinkReceived::Failed(9), &mut events), DrainStep::Failed(9));
    assert_eq!(drain(order(), MIPS, LinkReceived::Failed(132), &mut events), DrainStep::Over);
    assert_eq!(events, vec![LinkEvent::Resync]);
    let native = ErrorNumbers::native();
    let lost = LinkReceived::Failed(libc::ENOBUFS);
    assert_eq!(drain(order(), native, lost, &mut events), DrainStep::Over);
}

#[test]
fn a_bad_length_ends_the_buffer() {
    let mut buf = link_msg(RTM_NEWLINK, 7, 0, "wan1");
    let len = buf.len();
    buf.extend_from_slice(&[4, 0, 0, 0]);
    buf.extend_from_slice(&[0u8; 40]);
    assert_eq!(split_messages(ByteOrder::Little, &buf[..len]).len(), split_messages(order(), &buf).len());
    assert_eq!(parse_attrs(order(), &[3, 0, 1, 0, 5, 5], 0, 6).len(), 0);
}

fn error_reply(explanation: Option<&[u8]>) -> Vec<u8> {
    let mut body = (-22i32).to_ne_bytes().to_vec();
    body.extend_from_slice(&[0u8; 16]);
    if let Some(text) = explanation {
        body.extend_from_slice(&nf_attr(1, text));
    }
    finish_msg(order(), &body, 2, 0, 5)
}

#[test]
fn the_kernel_explains_its_refusals() {
    let msg = error_reply(Some(b"Invalid scope\0"));
    assert_eq!(parse_extack(order(), &msg, msg.len()).as_deref(), Some("Invalid scope"));
    let bare = error_reply(None);
    assert_eq!(parse_extack(order(), &bare, bare.len()), None);
    let empty = error_reply(Some(b"\0"));
    assert_eq!(parse_extack(order(), &empty, empty.len()), None);
    assert_eq!(parse_extack(order(), &bare, 10), None);
    assert_eq!(cut_at_nul(b"ab\0c"), b"ab".to_vec());
    assert_eq!(cut_at_nul(b"abc"), b"abc".to_vec());
    assert_eq!(read_u16(order(), &msg, 4), Some(2));
}
