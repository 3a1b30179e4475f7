use mwan4::addr::{Ipv4Addr, Ipv6Addr};
use mwan4::config::EcmpMode;
use mwan4::errno::ErrorNumbers;
use mwan4::netlink::apply::{ApplyRun, Event, Step};
use mwan4::netlink::cleanup::HostEvent;
use mwan4::netlink::manager::{
    ActiveWanRoute, ActiveWanRouteV6, InstalledVariant, ProbePath, RouteManager,
};
use mwan4::netlink::message::finish_msg;
use mwan4::netlink::reply::{
    ack_reply, commit_msg, commit_rule_msg, is_absent_object, lookup_reply, message_is_delete,
    should_give_up_on_resilient, AckStep, AckWait, DumpProgress, LookupStep, LookupWait,
    NetlinkError, Received, ACK_RETRY_LIMIT, EEXIST, EINVAL, ENOENT, ESRCH,
};
use mwan4::netlink::route::{
    build_route_msg, build_route_msg_ex, RouteNexthop, RouteTarget, AF_INET, NH_GROUP_ID_V4,
    PROBE_MAIN_ROUTE_METRIC, RTM_DELNEXTHOP, RTM_DELROUTE, RTM_DELRULE, RTM_GETROUTE,
    RTM_NEWNEXTHOP, RTM_NEWROUTE, RTM_NEWRULE, UNDERLAY_ROUTE_METRIC,
};
use mwan4::netlink::util::{read_u32, ByteOrder, NlMsgHdr};

/// The numbers of a MIPS machine.
const MIPS: ErrorNumbers = ErrorNumbers {
    einprogress: 150,
    econnrefused: 146,
    enobufs: 132,
    enosys: 89,
    eopnotsupp: 122,
    eafnosupport: 124,
};

fn order() -> ByteOrder {
    ByteOrder::native()
}

fn wan(name: &str, ifindex: u32, underlay: Vec<Ipv4Addr>) -> ActiveWanRoute {
    ActiveWanRoute {
        ifname: name.to_string(),
        ifindex,
        gateway: Some(Ipv4Addr::new(192, 168, ifindex as u8, 1)),
        weight: 1,
        metric: 1,
        underlay_targets: underlay,
    }
}

type Answer = Result<(), NetlinkError>;

/// Runs an operation to its end. `kernel` answers each request by its type and
/// number in the row; `routes` are the default routes of the main table.
fn run_apply(
    m: &mut RouteManager,
    mut run: ApplyRun,
    mut step: Step,
    routes: &[(u32, u32)],
    kernel: &dyn Fn(usize, u16) -> Answer,
) -> (Vec<u16>, Answer) {
    let mut sent = Vec::new();
    loop {
        step = match step {
            Step::Send(msg) => {
                let kind = NlMsgHdr::from_bytes(order(), &msg).unwrap().nlmsg_type;
                let answer = kernel(sent.len(), kind);
                sent.push(kind);
                m.resume_apply(&mut run, Event::Answer(answer))
            }
            Step::Query(msg) => {
                let kind = NlMsgHdr::from_bytes(order(), &msg).unwrap().nlmsg_type;
                assert_eq!(kind, RTM_GETROUTE);
                sent.push(kind);
                m.resume_apply(&mut run, Event::Routes(Ok(routes.to_vec())))
            }
            Step::Done(r) => return (sent, r),
        };
    }
}

fn apply(
    m: &mut RouteManager,
    wans: &[ActiveWanRoute],
    routes: &[(u32, u32)],
    kernel: &dyn Fn(usize, u16) -> Answer,
) -> (Vec<u16>, Answer) {
    assert!(m.has_room(wans.len()));
    let (run, step) = m.apply_default_routes(wans);
    run_apply(m, run, step, routes, kernel)
}

fn accept(_: usize, _: u16) -> Answer {
    Ok(())
}

#[test]
fn standard_mode_replaces_the_route_in_one_request() {
    let mut m = RouteManager::new(0, EcmpMode::Standard);
    let wans = [wan("wan1", 3, vec![]), wan("wan2", 4, vec![])];
    assert_eq!(apply(&mut m, &wans, &[], &accept), (vec![RTM_NEWROUTE], Ok(())));
    assert_eq!(m.installed_v4, InstalledVariant::Standard);
    assert_eq!(m.seq, 2);

    let e = NetlinkError::Os(19);
    assert_eq!(apply(&mut m, &wans, &[], &|_, _| Err(e)), (vec![RTM_NEWROUTE], Err(e)));
}

#[test]
fn the_first_request_is_the_exact_route() {
    let mut m = RouteManager::with_order(ByteOrder::Little, MIPS, 7, EcmpMode::Standard);
    let (_, step) = m.apply_default_routes(&[wan("wan1", 3, vec![])]);
    let want = build_route_msg(
        ByteOrder::Little,
        7,
        AF_INET,
        &[RouteNexthop { ifindex: 3, gateway: Some(vec![192, 168, 3, 1]), weight: 1 }],
        RTM_NEWROUTE,
        0x505,
        2,
    );
    match step {
        Step::Send(msg) => assert_eq!(msg, want),
        _ => panic!("a request goes out"),
    }
}

#[test]
fn a_gateway_of_zeros_is_none() {
    let mut m = RouteManager::with_order(ByteOrder::Little, MIPS, 0, EcmpMode::Standard);
    let mut w = wan("ppp0", 3, vec![]);
    w.gateway = Some(Ipv4Addr::new(0, 0, 0, 0));
    let (run, _) = m.apply_default_routes(&[w]);
    assert!(run.hops[0].gateway.is_none());
    let v6 = ActiveWanRouteV6 {
        ifname: "ppp0".into(),
        ifindex: 3,
        gateway: Some(Ipv6Addr::new(0, 0, 0, 0, 0, 0, 0, 0)),
        weight: 1,
    };
    let (run, _) = m.apply_ipv6_default_routes(&[v6]);
    assert!(run.hops[0].gateway.is_none());
}

#[test]
fn with_all_lines_down_the_only_route_stays() {
    let mut m = RouteManager::new(5, EcmpMode::Standard);
    apply(&mut m, &[wan("wan1", 3, vec![])], &[], &accept);
    // Only ours is there.
    assert_eq!(apply(&mut m, &[], &[(254, 5)], &accept), (vec![RTM_GETROUTE], Ok(())));
    assert_eq!(m.installed_v4, InstalledVariant::Standard);
    // There is another one to fall back to.
    assert_eq!(
        apply(&mut m, &[], &[(254, 5), (254, 10)], &accept),
        (vec![RTM_GETROUTE, RTM_DELROUTE], Ok(()))
    );
    assert_eq!(m.installed_v4, InstalledVariant::Absent);
    // A route that is gone already is no failure; any other error is.
    let gone = NetlinkError::Os(ESRCH);
    assert_eq!(apply(&mut m, &[], &[(254, 10)], &|_, _| Err(gone)).1, Ok(()));
    let e = NetlinkError::Os(1);
    assert_eq!(apply(&mut m, &[], &[(254, 10)], &|_, _| Err(e)).1, Err(e));
}

#[test]
fn resilient_mode_makes_members_group_and_route() {
    let mut m = RouteManager::new(0, EcmpMode::Resilient);
    let wans = [wan("wan1", 3, vec![]), wan("wan2", 4, vec![])];
    assert_eq!(
        apply(&mut m, &wans, &[], &accept),
        (vec![RTM_NEWNEXTHOP, RTM_NEWNEXTHOP, RTM_NEWNEXTHOP, RTM_NEWROUTE], Ok(()))
    );
    assert_eq!(m.installed_v4, InstalledVariant::Resilient);
    assert_eq!(m.nh_ids.len(), 2);

    // One line less: its object goes once the group no longer holds it.
    assert_eq!(
        apply(&mut m, &wans[..1], &[], &accept),
        (vec![RTM_NEWNEXTHOP, RTM_NEWNEXTHOP, RTM_NEWROUTE, RTM_DELNEXTHOP], Ok(()))
    );
    assert_eq!(m.nh_ids.len(), 1);
    assert_eq!(m.nh_ids[0].ifindex, 3);
    assert_eq!(m.nh_ids[0].id, 1);
}

#[test]
fn forced_mode_cleans_up_and_reports() {
    let mut m = RouteManager::new(0, EcmpMode::Resilient);
    let wans = [wan("wan1", 3, vec![])];
    let e = NetlinkError::Os(EINVAL);
    // The member is made, the group is refused.
    let kernel = move |n: usize, _: u16| if n == 1 { Err(e) } else { Ok(()) };
    assert_eq!(
        apply(&mut m, &wans, &[], &kernel),
        (vec![RTM_NEWNEXTHOP, RTM_NEWNEXTHOP, RTM_DELNEXTHOP, RTM_DELNEXTHOP], Err(e))
    );
    assert_eq!(m.installed_v4, InstalledVariant::Absent);
    assert!(m.nh_ids.is_empty());
    assert_eq!(m.resilient_supported, None);
}

#[test]
fn automatic_mode_falls_back() {
    let mut m = RouteManager::new(0, EcmpMode::Auto);
    let wans = [wan("wan1", 3, vec![])];
    let busy = NetlinkError::Os(16);
    let kernel = move |n: usize, _: u16| if n == 0 { Err(busy) } else { Ok(()) };
    assert_eq!(
        apply(&mut m, &wans, &[], &kernel),
        (vec![RTM_NEWNEXTHOP, RTM_DELNEXTHOP, RTM_DELNEXTHOP, RTM_NEWROUTE], Ok(()))
    );
    // That was no reason to give up for good.
    assert_eq!(m.resilient_supported, None);
    assert_eq!(m.installed_v4, InstalledVariant::Standard);

    let unknown = NetlinkError::Os(ErrorNumbers::native().eopnotsupp);
    // First the multipath route goes, then a member is tried.
    let kernel = move |n: usize, _: u16| if n == 1 { Err(unknown) } else { Ok(()) };
    assert_eq!(
        apply(&mut m, &wans, &[], &kernel),
        (
            vec![RTM_DELROUTE, RTM_NEWNEXTHOP, RTM_DELNEXTHOP, RTM_DELNEXTHOP, RTM_NEWROUTE],
            Ok(())
        )
    );
    assert_eq!(m.resilient_supported, Some(false));
    assert_eq!(apply(&mut m, &wans, &[], &accept), (vec![RTM_NEWROUTE], Ok(())));

    let mut m = RouteManager::new(0, EcmpMode::Auto);
    assert_eq!(apply(&mut m, &wans, &[], &accept).1, Ok(()));
    assert_eq!(m.resilient_supported, Some(true));
    assert_eq!(m.installed_v4, InstalledVariant::Resilient);
}

#[test]
fn automatic_mode_knows_the_numbers_of_the_machine() {
    let native = ByteOrder::native();
    for (n, supported) in [(122, Some(false)), (95, None)] {
        let mut m = RouteManager::with_order(native, MIPS, 0, EcmpMode::Auto);
        let kernel = move |k: usize, _: u16| {
            if k == 0 {
                Err(NetlinkError::Os(n))
            } else {
                Ok(())
            }
        };
        assert_eq!(apply(&mut m, &[wan("wan1", 3, vec![])], &[], &kernel).1, Ok(()));
        assert_eq!(m.resilient_supported, supported);
    }
}

#[test]
fn too_many_lines_for_a_group_share_a_multipath_route() {
    let mut m = RouteManager::new(0, EcmpMode::Auto);
    let wans: Vec<ActiveWanRoute> = (1..=257).map(|i| wan("w", i, vec![])).collect();
    assert_eq!(
        apply(&mut m, &wans, &[], &accept),
        (vec![RTM_DELNEXTHOP, RTM_NEWROUTE], Ok(()))
    );
    assert_eq!(m.resilient_supported, Some(false));
}

#[test]
fn objects_that_cannot_be_deleted_stay_known() {
    let mut m = RouteManager::new(0, EcmpMode::Resilient);
    let wans = [wan("wan1", 3, vec![]), wan("wan2", 4, vec![])];
    apply(&mut m, &wans, &[], &accept);
    let busy = NetlinkError::Os(16);
    let kernel = move |_: usize, kind: u16| {
        if kind == RTM_DELNEXTHOP {
            Err(busy)
        } else {
            Ok(())
        }
    };
    assert_eq!(apply(&mut m, &wans[..1], &[], &kernel).1, Ok(()));
    assert_eq!(m.nh_ids.len(), 2);
    // The next time it is tried again, with the same identifier.
    assert_eq!(apply(&mut m, &wans[..1], &[], &accept).1, Ok(()));
    assert_eq!(m.nh_ids.len(), 1);
}

#[test]
fn tunnel_peers_get_host_routes() {
    let mut m = RouteManager::new(0, EcmpMode::Standard);
    let peer = Ipv4Addr::new(10, 128, 0, 20);
    let wans = [wan("eth1", 3, vec![]), wan("vxlan0", 45, vec![peer])];
    assert_eq!(apply(&mut m, &wans, &[], &accept), (vec![RTM_NEWROUTE, RTM_NEWROUTE], Ok(())));
    assert_eq!(m.underlay_routes, vec![(peer, 3, Some(vec![192, 168, 3, 1]))]);
    // What is there is not made again.
    assert_eq!(apply(&mut m, &wans, &[], &accept).0, vec![RTM_NEWROUTE]);
    // A refusal does not keep the default route from being made, but is not recorded.
    let other = [wan("eth2", 5, vec![]), wan("vxlan0", 45, vec![peer])];
    let kernel = |n: usize, _: u16| if n == 0 { Err(NetlinkError::Os(101)) } else { Ok(()) };
    assert_eq!(apply(&mut m, &other, &[], &kernel), (vec![RTM_NEWROUTE, RTM_NEWROUTE], Ok(())));
    assert_eq!(m.underlay_routes[0].1, 3);
    // The tunnel is gone: so is its route.
    assert_eq!(
        apply(&mut m, &wans[..1], &[], &accept).0,
        vec![RTM_DELROUTE, RTM_NEWROUTE]
    );
    assert!(m.underlay_routes.is_empty());
}

#[test]
fn ipv6_follows_the_mode() {
    let mut m = RouteManager::new(0, EcmpMode::Resilient);
    let v6 = ActiveWanRouteV6 {
        ifname: "wan1".into(),
        ifindex: 3,
        gateway: Some(Ipv6Addr::new(0xfe80, 0, 0, 0, 0, 0, 0, 1)),
        weight: 2,
    };
    let (run, step) = m.apply_ipv6_default_routes(&[v6]);
    assert_eq!(
        run_apply(&mut m, run, step, &[], &accept),
        (vec![RTM_NEWNEXTHOP, RTM_NEWNEXTHOP, RTM_NEWROUTE], Ok(()))
    );
    assert_eq!(m.installed_v6, InstalledVariant::Resilient);
    assert_eq!(m.installed_v4, InstalledVariant::Absent);
}

fn path(name: &str, slot: u32, hosts: Vec<Ipv4Addr>) -> ProbePath {
    ProbePath {
        ifname: name.to_string(),
        ifindex: slot + 1,
        gateway: Some(Ipv4Addr::new(10, 0, slot as u8, 1)),
        targets: hosts.clone(),
        table: 10_000 + slot,
        priority: 10_000 + slot,
        main_route_targets: hosts,
    }
}

fn set_paths(
    m: &mut RouteManager,
    wanted: &[ProbePath],
    kernel: &dyn Fn(usize, u16) -> Answer,
) -> (Vec<u16>, Answer) {
    let mut sent = Vec::new();
    let (mut run, mut step) = m.set_probe_paths(wanted);
    loop {
        step = match step {
            Step::Send(msg) => {
                let kind = NlMsgHdr::from_bytes(order(), &msg).unwrap().nlmsg_type;
                let answer = kernel(sent.len(), kind);
                sent.push(kind);
                m.resume_probe_paths(&mut run, answer)
            }
            Step::Query(_) => panic!("nothing is asked"),
            Step::Done(r) => return (sent, r),
        };
    }
}

#[test]
fn probe_paths_are_put_in_place_and_taken_away() {
    let mut m = RouteManager::new(0, EcmpMode::Standard);
    let host = Ipv4Addr::new(1, 1, 1, 1);
    let wanted = [path("wan1", 0, vec![host]), path("wan2", 1, vec![])];
    let install = vec![RTM_NEWRULE, RTM_NEWROUTE, RTM_NEWROUTE, RTM_NEWRULE, RTM_NEWROUTE];
    assert_eq!(set_paths(&mut m, &wanted, &accept), (install.clone(), Ok(())));
    assert_eq!(m.probe_paths.len(), 2);
    // Repeating it puts everything in place again, whatever is known.
    let present = |_: usize, kind: u16| {
        if kind == RTM_NEWRULE {
            Err(NetlinkError::Os(EEXIST))
        } else {
            Ok(())
        }
    };
    assert_eq!(set_paths(&mut m, &wanted, &present), (install, Ok(())));
    // A path that is not wanted any more goes: host route, table, rule.
    assert_eq!(
        set_paths(&mut m, &wanted[1..], &accept).0,
        vec![RTM_DELROUTE, RTM_DELROUTE, RTM_DELRULE, RTM_NEWRULE, RTM_NEWROUTE]
    );
    assert_eq!(m.probe_paths.len(), 1);
    assert_eq!(m.probe_paths[0].ifname, "wan2");
    // A path that has changed is taken away first.
    let changed = [path("wan2", 1, vec![host])];
    assert_eq!(
        set_paths(&mut m, &changed, &accept).0,
        vec![RTM_DELROUTE, RTM_DELRULE, RTM_NEWRULE, RTM_NEWROUTE, RTM_NEWROUTE]
    );
    assert_eq!(m.probe_paths[0].main_route_targets, vec![host]);
}

#[test]
fn one_bad_path_does_not_stop_the_others() {
    let mut m = RouteManager::new(0, EcmpMode::Standard);
    let wanted = [path("wan1", 0, vec![]), path("wan2", 1, vec![])];
    let nodev = NetlinkError::Os(19);
    let kernel = move |n: usize, _: u16| if n == 0 { Err(nodev) } else { Ok(()) };
    assert_eq!(
        set_paths(&mut m, &wanted, &kernel),
        (vec![RTM_NEWRULE, RTM_NEWRULE, RTM_NEWROUTE], Err(nodev))
    );
    assert_eq!(m.probe_paths.len(), 1);
    assert_eq!(m.probe_paths[0].ifname, "wan2");
    // Of several failures the first is told, and every path is still tried.
    let mut other = RouteManager::new(0, EcmpMode::Standard);
    let numbered = |n: usize, _: u16| Err(NetlinkError::Os(100 + n as i32));
    assert_eq!(
        set_paths(&mut other, &wanted, &numbered),
        (vec![RTM_NEWRULE, RTM_NEWRULE], Err(NetlinkError::Os(100)))
    );
    // A path that cannot be removed stays known.
    let busy = NetlinkError::Os(16);
    assert_eq!(set_paths(&mut m, &[], &|_, _| Err(busy)).1, Err(busy));
    assert_eq!(m.probe_paths.len(), 1);
    // Rules and routes that are not there any more count as removed.
    let gone = NetlinkError::Os(ENOENT);
    assert_eq!(set_paths(&mut m, &[], &|_, _| Err(gone)).1, Ok(()));
    assert!(m.probe_paths.is_empty());
}

fn cleanup(m: &mut RouteManager, kernel: &dyn Fn(usize, u16) -> Answer) -> (Vec<u16>, Answer) {
    let mut sent = Vec::new();
    let (mut run, mut step) = m.cleanup_routes();
    loop {
        step = match step {
            Step::Send(msg) => {
                let kind = NlMsgHdr::from_bytes(order(), &msg).unwrap().nlmsg_type;
                let answer = kernel(sent.len(), kind);
                sent.push(kind);
                m.resume_cleanup(&mut run, answer)
            }
            Step::Query(_) => panic!("nothing is asked"),
            Step::Done(r) => return (sent, r),
        };
    }
}

#[test]
fn clean_up_takes_out_what_was_put_in() {
    let mut m = RouteManager::new(0, EcmpMode::Standard);
    // Nothing of ours is there: the default route is left alone.
    assert_eq!(cleanup(&mut m, &accept), (vec![RTM_DELNEXTHOP, RTM_DELNEXTHOP], Ok(())));

    apply(&mut m, &[wan("wan1", 3, vec![])], &[], &accept);
    set_paths(&mut m, &[path("wan1", 0, vec![])], &accept);
    assert_eq!(
        cleanup(&mut m, &accept),
        (
            vec![RTM_DELROUTE, RTM_DELRULE, RTM_DELNEXTHOP, RTM_DELNEXTHOP, RTM_DELROUTE],
            Ok(())
        )
    );
    assert_eq!(m.installed_v4, InstalledVariant::Absent);
    assert!(m.probe_paths.is_empty());
}

#[test]
fn clean_up_leaves_no_route_to_a_tunnel_peer() {
    let mut m = RouteManager::new(0, EcmpMode::Standard);
    let peers = vec![Ipv4Addr::new(10, 128, 0, 20), Ipv4Addr::new(10, 128, 0, 21)];
    apply(&mut m, &[wan("eth1", 3, vec![]), wan("vxlan0", 45, peers)], &[], &accept);
    assert_eq!(m.underlay_routes.len(), 2);
    // One of them is refused, and stays known.
    let busy = |n: usize, _: u16| if n == 3 { Err(NetlinkError::Os(16)) } else { Ok(()) };
    let (sent, r) = cleanup(&mut m, &busy);
    assert_eq!(
        sent,
        vec![RTM_DELNEXTHOP, RTM_DELNEXTHOP, RTM_DELROUTE, RTM_DELROUTE, RTM_DELROUTE]
    );
    assert_eq!(r, Ok(()));
    assert_eq!(m.underlay_routes.len(), 1);
    let (sent, r) = cleanup(&mut m, &accept);
    assert_eq!(sent, vec![RTM_DELNEXTHOP, RTM_DELNEXTHOP, RTM_DELROUTE]);
    assert_eq!(r, Ok(()));
    assert!(m.underlay_routes.is_empty());
}

#[test]
fn clean_up_of_a_resilient_route_leaves_others_alone() {
    let mut m = RouteManager::new(0, EcmpMode::Resilient);
    apply(&mut m, &[wan("wan1", 3, vec![])], &[], &accept);
    // Route, group and member; then the group of the other family. No multipath
    // route with the same metric is touched: it would not be ours.
    assert_eq!(
        cleanup(&mut m, &accept),
        (vec![RTM_DELROUTE, RTM_DELNEXTHOP, RTM_DELNEXTHOP, RTM_DELNEXTHOP], Ok(()))
    );
    assert!(m.nh_ids.is_empty());
}

#[test]
fn clean_up_reports_the_first_error_of_the_routes() {
    let mut m = RouteManager::new(0, EcmpMode::Standard);
    apply(&mut m, &[wan("wan1", 3, vec![])], &[], &accept);
    m.installed_v6 = InstalledVariant::Standard;
    let kernel = |n: usize, _: u16| if n >= 2 { Err(NetlinkError::Os(n as i32)) } else { Ok(()) };
    let (sent, r) = cleanup(&mut m, &kernel);
    assert_eq!(sent.len(), 4);
    // The third request was refused as "not there", which is fine.
    assert_eq!(r, Ok(()));
    m.installed_v4 = InstalledVariant::Standard;
    m.installed_v6 = InstalledVariant::Standard;
    let kernel = |n: usize, _: u16| if n >= 2 { Err(NetlinkError::Os(100 + n as i32)) } else { Ok(()) };
    assert_eq!(cleanup(&mut m, &kernel).1, Err(NetlinkError::Os(102)));
}

#[test]
fn single_deletions_of_the_default_route() {
    let mut m = RouteManager::with_order(ByteOrder::Little, MIPS, 3, EcmpMode::Standard);
    m.installed_v4 = InstalledVariant::Standard;
    let msg = m.delete_default_route();
    assert_eq!(
        msg,
        build_route_msg(ByteOrder::Little, 3, AF_INET, &[], RTM_DELROUTE, 5, 2)
    );
    assert_eq!(m.installed_v4, InstalledVariant::Absent);
    let msg = m.delete_ipv6_default_route();
    assert_eq!(msg[16], 10);
}

#[test]
fn sweeping_the_rules() {
    let mut m = RouteManager::new(0, EcmpMode::Standard);
    let (mut sweep, mut step) = m.sweep_probe_paths();
    let mut priorities = Vec::new();
    let result = loop {
        step = match step {
            Step::Send(msg) => {
                let hdr = NlMsgHdr::from_bytes(order(), &msg).unwrap();
                assert_eq!(hdr.nlmsg_type, RTM_DELRULE);
                priorities.push(read_u32(order(), &msg, 16 + 12 + 4).unwrap());
                let answer = match priorities.len() {
                    1 => Ok(()),
                    2 => Err(NetlinkError::Os(1)),
                    3 => Err(NetlinkError::Os(2)),
                    _ => Err(NetlinkError::Os(ENOENT)),
                };
                m.resume_rule_sweep(&mut sweep, answer)
            }
            Step::Query(_) => panic!("nothing is asked"),
            Step::Done(r) => break r,
        };
    };
    assert_eq!(priorities, (10_000..10_064).collect::<Vec<u32>>());
    assert_eq!(sweep.removed, 1);
    assert_eq!(result, Err(NetlinkError::Os(1)));
}

#[test]
fn sweeping_the_host_routes() {
    let mut m = RouteManager::with_order(ByteOrder::Little, MIPS, 0, EcmpMode::Standard);
    let a = Ipv4Addr::new(1, 1, 1, 1);
    let b = Ipv4Addr::new(8, 8, 8, 8);
    let (mut sweep, step) = m.sweep_own_probe_host_routes();
    assert!(matches!(step, Step::Query(_)));
    assert_eq!(sweep.metric, PROBE_MAIN_ROUTE_METRIC);
    let step = m.resume_host_sweep(&mut sweep, HostEvent::Routes(Ok(vec![(254, a, 32), (7, b, 32)])));
    let want = build_route_msg_ex(
        ByteOrder::Little,
        PROBE_MAIN_ROUTE_METRIC,
        AF_INET,
        RouteTarget { table: None, dst: Some((&[1, 1, 1, 1], 32)) },
        &[],
        RTM_DELROUTE,
        5,
        3,
    );
    match step {
        Step::Send(msg) => assert_eq!(msg, want),
        _ => panic!("the first victim goes"),
    }
    let step = m.resume_host_sweep(&mut sweep, HostEvent::Answer(Ok(())));
    match step {
        // A table other than the main one is named.
        Step::Send(msg) => assert_eq!(msg[28..36], [8, 0, 15, 0, 7, 0, 0, 0]),
        _ => panic!("the second victim goes"),
    }
    let step = m.resume_host_sweep(&mut sweep, HostEvent::Answer(Err(NetlinkError::Os(1))));
    assert!(matches!(step, Step::Query(_)));
    assert_eq!(sweep.metric, UNDERLAY_ROUTE_METRIC);
    let step = m.resume_host_sweep(&mut sweep, HostEvent::Routes(Ok(vec![])));
    assert!(matches!(step, Step::Done(Ok(()))));
    assert_eq!(sweep.removed, 1);

    let (mut sweep, _) = m.sweep_own_probe_host_routes();
    let e = NetlinkError::Recv(11);
    let step = m.resume_host_sweep(&mut sweep, HostEvent::Routes(Err(e)));
    assert!(matches!(step, Step::Done(Err(NetlinkError::Recv(11)))));
}

#[test]
fn clearing_the_host_routes_of_paths() {
    let mut m = RouteManager::with_order(ByteOrder::Little, MIPS, 0, EcmpMode::Standard);
    let a = Ipv4Addr::new(1, 1, 1, 1);
    let b = Ipv4Addr::new(8, 8, 8, 8);
    let msgs = m.clear_probe_host_routes(&[path("wan1", 0, vec![a, b]), path("wan2", 1, vec![a])]);
    assert_eq!(msgs.len(), 3);
    for (i, (msg, ip)) in msgs.iter().zip([[1u8, 1, 1, 1], [8, 8, 8, 8], [1, 1, 1, 1]]).enumerate() {
        let want = build_route_msg_ex(
            ByteOrder::Little,
            PROBE_MAIN_ROUTE_METRIC,
            AF_INET,
            RouteTarget { table: None, dst: Some((&ip, 32)) },
            &[],
            RTM_DELROUTE,
            5,
            2 + i as u32,
        );
        assert_eq!(*msg, want);
    }
}

#[test]
fn answers_to_requests() {
    let ok = finish_msg(order(), &vec![0u8; 20], 2, 0, 9);
    assert_eq!(ack_reply(order(), &ok, 9), AckStep::Over(Ok(())));
    assert_eq!(ack_reply(order(), &ok, 8), AckStep::Stale);
    let refused = finish_msg(order(), &(-17i32).to_ne_bytes().to_vec(), 2, 0, 9);
    assert_eq!(ack_reply(order(), &refused, 9), AckStep::Over(Err(NetlinkError::Os(17))));
    let cut = finish_msg(order(), &vec![0u8; 2], 2, 0, 9);
    assert_eq!(ack_reply(order(), &cut, 9), AckStep::Over(Err(NetlinkError::ErrorTruncated)));
    assert_eq!(ack_reply(order(), &[0u8; 9], 9), AckStep::Over(Err(NetlinkError::Truncated)));
    let other = finish_msg(order(), &vec![], 24, 0, 9);
    assert_eq!(ack_reply(order(), &other, 9), AckStep::Over(Ok(())));
}

#[test]
fn waiting_for_an_answer_has_an_end() {
    let stale = finish_msg(order(), &vec![0u8; 4], 2, 0, 1);
    let mut wait = AckWait::new(9);
    for _ in 1..ACK_RETRY_LIMIT {
        assert!(wait.receive(order(), &Received::Bytes(stale.clone())).is_none());
    }
    assert_eq!(
        wait.receive(order(), &Received::Interrupted),
        Some(Err(NetlinkError::NoAck))
    );
    let mut wait = AckWait::new(1);
    assert!(wait.receive(order(), &Received::Interrupted).is_none());
    assert_eq!(wait.receive(order(), &Received::Bytes(stale)), Some(Ok(())));
    let mut wait = AckWait::new(1);
    assert_eq!(
        wait.receive(order(), &Received::Failed(11)),
        Some(Err(NetlinkError::Recv(11)))
    );
}

#[test]
fn what_counts_as_done() {
    let del = build_route_msg(order(), 0, AF_INET, &[], RTM_DELROUTE, 5, 1);
    let new = build_route_msg(order(), 0, AF_INET, &[], RTM_NEWROUTE, 5, 1);
    assert!(message_is_delete(order(), &del));
    assert!(!message_is_delete(order(), &new));
    assert!(!message_is_delete(order(), &del[..5]));
    for e in [ESRCH, ENOENT, EINVAL] {
        let e = NetlinkError::Os(e);
        assert!(is_absent_object(&e));
        assert_eq!(commit_msg(order(), &del, Err(e)), Ok(()));
        assert_eq!(commit_msg(order(), &new, Err(e)), Err(e));
    }
    let exists = NetlinkError::Os(EEXIST);
    assert_eq!(commit_msg(order(), &new, Err(exists)), Err(exists));
    assert_eq!(commit_rule_msg(order(), &new, Err(exists)), Ok(()));
    // A rule that is there already counts as made.
    let rule = finish_msg(order(), &vec![0u8; 12], RTM_NEWRULE, 5, 1);
    assert_eq!(commit_msg(order(), &rule, Err(exists)), Ok(()));
    let gone = NetlinkError::Os(ENOENT);
    assert_eq!(commit_msg(order(), &rule, Err(gone)), Err(gone));
    assert_eq!(commit_msg(order(), &rule, Ok(())), Ok(()));
    assert!(!is_absent_object(&NetlinkError::Recv(ESRCH)));
    assert!(should_give_up_on_resilient(MIPS, &NetlinkError::Recv(EINVAL)));
    assert!(!should_give_up_on_resilient(MIPS, &NetlinkError::NoAck));
    for n in [EINVAL, 89, 122, 124] {
        assert!(should_give_up_on_resilient(MIPS, &NetlinkError::Os(n)));
    }
    for n in [38, 95, 97] {
        assert!(!should_give_up_on_resilient(MIPS, &NetlinkError::Os(n)));
    }
}

#[test]
fn lookups() {
    let mut m = RouteManager::new(0, EcmpMode::Standard);
    let msg = m.lookup_route(Ipv4Addr::new(1, 1, 1, 1), Some(3));
    let seq = NlMsgHdr::from_bytes(order(), &msg).unwrap().nlmsg_seq;
    assert_eq!(seq, 2);
    let found = build_route_msg(
        order(),
        0,
        AF_INET,
        &[RouteNexthop { ifindex: 3, gateway: None, weight: 1 }],
        RTM_NEWROUTE,
        0,
        seq,
    );
    match lookup_reply(order(), &found, seq) {
        LookupStep::Found(Some(r)) => assert_eq!((r.ifindex, r.table), (Some(3), 254)),
        _ => panic!("there is a route"),
    }
    assert!(matches!(lookup_reply(order(), &found, seq + 1), LookupStep::Skip));
    assert!(matches!(lookup_reply(order(), &found[..10], seq), LookupStep::Skip));
    let refused = finish_msg(order(), &(-101i32).to_ne_bytes().to_vec(), 2, 0, seq);
    assert!(matches!(lookup_reply(order(), &refused, seq), LookupStep::Found(None)));

    let mut wait = LookupWait::new(seq);
    assert!(wait.receive(order(), &Received::Interrupted).is_none());
    assert!(matches!(
        wait.receive(order(), &Received::Bytes(found.clone())),
        Some(Ok(Some(_)))
    ));
    let mut wait = LookupWait::new(seq + 1);
    for _ in 1..ACK_RETRY_LIMIT {
        assert!(wait.receive(order(), &Received::Bytes(found.clone())).is_none());
    }
    assert!(matches!(
        wait.receive(order(), &Received::Bytes(found)),
        Some(Err(NetlinkError::NoReply))
    ));
    let mut wait = LookupWait::new(seq);
    assert!(matches!(
        wait.receive(order(), &Received::Failed(11)),
        Some(Err(NetlinkError::Os(11)))
    ));
}

#[test]
fn dumps() {
    let mut m = RouteManager::new(7, EcmpMode::Standard);
    m.dump_request(AF_INET);
    let seq = m.seq;
    let hop = [RouteNexthop { ifindex: 3, gateway: Some(vec![10, 0, 0, 1]), weight: 1 }];
    let route = |metric: u32, table: Option<u32>, dst: Option<(&[u8], u8)>, seq: u32| {
        build_route_msg_ex(
            order(),
            metric,
            AF_INET,
            RouteTarget { table, dst },
            &hop,
            RTM_NEWROUTE,
            2,
            seq,
        )
    };
    let mut buf = route(7, None, None, seq);
    buf.extend_from_slice(&route(10, None, None, seq));
    buf.extend_from_slice(&route(0, Some(10_000), None, seq)); // a probe table
    buf.extend_from_slice(&route(1, None, None, seq + 1)); // another dump
    buf.extend_from_slice(&route(PROBE_MAIN_ROUTE_METRIC, None, Some((&[1, 1, 1, 1], 32)), seq));
    buf.extend_from_slice(&route(PROBE_MAIN_ROUTE_METRIC, None, Some((&[1, 1, 1, 0], 24)), seq));
    buf.extend_from_slice(&route(
        PROBE_MAIN_ROUTE_METRIC,
        Some(100),
        Some((&[3, 3, 3, 3], 32)),
        seq,
    )); // a table of someone else
    buf.extend_from_slice(&route(UNDERLAY_ROUTE_METRIC, None, Some((&[2, 2, 2, 2], 32)), seq));

    let buf = Received::Bytes(buf);
    let mut defaults = Vec::new();
    assert_eq!(m.dump_default_routes(&buf, &mut defaults), DumpProgress::More);
    assert_eq!(defaults, vec![(254, 7), (254, 10)]);
    assert!(m.has_main_default_route(&defaults));
    assert_eq!(m.dump_other_default_routes(&defaults, 7), vec![(254, 10)]);
    assert!(!m.has_main_default_route(&Vec::new()));

    let mut hosts = Vec::new();
    assert_eq!(
        m.dump_host_routes_with_metric(&buf, PROBE_MAIN_ROUTE_METRIC, &mut hosts),
        DumpProgress::More
    );
    assert_eq!(hosts, vec![(254, Ipv4Addr::new(1, 1, 1, 1), 32)]);

    let mut end = finish_msg(order(), &vec![0u8; 4], 3, 2, seq);
    end.extend_from_slice(&route(99, None, None, seq));
    let end = Received::Bytes(end);
    assert_eq!(m.dump_default_routes(&end, &mut defaults), DumpProgress::Done);
    assert_eq!(defaults.len(), 2);

    let short = finish_msg(order(), &vec![0u8; 4], RTM_NEWROUTE, 2, seq);
    let short = Received::Bytes(short);
    assert_eq!(m.dump_default_routes(&short, &mut defaults), DumpProgress::Malformed);
    assert_eq!(
        m.dump_default_routes(&Received::Interrupted, &mut defaults),
        DumpProgress::More
    );
    assert_eq!(
        m.dump_host_routes_with_metric(&Received::Failed(11), 0, &mut hosts),
        DumpProgress::Failed(11)
    );
    assert_eq!((defaults.len(), hosts.len()), (2, 1));
}

#[test]
fn identifiers_stay_below_the_groups() {
    let mut m = RouteManager::new(0, EcmpMode::Resilient);
    m.next_nh_id = NH_GROUP_ID_V4 - 1;
    assert!(m.has_room(1));
    assert!(!m.has_room(2));
    assert_eq!(m.alloc_nh_id(AF_INET, 1, &None), NH_GROUP_ID_V4 - 1);
    assert!(!m.has_room(1));
}
