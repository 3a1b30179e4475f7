use mwan4::addr::{IpAddr, Ipv4Addr, Ipv6Addr, SocketAddr};
use mwan4::config::{DaemonConfig, EcmpMode};
use mwan4::errno::ErrorNumbers;
use mwan4::failover::{
    active_ifindexes, active_routes, active_routes_v6, effective_rp_filter, flushes_on_switch,
    interface_oper_usable, interval_passed, line_usable, min_up_metric, needs_resync, select_flush,
    switch_flush, Controller, NetlinkOp, WanMonitor,
};
use mwan4::lqe::{LinkQualityEstimator, LinkState, RttVerdict};
use mwan4::netlink::link::LinkEvent;
use mwan4::netlink::reply::RouteLookup;
use mwan4::plan::{plan_probe_paths, shared_target, strict_shared_hit, LineEnv};
use mwan4::prober::{
    is_local_probe_error, judge, no_target, probe_single_target, text_contains, ProbeEvent,
    ProbeSample, Race,
};
use mwan4::worker::{
    build_route_desc, coalesce, exit_command, kernel_has_route, next_job, report_of, Job, NetlinkCmd,
};

fn target(d: u8) -> SocketAddr {
    SocketAddr::new(IpAddr::V4(Ipv4Addr::new(1, 1, 1, d)), 443)
}

fn line(name: &str, ifindex: u32, metric: u32, up: bool, targets: Vec<SocketAddr>) -> WanMonitor {
    let mut lqe = LinkQualityEstimator::new(name.into(), &DaemonConfig::default());
    if up {
        lqe.state = LinkState::Up;
    }
    WanMonitor {
        ifname: name.into(),
        ifindex,
        gateway: Some(Ipv4Addr::new(10, 0, ifindex as u8, 1)),
        gateway6: None,
        metric,
        weight: 1,
        targets,
        underlay_targets: Vec::new(),
        cached_ip: None,
        last_conntrack_flush: None,
        last_probe_error: None,
        local_condition_warned: false,
        probe_path_missing: false,
        last_path_check: None,
        lqe,
    }
}

#[test]
fn lines_of_the_least_metric_are_active() {
    let mut lines = vec![
        line("wan1", 1, 10, true, vec![]),
        line("wan2", 2, 10, true, vec![]),
        line("wan3", 3, 20, true, vec![]),
        line("wan4", 0, 1, true, vec![]),
        line("wan5", 5, 1, false, vec![]),
    ];
    assert_eq!(min_up_metric(&lines), Some(10));
    assert_eq!(active_ifindexes(&lines), vec![1, 2]);
    lines[0].lqe.state = LinkState::Down;
    lines[1].lqe.state = LinkState::Down;
    assert_eq!(active_ifindexes(&lines), vec![3]);
    lines[2].lqe.state = LinkState::Down;
    assert_eq!(min_up_metric(&lines), None);
    assert!(active_ifindexes(&lines).is_empty());
}

#[test]
fn routes_of_the_active_lines() {
    let mut lines = vec![line("wan1", 1, 10, true, vec![]), line("wan2", 2, 10, true, vec![])];
    lines[1].gateway6 = Some(Ipv6Addr::new(0xfe80, 0, 0, 0, 0, 0, 0, 1));
    lines[1].underlay_targets = vec![Ipv4Addr::new(9, 9, 9, 9)];
    let routes = active_routes(&lines);
    assert_eq!(routes.len(), 2);
    assert_eq!((routes[1].ifname.as_str(), routes[1].ifindex, routes[1].metric), ("wan2", 2, 10));
    assert_eq!(routes[1].underlay_targets, vec![Ipv4Addr::new(9, 9, 9, 9)]);
    let v6 = active_routes_v6(&lines);
    assert_eq!(v6.len(), 1);
    assert_eq!((v6[0].ifname.as_str(), v6[0].gateway), ("wan2", lines[1].gateway6));
}

#[test]
fn nothing_is_done_before_a_line_is_up() {
    let mut c = Controller::new();
    let down = vec![line("wan1", 1, 10, false, vec![])];
    for _ in 0..130 {
        c.begin_tick();
        assert!(!c.need_apply(&down));
    }
    let up = vec![line("wan1", 1, 10, true, vec![])];
    assert!(c.need_apply(&up));
    // The first time is no switch.
    assert!(c.apply_queued(&up, true).is_empty());
    assert!(c.set_unchanged(&up));
    // While the worker is at it, nothing is sent again.
    assert!(!c.need_apply(&down));
    assert!(!c.report(NetlinkOp::Ipv4Routes, true, None));
    assert!(c.need_apply(&down));
}

#[test]
fn a_refused_route_is_tried_again() {
    let mut c = Controller::new();
    let up = vec![line("wan1", 1, 10, true, vec![])];
    c.begin_tick();
    assert!(c.need_apply(&up));
    c.apply_queued(&up, true);
    assert!(c.report(NetlinkOp::Ipv4Routes, false, Some("EINVAL".into())));
    for _ in 0..3 {
        c.begin_tick();
        assert!(!c.need_apply(&up));
    }
    c.begin_tick();
    assert!(c.need_apply(&up));
    // The same error is told of again on the twenty-first time only.
    for n in 2..=40 {
        let told = c.report(NetlinkOp::Ipv4Routes, false, Some("EINVAL".into()));
        assert_eq!(told, n == 21, "failure {n}");
    }
    assert!(c.report(NetlinkOp::Ipv4Routes, false, Some("ENODEV".into())));
    assert!(c.report(NetlinkOp::Ipv4Routes, false, None));
    assert!(!c.report(NetlinkOp::Ipv4Routes, true, None));
    assert_eq!(c.route_fail_count, 0);
}

#[test]
fn the_route_is_renewed_now_and_then() {
    let mut c = Controller::new();
    let up = vec![line("wan1", 1, 10, true, vec![])];
    c.begin_tick();
    c.need_apply(&up);
    c.apply_queued(&up, true);
    c.report(NetlinkOp::Ipv4Routes, true, None);
    let mut renewed = Vec::new();
    for _ in 2..=120 {
        c.begin_tick();
        if c.need_apply(&up) {
            renewed.push(c.tick_count);
        }
    }
    assert_eq!(renewed, vec![60, 120]);
}

#[test]
fn probe_paths_are_renewed_and_tried_again() {
    let mut c = Controller::new();
    c.begin_tick();
    assert!(c.host_routes_cleanup);
    assert!(c.probe_paths_due());
    c.probe_paths_queued();
    assert!(!c.host_routes_cleanup);
    assert!(!c.probe_paths_due());
    c.report(NetlinkOp::ProbePaths, false, Some("ENODEV".into()));
    for tick in 2..=7 {
        c.begin_tick();
        assert_eq!(c.probe_paths_due(), tick == 7);
    }
    c.probe_paths_queued();
    c.report(NetlinkOp::ProbePaths, true, None);
    for _ in 8..60 {
        c.begin_tick();
        assert!(!c.probe_paths_due());
    }
    c.begin_tick();
    assert!(c.probe_paths_due());
    c.probe_paths_queued();
    c.report(NetlinkOp::ProbePaths, true, None);
    c.begin_tick();
    assert!(!c.probe_paths_due());
    c.probe_paths_changed();
    assert!(c.probe_paths_due());
}

#[test]
fn switches_delete_connections_where_needed() {
    let both = vec![line("wan1", 1, 10, true, vec![]), line("wan2", 2, 10, true, vec![])];
    // A second line joins: all of them.
    assert_eq!(switch_flush(&vec![1], &both), vec![0, 1]);
    // One of two is left: that one, as the flows were spread.
    let one = vec![line("wan1", 1, 10, true, vec![]), line("wan2", 2, 10, false, vec![])];
    assert_eq!(switch_flush(&vec![1, 2], &one), vec![0]);
    // Standby: only the line that has become active.
    let standby = vec![line("wan1", 1, 10, true, vec![]), line("wan2", 2, 20, true, vec![])];
    assert_eq!(switch_flush(&vec![2], &standby), vec![0]);
    assert!(switch_flush(&vec![1], &standby).is_empty());

    let mut c = Controller::new();
    c.apply_queued(&one, true);
    assert_eq!(c.apply_queued(&both, true), vec![0, 1]);
    assert!(c.apply_queued(&both, true).is_empty());
    assert!(c.apply_queued(&one, false).is_empty());

    let mut cfg = DaemonConfig::default();
    assert!(flushes_on_switch(&cfg));
    cfg.ecmp_mode = EcmpMode::Resilient;
    assert!(!flushes_on_switch(&cfg));
}

#[test]
fn flushes_are_limited_in_time() {
    let mut lines = vec![line("wan1", 1, 10, true, vec![]), line("wan2", 2, 10, true, vec![])];
    lines[0].last_conntrack_flush = Some(1_000);
    assert_eq!(select_flush(&lines, &vec![0, 1, 1, 0], 5_000, 10_000), vec![1]);
    assert_eq!(select_flush(&lines, &vec![1, 0, 0], 11_000, 10_000), vec![1, 0]);
    assert!(interval_passed(None, 0, 5));
    assert!(!interval_passed(Some(10), 14, 5));
    assert!(interval_passed(Some(10), 15, 5));
    assert!(!interval_passed(Some(10), 9, 5));
}

#[test]
fn timers() {
    let mut c = Controller::new();
    assert!(!c.watch_retry_due(true));
    assert!(c.watch_retry_due(false));
    c.watch_failed();
    for tick in 1..=600 {
        c.begin_tick();
        assert_eq!(c.watch_retry_due(false), tick >= 60);
        assert_eq!(c.refresh_due(), tick == 600);
        assert_eq!(c.status_due(false), tick % 2 == 0);
        assert!(c.status_due(true));
        assert_eq!(c.summary_due(), tick % 10 == 0);
    }
    assert!(!c.shared_warning(false));
    assert!(c.shared_warning(true));
    assert!(!c.shared_warning(true));
}

#[test]
fn interfaces_come_and_go() {
    let mut m = line("wan1", 3, 1, true, vec![]);
    assert!(!m.refresh_ifindex(Some(3)));
    assert!(m.refresh_ifindex(Some(4)));
    assert!(m.refresh_ifindex(None));
    assert_eq!(m.ifindex, 0);
    assert!(!m.refresh_ifindex(None));
    m.ifindex = 4;
    let named = LinkEvent::Link { ifindex: 9, ifname: Some("wan1".into()), carrier_up: true };
    let other = LinkEvent::Link { ifindex: 4, ifname: Some("lan".into()), carrier_up: true };
    let nameless = LinkEvent::Link { ifindex: 4, ifname: None, carrier_up: true };
    let addr = LinkEvent::Address { ifindex: 4 };
    assert_eq!(m.affected(&[other.clone(), nameless]), (false, false));
    assert_eq!(m.affected(&[other.clone(), addr]), (true, false));
    assert_eq!(m.affected(&[other.clone(), named]), (true, true));
    assert!(!needs_resync(&[other.clone()]));
    assert!(needs_resync(&[other, LinkEvent::Resync]));
}

#[test]
fn causes_of_failures_are_noted() {
    let v6 = SocketAddr::new(IpAddr::V6(Ipv6Addr::new(1, 0, 0, 0, 0, 0, 0, 1)), 443);
    let mut m = line("wan1", 3, 1, true, vec![v6, target(1)]);
    m.lqe.consecutive_timeouts = 1;
    let local = || Some("Create socket failed: x".to_string());
    assert_eq!(m.note_probe(local(), 100), (true, None));
    assert_eq!(m.note_probe(local(), 200), (false, None));
    assert!(m.local_condition());
    m.lqe.consecutive_timeouts = 2;
    let lost = || Some("Timeout (packet lost)".to_string());
    assert_eq!(m.note_probe(lost(), 300), (false, Some(Ipv4Addr::new(1, 1, 1, 1))));
    assert!(!m.local_condition());
    assert_eq!(m.note_probe(lost(), 2_299), (false, None));
    assert_eq!(m.note_probe(lost(), 2_300), (false, Some(Ipv4Addr::new(1, 1, 1, 1))));
    assert!(!m.note_path(None));
    assert!(m.note_path(Some(false)));
    assert!(!m.note_path(Some(false)));
    assert!(m.local_condition());
    assert!(!m.note_path(Some(true)));
    assert!(!m.local_condition());
    assert_eq!(m.note_probe(None, 9_000), (false, None));
    assert!(m.last_probe_error.is_none() && !m.local_condition_warned);
}

#[test]
fn a_line_that_goes_down_loses_its_connections() {
    let lost = || Some("Timeout (packet lost)".to_string());
    let mut m = line("wan1", 3, 1, false, vec![target(1)]);
    let news = m.take_probe(true, RttVerdict::Normal, None, 0, true);
    assert!(news.changed && !news.flush && !news.warn && news.ask.is_none());
    for n in 1..=3u64 {
        let news = m.take_probe(false, RttVerdict::Normal, lost(), n * 500, true);
        assert_eq!((news.changed, news.flush), (n == 3, n == 3));
        // From the second failure on, the kernel is asked the way now and then.
        assert_eq!(news.ask.is_some(), n == 2);
    }
    assert_eq!(m.last_probe_error, lost());
    // Where it is not asked for, nothing is deleted.
    let mut m = line("wan1", 3, 1, false, vec![target(1)]);
    m.take_probe(true, RttVerdict::Normal, None, 0, false);
    for _ in 1..=3 {
        let news = m.take_probe(false, RttVerdict::Normal, lost(), 1, false);
        assert!(!news.flush);
    }
    assert!(m.lqe.state == LinkState::Down);
}

#[test]
fn local_errors_are_told_apart() {
    for msg in [
        "Connect immediate error: No such device (os error 19)",
        "Connect immediate error: Network is unreachable (os error 101)",
        "Create socket failed: x",
        "Connect immediate error: Permission denied",
        "Connect immediate error: Cannot assign requested address",
        "Tokio from_std failed: x",
    ] {
        assert!(is_local_probe_error(msg), "{msg}");
    }
    assert!(!is_local_probe_error("Timeout (packet lost)"));
    assert!(!is_local_probe_error(""));
    assert!(text_contains("abc", "bc"));
    assert!(text_contains("abc", ""));
    assert!(!text_contains("abc", "abcd"));
    assert!(!text_contains("abc", "ac"));
}

#[test]
fn connection_attempts_are_judged() {
    let t = || "why".to_string();
    let native = ErrorNumbers::native();
    let ok = |ev: ProbeEvent| judge(native, &ev).map(|v| (v.success, v.rtt_is_timeout, v.error_msg));
    let good = Some((true, false, None));
    let bad = |m: &str| Some((false, false, Some(m.to_string())));
    assert_eq!(ok(ProbeEvent::Connected), good);
    assert_eq!(ok(ProbeEvent::Writable(None, String::new())), good);
    // A refusal has been there and back.
    assert_eq!(ok(ProbeEvent::Writable(Some(libc::ECONNREFUSED), t())), good);
    assert_eq!(ok(ProbeEvent::Writable(Some(113), t())), bad("Socket error: why"));
    assert_eq!(ok(ProbeEvent::ConnectFailed(libc::EINPROGRESS, t())), None);
    assert_eq!(ok(ProbeEvent::ConnectFailed(11, t())), None);
    assert_eq!(ok(ProbeEvent::ConnectFailed(101, t())), bad("Connect immediate error: why"));
    assert_eq!(ok(ProbeEvent::HandoverFailed(t())), bad("Tokio from_std failed: why"));
    assert_eq!(ok(ProbeEvent::ErrorUnknown(t())), bad("take_error failed: why"));
    assert_eq!(ok(ProbeEvent::PollFailed(t())), bad("Poll writable error: why"));
    assert_eq!(
        ok(ProbeEvent::SocketFailed(t())),
        Some((false, true, Some("Create socket failed: why".to_string())))
    );
    assert_eq!(
        ok(ProbeEvent::TimedOut),
        Some((false, true, Some("Timeout (packet lost)".to_string())))
    );
    let s = probe_single_target(judge(native, &ProbeEvent::TimedOut).unwrap(), target(1), 5, 400);
    assert_eq!((s.success, s.rtt_ns, s.target), (false, 400, target(1)));
    let s = probe_single_target(judge(native, &ProbeEvent::Connected).unwrap(), target(1), 5, 400);
    assert_eq!((s.success, s.rtt_ns), (true, 5));
    // The numbers are those of the machine.
    let mips = ErrorNumbers {
        einprogress: 150,
        econnrefused: 146,
        enobufs: 132,
        enosys: 89,
        eopnotsupp: 122,
        eafnosupport: 124,
    };
    assert!(judge(mips, &ProbeEvent::ConnectFailed(150, t())).is_none());
    assert!(judge(mips, &ProbeEvent::ConnectFailed(115, t())).is_some());
    assert!(judge(mips, &ProbeEvent::Writable(Some(146), t())).unwrap().success);
    assert!(!judge(mips, &ProbeEvent::Writable(Some(111), t())).unwrap().success);
}

fn sample(success: bool, d: u8) -> ProbeSample {
    ProbeSample { success, rtt_ns: d as u64, target: target(d), error_msg: None }
}

#[test]
fn the_first_success_wins_the_race() {
    let mut race = Race::new(3);
    assert!(race.take(sample(false, 1)).is_none());
    assert_eq!(race.take(sample(true, 2)).unwrap().target, target(2));
    let mut race = Race::new(3);
    assert!(race.take(sample(false, 3)).is_none());
    assert!(race.take(sample(false, 2)).is_none());
    assert_eq!(race.take(sample(false, 1)).unwrap().target, target(3));
    let none = no_target(400);
    assert!(!none.success);
    assert_eq!(none.rtt_ns, 400);
    assert_eq!(none.error_msg.as_deref(), Some("No targets configured"));
}

const LOOSE: LineEnv = LineEnv { strict: false, usable: true };
const STRICT: LineEnv = LineEnv { strict: true, usable: true };
const BROKEN: LineEnv = LineEnv { strict: false, usable: false };

fn hosts(lines: &[WanMonitor], env: Vec<LineEnv>, main: bool) -> Vec<Vec<Ipv4Addr>> {
    plan_probe_paths(lines, &env, main).into_iter().map(|p| p.main_route_targets).collect()
}

#[test]
fn host_routes_are_planned_where_needed() {
    let a = Ipv4Addr::new(1, 1, 1, 1);
    let b = Ipv4Addr::new(1, 1, 1, 2);
    let mut lines = vec![
        line("wan1", 1, 10, true, vec![target(1)]),
        line("wan2", 2, 20, false, vec![target(1), target(2)]),
    ];
    // With a default route and a loose check, none is needed.
    assert_eq!(hosts(&lines, vec![LOOSE, LOOSE], true), vec![vec![], vec![]]);
    // A strict check needs one, but not for a target that the other line has too.
    assert_eq!(hosts(&lines, vec![STRICT, STRICT], true), vec![vec![], vec![b]]);
    assert!(strict_shared_hit(&lines, &vec![STRICT, STRICT], true));
    assert!(!strict_shared_hit(&lines, &vec![LOOSE, LOOSE], true));
    assert!(shared_target(&lines, 1, target(1)));
    assert!(!shared_target(&lines, 1, target(2)));
    // Without a default route all lines that are not active need them; a shared
    // target goes to the line of the lesser metric.
    assert_eq!(hosts(&lines, vec![LOOSE, LOOSE], false), vec![vec![], vec![a, b]]);
    lines[0].lqe.state = LinkState::Down;
    assert_eq!(hosts(&lines, vec![LOOSE, LOOSE], false), vec![vec![a], vec![b]]);
    // A line that cannot be used does not get in the way.
    assert_eq!(hosts(&lines, vec![BROKEN, LOOSE], false), vec![vec![], vec![a, b]]);
    assert_eq!(hosts(&lines, vec![BROKEN, BROKEN], false), vec![vec![a], vec![b]]);
    lines[1].metric = 10;
    assert_eq!(hosts(&lines, vec![LOOSE, LOOSE], false), vec![vec![a], vec![b]]);
}

#[test]
fn paths_have_the_table_of_their_place() {
    let v6 = SocketAddr::new(IpAddr::V6(Ipv6Addr::new(1, 0, 0, 0, 0, 0, 0, 1)), 443);
    let lines = vec![
        line("wan1", 0, 10, false, vec![target(1)]),
        line("wan2", 2, 20, false, vec![v6, target(2)]),
    ];
    let paths = plan_probe_paths(&lines, &vec![LOOSE, LOOSE], true);
    assert_eq!(paths.len(), 1);
    assert_eq!(
        (paths[0].ifname.as_str(), paths[0].ifindex, paths[0].table, paths[0].priority),
        ("wan2", 2, 10_001, 10_001)
    );
    assert_eq!(paths[0].targets, vec![Ipv4Addr::new(1, 1, 1, 2)]);
    assert_eq!(paths[0].gateway, Some(Ipv4Addr::new(10, 0, 2, 1)));
}

#[test]
fn what_the_system_says_of_a_line() {
    assert_eq!(effective_rp_filter(Some(1), Some(2)), 2);
    assert_eq!(effective_rp_filter(Some(1), None), 1);
    assert_eq!(effective_rp_filter(None, None), 0);
    assert!(interface_oper_usable(None));
    assert!(interface_oper_usable(Some("up".into())));
    assert!(interface_oper_usable(Some("unknown".into())));
    assert!(!interface_oper_usable(Some("down".into())));
    assert!(!interface_oper_usable(Some("lowerlayerdown".into())));
    assert!(!line_usable(Some(false), true));
    assert!(line_usable(Some(true), true));
    assert!(line_usable(None, true));
    assert!(!line_usable(None, false));
    let found = RouteLookup { ifindex: None, gateway: None, table: 254 };
    assert_eq!(kernel_has_route(Some(Ok::<_, ()>(Some(found)))), Some(true));
    assert_eq!(kernel_has_route(Some(Ok::<_, ()>(None))), Some(false));
    assert_eq!(kernel_has_route(Some(Err(()))), None);
    assert_eq!(kernel_has_route::<()>(None), None);
}

#[test]
fn batches_are_put_together() {
    let work = coalesce(vec![
        NetlinkCmd::Apply(Vec::new()),
        NetlinkCmd::FlushConntrack(vec!["wan1".into(), "wan2".into()]),
        NetlinkCmd::SetProbePaths(Vec::new(), true),
        NetlinkCmd::FlushConntrack(vec!["wan2".into(), "wan3".into()]),
        NetlinkCmd::Apply(active_routes(&[line("wan1", 1, 1, true, vec![])])),
        NetlinkCmd::SetProbePaths(Vec::new(), false),
    ]);
    assert_eq!(work.apply.unwrap().len(), 1);
    assert!(work.apply_v6.is_none());
    assert!(matches!(work.probe_paths, Some((p, false)) if p.is_empty()));
    assert_eq!(work.flush, vec!["wan1", "wan2", "wan3"]);
    assert!(!work.clear_routes);
    assert!(coalesce(vec![NetlinkCmd::ClearRoutes, NetlinkCmd::ApplyV6(Vec::new())]).clear_routes);
    assert!(coalesce(vec![]).apply.is_none());

    let mut cfg = DaemonConfig::default();
    assert!(matches!(exit_command(&cfg), NetlinkCmd::SetProbePaths(p, false) if p.is_empty()));
    cfg.remove_routes_on_exit = true;
    assert!(matches!(exit_command(&cfg), NetlinkCmd::ClearRoutes));
}

fn job_names(batch: Vec<NetlinkCmd>) -> Vec<&'static str> {
    let mut work = coalesce(batch);
    let mut names = Vec::new();
    loop {
        let (name, last) = match next_job(&mut work) {
            Job::Apply(w) => (if w.is_empty() { "none" } else { "v4" }, false),
            Job::ApplyV6(_) => ("v6", false),
            Job::SweepHostRoutes => ("sweep", false),
            Job::SetProbePaths(_) => ("paths", false),
            Job::FlushConntrack(n) => {
                assert_eq!(n, vec!["wan1", "wan2"]);
                ("flush", false)
            }
            Job::CleanUp => ("clean-up", false),
            Job::Wait => ("wait", true),
            Job::End => ("end", true),
        };
        names.push(name);
        if last {
            return names;
        }
    }
}

#[test]
fn a_batch_is_done_in_order() {
    assert_eq!(
        job_names(vec![
            NetlinkCmd::ClearRoutes,
            NetlinkCmd::FlushConntrack(vec!["wan1".into()]),
            NetlinkCmd::SetProbePaths(Vec::new(), true),
            NetlinkCmd::ApplyV6(Vec::new()),
            NetlinkCmd::Apply(Vec::new()),
            NetlinkCmd::FlushConntrack(vec!["wan2".into(), "wan1".into()]),
            NetlinkCmd::Apply(active_routes(&[line("wan1", 1, 1, true, vec![])])),
        ]),
        vec!["v4", "v6", "sweep", "paths", "flush", "clean-up", "end"]
    );
    assert_eq!(
        job_names(vec![NetlinkCmd::SetProbePaths(Vec::new(), false)]),
        vec!["paths", "wait"]
    );
    assert_eq!(job_names(vec![]), vec!["wait"]);
    let mut work = coalesce(vec![NetlinkCmd::ClearRoutes]);
    next_job(&mut work);
    assert!(matches!(next_job(&mut work), Job::End));
    assert!(matches!(next_job(&mut work), Job::End));
}

#[test]
fn operations_are_reported() {
    let r = Job::Apply(Vec::new()).report(None).unwrap();
    assert!(r.op == NetlinkOp::Ipv4Routes && r.ok && r.detail.is_none());
    let r = Job::ApplyV6(Vec::new()).report(Some("why".into())).unwrap();
    assert!(r.op == NetlinkOp::Ipv6Routes && !r.ok);
    assert_eq!(r.detail.as_deref(), Some("why"));
    let r = Job::SetProbePaths(Vec::new()).report(None).unwrap();
    assert!(r.op == NetlinkOp::ProbePaths && r.ok);
    let r = Job::FlushConntrack(Vec::new()).report(None).unwrap();
    assert!(r.op == NetlinkOp::Conntrack);
    assert!(Job::SweepHostRoutes.report(Some("why".into())).is_none());
    assert!(Job::CleanUp.report(None).is_none());
    assert!(Job::End.report(None).is_none());
    let r = report_of(NetlinkOp::Conntrack, None);
    assert!(r.ok && r.detail.is_none());
}

#[test]
fn an_ipv6_route_waits_for_room_in_the_queue() {
    let mut c = Controller::new();
    assert!(c.v6_retry().is_none());
    c.v6_answered(Some(Vec::new()));
    let mut lines = vec![line("wan1", 1, 10, true, vec![])];
    lines[0].gateway6 = Some(Ipv6Addr::new(0xfe80, 0, 0, 0, 0, 0, 0, 1));
    // A newer one takes its place.
    c.v6_answered(Some(active_routes_v6(&lines)));
    assert_eq!(c.v6_retry().map(|w| w.len()), Some(1));
    assert!(c.v6_retry().is_none());
    c.v6_answered(Some(Vec::new()));
    c.v6_answered(None);
    assert!(c.v6_retry().is_none());
}

#[test]
fn routes_are_described() {
    let mut lines = vec![line("wan1", 1, 10, true, vec![]), line("wan2", 2, 10, true, vec![])];
    assert_eq!(build_route_desc(&lines), "Multipath ECMP (wan1, wan2)");
    lines[0].lqe.state = LinkState::Down;
    assert_eq!(build_route_desc(&lines), "Single Active (wan2)");
    lines[0].metric = 5;
    assert_eq!(build_route_desc(&lines), "Failover Active (wan2)");
    lines[0].lqe.state = LinkState::Up;
    assert_eq!(build_route_desc(&lines), "Primary Active (wan1)");
    lines[0].lqe.state = LinkState::Down;
    lines[1].lqe.state = LinkState::Down;
    assert_eq!(build_route_desc(&lines), "All Links DOWN");
    assert_eq!(build_route_desc(&[]), "All Links DOWN");
}
