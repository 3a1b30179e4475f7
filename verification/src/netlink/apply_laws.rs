//! What holds of every operation that brings the default route in line.
use crate::config::EcmpMode;
use crate::netlink::apply::{after_tear, answer, enter_drop, enter_mode,
    enter_underlay_delete, enter_underlay_install, fault, find_dest, finish_resilient, is_current, is_exit, lemma_find_dest, next_missing,
    next_state, next_unwanted, peers_via, phase_wf, routes, underlay_plan, upsert, AfterTeardown,
    ApplyState, Event, Phase, RunView, StepView};
use crate::netlink::manager::{lemma_next_stale_nh, next_stale_nh, tear_next, tear_wf, underlay_wf,
    ActiveWanRoute, HostRouteView, InstalledVariant, MgrView, TearAt};
use crate::netlink::reply::{committed, gives_up, other_routes, NetlinkError};
use crate::netlink::request::{req_delete_standard_route, req_standard_route, v4_gateway};
use vstd::prelude::*;

verus! {

/// Whether an operation in automatic mode would make a multipath default route
/// although a resilient one of its family is there: resilient groups were found
/// unusable for the other family.
pub open spec fn leftover(m: MgrView, family: u8) -> bool {
    m.mode == EcmpMode::Auto && m.supported == Some(false) && m.variant(family)
        == InstalledVariant::Resilient
}

/// What the phase of an operation says about the default route in the kernel.
pub open spec fn consistent(m: MgrView, run: RunView) -> bool {
    match run.phase {
        Phase::UnderlayDelete(_) | Phase::UnderlayInstall(_) => !leftover(m, run.family),
        Phase::Teardown(at) => !run.resilient && !(at is Over),
        Phase::LinksDown | Phase::LinksDownDelete => run.hops.len() == 0,
        Phase::Standard => !run.resilient && m.variant(run.family) != InstalledVariant::Resilient,
        Phase::Switch => run.resilient,
        Phase::Member(_) | Phase::Group | Phase::Route => run.resilient && m.variant(run.family)
            != InstalledVariant::Standard,
        Phase::Drop(_) => run.resilient && m.variant(run.family) == InstalledVariant::Resilient,
        Phase::Finished => true,
    }
}

/// The two kinds of default route are never there together: a multipath route is
/// made only where there is no resilient one, and the reverse. This holds of the
/// first state of an operation ...
pub proof fn one_kind_of_route_at_start(m: MgrView, run: RunView)
    requires
        !leftover(m, run.family),
    ensures
        consistent(enter_mode(m, run).m, enter_mode(m, run).run),
        consistent(enter_underlay_delete(m, run, 0).m, enter_underlay_delete(m, run, 0).run),
{
}

spec fn ok(s: ApplyState) -> bool {
    consistent(s.m, s.run)
}

proof fn lemma_ok_finish(m: MgrView, run: RunView, e: Option<NetlinkError>)
    ensures
        ok(finish_resilient(m, run, e)),
        finish_resilient(m, run, e).step == StepView::Done(None) ==> e is None,
        finish_resilient(m, run, e).m.variant(run.family) == m.variant(run.family),
{
}

proof fn lemma_ok_mode(m: MgrView, run: RunView)
    requires
        !leftover(m, run.family),
    ensures
        ok(enter_mode(m, run)),
        !(enter_mode(m, run).step is Done),
{
}

proof fn lemma_ok_tear(m: MgrView, run: RunView, at: TearAt, reply: Result<(), NetlinkError>)
    requires
        !run.resilient,
        !(at is Over),
    ensures
        ok(after_tear(tear_next(m, run.family, at, reply), run)),
        after_tear(tear_next(m, run.family, at, reply), run).step != StepView::Done(None),
{
}

proof fn lemma_ok_resilient(m: MgrView, run: RunView, ev: Event)
    requires
        consistent(m, run),
        run.phase is Switch || run.phase is Member || run.phase is Group || run.phase is Route
            || run.phase is Drop,
    ensures
        ok(next_state(m, run, ev)),
        next_state(m, run, ev).step == StepView::Done(None) ==> next_state(m, run, ev).m.variant(
            run.family,
        ) == InstalledVariant::Resilient,
{
    let made = fault(answer(ev));
    let gone = fault(committed(true, answer(ev)));
    lemma_ok_finish(m, run, made);
    lemma_ok_finish(m, run, gone);
    if run.phase is Switch {
        lemma_ok_finish(
            m.with_variant(run.family, InstalledVariant::Absent),
            run,
            Some(NetlinkError::TooManyNexthops(run.hops.len() as usize)),
        );
    }
    if run.phase is Route {
        lemma_ok_finish(m.with_variant(run.family, InstalledVariant::Resilient), run, None);
    }
    if let Phase::Drop(i) = run.phase {
        lemma_ok_finish(m.with_nh(m.nh.remove(i as int)), run, None);
        lemma_ok_finish(m, run, None);
    }
}

proof fn lemma_ok_underlay(m: MgrView, run: RunView, ev: Event)
    requires
        consistent(m, run),
        run.phase is UnderlayDelete || run.phase is UnderlayInstall,
    ensures
        ok(next_state(m, run, ev)),
        !(next_state(m, run, ev).step is Done),
{
    lemma_ok_mode(m, run);
    match run.phase {
        Phase::UnderlayDelete(i) => {
            lemma_ok_mode(MgrView { underlay: m.underlay.remove(i as int), ..m }, run);
        },
        Phase::UnderlayInstall(i) => {
            let up = upsert(m.underlay, run.wanted[i as int]);
            lemma_ok_mode(MgrView { underlay: up, ..m }, run);
        },
        _ => {},
    }
}

proof fn lemma_ok_links_down(m: MgrView, run: RunView, ev: Event)
    requires
        consistent(m, run),
        run.phase is LinksDown || run.phase is LinksDownDelete,
    ensures
        ok(next_state(m, run, ev)),
{
    let gone = fault(committed(true, answer(ev)));
    lemma_ok_finish(m, run, None);
    lemma_ok_finish(m, run, gone);
    lemma_ok_finish(m.with_variant(run.family, InstalledVariant::Absent), run, None);
}

/// ... and, where it holds of a state, of the next one, whatever the kernel answers.
pub proof fn one_kind_of_route_goes_on(m: MgrView, run: RunView, ev: Event)
    requires
        consistent(m, run),
    ensures
        consistent(next_state(m, run, ev).m, next_state(m, run, ev).run),
{
    match run.phase {
        Phase::UnderlayDelete(_) | Phase::UnderlayInstall(_) => lemma_ok_underlay(m, run, ev),
        Phase::Teardown(at) => lemma_ok_tear(m, run, at, answer(ev)),
        Phase::LinksDown | Phase::LinksDownDelete => lemma_ok_links_down(m, run, ev),
        Phase::Finished | Phase::Standard => {},
        _ => lemma_ok_resilient(m, run, ev),
    }
}

/// A success with lines that are up means that a default route is in the kernel,
/// of the kind that was tried last.
pub proof fn success_means_installed(m: MgrView, run: RunView, ev: Event)
    requires
        consistent(m, run),
        run.hops.len() > 0,
        !(run.phase is Finished),
        next_state(m, run, ev).step == StepView::Done(None),
    ensures
        next_state(m, run, ev).m.variant(run.family) == (if run.resilient {
            InstalledVariant::Resilient
        } else {
            InstalledVariant::Standard
        }),
{
    match run.phase {
        Phase::UnderlayDelete(_) | Phase::UnderlayInstall(_) => lemma_ok_underlay(m, run, ev),
        Phase::Teardown(at) => lemma_ok_tear(m, run, at, answer(ev)),
        Phase::LinksDown | Phase::LinksDownDelete => lemma_ok_links_down(m, run, ev),
        Phase::Finished | Phase::Standard => {},
        _ => lemma_ok_resilient(m, run, ev),
    }
}

/// With all lines down, in the multipath mode: the default route stays if it is
/// the only one, and goes if there are others.
pub proof fn all_down_keeps_the_only_route(m: MgrView, run: RunView, ev: Event)
    requires
        run.phase == Phase::LinksDown,
        !run.resilient,
    ensures
        other_routes(routes(ev), m.priority).len() == 0 ==> next_state(m, run, ev).step
            == StepView::Done(None) && next_state(m, run, ev).m == m,
        other_routes(routes(ev), m.priority).len() > 0 ==> next_state(m, run, ev).step
            == StepView::Send(req_delete_standard_route(m, run.family)),
{
}

/// In the multipath mode, with nothing left of a resilient route, the default
/// route over all lines is made or replaced by one single request.
pub proof fn standard_is_one_request(m: MgrView, run: RunView)
    requires
        m.mode == EcmpMode::Standard,
        m.variant(run.family) != InstalledVariant::Resilient,
        next_stale_nh(m.nh, run.family, Seq::empty(), 0) >= m.nh.len(),
        run.hops.len() > 0,
    ensures
        enter_mode(m, run).step == StepView::Send(req_standard_route(m, run.family, run.hops)),
        forall|ev: Event| (#[trigger] next_state(enter_mode(m, run).m, enter_mode(m, run).run, ev)).step
            is Done,
{
}

/// In automatic mode a failure to make a resilient route is never the end: what
/// is left of it is removed, and a multipath route is made. Whether it is tried
/// again depends on the error.
pub proof fn auto_falls_back(m: MgrView, run: RunView, e: NetlinkError)
    requires
        m.mode == EcmpMode::Auto,
    ensures
        ({
            let s = finish_resilient(m, run, Some(e));
            &&& s.run.phase is Teardown
            &&& s.run.after == AfterTeardown::Standard
            &&& gives_up(m.numbers, e) ==> s.m.supported == Some(false)
            &&& !gives_up(m.numbers, e) ==> s.m.supported == m.supported
        }),
{
}

/// The forced mode reports the error, after what is left was removed.
pub proof fn forced_mode_reports(m: MgrView, run: RunView, e: NetlinkError)
    requires
        m.mode == EcmpMode::Resilient,
    ensures
        ({
            let s = finish_resilient(m, run, Some(e));
            &&& s.run.phase is Teardown
            &&& s.run.after == AfterTeardown::Fail(e)
        }),
{
}

/// When the removal of a resilient route is over, the kernel has no default
/// route of ours.
pub proof fn teardown_ends_without_route(
    m: MgrView,
    family: u8,
    at: TearAt,
    reply: Result<(), NetlinkError>,
)
    requires
        tear_wf(m, at),
        !(at is Over),
        tear_next(m, family, at, reply).msg is None,
    ensures
        tear_next(m, family, at, reply).m.variant(family) == InstalledVariant::Absent,
        tear_next(m, family, at, reply).m.mode == m.mode,
{
}

/// Whether no object of the family is left before the place that a removal has come to.
pub open spec fn cleared(m: MgrView, family: u8, at: TearAt) -> bool {
    match at {
        TearAt::Member(i) => forall|j: int| 0 <= j < i ==> (#[trigger] m.nh[j]).family != family,
        TearAt::Over => forall|j: int|
            0 <= j < m.nh.len() ==> (#[trigger] m.nh[j]).family != family,
        _ => true,
    }
}

/// If the kernel deletes every object, or has none to delete, the removal of a
/// resilient route leaves no object of the family.
pub proof fn teardown_leaves_no_object(m: MgrView, family: u8, at: TearAt, reply: Result<(), NetlinkError>)
    requires
        tear_wf(m, at),
        m.nh.len() <= usize::MAX,
        cleared(m, family, at),
        committed(true, reply) is Ok,
    ensures
        cleared(tear_next(m, family, at, reply).m, family, tear_next(m, family, at, reply).at),
{
    let none: Seq<crate::netlink::route::HopView> = Seq::empty();
    assert forall|e: crate::netlink::manager::NhView|
        crate::netlink::manager::is_stale_nh(e, family, none) == (e.family == family) by {}
    match at {
        TearAt::Group => {
            lemma_next_stale_nh(m.nh, family, none, 0);
        },
        TearAt::Member(i) => {
            let nh = m.nh.remove(i as int);
            lemma_next_stale_nh(nh, family, none, i as int);
            assert forall|j: int| 0 <= j < i implies (#[trigger] nh[j]).family != family by {
                assert(nh[j] == m.nh[j]);
            }
        },
        _ => {},
    }
}

/// Trouble with the host routes of tunnel peers never keeps the default route
/// from being seen to: the operation goes on with a request.
pub proof fn underlay_trouble_is_no_obstacle(m: MgrView, run: RunView, ev: Event)
    requires
        run.phase is UnderlayDelete || run.phase is UnderlayInstall,
    ensures
        !(next_state(m, run, ev).step is Done),
{
}

/// How much of an operation is left: the stage, and the items of the stage.
pub open spec fn stage(run: RunView) -> int {
    match run.phase {
        Phase::UnderlayDelete(_) => 12,
        Phase::UnderlayInstall(_) => 11,
        Phase::Switch => 10,
        Phase::Member(_) => 9,
        Phase::Group => 8,
        Phase::Route => 7,
        Phase::Drop(_) => 6,
        Phase::LinksDown => if run.resilient {
            6
        } else {
            3
        },
        Phase::LinksDownDelete => if run.resilient {
            5
        } else {
            2
        },
        Phase::Teardown(_) => 4,
        Phase::Standard => 2,
        Phase::Finished => 0,
    }
}

pub open spec fn items(m: MgrView, run: RunView) -> int {
    match run.phase {
        Phase::UnderlayDelete(i) => m.underlay.len() - i,
        Phase::UnderlayInstall(i) => run.wanted.len() - i,
        Phase::Member(i) => run.hops.len() - i,
        Phase::Drop(i) => m.nh.len() - i,
        Phase::Teardown(at) => match at {
            TearAt::Route => m.nh.len() as int + 2,
            TearAt::Group => m.nh.len() as int + 1,
            TearAt::Member(i) => m.nh.len() - i,
            TearAt::Over => 0,
        },
        _ => 0,
    }
}

proof fn lemma_next_unwanted(list: Seq<HostRouteView>, wanted: Seq<HostRouteView>, from: int)
    requires
        0 <= from <= list.len(),
    ensures
        from <= next_unwanted(list, wanted, from) <= list.len(),
    decreases list.len() - from,
{
    if from < list.len() {
        lemma_next_unwanted(list, wanted, from + 1);
    }
}

proof fn lemma_next_missing(list: Seq<HostRouteView>, wanted: Seq<HostRouteView>, from: int)
    requires
        0 <= from <= wanted.len(),
    ensures
        from <= next_missing(list, wanted, from) <= wanted.len(),
    decreases wanted.len() - from,
{
    if from < wanted.len() {
        lemma_next_missing(list, wanted, from + 1);
    }
}

/// Less is left in `s` than in `m` and `run`.
spec fn less_left(m: MgrView, run: RunView, s: ApplyState) -> bool {
    &&& 0 <= stage(s.run) <= stage(run)
    &&& 0 <= items(s.m, s.run)
    &&& stage(s.run) == stage(run) ==> items(s.m, s.run) < items(m, run)
}

proof fn lemma_finish_resilient(m: MgrView, run: RunView, e: Option<NetlinkError>)
    ensures
        0 <= stage(finish_resilient(m, run, e).run) <= 4,
        items(finish_resilient(m, run, e).m, finish_resilient(m, run, e).run) >= 0,
{
}

proof fn lemma_enter_mode(m: MgrView, run: RunView)
    ensures
        0 <= stage(enter_mode(m, run).run) <= 10,
        items(enter_mode(m, run).m, enter_mode(m, run).run) >= 0,
{
}

proof fn lemma_underlay_install(m: MgrView, run: RunView, from: int)
    requires
        0 <= from <= run.wanted.len() <= usize::MAX,
    ensures
        ({
            let s = enter_underlay_install(m, run, from);
            &&& 0 <= stage(s.run) <= 11
            &&& 0 <= items(s.m, s.run)
            &&& stage(s.run) == 11 ==> items(s.m, s.run) <= run.wanted.len() - from
        }),
{
    lemma_next_missing(m.underlay, run.wanted, from);
    lemma_enter_mode(m, run);
}

proof fn lemma_underlay_install_progress(m: MgrView, run: RunView, ev: Event)
    requires
        phase_wf(m, run),
        run.phase is UnderlayInstall,
        run.wanted.len() <= usize::MAX,
    ensures
        less_left(m, run, next_state(m, run, ev)),
{
    if let Phase::UnderlayInstall(i) = run.phase {
        let up = MgrView {
            underlay: upsert(m.underlay, run.wanted[i as int]),
            ..m
        };
        lemma_underlay_install(up, run, i + 1);
        lemma_enter_mode(m, run);
    }
}

proof fn lemma_underlay_delete_progress(m: MgrView, run: RunView, ev: Event)
    requires
        phase_wf(m, run),
        run.phase is UnderlayDelete,
        m.underlay.len() <= usize::MAX,
        run.wanted.len() <= usize::MAX,
    ensures
        less_left(m, run, next_state(m, run, ev)),
{
    if let Phase::UnderlayDelete(i) = run.phase {
        let i = i as int;
        let gone = MgrView { underlay: m.underlay.remove(i), ..m };
        lemma_next_unwanted(gone.underlay, run.wanted, i);
        lemma_next_unwanted(m.underlay, run.wanted, i + 1);
        lemma_underlay_install(gone, run, 0);
        lemma_underlay_install(m, run, 0);
    }
}

proof fn lemma_teardown_progress(m: MgrView, run: RunView, ev: Event)
    requires
        phase_wf(m, run),
        run.phase matches Phase::Teardown(at) && !(at is Over),
        m.nh.len() <= usize::MAX,
    ensures
        less_left(m, run, next_state(m, run, ev)),
{
    if let Phase::Teardown(at) = run.phase {
        lemma_next_stale_nh(m.nh, run.family, Seq::empty(), 0);
        if let TearAt::Member(i) = at {
            let i = i as int;
            lemma_next_stale_nh(m.nh.remove(i), run.family, Seq::empty(), i);
            lemma_next_stale_nh(m.nh, run.family, Seq::empty(), i + 1);
        }
    }
}

proof fn lemma_last_progress(m: MgrView, run: RunView, ev: Event)
    requires
        run.phase is LinksDown || run.phase is LinksDownDelete || run.phase is Standard,
    ensures
        less_left(m, run, next_state(m, run, ev)),
{
}

proof fn lemma_drop(m: MgrView, run: RunView, from: int)
    requires
        0 <= from <= m.nh.len() <= usize::MAX,
    ensures
        ({
            let s = enter_drop(m, run, from);
            &&& 0 <= stage(s.run) <= 6
            &&& 0 <= items(s.m, s.run)
            &&& stage(s.run) == 6 ==> items(s.m, s.run) <= m.nh.len() - from
        }),
{
    lemma_next_stale_nh(m.nh, run.family, run.hops, from);
    lemma_finish_resilient(m, run, None);
}

proof fn lemma_resilient_progress(m: MgrView, run: RunView, ev: Event)
    requires
        phase_wf(m, run),
        run.phase is Switch || run.phase is Member || run.phase is Group || run.phase is Route
            || run.phase is Drop,
        m.nh.len() <= usize::MAX,
    ensures
        less_left(m, run, next_state(m, run, ev)),
{
    let made = fault(answer(ev));
    let gone = fault(committed(true, answer(ev)));
    lemma_finish_resilient(m, run, made);
    lemma_finish_resilient(m, run, gone);
    if run.phase is Switch {
        lemma_finish_resilient(
            m.with_variant(run.family, InstalledVariant::Absent),
            run,
            Some(NetlinkError::TooManyNexthops(run.hops.len() as usize)),
        );
    }
    if run.phase is Route {
        lemma_drop(m.with_variant(run.family, InstalledVariant::Resilient), run, 0);
    }
    if let Phase::Drop(i) = run.phase {
        lemma_drop(m.with_nh(m.nh.remove(i as int)), run, i as int);
        lemma_drop(m, run, i + 1);
    }
}

/// Every operation ends: each event leaves less to do, in an earlier stage or in
/// the same stage with fewer items.
pub proof fn every_operation_ends(m: MgrView, run: RunView, ev: Event)
    requires
        phase_wf(m, run),
        consistent(m, run),
        !(run.phase is Finished),
        m.nh.len() <= usize::MAX,
        m.underlay.len() <= usize::MAX,
        run.wanted.len() <= usize::MAX,
    ensures
        ({
            let s = next_state(m, run, ev);
            &&& 0 <= stage(s.run) <= stage(run)
            &&& 0 <= items(s.m, s.run)
            &&& stage(s.run) == stage(run) ==> items(s.m, s.run) < items(m, run)
        }),
{
    match run.phase {
        Phase::UnderlayDelete(_) => lemma_underlay_delete_progress(m, run, ev),
        Phase::UnderlayInstall(_) => lemma_underlay_install_progress(m, run, ev),
        Phase::Teardown(_) => lemma_teardown_progress(m, run, ev),
        Phase::LinksDown | Phase::LinksDownDelete | Phase::Standard => lemma_last_progress(
            m,
            run,
            ev,
        ),
        _ => lemma_resilient_progress(m, run, ev),
    }
}

/// No tunnel is the exit for a tunnel's peer: each planned host route leaves by
/// a line that is no tunnel, the one with the least metric.
pub proof fn tunnels_are_no_exit(wans: Seq<ActiveWanRoute>, i: int)
    requires
        0 <= i < underlay_plan(wans).len(),
    ensures
        exists|k: int|
            #[trigger] is_exit(wans, k) && underlay_plan(wans)[i].1 == wans[k].ifindex
                && underlay_plan(wans)[i].2 == v4_gateway(wans[k].gateway),
{
    let k = choose|k: int| is_exit(wans, k);
    assert(is_exit(wans, k));
    lemma_peers_via(wans, wans[k].ifindex, v4_gateway(wans[k].gateway), i);
}

proof fn lemma_peers_via(
    wans: Seq<ActiveWanRoute>,
    ifindex: u32,
    gateway: Option<Seq<u8>>,
    i: int,
)
    requires
        0 <= i < peers_via(wans, ifindex, gateway).len(),
    ensures
        peers_via(wans, ifindex, gateway)[i].1 == ifindex,
        peers_via(wans, ifindex, gateway)[i].2 == gateway,
    decreases wans.len(),
{
    let before = peers_via(wans.drop_last(), ifindex, gateway);
    if i < before.len() {
        lemma_peers_via(wans.drop_last(), ifindex, gateway, i);
    }
}

/// Whether wanted routes to the same destination are the same route.
pub open spec fn peers_agree(wanted: Seq<HostRouteView>) -> bool {
    forall|i: int, j: int|
        #![trigger wanted[i], wanted[j]]
        0 <= i < wanted.len() && 0 <= j < wanted.len() && wanted[i].0 == wanted[j].0 ==> wanted[i]
            == wanted[j]
}

/// Tunnels with the same peer agree on its route: there is one exit.
pub proof fn planned_peers_agree(wans: Seq<ActiveWanRoute>)
    ensures
        peers_agree(underlay_plan(wans)),
{
    let plan = underlay_plan(wans);
    if exists|k: int| is_exit(wans, k) {
        let k = choose|k: int| is_exit(wans, k);
        assert forall|i: int, j: int|
            #![trigger plan[i], plan[j]]
            0 <= i < plan.len() && 0 <= j < plan.len() && plan[i].0 == plan[j].0 implies plan[i]
            == plan[j] by {
            lemma_peers_via(wans, wans[k].ifindex, v4_gateway(wans[k].gateway), i);
            lemma_peers_via(wans, wans[k].ifindex, v4_gateway(wans[k].gateway), j);
        }
    }
}

/// Whether the first `n` known tunnel routes lead to a wanted destination.
pub open spec fn peers_wanted(list: Seq<HostRouteView>, wanted: Seq<HostRouteView>, n: int) -> bool {
    forall|k: int| 0 <= k < n ==> find_dest(wanted, (#[trigger] list[k]).0, 0) < wanted.len()
}

/// Whether the first `n` wanted tunnel routes are known to be in the kernel.
pub open spec fn peers_reached(list: Seq<HostRouteView>, wanted: Seq<HostRouteView>, n: int) -> bool {
    forall|k: int| 0 <= k < n ==> is_current(list, #[trigger] wanted[k])
}

/// What the phase of an operation says about tunnel routes, as long as the kernel
/// accepts the requests for them.
pub open spec fn tunnels_on_course(m: MgrView, run: RunView) -> bool {
    let all = m.underlay.len() as int;
    match run.phase {
        Phase::UnderlayDelete(i) => peers_wanted(m.underlay, run.wanted, i as int),
        Phase::UnderlayInstall(i) => peers_wanted(m.underlay, run.wanted, all) && peers_reached(
            m.underlay,
            run.wanted,
            i as int,
        ),
        _ => peers_wanted(m.underlay, run.wanted, all) && peers_reached(
            m.underlay,
            run.wanted,
            run.wanted.len() as int,
        ),
    }
}

spec fn tunnels_ok(s: ApplyState) -> bool {
    tunnels_on_course(s.m, s.run)
}

/// Once the default route is seen to, tunnel routes are left alone.
proof fn lemma_tunnels_mode(m: MgrView, run: RunView)
    ensures
        enter_mode(m, run).m.underlay == m.underlay,
        enter_mode(m, run).run.wanted == run.wanted,
        !(enter_mode(m, run).run.phase is UnderlayDelete),
        !(enter_mode(m, run).run.phase is UnderlayInstall),
{
}

proof fn lemma_tunnels_missing(list: Seq<HostRouteView>, wanted: Seq<HostRouteView>, from: int)
    requires
        0 <= from <= wanted.len(),
    ensures
        ({
            let k = next_missing(list, wanted, from);
            &&& from <= k <= wanted.len()
            &&& forall|i: int| from <= i < k ==> is_current(list, #[trigger] wanted[i])
        }),
    decreases wanted.len() - from,
{
    if from < wanted.len() && is_current(list, wanted[from]) {
        lemma_tunnels_missing(list, wanted, from + 1);
    }
}

proof fn lemma_tunnels_unwanted(list: Seq<HostRouteView>, wanted: Seq<HostRouteView>, from: int)
    requires
        0 <= from <= list.len(),
    ensures
        ({
            let k = next_unwanted(list, wanted, from);
            &&& from <= k <= list.len()
            &&& forall|i: int|
                from <= i < k ==> find_dest(wanted, (#[trigger] list[i]).0, 0) < wanted.len()
        }),
    decreases list.len() - from,
{
    if from < list.len() && find_dest(wanted, list[from].0, 0) < wanted.len() {
        lemma_tunnels_unwanted(list, wanted, from + 1);
    }
}

proof fn lemma_tunnels_install(m: MgrView, run: RunView, from: int)
    requires
        0 <= from <= run.wanted.len() <= usize::MAX,
        peers_wanted(m.underlay, run.wanted, m.underlay.len() as int),
        peers_reached(m.underlay, run.wanted, from),
    ensures
        tunnels_ok(enter_underlay_install(m, run, from)),
{
    lemma_tunnels_missing(m.underlay, run.wanted, from);
    lemma_tunnels_mode(m, run);
}

proof fn lemma_tunnels_delete(m: MgrView, run: RunView, from: int)
    requires
        0 <= from <= m.underlay.len() <= usize::MAX,
        run.wanted.len() <= usize::MAX,
        peers_wanted(m.underlay, run.wanted, from),
    ensures
        tunnels_ok(enter_underlay_delete(m, run, from)),
{
    lemma_tunnels_unwanted(m.underlay, run.wanted, from);
    if next_unwanted(m.underlay, run.wanted, from) >= m.underlay.len() {
        lemma_tunnels_install(m, run, 0);
    }
}

proof fn lemma_upsert_current(list: Seq<HostRouteView>, r: HostRouteView, w: HostRouteView)
    requires
        underlay_wf(list),
        w.0 == r.0 ==> w == r,
        w == r || is_current(list, w),
    ensures
        is_current(upsert(list, r), w),
{
    reveal(underlay_wf);
    let up = upsert(list, r);
    lemma_find_dest(list, r.0, 0);
    lemma_find_dest(list, w.0, 0);
    lemma_find_dest(up, w.0, 0);
    if w != r {
        let k = find_dest(list, w.0, 0);
        assert(up[k] == w);
    } else {
        let k = find_dest(list, r.0, 0);
        assert(up[k] == r);
    }
}

/// Tunnel routes are on course when an operation starts ...
pub proof fn tunnels_start_on_course(m: MgrView, run: RunView)
    requires
        m.underlay.len() <= usize::MAX,
        run.wanted.len() <= usize::MAX,
    ensures
        tunnels_on_course(
            enter_underlay_delete(m, run, 0).m,
            enter_underlay_delete(m, run, 0).run,
        ),
{
    lemma_tunnels_delete(m, run, 0);
}

/// ... and stay so while the kernel accepts the requests for them, and after that
/// whatever it answers. From then on, each peer is known to have its route
/// through the exit, and no other peer is known.
pub proof fn tunnel_peers_get_their_routes(m: MgrView, run: RunView, ev: Event)
    requires
        phase_wf(m, run),
        peers_agree(run.wanted),
        m.underlay.len() < usize::MAX,
        run.wanted.len() <= usize::MAX,
        tunnels_on_course(m, run),
        run.phase is UnderlayDelete || run.phase is UnderlayInstall ==> answer(ev) is Ok,
    ensures
        tunnels_on_course(next_state(m, run, ev).m, next_state(m, run, ev).run),
{
    match run.phase {
        Phase::UnderlayDelete(i) => {
            let gone = MgrView { underlay: m.underlay.remove(i as int), ..m };
            assert forall|k: int| 0 <= k < i implies find_dest(
                run.wanted,
                (#[trigger] gone.underlay[k]).0,
                0,
            ) < run.wanted.len() by {
                assert(gone.underlay[k] == m.underlay[k]);
            }
            lemma_tunnels_delete(gone, run, i as int);
        },
        Phase::UnderlayInstall(i) => {
            let r = run.wanted[i as int];
            let up = MgrView { underlay: upsert(m.underlay, r), ..m };
            lemma_find_dest(m.underlay, r.0, 0);
            lemma_find_dest(run.wanted, r.0, 0);
            assert(find_dest(run.wanted, r.0, 0) < run.wanted.len());
            assert forall|k: int| 0 <= k < i + 1 implies is_current(
                up.underlay,
                #[trigger] run.wanted[k],
            ) by {
                assert(run.wanted[k].0 == r.0 ==> run.wanted[k] == r);
                lemma_upsert_current(m.underlay, r, run.wanted[k]);
            }
            assert forall|k: int| 0 <= k < up.underlay.len() implies find_dest(
                run.wanted,
                (#[trigger] up.underlay[k]).0,
                0,
            ) < run.wanted.len() by {
                if k != find_dest(m.underlay, r.0, 0) {
                    assert(up.underlay[k] == m.underlay[k]);
                }
            }
            lemma_tunnels_install(up, run, i + 1);
        },
        _ => lemma_tunnels_left_alone(m, run, ev),
    }
}

spec fn left_alone(s: ApplyState, m: MgrView, run: RunView) -> bool {
    &&& s.m.underlay == m.underlay
    &&& s.run.wanted == run.wanted
    &&& !(s.run.phase is UnderlayDelete) && !(s.run.phase is UnderlayInstall)
}

proof fn lemma_left_alone_finish(m: MgrView, run: RunView, e: Option<NetlinkError>)
    ensures
        left_alone(finish_resilient(m, run, e), m, run),
{
}

proof fn lemma_left_alone_tear(
    m: MgrView,
    run: RunView,
    at: TearAt,
    reply: Result<(), NetlinkError>,
)
    ensures
        left_alone(after_tear(tear_next(m, run.family, at, reply), run), m, run),
{
}

proof fn lemma_left_alone_resilient(m: MgrView, run: RunView, ev: Event)
    requires
        run.phase is Switch || run.phase is Member || run.phase is Group || run.phase is Route
            || run.phase is Drop,
    ensures
        left_alone(next_state(m, run, ev), m, run),
{
    let made = fault(answer(ev));
    let gone = fault(committed(true, answer(ev)));
    lemma_left_alone_finish(m, run, made);
    lemma_left_alone_finish(m, run, gone);
    if run.phase is Switch {
        lemma_left_alone_finish(
            m.with_variant(run.family, InstalledVariant::Absent),
            run,
            Some(NetlinkError::TooManyNexthops(run.hops.len() as usize)),
        );
    }
    if run.phase is Route {
        lemma_left_alone_finish(m.with_variant(run.family, InstalledVariant::Resilient), run, None);
    }
    if let Phase::Drop(i) = run.phase {
        lemma_left_alone_finish(m.with_nh(m.nh.remove(i as int)), run, None);
        lemma_left_alone_finish(m, run, None);
    }
}

proof fn lemma_tunnels_left_alone(m: MgrView, run: RunView, ev: Event)
    requires
        !(run.phase is UnderlayDelete) && !(run.phase is UnderlayInstall),
    ensures
        left_alone(next_state(m, run, ev), m, run),
{
    match run.phase {
        Phase::Teardown(at) => lemma_left_alone_tear(m, run, at, answer(ev)),
        Phase::LinksDown => lemma_left_alone_finish(m, run, None),
        Phase::LinksDownDelete => {
            lemma_left_alone_finish(m, run, fault(committed(true, answer(ev))));
            lemma_left_alone_finish(
                m.with_variant(run.family, InstalledVariant::Absent),
                run,
                None,
            );
        },
        Phase::Standard | Phase::Finished => {},
        _ => lemma_left_alone_resilient(m, run, ev),
    }
}

} // verus!
