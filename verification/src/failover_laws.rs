//! What the decisions of the failover come to, told by the lines themselves.
use crate::addr::{IpAddr, Ipv4Addr, SocketAddr};
use crate::failover::{
    active_set, actives, actives_v6, elapsed, first_v4, flush_picks, flushed_by_switch, has_name,
    is_active, is_route_of, is_route_v6_of, least_metric_is_least, min_metric, switch_filter,
    unchanged, ControllerView, NetlinkOp, WanMonitor,
};
use crate::lqe::LinkState;
use crate::netlink::link::{LinkEvent, LinkEventView};
use crate::netlink::manager::{ActiveWanRoute, ActiveWanRouteV6};
use crate::prober::local_error;
use vstd::prelude::*;

verus! {

/// Whether a line can carry traffic: it was judged to be up, and its interface
/// exists.
pub open spec fn in_service(line: WanMonitor) -> bool {
    line.lqe.state == LinkState::Up && line.ifindex != 0
}

/// Whether the line `i` carries the default route: it is in service, and no line
/// in service has a lesser metric.
pub open spec fn carries(lines: Seq<WanMonitor>, i: int) -> bool {
    &&& 0 <= i < lines.len()
    &&& in_service(lines[i])
    &&& forall|j: int|
        0 <= j < lines.len() && in_service(#[trigger] lines[j]) ==> lines[i].metric
            <= lines[j].metric
}

/// Whether some places are those of the lines that carry the default route, each
/// of them once, in the order of the lines.
pub open spec fn places_of_carriers(at: Seq<int>, lines: Seq<WanMonitor>) -> bool {
    &&& forall|j: int, k: int| 0 <= j < k < at.len() ==> #[trigger] at[j] < #[trigger] at[k]
    &&& forall|k: int| 0 <= k < at.len() ==> carries(lines, #[trigger] at[k])
    &&& forall|i: int| #[trigger] carries(lines, i) ==> at.contains(i)
}

/// Whether a list holds the interfaces of the lines that carry the default route,
/// in the order of the lines, and nothing else.
pub open spec fn lists_carriers(set: Seq<u32>, lines: Seq<WanMonitor>) -> bool {
    exists|at: Seq<int>|
        #![trigger places_of_carriers(at, lines)]
        {
            &&& places_of_carriers(at, lines)
            &&& set.len() == at.len()
            &&& forall|k: int| 0 <= k < set.len() ==> #[trigger] set[k] == lines[at[k]].ifindex
        }
}

pub open spec fn as_places(at: Seq<usize>) -> Seq<int> {
    Seq::new(at.len(), |k: int| at[k] as int)
}

proof fn lemma_same_places(a: Seq<int>, b: Seq<int>, lines: Seq<WanMonitor>, k: int)
    requires
        places_of_carriers(a, lines),
        places_of_carriers(b, lines),
        0 <= k < a.len(),
    ensures
        k < b.len(),
        a[k] == b[k],
    decreases k,
{
    assert(carries(lines, a[k]));
    assert(b.contains(a[k]));
    let m = choose|m: int| 0 <= m < b.len() && b[m] == a[k];
    if m < k {
        lemma_same_places(a, b, lines, m);
        assert(a[m] < a[k]);
    }
    assert(carries(lines, b[k]));
    assert(a.contains(b[k]));
    let n = choose|n: int| 0 <= n < a.len() && a[n] == b[k];
    if n < k {
        lemma_same_places(a, b, lines, n);
        assert(b[n] < b[k]);
    }
    if m > k {
        assert(b[k] < b[m]);
    }
    if n > k {
        assert(a[k] < a[n]);
    }
}

proof fn lemma_one_list(a: Seq<int>, b: Seq<int>, lines: Seq<WanMonitor>)
    requires
        places_of_carriers(a, lines),
        places_of_carriers(b, lines),
    ensures
        a == b,
{
    assert forall|k: int| 0 <= k < a.len() implies k < b.len() && a[k] == b[k] by {
        lemma_same_places(a, b, lines, k);
    }
    assert forall|k: int| 0 <= k < b.len() implies k < a.len() && a[k] == b[k] by {
        lemma_same_places(b, a, lines, k);
    }
    if a.len() < b.len() {
        let k = a.len() as int;
        lemma_same_places(b, a, lines, k);
    }
    if b.len() < a.len() {
        let k = b.len() as int;
        lemma_same_places(a, b, lines, k);
    }
    assert(a =~= b);
}

proof fn lemma_actives_places(lines: Seq<WanMonitor>, least: Option<u32>)
    requires
        lines.len() <= usize::MAX,
    ensures
        ({
            let at = actives(lines, least);
            &&& forall|j: int, k: int| 0 <= j < k < at.len() ==> #[trigger] at[j] < #[trigger] at[k]
            &&& forall|k: int|
                0 <= k < at.len() ==> (#[trigger] at[k]) < lines.len() && is_active(
                    lines[at[k] as int],
                    least,
                )
            &&& forall|i: int|
                0 <= i < lines.len() && is_active(#[trigger] lines[i], least) ==> at.contains(
                    i as usize,
                )
        }),
    decreases lines.len(),
{
    if lines.len() > 0 {
        let init = lines.drop_last();
        lemma_actives_places(init, least);
        let all = actives(lines, least);
        let rest = actives(init, least);
        assert forall|k: int| 0 <= k < all.len() implies (#[trigger] all[k]) < lines.len()
            && is_active(lines[all[k] as int], least) by {
            if k < rest.len() {
                assert(all[k] == rest[k]);
                assert(init[rest[k] as int] == lines[rest[k] as int]);
            }
        }
        assert forall|j: int, k: int| 0 <= j < k < all.len() implies #[trigger] all[j]
            < #[trigger] all[k] by {
            assert(all[j] == rest[j]);
            if k < rest.len() {
                assert(all[k] == rest[k]);
            }
        }
        assert forall|i: int|
            0 <= i < lines.len() && is_active(#[trigger] lines[i], least) implies all.contains(
            i as usize,
        ) by {
            if i < init.len() {
                assert(init[i] == lines[i]);
                assert(rest.contains(i as usize));
                let k = choose|k: int| 0 <= k < rest.len() && rest[k] == i as usize;
                assert(all[k] == i as usize);
            } else {
                assert(all[all.len() - 1] == i as usize);
            }
        }
    }
}

/// A line is active if and only if it carries the default route.
pub proof fn active_lines_carry(lines: Seq<WanMonitor>)
    ensures
        forall|i: int|
            0 <= i < lines.len() ==> (is_active(#[trigger] lines[i], min_metric(lines))
                <==> carries(lines, i)),
{
    least_metric_is_least(lines);
    assert forall|i: int| 0 <= i < lines.len() implies (is_active(
        #[trigger] lines[i],
        min_metric(lines),
    ) <==> carries(lines, i)) by {
        assert(lines[i].is_up() == in_service(lines[i]));
        if let Some(m) = min_metric(lines) {
            let w = choose|k: int|
                0 <= k < lines.len() && (#[trigger] lines[k]).is_up() && lines[k].metric == m;
            assert(lines[w].is_up());
            assert(in_service(lines[w]));
            if is_active(lines[i], min_metric(lines)) {
                assert forall|j: int| 0 <= j < lines.len() && in_service(#[trigger] lines[j]) implies lines[i].metric
                    <= lines[j].metric by {
                    assert(lines[j].is_up());
                }
            }
        } else {
            assert(!lines[i].is_up());
        }
    }
}

/// The places of the active lines are those of the lines that carry the default
/// route, each once and in order, and the active set holds their interfaces.
pub proof fn active_lines_are_the_carriers(lines: Seq<WanMonitor>)
    requires
        lines.len() <= usize::MAX,
    ensures
        places_of_carriers(as_places(actives(lines, min_metric(lines))), lines),
        lists_carriers(active_set(lines), lines),
        forall|k: int|
            0 <= k < active_set(lines).len() ==> #[trigger] active_set(lines)[k]
                == lines[actives(lines, min_metric(lines))[k] as int].ifindex,
        active_set(lines).len() == actives(lines, min_metric(lines)).len(),
{
    let least = min_metric(lines);
    let at = actives(lines, least);
    let places = as_places(at);
    active_lines_carry(lines);
    lemma_actives_places(lines, least);
    assert forall|k: int| 0 <= k < places.len() implies carries(lines, #[trigger] places[k]) by {
        assert(at[k] < lines.len());
    }
    assert forall|j: int, k: int| 0 <= j < k < places.len() implies #[trigger] places[j]
        < #[trigger] places[k] by {
        assert(at[j] < at[k]);
    }
    assert forall|i: int| #[trigger] carries(lines, i) implies places.contains(i) by {
        assert(is_active(lines[i], least));
        let k = choose|k: int| 0 <= k < at.len() && at[k] == i as usize;
        assert(places[k] == i);
    }
    assert(places_of_carriers(places, lines));
}

/// The set counts as unchanged if and only if what was last put in place are the
/// interfaces of the lines that carry the default route, all of them and in their
/// order; before the first time, if and only if no line does.
pub proof fn unchanged_means_the_same_interfaces(prev: Seq<u32>, lines: Seq<WanMonitor>)
    requires
        lines.len() <= usize::MAX,
    ensures
        unchanged(Some(prev), lines) <==> lists_carriers(prev, lines),
        unchanged(None, lines) <==> forall|i: int| !carries(lines, i),
{
    active_lines_are_the_carriers(lines);
    let mine = as_places(actives(lines, min_metric(lines)));
    if lists_carriers(prev, lines) {
        let at = choose|at: Seq<int>|
            #![trigger places_of_carriers(at, lines)]
            {
                &&& places_of_carriers(at, lines)
                &&& prev.len() == at.len()
                &&& forall|k: int|
                    0 <= k < prev.len() ==> #[trigger] prev[k] == lines[at[k]].ifindex
            };
        lemma_one_list(at, mine, lines);
        assert(prev =~= active_set(lines));
    }
    if unchanged(None, lines) {
        assert forall|i: int| !carries(lines, i) by {
            if carries(lines, i) {
                assert(mine.contains(i));
            }
        }
    } else {
        assert(carries(lines, mine[0]));
    }
}

/// While the worker is free, the default route is put in place as soon as a line
/// carries it that is not in the set that was put in place last, or one in that
/// set carries it no more, or the two differ in length.
pub proof fn every_change_is_put_in_place(c: ControllerView, prev: Seq<u32>, lines: Seq<WanMonitor>)
    requires
        lines.len() <= usize::MAX,
        c.last_active == Some(prev),
        !c.v4_inflight,
    ensures
        (exists|i: int| #[trigger] carries(lines, i) && !prev.contains(lines[i].ifindex))
            ==> c.applies(lines),
        (exists|k: int|
            0 <= k < prev.len() && forall|i: int|
                #[trigger] carries(lines, i) ==> lines[i].ifindex != #[trigger] prev[k])
            ==> c.applies(lines),
        !lists_carriers(prev, lines) ==> c.applies(lines),
{
    unchanged_means_the_same_interfaces(prev, lines);
    if lists_carriers(prev, lines) {
        let at = choose|at: Seq<int>|
            #![trigger places_of_carriers(at, lines)]
            {
                &&& places_of_carriers(at, lines)
                &&& prev.len() == at.len()
                &&& forall|k: int|
                    0 <= k < prev.len() ==> #[trigger] prev[k] == lines[at[k]].ifindex
            };
        assert forall|i: int| #[trigger] carries(lines, i) implies prev.contains(
            lines[i].ifindex,
        ) by {
            let k = choose|k: int| 0 <= k < at.len() && at[k] == i;
            assert(prev[k] == lines[i].ifindex);
        }
        assert forall|k: int| 0 <= k < prev.len() implies exists|i: int| #[trigger]
            carries(lines, i) && lines[i].ifindex == #[trigger] prev[k] by {
            assert(carries(lines, at[k]));
        }
    }
}

/// When the default route is put in place, and when it is left alone: never while
/// the worker is at it; else for a change, after a failure once the wait of four
/// ticks is over, and every sixty ticks once it was put in place.
pub proof fn when_routes_are_put_in_place(c: ControllerView, lines: Seq<WanMonitor>)
    requires
        lines.len() <= usize::MAX,
    ensures
        c.v4_inflight ==> !c.applies(lines),
        !c.v4_inflight ==> (c.applies(lines) <==> {
            ||| c.last_active matches Some(prev) && !lists_carriers(prev, lines)
            ||| c.last_active is None && exists|i: int| carries(lines, i)
            ||| c.v4_dirty && c.v4_retry_at <= c.tick
            ||| c.last_active is Some && c.tick % 60 == 0
        }),
{
    match c.last_active {
        Some(prev) => {
            unchanged_means_the_same_interfaces(prev, lines);
        },
        None => {
            unchanged_means_the_same_interfaces(Seq::empty(), lines);
        },
    }
}

/// A failure is not tried again before its wait is over, as long as the active
/// lines stay the same and no sixtieth tick comes; and it is tried from then on.
pub proof fn failed_routes_wait_four_ticks(
    c: ControllerView,
    detail: Seq<char>,
    prev: Seq<u32>,
    lines: Seq<WanMonitor>,
    later: u64,
)
    requires
        lines.len() <= usize::MAX,
        c.tick < 0x8000_0000_0000_0000,
        c.last_active == Some(prev),
        lists_carriers(prev, lines),
        later % 60 != 0,
    ensures
        at_tick(c.after_report(NetlinkOp::Ipv4Routes, false, detail), later).applies(lines)
            <==> later >= c.tick + 4,
{
    unchanged_means_the_same_interfaces(prev, lines);
}

pub open spec fn at_tick(c: ControllerView, tick: u64) -> ControllerView {
    ControllerView { tick, ..c }
}

/// A report frees the worker's operation that it is about, and touches no other:
/// a failure makes that operation due again later, a success leaves what is due
/// as it was.
pub proof fn reports_free_their_operation(
    c: ControllerView,
    op: NetlinkOp,
    ok: bool,
    detail: Seq<char>,
)
    requires
        c.tick < 0x8000_0000_0000_0000,
    ensures
        ({
            let r = c.after_report(op, ok, detail);
            &&& r.tick == c.tick && r.last_active == c.last_active && r.cleanup == c.cleanup
            &&& r.watch_retry_at == c.watch_retry_at && r.shared_warned == c.shared_warned
            &&& r.v6_pending == c.v6_pending
            &&& op != NetlinkOp::Ipv4Routes ==> r.v4_inflight == c.v4_inflight && r.v4_dirty
                == c.v4_dirty && r.v4_retry_at == c.v4_retry_at && r.fail_count == c.fail_count
                && r.last_fail == c.last_fail
            &&& op == NetlinkOp::Ipv4Routes ==> !r.v4_inflight && (r.v4_dirty <==> c.v4_dirty
                || !ok)
            &&& op == NetlinkOp::Ipv4Routes && ok ==> r.v4_retry_at == c.v4_retry_at
                && r.fail_count == 0 && r.last_fail is None
            &&& op == NetlinkOp::Ipv4Routes && !ok ==> r.v4_retry_at == c.tick + 4
            &&& op == NetlinkOp::Ipv4Routes && !ok && c.fail_count < u64::MAX ==> r.fail_count
                == c.fail_count + 1
            &&& op == NetlinkOp::Ipv4Routes && !ok && c.last_fail != Some(detail) ==> r.last_fail
                == Some(detail) && c.warns_of(detail)
            &&& op != NetlinkOp::ProbePaths ==> r.paths_inflight == c.paths_inflight
                && r.paths_dirty == c.paths_dirty && r.paths_retry_at == c.paths_retry_at
            &&& op == NetlinkOp::ProbePaths ==> !r.paths_inflight && (r.paths_dirty
                <==> c.paths_dirty || !ok)
            &&& op == NetlinkOp::ProbePaths && ok ==> r.paths_retry_at == c.paths_retry_at
            &&& op == NetlinkOp::ProbePaths && !ok ==> r.paths_retry_at == c.tick + 6
        }),
{
}

/// When the probe paths are put in place: not while the worker is at it, and not
/// before the wait after a failure is over; else if something has changed, and
/// every sixty ticks.
pub proof fn when_probe_paths_are_put_in_place(c: ControllerView)
    ensures
        c.paths_inflight ==> !c.paths_due(),
        c.tick < c.paths_retry_at ==> !c.paths_due(),
        !c.paths_inflight && c.tick >= c.paths_retry_at ==> (c.paths_due() <==> c.paths_dirty
            || c.tick % 60 == 0),
{
}

/// At the start the probe paths are due at once, what is left of an earlier run is
/// to be cleaned up, and the default route is put in place with the first line
/// that comes up, not before.
pub proof fn a_fresh_start(lines: Seq<WanMonitor>)
    requires
        lines.len() <= usize::MAX,
    ensures
        ControllerView::fresh().paths_due(),
        ControllerView::fresh().cleanup,
        ControllerView::fresh().applies(lines) <==> exists|i: int| carries(lines, i),
        ControllerView::fresh().v6_pending is None,
        ControllerView::fresh().last_fail is None,
        !ControllerView::fresh().shared_warned,
{
    when_routes_are_put_in_place(ControllerView::fresh(), lines);
}

/// Among the routes of the active lines each line that carries the default route
/// has one, with its interface, its gateway, its weight and its tunnel peers, in
/// the order of the lines, and no other line has.
pub proof fn every_active_line_has_its_route(lines: Seq<WanMonitor>, routes: Seq<ActiveWanRoute>)
    requires
        lines.len() <= usize::MAX,
        routes.len() == actives(lines, min_metric(lines)).len(),
        forall|k: int|
            0 <= k < routes.len() ==> is_route_of(
                #[trigger] routes[k],
                lines[actives(lines, min_metric(lines))[k] as int],
            ),
    ensures
        exists|at: Seq<int>|
            #![trigger places_of_carriers(at, lines)]
            {
                &&& places_of_carriers(at, lines)
                &&& at.len() == routes.len()
                &&& forall|k: int|
                    0 <= k < routes.len() ==> {
                        &&& (#[trigger] routes[k]).ifname@ == lines[at[k]].ifname@
                        &&& routes[k].ifindex == lines[at[k]].ifindex
                        &&& routes[k].gateway == lines[at[k]].gateway
                        &&& routes[k].weight == lines[at[k]].weight
                        &&& routes[k].metric == lines[at[k]].metric
                        &&& routes[k].underlay_targets@ == lines[at[k]].underlay_targets@
                    }
            },
{
    active_lines_are_the_carriers(lines);
    let at = as_places(actives(lines, min_metric(lines)));
    assert(places_of_carriers(at, lines));
    assert forall|k: int| 0 <= k < routes.len() implies {
        &&& (#[trigger] routes[k]).ifname@ == lines[at[k]].ifname@
        &&& routes[k].ifindex == lines[at[k]].ifindex
        &&& routes[k].gateway == lines[at[k]].gateway
        &&& routes[k].weight == lines[at[k]].weight
        &&& routes[k].metric == lines[at[k]].metric
        &&& routes[k].underlay_targets@ == lines[at[k]].underlay_targets@
    } by {
        assert(is_route_of(routes[k], lines[at[k]]));
    }
}

proof fn lemma_filtered_places(s: Seq<usize>, f: spec_fn(usize) -> bool)
    requires
        forall|j: int, k: int| 0 <= j < k < s.len() ==> #[trigger] s[j] < #[trigger] s[k],
    ensures
        forall|j: int, k: int|
            0 <= j < k < s.filter(f).len() ==> #[trigger] s.filter(f)[j] < #[trigger] s.filter(f)[k],
        forall|x: usize| #[trigger] s.filter(f).contains(x) <==> s.contains(x) && f(x),
    decreases s.len(),
{
    reveal(Seq::filter);
    if s.len() > 0 {
        let init = s.drop_last();
        assert forall|j: int, k: int| 0 <= j < k < init.len() implies #[trigger] init[j]
            < #[trigger] init[k] by {
            assert(s[j] < s[k]);
        }
        lemma_filtered_places(init, f);
        let rest = init.filter(f);
        let all = s.filter(f);
        assert(all == if f(s.last()) {
            rest.push(s.last())
        } else {
            rest
        });
        assert forall|j: int, k: int| 0 <= j < k < all.len() implies #[trigger] all[j]
            < #[trigger] all[k] by {
            assert(all[j] == rest[j]);
            if k < rest.len() {
                assert(all[k] == rest[k]);
            } else {
                assert(rest.contains(rest[j]));
                assert(init.contains(rest[j]));
                let m = choose|m: int| 0 <= m < init.len() && init[m] == rest[j];
                assert(s[m] < s[s.len() - 1]);
            }
        }
        assert forall|x: usize| #[trigger] all.contains(x) <==> s.contains(x) && f(x) by {
            assert(rest.contains(x) <==> init.contains(x) && f(x));
            if all.contains(x) {
                let k = choose|k: int| 0 <= k < all.len() && all[k] == x;
                if k < rest.len() {
                    assert(rest[k] == x);
                    let m = choose|m: int| 0 <= m < init.len() && init[m] == x;
                    assert(s[m] == x);
                } else {
                    assert(s[s.len() - 1] == x);
                }
            }
            if s.contains(x) && f(x) {
                let m = choose|m: int| 0 <= m < s.len() && s[m] == x;
                if m < init.len() {
                    assert(init[m] == x);
                    let k = choose|k: int| 0 <= k < rest.len() && rest[k] == x;
                    assert(all[k] == x);
                } else {
                    assert(all[all.len() - 1] == x);
                }
            }
        }
    }
}

proof fn lemma_contains_place(lines: Seq<WanMonitor>, i: int)
    requires
        lines.len() <= usize::MAX,
        0 <= i < lines.len(),
    ensures
        actives(lines, min_metric(lines)).contains(i as usize) <==> carries(lines, i),
{
    active_lines_are_the_carriers(lines);
    let at = actives(lines, min_metric(lines));
    let places = as_places(at);
    if at.contains(i as usize) {
        let k = choose|k: int| 0 <= k < at.len() && at[k] == i as usize;
        assert(places[k] == i);
        assert(carries(lines, places[k]));
    }
    if carries(lines, i) {
        let k = choose|k: int| 0 <= k < places.len() && places[k] == i;
        assert(at[k] == i as usize);
    }
}

/// IPv6 goes where IPv4 goes: of the lines that carry the default route, those
/// with an IPv6 gateway, and no others, in order.
pub proof fn ipv6_goes_where_ipv4_goes(lines: Seq<WanMonitor>)
    requires
        lines.len() <= usize::MAX,
    ensures
        ({
            let at = actives_v6(lines, actives(lines, min_metric(lines)));
            &&& forall|i: int|
                0 <= i < lines.len() ==> (at.contains(i as usize) <==> #[trigger] carries(lines, i)
                    && lines[i].gateway6 is Some)
            &&& forall|j: int, k: int| 0 <= j < k < at.len() ==> #[trigger] at[j] < #[trigger] at[k]
            &&& forall|k: int|
                0 <= k < at.len() ==> (#[trigger] at[k]) < lines.len() && carries(
                    lines,
                    at[k] as int,
                )
        }),
{
    let v4 = actives(lines, min_metric(lines));
    let f = |i: usize| lines[i as int].gateway6 is Some;
    let at = actives_v6(lines, v4);
    lemma_actives_places(lines, min_metric(lines));
    lemma_filtered_places(v4, f);
    assert forall|i: int| 0 <= i < lines.len() implies (at.contains(i as usize)
        <==> #[trigger] carries(lines, i) && lines[i].gateway6 is Some) by {
        lemma_contains_place(lines, i);
    }
    assert forall|k: int| 0 <= k < at.len() implies (#[trigger] at[k]) < lines.len() && carries(
        lines,
        at[k] as int,
    ) by {
        assert(at.contains(at[k]));
        assert(v4.contains(at[k]));
        let m = choose|m: int| 0 <= m < v4.len() && v4[m] == at[k];
        assert(v4[m] < lines.len());
        lemma_contains_place(lines, at[k] as int);
    }
}

/// An IPv6 route of a line has the line's interface, its IPv6 gateway and its
/// weight.
pub proof fn ipv6_routes_are_the_lines_own(r: ActiveWanRouteV6, line: WanMonitor)
    requires
        is_route_v6_of(r, line),
    ensures
        r.ifname@ == line.ifname@,
        r.ifindex == line.ifindex,
        r.gateway == line.gateway6,
        r.weight == line.weight,
{
}

proof fn lemma_two_places(lines: Seq<WanMonitor>)
    requires
        lines.len() <= usize::MAX,
    ensures
        active_set(lines).len() > 1 <==> exists|i: int, j: int|
            i != j && #[trigger] carries(lines, i) && #[trigger] carries(lines, j),
{
    active_lines_are_the_carriers(lines);
    let at = as_places(actives(lines, min_metric(lines)));
    if at.len() > 1 {
        assert(at[0] < at[1]);
        assert(carries(lines, at[0]) && carries(lines, at[1]));
    }
    if exists|i: int, j: int|
        i != j && #[trigger] carries(lines, i) && #[trigger] carries(lines, j) {
        let (i, j) = choose|i: int, j: int|
            i != j && #[trigger] carries(lines, i) && #[trigger] carries(lines, j);
        assert(at.contains(i) && at.contains(j));
        let k = choose|k: int| 0 <= k < at.len() && at[k] == i;
        let m = choose|m: int| 0 <= m < at.len() && at[m] == j;
        assert(k != m);
    }
}

/// A change of the active lines deletes connections of a line if and only if the
/// line carries the default route now and either it did not before, or several
/// lines shared the traffic before, or several share it now. Each line is named
/// once.
pub proof fn who_is_flushed_by_a_switch(prev: Seq<u32>, lines: Seq<WanMonitor>, i: int)
    requires
        lines.len() <= usize::MAX,
        0 <= i < lines.len(),
    ensures
        flushed_by_switch(prev, lines).contains(i as usize) <==> {
            &&& carries(lines, i)
            &&& {
                ||| !prev.contains(lines[i].ifindex)
                ||| prev.len() > 1
                ||| exists|j: int| j != i && #[trigger] carries(lines, j)
            }
        },
        forall|j: int, k: int|
            0 <= j < k < flushed_by_switch(prev, lines).len() ==> #[trigger] flushed_by_switch(
                prev,
                lines,
            )[j] < #[trigger] flushed_by_switch(prev, lines)[k],
{
    let at = actives(lines, min_metric(lines));
    let f = switch_filter(prev, lines);
    lemma_actives_places(lines, min_metric(lines));
    lemma_filtered_places(at, f);
    lemma_contains_place(lines, i);
    lemma_two_places(lines);
    if carries(lines, i) && active_set(lines).len() > 1 {
        let (a, b) = choose|a: int, b: int|
            a != b && #[trigger] carries(lines, a) && #[trigger] carries(lines, b);
        if a == i {
            assert(b != i && carries(lines, b));
        } else {
            assert(a != i && carries(lines, a));
        }
    }
    assert(f(i as usize) <==> (prev.len() > 1 || active_set(lines).len() > 1 || !prev.contains(
        lines[i].ifindex,
    )));
}

/// Time has passed if it never started, or if the clock shows the given time more
/// than then. No time passes while the clock stands still or goes back.
pub proof fn time_that_has_passed(t: u64, now: u64, interval: u64)
    ensures
        elapsed(None, now, interval),
        elapsed(Some(t), now, interval) <==> interval == 0 || now >= t + interval,
{
}

/// Whether a line's connections were last dealt with long enough ago.
pub open spec fn rested(line: WanMonitor, now: u64, interval: u64) -> bool {
    match line.last_conntrack_flush {
        Some(t) => interval == 0 || now >= t + interval,
        None => true,
    }
}

proof fn lemma_has_name(lines: Seq<WanMonitor>, rest: Seq<usize>, i: usize, name: Seq<char>)
    ensures
        has_name(lines, rest.push(i), name) <==> has_name(lines, rest, name)
            || lines[i as int].ifname@ == name,
{
    let all = rest.push(i);
    if has_name(lines, rest, name) {
        let k = choose|k: int|
            0 <= k < rest.len() && lines[(#[trigger] rest[k]) as int].ifname@ == name;
        assert(all[k] == rest[k]);
    }
    assert(all[rest.len() as int] == i);
    if has_name(lines, all, name) {
        let k = choose|k: int|
            0 <= k < all.len() && lines[(#[trigger] all[k]) as int].ifname@ == name;
        if k < rest.len() {
            assert(rest[k] == all[k]);
        }
    }
}

/// Of the lines whose connections have to go, each one that has rested long enough
/// is picked, once by name, and no other is.
pub proof fn who_is_picked_for_a_flush(
    lines: Seq<WanMonitor>,
    pending: Seq<usize>,
    now: u64,
    interval: u64,
)
    ensures
        ({
            let p = flush_picks(lines, pending, now, interval);
            &&& forall|k: int|
                0 <= k < p.len() ==> pending.contains(#[trigger] p[k]) && rested(
                    lines[p[k] as int],
                    now,
                    interval,
                )
            &&& forall|j: int, k: int|
                0 <= j < k < p.len() ==> lines[(#[trigger] p[j]) as int].ifname@
                    != lines[(#[trigger] p[k]) as int].ifname@
            &&& forall|m: int|
                0 <= m < pending.len() && rested(
                    lines[(#[trigger] pending[m]) as int],
                    now,
                    interval,
                ) ==> exists|k: int|
                    0 <= k < p.len() && lines[(#[trigger] p[k]) as int].ifname@
                        == lines[pending[m] as int].ifname@
        }),
    decreases pending.len(),
{
    if pending.len() > 0 {
        let init = pending.drop_last();
        who_is_picked_for_a_flush(lines, init, now, interval);
        let rest = flush_picks(lines, init, now, interval);
        let p = flush_picks(lines, pending, now, interval);
        let i = pending.last();
        assert(pending[pending.len() - 1] == i);
        assert forall|k: int| 0 <= k < p.len() implies pending.contains(#[trigger] p[k]) && rested(
            lines[p[k] as int],
            now,
            interval,
        ) by {
            if k < rest.len() {
                assert(p[k] == rest[k]);
                let m = choose|m: int| 0 <= m < init.len() && init[m] == rest[k];
                assert(pending[m] == p[k]);
            }
        }
        assert forall|j: int, k: int| 0 <= j < k < p.len() implies lines[(
        #[trigger] p[j]) as int].ifname@ != lines[(#[trigger] p[k]) as int].ifname@ by {
            assert(p[j] == rest[j]);
            if k < rest.len() {
                assert(p[k] == rest[k]);
            } else {
                assert(!has_name(lines, rest, lines[i as int].ifname@));
            }
        }
        assert forall|m: int|
            0 <= m < pending.len() && rested(
                lines[(#[trigger] pending[m]) as int],
                now,
                interval,
            ) implies exists|k: int|
            0 <= k < p.len() && lines[(#[trigger] p[k]) as int].ifname@
                == lines[pending[m] as int].ifname@ by {
            if m < init.len() {
                assert(init[m] == pending[m]);
                let k = choose|k: int|
                    0 <= k < rest.len() && lines[(#[trigger] rest[k]) as int].ifname@
                        == lines[init[m] as int].ifname@;
                assert(p[k] == rest[k]);
            } else if has_name(lines, rest, lines[i as int].ifname@) {
                let k = choose|k: int|
                    0 <= k < rest.len() && lines[(#[trigger] rest[k]) as int].ifname@
                        == lines[i as int].ifname@;
                assert(p[k] == rest[k]);
            } else {
                assert(p[p.len() - 1] == i);
            }
        }
    }
}

/// Noting the result of a probe changes nothing but the notes: a success clears
/// them, an error is kept word for word.
pub proof fn notes_of_a_probe(line: WanMonitor, error: Option<String>, now: u64)
    ensures
        ({
            let n = line.noted(error, now);
            &&& n.last_probe_error == error
            &&& n.lqe == line.lqe && n.ifindex == line.ifindex && n.ifname == line.ifname
            &&& n.gateway == line.gateway && n.gateway6 == line.gateway6
            &&& n.metric == line.metric && n.weight == line.weight && n.targets == line.targets
            &&& n.underlay_targets == line.underlay_targets && n.cached_ip == line.cached_ip
            &&& n.last_conntrack_flush == line.last_conntrack_flush
            &&& error is None ==> !n.local_condition_warned && !n.probe_path_missing
                && n.last_path_check == line.last_path_check
            &&& error is Some ==> n.probe_path_missing == line.probe_path_missing
            &&& error matches Some(msg) ==> (n.local_condition_warned
                <==> line.local_condition_warned || local_error(msg@))
        }),
{
}

/// A local cause is warned of once: a warning brings no second one before a probe
/// has succeeded, and after a success the next local cause is warned of again.
pub proof fn local_causes_are_warned_of_once(line: WanMonitor, e1: String, e2: String, now: u64)
    ensures
        local_error(e1@) && !line.local_condition_warned <==> line.warns_of(Some(e1)),
        line.warns_of(Some(e1)) ==> !line.noted(Some(e1), now).warns_of(Some(e2)),
        line.noted(None, now).warns_of(Some(e2)) <==> local_error(e2@),
        !line.warns_of(None),
{
}

/// Whether `a` is the first IPv4 address among some targets.
pub open spec fn is_first_v4(targets: Seq<SocketAddr>, a: Ipv4Addr) -> bool {
    exists|k: int|
        0 <= k < targets.len() && (#[trigger] targets[k]).ip == IpAddr::V4(a) && forall|j: int|
            0 <= j < k ==> (#[trigger] targets[j]).ip is V6
}

proof fn lemma_first_v4(targets: Seq<SocketAddr>, from: int)
    requires
        0 <= from <= targets.len(),
        forall|j: int| 0 <= j < from ==> (#[trigger] targets[j]).ip is V6,
    ensures
        match first_v4(targets, from) {
            Some(a) => is_first_v4(targets, a),
            None => forall|j: int| 0 <= j < targets.len() ==> (#[trigger] targets[j]).ip is V6,
        },
    decreases targets.len() - from,
{
    if from < targets.len() {
        match targets[from].ip {
            IpAddr::V4(a) => {
                assert(is_first_v4(targets, a));
            },
            IpAddr::V6(_) => {
                lemma_first_v4(targets, from + 1);
            },
        }
    }
}

/// The kernel is asked the way to the first IPv4 target of a line whose last two
/// probes failed, whose interface exists, and for which it was not asked within
/// the last two seconds; a line that does well is never asked about.
pub proof fn when_the_way_is_asked(line: WanMonitor, error: Option<String>, now: u64)
    ensures
        ({
            let due = error is Some && line.lqe.consecutive_timeouts >= 2 && line.ifindex != 0 && (
            match line.last_path_check {
                Some(t) => now >= t + 2000,
                None => true,
            });
            &&& match line.way_asked(error, now) {
                Some(a) => due && is_first_v4(line.targets@, a),
                None => !due || forall|j: int|
                    0 <= j < line.targets@.len() ==> (#[trigger] line.targets@[j]).ip is V6,
            }
            &&& line.noted(error, now).last_path_check == (if due {
                Some(now)
            } else {
                line.last_path_check
            })
        }),
{
    lemma_first_v4(line.targets@, 0);
}

/// After the kernel was asked the way, it is not asked again for two seconds.
pub proof fn the_way_is_not_asked_too_often(
    line: WanMonitor,
    error: Option<String>,
    again: Option<String>,
    now: u64,
    later: u64,
)
    requires
        line.way_asked(error, now) is Some,
        later < now + 2000,
    ensures
        line.noted(error, now).way_asked(again, later) is None,
{
}

/// An event is about a line by name if it is one of a link with the line's name,
/// and by index if it is one of an address at the line's interface.
pub proof fn events_about_a_line(line: WanMonitor, e: LinkEvent)
    ensures
        match e@ {
            LinkEventView::Link { ifname, .. } => (line.named_by(e) <==> ifname == Some(
                line.ifname@,
            )) && !line.addressed_by(e),
            LinkEventView::Address { ifindex } => (line.addressed_by(e) <==> ifindex
                == line.ifindex) && !line.named_by(e),
            _ => !line.named_by(e) && !line.addressed_by(e),
        },
{
}

/// Once the default route of some lines is on its way, nothing more is sent until
/// the worker reports. After a success it is sent again for another set of lines,
/// or at a sixtieth tick, and for nothing else.
pub proof fn one_route_at_a_time(
    c: ControllerView,
    lines: Seq<WanMonitor>,
    later: Seq<WanMonitor>,
    detail: Seq<char>,
    tick: u64,
)
    requires
        lines.len() <= usize::MAX,
        later.len() <= usize::MAX,
    ensures
        ({
            let sent = c.applied(lines);
            let done = at_tick(sent.after_report(NetlinkOp::Ipv4Routes, true, detail), tick);
            &&& !sent.applies(later)
            &&& sent.last_active matches Some(set) && lists_carriers(set, lines)
            &&& done.applies(later) <==> !lists_carriers(active_set(lines), later) || tick % 60 == 0
            &&& sent.tick == c.tick && sent.paths_dirty == c.paths_dirty && sent.paths_inflight
                == c.paths_inflight && sent.cleanup == c.cleanup && sent.fail_count == c.fail_count
                && sent.v6_pending == c.v6_pending && sent.last_fail == c.last_fail
        }),
{
    active_lines_are_the_carriers(lines);
    unchanged_means_the_same_interfaces(active_set(lines), later);
}

/// Whose connections go with a new default route: nobody's at the first time, if
/// it is not wanted, or if the lines are the same; else those of the lines that
/// the change concerns.
pub proof fn who_is_flushed_with_a_route(
    c: ControllerView,
    lines: Seq<WanMonitor>,
    flush_on_switch: bool,
    i: int,
)
    requires
        lines.len() <= usize::MAX,
        0 <= i < lines.len(),
    ensures
        !flush_on_switch ==> c.flushed_with(lines, flush_on_switch).len() == 0,
        c.last_active is None ==> c.flushed_with(lines, flush_on_switch).len() == 0,
        c.last_active matches Some(prev) ==> {
            &&& lists_carriers(prev, lines) ==> c.flushed_with(lines, flush_on_switch).len() == 0
            &&& flush_on_switch && !lists_carriers(prev, lines) ==> (c.flushed_with(
                lines,
                flush_on_switch,
            ).contains(i as usize) <==> carries(lines, i) && (!prev.contains(lines[i].ifindex)
                || prev.len() > 1 || exists|j: int| j != i && #[trigger] carries(lines, j)))
        },
{
    if let Some(prev) = c.last_active {
        unchanged_means_the_same_interfaces(prev, lines);
        who_is_flushed_by_a_switch(prev, lines, i);
    }
}

/// Whenever the default route is to be put in place the probe paths are due as
/// well, and asking changes nothing else.
pub proof fn routes_take_probe_paths_along(c: ControllerView, lines: Seq<WanMonitor>)
    ensures
        c.applies(lines) ==> c.looked_at(lines).paths_dirty,
        !c.applies(lines) ==> c.looked_at(lines) == c,
        c.looked_at(lines).applies(lines) == c.applies(lines),
{
}

/// Once the probe paths are on their way they are not due until the worker
/// reports; after a success they are due at a sixtieth tick only, unless something
/// changes. Leftovers are swept with the first ones only.
pub proof fn one_set_of_paths_at_a_time(c: ControllerView, detail: Seq<char>, tick: u64)
    requires
        c.paths_retry_at <= tick,
    ensures
        ({
            let sent = c.paths_sent();
            let done = at_tick(sent.after_report(NetlinkOp::ProbePaths, true, detail), tick);
            &&& !sent.paths_due()
            &&& !sent.cleanup
            &&& done.paths_due() <==> tick % 60 == 0
            &&& sent.tick == c.tick && sent.last_active == c.last_active && sent.v4_dirty
                == c.v4_dirty && sent.v4_inflight == c.v4_inflight && sent.v6_pending
                == c.v6_pending
        }),
{
}

/// Ticks are counted one by one, and nothing else changes with them.
pub proof fn ticks_are_counted(c: ControllerView)
    requires
        c.tick < u64::MAX,
    ensures
        c.ticked().tick == c.tick + 1,
        at_tick(c.ticked(), c.tick) == c,
{
}

/// A lost subscription is tried again from the sixtieth tick after the loss on,
/// as long as it is lost.
pub proof fn when_the_watch_is_tried_again(c: ControllerView, tick: u64, active: bool)
    requires
        c.tick < 0x8000_0000_0000_0000,
    ensures
        at_tick(c.watch_lost(), tick).watch_due(active) <==> !active && tick >= c.tick + 60,
{
}

} // verus!
