//! What the worker makes of a batch of commands, told by the commands.
use crate::failover::{actives, min_metric, NetlinkOp, WanMonitor};
use crate::failover_laws::{active_lines_are_the_carriers, as_places, carries, places_of_carriers};
use crate::worker::{
    all_flushes, first_job, greatest_of, last_apply, last_apply_v6, last_paths, least_of,
    metric_of, name_list, reported_op, route_desc, texts, with_names, without_first, work_of, JobView,
    NetlinkCmd, WorkView,
};
use vstd::prelude::*;

verus! {

/// Of the IPv4 routes in a batch the last one counts: what is to be put in place
/// is in a command after which no other command of its kind comes.
pub proof fn the_last_route_counts(cmds: Seq<NetlinkCmd>)
    ensures
        match work_of(cmds).apply {
            Some(w) => exists|k: int|
                0 <= k < cmds.len() && #[trigger] cmds[k] == NetlinkCmd::Apply(w) && forall|j: int|
                    k < j < cmds.len() ==> !(#[trigger] cmds[j] is Apply),
            None => forall|k: int| 0 <= k < cmds.len() ==> !(#[trigger] cmds[k] is Apply),
        },
    decreases cmds.len(),
{
    if cmds.len() > 0 {
        let init = cmds.drop_last();
        the_last_route_counts(init);
        assert(cmds[cmds.len() - 1] == cmds.last());
        assert forall|k: int| 0 <= k < init.len() implies init[k] == cmds[k] by {}
        if let NetlinkCmd::Apply(w) = cmds.last() {
        } else if let Some(w) = last_apply(init) {
            let k = choose|k: int|
                0 <= k < init.len() && #[trigger] init[k] == NetlinkCmd::Apply(w) && forall|j: int|
                    k < j < init.len() ==> !(#[trigger] init[j] is Apply);
            assert(cmds[k] == NetlinkCmd::Apply(w));
            assert forall|j: int| k < j < cmds.len() implies !(#[trigger] cmds[j] is Apply) by {
                if j < init.len() {
                    assert(init[j] == cmds[j]);
                }
            }
        } else {
            assert forall|k: int| 0 <= k < cmds.len() implies !(#[trigger] cmds[k] is Apply) by {
                if k < init.len() {
                    assert(init[k] == cmds[k]);
                }
            }
        }
    }
}

/// The same of IPv6 routes.
pub proof fn the_last_ipv6_route_counts(cmds: Seq<NetlinkCmd>)
    ensures
        match work_of(cmds).apply_v6 {
            Some(w) => exists|k: int|
                0 <= k < cmds.len() && #[trigger] cmds[k] == NetlinkCmd::ApplyV6(w) && forall|
                    j: int,
                |
                    k < j < cmds.len() ==> !(#[trigger] cmds[j] is ApplyV6),
            None => forall|k: int| 0 <= k < cmds.len() ==> !(#[trigger] cmds[k] is ApplyV6),
        },
    decreases cmds.len(),
{
    if cmds.len() > 0 {
        let init = cmds.drop_last();
        the_last_ipv6_route_counts(init);
        assert(cmds[cmds.len() - 1] == cmds.last());
        assert forall|k: int| 0 <= k < init.len() implies init[k] == cmds[k] by {}
        if let NetlinkCmd::ApplyV6(w) = cmds.last() {
        } else if let Some(w) = last_apply_v6(init) {
            let k = choose|k: int|
                0 <= k < init.len() && #[trigger] init[k] == NetlinkCmd::ApplyV6(w) && forall|
                    j: int,
                |
                    k < j < init.len() ==> !(#[trigger] init[j] is ApplyV6);
            assert(cmds[k] == NetlinkCmd::ApplyV6(w));
            assert forall|j: int| k < j < cmds.len() implies !(#[trigger] cmds[j] is ApplyV6) by {
                if j < init.len() {
                    assert(init[j] == cmds[j]);
                }
            }
        } else {
            assert forall|k: int| 0 <= k < cmds.len() implies !(#[trigger] cmds[k] is ApplyV6) by {
                if k < init.len() {
                    assert(init[k] == cmds[k]);
                }
            }
        }
    }
}

/// The same of probe paths, with the wish for a sweep that comes with them.
pub proof fn the_last_paths_count(cmds: Seq<NetlinkCmd>)
    ensures
        match work_of(cmds).probe_paths {
            Some((p, sweep)) => exists|k: int|
                0 <= k < cmds.len() && #[trigger] cmds[k] == NetlinkCmd::SetProbePaths(p, sweep)
                    && forall|j: int|
                    k < j < cmds.len() ==> !(#[trigger] cmds[j] is SetProbePaths),
            None => forall|k: int| 0 <= k < cmds.len() ==> !(#[trigger] cmds[k] is SetProbePaths),
        },
    decreases cmds.len(),
{
    if cmds.len() > 0 {
        let init = cmds.drop_last();
        the_last_paths_count(init);
        assert(cmds[cmds.len() - 1] == cmds.last());
        assert forall|k: int| 0 <= k < init.len() implies init[k] == cmds[k] by {}
        if let NetlinkCmd::SetProbePaths(p, c) = cmds.last() {
        } else if let Some((p, c)) = last_paths(init) {
            let k = choose|k: int|
                0 <= k < init.len() && #[trigger] init[k] == NetlinkCmd::SetProbePaths(p, c)
                    && forall|j: int|
                    k < j < init.len() ==> !(#[trigger] init[j] is SetProbePaths);
            assert(cmds[k] == NetlinkCmd::SetProbePaths(p, c));
            assert forall|j: int| k < j < cmds.len() implies !(
            #[trigger] cmds[j] is SetProbePaths) by {
                if j < init.len() {
                    assert(init[j] == cmds[j]);
                }
            }
        } else {
            assert forall|k: int| 0 <= k < cmds.len() implies !(
            #[trigger] cmds[k] is SetProbePaths) by {
                if k < init.len() {
                    assert(init[k] == cmds[k]);
                }
            }
        }
    }
}

/// Whether a command asks for the connections of an interface to go.
pub open spec fn asks_to_flush(cmd: NetlinkCmd, name: Seq<char>) -> bool {
    cmd matches NetlinkCmd::FlushConntrack(names) && exists|i: int|
        0 <= i < names@.len() && (#[trigger] names@[i])@ == name
}

pub open spec fn all_different(list: Seq<Seq<char>>) -> bool {
    forall|j: int, k: int| 0 <= j < k < list.len() ==> #[trigger] list[j] != #[trigger] list[k]
}

proof fn lemma_with_names(list: Seq<Seq<char>>, names: Seq<Seq<char>>)
    requires
        all_different(list),
    ensures
        all_different(with_names(list, names)),
        forall|n: Seq<char>| #[trigger]
            with_names(list, names).contains(n) <==> list.contains(n) || names.contains(n),
    decreases names.len(),
{
    if names.len() > 0 {
        let init = names.drop_last();
        lemma_with_names(list, init);
        let rest = with_names(list, init);
        let all = with_names(list, names);
        let last = names.last();
        assert(names[names.len() - 1] == last);
        assert forall|n: Seq<char>| #[trigger] all.contains(n) <==> list.contains(n)
            || names.contains(n) by {
            assert(rest.contains(n) <==> list.contains(n) || init.contains(n));
            assert(names.contains(n) <==> init.contains(n) || n == last) by {
                if init.contains(n) {
                    let k = choose|k: int| 0 <= k < init.len() && init[k] == n;
                    assert(names[k] == n);
                }
                if names.contains(n) {
                    let k = choose|k: int| 0 <= k < names.len() && names[k] == n;
                    if k < init.len() {
                        assert(init[k] == n);
                    }
                }
            }
            if !rest.contains(last) {
                assert(all == rest.push(last));
                if rest.contains(n) {
                    let k = choose|k: int| 0 <= k < rest.len() && rest[k] == n;
                    assert(all[k] == n);
                }
                assert(all[all.len() - 1] == last);
                if all.contains(n) {
                    let k = choose|k: int| 0 <= k < all.len() && all[k] == n;
                    if k < rest.len() {
                        assert(rest[k] == n);
                    }
                }
            }
        }
        if !rest.contains(last) {
            assert forall|j: int, k: int| 0 <= j < k < all.len() implies #[trigger] all[j]
                != #[trigger] all[k] by {
                assert(all[j] == rest[j]);
                if k < rest.len() {
                    assert(all[k] == rest[k]);
                } else {
                    assert(rest.contains(rest[j]));
                }
            }
        }
    } else {
        assert forall|n: Seq<char>| !names.contains(n) by {}
    }
}

/// The connections of an interface are deleted if and only if some command of the
/// batch asks for it; and no interface is dealt with twice.
pub proof fn every_wanted_flush_is_done_once(cmds: Seq<NetlinkCmd>)
    ensures
        all_different(work_of(cmds).flush),
        forall|n: Seq<char>| #[trigger]
            work_of(cmds).flush.contains(n) <==> exists|k: int|
                0 <= k < cmds.len() && asks_to_flush(#[trigger] cmds[k], n),
    decreases cmds.len(),
{
    let all = all_flushes(cmds);
    if cmds.len() > 0 {
        let init = cmds.drop_last();
        every_wanted_flush_is_done_once(init);
        assert(work_of(init).flush == all_flushes(init));
        let rest = all_flushes(init);
        let last = cmds.last();
        assert(cmds[cmds.len() - 1] == last);
        if let NetlinkCmd::FlushConntrack(names) = last {
            lemma_with_names(rest, texts(names@));
        }
        assert forall|n: Seq<char>| #[trigger] all.contains(n) <==> exists|k: int|
            0 <= k < cmds.len() && asks_to_flush(#[trigger] cmds[k], n) by {
            assert(work_of(init).flush.contains(n) <==> exists|k: int|
                0 <= k < init.len() && asks_to_flush(#[trigger] init[k], n));
            if let NetlinkCmd::FlushConntrack(names) = last {
                let t = texts(names@);
                assert(t.contains(n) <==> asks_to_flush(last, n)) by {
                    if t.contains(n) {
                        let i = choose|i: int| 0 <= i < t.len() && t[i] == n;
                        assert(names@[i]@ == n);
                    }
                    if asks_to_flush(last, n) {
                        let i = choose|i: int| 0 <= i < names@.len() && (#[trigger] names@[i])@ == n;
                        assert(t[i] == n);
                    }
                }
            }
            if rest.contains(n) {
                let k = choose|k: int| 0 <= k < init.len() && asks_to_flush(#[trigger] init[k], n);
                assert(cmds[k] == init[k]);
            }
            if exists|k: int| 0 <= k < cmds.len() && asks_to_flush(#[trigger] cmds[k], n) {
                let k = choose|k: int| 0 <= k < cmds.len() && asks_to_flush(#[trigger] cmds[k], n);
                if k < init.len() {
                    assert(asks_to_flush(init[k], n));
                }
            }
        }
    }
}

/// The command to end counts wherever it stands in the batch, and a fresh batch is
/// never over.
pub proof fn the_end_is_not_missed(cmds: Seq<NetlinkCmd>, k: int)
    requires
        0 <= k < cmds.len(),
        cmds[k] is ClearRoutes,
    ensures
        work_of(cmds).clear_routes,
        !work_of(cmds).over,
{
}

/// Without a command to end, the worker does not clean up.
pub proof fn no_end_without_a_command(cmds: Seq<NetlinkCmd>)
    requires
        forall|k: int| 0 <= k < cmds.len() ==> !(#[trigger] cmds[k] is ClearRoutes),
    ensures
        !work_of(cmds).clear_routes,
{
}

/// What comes first: routes, then probe paths with the sweep before them, then
/// the deletion of connections, and the clean-up at the very end. What was done is
/// not done again, and nothing else is forgotten over it.
pub proof fn one_thing_after_the_other(w: WorkView)
    requires
        !w.over,
    ensures
        ({
            let next = without_first(w);
            match first_job(w) {
                JobView::Apply(r) => w.apply == Some(r) && next.apply is None && next.apply_v6
                    == w.apply_v6 && next.probe_paths == w.probe_paths && next.flush == w.flush
                    && next.clear_routes == w.clear_routes && !next.over,
                JobView::ApplyV6(r) => w.apply is None && w.apply_v6 == Some(r) && next.apply
                    is None && next.apply_v6 is None && next.probe_paths == w.probe_paths
                    && next.flush == w.flush && next.clear_routes == w.clear_routes && !next.over,
                JobView::SweepHostRoutes => w.apply is None && w.apply_v6 is None && (
                w.probe_paths matches Some((p, sweep)) && sweep && next.probe_paths == Some(
                    (p, false),
                )) && next.apply is None && next.apply_v6 is None && next.flush == w.flush
                    && next.clear_routes == w.clear_routes && !next.over,
                JobView::SetProbePaths(p) => w.apply is None && w.apply_v6 is None && w.probe_paths
                    == Some((p, false)) && next.probe_paths is None && next.apply is None
                    && next.apply_v6 is None && next.flush == w.flush && next.clear_routes
                    == w.clear_routes && !next.over,
                JobView::FlushConntrack(names) => w.apply is None && w.apply_v6 is None
                    && w.probe_paths is None && names == w.flush && names.len() > 0
                    && next.flush.len() == 0 && next.apply is None && next.apply_v6 is None
                    && next.probe_paths is None && next.clear_routes == w.clear_routes
                    && !next.over,
                JobView::CleanUp => w.apply is None && w.apply_v6 is None && w.probe_paths is None
                    && w.flush.len() == 0 && w.clear_routes && next.over,
                JobView::Wait => w.apply is None && w.apply_v6 is None && w.probe_paths is None
                    && w.flush.len() == 0 && !w.clear_routes && next == w,
                JobView::End => false,
            }
        }),
{
}

/// The least and the greatest metric of some lines are just that.
pub proof fn metric_bounds(lines: Seq<WanMonitor>)
    ensures
        forall|i: int|
            0 <= i < lines.len() ==> least_of(lines) <= (#[trigger] lines[i]).metric
                <= greatest_of(lines),
        lines.len() > 0 ==> exists|i: int|
            0 <= i < lines.len() && (#[trigger] lines[i]).metric == least_of(lines),
        lines.len() > 0 ==> exists|i: int|
            0 <= i < lines.len() && (#[trigger] lines[i]).metric == greatest_of(lines),
    decreases lines.len(),
{
    if lines.len() > 0 {
        let init = lines.drop_last();
        metric_bounds(init);
        assert(lines[lines.len() - 1] == lines.last());
        assert forall|i: int| 0 <= i < lines.len() implies least_of(lines) <= (
        #[trigger] lines[i]).metric <= greatest_of(lines) by {
            if i < init.len() {
                assert(init[i] == lines[i]);
            }
        }
        if init.len() > 0 {
            let a = choose|i: int|
                0 <= i < init.len() && (#[trigger] init[i]).metric == least_of(init);
            let b = choose|i: int|
                0 <= i < init.len() && (#[trigger] init[i]).metric == greatest_of(init);
            assert(lines[a] == init[a]);
            assert(lines[b] == init[b]);
        }
        if lines.last().metric < least_of(init) || init.len() == 0 {
            assert(lines[lines.len() - 1].metric == least_of(lines));
        }
        if lines.last().metric > greatest_of(init) || init.len() == 0 {
            assert(lines[lines.len() - 1].metric == greatest_of(lines));
        }
    }
}

proof fn lemma_metric_of(lines: Seq<WanMonitor>, name: Seq<char>, from: int, i: int)
    requires
        0 <= from <= i < lines.len(),
        lines[i].ifname@ == name,
        forall|j: int| from <= j < i ==> (#[trigger] lines[j]).ifname@ != name,
    ensures
        metric_of(lines, name, from) == lines[i].metric,
    decreases i - from,
{
    if from < i {
        lemma_metric_of(lines, name, from + 1, i);
    }
}

/// What the routes in force are called. Without a line that carries the default
/// route all links are down. With one, it is the single one if all lines have the
/// same metric, else the primary one if no line has a lesser metric, else it
/// stands in for such a line.
pub proof fn what_the_routes_are_called(lines: Seq<WanMonitor>, i: int)
    requires
        lines.len() <= usize::MAX,
        forall|j: int, k: int|
            0 <= j < k < lines.len() ==> (#[trigger] lines[j]).ifname@ != (
            #[trigger] lines[k]).ifname@,
    ensures
        (forall|j: int| !carries(lines, j)) ==> route_desc(lines) == "All Links DOWN"@,
        carries(lines, i) && (forall|j: int| #[trigger] carries(lines, j) ==> j == i) ==> {
            let name = lines[i].ifname@;
            let same = forall|j: int, k: int|
                0 <= j < lines.len() && 0 <= k < lines.len() ==> (#[trigger] lines[j]).metric == (
                #[trigger] lines[k]).metric;
            let best = forall|j: int|
                0 <= j < lines.len() ==> lines[i].metric <= (#[trigger] lines[j]).metric;
            route_desc(lines) == (if same {
                "Single Active ("@
            } else if best {
                "Primary Active ("@
            } else {
                "Failover Active ("@
            }) + name + ")"@
        },
        (exists|j: int, k: int|
            j != k && #[trigger] carries(lines, j) && #[trigger] carries(lines, k)) ==> {
            let at = actives(lines, min_metric(lines));
            places_of_carriers(as_places(at), lines) && route_desc(lines) == "Multipath ECMP ("@
                + name_list(lines, at) + ")"@
        },
{
    active_lines_are_the_carriers(lines);
    metric_bounds(lines);
    let at = actives(lines, min_metric(lines));
    let places = as_places(at);
    if forall|j: int| !carries(lines, j) {
        if at.len() > 0 {
            assert(carries(lines, places[0]));
        }
    }
    if carries(lines, i) && (forall|j: int| #[trigger] carries(lines, j) ==> j == i) {
        assert(places.contains(i));
        let x = choose|x: int| 0 <= x < places.len() && places[x] == i;
        if at.len() > 1 {
            assert(carries(lines, places[0]) && carries(lines, places[1]));
            assert(places[0] < places[1]);
        }
        assert(x == 0);
        assert(at[0] == i);
        let name = lines[i].ifname@;
        assert forall|j: int| 0 <= j < i implies (#[trigger] lines[j]).ifname@ != name by {}
        lemma_metric_of(lines, name, 0, i);
        let a = choose|a: int|
            0 <= a < lines.len() && (#[trigger] lines[a]).metric == least_of(lines);
        let b = choose|b: int|
            0 <= b < lines.len() && (#[trigger] lines[b]).metric == greatest_of(lines);
        assert(lines[a].metric == least_of(lines) && lines[b].metric == greatest_of(lines));
    }
    if exists|j: int, k: int|
        j != k && #[trigger] carries(lines, j) && #[trigger] carries(lines, k) {
        let (j, k) = choose|j: int, k: int|
            j != k && #[trigger] carries(lines, j) && #[trigger] carries(lines, k);
        assert(places.contains(j) && places.contains(k));
        let x = choose|x: int| 0 <= x < places.len() && places[x] == j;
        let y = choose|y: int| 0 <= y < places.len() && places[y] == k;
        assert(x != y);
    }
}

/// A list of names holds each name, with a comma and a blank between them.
pub proof fn names_are_listed(lines: Seq<WanMonitor>, at: Seq<usize>, more: usize)
    ensures
        at.len() == 0 ==> name_list(lines, at.push(more)) == lines[more as int].ifname@,
        at.len() > 0 ==> name_list(lines, at.push(more)) == name_list(lines, at) + ", "@
            + lines[more as int].ifname@,
{
    assert(at.push(more).drop_last() =~= at);
}

/// A job brings a report on its own operation: the two default routes, the probe
/// paths and the deletion of connections, and nothing else.
pub proof fn jobs_report_on_themselves(j: JobView)
    ensures
        reported_op(j) == Some(NetlinkOp::Ipv4Routes) <==> j is Apply,
        reported_op(j) == Some(NetlinkOp::Ipv6Routes) <==> j is ApplyV6,
        reported_op(j) == Some(NetlinkOp::ProbePaths) <==> j is SetProbePaths,
        reported_op(j) == Some(NetlinkOp::Conntrack) <==> j is FlushConntrack,
{
}

} // verus!
