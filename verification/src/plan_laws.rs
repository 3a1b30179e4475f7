//! Which lines get a probe path and which targets a host route, told by the
//! lines themselves.
use crate::addr::{IpAddr, Ipv4Addr, SocketAddr};
use crate::failover::{is_active, min_metric, WanMonitor};
use crate::failover_laws::{active_lines_carry, carries};
use crate::netlink::manager::ProbeView;
use crate::plan::{
    addresses_have_one_route, is_shared, line_blocked, one_port_each, owned_addrs, owns,
    planned_path, planned_paths, precedes, shares_any, strict_and_shared, v4_addrs,
    wanted_targets_have_an_owner, wants, LineEnv,
};
use vstd::prelude::*;

verus! {

/// Whether the path `k` of some is that of the line at place `i`: each place has a
/// table and a rule of its own.
pub open spec fn is_path_of(p: Seq<ProbeView>, k: int, i: int) -> bool {
    &&& 0 <= k < p.len()
    &&& p[k].table == 10000 + i
}

/// Whether some paths hold a host route of the line at place `i` to an address.
pub open spec fn host_route(p: Seq<ProbeView>, i: int, a: Ipv4Addr) -> bool {
    exists|k: int| #[trigger] is_path_of(p, k, i) && p[k].main_route_targets.contains(a)
}

/// Whether a line has an address among its targets.
pub open spec fn probes(line: WanMonitor, a: Ipv4Addr) -> bool {
    exists|k: int| 0 <= k < line.targets@.len() && (#[trigger] line.targets@[k]).ip == IpAddr::V4(a)
}

/// Whether some addresses are the IPv4 addresses of some targets, in order.
pub open spec fn are_v4_of(addrs: Seq<Ipv4Addr>, targets: Seq<SocketAddr>) -> bool {
    exists|at: Seq<int>|
        #![trigger v4_places(at, targets)]
        {
            &&& v4_places(at, targets)
            &&& at.len() == addrs.len()
            &&& forall|k: int|
                0 <= k < addrs.len() ==> targets[at[k]].ip == IpAddr::V4(#[trigger] addrs[k])
        }
}

/// Whether some places are those of the IPv4 targets, in order.
pub open spec fn v4_places(at: Seq<int>, targets: Seq<SocketAddr>) -> bool {
    &&& forall|j: int, k: int| 0 <= j < k < at.len() ==> #[trigger] at[j] < #[trigger] at[k]
    &&& forall|k: int|
        0 <= k < at.len() ==> 0 <= #[trigger] at[k] < targets.len() && targets[at[k]].ip is V4
    &&& forall|i: int| 0 <= i < targets.len() && (#[trigger] targets[i]).ip is V4 ==> at.contains(i)
}

/// The addresses that a probe path leads to are the IPv4 addresses of the
/// targets, all of them, in order.
pub proof fn probed_addresses_are_the_targets(targets: Seq<SocketAddr>)
    ensures
        are_v4_of(v4_addrs(targets), targets),
    decreases targets.len(),
{
    if targets.len() == 0 {
        assert(v4_places(Seq::empty(), targets));
    } else {
        let init = targets.drop_last();
        probed_addresses_are_the_targets(init);
        let addrs = v4_addrs(init);
        let old_at = choose|at: Seq<int>|
            #![trigger v4_places(at, init)]
            {
                &&& v4_places(at, init)
                &&& at.len() == addrs.len()
                &&& forall|k: int|
                    0 <= k < addrs.len() ==> init[at[k]].ip == IpAddr::V4(#[trigger] addrs[k])
            };
        let n = targets.len() - 1;
        let at = if targets.last().ip is V4 {
            old_at.push(n)
        } else {
            old_at
        };
        assert forall|k: int| 0 <= k < at.len() implies 0 <= #[trigger] at[k] < targets.len()
            && targets[at[k]].ip is V4 by {
            if k < old_at.len() {
                assert(at[k] == old_at[k]);
            }
        }
        assert forall|j: int, k: int| 0 <= j < k < at.len() implies #[trigger] at[j]
            < #[trigger] at[k] by {
            assert(at[j] == old_at[j]);
            if k < old_at.len() {
                assert(at[k] == old_at[k]);
            }
        }
        assert forall|i: int|
            0 <= i < targets.len() && (#[trigger] targets[i]).ip is V4 implies at.contains(i) by {
            if i < init.len() {
                assert(init[i] == targets[i]);
                let k = choose|k: int| 0 <= k < old_at.len() && old_at[k] == i;
                assert(at[k] == i);
            } else {
                assert(at[at.len() - 1] == i);
            }
        }
        assert(v4_places(at, targets));
        let all = v4_addrs(targets);
        assert forall|k: int| 0 <= k < all.len() implies targets[at[k]].ip == IpAddr::V4(
            #[trigger] all[k],
        ) by {
            if k < old_at.len() {
                assert(all[k] == addrs[k]);
                assert(at[k] == old_at[k]);
            }
        }
    }
}

proof fn lemma_paths(
    lines: Seq<WanMonitor>,
    env: Seq<LineEnv>,
    main_has_default: bool,
    n: int,
)
    requires
        0 <= n <= lines.len() <= 64,
    ensures
        ({
            let p = planned_paths(lines, env, main_has_default, n);
            &&& forall|i: int|
                0 <= i < n && (#[trigger] lines[i]).ifindex != 0 ==> exists|k: int| #[trigger]
                    is_path_of(p, k, i) && p[k] == planned_path(lines, env, main_has_default, i)
            &&& forall|k: int|
                0 <= k < p.len() ==> 10000 <= (#[trigger] p[k]).table < 10000 + n
                    && lines[p[k].table - 10000].ifindex != 0 && p[k] == planned_path(
                    lines,
                    env,
                    main_has_default,
                    p[k].table - 10000,
                )
            &&& forall|j: int, k: int|
                0 <= j < k < p.len() ==> (#[trigger] p[j]).table < (#[trigger] p[k]).table
        }),
    decreases n,
{
    if n > 0 {
        lemma_paths(lines, env, main_has_default, n - 1);
        let rest = planned_paths(lines, env, main_has_default, n - 1);
        let p = planned_paths(lines, env, main_has_default, n);
        assert forall|i: int| 0 <= i < n && (#[trigger] lines[i]).ifindex != 0 implies exists|
            k: int,
        | #[trigger]
            is_path_of(p, k, i) && p[k] == planned_path(lines, env, main_has_default, i) by {
            if i < n - 1 {
                let k = choose|k: int| #[trigger]
                    is_path_of(rest, k, i) && rest[k] == planned_path(
                        lines,
                        env,
                        main_has_default,
                        i,
                    );
                assert(p[k] == rest[k]);
                assert(is_path_of(p, k, i));
            } else {
                assert(is_path_of(p, p.len() - 1, i));
            }
        }
        assert forall|k: int| 0 <= k < p.len() implies 10000 <= (#[trigger] p[k]).table < 10000 + n
            && lines[p[k].table - 10000].ifindex != 0 && p[k] == planned_path(
            lines,
            env,
            main_has_default,
            p[k].table - 10000,
        ) by {
            if k < rest.len() {
                assert(p[k] == rest[k]);
            }
        }
        assert forall|j: int, k: int| 0 <= j < k < p.len() implies (#[trigger] p[j]).table < (
        #[trigger] p[k]).table by {
            assert(p[j] == rest[j]);
            if k < rest.len() {
                assert(p[k] == rest[k]);
            }
        }
    }
}

/// Every line whose interface exists has one probe path, and no other line has
/// one. The path leads through the line's interface and gateway to all its IPv4
/// targets, by the table and the rule of the line's place.
pub proof fn every_line_has_its_probe_path(
    lines: Seq<WanMonitor>,
    env: Seq<LineEnv>,
    main_has_default: bool,
    i: int,
)
    requires
        0 <= i < lines.len() <= 64,
    ensures
        ({
            let p = planned_paths(lines, env, main_has_default, lines.len() as int);
            &&& (exists|k: int| is_path_of(p, k, i)) <==> lines[i].ifindex != 0
            &&& forall|j: int, k: int| #[trigger]
                is_path_of(p, j, i) && #[trigger] is_path_of(p, k, i) ==> j == k
            &&& forall|k: int| #[trigger]
                is_path_of(p, k, i) ==> {
                    &&& p[k].ifname == lines[i].ifname@
                    &&& p[k].ifindex == lines[i].ifindex
                    &&& p[k].gateway == lines[i].gateway
                    &&& are_v4_of(p[k].targets, lines[i].targets@)
                    &&& p[k].priority == 10000 + i
                }
        }),
{
    lemma_paths(lines, env, main_has_default, lines.len() as int);
    probed_addresses_are_the_targets(lines[i].targets@);
}

proof fn lemma_owned_contains(
    lines: Seq<WanMonitor>,
    env: Seq<LineEnv>,
    main_has_default: bool,
    i: int,
    targets: Seq<SocketAddr>,
    a: Ipv4Addr,
)
    ensures
        owned_addrs(lines, env, main_has_default, i, targets).contains(a) <==> exists|m: int|
            0 <= m < targets.len() && (#[trigger] targets[m]).ip == IpAddr::V4(a) && owns(
                lines,
                env,
                main_has_default,
                i,
                targets[m],
            ),
    decreases targets.len(),
{
    let all = owned_addrs(lines, env, main_has_default, i, targets);
    if targets.len() > 0 {
        let init = targets.drop_last();
        lemma_owned_contains(lines, env, main_has_default, i, init, a);
        let rest = owned_addrs(lines, env, main_has_default, i, init);
        if all.contains(a) {
            let k = choose|k: int| 0 <= k < all.len() && all[k] == a;
            if k < rest.len() {
                assert(rest[k] == a);
                let m = choose|m: int|
                    0 <= m < init.len() && (#[trigger] init[m]).ip == IpAddr::V4(a) && owns(
                        lines,
                        env,
                        main_has_default,
                        i,
                        init[m],
                    );
                assert(targets[m] == init[m]);
            } else {
                assert(targets[targets.len() - 1].ip == IpAddr::V4(a));
            }
        }
        if exists|m: int|
            0 <= m < targets.len() && (#[trigger] targets[m]).ip == IpAddr::V4(a) && owns(
                lines,
                env,
                main_has_default,
                i,
                targets[m],
            ) {
            let m = choose|m: int|
                0 <= m < targets.len() && (#[trigger] targets[m]).ip == IpAddr::V4(a) && owns(
                    lines,
                    env,
                    main_has_default,
                    i,
                    targets[m],
                );
            if m < init.len() {
                assert(init[m] == targets[m]);
                assert(rest.contains(a));
                let k = choose|k: int| 0 <= k < rest.len() && rest[k] == a;
                assert(all[k] == a);
            } else {
                assert(all[all.len() - 1] == a);
            }
        }
    }
}

proof fn lemma_host_route(
    lines: Seq<WanMonitor>,
    env: Seq<LineEnv>,
    main_has_default: bool,
    i: int,
    a: Ipv4Addr,
)
    requires
        0 <= i < lines.len() <= 64,
    ensures
        host_route(planned_paths(lines, env, main_has_default, lines.len() as int), i, a)
            <==> exists|t: SocketAddr|
            #![trigger owns(lines, env, main_has_default, i, t)]
            t.ip == IpAddr::V4(a) && owns(lines, env, main_has_default, i, t),
{
    let p = planned_paths(lines, env, main_has_default, lines.len() as int);
    lemma_paths(lines, env, main_has_default, lines.len() as int);
    let targets = lines[i].targets@;
    lemma_owned_contains(lines, env, main_has_default, i, targets, a);
    if host_route(p, i, a) {
        let k = choose|k: int| #[trigger]
            is_path_of(p, k, i) && p[k].main_route_targets.contains(a);
        assert(p[k] == planned_path(lines, env, main_has_default, i));
        let m = choose|m: int|
            0 <= m < targets.len() && (#[trigger] targets[m]).ip == IpAddr::V4(a) && owns(
                lines,
                env,
                main_has_default,
                i,
                targets[m],
            );
        assert(owns(lines, env, main_has_default, i, targets[m]));
    }
    if exists|t: SocketAddr|
        #![trigger owns(lines, env, main_has_default, i, t)]
        t.ip == IpAddr::V4(a) && owns(lines, env, main_has_default, i, t) {
        let t = choose|t: SocketAddr|
            #![trigger owns(lines, env, main_has_default, i, t)]
            t.ip == IpAddr::V4(a) && owns(lines, env, main_has_default, i, t);
        let m = choose|m: int| 0 <= m < targets.len() && targets[m] == t;
        assert(targets[m].ip == IpAddr::V4(a));
        let k = choose|k: int| #[trigger]
            is_path_of(p, k, i) && p[k] == planned_path(lines, env, main_has_default, i);
        assert(p[k].main_route_targets.contains(a));
    }
}

/// A line with a strict check keeps its probes on its own path: every line whose
/// interface exists, that does not carry the default route, has a strict check
/// and has an IPv4 target that no other line has, gets a host route to it,
/// whether the line is up or down.
pub proof fn strict_lines_get_their_host_routes(
    lines: Seq<WanMonitor>,
    env: Seq<LineEnv>,
    main_has_default: bool,
    i: int,
    t: SocketAddr,
    a: Ipv4Addr,
)
    requires
        0 <= i < lines.len() <= 64,
        lines[i].ifindex != 0,
        !carries(lines, i),
        env[i].strict,
        t.ip == IpAddr::V4(a),
        lines[i].targets@.contains(t),
        forall|j: int|
            0 <= j < lines.len() && j != i ==> !(#[trigger] lines[j]).targets@.contains(t),
    ensures
        host_route(planned_paths(lines, env, main_has_default, lines.len() as int), i, a),
{
    active_lines_carry(lines);
    assert(!is_active(lines[i], min_metric(lines)));
    assert(!is_shared(lines, i, t));
    assert(wants(lines, env, main_has_default, i, t));
    assert forall|j: int|
        0 <= j < lines.len() && #[trigger] wants(lines, env, main_has_default, j, t) implies precedes(
        lines,
        env,
        i,
        j,
    ) by {
        assert(lines[j].targets@.contains(t));
    }
    assert(owns(lines, env, main_has_default, i, t));
    lemma_host_route(lines, env, main_has_default, i, a);
}

/// While there is no default route, every IPv4 target of a line whose interface
/// exists and that does not carry the default route gets a host route through
/// some line; and through one line only, as long as no address is probed at two
/// ports.
pub proof fn without_a_default_route_every_target_has_a_way(
    lines: Seq<WanMonitor>,
    env: Seq<LineEnv>,
    i: int,
    a: Ipv4Addr,
)
    requires
        0 <= i < lines.len() <= 64,
        lines[i].ifindex != 0,
        !carries(lines, i),
        probes(lines[i], a),
    ensures
        ({
            let p = planned_paths(lines, env, false, lines.len() as int);
            &&& exists|j: int| 0 <= j < lines.len() && #[trigger] host_route(p, j, a)
            &&& one_port_each(lines) ==> forall|j: int, k: int|
                0 <= j < lines.len() && 0 <= k < lines.len() && #[trigger] host_route(p, j, a)
                    && #[trigger] host_route(p, k, a) ==> j == k
        }),
{
    let p = planned_paths(lines, env, false, lines.len() as int);
    active_lines_carry(lines);
    let m = choose|m: int|
        0 <= m < lines[i].targets@.len() && (#[trigger] lines[i].targets@[m]).ip == IpAddr::V4(a);
    let t = lines[i].targets@[m];
    assert(!is_active(lines[i], min_metric(lines)));
    assert(wants(lines, env, false, i, t));
    wanted_targets_have_an_owner(lines, env, false, i, t);
    let j = choose|j: int| 0 <= j < lines.len() && #[trigger] owns(lines, env, false, j, t);
    lemma_host_route(lines, env, false, j, a);
    assert(host_route(p, j, a));
    if one_port_each(lines) {
        one_line_per_address(lines, env, false, a);
    }
}

/// No two lines get a host route to the same address, as long as no address is
/// probed at two ports.
pub proof fn one_line_per_address(
    lines: Seq<WanMonitor>,
    env: Seq<LineEnv>,
    main_has_default: bool,
    a: Ipv4Addr,
)
    requires
        lines.len() <= 64,
        one_port_each(lines),
    ensures
        ({
            let p = planned_paths(lines, env, main_has_default, lines.len() as int);
            forall|j: int, k: int|
                0 <= j < lines.len() && 0 <= k < lines.len() && #[trigger] host_route(p, j, a)
                    && #[trigger] host_route(p, k, a) ==> j == k
        }),
{
    let p = planned_paths(lines, env, main_has_default, lines.len() as int);
    lemma_paths(lines, env, main_has_default, lines.len() as int);
    assert forall|j: int, k: int|
        0 <= j < lines.len() && 0 <= k < lines.len() && #[trigger] host_route(p, j, a)
            && #[trigger] host_route(p, k, a) implies j == k by {
        let x = choose|x: int| #[trigger]
            is_path_of(p, x, j) && p[x].main_route_targets.contains(a);
        let y = choose|y: int| #[trigger]
            is_path_of(p, y, k) && p[y].main_route_targets.contains(a);
        assert(p[x] == planned_path(lines, env, main_has_default, j));
        assert(p[y] == planned_path(lines, env, main_has_default, k));
        addresses_have_one_route(lines, env, main_has_default, j, k, a);
    }
}

/// A host route is planned only where it is needed: for a line whose interface
/// exists, that does not carry the default route and has the address as a target.
/// While there is a default route, the line's check is strict and no line of
/// another name has that target too.
pub proof fn host_routes_are_needed(
    lines: Seq<WanMonitor>,
    env: Seq<LineEnv>,
    main_has_default: bool,
    i: int,
    a: Ipv4Addr,
)
    requires
        0 <= i < lines.len() <= 64,
        host_route(planned_paths(lines, env, main_has_default, lines.len() as int), i, a),
    ensures
        lines[i].ifindex != 0,
        !carries(lines, i),
        probes(lines[i], a),
        main_has_default ==> env[i].strict,
        main_has_default ==> exists|t: SocketAddr| #[trigger]
            lines[i].targets@.contains(t) && t.ip == IpAddr::V4(a) && forall|o: int|
                0 <= o < lines.len() && (#[trigger] lines[o]).targets@.contains(t)
                    ==> lines[o].ifname@ == lines[i].ifname@,
{
    active_lines_carry(lines);
    lemma_host_route(lines, env, main_has_default, i, a);
    let t = choose|t: SocketAddr|
        #![trigger owns(lines, env, main_has_default, i, t)]
        t.ip == IpAddr::V4(a) && owns(lines, env, main_has_default, i, t);
    assert(wants(lines, env, main_has_default, i, t));
    let m = choose|m: int| 0 <= m < lines[i].targets@.len() && lines[i].targets@[m] == t;
    assert(lines[i].targets@[m].ip == IpAddr::V4(a));
    if main_has_default {
        assert(!is_shared(lines, i, t));
        assert(lines[i].targets@.contains(t));
    }
}

/// Who gets the host route where several lines could have it: while there is no
/// default route, a line that can be used before one that cannot, then the one of
/// the lesser metric, then the earlier one.
pub proof fn the_best_line_gets_the_host_route(
    lines: Seq<WanMonitor>,
    env: Seq<LineEnv>,
    i: int,
    j: int,
    a: Ipv4Addr,
)
    requires
        0 <= i < lines.len() <= 64,
        0 <= j < lines.len(),
        one_port_each(lines),
        host_route(planned_paths(lines, env, false, lines.len() as int), i, a),
        lines[j].ifindex != 0,
        !carries(lines, j),
        probes(lines[j], a),
    ensures
        env[j].usable ==> env[i].usable,
        env[i].usable == env[j].usable ==> lines[i].metric <= lines[j].metric,
        env[i].usable == env[j].usable && lines[i].metric == lines[j].metric ==> i <= j,
{
    active_lines_carry(lines);
    lemma_host_route(lines, env, false, i, a);
    let t = choose|t: SocketAddr|
        #![trigger owns(lines, env, false, i, t)]
        t.ip == IpAddr::V4(a) && owns(lines, env, false, i, t);
    assert(lines[i].targets@.contains(t));
    let m = choose|m: int|
        0 <= m < lines[j].targets@.len() && (#[trigger] lines[j].targets@[m]).ip == IpAddr::V4(a);
    let u = lines[j].targets@[m];
    assert(lines[j].targets@.contains(u));
    assert(t == u);
    assert(!is_active(lines[j], min_metric(lines)));
    assert(wants(lines, env, false, j, t));
    assert(precedes(lines, env, i, j));
}

/// Strict checks keep shared targets from being probed if and only if there is a
/// default route, and some line whose interface exists and that does not carry it
/// has a strict check and a target that a line of another name has too.
pub proof fn when_strict_checks_are_in_the_way(
    lines: Seq<WanMonitor>,
    env: Seq<LineEnv>,
    main_has_default: bool,
)
    ensures
        strict_and_shared(lines, env, main_has_default) <==> main_has_default && exists|
            i: int,
            o: int,
            t: SocketAddr,
        |
            {
                &&& 0 <= i < lines.len() && 0 <= o < lines.len()
                &&& #[trigger] lines[i].targets@.contains(t)
                &&& #[trigger] lines[o].targets@.contains(t)
                &&& lines[i].ifname@ != lines[o].ifname@
                &&& lines[i].ifindex != 0 && env[i].strict && !carries(lines, i)
            },
{
    active_lines_carry(lines);
    if strict_and_shared(lines, env, main_has_default) {
        let i = choose|i: int|
            0 <= i < lines.len() && #[trigger] line_blocked(lines, env, main_has_default, i);
        let k = choose|k: int|
            0 <= k < lines[i].targets@.len() && is_shared(
                lines,
                i,
                #[trigger] lines[i].targets@[k],
            );
        let t = lines[i].targets@[k];
        let o = choose|o: int|
            0 <= o < lines.len() && (#[trigger] lines[o]).ifname@ != lines[i].ifname@
                && lines[o].targets@.contains(t);
        assert(lines[i].targets@.contains(t) && lines[o].targets@.contains(t));
        assert(!carries(lines, i));
    }
    if main_has_default && exists|i: int, o: int, t: SocketAddr|
        {
            &&& 0 <= i < lines.len() && 0 <= o < lines.len()
            &&& #[trigger] lines[i].targets@.contains(t)
            &&& #[trigger] lines[o].targets@.contains(t)
            &&& lines[i].ifname@ != lines[o].ifname@
            &&& lines[i].ifindex != 0 && env[i].strict && !carries(lines, i)
        } {
        let (i, o, t) = choose|i: int, o: int, t: SocketAddr|
            {
                &&& 0 <= i < lines.len() && 0 <= o < lines.len()
                &&& #[trigger] lines[i].targets@.contains(t)
                &&& #[trigger] lines[o].targets@.contains(t)
                &&& lines[i].ifname@ != lines[o].ifname@
                &&& lines[i].ifindex != 0 && env[i].strict && !carries(lines, i)
            };
        let k = choose|k: int| 0 <= k < lines[i].targets@.len() && lines[i].targets@[k] == t;
        assert(lines[o].ifname@ != lines[i].ifname@);
        assert(is_shared(lines, i, lines[i].targets@[k]));
        assert(shares_any(lines, i));
        assert(!is_active(lines[i], min_metric(lines)));
        assert(line_blocked(lines, env, main_has_default, i));
    }
}

} // verus!
