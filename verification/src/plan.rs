//! Planning the probe paths: which targets get a host route in the main table.
use crate::addr::{IpAddr, Ipv4Addr, SocketAddr};
use crate::failover::{is_active, line_is_active, min_metric, min_up_metric, WanMonitor};
use crate::netlink::manager::{probe_views, ProbePath, ProbeView};
use crate::netlink::route::{PROBE_RULE_PRIORITY_BASE, PROBE_SLOT_MAX, PROBE_TABLE_BASE};
use vstd::prelude::*;

verus! {

/// What the system says of a line.
#[derive(Debug, Clone, Copy, PartialEq, Eq, Structural)]
pub struct LineEnv {
    /// Whether answers must come back the way that the main table points.
    pub strict: bool,
    /// Whether a packet can leave through the line.
    pub usable: bool,
}

/// Whether a line other than `i` (by name) has a target too.
pub open spec fn is_shared(lines: Seq<WanMonitor>, i: int, t: SocketAddr) -> bool {
    exists|o: int|
        0 <= o < lines.len() && (#[trigger] lines[o]).ifname@ != lines[i].ifname@
            && lines[o].targets@.contains(t)
}

/// Whether the line `i` wants a host route to its target `t` in the main table.
/// An active line has the default route. Any other line needs one if there is no
/// default route at all, or if the check is strict; but in the latter case a
/// target that another line has too gets none, as the route would cut that line off.
pub open spec fn wants(
    lines: Seq<WanMonitor>,
    env: Seq<LineEnv>,
    main_has_default: bool,
    i: int,
    t: SocketAddr,
) -> bool {
    &&& lines[i].ifindex != 0
    &&& lines[i].targets@.contains(t)
    &&& !is_active(lines[i], min_metric(lines))
    &&& !main_has_default || (env[i].strict && !is_shared(lines, i, t))
}

/// Whether the line `i` comes before the line `j`: one that can be used before one
/// that cannot, then the lesser metric, then the earlier place.
pub open spec fn precedes(lines: Seq<WanMonitor>, env: Seq<LineEnv>, i: int, j: int) -> bool {
    if env[i].usable != env[j].usable {
        env[i].usable
    } else if lines[i].metric != lines[j].metric {
        lines[i].metric < lines[j].metric
    } else {
        i <= j
    }
}

/// Whether the line `i` gets the host route to `t`: of the lines that want it, the
/// one that comes first.
pub open spec fn owns(
    lines: Seq<WanMonitor>,
    env: Seq<LineEnv>,
    main_has_default: bool,
    i: int,
    t: SocketAddr,
) -> bool {
    &&& wants(lines, env, main_has_default, i, t)
    &&& forall|j: int|
        0 <= j < lines.len() && #[trigger] wants(lines, env, main_has_default, j, t) ==> precedes(
            lines,
            env,
            i,
            j,
        )
}

/// The IPv4 addresses of some targets, in order.
pub open spec fn v4_addrs(targets: Seq<SocketAddr>) -> Seq<Ipv4Addr>
    decreases targets.len(),
{
    if targets.len() == 0 {
        Seq::empty()
    } else {
        let rest = v4_addrs(targets.drop_last());
        match targets.last().ip {
            IpAddr::V4(a) => rest.push(a),
            IpAddr::V6(_) => rest,
        }
    }
}

/// The IPv4 addresses of the targets, among some, that the line `i` owns.
pub open spec fn owned_addrs(
    lines: Seq<WanMonitor>,
    env: Seq<LineEnv>,
    main_has_default: bool,
    i: int,
    targets: Seq<SocketAddr>,
) -> Seq<Ipv4Addr>
    decreases targets.len(),
{
    if targets.len() == 0 {
        Seq::empty()
    } else {
        let rest = owned_addrs(lines, env, main_has_default, i, targets.drop_last());
        match targets.last().ip {
            IpAddr::V4(a) => if owns(lines, env, main_has_default, i, targets.last()) {
                rest.push(a)
            } else {
                rest
            },
            IpAddr::V6(_) => rest,
        }
    }
}

/// The probe path of the line `i`.
pub open spec fn planned_path(
    lines: Seq<WanMonitor>,
    env: Seq<LineEnv>,
    main_has_default: bool,
    i: int,
) -> ProbeView {
    ProbeView {
        ifname: lines[i].ifname@,
        ifindex: lines[i].ifindex,
        gateway: lines[i].gateway,
        targets: v4_addrs(lines[i].targets@),
        table: (PROBE_TABLE_BASE + i) as u32,
        priority: (PROBE_RULE_PRIORITY_BASE + i) as u32,
        main_route_targets: owned_addrs(lines, env, main_has_default, i, lines[i].targets@),
    }
}

/// The probe paths of the first `n` lines. A line whose interface does not exist
/// has none.
pub open spec fn planned_paths(
    lines: Seq<WanMonitor>,
    env: Seq<LineEnv>,
    main_has_default: bool,
    n: int,
) -> Seq<ProbeView>
    decreases n,
{
    if n <= 0 {
        Seq::empty()
    } else {
        let rest = planned_paths(lines, env, main_has_default, n - 1);
        if lines[n - 1].ifindex != 0 {
            rest.push(planned_path(lines, env, main_has_default, n - 1))
        } else {
            rest
        }
    }
}

fn has_target(targets: &Vec<SocketAddr>, t: SocketAddr) -> (r: bool)
    ensures
        r == targets@.contains(t),
{
    let mut i: usize = 0;
    while i < targets.len()
        invariant
            i <= targets@.len(),
            forall|j: int| 0 <= j < i ==> targets@[j] != t,
        decreases targets@.len() - i,
    {
        if targets[i] == t {
            return true;
        }
        i += 1;
    }
    false
}

/// Whether a line other than `i` (by name) has a target too.
pub fn shared_target(lines: &[WanMonitor], i: usize, t: SocketAddr) -> (r: bool)
    requires
        i < lines@.len(),
    ensures
        r == is_shared(lines@, i as int, t),
{
    let mut o: usize = 0;
    while o < lines.len()
        invariant
            o <= lines@.len(),
            i < lines@.len(),
            forall|j: int|
                0 <= j < o ==> !((#[trigger] lines@[j]).ifname@ != lines@[i as int].ifname@
                    && lines@[j].targets@.contains(t)),
        decreases lines@.len() - o,
    {
        if lines[o].ifname != lines[i].ifname && has_target(&lines[o].targets, t) {
            return true;
        }
        o += 1;
    }
    false
}

fn line_wants(
    lines: &[WanMonitor],
    env: &Vec<LineEnv>,
    least: Option<u32>,
    main_has_default: bool,
    i: usize,
    t: SocketAddr,
) -> (r: bool)
    requires
        i < lines@.len(),
        env@.len() == lines@.len(),
        least == min_metric(lines@),
    ensures
        r == wants(lines@, env@, main_has_default, i as int, t),
{
    lines[i].ifindex != 0 && has_target(&lines[i].targets, t) && !line_is_active(&lines[i], least)
        && (!main_has_default || (env[i].strict && !shared_target(lines, i, t)))
}

fn line_precedes(lines: &[WanMonitor], env: &Vec<LineEnv>, i: usize, j: usize) -> (r: bool)
    requires
        i < lines@.len(),
        j < lines@.len(),
        env@.len() == lines@.len(),
    ensures
        r == precedes(lines@, env@, i as int, j as int),
{
    if env[i].usable != env[j].usable {
        env[i].usable
    } else if lines[i].metric != lines[j].metric {
        lines[i].metric < lines[j].metric
    } else {
        i <= j
    }
}

fn line_owns(
    lines: &[WanMonitor],
    env: &Vec<LineEnv>,
    least: Option<u32>,
    main_has_default: bool,
    i: usize,
    t: SocketAddr,
) -> (r: bool)
    requires
        i < lines@.len(),
        env@.len() == lines@.len(),
        least == min_metric(lines@),
    ensures
        r == owns(lines@, env@, main_has_default, i as int, t),
{
    if !line_wants(lines, env, least, main_has_default, i, t) {
        return false;
    }
    let mut j: usize = 0;
    while j < lines.len()
        invariant
            j <= lines@.len(),
            i < lines@.len(),
            env@.len() == lines@.len(),
            least == min_metric(lines@),
            wants(lines@, env@, main_has_default, i as int, t),
            forall|k: int|
                0 <= k < j && #[trigger] wants(lines@, env@, main_has_default, k, t) ==> precedes(
                    lines@,
                    env@,
                    i as int,
                    k,
                ),
        decreases lines@.len() - j,
    {
        if line_wants(lines, env, least, main_has_default, j, t) && !line_precedes(
            lines,
            env,
            i,
            j,
        ) {
            return false;
        }
        j += 1;
    }
    true
}

fn addrs_of(targets: &Vec<SocketAddr>) -> (r: Vec<Ipv4Addr>)
    ensures
        r@ == v4_addrs(targets@),
{
    let mut out: Vec<Ipv4Addr> = Vec::new();
    let mut i: usize = 0;
    while i < targets.len()
        invariant
            i <= targets@.len(),
            out@ == v4_addrs(targets@.take(i as int)),
        decreases targets@.len() - i,
    {
        if let IpAddr::V4(a) = targets[i].ip {
            out.push(a);
        }
        i += 1;
        assert(targets@.take(i as int).drop_last() =~= targets@.take(i - 1));
    }
    assert(targets@.take(i as int) =~= targets@);
    out
}

fn owned_by(
    lines: &[WanMonitor],
    env: &Vec<LineEnv>,
    least: Option<u32>,
    main_has_default: bool,
    i: usize,
) -> (r: Vec<Ipv4Addr>)
    requires
        i < lines@.len(),
        env@.len() == lines@.len(),
        least == min_metric(lines@),
    ensures
        r@ == owned_addrs(
            lines@,
            env@,
            main_has_default,
            i as int,
            lines@[i as int].targets@,
        ),
{
    let targets = &lines[i].targets;
    let mut out: Vec<Ipv4Addr> = Vec::new();
    let mut k: usize = 0;
    while k < targets.len()
        invariant
            k <= targets@.len(),
            i < lines@.len(),
            env@.len() == lines@.len(),
            least == min_metric(lines@),
            out@ == owned_addrs(
                lines@,
                env@,
                main_has_default,
                i as int,
                targets@.take(k as int),
            ),
        decreases targets@.len() - k,
    {
        let t = targets[k];
        if let IpAddr::V4(a) = t.ip {
            if line_owns(lines, env, least, main_has_default, i, t) {
                out.push(a);
            }
        }
        k += 1;
        assert(targets@.take(k as int).drop_last() =~= targets@.take(k - 1));
    }
    assert(targets@.take(k as int) =~= targets@);
    out
}

/// Plans the probe path of every line.
pub fn plan_probe_paths(lines: &[WanMonitor], env: &Vec<LineEnv>, main_has_default: bool) -> (r: Vec<
    ProbePath,
>)
    requires
        lines@.len() <= PROBE_SLOT_MAX,
        env@.len() == lines@.len(),
    ensures
        probe_views(r@) == planned_paths(
            lines@,
            env@,
            main_has_default,
            lines@.len() as int,
        ),
{
    let least = min_up_metric(lines);
    let mut out: Vec<ProbePath> = Vec::new();
    let mut i: usize = 0;
    assert(probe_views(out@) =~= planned_paths(lines@, env@, main_has_default, 0));
    while i < lines.len()
        invariant
            i <= lines@.len() <= PROBE_SLOT_MAX,
            env@.len() == lines@.len(),
            least == min_metric(lines@),
            probe_views(out@) == planned_paths(lines@, env@, main_has_default, i as int),
        decreases lines@.len() - i,
    {
        let ghost before = probe_views(out@);
        let line = &lines[i];
        if line.ifindex != 0 {
            let path = ProbePath {
                ifname: line.ifname.clone(),
                ifindex: line.ifindex,
                gateway: line.gateway,
                targets: addrs_of(&line.targets),
                table: PROBE_TABLE_BASE + i as u32,
                priority: PROBE_RULE_PRIORITY_BASE + i as u32,
                main_route_targets: owned_by(lines, env, least, main_has_default, i),
            };
            let ghost pv = path@;
            out.push(path);
            proof {
                assert(pv == planned_path(lines@, env@, main_has_default, i as int));
                assert(probe_views(out@) =~= before.push(pv));
            }
        }
        i += 1;
    }
    out
}

/// Whether strict checks keep shared targets from being probed: some line that is
/// not active has a strict check and shares a target, while there is a default route.
pub open spec fn strict_and_shared(
    lines: Seq<WanMonitor>,
    env: Seq<LineEnv>,
    main_has_default: bool,
) -> bool {
    exists|i: int|
        0 <= i < lines.len() && #[trigger] line_blocked(lines, env, main_has_default, i)
}

pub open spec fn line_blocked(
    lines: Seq<WanMonitor>,
    env: Seq<LineEnv>,
    main_has_default: bool,
    i: int,
) -> bool {
    &&& lines[i].ifindex != 0
    &&& main_has_default
    &&& !is_active(lines[i], min_metric(lines))
    &&& env[i].strict
    &&& shares_any(lines, i)
}

pub open spec fn shares_any(lines: Seq<WanMonitor>, i: int) -> bool {
    exists|k: int|
        0 <= k < lines[i].targets@.len() && is_shared(lines, i, #[trigger] lines[i].targets@[k])
}

fn line_shares(lines: &[WanMonitor], i: usize) -> (r: bool)
    requires
        i < lines@.len(),
    ensures
        r == shares_any(lines@, i as int),
{
    let targets = &lines[i].targets;
    let mut k: usize = 0;
    while k < targets.len()
        invariant
            k <= targets@.len(),
            i < lines@.len(),
            targets@ == lines@[i as int].targets@,
            forall|j: int|
                0 <= j < k ==> !is_shared(lines@, i as int, #[trigger] lines@[i as int].targets@[j]),
        decreases targets@.len() - k,
    {
        if shared_target(lines, i, targets[k]) {
            assert(is_shared(lines@, i as int, lines@[i as int].targets@[k as int]));
            return true;
        }
        k += 1;
    }
    false
}

/// Whether strict checks keep shared targets from being probed.
pub fn strict_shared_hit(lines: &[WanMonitor], env: &Vec<LineEnv>, main_has_default: bool) -> (r: bool)
    requires
        env@.len() == lines@.len(),
    ensures
        r == strict_and_shared(lines@, env@, main_has_default),
{
    let least = min_up_metric(lines);
    let mut i: usize = 0;
    while i < lines.len()
        invariant
            i <= lines@.len(),
            env@.len() == lines@.len(),
            least == min_metric(lines@),
            forall|j: int|
                0 <= j < i ==> !#[trigger] line_blocked(lines@, env@, main_has_default, j),
        decreases lines@.len() - i,
    {
        if lines[i].ifindex != 0 && main_has_default && !line_is_active(&lines[i], least)
            && env[i].strict && line_shares(lines, i) {
            assert(line_blocked(lines@, env@, main_has_default, i as int));
            return true;
        }
        i += 1;
    }
    false
}

/// No target has two owners.
pub proof fn targets_have_one_owner(
    lines: Seq<WanMonitor>,
    env: Seq<LineEnv>,
    main_has_default: bool,
    i: int,
    j: int,
    t: SocketAddr,
)
    requires
        0 <= i < lines.len(),
        0 <= j < lines.len(),
        owns(lines, env, main_has_default, i, t),
        owns(lines, env, main_has_default, j, t),
    ensures
        i == j,
{
    assert(precedes(lines, env, i, j));
    assert(precedes(lines, env, j, i));
}

/// Whether no address is a target at two ports.
pub open spec fn one_port_each(lines: Seq<WanMonitor>) -> bool {
    forall|i: int, j: int, t: SocketAddr, u: SocketAddr|
        0 <= i < lines.len() && 0 <= j < lines.len() && #[trigger] lines[i].targets@.contains(t)
            && #[trigger] lines[j].targets@.contains(u) && t.ip == u.ip ==> t == u
}

proof fn lemma_owned(
    lines: Seq<WanMonitor>,
    env: Seq<LineEnv>,
    main_has_default: bool,
    i: int,
    targets: Seq<SocketAddr>,
    a: Ipv4Addr,
) -> (t: SocketAddr)
    requires
        owned_addrs(lines, env, main_has_default, i, targets).contains(a),
    ensures
        t.ip == IpAddr::V4(a),
        owns(lines, env, main_has_default, i, t),
    decreases targets.len(),
{
    let all = owned_addrs(lines, env, main_has_default, i, targets);
    let rest = owned_addrs(lines, env, main_has_default, i, targets.drop_last());
    if rest.contains(a) {
        lemma_owned(lines, env, main_has_default, i, targets.drop_last(), a)
    } else {
        let k = choose|k: int| 0 <= k < all.len() && all[k] == a;
        if k < rest.len() {
            assert(rest[k] == a);
        }
        targets.last()
    }
}

/// The main table can hold one route to an address. As long as no address is
/// probed at two ports, no two lines plan a host route to the same one.
pub proof fn addresses_have_one_route(
    lines: Seq<WanMonitor>,
    env: Seq<LineEnv>,
    main_has_default: bool,
    i: int,
    j: int,
    a: Ipv4Addr,
)
    requires
        one_port_each(lines),
        0 <= i < lines.len(),
        0 <= j < lines.len(),
        planned_path(lines, env, main_has_default, i).main_route_targets.contains(a),
        planned_path(lines, env, main_has_default, j).main_route_targets.contains(a),
    ensures
        i == j,
{
    let t = lemma_owned(lines, env, main_has_default, i, lines[i].targets@, a);
    let u = lemma_owned(lines, env, main_has_default, j, lines[j].targets@, a);
    assert(lines[i].targets@.contains(t) && lines[j].targets@.contains(u));
    targets_have_one_owner(lines, env, main_has_default, i, j, t);
}

/// The first in a non-empty order exists: if any line wants a host route to a
/// target, some line gets it.
pub proof fn wanted_targets_have_an_owner(
    lines: Seq<WanMonitor>,
    env: Seq<LineEnv>,
    main_has_default: bool,
    i: int,
    t: SocketAddr,
)
    requires
        0 <= i < lines.len(),
        wants(lines, env, main_has_default, i, t),
    ensures
        exists|k: int| 0 <= k < lines.len() && #[trigger] owns(lines, env, main_has_default, k, t),
{
    let w = |j: int| wants(lines, env, main_has_default, j, t);
    assert(w(i));
    let k = lemma_first_of(lines, env, w, lines.len() as int, i);
    assert forall|j: int|
        0 <= j < lines.len() && #[trigger] wants(lines, env, main_has_default, j, t) implies precedes(
        lines,
        env,
        k,
        j,
    ) by {
        assert(w(j));
    }
    assert(owns(lines, env, main_has_default, k, t));
}

/// Of the first `n` lines that have some property, if there is one, the first in
/// the order of precedence.
proof fn lemma_first_of(
    lines: Seq<WanMonitor>,
    env: Seq<LineEnv>,
    w: spec_fn(int) -> bool,
    n: int,
    i: int,
) -> (k: int)
    requires
        0 <= i < n,
        w(i),
    ensures
        0 <= k < n,
        w(k),
        forall|j: int| 0 <= j < n && #[trigger] w(j) ==> precedes(lines, env, k, j),
    decreases n,
{
    if exists|e: int| 0 <= e < n - 1 && #[trigger] w(e) {
        let e = choose|e: int| 0 <= e < n - 1 && #[trigger] w(e);
        let k = lemma_first_of(lines, env, w, n - 1, e);
        if w(n - 1) && !precedes(lines, env, k, n - 1) {
            assert forall|j: int| 0 <= j < n && #[trigger] w(j) implies precedes(
                lines,
                env,
                n - 1,
                j,
            ) by {
                if j < n - 1 {
                    assert(precedes(lines, env, k, j));
                }
            }
            n - 1
        } else {
            k
        }
    } else {
        i
    }
}

/// An active line never gets a host route: its traffic follows the default route.
pub proof fn active_lines_get_no_host_route(
    lines: Seq<WanMonitor>,
    env: Seq<LineEnv>,
    main_has_default: bool,
    i: int,
    targets: Seq<SocketAddr>,
)
    requires
        0 <= i < lines.len(),
        is_active(lines[i], min_metric(lines)),
    ensures
        owned_addrs(lines, env, main_has_default, i, targets).len() == 0,
    decreases targets.len(),
{
    if targets.len() > 0 {
        active_lines_get_no_host_route(lines, env, main_has_default, i, targets.drop_last());
    }
}

/// With a default route and no strict check on a line, that line gets no host
/// route: forwarding is left alone.
pub proof fn no_host_route_without_need(
    lines: Seq<WanMonitor>,
    env: Seq<LineEnv>,
    i: int,
    targets: Seq<SocketAddr>,
)
    requires
        0 <= i < lines.len(),
        !env[i].strict,
    ensures
        owned_addrs(lines, env, true, i, targets).len() == 0,
    decreases targets.len(),
{
    if targets.len() > 0 {
        no_host_route_without_need(lines, env, i, targets.drop_last());
    }
}

/// Every planned path has the table and the priority of its line's place, in the
/// reserved range, and no two of them the same.
pub proof fn planned_tables_are_distinct(
    lines: Seq<WanMonitor>,
    env: Seq<LineEnv>,
    main_has_default: bool,
    n: int,
    a: int,
    b: int,
)
    requires
        0 <= n <= lines.len() <= PROBE_SLOT_MAX,
        0 <= a < b < planned_paths(lines, env, main_has_default, n).len(),
    ensures
        ({
            let p = planned_paths(lines, env, main_has_default, n);
            &&& p[a].table < p[b].table < PROBE_TABLE_BASE + n
            &&& p[a].priority < p[b].priority < PROBE_RULE_PRIORITY_BASE + n
            &&& PROBE_TABLE_BASE <= p[a].table
            &&& PROBE_RULE_PRIORITY_BASE <= p[a].priority
        }),
    decreases n,
{
    let rest = planned_paths(lines, env, main_has_default, n - 1);
    if b < rest.len() {
        planned_tables_are_distinct(lines, env, main_has_default, n - 1, a, b);
    } else {
        lemma_tables_below(lines, env, main_has_default, n - 1, a);
    }
}

proof fn lemma_tables_below(
    lines: Seq<WanMonitor>,
    env: Seq<LineEnv>,
    main_has_default: bool,
    n: int,
    a: int,
)
    requires
        0 <= n <= lines.len() <= PROBE_SLOT_MAX,
        0 <= a < planned_paths(lines, env, main_has_default, n).len(),
    ensures
        PROBE_TABLE_BASE <= planned_paths(lines, env, main_has_default, n)[a].table
            < PROBE_TABLE_BASE + n,
        PROBE_RULE_PRIORITY_BASE <= planned_paths(lines, env, main_has_default, n)[a].priority
            < PROBE_RULE_PRIORITY_BASE + n,
    decreases n,
{
    let rest = planned_paths(lines, env, main_has_default, n - 1);
    if a < rest.len() {
        lemma_tables_below(lines, env, main_has_default, n - 1, a);
    }
}

} // verus!
