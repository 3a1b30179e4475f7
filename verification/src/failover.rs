//! Failover: which lines carry the default route, what has to be told to the
//! kernel and when, and which connections have to go.
use crate::addr::{IpAddr, Ipv4Addr, Ipv6Addr, SocketAddr};
use crate::config::{DaemonConfig, EcmpMode};
use crate::failover_laws::{carries, lists_carriers, unchanged_means_the_same_interfaces};
use crate::lqe::{LinkQualityEstimator, LinkState, RttVerdict};
use crate::netlink::link::{LinkEvent, LinkEventView};
use crate::netlink::manager::{ActiveWanRoute, ActiveWanRouteV6};
use crate::netlink::probe_path::copy_addrs;
use crate::prober::{is_local_probe_error, local_error, text_view};
use vstd::prelude::*;
use vstd::string::*;

verus! {

/// Without news from the kernel, interfaces are looked at every so many ticks.
pub const IFINDEX_REFRESH_TICKS: u64 = 600;

/// How many commands may wait for the worker.
pub const NETLINK_QUEUE_CAPACITY: usize = 64;

/// Probe paths are put in place again every so many ticks.
pub const PROBE_PATH_REFRESH_TICKS: u64 = 60;

/// The default route is put in place again every so many ticks.
pub const ROUTE_HEARTBEAT_TICKS: u64 = 60;

/// After that many seconds a status counts as out of date.
pub const STATUS_STALE_SECS: u64 = 10;

/// A lost subscription to kernel events is tried again after so many ticks.
pub const LINK_WATCH_RETRY_TICKS: u64 = 60;

/// A refused default route is tried again after so many ticks.
pub const ROUTE_RETRY_TICKS: u64 = 4;

/// Refused probe paths are tried again after so many ticks.
pub const PROBE_PATH_RETRY_TICKS: u64 = 6;

/// The path of a failing line is asked for at most once in so many milliseconds.
pub const PATH_CHECK_INTERVAL_MS: u64 = 2000;

/// The number of ticks stays below this.
pub const TICK_LIMIT: u64 = 0x7fff_ffff_ffff_ffff;

/// A line and all that is known of it.
pub struct WanMonitor {
    pub ifname: String,
    /// 0 while the interface does not exist.
    pub ifindex: u32,
    pub gateway: Option<Ipv4Addr>,
    pub gateway6: Option<Ipv6Addr>,
    pub metric: u32,
    pub weight: u32,
    pub targets: Vec<SocketAddr>,
    pub underlay_targets: Vec<Ipv4Addr>,
    pub cached_ip: Option<Ipv4Addr>,
    /// When its connections were last deleted, in milliseconds.
    pub last_conntrack_flush: Option<u64>,
    /// Why the last probe failed.
    pub last_probe_error: Option<String>,
    /// Whether a local cause was already warned of.
    pub local_condition_warned: bool,
    /// Whether the kernel says that no way leads to the targets.
    pub probe_path_missing: bool,
    /// When the kernel was last asked for the way, in milliseconds.
    pub last_path_check: Option<u64>,
    pub lqe: LinkQualityEstimator,
}

impl WanMonitor {
    /// Whether the line is up and its interface exists.
    pub open spec fn is_up(self) -> bool {
        self.lqe.state == LinkState::Up && self.ifindex != 0
    }

    /// Whether the line is up and its interface exists.
    pub fn up(&self) -> (r: bool)
        ensures
            r == self.is_up(),
    {
        self.lqe.state == LinkState::Up && self.ifindex != 0
    }
}

/// The least metric of the lines that are up.
pub open spec fn min_metric(lines: Seq<WanMonitor>) -> Option<u32>
    decreases lines.len(),
{
    if lines.len() == 0 {
        None
    } else {
        let rest = min_metric(lines.drop_last());
        let last = lines.last();
        if !last.is_up() {
            rest
        } else {
            match rest {
                Some(m) if m <= last.metric => rest,
                _ => Some(last.metric),
            }
        }
    }
}

/// Whether a line carries the default route: it is up, and no line that is up has
/// a lesser metric.
pub open spec fn is_active(line: WanMonitor, least: Option<u32>) -> bool {
    line.is_up() && least == Some(line.metric)
}

/// The places of the active lines, in order.
pub open spec fn actives(lines: Seq<WanMonitor>, least: Option<u32>) -> Seq<usize>
    decreases lines.len(),
{
    if lines.len() == 0 {
        Seq::empty()
    } else {
        let rest = actives(lines.drop_last(), least);
        if is_active(lines.last(), least) {
            rest.push((lines.len() - 1) as usize)
        } else {
            rest
        }
    }
}

/// The interfaces of the active lines, in order.
pub open spec fn active_set(lines: Seq<WanMonitor>) -> Seq<u32> {
    actives(lines, min_metric(lines)).map_values(|i: usize| lines[i as int].ifindex)
}

/// What the least metric is.
pub proof fn least_metric_is_least(lines: Seq<WanMonitor>)
    ensures
        match min_metric(lines) {
            Some(m) => {
                &&& exists|i: int|
                    0 <= i < lines.len() && (#[trigger] lines[i]).is_up() && lines[i].metric == m
                &&& forall|i: int|
                    0 <= i < lines.len() && (#[trigger] lines[i]).is_up() ==> m <= lines[i].metric
            },
            None => forall|i: int| 0 <= i < lines.len() ==> !(#[trigger] lines[i]).is_up(),
        },
    decreases lines.len(),
{
    if lines.len() > 0 {
        let init = lines.drop_last();
        least_metric_is_least(init);
        assert forall|i: int| 0 <= i < init.len() implies init[i] == lines[i] by {}
        if let Some(m) = min_metric(init) {
            let w = choose|i: int|
                0 <= i < init.len() && (#[trigger] init[i]).is_up() && init[i].metric == m;
            assert(lines[w].is_up() && lines[w].metric == m);
        }
        if lines.last().is_up() {
            assert(lines[lines.len() - 1].is_up());
        }
        assert forall|i: int| 0 <= i < lines.len() && (#[trigger] lines[i]).is_up() implies (
        min_metric(lines) matches Some(m) ==> m <= lines[i].metric) && min_metric(lines) is Some by {
            if i < init.len() {
                assert(init[i].is_up());
            }
        }
    }
}

proof fn lemma_actives(lines: Seq<WanMonitor>, least: Option<u32>)
    requires
        lines.len() <= usize::MAX,
    ensures
        forall|k: int|
            0 <= k < actives(lines, least).len() ==> (#[trigger] actives(lines, least)[k])
                < lines.len() && is_active(lines[actives(lines, least)[k] as int], least),
        forall|i: int|
            0 <= i < lines.len() && is_active(#[trigger] lines[i], least) ==> actives(
                lines,
                least,
            ).contains(i as usize),
    decreases lines.len(),
{
    if lines.len() > 0 {
        let init = lines.drop_last();
        lemma_actives(init, least);
        let all = actives(lines, least);
        let rest = actives(init, least);
        assert forall|k: int| 0 <= k < all.len() implies (#[trigger] all[k]) < lines.len()
            && is_active(lines[all[k] as int], least) by {
            if k < rest.len() {
                assert(all[k] == rest[k]);
                assert(init[rest[k] as int] == lines[rest[k] as int]);
            }
        }
        assert forall|i: int|
            0 <= i < lines.len() && is_active(#[trigger] lines[i], least) implies all.contains(
            i as usize,
        ) by {
            if i < init.len() {
                assert(init[i] == lines[i]);
                assert(rest.contains(i as usize));
                let k = choose|k: int| 0 <= k < rest.len() && rest[k] == i as usize;
                assert(all[k] == i as usize);
            } else {
                assert(all[all.len() - 1] == i as usize);
            }
        }
    }
}

/// Lines of one metric share the traffic; a line of a greater metric stands by:
/// a line is active if and only if it is up and no line that is up has a lesser
/// metric, and if any line is up then some line is active.
pub proof fn active_lines_are_the_best(lines: Seq<WanMonitor>)
    requires
        lines.len() <= usize::MAX,
    ensures
        forall|i: int|
            0 <= i < lines.len() ==> (is_active(#[trigger] lines[i], min_metric(lines)) <==> {
                &&& lines[i].is_up()
                &&& forall|j: int|
                    0 <= j < lines.len() && (#[trigger] lines[j]).is_up() ==> lines[i].metric
                        <= lines[j].metric
            }),
        active_set(lines).len() == 0 <==> forall|i: int|
            0 <= i < lines.len() ==> !(#[trigger] lines[i]).is_up(),
{
    least_metric_is_least(lines);
    let least = min_metric(lines);
    lemma_actives(lines, least);
    assert forall|i: int| 0 <= i < lines.len() implies (is_active(#[trigger] lines[i], least)
        <==> {
        &&& lines[i].is_up()
        &&& forall|j: int|
            0 <= j < lines.len() && (#[trigger] lines[j]).is_up() ==> lines[i].metric
                <= lines[j].metric
    }) by {
        if let Some(m) = least {
            let w = choose|k: int|
                0 <= k < lines.len() && (#[trigger] lines[k]).is_up() && lines[k].metric == m;
            assert(lines[w].is_up());
        }
    }
    if let Some(m) = least {
        let w = choose|k: int|
            0 <= k < lines.len() && (#[trigger] lines[k]).is_up() && lines[k].metric == m;
        assert(is_active(lines[w], least));
        assert(actives(lines, least).contains(w as usize));
    } else {
        if actives(lines, least).len() > 0 {
            assert(actives(lines, least)[0] < lines.len());
        }
    }
}

/// The least metric of the lines that are up.
pub fn min_up_metric(lines: &[WanMonitor]) -> (r: Option<u32>)
    ensures
        r == min_metric(lines@),
{
    let mut least: Option<u32> = None;
    let mut i: usize = 0;
    while i < lines.len()
        invariant
            i <= lines@.len(),
            least == min_metric(lines@.take(i as int)),
        decreases lines@.len() - i,
    {
        if lines[i].up() {
            let keep = match least {
                Some(m) => m <= lines[i].metric,
                None => false,
            };
            if !keep {
                least = Some(lines[i].metric);
            }
        }
        i += 1;
        assert(lines@.take(i as int).drop_last() =~= lines@.take(i - 1));
    }
    assert(lines@.take(i as int) =~= lines@);
    least
}

/// Whether a line carries the default route, given the least metric.
pub fn line_is_active(line: &WanMonitor, least: Option<u32>) -> (r: bool)
    ensures
        r == is_active(*line, least),
{
    match least {
        Some(m) => line.up() && m == line.metric,
        None => false,
    }
}

/// The places of the active lines, in order.
pub fn active_lines(lines: &[WanMonitor]) -> (r: Vec<usize>)
    ensures
        r@ == actives(lines@, min_metric(lines@)),
        forall|k: int| 0 <= k < r@.len() ==> (#[trigger] r@[k]) < lines@.len(),
{
    let least = min_up_metric(lines);
    let mut out: Vec<usize> = Vec::new();
    let mut i: usize = 0;
    assert(out@ =~= actives(lines@.take(0), least));
    while i < lines.len()
        invariant
            i <= lines@.len(),
            out@ == actives(lines@.take(i as int), least),
            forall|k: int| 0 <= k < out@.len() ==> (#[trigger] out@[k]) < i,
        decreases lines@.len() - i,
    {
        let ghost before = out@;
        if line_is_active(&lines[i], least) {
            out.push(i);
        }
        i += 1;
        proof {
            assert(lines@.take(i as int).drop_last() =~= lines@.take(i - 1));
            assert(lines@.take(i as int).last() == lines@[i - 1]);
            assert(out@ =~= actives(lines@.take(i as int), least));
            assert forall|k: int| 0 <= k < out@.len() implies (#[trigger] out@[k]) < i by {
                if k < before.len() {
                    assert(out@[k] == before[k]);
                }
            }
        }
    }
    assert(lines@.take(i as int) =~= lines@);
    out
}

/// The interfaces of the active lines, in order.
pub fn active_ifindexes(lines: &[WanMonitor]) -> (r: Vec<u32>)
    ensures
        r@ == active_set(lines@),
{
    let at = active_lines(lines);
    let mut out: Vec<u32> = Vec::new();
    let mut k: usize = 0;
    while k < at.len()
        invariant
            k <= at@.len(),
            out@.len() == k,
            forall|j: int| 0 <= j < at@.len() ==> (#[trigger] at@[j]) < lines@.len(),
            forall|j: int| 0 <= j < k ==> out@[j] == lines@[at@[j] as int].ifindex,
        decreases at@.len() - k,
    {
        out.push(lines[at[k]].ifindex);
        k += 1;
    }
    assert(out@ =~= active_set(lines@));
    out
}

/// Whether the set of active lines is the one that was last put in place. Before
/// the first time, an empty set is no change: a route of someone else may be there.
pub open spec fn unchanged(last: Option<Seq<u32>>, lines: Seq<WanMonitor>) -> bool {
    match last {
        None => active_set(lines).len() == 0,
        Some(prev) => prev == active_set(lines),
    }
}

/// Whether a route is that of a line.
pub open spec fn is_route_of(r: ActiveWanRoute, line: WanMonitor) -> bool {
    &&& r.ifname@ == line.ifname@
    &&& r.ifindex == line.ifindex
    &&& r.gateway == line.gateway
    &&& r.weight == line.weight
    &&& r.metric == line.metric
    &&& r.underlay_targets@ == line.underlay_targets@
}

/// The routes of the active lines, in order.
pub fn active_routes(lines: &[WanMonitor]) -> (r: Vec<ActiveWanRoute>)
    ensures
        r@.len() == actives(lines@, min_metric(lines@)).len(),
        forall|k: int|
            0 <= k < r@.len() ==> is_route_of(
                #[trigger] r@[k],
                lines@[actives(lines@, min_metric(lines@))[k] as int],
            ),
{
    let at = active_lines(lines);
    let mut out: Vec<ActiveWanRoute> = Vec::new();
    let mut k: usize = 0;
    while k < at.len()
        invariant
            k <= at@.len(),
            out@.len() == k,
            forall|j: int| 0 <= j < at@.len() ==> (#[trigger] at@[j]) < lines@.len(),
            forall|j: int| 0 <= j < k ==> is_route_of(#[trigger] out@[j], lines@[at@[j] as int]),
        decreases at@.len() - k,
    {
        let line = &lines[at[k]];
        out.push(
            ActiveWanRoute {
                ifname: line.ifname.clone(),
                ifindex: line.ifindex,
                gateway: line.gateway,
                weight: line.weight,
                metric: line.metric,
                underlay_targets: copy_addrs(&line.underlay_targets),
            },
        );
        k += 1;
    }
    out
}

/// The places of the active lines that have an IPv6 gateway.
pub open spec fn actives_v6(lines: Seq<WanMonitor>, at: Seq<usize>) -> Seq<usize> {
    at.filter(|i: usize| lines[i as int].gateway6 is Some)
}

/// Whether an IPv6 route is that of a line.
pub open spec fn is_route_v6_of(r: ActiveWanRouteV6, line: WanMonitor) -> bool {
    &&& r.ifname@ == line.ifname@
    &&& r.ifindex == line.ifindex
    &&& r.gateway == line.gateway6
    &&& r.weight == line.weight
}

/// The IPv6 routes of the active lines, in order. A line without an IPv6 gateway
/// has none; otherwise IPv6 goes where IPv4 goes.
pub fn active_routes_v6(lines: &[WanMonitor]) -> (r: Vec<ActiveWanRouteV6>)
    ensures
        ({
            let at = actives_v6(lines@, actives(lines@, min_metric(lines@)));
            &&& r@.len() == at.len()
            &&& forall|k: int|
                0 <= k < r@.len() ==> is_route_v6_of(#[trigger] r@[k], lines@[at[k] as int])
        }),
{
    let at = active_lines(lines);
    let ghost pred = |i: usize| lines@[i as int].gateway6 is Some;
    let mut out: Vec<ActiveWanRouteV6> = Vec::new();
    let mut k: usize = 0;
    while k < at.len()
        invariant
            k <= at@.len(),
            pred == (|i: usize| lines@[i as int].gateway6 is Some),
            forall|j: int| 0 <= j < at@.len() ==> (#[trigger] at@[j]) < lines@.len(),
            out@.len() == at@.take(k as int).filter(pred).len(),
            forall|j: int|
                0 <= j < out@.len() ==> is_route_v6_of(
                    #[trigger] out@[j],
                    lines@[at@.take(k as int).filter(pred)[j] as int],
                ),
        decreases at@.len() - k,
    {
        let line = &lines[at[k]];
        let ghost before = at@.take(k as int).filter(pred);
        if line.gateway6.is_some() {
            out.push(
                ActiveWanRouteV6 {
                    ifname: line.ifname.clone(),
                    ifindex: line.ifindex,
                    gateway: line.gateway6,
                    weight: line.weight,
                },
            );
        }
        k += 1;
        proof {
            assert(at@.take(k as int).drop_last() =~= at@.take(k - 1));
            reveal(Seq::filter);
            let now = at@.take(k as int).filter(pred);
            assert(now == if pred(at@[k - 1]) {
                before.push(at@[k - 1])
            } else {
                before
            });
        }
    }
    proof {
        assert(at@.take(k as int) =~= at@);
    }
    out
}

/// Which operation of the worker a report is about.
#[derive(Debug, Clone, Copy, PartialEq, Eq, Structural)]
pub enum NetlinkOp {
    Ipv4Routes,
    Ipv6Routes,
    ProbePaths,
    Conntrack,
}

/// What is remembered from tick to tick.
pub struct Controller {
    pub tick_count: u64,
    /// The active interfaces that were last put in place; `None` before the first time.
    pub last_active: Option<Vec<u32>>,
    pub probe_paths_dirty: bool,
    pub probe_paths_inflight: bool,
    pub probe_paths_retry_at: u64,
    /// Whether leftover host routes are still to be cleaned up.
    pub host_routes_cleanup: bool,
    pub v4_apply_dirty: bool,
    pub v4_apply_inflight: bool,
    pub v4_retry_at: u64,
    pub link_watch_retry_at: u64,
    pub route_fail_count: u64,
    pub last_route_fail: Option<String>,
    pub strict_shared_warned: bool,
    /// The last IPv6 route, while it waits for room in the worker's queue.
    pub v6_pending: Option<Vec<ActiveWanRouteV6>>,
}

pub ghost struct ControllerView {
    pub tick: u64,
    pub last_active: Option<Seq<u32>>,
    pub paths_dirty: bool,
    pub paths_inflight: bool,
    pub paths_retry_at: u64,
    pub cleanup: bool,
    pub v4_dirty: bool,
    pub v4_inflight: bool,
    pub v4_retry_at: u64,
    pub watch_retry_at: u64,
    pub fail_count: u64,
    pub last_fail: Option<Seq<char>>,
    pub shared_warned: bool,
    pub v6_pending: Option<Vec<ActiveWanRouteV6>>,
}

/// A list that may be absent.
pub open spec fn set_view(s: Option<Vec<u32>>) -> Option<Seq<u32>> {
    match s {
        Some(v) => Some(v@),
        None => None,
    }
}

impl View for Controller {
    type V = ControllerView;

    open spec fn view(&self) -> ControllerView {
        ControllerView {
            tick: self.tick_count,
            last_active: set_view(self.last_active),
            paths_dirty: self.probe_paths_dirty,
            paths_inflight: self.probe_paths_inflight,
            paths_retry_at: self.probe_paths_retry_at,
            cleanup: self.host_routes_cleanup,
            v4_dirty: self.v4_apply_dirty,
            v4_inflight: self.v4_apply_inflight,
            v4_retry_at: self.v4_retry_at,
            watch_retry_at: self.link_watch_retry_at,
            fail_count: self.route_fail_count,
            last_fail: text_view(self.last_route_fail),
            shared_warned: self.strict_shared_warned,
            v6_pending: self.v6_pending,
        }
    }
}

/// The number after a count of failures; it wraps around.
pub open spec fn next_count(n: u64) -> u64 {
    if n == u64::MAX {
        0
    } else {
        (n + 1) as u64
    }
}

impl ControllerView {
    /// Nothing was done yet: the probe paths are to be put in place.
    pub open spec fn fresh() -> ControllerView {
        ControllerView {
            tick: 0,
            last_active: None,
            paths_dirty: true,
            paths_inflight: false,
            paths_retry_at: 0,
            cleanup: true,
            v4_dirty: false,
            v4_inflight: false,
            v4_retry_at: 0,
            watch_retry_at: 0,
            fail_count: 0,
            last_fail: None,
            shared_warned: false,
            v6_pending: None,
        }
    }

    /// Whether a failure of the default route is worth a warning: it is another one
    /// than the last, or the twenty-first, forty-first ... time.
    pub open spec fn warns_of(self, detail: Seq<char>) -> bool {
        self.last_fail != Some(detail) || next_count(self.fail_count) % 20 == 1
    }

    /// After a report of the worker. What failed is tried again after a while.
    pub open spec fn after_report(self, op: NetlinkOp, ok: bool, detail: Seq<char>) -> ControllerView {
        match op {
            NetlinkOp::Ipv4Routes => if ok {
                ControllerView { v4_inflight: false, fail_count: 0, last_fail: None, ..self }
            } else {
                ControllerView {
                    v4_inflight: false,
                    fail_count: next_count(self.fail_count),
                    last_fail: if self.warns_of(detail) {
                        Some(detail)
                    } else {
                        self.last_fail
                    },
                    v4_dirty: true,
                    v4_retry_at: (self.tick + ROUTE_RETRY_TICKS) as u64,
                    ..self
                }
            },
            NetlinkOp::ProbePaths => if ok {
                ControllerView { paths_inflight: false, ..self }
            } else {
                ControllerView {
                    paths_inflight: false,
                    paths_dirty: true,
                    paths_retry_at: (self.tick + PROBE_PATH_RETRY_TICKS) as u64,
                    ..self
                }
            },
            _ => self,
        }
    }

    /// Whether the default route is to be put in place: the set of active lines has
    /// changed, a failure is due to be tried again, or it is time to make sure; but
    /// not while the worker is at it.
    pub open spec fn applies(self, lines: Seq<WanMonitor>) -> bool {
        &&& !unchanged(self.last_active, lines) || (self.v4_dirty && self.tick
            >= self.v4_retry_at) || (self.tick % ROUTE_HEARTBEAT_TICKS == 0 && self.last_active
            is Some)
        &&& !self.v4_inflight
    }

    /// One tick later.
    pub open spec fn ticked(self) -> ControllerView {
        ControllerView { tick: (self.tick + 1) as u64, ..self }
    }

    /// After the question whether the default route is to be put in place.
    pub open spec fn looked_at(self, lines: Seq<WanMonitor>) -> ControllerView {
        ControllerView { paths_dirty: self.paths_dirty || self.applies(lines), ..self }
    }

    /// With the default route of the active lines on its way to the kernel.
    pub open spec fn applied(self, lines: Seq<WanMonitor>) -> ControllerView {
        ControllerView {
            v4_inflight: true,
            v4_dirty: false,
            last_active: Some(active_set(lines)),
            ..self
        }
    }

    /// The places of the lines whose connections have to go because of that.
    pub open spec fn flushed_with(self, lines: Seq<WanMonitor>, flush_on_switch: bool) -> Seq<usize> {
        match self.last_active {
            Some(prev) if flush_on_switch && !unchanged(Some(prev), lines) => flushed_by_switch(
                prev,
                lines,
            ),
            _ => Seq::empty(),
        }
    }

    /// With the probe paths on their way to the kernel.
    pub open spec fn paths_sent(self) -> ControllerView {
        ControllerView { cleanup: false, paths_inflight: true, paths_dirty: false, ..self }
    }

    /// With the subscription to kernel events lost.
    pub open spec fn watch_lost(self) -> ControllerView {
        ControllerView { watch_retry_at: (self.tick + LINK_WATCH_RETRY_TICKS) as u64, ..self }
    }

    /// Whether a lost subscription is to be tried again.
    pub open spec fn watch_due(self, active: bool) -> bool {
        !active && self.tick >= self.watch_retry_at
    }

    /// Whether the probe paths are to be put in place.
    pub open spec fn paths_due(self) -> bool {
        &&& self.paths_dirty || self.tick % PROBE_PATH_REFRESH_TICKS == 0
        &&& !self.paths_inflight
        &&& self.tick >= self.paths_retry_at
    }
}

/// Where connections have to go after a change of the active set: everywhere if
/// several lines shared the traffic before or share it now, else where a line has
/// become active.
pub open spec fn flushed_by_switch(prev: Seq<u32>, lines: Seq<WanMonitor>) -> Seq<usize> {
    actives(lines, min_metric(lines)).filter(switch_filter(prev, lines))
}

pub open spec fn switch_filter(prev: Seq<u32>, lines: Seq<WanMonitor>) -> spec_fn(usize) -> bool {
    |i: usize|
        prev.len() > 1 || active_set(lines).len() > 1 || !prev.contains(lines[i as int].ifindex)
}

/// Whether a number is in a list.
fn contains_index(list: &Vec<u32>, x: u32) -> (r: bool)
    ensures
        r == list@.contains(x),
{
    let mut i: usize = 0;
    while i < list.len()
        invariant
            i <= list@.len(),
            forall|j: int| 0 <= j < i ==> list@[j] != x,
        decreases list@.len() - i,
    {
        if list[i] == x {
            return true;
        }
        i += 1;
    }
    false
}

fn sets_equal(a: &Vec<u32>, b: &Vec<u32>) -> (r: bool)
    ensures
        r == (a@ == b@),
{
    if a.len() != b.len() {
        return false;
    }
    let mut i: usize = 0;
    while i < a.len()
        invariant
            i <= a@.len(),
            a@.len() == b@.len(),
            forall|j: int| 0 <= j < i ==> a@[j] == b@[j],
        decreases a@.len() - i,
    {
        if a[i] != b[i] {
            return false;
        }
        i += 1;
    }
    assert(a@ =~= b@);
    true
}

/// The places of the lines whose connections have to go after a change from the
/// set `prev` to the active lines.
pub fn switch_flush(prev: &Vec<u32>, lines: &[WanMonitor]) -> (r: Vec<usize>)
    ensures
        r@ == flushed_by_switch(prev@, lines@),
        forall|k: int| 0 <= k < r@.len() ==> (#[trigger] r@[k]) < lines@.len(),
{
    let at = active_lines(lines);
    let now = active_ifindexes(lines);
    let multipath = prev.len() > 1 || now.len() > 1;
    let ghost pred = switch_filter(prev@, lines@);
    let mut out: Vec<usize> = Vec::new();
    let mut k: usize = 0;
    while k < at.len()
        invariant
            k <= at@.len(),
            pred == switch_filter(prev@, lines@),
            multipath == (prev@.len() > 1 || active_set(lines@).len() > 1),
            forall|j: int| 0 <= j < at@.len() ==> (#[trigger] at@[j]) < lines@.len(),
            out@ == at@.take(k as int).filter(pred),
            forall|j: int| 0 <= j < out@.len() ==> (#[trigger] out@[j]) < lines@.len(),
        decreases at@.len() - k,
    {
        let i: usize = at[k];
        let ghost before = out@;
        if multipath || !contains_index(prev, lines[i].ifindex) {
            out.push(i);
        }
        k += 1;
        proof {
            assert(at@.take(k as int).drop_last() =~= at@.take(k - 1));
            reveal(Seq::filter);
            assert forall|j: int| 0 <= j < out@.len() implies (#[trigger] out@[j])
                < lines@.len() by {
                if j < before.len() {
                    assert(out@[j] == before[j]);
                }
            }
        }
    }
    assert(at@.take(k as int) =~= at@);
    out
}

/// In a pure standby setup, a change of the active line deletes no connection of
/// a line that was active before.
pub proof fn standby_switch_spares_survivors(prev: Seq<u32>, lines: Seq<WanMonitor>, k: int)
    requires
        prev.len() <= 1,
        active_set(lines).len() <= 1,
        0 <= k < flushed_by_switch(prev, lines).len(),
    ensures
        !prev.contains(lines[flushed_by_switch(prev, lines)[k] as int].ifindex),
{
    let at = actives(lines, min_metric(lines));
    let pred = switch_filter(prev, lines);
    at.lemma_filter_pred(pred, k);
}

impl Controller {
    /// A controller that has done nothing yet.
    pub fn new() -> (r: Controller)
        ensures
            r@ == ControllerView::fresh(),
    {
        Controller {
            tick_count: 0,
            last_active: None,
            probe_paths_dirty: true,
            probe_paths_inflight: false,
            probe_paths_retry_at: 0,
            host_routes_cleanup: true,
            v4_apply_dirty: false,
            v4_apply_inflight: false,
            v4_retry_at: 0,
            link_watch_retry_at: 0,
            route_fail_count: 0,
            last_route_fail: None,
            strict_shared_warned: false,
            v6_pending: None,
        }
    }

    /// Starts a tick.
    pub fn begin_tick(&mut self)
        requires
            old(self).tick_count < TICK_LIMIT,
        ensures
            final(self)@ == (ControllerView { tick: (old(self)@.tick + 1) as u64, ..old(self)@ }),
            final(self)@ == old(self)@.ticked(),
    {
        self.tick_count = self.tick_count + 1;
    }

    /// Takes a report of the worker; says whether a failure is worth a warning.
    pub fn report(&mut self, op: NetlinkOp, ok: bool, detail: Option<String>) -> (warn: bool)
        requires
            old(self).tick_count <= TICK_LIMIT,
        ensures
            ({
                let text = match text_view(detail) {
                    Some(t) => t,
                    None => "unknown"@,
                };
                &&& final(self)@ == old(self)@.after_report(op, ok, text)
                &&& warn == (op == NetlinkOp::Ipv4Routes && !ok && old(self)@.warns_of(text))
            }),
    {
        match op {
            NetlinkOp::Ipv4Routes => {
                self.v4_apply_inflight = false;
                if ok {
                    self.route_fail_count = 0;
                    self.last_route_fail = None;
                    return false;
                }
                let text = match detail {
                    Some(t) => t,
                    None => "unknown".to_owned(),
                };
                self.route_fail_count = self.route_fail_count.wrapping_add(1);
                let same = match &self.last_route_fail {
                    Some(last) => *last == text,
                    None => false,
                };
                self.v4_apply_dirty = true;
                self.v4_retry_at = self.tick_count + ROUTE_RETRY_TICKS;
                let warn = !same || self.route_fail_count % 20 == 1;
                if warn {
                    self.last_route_fail = Some(text);
                }
                warn
            },
            NetlinkOp::ProbePaths => {
                self.probe_paths_inflight = false;
                if !ok {
                    self.probe_paths_dirty = true;
                    self.probe_paths_retry_at = self.tick_count + PROBE_PATH_RETRY_TICKS;
                }
                false
            },
            NetlinkOp::Ipv6Routes | NetlinkOp::Conntrack => false,
        }
    }

    /// Whether the set of active lines is the one that was last put in place.
    pub fn set_unchanged(&self, lines: &[WanMonitor]) -> (r: bool)
        ensures
            r == unchanged(self@.last_active, lines@),
            self@.last_active matches Some(prev) ==> r == lists_carriers(prev, lines@),
            self@.last_active is None ==> r == forall|i: int| !carries(lines@, i),
    {
        proof {
            let prev = match self@.last_active {
                Some(prev) => prev,
                None => Seq::empty(),
            };
            assert(lines@.len() == lines.len());
            unchanged_means_the_same_interfaces(prev, lines@);
        }
        let now = active_ifindexes(lines);
        match &self.last_active {
            None => now.len() == 0,
            Some(prev) => sets_equal(prev, &now),
        }
    }

    /// Whether the default route is to be put in place. If so, the probe paths are
    /// due as well: which targets need a host route depends on the active lines.
    pub fn need_apply(&mut self, lines: &[WanMonitor]) -> (r: bool)
        ensures
            r == old(self)@.applies(lines@),
            old(self)@.v4_inflight ==> !r,
            (old(self)@.last_active matches Some(prev) && !lists_carriers(prev, lines@)
                && !old(self)@.v4_inflight) ==> r,
            final(self)@ == (ControllerView {
                paths_dirty: old(self)@.paths_dirty || r,
                ..old(self)@
            }),
            final(self)@ == old(self)@.looked_at(lines@),
    {
        let due = !self.set_unchanged(lines) || (self.v4_apply_dirty && self.tick_count
            >= self.v4_retry_at) || (self.tick_count % ROUTE_HEARTBEAT_TICKS == 0
            && self.last_active.is_some());
        let r = due && !self.v4_apply_inflight;
        if r {
            self.probe_paths_dirty = true;
        }
        r
    }

    /// The default route of the active lines is on its way to the kernel. Gives the
    /// places of the lines whose connections have to go because of it: none if the
    /// set has not changed, at the first time, or if that is not wanted.
    pub fn apply_queued(&mut self, lines: &[WanMonitor], flush_on_switch: bool) -> (r: Vec<usize>)
        ensures
            final(self)@ == (ControllerView {
                v4_inflight: true,
                v4_dirty: false,
                last_active: Some(active_set(lines@)),
                ..old(self)@
            }),
            final(self)@ == old(self)@.applied(lines@),
            r@ == old(self)@.flushed_with(lines@, flush_on_switch),
            r@ == (match old(self)@.last_active {
                Some(prev) if flush_on_switch && !unchanged(Some(prev), lines@) => flushed_by_switch(
                    prev,
                    lines@,
                ),
                _ => Seq::empty(),
            }),
            forall|k: int| 0 <= k < r@.len() ==> (#[trigger] r@[k]) < lines@.len(),
    {
        let same = self.set_unchanged(lines);
        self.v4_apply_inflight = true;
        self.v4_apply_dirty = false;
        let flush = match &self.last_active {
            Some(prev) => {
                if flush_on_switch && !same {
                    switch_flush(prev, lines)
                } else {
                    Vec::new()
                }
            },
            None => Vec::new(),
        };
        self.last_active = Some(active_ifindexes(lines));
        flush
    }

    /// Whether the probe paths are to be put in place.
    pub fn probe_paths_due(&mut self) -> (r: bool)
        ensures
            r == old(self)@.paths_due(),
            final(self)@ == (ControllerView {
                paths_dirty: old(self)@.paths_dirty || old(self)@.tick % PROBE_PATH_REFRESH_TICKS
                    == 0,
                ..old(self)@
            }),
    {
        if self.tick_count % PROBE_PATH_REFRESH_TICKS == 0 {
            self.probe_paths_dirty = true;
        }
        self.probe_paths_dirty && !self.probe_paths_inflight && self.tick_count
            >= self.probe_paths_retry_at
    }

    /// The probe paths are on their way to the kernel.
    pub fn probe_paths_queued(&mut self)
        ensures
            final(self)@ == (ControllerView {
                cleanup: false,
                paths_inflight: true,
                paths_dirty: false,
                ..old(self)@
            }),
            final(self)@ == old(self)@.paths_sent(),
    {
        self.host_routes_cleanup = false;
        self.probe_paths_inflight = true;
        self.probe_paths_dirty = false;
    }

    /// Something that probe paths depend on has changed.
    pub fn probe_paths_changed(&mut self)
        ensures
            final(self)@ == (ControllerView { paths_dirty: true, ..old(self)@ }),
    {
        self.probe_paths_dirty = true;
    }

    /// The subscription to kernel events is lost, or could not be had.
    pub fn watch_failed(&mut self)
        requires
            old(self).tick_count <= TICK_LIMIT,
        ensures
            final(self)@ == (ControllerView {
                watch_retry_at: (old(self)@.tick + LINK_WATCH_RETRY_TICKS) as u64,
                ..old(self)@
            }),
            final(self)@ == old(self)@.watch_lost(),
    {
        self.link_watch_retry_at = self.tick_count + LINK_WATCH_RETRY_TICKS;
    }

    /// Whether a lost subscription is to be tried again.
    pub fn watch_retry_due(&self, active: bool) -> (r: bool)
        ensures
            r == (!active && self@.tick >= self@.watch_retry_at),
            r == self@.watch_due(active),
    {
        !active && self.tick_count >= self.link_watch_retry_at
    }

    /// Whether all interfaces are to be looked at.
    pub fn refresh_due(&self) -> (r: bool)
        ensures
            r == (self@.tick % IFINDEX_REFRESH_TICKS == 0),
    {
        self.tick_count % IFINDEX_REFRESH_TICKS == 0
    }

    /// Whether the status is to be written.
    pub fn status_due(&self, state_changed: bool) -> (r: bool)
        ensures
            r == (self@.tick % 2 == 0 || state_changed),
    {
        self.tick_count % 2 == 0 || state_changed
    }

    /// Whether a summary is to be logged.
    pub fn summary_due(&self) -> (r: bool)
        ensures
            r == (self@.tick % 10 == 0),
    {
        self.tick_count % 10 == 0
    }

    /// Hands out the IPv6 route that waits for room in the worker's queue, if any:
    /// it is to be queued now.
    pub fn v6_retry(&mut self) -> (r: Option<Vec<ActiveWanRouteV6>>)
        ensures
            r == old(self)@.v6_pending,
            final(self)@ == (ControllerView { v6_pending: None, ..old(self)@ }),
    {
        let mut r: Option<Vec<ActiveWanRouteV6>> = None;
        core::mem::swap(&mut r, &mut self.v6_pending);
        r
    }

    /// Takes what came of queueing an IPv6 route: none if it went in, else the
    /// route, which waits from now on in place of any earlier one.
    pub fn v6_answered(&mut self, refused: Option<Vec<ActiveWanRouteV6>>)
        ensures
            final(self)@ == (ControllerView { v6_pending: refused, ..old(self)@ }),
    {
        self.v6_pending = refused;
    }

    /// Whether to warn of strict reverse path checks with shared targets: once.
    pub fn shared_warning(&mut self, hit: bool) -> (r: bool)
        ensures
            r == (hit && !old(self)@.shared_warned),
            final(self)@ == (ControllerView {
                shared_warned: old(self)@.shared_warned || hit,
                ..old(self)@
            }),
    {
        let r = hit && !self.strict_shared_warned;
        if hit {
            self.strict_shared_warned = true;
        }
        r
    }
}

/// A failure heals itself: after a refused default route, and as long as the
/// worker is free, it is put in place again once the wait is over, even if the
/// set of active lines stays the same.
pub proof fn failure_is_retried(c: ControllerView, detail: Seq<char>, later: u64, lines: Seq<WanMonitor>)
    requires
        c.tick <= TICK_LIMIT,
        later >= c.tick + ROUTE_RETRY_TICKS,
    ensures
        ({
            let f = c.after_report(NetlinkOp::Ipv4Routes, false, detail);
            ControllerView { tick: later, ..f }.applies(lines)
        }),
{
}

/// Refused probe paths are put in place again once the wait is over.
pub proof fn refused_paths_are_retried(c: ControllerView, detail: Seq<char>, later: u64)
    requires
        c.tick <= TICK_LIMIT,
        later >= c.tick + PROBE_PATH_RETRY_TICKS,
    ensures
        ({
            let f = c.after_report(NetlinkOp::ProbePaths, false, detail);
            ControllerView { tick: later, ..f }.paths_due()
        }),
{
}

/// A change of the active lines is put in place as soon as the worker is free,
/// and a default route that was once put in place is renewed at every
/// heartbeat, whoever took it away.
pub proof fn changes_and_heartbeats_apply(c: ControllerView, lines: Seq<WanMonitor>)
    requires
        !c.v4_inflight,
    ensures
        !unchanged(c.last_active, lines) ==> c.applies(lines),
        c.last_active is Some && c.tick % ROUTE_HEARTBEAT_TICKS == 0 ==> c.applies(lines),
{
}

/// The same failure over and over is warned of once in twenty times: after a
/// warning, nineteen more of the same bring none, and the next one does.
pub proof fn repeated_failures_are_told_rarely(c: ControllerView, detail: Seq<char>, n: nat)
    requires
        c.last_fail == Some(detail),
        c.fail_count < u64::MAX - 20,
        c.fail_count % 20 == 1,
        n <= 19,
    ensures
        ({
            let f = failures(c, detail, n);
            &&& f.warns_of(detail) == (n == 19)
            &&& f.last_fail == Some(detail)
            &&& f.fail_count == c.fail_count + n
        }),
    decreases n,
{
    if n > 0 {
        repeated_failures_are_told_rarely(c, detail, (n - 1) as nat);
    }
}

/// After `n` failures of the default route with the same text.
pub open spec fn failures(c: ControllerView, detail: Seq<char>, n: nat) -> ControllerView
    decreases n,
{
    if n == 0 {
        c
    } else {
        failures(c, detail, (n - 1) as nat).after_report(NetlinkOp::Ipv4Routes, false, detail)
    }
}

/// At the start nothing is deleted: as long as no line is up and nothing was put
/// in place, the default route is left alone.
pub proof fn nothing_is_taken_away_at_start(c: ControllerView, lines: Seq<WanMonitor>)
    requires
        c.last_active is None,
        !c.v4_dirty,
        active_set(lines).len() == 0,
    ensures
        !c.applies(lines),
{
}

/// Whether a change of the active lines deletes connections: only with multipath
/// routes. A resilient group keeps the flows where they are.
pub fn flushes_on_switch(config: &DaemonConfig) -> (r: bool)
    ensures
        r == (config.flush_conntrack_on_switch && config.ecmp_mode == EcmpMode::Standard),
{
    config.flush_conntrack_on_switch && config.ecmp_mode == EcmpMode::Standard
}

impl WanMonitor {
    /// Takes what is now known of the interface's index; says whether it changed.
    /// An interface that is gone has none.
    pub fn refresh_ifindex(&mut self, resolved: Option<u32>) -> (changed: bool)
        ensures
            ({
                let now = match resolved {
                    Some(i) => i,
                    None => 0,
                };
                &&& changed == (old(self).ifindex != now)
                &&& *final(self) == (WanMonitor { ifindex: now, ..*old(self) })
            }),
    {
        let now: u32 = match resolved {
            Some(i) => i,
            None => 0,
        };
        let changed = self.ifindex != now;
        self.ifindex = now;
        changed
    }

    /// Whether an event is about the line's interface by name, or by index.
    pub open spec fn named_by(self, e: LinkEvent) -> bool {
        e@ matches LinkEventView::Link { ifname: Some(n), .. } && n == self.ifname@
    }

    pub open spec fn addressed_by(self, e: LinkEvent) -> bool {
        e@ matches LinkEventView::Address { ifindex } && ifindex == self.ifindex
    }

    /// Whether any of the events is about the line, and whether its index may have
    /// changed: an interface that is made anew keeps its name only.
    pub fn affected(&self, events: &[LinkEvent]) -> (r: (bool, bool))
        ensures
            r.1 == (exists|i: int| 0 <= i < events@.len() && self.named_by(#[trigger] events@[i])),
            r.0 == (r.1 || exists|i: int|
                0 <= i < events@.len() && self.addressed_by(#[trigger] events@[i])),
    {
        let mut touched = false;
        let mut reindex = false;
        let mut i: usize = 0;
        while i < events.len()
            invariant
                i <= events@.len(),
                reindex == (exists|j: int| 0 <= j < i && self.named_by(#[trigger] events@[j])),
                touched == (reindex || exists|j: int|
                    0 <= j < i && self.addressed_by(#[trigger] events@[j])),
            decreases events@.len() - i,
        {
            match &events[i] {
                LinkEvent::Link { ifname: Some(name), .. } => {
                    if *name == self.ifname {
                        assert(self.named_by(events@[i as int]));
                        touched = true;
                        reindex = true;
                    }
                },
                LinkEvent::Address { ifindex } => {
                    if *ifindex == self.ifindex {
                        assert(self.addressed_by(events@[i as int]));
                        touched = true;
                    }
                },
                _ => {},
            }
            i += 1;
        }
        (touched, reindex)
    }
}

/// Whether events were lost.
pub fn needs_resync(events: &[LinkEvent]) -> (r: bool)
    ensures
        r == (exists|i: int| 0 <= i < events@.len() && (#[trigger] events@[i])@ is Resync),
{
    let mut i: usize = 0;
    while i < events.len()
        invariant
            i <= events@.len(),
            forall|j: int| 0 <= j < i ==> !((#[trigger] events@[j])@ is Resync),
        decreases events@.len() - i,
    {
        if let LinkEvent::Resync = &events[i] {
            assert(events@[i as int]@ is Resync);
            return true;
        }
        i += 1;
    }
    false
}

/// The first target of a line that has an IPv4 address.
pub open spec fn first_v4(targets: Seq<SocketAddr>, from: int) -> Option<Ipv4Addr>
    decreases targets.len() - from,
{
    if from >= targets.len() {
        None
    } else {
        match targets[from].ip {
            IpAddr::V4(a) => Some(a),
            IpAddr::V6(_) => first_v4(targets, from + 1),
        }
    }
}

/// The first IPv4 address among some targets.
pub fn first_v4_target(targets: &Vec<SocketAddr>) -> (r: Option<Ipv4Addr>)
    ensures
        r == first_v4(targets@, 0),
{
    let mut i: usize = 0;
    while i < targets.len()
        invariant
            i <= targets@.len(),
            first_v4(targets@, 0) == first_v4(targets@, i as int),
        decreases targets@.len() - i,
    {
        if let IpAddr::V4(a) = targets[i].ip {
            return Some(a);
        }
        i += 1;
    }
    None
}

/// Whether enough time has passed since `last`.
pub open spec fn elapsed(last: Option<u64>, now: u64, interval: u64) -> bool {
    match last {
        None => true,
        Some(t) => now >= t && now - t >= interval || (now < t && interval == 0),
    }
}

/// Whether enough time has passed since `last`. A clock that went back counts as
/// one that stood still.
pub fn interval_passed(last: Option<u64>, now: u64, interval: u64) -> (r: bool)
    ensures
        r == elapsed(last, now, interval),
{
    match last {
        None => true,
        Some(t) => {
            if now >= t {
                now - t >= interval
            } else {
                interval == 0
            }
        },
    }
}

/// What the result of a probe asks for.
pub struct ProbeNews {
    /// The line has gone up or down.
    pub changed: bool,
    /// The connections of the line are to be deleted.
    pub flush: bool,
    /// A local cause is to be warned of.
    pub warn: bool,
    /// The kernel is to be asked the way to this target.
    pub ask: Option<Ipv4Addr>,
}

impl WanMonitor {
    /// Whether the kernel is to be asked the way: for a line that keeps failing,
    /// now and then.
    pub open spec fn asks_way(self, now: u64) -> bool {
        elapsed(self.last_path_check, now, PATH_CHECK_INTERVAL_MS)
            && self.lqe.consecutive_timeouts >= 2 && self.ifindex != 0
    }

    /// The line after the error of a probe, or none, was noted.
    pub open spec fn noted(self, error: Option<String>, now: u64) -> WanMonitor {
        match error {
            None => WanMonitor {
                last_probe_error: None,
                local_condition_warned: false,
                probe_path_missing: false,
                ..self
            },
            Some(msg) => WanMonitor {
                last_probe_error: Some(msg),
                local_condition_warned: self.local_condition_warned || local_error(msg@),
                last_path_check: if self.asks_way(now) {
                    Some(now)
                } else {
                    self.last_path_check
                },
                ..self
            },
        }
    }

    /// Whether the error of a probe is to be warned of: a local cause, once.
    pub open spec fn warns_of(self, error: Option<String>) -> bool {
        error matches Some(msg) && local_error(msg@) && !self.local_condition_warned
    }

    /// Which target the kernel is to be asked the way to.
    pub open spec fn way_asked(self, error: Option<String>, now: u64) -> Option<Ipv4Addr> {
        if error is Some && self.asks_way(now) {
            first_v4(self.targets@, 0)
        } else {
            None
        }
    }

    /// Takes the error of a probe, or none. Says whether a local cause is to be
    /// warned of, and which target the kernel is to be asked the way to.
    pub fn note_probe(&mut self, error: Option<String>, now: u64) -> (r: (bool, Option<Ipv4Addr>))
        ensures
            *final(self) == old(self).noted(error, now),
            r.0 == old(self).warns_of(error),
            r.1 == old(self).way_asked(error, now),
    {
        match error {
            None => {
                self.last_probe_error = None;
                self.local_condition_warned = false;
                self.probe_path_missing = false;
                (false, None)
            },
            Some(msg) => {
                let local = is_local_probe_error(msg.as_str());
                let warn = local && !self.local_condition_warned;
                if local {
                    self.local_condition_warned = true;
                }
                self.last_probe_error = Some(msg);
                let asks = interval_passed(self.last_path_check, now, PATH_CHECK_INTERVAL_MS)
                    && self.lqe.consecutive_timeouts >= 2 && self.ifindex != 0;
                let target = if asks {
                    self.last_path_check = Some(now);
                    first_v4_target(&self.targets)
                } else {
                    None
                };
                (warn, target)
            },
        }
    }

    /// Takes the result of a probe: first into the estimator, then into the notes.
    pub fn take_probe(
        &mut self,
        success: bool,
        rtt: RttVerdict,
        error: Option<String>,
        now: u64,
        flush_on_down: bool,
    ) -> (r: ProbeNews)
        requires
            old(self).lqe.wf(),
            old(self).lqe.window@.len() < usize::MAX,
        ensures
            final(self).lqe.wf(),
            final(self).lqe@ == old(self).lqe@.next(success, rtt),
            final(self).lqe.iface_name == old(self).lqe.iface_name,
            ({
                let judged = WanMonitor { lqe: final(self).lqe, ..*old(self) };
                &&& *final(self) == judged.noted(error, now)
                &&& r.changed == (judged.lqe.state != old(self).lqe.state)
                &&& r.flush == (r.changed && judged.lqe.state == LinkState::Down && flush_on_down)
                &&& r.warn == judged.warns_of(error)
                &&& r.ask == judged.way_asked(error, now)
            }),
    {
        let (state, changed) = self.lqe.update(success, rtt);
        let (warn, ask) = self.note_probe(error, now);
        ProbeNews { changed, flush: changed && state == LinkState::Down && flush_on_down, warn, ask }
    }

    /// Takes the kernel's answer on the way to a target, if there was one. Says
    /// whether it is news that there is no way.
    pub fn note_path(&mut self, has_route: Option<bool>) -> (r: bool)
        ensures
            r == (has_route == Some(false) && !old(self).probe_path_missing),
            *final(self) == (WanMonitor {
                probe_path_missing: match has_route {
                    Some(b) => !b,
                    None => old(self).probe_path_missing,
                },
                ..*old(self)
            }),
    {
        match has_route {
            Some(b) => {
                let news = !b && !self.probe_path_missing;
                self.probe_path_missing = !b;
                news
            },
            None => false,
        }
    }

    /// Whether the trouble of a line is a local one.
    pub fn local_condition(&self) -> (r: bool)
        ensures
            r == (self.probe_path_missing || (self.last_probe_error matches Some(m) && local_error(
                m@,
            ))),
    {
        let local = match &self.last_probe_error {
            Some(m) => is_local_probe_error(m.as_str()),
            None => false,
        };
        local || self.probe_path_missing
    }
}

/// Whether the connections of a line may be deleted now.
pub open spec fn may_flush(line: WanMonitor, now: u64, interval: u64) -> bool {
    elapsed(line.last_conntrack_flush, now, interval)
}

/// Whether one of the lines at some places has a name.
pub open spec fn has_name(lines: Seq<WanMonitor>, at: Seq<usize>, name: Seq<char>) -> bool {
    exists|k: int| 0 <= k < at.len() && lines[(#[trigger] at[k]) as int].ifname@ == name
}

/// Of the lines whose connections have to go, those that are not too soon, each
/// name once.
pub open spec fn flush_picks(
    lines: Seq<WanMonitor>,
    pending: Seq<usize>,
    now: u64,
    interval: u64,
) -> Seq<usize>
    decreases pending.len(),
{
    if pending.len() == 0 {
        Seq::empty()
    } else {
        let rest = flush_picks(lines, pending.drop_last(), now, interval);
        let i = pending.last();
        let line = lines[i as int];
        if may_flush(line, now, interval) && !has_name(lines, rest, line.ifname@) {
            rest.push(i)
        } else {
            rest
        }
    }
}

fn name_picked(lines: &[WanMonitor], at: &Vec<usize>, name: &String) -> (r: bool)
    requires
        forall|k: int| 0 <= k < at@.len() ==> (#[trigger] at@[k]) < lines@.len(),
    ensures
        r == has_name(lines@, at@, name@),
{
    let mut k: usize = 0;
    while k < at.len()
        invariant
            k <= at@.len(),
            forall|j: int| 0 <= j < at@.len() ==> (#[trigger] at@[j]) < lines@.len(),
            forall|j: int|
                0 <= j < k ==> lines@[(#[trigger] at@[j]) as int].ifname@ != name@,
        decreases at@.len() - k,
    {
        let i: usize = at[k];
        if lines[i].ifname == *name {
            assert(lines@[at@[k as int] as int].ifname@ == name@);
            return true;
        }
        k += 1;
    }
    false
}

/// Of the lines whose connections have to go, those whose turn it is.
pub fn select_flush(lines: &[WanMonitor], pending: &Vec<usize>, now: u64, interval: u64) -> (r: Vec<
    usize,
>)
    requires
        forall|k: int| 0 <= k < pending@.len() ==> (#[trigger] pending@[k]) < lines@.len(),
    ensures
        r@ == flush_picks(lines@, pending@, now, interval),
        forall|k: int| 0 <= k < r@.len() ==> (#[trigger] r@[k]) < lines@.len(),
{
    let mut out: Vec<usize> = Vec::new();
    let mut k: usize = 0;
    while k < pending.len()
        invariant
            k <= pending@.len(),
            forall|j: int| 0 <= j < pending@.len() ==> (#[trigger] pending@[j]) < lines@.len(),
            out@ == flush_picks(lines@, pending@.take(k as int), now, interval),
            forall|j: int| 0 <= j < out@.len() ==> (#[trigger] out@[j]) < lines@.len(),
        decreases pending@.len() - k,
    {
        let i: usize = pending[k];
        let ghost before = out@;
        if interval_passed(lines[i].last_conntrack_flush, now, interval) && !name_picked(
            lines,
            &out,
            &lines[i].ifname,
        ) {
            out.push(i);
        }
        k += 1;
        proof {
            assert(pending@.take(k as int).drop_last() =~= pending@.take(k - 1));
            assert forall|j: int| 0 <= j < out@.len() implies (#[trigger] out@[j])
                < lines@.len() by {
                if j < before.len() {
                    assert(out@[j] == before[j]);
                }
            }
        }
    }
    assert(pending@.take(k as int) =~= pending@);
    out
}

/// Deletions of a line's connections keep their distance: a line that is picked
/// was not dealt with for the given time.
pub proof fn flushes_keep_their_distance(
    lines: Seq<WanMonitor>,
    pending: Seq<usize>,
    now: u64,
    interval: u64,
    k: int,
)
    requires
        0 <= k < flush_picks(lines, pending, now, interval).len(),
    ensures
        may_flush(
            lines[flush_picks(lines, pending, now, interval)[k] as int],
            now,
            interval,
        ),
    decreases pending.len(),
{
    let rest = flush_picks(lines, pending.drop_last(), now, interval);
    if k < rest.len() {
        flushes_keep_their_distance(lines, pending.drop_last(), now, interval, k);
    }
}

/// The reverse path filter that holds for an interface: the greater of the
/// general setting and its own. What cannot be read counts as off.
pub fn effective_rp_filter(all: Option<u8>, own: Option<u8>) -> (r: u8)
    ensures
        r == ({
            let a = match all {
                Some(v) => v,
                None => 0,
            };
            let b = match own {
                Some(v) => v,
                None => 0,
            };
            if a >= b {
                a
            } else {
                b
            }
        }),
        all matches Some(a) ==> r >= a,
        own matches Some(b) ==> r >= b,
        r == 0 || all == Some(r) || own == Some(r),
{
    let a: u8 = match all {
        Some(v) => v,
        None => 0,
    };
    let b: u8 = match own {
        Some(v) => v,
        None => 0,
    };
    if a >= b {
        a
    } else {
        b
    }
}

/// Whether an interface can be used, given its operational state. One that has
/// none is given the benefit of the doubt.
pub fn interface_oper_usable(state: Option<String>) -> (r: bool)
    ensures
        r == (match text_view(state) {
            Some(s) => s != "down"@ && s != "lowerlayerdown"@,
            None => true,
        }),
{
    match state {
        Some(s) => s != "down".to_owned() && s != "lowerlayerdown".to_owned(),
        None => true,
    }
}

/// Whether a line can be used: not if the kernel knows no way, else as its
/// interface says.
pub fn line_usable(has_route: Option<bool>, oper: bool) -> (r: bool)
    ensures
        r == (has_route != Some(false) && oper),
{
    match has_route {
        Some(false) => false,
        _ => oper,
    }
}

} // verus!
