//! Bringing the default route in line with the active lines.
//!
//! An [`ApplyRun`] is one such operation under way. It first sees to the host
//! routes of tunnel peers, then to the default route itself, in the way that the
//! configured mode asks for.
use crate::addr::Ipv4Addr;
use crate::config::EcmpMode;
use crate::netlink::manager::{copy_gateway, gateways_equal, host_route_view, host_route_views,
    next_stale_nh, nh_id, nh_wf, tear_next, tear_start, tear_wf, underlay_wf, with_nh_id,
    ActiveWanRoute, ActiveWanRouteV6, HostRoute, HostRouteView, InstalledVariant, MgrView,
    RouteManager, TearAt, TearState};
use crate::netlink::reply::{committed, other_default_routes, gives_up, other_routes, settle,
    should_give_up_on_resilient, NetlinkError};
use crate::netlink::request::{req_delete_host_route, req_delete_nexthop, req_delete_standard_route,
    req_dump, req_group, req_host_route, req_nexthop, req_nh_route, req_standard_route, v4_gateway};
use crate::netlink::request_laws::next_router;
use crate::netlink::route::{gateway_view, hop_views, hops_fit, HopView, RouteNexthop, AF_INET,
    AF_INET6, NH_GROUP_ID_V4, RES_BUCKETS_MAX, RT_TABLE_MAIN, UNDERLAY_ROUTE_METRIC};
use crate::netlink::util::copy_bytes;
use vstd::prelude::*;

verus! {

/// What to do next in an operation.
pub enum Step {
    /// Send the request and hand back the answer.
    Send(Vec<u8>),
    /// Send the request and hand back the default routes of the main table.
    Query(Vec<u8>),
    /// The operation is over.
    Done(Result<(), NetlinkError>),
}

/// What to do next, as a mathematical value.
pub ghost enum StepView {
    Send(Seq<u8>),
    Query(Seq<u8>),
    Done(Option<NetlinkError>),
}

/// The error of a result.
pub open spec fn fault(r: Result<(), NetlinkError>) -> Option<NetlinkError> {
    match r {
        Ok(_) => None,
        Err(e) => Some(e),
    }
}

impl View for Step {
    type V = StepView;

    open spec fn view(&self) -> StepView {
        match *self {
            Step::Send(m) => StepView::Send(m@),
            Step::Query(m) => StepView::Query(m@),
            Step::Done(r) => StepView::Done(fault(r)),
        }
    }
}

/// What came of the last step.
pub enum Event {
    /// The answer to a request.
    Answer(Result<(), NetlinkError>),
    /// The default routes of the main table: table and metric.
    Routes(Result<Vec<(u32, u32)>, NetlinkError>),
}

/// The answer in an event.
pub open spec fn answer(ev: Event) -> Result<(), NetlinkError> {
    match ev {
        Event::Answer(r) => r,
        Event::Routes(_) => Ok(()),
    }
}

/// The routes in an event; none if they could not be had.
pub open spec fn routes(ev: Event) -> Seq<(u32, u32)> {
    match ev {
        Event::Routes(Ok(v)) => v@,
        _ => Seq::empty(),
    }
}

/// How far an operation has come: the request that is under way.
#[derive(Debug, Clone, Copy, PartialEq, Eq, Structural)]
pub enum Phase {
    /// Deleting the tunnel route at this place.
    UnderlayDelete(usize),
    /// Making the wanted tunnel route at this place.
    UnderlayInstall(usize),
    /// Removing a resilient default route.
    Teardown(TearAt),
    /// All lines are down: asking for other default routes.
    LinksDown,
    /// All lines are down and there are others: deleting ours.
    LinksDownDelete,
    /// Making a multipath default route.
    Standard,
    /// Deleting the multipath default route before a resilient one is made.
    Switch,
    /// Making the nexthop object of this way out.
    Member(usize),
    /// Making the group.
    Group,
    /// Making the default route that points at the group.
    Route,
    /// Deleting the object at this place, which the group no longer holds.
    Drop(usize),
    Finished,
}

/// What follows the removal of a resilient default route.
#[derive(Debug, Clone, Copy, PartialEq, Eq, Structural)]
pub enum AfterTeardown {
    /// A multipath default route.
    Standard,
    /// The operation fails.
    Fail(NetlinkError),
}

/// An operation under way.
pub struct ApplyRun {
    pub family: u8,
    pub hops: Vec<RouteNexthop>,
    /// The wanted host routes of tunnel peers.
    pub wanted: Vec<HostRoute>,
    /// The members of the group so far: identifier and weight.
    pub members: Vec<(u32, u32)>,
    pub phase: Phase,
    /// Whether a resilient default route is being tried.
    pub resilient: bool,
    pub after: AfterTeardown,
}

/// An operation under way, as a mathematical value.
pub ghost struct RunView {
    pub family: u8,
    pub hops: Seq<HopView>,
    pub wanted: Seq<HostRouteView>,
    pub members: Seq<(u32, u32)>,
    pub phase: Phase,
    pub resilient: bool,
    pub after: AfterTeardown,
}

impl View for ApplyRun {
    type V = RunView;

    open spec fn view(&self) -> RunView {
        RunView {
            family: self.family,
            hops: hop_views(self.hops@),
            wanted: host_route_views(self.wanted@),
            members: self.members@,
            phase: self.phase,
            resilient: self.resilient,
            after: self.after,
        }
    }
}

/// The manager, the operation and what to do next.
pub ghost struct ApplyState {
    pub m: MgrView,
    pub run: RunView,
    pub step: StepView,
}

impl RunView {
    pub open spec fn at(self, phase: Phase) -> RunView {
        RunView { phase, ..self }
    }
}

/// The request `msg` goes out and the operation is in `phase`.
pub open spec fn sending(m: MgrView, run: RunView, phase: Phase, msg: Seq<u8>) -> ApplyState {
    ApplyState { m: m.bumped(), run: run.at(phase), step: StepView::Send(msg) }
}

/// The operation ends.
pub open spec fn done(m: MgrView, run: RunView, e: Option<NetlinkError>) -> ApplyState {
    ApplyState { m, run: run.at(Phase::Finished), step: StepView::Done(e) }
}

/// All lines are down: which other default routes are there?
pub open spec fn enter_links_down(m: MgrView, run: RunView) -> ApplyState {
    ApplyState {
        m: m.bumped(),
        run: run.at(Phase::LinksDown),
        step: StepView::Query(req_dump(m, run.family)),
    }
}

/// Makes a multipath default route in one request.
pub open spec fn enter_standard(m: MgrView, run: RunView) -> ApplyState {
    let run = RunView { resilient: false, ..run };
    if run.hops.len() == 0 {
        enter_links_down(m, run)
    } else {
        sending(m, run, Phase::Standard, req_standard_route(m, run.family, run.hops))
    }
}

/// Goes on with, or after, the removal of a resilient default route.
pub open spec fn after_tear(t: TearState, run: RunView) -> ApplyState {
    match t.msg {
        Some(msg) => ApplyState {
            m: t.m,
            run: run.at(Phase::Teardown(t.at)),
            step: StepView::Send(msg),
        },
        None => match run.after {
            AfterTeardown::Standard => enter_standard(t.m, run),
            AfterTeardown::Fail(e) => done(t.m, run, Some(e)),
        },
    }
}

/// Removes what there is of a resilient default route.
pub open spec fn enter_teardown(m: MgrView, run: RunView, after: AfterTeardown) -> ApplyState {
    after_tear(tear_start(m, run.family), RunView { resilient: false, after, ..run })
}

/// A resilient default route was tried, without an error or with one. A failure
/// is cleaned up after; in automatic mode a multipath route takes its place, and
/// resilient groups are not tried again if they cannot work.
pub open spec fn finish_resilient(m: MgrView, run: RunView, e: Option<NetlinkError>) -> ApplyState {
    match e {
        None => if m.mode == EcmpMode::Auto {
            done(MgrView { supported: Some(true), ..m }, run, None)
        } else {
            done(m, run, None)
        },
        Some(err) => if m.mode == EcmpMode::Auto {
            let m = if gives_up(m.numbers, err) {
                MgrView { supported: Some(false), ..m }
            } else {
                m
            };
            enter_teardown(m, run, AfterTeardown::Standard)
        } else {
            enter_teardown(m, run, AfterTeardown::Fail(err))
        },
    }
}

/// The handling of "all lines are down" is over.
pub open spec fn finish_links_down(m: MgrView, run: RunView, e: Option<NetlinkError>) -> ApplyState {
    if run.resilient {
        finish_resilient(m, run, e)
    } else {
        done(m, run, e)
    }
}

/// Deletes objects, from the place `from` on, that the group no longer holds.
pub open spec fn enter_drop(m: MgrView, run: RunView, from: int) -> ApplyState {
    let i = next_stale_nh(m.nh, run.family, run.hops, from);
    if i < m.nh.len() {
        sending(
            m,
            run,
            Phase::Drop(i as usize),
            req_delete_nexthop(m, run.family, m.nh[i].id),
        )
    } else {
        finish_resilient(m, run, None)
    }
}

/// Makes the object of the way out `i`, or the group once all objects are made.
pub open spec fn enter_member(m: MgrView, run: RunView, i: int) -> ApplyState {
    if i < run.hops.len() {
        let hop = run.hops[i];
        let id = nh_id(m, run.family, hop.ifindex, hop.gateway);
        let m1 = with_nh_id(m, run.family, hop.ifindex, hop.gateway);
        sending(
            m1,
            RunView { members: run.members.push((id, hop.weight)), ..run },
            Phase::Member(i as usize),
            req_nexthop(m1, run.family, id, hop),
        )
    } else {
        sending(m, run, Phase::Group, req_group(m, run.family, run.members))
    }
}

/// Starts on the objects, unless there are too many ways out.
pub open spec fn enter_members(m: MgrView, run: RunView) -> ApplyState {
    if run.hops.len() > RES_BUCKETS_MAX {
        finish_resilient(
            m,
            run,
            Some(NetlinkError::TooManyNexthops(run.hops.len() as usize)),
        )
    } else {
        enter_member(m, RunView { members: Seq::empty(), ..run }, 0)
    }
}

/// Tries a resilient default route; a multipath one has to go first.
pub open spec fn enter_resilient(m: MgrView, run: RunView) -> ApplyState {
    let run = RunView { resilient: true, ..run };
    if run.hops.len() == 0 {
        enter_links_down(m, run)
    } else if m.variant(run.family) == InstalledVariant::Standard {
        sending(m, run, Phase::Switch, req_delete_standard_route(m, run.family))
    } else {
        enter_members(m, run)
    }
}

/// Turns to the default route.
pub open spec fn enter_mode(m: MgrView, run: RunView) -> ApplyState {
    match m.mode {
        EcmpMode::Standard => if m.variant(run.family) == InstalledVariant::Resilient
            || next_stale_nh(m.nh, run.family, Seq::empty(), 0) < m.nh.len() {
            enter_teardown(m, run, AfterTeardown::Standard)
        } else {
            enter_standard(m, run)
        },
        EcmpMode::Resilient => enter_resilient(m, run),
        EcmpMode::Auto => if m.supported != Some(false) {
            enter_resilient(m, run)
        } else {
            enter_standard(m, run)
        },
    }
}

/// The place of the route to a destination; the length of the list if there is none.
pub open spec fn find_dest(list: Seq<HostRouteView>, dst: Ipv4Addr, from: int) -> int
    decreases list.len() - from,
{
    if from >= list.len() {
        list.len() as int
    } else if list[from].0 == dst {
        from
    } else {
        find_dest(list, dst, from + 1)
    }
}

/// The list with a route in place of the one to the same destination, or at the end.
pub open spec fn upsert(list: Seq<HostRouteView>, r: HostRouteView) -> Seq<HostRouteView> {
    let k = find_dest(list, r.0, 0);
    if k < list.len() {
        list.update(k, r)
    } else {
        list.push(r)
    }
}

/// Whether the kernel has just this route.
pub open spec fn is_current(list: Seq<HostRouteView>, r: HostRouteView) -> bool {
    let k = find_dest(list, r.0, 0);
    k < list.len() && list[k] == r
}

/// The first wanted route from `from` on that the kernel does not have.
pub open spec fn next_missing(
    list: Seq<HostRouteView>,
    wanted: Seq<HostRouteView>,
    from: int,
) -> int
    decreases wanted.len() - from,
{
    if from >= wanted.len() {
        wanted.len() as int
    } else if !is_current(list, wanted[from]) {
        from
    } else {
        next_missing(list, wanted, from + 1)
    }
}

/// The first route from `from` on whose destination is not wanted.
pub open spec fn next_unwanted(
    list: Seq<HostRouteView>,
    wanted: Seq<HostRouteView>,
    from: int,
) -> int
    decreases list.len() - from,
{
    if from >= list.len() {
        list.len() as int
    } else if find_dest(wanted, list[from].0, 0) >= wanted.len() {
        from
    } else {
        next_unwanted(list, wanted, from + 1)
    }
}

/// Makes the tunnel routes that are missing, from the wanted one `from` on.
pub open spec fn enter_underlay_install(m: MgrView, run: RunView, from: int) -> ApplyState {
    let i = next_missing(m.underlay, run.wanted, from);
    if i < run.wanted.len() {
        let w = run.wanted[i];
        sending(
            m,
            run,
            Phase::UnderlayInstall(i as usize),
            req_host_route(m, UNDERLAY_ROUTE_METRIC, w.0, w.1, w.2),
        )
    } else {
        enter_mode(m, run)
    }
}

/// Deletes the tunnel routes that are no longer wanted, from the place `from` on.
pub open spec fn enter_underlay_delete(m: MgrView, run: RunView, from: int) -> ApplyState {
    let i = next_unwanted(m.underlay, run.wanted, from);
    if i < m.underlay.len() {
        sending(
            m,
            run,
            Phase::UnderlayDelete(i as usize),
            req_delete_host_route(
                m,
                UNDERLAY_ROUTE_METRIC,
                RT_TABLE_MAIN as u32,
                m.underlay[i].0,
                32,
            ),
        )
    } else {
        enter_underlay_install(m, run, 0)
    }
}

/// Goes on with an operation after an event. Trouble with tunnel routes or with
/// the cleaning up of objects holds up nothing.
pub open spec fn next_state(m: MgrView, run: RunView, ev: Event) -> ApplyState {
    let reply = answer(ev);
    let created = fault(reply);
    let deleted = fault(committed(true, reply));
    match run.phase {
        Phase::UnderlayDelete(i) => if deleted is None {
            enter_underlay_delete(
                MgrView { underlay: m.underlay.remove(i as int), ..m },
                run,
                i as int,
            )
        } else {
            enter_underlay_delete(m, run, i + 1)
        },
        Phase::UnderlayInstall(i) => if created is None {
            enter_underlay_install(
                MgrView { underlay: upsert(m.underlay, run.wanted[i as int]), ..m },
                run,
                i + 1,
            )
        } else {
            enter_mode(m, run)
        },
        Phase::Teardown(at) => after_tear(tear_next(m, run.family, at, reply), run),
        Phase::LinksDown => if other_routes(routes(ev), m.priority).len() == 0 {
            finish_links_down(m, run, None)
        } else {
            sending(m, run, Phase::LinksDownDelete, req_delete_standard_route(m, run.family))
        },
        Phase::LinksDownDelete => if deleted is None {
            finish_links_down(m.with_variant(run.family, InstalledVariant::Absent), run, None)
        } else {
            finish_links_down(m, run, deleted)
        },
        Phase::Standard => if created is None {
            done(m.with_variant(run.family, InstalledVariant::Standard), run, None)
        } else {
            done(m, run, created)
        },
        Phase::Switch => if deleted is None {
            enter_members(m.with_variant(run.family, InstalledVariant::Absent), run)
        } else {
            finish_resilient(m, run, deleted)
        },
        Phase::Member(i) => if created is None {
            enter_member(m, run, i + 1)
        } else {
            finish_resilient(m, run, created)
        },
        Phase::Group => if created is None {
            sending(m, run, Phase::Route, req_nh_route(m, run.family))
        } else {
            finish_resilient(m, run, created)
        },
        Phase::Route => if created is None {
            enter_drop(m.with_variant(run.family, InstalledVariant::Resilient), run, 0)
        } else {
            finish_resilient(m, run, created)
        },
        Phase::Drop(i) => if deleted is None {
            enter_drop(m.with_nh(m.nh.remove(i as int)), run, i as int)
        } else {
            enter_drop(m, run, i + 1)
        },
        Phase::Finished => done(m, run, None),
    }
}

/// How many identifiers the operation may still hand out.
pub open spec fn ids_needed(run: RunView) -> int {
    match run.phase {
        Phase::UnderlayDelete(_) | Phase::UnderlayInstall(_) | Phase::Switch => run.hops.len()
            as int,
        Phase::Member(i) => run.hops.len() - i - 1,
        _ => 0,
    }
}

/// Whether the places that an operation holds are places, and there are
/// identifiers enough.
pub open spec fn phase_wf(m: MgrView, run: RunView) -> bool {
    &&& m.wf()
    &&& m.next_id + ids_needed(run) <= NH_GROUP_ID_V4
    &&& match run.phase {
        Phase::UnderlayDelete(i) => i < m.underlay.len(),
        Phase::UnderlayInstall(i) => i < run.wanted.len(),
        Phase::Teardown(at) => tear_wf(m, at),
        Phase::Member(i) => i < run.hops.len() <= RES_BUCKETS_MAX && run.members.len() == i + 1,
        Phase::Drop(i) => i < m.nh.len(),
        _ => true,
    }
}

impl ApplyRun {
    /// Whether the requests of the operation can be built.
    pub open spec fn wf(self) -> bool {
        &&& hops_fit(self.hops@)
        &&& forall|i: int|
            0 <= i < self.wanted@.len() ==> ((#[trigger] self.wanted@[i]).2 matches Some(g)
                ==> g@.len() <= 16)
    }
}

/// Whether manager, operation and step are those of a state, and can go on.
pub open spec fn reached(mgr: RouteManager, run: ApplyRun, step: Step, s: ApplyState) -> bool {
    &&& mgr@ == s.m
    &&& run@ == s.run
    &&& step@ == s.step
    &&& run.wf()
    &&& phase_wf(mgr@, run@)
    &&& (step is Query) == (run.phase is LinksDown)
    &&& (step is Done) == (run.phase is Finished)
}

fn enter_links_down_run(mgr: &mut RouteManager, run: &mut ApplyRun) -> (step: Step)
    requires
        old(run).wf(),
        old(mgr).wf(),
    ensures
        reached(*final(mgr), *final(run), step, enter_links_down(old(mgr)@, old(run)@)),
{
    proof {
        reveal(nh_wf);
    }
    let msg = mgr.dump_request(run.family);
    run.phase = Phase::LinksDown;
    Step::Query(msg)
}

/// Makes a multipath default route in one request.
fn apply_standard(mgr: &mut RouteManager, run: &mut ApplyRun) -> (step: Step)
    requires
        old(run).wf(),
        old(mgr).wf(),
    ensures
        reached(*final(mgr), *final(run), step, enter_standard(old(mgr)@, old(run)@)),
{
    proof {
        reveal(nh_wf);
    }
    run.resilient = false;
    if run.hops.len() == 0 {
        enter_links_down_run(mgr, run)
    } else {
        let msg = mgr.install_standard_route(run.family, &run.hops);
        run.phase = Phase::Standard;
        Step::Send(msg)
    }
}

fn finish(mgr: &RouteManager, run: &mut ApplyRun, r: Result<(), NetlinkError>) -> (step: Step)
    requires
        old(run).wf(),
        mgr.wf(),
    ensures
        reached(*mgr, *final(run), step, done(mgr@, old(run)@, fault(r))),
{
    proof {
        reveal(nh_wf);
    }
    run.phase = Phase::Finished;
    Step::Done(r)
}

fn go_on_after_tear(
    mgr: &mut RouteManager,
    run: &mut ApplyRun,
    t: (TearAt, Option<Vec<u8>>),
    Ghost(ts): Ghost<TearState>,
) -> (step: Step)
    requires
        old(run).wf(),
        old(mgr).wf(),
        old(mgr)@ == ts.m,
        t.0 == ts.at,
        crate::netlink::manager::opt_view(t.1) == ts.msg,
        tear_wf(ts.m, t.0),
        t.1 is Some == !(t.0 is Over),
    ensures
        reached(*final(mgr), *final(run), step, after_tear(ts, old(run)@)),
{
    proof {
        reveal(nh_wf);
    }
    match t.1 {
        Some(msg) => {
            run.phase = Phase::Teardown(t.0);
            Step::Send(msg)
        },
        None => match run.after {
            AfterTeardown::Standard => apply_standard(mgr, run),
            AfterTeardown::Fail(e) => finish(mgr, run, Err(e)),
        },
    }
}

fn start_teardown(mgr: &mut RouteManager, run: &mut ApplyRun, after: AfterTeardown) -> (step: Step)
    requires
        old(run).wf(),
        old(mgr).wf(),
    ensures
        reached(*final(mgr), *final(run), step, enter_teardown(old(mgr)@, old(run)@, after)),
{
    run.resilient = false;
    run.after = after;
    let ghost ts = tear_start(mgr@, run.family);
    let t = mgr.teardown_resilient(run.family);
    go_on_after_tear(mgr, run, t, Ghost(ts))
}

fn end_resilient(mgr: &mut RouteManager, run: &mut ApplyRun, r: Result<(), NetlinkError>) -> (step:
    Step)
    requires
        old(run).wf(),
        old(mgr).wf(),
    ensures
        reached(
            *final(mgr),
            *final(run),
            step,
            finish_resilient(old(mgr)@, old(run)@, fault(r)),
        ),
{
    let auto = mgr.ecmp_mode == EcmpMode::Auto;
    match r {
        Ok(()) => {
            if auto {
                mgr.resilient_supported = Some(true);
            }
            finish(mgr, run, r)
        },
        Err(e) => {
            if auto {
                if should_give_up_on_resilient(mgr.numbers, &e) {
                    mgr.resilient_supported = Some(false);
                }
                start_teardown(mgr, run, AfterTeardown::Standard)
            } else {
                start_teardown(mgr, run, AfterTeardown::Fail(e))
            }
        },
    }
}

fn end_links_down(mgr: &mut RouteManager, run: &mut ApplyRun, r: Result<(), NetlinkError>) -> (step:
    Step)
    requires
        old(run).wf(),
        old(mgr).wf(),
    ensures
        reached(
            *final(mgr),
            *final(run),
            step,
            finish_links_down(old(mgr)@, old(run)@, fault(r)),
        ),
{
    if run.resilient {
        end_resilient(mgr, run, r)
    } else {
        finish(mgr, run, r)
    }
}

/// Deletes objects, from the place `from` on, that the group no longer holds.
fn drop_unused_members(mgr: &mut RouteManager, run: &mut ApplyRun, from: usize) -> (step: Step)
    requires
        old(run).wf(),
        old(mgr).wf(),
        from <= old(mgr)@.nh.len(),
    ensures
        reached(
            *final(mgr),
            *final(run),
            step,
            enter_drop(old(mgr)@, old(run)@, from as int),
        ),
{
    let i: usize = mgr.find_stale(run.family, &run.hops, from);
    if i < mgr.nh_ids.len() {
        proof {
            reveal(nh_wf);
        }
        let id: u32 = mgr.nh_ids[i].id;
        let msg = mgr.delete_nexthop(run.family, id);
        run.phase = Phase::Drop(i);
        Step::Send(msg)
    } else {
        end_resilient(mgr, run, Ok(()))
    }
}

fn make_member(mgr: &mut RouteManager, run: &mut ApplyRun, i: usize) -> (step: Step)
    requires
        old(run).wf(),
        old(mgr).wf(),
        i <= old(run).hops@.len() <= RES_BUCKETS_MAX,
        old(run).members@.len() == i,
        old(mgr)@.next_id + (old(run).hops@.len() - i) <= NH_GROUP_ID_V4,
    ensures
        reached(
            *final(mgr),
            *final(run),
            step,
            enter_member(old(mgr)@, old(run)@, i as int),
        ),
{
    if i < run.hops.len() {
        let hop = &run.hops[i];
        assert(run@.hops[i as int] == hop@);
        let id: u32 = mgr.alloc_nh_id(run.family, hop.ifindex, &hop.gateway);
        let msg = mgr.ensure_nexthop(run.family, id, hop);
        let weight: u32 = hop.weight;
        run.members.push((id, weight));
        run.phase = Phase::Member(i);
        Step::Send(msg)
    } else {
        proof {
            reveal(nh_wf);
        }
        let msg = mgr.ensure_nexthop_group(run.family, &run.members);
        run.phase = Phase::Group;
        Step::Send(msg)
    }
}

fn make_members(mgr: &mut RouteManager, run: &mut ApplyRun) -> (step: Step)
    requires
        old(run).wf(),
        old(mgr).wf(),
        old(mgr)@.next_id + old(run).hops@.len() <= NH_GROUP_ID_V4,
    ensures
        reached(*final(mgr), *final(run), step, enter_members(old(mgr)@, old(run)@)),
{
    if run.hops.len() > RES_BUCKETS_MAX {
        let n: usize = run.hops.len();
        end_resilient(mgr, run, Err(NetlinkError::TooManyNexthops(n)))
    } else {
        run.members = Vec::new();
        assert(run.members@ =~= Seq::empty());
        make_member(mgr, run, 0)
    }
}

/// Tries a resilient default route.
fn apply_resilient(mgr: &mut RouteManager, run: &mut ApplyRun) -> (step: Step)
    requires
        old(run).wf(),
        old(mgr).wf(),
        old(mgr)@.next_id + old(run).hops@.len() <= NH_GROUP_ID_V4,
    ensures
        reached(*final(mgr), *final(run), step, enter_resilient(old(mgr)@, old(run)@)),
{
    run.resilient = true;
    if run.hops.len() == 0 {
        enter_links_down_run(mgr, run)
    } else if mgr.installed_variant(run.family) == InstalledVariant::Standard {
        let msg = mgr.delete_standard_route(run.family);
        run.phase = Phase::Switch;
        Step::Send(msg)
    } else {
        make_members(mgr, run)
    }
}

fn apply_mode(mgr: &mut RouteManager, run: &mut ApplyRun) -> (step: Step)
    requires
        old(run).wf(),
        old(mgr).wf(),
        old(mgr)@.next_id + old(run).hops@.len() <= NH_GROUP_ID_V4,
    ensures
        reached(*final(mgr), *final(run), step, enter_mode(old(mgr)@, old(run)@)),
{
    match mgr.ecmp_mode {
        EcmpMode::Standard => {
            if mgr.installed_variant(run.family) == InstalledVariant::Resilient
                || mgr.has_any_member(run.family) {
                start_teardown(mgr, run, AfterTeardown::Standard)
            } else {
                apply_standard(mgr, run)
            }
        },
        EcmpMode::Resilient => apply_resilient(mgr, run),
        EcmpMode::Auto => {
            let refused = match mgr.resilient_supported {
                Some(s) => !s,
                None => false,
            };
            if refused {
                apply_standard(mgr, run)
            } else {
                apply_resilient(mgr, run)
            }
        },
    }
}

pub proof fn lemma_find_dest(list: Seq<HostRouteView>, dst: Ipv4Addr, from: int)
    requires
        0 <= from <= list.len(),
    ensures
        ({
            let k = find_dest(list, dst, from);
            &&& from <= k <= list.len()
            &&& k < list.len() ==> list[k].0 == dst
            &&& forall|i: int| from <= i < k ==> (#[trigger] list[i]).0 != dst
        }),
    decreases list.len() - from,
{
    if from < list.len() && list[from].0 != dst {
        lemma_find_dest(list, dst, from + 1);
    }
}

/// The place of the route to a destination; the length of the list if there is none.
fn position_of(list: &Vec<HostRoute>, dst: Ipv4Addr) -> (r: usize)
    ensures
        r == find_dest(host_route_views(list@), dst, 0),
        r <= list@.len(),
{
    let ghost views = host_route_views(list@);
    let mut i: usize = 0;
    while i < list.len()
        invariant
            i <= list@.len(),
            views == host_route_views(list@),
            find_dest(views, dst, 0) == find_dest(views, dst, i as int),
        decreases list@.len() - i,
    {
        assert(views[i as int].0 == list@[i as int].0);
        if list[i].0 == dst {
            return i;
        }
        i += 1;
    }
    i
}

fn routes_equal(a: &HostRoute, b: &HostRoute) -> (r: bool)
    ensures
        r == (host_route_view(*a) == host_route_view(*b)),
{
    a.0 == b.0 && a.1 == b.1 && gateways_equal(&a.2, &b.2)
}

fn copy_route(a: &HostRoute) -> (r: HostRoute)
    ensures
        host_route_view(r) == host_route_view(*a),
{
    (a.0, a.1, copy_gateway(&a.2))
}

/// The first wanted route from `from` on that the kernel does not have.
fn find_missing(list: &Vec<HostRoute>, wanted: &Vec<HostRoute>, from: usize) -> (r: usize)
    requires
        from <= wanted@.len(),
    ensures
        r == next_missing(host_route_views(list@), host_route_views(wanted@), from as int),
        r <= wanted@.len(),
{
    let ghost lv = host_route_views(list@);
    let ghost wv = host_route_views(wanted@);
    let mut i: usize = from;
    while i < wanted.len()
        invariant
            i <= wanted@.len(),
            lv == host_route_views(list@),
            wv == host_route_views(wanted@),
            next_missing(lv, wv, from as int) == next_missing(lv, wv, i as int),
        decreases wanted@.len() - i,
    {
        let w = &wanted[i];
        assert(wv[i as int] == host_route_view(*w));
        let k: usize = position_of(list, w.0);
        proof {
            if k < list@.len() {
                assert(lv[k as int] == host_route_view(list@[k as int]));
            }
        }
        if k >= list.len() || !routes_equal(&list[k], w) {
            return i;
        }
        i += 1;
    }
    i
}

/// The first route from `from` on whose destination is not wanted.
fn find_unwanted(list: &Vec<HostRoute>, wanted: &Vec<HostRoute>, from: usize) -> (r: usize)
    requires
        from <= list@.len(),
    ensures
        r == next_unwanted(host_route_views(list@), host_route_views(wanted@), from as int),
        r <= list@.len(),
{
    let ghost lv = host_route_views(list@);
    let ghost wv = host_route_views(wanted@);
    let mut i: usize = from;
    while i < list.len()
        invariant
            i <= list@.len(),
            lv == host_route_views(list@),
            wv == host_route_views(wanted@),
            next_unwanted(lv, wv, from as int) == next_unwanted(lv, wv, i as int),
        decreases list@.len() - i,
    {
        assert(lv[i as int] == host_route_view(list@[i as int]));
        if position_of(wanted, list[i].0) >= wanted.len() {
            return i;
        }
        i += 1;
    }
    i
}

/// Makes the tunnel routes that are missing, from the wanted one `from` on.
fn install_underlay(mgr: &mut RouteManager, run: &mut ApplyRun, from: usize) -> (step: Step)
    requires
        old(run).wf(),
        old(mgr).wf(),
        old(mgr)@.next_id + old(run).hops@.len() <= NH_GROUP_ID_V4,
        from <= old(run).wanted@.len(),
    ensures
        reached(
            *final(mgr),
            *final(run),
            step,
            enter_underlay_install(old(mgr)@, old(run)@, from as int),
        ),
{
    let i: usize = find_missing(&mgr.underlay_routes, &run.wanted, from);
    if i < run.wanted.len() {
        let w = &run.wanted[i];
        assert(run@.wanted[i as int] == host_route_view(*w));
        let gateway = copy_gateway(&w.2);
        let msg = mgr.install_host_route(UNDERLAY_ROUTE_METRIC, w.0, w.1, gateway);
        run.phase = Phase::UnderlayInstall(i);
        Step::Send(msg)
    } else {
        apply_mode(mgr, run)
    }
}

/// Deletes the tunnel routes that are no longer wanted, from the place `from` on.
fn delete_underlay(mgr: &mut RouteManager, run: &mut ApplyRun, from: usize) -> (step: Step)
    requires
        old(run).wf(),
        old(mgr).wf(),
        old(mgr)@.next_id + old(run).hops@.len() <= NH_GROUP_ID_V4,
        from <= old(mgr)@.underlay.len(),
    ensures
        reached(
            *final(mgr),
            *final(run),
            step,
            enter_underlay_delete(old(mgr)@, old(run)@, from as int),
        ),
{
    let i: usize = find_unwanted(&mgr.underlay_routes, &run.wanted, from);
    if i < mgr.underlay_routes.len() {
        let dst = mgr.underlay_routes[i].0;
        assert(mgr@.underlay[i as int].0 == dst);
        let msg = mgr.delete_host_route(UNDERLAY_ROUTE_METRIC, RT_TABLE_MAIN as u32, dst, 32);
        run.phase = Phase::UnderlayDelete(i);
        Step::Send(msg)
    } else {
        install_underlay(mgr, run, 0)
    }
}

impl RouteManager {
    /// Records that a tunnel route is in the kernel.
    fn record_underlay(&mut self, r: &HostRoute)
        ensures
            final(self)@ == (MgrView {
                underlay: upsert(old(self)@.underlay, host_route_view(*r)),
                ..old(self)@
            }),
            old(self).wf() ==> final(self).wf(),
    {
        let ghost list = self@.underlay;
        let k: usize = position_of(&self.underlay_routes, r.0);
        let copy = copy_route(r);
        proof {
            lemma_find_dest(list, r.0, 0);
            reveal(underlay_wf);
        }
        if k < self.underlay_routes.len() {
            self.underlay_routes.set(k, copy);
            assert(self@.underlay =~= list.update(k as int, host_route_view(*r)));
        } else {
            self.underlay_routes.push(copy);
            assert(self@.underlay =~= list.push(host_route_view(*r)));
        }
    }

    /// Forgets the tunnel route at a place.
    pub(crate) fn forget_underlay(&mut self, i: usize)
        requires
            i < old(self)@.underlay.len(),
        ensures
            final(self)@ == (MgrView {
                underlay: old(self)@.underlay.remove(i as int),
                ..old(self)@
            }),
            old(self).wf() ==> final(self).wf(),
    {
        self.underlay_routes.remove(i);
        proof {
            reveal(underlay_wf);
            assert(self@.underlay =~= old(self)@.underlay.remove(i as int));
        }
    }
}

fn next_underlay_delete(
    mgr: &mut RouteManager,
    run: &mut ApplyRun,
    i: usize,
    reply: Result<(), NetlinkError>,
) -> (step: Step)
    requires
        old(run).wf(),
        phase_wf(old(mgr)@, old(run)@),
        old(run).phase == Phase::UnderlayDelete(i),
    ensures
        reached(
            *final(mgr),
            *final(run),
            step,
            next_state(old(mgr)@, old(run)@, Event::Answer(reply)),
        ),
{
    if settle(true, reply).is_ok() {
        mgr.forget_underlay(i);
        delete_underlay(mgr, run, i)
    } else {
        assert(i < mgr.underlay_routes.len());
        delete_underlay(mgr, run, i + 1)
    }
}

fn next_underlay_install(
    mgr: &mut RouteManager,
    run: &mut ApplyRun,
    i: usize,
    reply: Result<(), NetlinkError>,
) -> (step: Step)
    requires
        old(run).wf(),
        phase_wf(old(mgr)@, old(run)@),
        old(run).phase == Phase::UnderlayInstall(i),
    ensures
        reached(
            *final(mgr),
            *final(run),
            step,
            next_state(old(mgr)@, old(run)@, Event::Answer(reply)),
        ),
{
    if reply.is_ok() {
        assert(run@.wanted[i as int] == host_route_view(run.wanted@[i as int]));
        mgr.record_underlay(&run.wanted[i]);
        assert(i < run.wanted.len());
        install_underlay(mgr, run, i + 1)
    } else {
        apply_mode(mgr, run)
    }
}

fn next_links_down(mgr: &mut RouteManager, run: &mut ApplyRun, ev: &Event) -> (step: Step)
    requires
        old(run).wf(),
        phase_wf(old(mgr)@, old(run)@),
        old(run).phase == Phase::LinksDown,
    ensures
        reached(*final(mgr), *final(run), step, next_state(old(mgr)@, old(run)@, *ev)),
{
    let others = match ev {
        Event::Routes(Ok(v)) => other_default_routes(v, mgr.priority),
        _ => {
            let none: Vec<(u32, u32)> = Vec::new();
            other_default_routes(&none, mgr.priority)
        },
    };
    proof {
        assert(routes(*ev) =~= match *ev {
            Event::Routes(Ok(v)) => v@,
            _ => Seq::empty(),
        });
        assert(others@ == other_routes(routes(*ev), mgr@.priority));
    }
    if others.len() == 0 {
        end_links_down(mgr, run, Ok(()))
    } else {
        let msg = mgr.delete_standard_route(run.family);
        run.phase = Phase::LinksDownDelete;
        Step::Send(msg)
    }
}

fn next_links_down_delete(
    mgr: &mut RouteManager,
    run: &mut ApplyRun,
    reply: Result<(), NetlinkError>,
) -> (step: Step)
    requires
        old(run).wf(),
        phase_wf(old(mgr)@, old(run)@),
        old(run).phase == Phase::LinksDownDelete,
    ensures
        reached(
            *final(mgr),
            *final(run),
            step,
            next_state(old(mgr)@, old(run)@, Event::Answer(reply)),
        ),
{
    let r = settle(true, reply);
    if r.is_ok() {
        mgr.set_installed_variant(run.family, InstalledVariant::Absent);
    }
    end_links_down(mgr, run, r)
}

fn next_standard(mgr: &mut RouteManager, run: &mut ApplyRun, reply: Result<(), NetlinkError>) -> (step:
    Step)
    requires
        old(run).wf(),
        phase_wf(old(mgr)@, old(run)@),
        old(run).phase == Phase::Standard,
    ensures
        reached(
            *final(mgr),
            *final(run),
            step,
            next_state(old(mgr)@, old(run)@, Event::Answer(reply)),
        ),
{
    if reply.is_ok() {
        mgr.set_installed_variant(run.family, InstalledVariant::Standard);
    }
    finish(mgr, run, reply)
}

fn next_switch(mgr: &mut RouteManager, run: &mut ApplyRun, reply: Result<(), NetlinkError>) -> (step:
    Step)
    requires
        old(run).wf(),
        phase_wf(old(mgr)@, old(run)@),
        old(run).phase == Phase::Switch,
    ensures
        reached(
            *final(mgr),
            *final(run),
            step,
            next_state(old(mgr)@, old(run)@, Event::Answer(reply)),
        ),
{
    let r = settle(true, reply);
    if r.is_ok() {
        mgr.set_installed_variant(run.family, InstalledVariant::Absent);
        make_members(mgr, run)
    } else {
        end_resilient(mgr, run, r)
    }
}

fn next_member(mgr: &mut RouteManager, run: &mut ApplyRun, i: usize, reply: Result<(), NetlinkError>) -> (step:
    Step)
    requires
        old(run).wf(),
        phase_wf(old(mgr)@, old(run)@),
        old(run).phase == Phase::Member(i),
    ensures
        reached(
            *final(mgr),
            *final(run),
            step,
            next_state(old(mgr)@, old(run)@, Event::Answer(reply)),
        ),
{
    if reply.is_ok() {
        make_member(mgr, run, i + 1)
    } else {
        end_resilient(mgr, run, reply)
    }
}

fn next_group(mgr: &mut RouteManager, run: &mut ApplyRun, reply: Result<(), NetlinkError>) -> (step:
    Step)
    requires
        old(run).wf(),
        phase_wf(old(mgr)@, old(run)@),
        old(run).phase == Phase::Group,
    ensures
        reached(
            *final(mgr),
            *final(run),
            step,
            next_state(old(mgr)@, old(run)@, Event::Answer(reply)),
        ),
{
    if reply.is_ok() {
        let msg = mgr.install_nh_route(run.family);
        run.phase = Phase::Route;
        Step::Send(msg)
    } else {
        end_resilient(mgr, run, reply)
    }
}

fn next_route(mgr: &mut RouteManager, run: &mut ApplyRun, reply: Result<(), NetlinkError>) -> (step:
    Step)
    requires
        old(run).wf(),
        phase_wf(old(mgr)@, old(run)@),
        old(run).phase == Phase::Route,
    ensures
        reached(
            *final(mgr),
            *final(run),
            step,
            next_state(old(mgr)@, old(run)@, Event::Answer(reply)),
        ),
{
    if reply.is_ok() {
        mgr.set_installed_variant(run.family, InstalledVariant::Resilient);
        drop_unused_members(mgr, run, 0)
    } else {
        end_resilient(mgr, run, reply)
    }
}

fn next_drop(
    mgr: &mut RouteManager,
    run: &mut ApplyRun,
    i: usize,
    reply: Result<(), NetlinkError>,
) -> (step: Step)
    requires
        old(run).wf(),
        phase_wf(old(mgr)@, old(run)@),
        old(run).phase == Phase::Drop(i),
    ensures
        reached(
            *final(mgr),
            *final(run),
            step,
            next_state(old(mgr)@, old(run)@, Event::Answer(reply)),
        ),
{
    if settle(true, reply).is_ok() {
        mgr.forget_nh(i);
        drop_unused_members(mgr, run, i)
    } else {
        assert(i < mgr.nh_ids.len());
        drop_unused_members(mgr, run, i + 1)
    }
}

fn next_teardown(
    mgr: &mut RouteManager,
    run: &mut ApplyRun,
    at: TearAt,
    reply: Result<(), NetlinkError>,
) -> (step: Step)
    requires
        old(run).wf(),
        phase_wf(old(mgr)@, old(run)@),
        old(run).phase == Phase::Teardown(at),
    ensures
        reached(
            *final(mgr),
            *final(run),
            step,
            next_state(old(mgr)@, old(run)@, Event::Answer(reply)),
        ),
{
    let ghost ts = tear_next(mgr@, run.family, at, reply);
    let t = mgr.teardown_next(run.family, at, reply);
    go_on_after_tear(mgr, run, t, Ghost(ts))
}

/// Whether a line can be the exit for the peers of tunnels: it is no tunnel, no
/// line that is none has a lesser metric, and none before it has the same.
pub open spec fn is_exit(wans: Seq<ActiveWanRoute>, k: int) -> bool {
    &&& 0 <= k < wans.len()
    &&& wans[k].underlay_targets@.len() == 0
    &&& forall|j: int|
        0 <= j < wans.len() && (#[trigger] wans[j]).underlay_targets@.len() == 0
            ==> wans[k].metric <= wans[j].metric && (wans[k].metric == wans[j].metric ==> k <= j)
}

/// The peers of a list of lines, each with the way to it.
pub open spec fn peers_via(
    wans: Seq<ActiveWanRoute>,
    ifindex: u32,
    gateway: Option<Seq<u8>>,
) -> Seq<HostRouteView>
    decreases wans.len(),
{
    if wans.len() == 0 {
        Seq::empty()
    } else {
        peers_via(wans.drop_last(), ifindex, gateway) + wans.last().underlay_targets@.map_values(
            |a: Ipv4Addr| (a, ifindex, gateway),
        )
    }
}

/// The wanted host routes of tunnel peers: each peer goes through the exit. If
/// every line is a tunnel there are none.
pub open spec fn underlay_plan(wans: Seq<ActiveWanRoute>) -> Seq<HostRouteView> {
    if exists|k: int| is_exit(wans, k) {
        let k = choose|k: int| is_exit(wans, k);
        peers_via(wans, wans[k].ifindex, v4_gateway(wans[k].gateway))
    } else {
        Seq::empty()
    }
}

/// The octets of an optional address.
pub fn octets_of(g: &Option<Ipv4Addr>) -> (r: Option<Vec<u8>>)
    ensures
        gateway_view(r) == v4_gateway(*g),
        r matches Some(v) ==> v@.len() == 4,
{
    match g {
        Some(a) => Some(copy_bytes(&a.octets())),
        None => None,
    }
}

/// The line that is the exit for tunnel peers, if there is one.
fn find_exit(wans: &[ActiveWanRoute]) -> (r: Option<usize>)
    ensures
        match r {
            Some(k) => is_exit(wans@, k as int),
            None => forall|j: int|
                0 <= j < wans@.len() ==> (#[trigger] wans@[j]).underlay_targets@.len() > 0,
        },
{
    let mut best: Option<usize> = None;
    let mut i: usize = 0;
    while i < wans.len()
        invariant
            i <= wans@.len(),
            match best {
                Some(k) => k < i && wans@[k as int].underlay_targets@.len() == 0 && forall|j: int|
                    0 <= j < i && (#[trigger] wans@[j]).underlay_targets@.len() == 0
                        ==> wans@[k as int].metric <= wans@[j].metric && (wans@[k as int].metric
                        == wans@[j].metric ==> k <= j),
                None => forall|j: int|
                    0 <= j < i ==> (#[trigger] wans@[j]).underlay_targets@.len() > 0,
            },
        decreases wans@.len() - i,
    {
        if wans[i].underlay_targets.len() == 0 {
            let better = match best {
                Some(k) => wans[i].metric < wans[k].metric,
                None => true,
            };
            if better {
                best = Some(i);
            }
        }
        i += 1;
    }
    best
}

/// Plans the host routes of tunnel peers. A tunnel's own packets would, now and
/// then, be sent back into it by a multipath default route; a host route, whose
/// prefix is longer, keeps them out. No tunnel serves as the exit of another.
pub fn plan_underlay_routes(wans: &[ActiveWanRoute]) -> (r: Vec<HostRoute>)
    ensures
        host_route_views(r@) == underlay_plan(wans@),
        forall|i: int|
            0 <= i < r@.len() ==> ((#[trigger] r@[i]).2 matches Some(g) ==> g@.len() <= 16),
{
    let mut out: Vec<HostRoute> = Vec::new();
    let k: usize = match find_exit(wans) {
        Some(k) => k,
        None => {
            proof {
                assert forall|k: int| !is_exit(wans@, k) by {
                    if 0 <= k < wans@.len() {
                        assert(wans@[k].underlay_targets@.len() > 0);
                    }
                }
                assert(host_route_views(out@) =~= underlay_plan(wans@));
            }
            return out;
        },
    };
    let ifindex: u32 = wans[k].ifindex;
    let ghost gateway = v4_gateway(wans@[k as int].gateway);
    let mut i: usize = 0;
    assert(host_route_views(out@) =~= peers_via(wans@.take(0), ifindex, gateway));
    while i < wans.len()
        invariant
            i <= wans@.len(),
            k < wans@.len(),
            gateway == v4_gateway(wans@[k as int].gateway),
            host_route_views(out@) == peers_via(wans@.take(i as int), ifindex, gateway),
            forall|j: int|
                0 <= j < out@.len() ==> ((#[trigger] out@[j]).2 matches Some(g) ==> g@.len() <= 16),
        decreases wans@.len() - i,
    {
        let peers = &wans[i].underlay_targets;
        let ghost before = host_route_views(out@);
        let mut j: usize = 0;
        assert(before =~= before + peers@.take(0).map_values(
            |a: Ipv4Addr| (a, ifindex, gateway),
        ));
        while j < peers.len()
            invariant
                j <= peers@.len(),
                k < wans@.len(),
                gateway == v4_gateway(wans@[k as int].gateway),
                host_route_views(out@) == before + peers@.take(j as int).map_values(
                    |a: Ipv4Addr| (a, ifindex, gateway),
                ),
                forall|j: int|
                    0 <= j < out@.len() ==> ((#[trigger] out@[j]).2 matches Some(g) ==> g@.len()
                        <= 16),
            decreases peers@.len() - j,
        {
            let route = (peers[j], ifindex, octets_of(&wans[k].gateway));
            let ghost rv = host_route_view(route);
            let ghost mid = host_route_views(out@);
            out.push(route);
            j += 1;
            proof {
                assert(host_route_views(out@) =~= mid.push(rv));
                assert(host_route_views(out@) =~= before + peers@.take(j as int).map_values(
                    |a: Ipv4Addr| (a, ifindex, gateway),
                ));
            }
        }
        i += 1;
        proof {
            assert(peers@.take(j as int) =~= peers@);
            assert(wans@.take(i as int).drop_last() =~= wans@.take(i - 1));
            assert(wans@.take(i as int).last() == wans@[i - 1]);
        }
    }
    proof {
        assert(wans@.take(i as int) =~= wans@);
        let c = choose|k: int| is_exit(wans@, k);
        assert(is_exit(wans@, k as int));
        assert(is_exit(wans@, c));
        assert(c == k);
    }
    out
}

/// The ways out over a list of lines. A gateway of all zeros is none.
pub open spec fn v4_hops(wans: Seq<ActiveWanRoute>) -> Seq<HopView> {
    Seq::new(
        wans.len(),
        |i: int|
            HopView {
                ifindex: wans[i].ifindex,
                gateway: match wans[i].gateway {
                    Some(g) if g@ != seq![0u8, 0, 0, 0] => Some(g@),
                    _ => None,
                },
                weight: wans[i].weight,
            },
    )
}

/// The ways out over a list of lines. A gateway of all zeros is none.
pub open spec fn v6_hops(wans: Seq<ActiveWanRouteV6>) -> Seq<HopView> {
    Seq::new(
        wans.len(),
        |i: int|
            HopView {
                ifindex: wans[i].ifindex,
                gateway: match wans[i].gateway {
                    Some(g) if g@ != Seq::new(16, |i: int| 0u8) => Some(g@),
                    _ => None,
                },
                weight: wans[i].weight,
            },
    )
}

/// The ways out over a list of lines.
pub fn normalize_v4(wans: &[ActiveWanRoute]) -> (r: Vec<RouteNexthop>)
    ensures
        hop_views(r@) == v4_hops(wans@),
        r@.len() == wans@.len(),
        forall|i: int|
            0 <= i < r@.len() ==> (#[trigger] r@[i]).wf() && r@[i].ifindex == wans@[i].ifindex
                && r@[i].weight == wans@[i].weight && gateway_view(r@[i].gateway) == next_router(
                wans@[i].gateway,
            ),
{
    let mut out: Vec<RouteNexthop> = Vec::new();
    let mut i: usize = 0;
    while i < wans.len()
        invariant
            i <= wans@.len(),
            out@.len() == i,
            forall|j: int| 0 <= j < i ==> (#[trigger] out@[j])@ == v4_hops(wans@)[j],
            forall|j: int| 0 <= j < i ==> (#[trigger] out@[j]).wf(),
        decreases wans@.len() - i,
    {
        let w = &wans[i];
        let gateway = match &w.gateway {
            Some(g) => {
                if g.is_unspecified() {
                    None
                } else {
                    Some(copy_bytes(&g.octets()))
                }
            },
            None => None,
        };
        out.push(RouteNexthop { ifindex: w.ifindex, gateway, weight: w.weight });
        i += 1;
    }
    assert(hop_views(out@) =~= v4_hops(wans@));
    out
}

/// The ways out over a list of lines.
pub fn normalize_v6(wans: &[ActiveWanRouteV6]) -> (r: Vec<RouteNexthop>)
    ensures
        hop_views(r@) == v6_hops(wans@),
        r@.len() == wans@.len(),
        forall|i: int|
            0 <= i < r@.len() ==> (#[trigger] r@[i]).wf() && r@[i].ifindex == wans@[i].ifindex
                && r@[i].weight == wans@[i].weight,
{
    let mut out: Vec<RouteNexthop> = Vec::new();
    let mut i: usize = 0;
    while i < wans.len()
        invariant
            i <= wans@.len(),
            out@.len() == i,
            forall|j: int| 0 <= j < i ==> (#[trigger] out@[j])@ == v6_hops(wans@)[j],
            forall|j: int| 0 <= j < i ==> (#[trigger] out@[j]).wf(),
        decreases wans@.len() - i,
    {
        let w = &wans[i];
        let gateway = match &w.gateway {
            Some(g) => {
                if g.is_unspecified() {
                    None
                } else {
                    Some(copy_bytes(&g.octets()))
                }
            },
            None => None,
        };
        out.push(RouteNexthop { ifindex: w.ifindex, gateway, weight: w.weight });
        i += 1;
    }
    assert(hop_views(out@) =~= v6_hops(wans@));
    out
}

/// An operation that has not begun.
pub open spec fn fresh_run(family: u8, hops: Seq<HopView>, wanted: Seq<HostRouteView>) -> RunView {
    RunView {
        family,
        hops,
        wanted,
        members: Seq::empty(),
        phase: Phase::Finished,
        resilient: false,
        after: AfterTeardown::Standard,
    }
}

/// Whether that many lines fit in a message and there are identifiers for them.
pub open spec fn lines_fit(m: MgrView, lines: nat) -> bool {
    28 * lines + 128 <= usize::MAX && m.next_id + lines <= NH_GROUP_ID_V4
}

impl RouteManager {
    /// Starts to bring the IPv4 default route in line with the active lines. No
    /// line at all means that all of them are down.
    pub fn apply_default_routes(&mut self, active_wans: &[ActiveWanRoute]) -> (r: (ApplyRun, Step))
        requires
            old(self).wf(),
            lines_fit(old(self)@, active_wans@.len()),
        ensures
            reached(
                *final(self),
                r.0,
                r.1,
                enter_underlay_delete(
                    old(self)@,
                    fresh_run(AF_INET, v4_hops(active_wans@), underlay_plan(active_wans@)),
                    0,
                ),
            ),
    {
        let hops = normalize_v4(active_wans);
        assert(hops@.len() == hop_views(hops@).len());
        let wanted = plan_underlay_routes(active_wans);
        let mut run = ApplyRun {
            family: AF_INET,
            hops,
            wanted,
            members: Vec::new(),
            phase: Phase::Finished,
            resilient: false,
            after: AfterTeardown::Standard,
        };
        assert(run@.members =~= Seq::empty());
        let step = delete_underlay(self, &mut run, 0);
        (run, step)
    }

    /// Starts to bring the IPv6 default route in line with the active lines.
    pub fn apply_ipv6_default_routes(&mut self, active_wans: &[ActiveWanRouteV6]) -> (r: (
        ApplyRun,
        Step,
    ))
        requires
            old(self).wf(),
            lines_fit(old(self)@, active_wans@.len()),
        ensures
            reached(
                *final(self),
                r.0,
                r.1,
                enter_mode(
                    old(self)@,
                    fresh_run(AF_INET6, v6_hops(active_wans@), Seq::empty()),
                ),
            ),
    {
        let hops = normalize_v6(active_wans);
        assert(hops@.len() == hop_views(hops@).len());
        let mut run = ApplyRun {
            family: AF_INET6,
            hops,
            wanted: Vec::new(),
            members: Vec::new(),
            phase: Phase::Finished,
            resilient: false,
            after: AfterTeardown::Standard,
        };
        assert(run@.members =~= Seq::empty());
        assert(run@.wanted =~= Seq::empty());
        let step = apply_mode(self, &mut run);
        (run, step)
    }

    /// Goes on with an operation after what came of its last step.
    pub fn resume_apply(&mut self, run: &mut ApplyRun, ev: Event) -> (step: Step)
        requires
            old(run).wf(),
            phase_wf(old(self)@, old(run)@),
            ev is Routes == old(run).phase is LinksDown,
        ensures
            reached(*final(self), *final(run), step, next_state(old(self)@, old(run)@, ev)),
    {
        let reply = match ev {
            Event::Answer(r) => r,
            Event::Routes(_) => {
                return next_links_down(self, run, &ev);
            },
        };
        match run.phase {
            Phase::UnderlayDelete(i) => next_underlay_delete(self, run, i, reply),
            Phase::UnderlayInstall(i) => next_underlay_install(self, run, i, reply),
            Phase::Teardown(at) => next_teardown(self, run, at, reply),
            Phase::LinksDown | Phase::Finished => finish(self, run, Ok(())),
            Phase::LinksDownDelete => next_links_down_delete(self, run, reply),
            Phase::Standard => next_standard(self, run, reply),
            Phase::Switch => next_switch(self, run, reply),
            Phase::Member(i) => next_member(self, run, i, reply),
            Phase::Group => next_group(self, run, reply),
            Phase::Route => next_route(self, run, reply),
            Phase::Drop(i) => next_drop(self, run, i, reply),
        }
    }
}

} // verus!
