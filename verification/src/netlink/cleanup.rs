//! Taking out of the kernel what was put there: at the end, and what an earlier
//! run left behind.
use crate::addr::Ipv4Addr;
use crate::netlink::apply::{Step, StepView};
use crate::netlink::manager::{opt_view, probe_views, tear_next, tear_start, tear_wf,
    InstalledVariant, MgrView, ProbePath, RouteManager, TearAt, TearState};
use crate::netlink::probe_path::{self, enter_stale, fault_of, fault_option, first_of, Fault,
    ProbePhase, ProbeRun, ProbeRunView, ProbeState, Purpose};
use crate::netlink::reply::{absent, committed, is_absent_object, settle, NetlinkError};
use crate::netlink::request::{req_delete_host_route, req_delete_own_rule, req_delete_standard_route,
    req_dump};
use crate::netlink::route::{AF_INET, AF_INET6, PROBE_MAIN_ROUTE_METRIC, PROBE_RULE_PRIORITY_BASE,
    PROBE_SLOT_MAX, RT_TABLE_MAIN, UNDERLAY_ROUTE_METRIC};
use vstd::prelude::*;

verus! {

/// The manager after the default route of a family was asked to go: whatever the
/// answer, it no longer counts as ours.
pub open spec fn without_route(m: MgrView, family: u8) -> MgrView {
    m.bumped().with_variant(family, InstalledVariant::Absent)
}

/// How far the final clean-up has come.
#[derive(Debug, Clone, Copy, PartialEq, Eq, Structural)]
pub enum CleanPhase {
    Probes,
    TearV4(TearAt),
    TearV6(TearAt),
    DeleteV4,
    DeleteV6,
    /// The tunnel route at this place is being deleted.
    Underlay(usize),
    Finished,
}

/// The final clean-up under way. Probe paths go first, so that no rule points at
/// an empty table; then what there is of resilient default routes; then the
/// multipath default routes, but only those that were installed here; then the
/// host routes of tunnel peers.
pub struct CleanupRun {
    pub probes: ProbeRun,
    pub had_v4: bool,
    pub had_v6: bool,
    pub first_err: Fault,
    pub phase: CleanPhase,
}

pub ghost struct CleanView {
    pub probes: ProbeRunView,
    pub had_v4: bool,
    pub had_v6: bool,
    pub first_err: Fault,
    pub phase: CleanPhase,
}

impl View for CleanupRun {
    type V = CleanView;

    open spec fn view(&self) -> CleanView {
        CleanView {
            probes: self.probes@,
            had_v4: self.had_v4,
            had_v6: self.had_v6,
            first_err: self.first_err,
            phase: self.phase,
        }
    }
}

pub ghost struct CleanState {
    pub m: MgrView,
    pub run: CleanView,
    pub step: StepView,
}

/// Deletes the tunnel routes from the place `i` on; then the clean-up is over.
pub open spec fn enter_underlay(m: MgrView, run: CleanView, i: int) -> CleanState {
    if i < m.underlay.len() {
        CleanState {
            m: m.bumped(),
            run: CleanView { phase: CleanPhase::Underlay(i as usize), ..run },
            step: StepView::Send(
                req_delete_host_route(
                    m,
                    UNDERLAY_ROUTE_METRIC,
                    RT_TABLE_MAIN as u32,
                    m.underlay[i].0,
                    32,
                ),
            ),
        }
    } else {
        CleanState {
            m,
            run: CleanView { phase: CleanPhase::Finished, ..run },
            step: StepView::Done(fault_option(run.first_err)),
        }
    }
}

/// Deletes the IPv6 default route if it is ours.
pub open spec fn enter_delete_v6(m: MgrView, run: CleanView) -> CleanState {
    if run.had_v6 {
        CleanState {
            m: without_route(m, AF_INET6),
            run: CleanView { phase: CleanPhase::DeleteV6, ..run },
            step: StepView::Send(req_delete_standard_route(m, AF_INET6)),
        }
    } else {
        enter_underlay(m, run, 0)
    }
}

/// Deletes the IPv4 default route if it is ours.
pub open spec fn enter_delete_v4(m: MgrView, run: CleanView) -> CleanState {
    if run.had_v4 {
        CleanState {
            m: without_route(m, AF_INET),
            run: CleanView { phase: CleanPhase::DeleteV4, ..run },
            step: StepView::Send(req_delete_standard_route(m, AF_INET)),
        }
    } else {
        enter_delete_v6(m, run)
    }
}

pub open spec fn after_tear_v6(t: TearState, run: CleanView) -> CleanState {
    match t.msg {
        Some(msg) => CleanState {
            m: t.m,
            run: CleanView { phase: CleanPhase::TearV6(t.at), ..run },
            step: StepView::Send(msg),
        },
        None => enter_delete_v4(t.m, run),
    }
}

pub open spec fn after_tear_v4(t: TearState, run: CleanView) -> CleanState {
    match t.msg {
        Some(msg) => CleanState {
            m: t.m,
            run: CleanView { phase: CleanPhase::TearV4(t.at), ..run },
            step: StepView::Send(msg),
        },
        None => after_tear_v6(tear_start(t.m, AF_INET6), run),
    }
}

/// Trouble with the probe paths holds up nothing.
pub open spec fn after_probes(s: ProbeState, run: CleanView) -> CleanState {
    let run = CleanView { probes: s.run, phase: CleanPhase::Probes, ..run };
    match s.step {
        StepView::Done(_) => after_tear_v4(tear_start(s.m, AF_INET), run),
        step => CleanState { m: s.m, run, step },
    }
}

/// An operation that removes all probe paths.
pub open spec fn no_probes() -> ProbeRunView {
    ProbeRunView {
        wanted: Seq::empty(),
        first_err: Fault::Clear,
        purpose: Purpose::Stale,
        phase: ProbePhase::Finished,
    }
}

/// Starts the clean-up. A default route is ours if we installed a multipath one;
/// a resilient one goes with its group.
pub open spec fn clean_start(m: MgrView) -> CleanState {
    after_probes(
        enter_stale(m, no_probes(), 0),
        CleanView {
            probes: no_probes(),
            had_v4: m.v4 == InstalledVariant::Standard,
            had_v6: m.v6 == InstalledVariant::Standard,
            first_err: Fault::Clear,
            phase: CleanPhase::Probes,
        },
    )
}

/// Goes on with the clean-up after an answer. A tunnel route that could not be
/// deleted stays known.
pub open spec fn clean_next(m: MgrView, run: CleanView, reply: Result<(), NetlinkError>) -> CleanState {
    match run.phase {
        CleanPhase::Probes => after_probes(probe_path::next_state(m, run.probes, reply), run),
        CleanPhase::TearV4(at) => after_tear_v4(tear_next(m, AF_INET, at, reply), run),
        CleanPhase::TearV6(at) => after_tear_v6(tear_next(m, AF_INET6, at, reply), run),
        CleanPhase::DeleteV4 => enter_delete_v6(
            m,
            CleanView {
                first_err: first_of(run.first_err, fault_of(committed(true, reply))),
                ..run
            },
        ),
        CleanPhase::DeleteV6 => enter_underlay(
            m,
            CleanView {
                first_err: first_of(run.first_err, fault_of(committed(true, reply))),
                ..run
            },
            0,
        ),
        CleanPhase::Underlay(i) => if committed(true, reply) is Ok {
            enter_underlay(
                MgrView { underlay: m.underlay.remove(i as int), ..m },
                run,
                i as int,
            )
        } else {
            enter_underlay(m, run, i + 1)
        },
        CleanPhase::Finished => CleanState {
            m,
            run,
            step: StepView::Done(fault_option(run.first_err)),
        },
    }
}

pub open spec fn clean_wf(m: MgrView, run: CleanView) -> bool {
    &&& m.wf()
    &&& match run.phase {
        CleanPhase::Probes => probe_path::phase_wf(m, run.probes),
        CleanPhase::TearV4(at) => tear_wf(m, at),
        CleanPhase::TearV6(at) => tear_wf(m, at),
        CleanPhase::Underlay(i) => i < m.underlay.len(),
        _ => true,
    }
}

/// Whether manager, clean-up and step are those of a state, and can go on.
pub open spec fn reached(mgr: RouteManager, run: CleanupRun, step: Step, s: CleanState) -> bool {
    &&& mgr@ == s.m
    &&& run@ == s.run
    &&& step@ == s.step
    &&& clean_wf(mgr@, run@)
    &&& !(step is Query)
}

fn end_step(f: Fault) -> (step: Step)
    ensures
        step@ == StepView::Done(fault_option(f)),
        step is Done,
{
    match f {
        Fault::Clear => Step::Done(Ok(())),
        Fault::Error(e) => Step::Done(Err(e)),
    }
}

fn note_first(a: Fault, r: Result<(), NetlinkError>) -> (f: Fault)
    ensures
        f == first_of(a, fault_of(r)),
{
    match a {
        Fault::Error(_) => a,
        Fault::Clear => match r {
            Ok(()) => Fault::Clear,
            Err(e) => Fault::Error(e),
        },
    }
}

fn delete_underlay(mgr: &mut RouteManager, run: &mut CleanupRun, i: usize) -> (step: Step)
    requires
        old(mgr).wf(),
    ensures
        reached(*final(mgr), *final(run), step, enter_underlay(old(mgr)@, old(run)@, i as int)),
{
    if i < mgr.underlay_routes.len() {
        let dst = mgr.underlay_routes[i].0;
        assert(mgr@.underlay[i as int].0 == dst);
        let msg = mgr.delete_host_route(UNDERLAY_ROUTE_METRIC, RT_TABLE_MAIN as u32, dst, 32);
        run.phase = CleanPhase::Underlay(i);
        Step::Send(msg)
    } else {
        run.phase = CleanPhase::Finished;
        end_step(run.first_err)
    }
}

fn delete_v6(mgr: &mut RouteManager, run: &mut CleanupRun) -> (step: Step)
    requires
        old(mgr).wf(),
    ensures
        reached(*final(mgr), *final(run), step, enter_delete_v6(old(mgr)@, old(run)@)),
{
    if run.had_v6 {
        let msg = mgr.delete_ipv6_default_route();
        run.phase = CleanPhase::DeleteV6;
        Step::Send(msg)
    } else {
        delete_underlay(mgr, run, 0)
    }
}

fn delete_v4(mgr: &mut RouteManager, run: &mut CleanupRun) -> (step: Step)
    requires
        old(mgr).wf(),
    ensures
        reached(*final(mgr), *final(run), step, enter_delete_v4(old(mgr)@, old(run)@)),
{
    if run.had_v4 {
        let msg = mgr.delete_default_route();
        run.phase = CleanPhase::DeleteV4;
        Step::Send(msg)
    } else {
        delete_v6(mgr, run)
    }
}

fn go_on_v6(
    mgr: &mut RouteManager,
    run: &mut CleanupRun,
    t: (TearAt, Option<Vec<u8>>),
    Ghost(ts): Ghost<TearState>,
) -> (step: Step)
    requires
        old(mgr).wf(),
        old(mgr)@ == ts.m,
        t.0 == ts.at,
        opt_view(t.1) == ts.msg,
        tear_wf(ts.m, t.0),
    ensures
        reached(*final(mgr), *final(run), step, after_tear_v6(ts, old(run)@)),
{
    match t.1 {
        Some(msg) => {
            run.phase = CleanPhase::TearV6(t.0);
            Step::Send(msg)
        },
        None => delete_v4(mgr, run),
    }
}

fn go_on_v4(
    mgr: &mut RouteManager,
    run: &mut CleanupRun,
    t: (TearAt, Option<Vec<u8>>),
    Ghost(ts): Ghost<TearState>,
) -> (step: Step)
    requires
        old(mgr).wf(),
        old(mgr)@ == ts.m,
        t.0 == ts.at,
        opt_view(t.1) == ts.msg,
        tear_wf(ts.m, t.0),
    ensures
        reached(*final(mgr), *final(run), step, after_tear_v4(ts, old(run)@)),
{
    match t.1 {
        Some(msg) => {
            run.phase = CleanPhase::TearV4(t.0);
            Step::Send(msg)
        },
        None => {
            let ghost ts6 = tear_start(mgr@, AF_INET6);
            let t6 = mgr.teardown_resilient(AF_INET6);
            go_on_v6(mgr, run, t6, Ghost(ts6))
        },
    }
}

fn go_on_probes(
    mgr: &mut RouteManager,
    run: &mut CleanupRun,
    step: Step,
    Ghost(s): Ghost<ProbeState>,
) -> (r: Step)
    requires
        probe_path::reached(*old(mgr), old(run).probes, step, s),
    ensures
        reached(*final(mgr), *final(run), r, after_probes(s, old(run)@)),
{
    run.phase = CleanPhase::Probes;
    match step {
        Step::Done(_) => {
            let ghost ts = tear_start(mgr@, AF_INET);
            let t = mgr.teardown_resilient(AF_INET);
            go_on_v4(mgr, run, t, Ghost(ts))
        },
        Step::Send(msg) => Step::Send(msg),
        Step::Query(msg) => Step::Query(msg),
    }
}

impl RouteManager {
    /// Asks for the IPv4 default route with our metric to go.
    pub fn delete_default_route(&mut self) -> (r: Vec<u8>)
        ensures
            r@ == req_delete_standard_route(old(self)@, AF_INET),
            final(self)@ == without_route(old(self)@, AF_INET),
            old(self).wf() ==> final(self).wf(),
    {
        let msg = self.delete_standard_route(AF_INET);
        self.set_installed_variant(AF_INET, InstalledVariant::Absent);
        msg
    }

    /// Asks for the IPv6 default route with our metric to go.
    pub fn delete_ipv6_default_route(&mut self) -> (r: Vec<u8>)
        ensures
            r@ == req_delete_standard_route(old(self)@, AF_INET6),
            final(self)@ == without_route(old(self)@, AF_INET6),
            old(self).wf() ==> final(self).wf(),
    {
        let msg = self.delete_standard_route(AF_INET6);
        self.set_installed_variant(AF_INET6, InstalledVariant::Absent);
        msg
    }

    /// Starts to take everything out of the kernel that was put there.
    pub fn cleanup_routes(&mut self) -> (r: (CleanupRun, Step))
        requires
            old(self).wf(),
        ensures
            reached(*final(self), r.0, r.1, clean_start(old(self)@)),
    {
        let had_v4 = self.installed_v4 == InstalledVariant::Standard;
        let had_v6 = self.installed_v6 == InstalledVariant::Standard;
        let none: Vec<ProbePath> = Vec::new();
        assert(probe_views(none@) =~= Seq::empty());
        let ghost s = enter_stale(self@, no_probes(), 0);
        let (probes, step) = self.set_probe_paths(none.as_slice());
        let mut run = CleanupRun {
            probes,
            had_v4,
            had_v6,
            first_err: Fault::Clear,
            phase: CleanPhase::Probes,
        };
        let step = go_on_probes(self, &mut run, step, Ghost(s));
        (run, step)
    }

    /// Goes on with the clean-up after the answer to its last request.
    pub fn resume_cleanup(&mut self, run: &mut CleanupRun, reply: Result<(), NetlinkError>) -> (step:
        Step)
        requires
            clean_wf(old(self)@, old(run)@),
        ensures
            reached(*final(self), *final(run), step, clean_next(old(self)@, old(run)@, reply)),
    {
        match run.phase {
            CleanPhase::Probes => {
                let ghost s = probe_path::next_state(self@, run.probes@, reply);
                let step = self.resume_probe_paths(&mut run.probes, reply);
                go_on_probes(self, run, step, Ghost(s))
            },
            CleanPhase::TearV4(at) => {
                let ghost ts = tear_next(self@, AF_INET, at, reply);
                let t = self.teardown_next(AF_INET, at, reply);
                go_on_v4(self, run, t, Ghost(ts))
            },
            CleanPhase::TearV6(at) => {
                let ghost ts = tear_next(self@, AF_INET6, at, reply);
                let t = self.teardown_next(AF_INET6, at, reply);
                go_on_v6(self, run, t, Ghost(ts))
            },
            CleanPhase::DeleteV4 => {
                run.first_err = note_first(run.first_err, settle(true, reply));
                delete_v6(self, run)
            },
            CleanPhase::DeleteV6 => {
                run.first_err = note_first(run.first_err, settle(true, reply));
                delete_underlay(self, run, 0)
            },
            CleanPhase::Underlay(i) => {
                if settle(true, reply).is_ok() {
                    self.forget_underlay(i);
                    delete_underlay(self, run, i)
                } else {
                    assert(i < self.underlay_routes.len());
                    delete_underlay(self, run, i + 1)
                }
            },
            CleanPhase::Finished => end_step(run.first_err),
        }
    }
}

/// Sweeping the reserved range of rule priorities.
#[derive(Debug, Clone, Copy, PartialEq, Eq, Structural)]
pub struct RuleSweep {
    /// The slot whose rule is being deleted.
    pub slot: u32,
    /// How many rules were there.
    pub removed: u32,
    pub first_err: Fault,
}

/// Deletes the rule of the slot, or ends after the last slot.
pub open spec fn sweep_slot(m: MgrView, s: RuleSweep) -> (MgrView, StepView) {
    if s.slot < PROBE_SLOT_MAX {
        (
            m.bumped(),
            StepView::Send(
                req_delete_own_rule(m, (PROBE_RULE_PRIORITY_BASE + s.slot) as u32),
            ),
        )
    } else {
        (m, StepView::Done(fault_option(s.first_err)))
    }
}

/// The sweep after an answer: a rule that is not there is no error, and no error
/// ends the sweep.
pub open spec fn swept(s: RuleSweep, reply: Result<(), NetlinkError>) -> RuleSweep {
    RuleSweep {
        slot: (s.slot + 1) as u32,
        removed: if reply is Ok {
            (s.removed + 1) as u32
        } else {
            s.removed
        },
        first_err: match reply {
            Err(e) if !absent(e) => first_of(s.first_err, Fault::Error(e)),
            _ => s.first_err,
        },
    }
}

/// What a received list of host routes, or an answer, means to a sweep.
pub enum HostEvent {
    /// The host routes with the metric asked for: table, destination, prefix length.
    Routes(Result<Vec<(u32, Ipv4Addr, u8)>, NetlinkError>),
    Answer(Result<(), NetlinkError>),
}

/// Sweeping the host routes that carry one of our metrics.
pub struct HostSweep {
    /// The metric that is being swept.
    pub metric: u32,
    pub victims: Vec<(u32, Ipv4Addr, u8)>,
    /// The victim that is being deleted, or none while the list is asked for.
    pub at: Option<usize>,
    /// How many were deleted.
    pub removed: usize,
}

pub ghost struct HostSweepView {
    pub metric: u32,
    pub victims: Seq<(u32, Ipv4Addr, u8)>,
    pub at: Option<usize>,
    pub removed: usize,
}

impl View for HostSweep {
    type V = HostSweepView;

    open spec fn view(&self) -> HostSweepView {
        HostSweepView {
            metric: self.metric,
            victims: self.victims@,
            at: self.at,
            removed: self.removed,
        }
    }
}

pub ghost struct HostSweepState {
    pub m: MgrView,
    pub sweep: HostSweepView,
    pub step: StepView,
}

/// Asks for the host routes of the main table with a metric.
pub open spec fn ask_hosts(m: MgrView, s: HostSweepView, metric: u32) -> HostSweepState {
    HostSweepState {
        m: m.bumped(),
        sweep: HostSweepView { metric, victims: Seq::empty(), at: None, removed: s.removed },
        step: StepView::Query(req_dump(m, AF_INET)),
    }
}

/// Deletes the victim `i`; after the last, turns to the tunnels' metric, or ends.
pub open spec fn delete_victim(m: MgrView, s: HostSweepView, i: int) -> HostSweepState {
    if i < s.victims.len() {
        let v = s.victims[i];
        HostSweepState {
            m: m.bumped(),
            sweep: HostSweepView { at: Some(i as usize), ..s },
            step: StepView::Send(req_delete_host_route(m, s.metric, v.0, v.1, v.2)),
        }
    } else if s.metric == PROBE_MAIN_ROUTE_METRIC {
        ask_hosts(m, s, UNDERLAY_ROUTE_METRIC)
    } else {
        HostSweepState { m, sweep: s, step: StepView::Done(None) }
    }
}

/// The sweep of host routes after an event. A list that cannot be had ends it; a
/// route that cannot be deleted does not. The count stops at the greatest number.
pub open spec fn host_sweep_next(m: MgrView, s: HostSweepView, ev: HostEvent) -> HostSweepState {
    match ev {
        HostEvent::Routes(Ok(v)) => delete_victim(m, HostSweepView { victims: v@, ..s }, 0),
        HostEvent::Routes(Err(e)) => HostSweepState { m, sweep: s, step: StepView::Done(Some(e)) },
        HostEvent::Answer(reply) => match s.at {
            Some(i) => delete_victim(
                m,
                HostSweepView {
                    removed: if committed(true, reply) is Ok && s.removed < usize::MAX {
                        (s.removed + 1) as usize
                    } else {
                        s.removed
                    },
                    ..s
                },
                i + 1,
            ),
            None => HostSweepState { m, sweep: s, step: StepView::Done(None) },
        },
    }
}

impl RouteManager {
    fn sweep_step(&mut self, s: &RuleSweep) -> (step: Step)
        requires
            s.slot <= PROBE_SLOT_MAX,
        ensures
            (final(self)@, step@) == sweep_slot(old(self)@, *s),
            old(self).wf() ==> final(self).wf(),
    {
        if s.slot < PROBE_SLOT_MAX {
            Step::Send(self.delete_own_rule_by_priority(PROBE_RULE_PRIORITY_BASE + s.slot))
        } else {
            end_step(s.first_err)
        }
    }

    /// Starts to delete the rules that an earlier run left in the reserved range.
    /// Only rules with our origin go, whoever else uses that range.
    pub fn sweep_probe_paths(&mut self) -> (r: (RuleSweep, Step))
        ensures
            r.0 == (RuleSweep { slot: 0, removed: 0, first_err: Fault::Clear }),
            (final(self)@, r.1@) == sweep_slot(old(self)@, r.0),
            old(self).wf() ==> final(self).wf(),
    {
        let s = RuleSweep { slot: 0, removed: 0, first_err: Fault::Clear };
        let step = self.sweep_step(&s);
        (s, step)
    }

    /// Goes on with a sweep of rules after the answer to its last request.
    pub fn resume_rule_sweep(&mut self, s: &mut RuleSweep, reply: Result<(), NetlinkError>) -> (step:
        Step)
        requires
            old(s).slot < PROBE_SLOT_MAX,
            old(s).removed <= old(s).slot,
        ensures
            *final(s) == swept(*old(s), reply),
            final(s).removed <= final(s).slot,
            (final(self)@, step@) == sweep_slot(old(self)@, *final(s)),
            old(self).wf() ==> final(self).wf(),
    {
        match reply {
            Ok(()) => {
                s.removed = s.removed + 1;
            },
            Err(e) => {
                if !is_absent_object(&e) {
                    if let Fault::Clear = s.first_err {
                        s.first_err = Fault::Error(e);
                    }
                }
            },
        }
        s.slot = s.slot + 1;
        self.sweep_step(s)
    }

    fn sweep_victim(&mut self, s: &mut HostSweep, i: usize) -> (step: Step)
        requires
            i <= old(s).victims@.len(),
        ensures
            ({
                let t = delete_victim(old(self)@, old(s)@, i as int);
                final(self)@ == t.m && final(s)@ == t.sweep && step@ == t.step
            }),
            old(self).wf() ==> final(self).wf(),
            step is Send ==> final(s).at == Some(i) && i < final(s).victims@.len(),
    {
        if i < s.victims.len() {
            let (table, dst, dst_len) = s.victims[i];
            let msg = self.delete_host_route(s.metric, table, dst, dst_len);
            s.at = Some(i);
            Step::Send(msg)
        } else if s.metric == PROBE_MAIN_ROUTE_METRIC {
            s.metric = UNDERLAY_ROUTE_METRIC;
            s.victims = Vec::new();
            s.at = None;
            assert(s.victims@ =~= Seq::empty());
            Step::Query(self.dump_request(AF_INET))
        } else {
            Step::Done(Ok(()))
        }
    }

    /// Starts to delete all host routes of the main table that carry one of our
    /// metrics, whether their destination is still configured or not.
    pub fn sweep_own_probe_host_routes(&mut self) -> (r: (HostSweep, Step))
        ensures
            ({
                let t = ask_hosts(
                    old(self)@,
                    HostSweepView {
                        metric: PROBE_MAIN_ROUTE_METRIC,
                        victims: Seq::empty(),
                        at: None,
                        removed: 0,
                    },
                    PROBE_MAIN_ROUTE_METRIC,
                );
                final(self)@ == t.m && r.0@ == t.sweep && r.1@ == t.step
            }),
            old(self).wf() ==> final(self).wf(),
    {
        let s = HostSweep {
            metric: PROBE_MAIN_ROUTE_METRIC,
            victims: Vec::new(),
            at: None,
            removed: 0,
        };
        assert(s.victims@ =~= Seq::empty());
        let msg = self.dump_request(AF_INET);
        (s, Step::Query(msg))
    }

    /// Goes on with a sweep of host routes after what came of its last step.
    pub fn resume_host_sweep(&mut self, s: &mut HostSweep, ev: HostEvent) -> (step: Step)
        requires
            ev is Answer ==> (old(s).at matches Some(i) ==> i < old(s).victims@.len()),
        ensures
            ({
                let t = host_sweep_next(old(self)@, old(s)@, ev);
                final(self)@ == t.m && final(s)@ == t.sweep && step@ == t.step
            }),
            old(self).wf() ==> final(self).wf(),
            step is Send ==> (final(s).at matches Some(i) ==> i < final(s).victims@.len()),
    {
        match ev {
            HostEvent::Routes(Ok(v)) => {
                s.victims = v;
                self.sweep_victim(s, 0)
            },
            HostEvent::Routes(Err(e)) => Step::Done(Err(e)),
            HostEvent::Answer(reply) => {
                let i: usize = match s.at {
                    Some(i) => i,
                    None => return Step::Done(Ok(())),
                };
                if settle(true, reply).is_ok() && s.removed < usize::MAX {
                    s.removed = s.removed + 1;
                }
                assert(i < s.victims.len());
                self.sweep_victim(s, i + 1)
            },
        }
    }
}

/// The targets of a list of paths, in their order.
pub open spec fn all_targets(paths: Seq<ProbePath>) -> Seq<Ipv4Addr>
    decreases paths.len(),
{
    if paths.len() == 0 {
        Seq::empty()
    } else {
        all_targets(paths.drop_last()) + paths.last().targets@
    }
}

/// The manager after `n` more requests.
pub open spec fn bumped_by(m: MgrView, n: nat) -> MgrView
    decreases n,
{
    if n == 0 {
        m
    } else {
        bumped_by(m, (n - 1) as nat).bumped()
    }
}

impl RouteManager {
    fn clear_targets(&mut self, targets: &Vec<Ipv4Addr>, out: &mut Vec<Vec<u8>>)
        ensures
            final(self)@ == bumped_by(old(self)@, targets@.len()),
            old(self).wf() ==> final(self).wf(),
            final(out)@.len() == old(out)@.len() + targets@.len(),
            forall|i: int| 0 <= i < old(out)@.len() ==> final(out)@[i] == #[trigger] old(out)@[i],
            forall|i: int|
                0 <= i < targets@.len() ==> (#[trigger] final(out)@[old(out)@.len() + i])@
                    == req_delete_host_route(
                    bumped_by(old(self)@, i as nat),
                    PROBE_MAIN_ROUTE_METRIC,
                    RT_TABLE_MAIN as u32,
                    targets@[i],
                    32,
                ),
    {
        let ghost m = self@;
        let ghost n = out@.len();
        let mut i: usize = 0;
        while i < targets.len()
            invariant
                i <= targets@.len(),
                m == old(self)@,
                n == old(out)@.len(),
                self@ == bumped_by(m, i as nat),
                old(self).wf() ==> self.wf(),
                out@.len() == n + i,
                forall|j: int| 0 <= j < n ==> out@[j] == #[trigger] old(out)@[j],
                forall|j: int|
                    0 <= j < i ==> (#[trigger] out@[n + j])@ == req_delete_host_route(
                        bumped_by(m, j as nat),
                        PROBE_MAIN_ROUTE_METRIC,
                        RT_TABLE_MAIN as u32,
                        targets@[j],
                        32,
                    ),
            decreases targets@.len() - i,
        {
            let msg = self.delete_host_route(
                PROBE_MAIN_ROUTE_METRIC,
                RT_TABLE_MAIN as u32,
                targets[i],
                32,
            );
            out.push(msg);
            i += 1;
        }
    }

    /// The requests that delete the host routes of all targets of some paths,
    /// whether they are there or not. Each is sent without regard to the others.
    pub fn clear_probe_host_routes(&mut self, paths: &[ProbePath]) -> (r: Vec<Vec<u8>>)
        ensures
            final(self)@ == bumped_by(old(self)@, all_targets(paths@).len()),
            old(self).wf() ==> final(self).wf(),
            r@.len() == all_targets(paths@).len(),
            forall|i: int|
                0 <= i < r@.len() ==> (#[trigger] r@[i])@ == req_delete_host_route(
                    bumped_by(old(self)@, i as nat),
                    PROBE_MAIN_ROUTE_METRIC,
                    RT_TABLE_MAIN as u32,
                    all_targets(paths@)[i],
                    32,
                ),
    {
        let ghost m = self@;
        let mut out: Vec<Vec<u8>> = Vec::new();
        let mut k: usize = 0;
        while k < paths.len()
            invariant
                k <= paths@.len(),
                m == old(self)@,
                self@ == bumped_by(m, all_targets(paths@.take(k as int)).len()),
                old(self).wf() ==> self.wf(),
                out@.len() == all_targets(paths@.take(k as int)).len(),
                forall|i: int|
                    0 <= i < out@.len() ==> (#[trigger] out@[i])@ == req_delete_host_route(
                        bumped_by(m, i as nat),
                        PROBE_MAIN_ROUTE_METRIC,
                        RT_TABLE_MAIN as u32,
                        all_targets(paths@.take(k as int))[i],
                        32,
                    ),
            decreases paths@.len() - k,
        {
            let ghost before = out@;
            let ghost m1 = self@;
            let targets = &paths[k].targets;
            self.clear_targets(targets, &mut out);
            k += 1;
            proof {
                let done = paths@.take(k as int);
                assert(done.drop_last() =~= paths@.take(k - 1));
                let n = before.len();
                lemma_bumped_by(m, n, targets@.len());
                assert forall|i: int| 0 <= i < out@.len() implies (#[trigger] out@[i])@
                    == req_delete_host_route(
                    bumped_by(m, i as nat),
                    PROBE_MAIN_ROUTE_METRIC,
                    RT_TABLE_MAIN as u32,
                    all_targets(done)[i],
                    32,
                ) by {
                    if i < n {
                        assert(out@[i] == before[i]);
                    } else {
                        assert(out@[n + (i - n)]@ == req_delete_host_route(
                            bumped_by(m1, (i - n) as nat),
                            PROBE_MAIN_ROUTE_METRIC,
                            RT_TABLE_MAIN as u32,
                            targets@[i - n],
                            32,
                        ));
                        lemma_bumped_by(m, n, (i - n) as nat);
                    }
                }
            }
        }
        assert(paths@.take(k as int) =~= paths@);
        out
    }
}

proof fn lemma_bumped_by(m: MgrView, a: nat, b: nat)
    ensures
        bumped_by(bumped_by(m, a), b) == bumped_by(m, a + b),
    decreases b,
{
    if b > 0 {
        lemma_bumped_by(m, a, (b - 1) as nat);
    }
}

} // verus!
