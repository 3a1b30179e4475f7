//! Bringing the probe paths in the kernel in line with the wanted ones.
//!
//! Paths that are no longer wanted are removed, then every wanted path is put in
//! place again, whether it is known to be there or not: rules and routes may have
//! been changed from outside. A path that has changed is removed first.
use crate::addr::Ipv4Addr;
use crate::netlink::apply::{Step, StepView};
use crate::netlink::manager::{probe_views, probes_wf, MgrView, ProbePath, ProbeView, RouteManager};
use crate::netlink::reply::{committed, rule_committed, settle, settle_rule, NetlinkError};
use crate::netlink::request::{name_fits, req_delete_host_route, req_delete_probe_route,
    req_delete_probe_rule, req_host_route, req_probe_route, req_probe_rule, v4_gateway};
use crate::netlink::route::{PROBE_MAIN_ROUTE_METRIC, RT_TABLE_MAIN};
use vstd::prelude::*;

verus! {

/// The request that is under way. A first number is a place in the list of known
/// paths for a removal, in the list of wanted paths for an installation; a second
/// one is a place in the path's list of targets.
#[derive(Debug, Clone, Copy, PartialEq, Eq, Structural)]
pub enum ProbePhase {
    RemoveHost(usize, usize),
    RemoveRoute(usize),
    /// With the error, if any, of the removal of the route.
    RemoveRule(usize, Fault),
    InstallRule(usize),
    InstallRoute(usize),
    InstallHost(usize, usize),
    Finished,
}

/// An error, or none.
#[derive(Debug, Clone, Copy, PartialEq, Eq, Structural)]
pub enum Fault {
    Clear,
    Error(NetlinkError),
}

/// Why a path is removed.
#[derive(Debug, Clone, Copy, PartialEq, Eq, Structural)]
pub enum Purpose {
    /// It is not wanted any more.
    Stale,
    /// The wanted path at this place differs from it.
    Update(usize),
}

/// An operation under way.
pub struct ProbeRun {
    pub wanted: Vec<ProbePath>,
    pub first_err: Fault,
    pub purpose: Purpose,
    pub phase: ProbePhase,
}

pub ghost struct ProbeRunView {
    pub wanted: Seq<ProbeView>,
    pub first_err: Fault,
    pub purpose: Purpose,
    pub phase: ProbePhase,
}

impl View for ProbeRun {
    type V = ProbeRunView;

    open spec fn view(&self) -> ProbeRunView {
        ProbeRunView {
            wanted: probe_views(self.wanted@),
            first_err: self.first_err,
            purpose: self.purpose,
            phase: self.phase,
        }
    }
}

pub ghost struct ProbeState {
    pub m: MgrView,
    pub run: ProbeRunView,
    pub step: StepView,
}

/// The error of a result.
pub open spec fn fault_of(r: Result<(), NetlinkError>) -> Fault {
    match r {
        Ok(_) => Fault::Clear,
        Err(e) => Fault::Error(e),
    }
}

/// The error as an option.
pub open spec fn fault_option(f: Fault) -> Option<NetlinkError> {
    match f {
        Fault::Clear => None,
        Fault::Error(e) => Some(e),
    }
}

/// Of two errors, the first.
pub open spec fn first_of(a: Fault, b: Fault) -> Fault {
    if a is Error {
        a
    } else {
        b
    }
}

impl ProbeRunView {
    pub open spec fn at(self, phase: ProbePhase) -> ProbeRunView {
        ProbeRunView { phase, ..self }
    }

    pub open spec fn noting(self, f: Fault) -> ProbeRunView {
        ProbeRunView { first_err: first_of(self.first_err, f), ..self }
    }
}

pub open spec fn sending(m: MgrView, run: ProbeRunView, phase: ProbePhase, msg: Seq<u8>) -> ProbeState {
    ProbeState { m: m.bumped(), run: run.at(phase), step: StepView::Send(msg) }
}

/// The place of the path with that interface name; the length of the list if
/// there is none.
pub open spec fn find_name(list: Seq<ProbeView>, name: Seq<char>, from: int) -> int
    decreases list.len() - from,
{
    if from >= list.len() {
        list.len() as int
    } else if list[from].ifname == name {
        from
    } else {
        find_name(list, name, from + 1)
    }
}

/// The first path from `from` on whose name is not wanted.
pub open spec fn next_unwanted(list: Seq<ProbeView>, wanted: Seq<ProbeView>, from: int) -> int
    decreases list.len() - from,
{
    if from >= list.len() {
        list.len() as int
    } else if find_name(wanted, list[from].ifname, 0) >= wanted.len() {
        from
    } else {
        next_unwanted(list, wanted, from + 1)
    }
}

/// The list with a path in place of the one with the same name, or at the end.
pub open spec fn upsert(list: Seq<ProbeView>, p: ProbeView) -> Seq<ProbeView> {
    let k = find_name(list, p.ifname, 0);
    if k < list.len() {
        list.update(k, p)
    } else {
        list.push(p)
    }
}

/// Starts to put the wanted path `i` in place, with its rule.
pub open spec fn enter_install(m: MgrView, run: ProbeRunView, i: int) -> ProbeState {
    sending(
        m,
        run,
        ProbePhase::InstallRule(i as usize),
        req_probe_rule(m, run.wanted[i]),
    )
}

/// Removes the host route of the target `j` of the known path `p`, or the route
/// in the path's table once no target is left.
pub open spec fn enter_remove(m: MgrView, run: ProbeRunView, p: int, j: int) -> ProbeState {
    let path = m.probes[p];
    if j < path.main_route_targets.len() {
        sending(
            m,
            run,
            ProbePhase::RemoveHost(p as usize, j as usize),
            req_delete_host_route(
                m,
                PROBE_MAIN_ROUTE_METRIC,
                RT_TABLE_MAIN as u32,
                path.main_route_targets[j],
                32,
            ),
        )
    } else {
        sending(m, run, ProbePhase::RemoveRoute(p as usize), req_delete_probe_route(m, path))
    }
}

/// Turns to the wanted path `i`; the operation ends after the last.
pub open spec fn enter_wanted(m: MgrView, run: ProbeRunView, i: int) -> ProbeState {
    if i < run.wanted.len() {
        let k = find_name(m.probes, run.wanted[i].ifname, 0);
        if k < m.probes.len() && m.probes[k] != run.wanted[i] {
            enter_remove(m, ProbeRunView { purpose: Purpose::Update(i as usize), ..run }, k, 0)
        } else {
            enter_install(m, run, i)
        }
    } else {
        ProbeState {
            m,
            run: run.at(ProbePhase::Finished),
            step: StepView::Done(fault_option(run.first_err)),
        }
    }
}

/// Removes the paths that are no longer wanted, from the place `from` on.
pub open spec fn enter_stale(m: MgrView, run: ProbeRunView, from: int) -> ProbeState {
    let p = next_unwanted(m.probes, run.wanted, from);
    if p < m.probes.len() {
        enter_remove(m, ProbeRunView { purpose: Purpose::Stale, ..run }, p, 0)
    } else {
        enter_wanted(m, run, 0)
    }
}

/// The removal of the known path `p` is over. A path that could not be removed
/// stays known, and is not replaced.
pub open spec fn removed(m: MgrView, run: ProbeRunView, p: int, f: Fault) -> ProbeState {
    match f {
        Fault::Clear => {
            let m = MgrView { probes: m.probes.remove(p), ..m };
            match run.purpose {
                Purpose::Stale => enter_stale(m, run, p),
                Purpose::Update(i) => enter_install(m, run, i as int),
            }
        },
        Fault::Error(_) => match run.purpose {
            Purpose::Stale => enter_stale(m, run.noting(f), p + 1),
            Purpose::Update(i) => enter_wanted(m, run.noting(f), i + 1),
        },
    }
}

/// Makes the host route of the target `j` of the wanted path `i`; once no target
/// is left, the path is in place.
pub open spec fn enter_host(m: MgrView, run: ProbeRunView, i: int, j: int) -> ProbeState {
    let path = run.wanted[i];
    if j < path.main_route_targets.len() {
        sending(
            m,
            run,
            ProbePhase::InstallHost(i as usize, j as usize),
            req_host_route(
                m,
                PROBE_MAIN_ROUTE_METRIC,
                path.main_route_targets[j],
                path.ifindex,
                v4_gateway(path.gateway),
            ),
        )
    } else {
        enter_wanted(MgrView { probes: upsert(m.probes, path), ..m }, run, i + 1)
    }
}

/// Goes on after an answer. The first error is kept; a failure ends the work on
/// its path, not the operation. Host routes are removed without regard to errors.
pub open spec fn next_state(
    m: MgrView,
    run: ProbeRunView,
    reply: Result<(), NetlinkError>,
) -> ProbeState {
    match run.phase {
        ProbePhase::RemoveHost(p, j) => enter_remove(m, run, p as int, j + 1),
        ProbePhase::RemoveRoute(p) => sending(
            m,
            run,
            ProbePhase::RemoveRule(p, fault_of(committed(true, reply))),
            req_delete_probe_rule(m, m.probes[p as int]),
        ),
        ProbePhase::RemoveRule(p, f) => removed(
            m,
            run,
            p as int,
            first_of(f, fault_of(rule_committed(true, reply))),
        ),
        ProbePhase::InstallRule(i) => if rule_committed(false, reply) is Ok {
            sending(
                m,
                run,
                ProbePhase::InstallRoute(i),
                req_probe_route(m, run.wanted[i as int]),
            )
        } else {
            enter_wanted(m, run.noting(fault_of(rule_committed(false, reply))), i + 1)
        },
        ProbePhase::InstallRoute(i) => if reply is Ok {
            enter_host(m, run, i as int, 0)
        } else {
            enter_wanted(m, run.noting(fault_of(reply)), i + 1)
        },
        ProbePhase::InstallHost(i, j) => if reply is Ok {
            enter_host(m, run, i as int, j + 1)
        } else {
            enter_wanted(m, run.noting(fault_of(reply)), i + 1)
        },
        ProbePhase::Finished => ProbeState {
            m,
            run,
            step: StepView::Done(fault_option(run.first_err)),
        },
    }
}

/// Whether the places that an operation holds are places.
pub open spec fn phase_wf(m: MgrView, run: ProbeRunView) -> bool {
    &&& m.wf()
    &&& forall|i: int| 0 <= i < run.wanted.len() ==> name_fits((#[trigger] run.wanted[i]).ifname)
    &&& match run.phase {
        ProbePhase::RemoveHost(p, j) => p < m.probes.len() && j
            < m.probes[p as int].main_route_targets.len(),
        ProbePhase::RemoveRoute(p) => p < m.probes.len(),
        ProbePhase::RemoveRule(p, _) => p < m.probes.len(),
        ProbePhase::InstallRule(i) => i < run.wanted.len(),
        ProbePhase::InstallRoute(i) => i < run.wanted.len(),
        ProbePhase::InstallHost(i, j) => i < run.wanted.len() && j
            < run.wanted[i as int].main_route_targets.len(),
        ProbePhase::Finished => true,
    }
    &&& run.purpose matches Purpose::Update(i) ==> i < run.wanted.len()
}

/// Whether manager, operation and step are those of a state, and can go on.
pub open spec fn reached(mgr: RouteManager, run: ProbeRun, step: Step, s: ProbeState) -> bool {
    &&& mgr@ == s.m
    &&& run@ == s.run
    &&& step@ == s.step
    &&& phase_wf(mgr@, run@)
    &&& !(step is Query)
    &&& (step is Done) == (run.phase is Finished)
}

fn addrs_equal(a: &Vec<Ipv4Addr>, b: &Vec<Ipv4Addr>) -> (r: bool)
    ensures
        r == (a@ == b@),
{
    if a.len() != b.len() {
        return false;
    }
    let mut i: usize = 0;
    while i < a.len()
        invariant
            i <= a@.len(),
            a@.len() == b@.len(),
            forall|j: int| 0 <= j < i ==> a@[j] == b@[j],
        decreases a@.len() - i,
    {
        if a[i] != b[i] {
            return false;
        }
        i += 1;
    }
    assert(a@ =~= b@);
    true
}

/// A copy of a list of addresses.
pub fn copy_addrs(a: &Vec<Ipv4Addr>) -> (r: Vec<Ipv4Addr>)
    ensures
        r@ == a@,
{
    let mut r: Vec<Ipv4Addr> = Vec::new();
    let mut i: usize = 0;
    while i < a.len()
        invariant
            i <= a@.len(),
            r@ == a@.take(i as int),
        decreases a@.len() - i,
    {
        r.push(a[i]);
        i += 1;
        assert(r@ =~= a@.take(i as int));
    }
    assert(r@ =~= a@);
    r
}

fn gateway_equal(a: &Option<Ipv4Addr>, b: &Option<Ipv4Addr>) -> (r: bool)
    ensures
        r == (*a == *b),
{
    match (a, b) {
        (Some(x), Some(y)) => *x == *y,
        (None, None) => true,
        _ => false,
    }
}

impl ProbePath {
    /// Whether two paths are the same.
    pub fn same(&self, other: &ProbePath) -> (r: bool)
        ensures
            r == (self@ == other@),
    {
        self.ifname == other.ifname && self.ifindex == other.ifindex && gateway_equal(
            &self.gateway,
            &other.gateway,
        ) && addrs_equal(&self.targets, &other.targets) && self.table == other.table
            && self.priority == other.priority && addrs_equal(
            &self.main_route_targets,
            &other.main_route_targets,
        )
    }

    /// A copy of the path.
    pub fn copy(&self) -> (r: ProbePath)
        ensures
            r@ == self@,
    {
        ProbePath {
            ifname: self.ifname.clone(),
            ifindex: self.ifindex,
            gateway: self.gateway,
            targets: copy_addrs(&self.targets),
            table: self.table,
            priority: self.priority,
            main_route_targets: copy_addrs(&self.main_route_targets),
        }
    }
}

/// A copy of a list of paths.
pub fn copy_paths(a: &[ProbePath]) -> (r: Vec<ProbePath>)
    ensures
        probe_views(r@) == probe_views(a@),
{
    let mut r: Vec<ProbePath> = Vec::new();
    let mut i: usize = 0;
    while i < a.len()
        invariant
            i <= a@.len(),
            r@.len() == i,
            forall|j: int| 0 <= j < i ==> (#[trigger] r@[j])@ == a@[j]@,
        decreases a@.len() - i,
    {
        r.push(a[i].copy());
        i += 1;
    }
    assert(probe_views(r@) =~= probe_views(a@));
    r
}

/// The place of the path with that interface name.
fn position_of(list: &Vec<ProbePath>, name: &String) -> (r: usize)
    ensures
        r == find_name(probe_views(list@), name@, 0),
        r <= list@.len(),
{
    let ghost views = probe_views(list@);
    let mut i: usize = 0;
    while i < list.len()
        invariant
            i <= list@.len(),
            views == probe_views(list@),
            find_name(views, name@, 0) == find_name(views, name@, i as int),
        decreases list@.len() - i,
    {
        assert(views[i as int] == list@[i as int]@);
        if list[i].ifname == *name {
            return i;
        }
        i += 1;
    }
    i
}

/// The first path from `from` on whose name is not wanted.
fn find_unwanted(list: &Vec<ProbePath>, wanted: &Vec<ProbePath>, from: usize) -> (r: usize)
    requires
        from <= list@.len(),
    ensures
        r == next_unwanted(probe_views(list@), probe_views(wanted@), from as int),
        r <= list@.len(),
{
    let ghost lv = probe_views(list@);
    let ghost wv = probe_views(wanted@);
    let mut i: usize = from;
    while i < list.len()
        invariant
            i <= list@.len(),
            lv == probe_views(list@),
            wv == probe_views(wanted@),
            next_unwanted(lv, wv, from as int) == next_unwanted(lv, wv, i as int),
        decreases list@.len() - i,
    {
        assert(lv[i as int] == list@[i as int]@);
        if position_of(wanted, &list[i].ifname) >= wanted.len() {
            return i;
        }
        i += 1;
    }
    i
}

pub proof fn lemma_find_name(list: Seq<ProbeView>, name: Seq<char>, from: int)
    requires
        0 <= from <= list.len(),
    ensures
        ({
            let k = find_name(list, name, from);
            &&& from <= k <= list.len()
            &&& k < list.len() ==> list[k].ifname == name
            &&& forall|i: int| from <= i < k ==> (#[trigger] list[i]).ifname != name
        }),
    decreases list.len() - from,
{
    if from < list.len() && list[from].ifname != name {
        lemma_find_name(list, name, from + 1);
    }
}

impl RouteManager {
    /// Records that a path is in place.
    fn record_probe_path(&mut self, p: &ProbePath)
        requires
            name_fits(p@.ifname),
        ensures
            final(self)@ == (MgrView { probes: upsert(old(self)@.probes, p@), ..old(self)@ }),
            old(self).wf() ==> final(self).wf(),
    {
        let ghost list = self@.probes;
        let k: usize = position_of(&self.probe_paths, &p.ifname);
        let copy = p.copy();
        proof {
            lemma_find_name(list, p@.ifname, 0);
            reveal(probes_wf);
        }
        if k < self.probe_paths.len() {
            self.probe_paths.set(k, copy);
            assert(self@.probes =~= list.update(k as int, p@));
        } else {
            self.probe_paths.push(copy);
            assert(self@.probes =~= list.push(p@));
        }
    }

    /// Forgets the path at a place.
    fn forget_probe_path(&mut self, i: usize)
        requires
            i < old(self)@.probes.len(),
        ensures
            final(self)@ == (MgrView { probes: old(self)@.probes.remove(i as int), ..old(self)@ }),
            old(self).wf() ==> final(self).wf(),
    {
        self.probe_paths.remove(i);
        proof {
            reveal(probes_wf);
            assert(self@.probes =~= old(self)@.probes.remove(i as int));
        }
    }
}

fn to_fault(r: Result<(), NetlinkError>) -> (f: Fault)
    ensures
        f == fault_of(r),
{
    match r {
        Ok(()) => Fault::Clear,
        Err(e) => Fault::Error(e),
    }
}

impl ProbeRun {
    fn note(&mut self, f: Fault)
        ensures
            final(self)@ == old(self)@.noting(f),
    {
        if let Fault::Clear = self.first_err {
            self.first_err = f;
        }
    }
}

fn install_path(mgr: &mut RouteManager, run: &mut ProbeRun, i: usize) -> (step: Step)
    requires
        phase_wf(old(mgr)@, old(run)@.at(ProbePhase::Finished)),
        i < old(run).wanted@.len(),
    ensures
        reached(*final(mgr), *final(run), step, enter_install(old(mgr)@, old(run)@, i as int)),
{
    assert(run@.wanted[i as int] == run.wanted@[i as int]@);
    let msg = mgr.install_probe_rule(&run.wanted[i]);
    run.phase = ProbePhase::InstallRule(i);
    Step::Send(msg)
}

fn remove_from(mgr: &mut RouteManager, run: &mut ProbeRun, p: usize, j: usize) -> (step: Step)
    requires
        phase_wf(old(mgr)@, old(run)@.at(ProbePhase::Finished)),
        p < old(mgr)@.probes.len(),
        j <= old(mgr)@.probes[p as int].main_route_targets.len(),
    ensures
        reached(
            *final(mgr),
            *final(run),
            step,
            enter_remove(old(mgr)@, old(run)@, p as int, j as int),
        ),
{
    let ghost path = mgr@.probes[p as int];
    assert(path == mgr.probe_paths@[p as int]@);
    if j < mgr.probe_paths[p].main_route_targets.len() {
        let target = mgr.probe_paths[p].main_route_targets[j];
        let msg = mgr.delete_host_route(
            PROBE_MAIN_ROUTE_METRIC,
            RT_TABLE_MAIN as u32,
            target,
            32,
        );
        run.phase = ProbePhase::RemoveHost(p, j);
        Step::Send(msg)
    } else {
        let copy = mgr.probe_paths[p].copy();
        let msg = mgr.delete_probe_route(&copy);
        run.phase = ProbePhase::RemoveRoute(p);
        Step::Send(msg)
    }
}

fn next_wanted(mgr: &mut RouteManager, run: &mut ProbeRun, i: usize) -> (step: Step)
    requires
        phase_wf(old(mgr)@, old(run)@.at(ProbePhase::Finished)),
        i <= old(run).wanted@.len(),
    ensures
        reached(*final(mgr), *final(run), step, enter_wanted(old(mgr)@, old(run)@, i as int)),
{
    if i < run.wanted.len() {
        assert(run@.wanted[i as int] == run.wanted@[i as int]@);
        let k: usize = position_of(&mgr.probe_paths, &run.wanted[i].ifname);
        if k < mgr.probe_paths.len() && !mgr.probe_paths[k].same(&run.wanted[i]) {
            assert(mgr@.probes[k as int] == mgr.probe_paths@[k as int]@);
            run.purpose = Purpose::Update(i);
            remove_from(mgr, run, k, 0)
        } else {
            proof {
                if k < mgr@.probes.len() {
                    assert(mgr@.probes[k as int] == mgr.probe_paths@[k as int]@);
                }
            }
            install_path(mgr, run, i)
        }
    } else {
        run.phase = ProbePhase::Finished;
        match run.first_err {
            Fault::Clear => Step::Done(Ok(())),
            Fault::Error(e) => Step::Done(Err(e)),
        }
    }
}

fn remove_stale(mgr: &mut RouteManager, run: &mut ProbeRun, from: usize) -> (step: Step)
    requires
        phase_wf(old(mgr)@, old(run)@.at(ProbePhase::Finished)),
        from <= old(mgr)@.probes.len(),
    ensures
        reached(*final(mgr), *final(run), step, enter_stale(old(mgr)@, old(run)@, from as int)),
{
    let p: usize = find_unwanted(&mgr.probe_paths, &run.wanted, from);
    if p < mgr.probe_paths.len() {
        run.purpose = Purpose::Stale;
        remove_from(mgr, run, p, 0)
    } else {
        next_wanted(mgr, run, 0)
    }
}

fn end_removal(mgr: &mut RouteManager, run: &mut ProbeRun, p: usize, f: Fault) -> (step: Step)
    requires
        phase_wf(old(mgr)@, old(run)@.at(ProbePhase::Finished)),
        p < old(mgr)@.probes.len(),
    ensures
        reached(*final(mgr), *final(run), step, removed(old(mgr)@, old(run)@, p as int, f)),
{
    match f {
        Fault::Clear => {
            mgr.forget_probe_path(p);
            match run.purpose {
                Purpose::Stale => remove_stale(mgr, run, p),
                Purpose::Update(i) => install_path(mgr, run, i),
            }
        },
        Fault::Error(_) => {
            run.note(f);
            assert(p < mgr.probe_paths.len());
            match run.purpose {
                Purpose::Stale => remove_stale(mgr, run, p + 1),
                Purpose::Update(i) => {
                    assert(i < run.wanted.len());
                    next_wanted(mgr, run, i + 1)
                },
            }
        },
    }
}

fn install_host(mgr: &mut RouteManager, run: &mut ProbeRun, i: usize, j: usize) -> (step: Step)
    requires
        phase_wf(old(mgr)@, old(run)@.at(ProbePhase::Finished)),
        i < old(run).wanted@.len(),
        j <= old(run)@.wanted[i as int].main_route_targets.len(),
    ensures
        reached(
            *final(mgr),
            *final(run),
            step,
            enter_host(old(mgr)@, old(run)@, i as int, j as int),
        ),
{
    let ghost path = run@.wanted[i as int];
    assert(path == run.wanted@[i as int]@);
    if j < run.wanted[i].main_route_targets.len() {
        let target = run.wanted[i].main_route_targets[j];
        let msg = mgr.install_probe_host(&run.wanted[i], target);
        run.phase = ProbePhase::InstallHost(i, j);
        Step::Send(msg)
    } else {
        mgr.record_probe_path(&run.wanted[i]);
        assert(i < run.wanted.len());
        next_wanted(mgr, run, i + 1)
    }
}

impl RouteManager {
    /// Starts to bring the probe paths in line with the wanted ones. The operation
    /// can be repeated at any time.
    pub fn set_probe_paths(&mut self, wanted: &[ProbePath]) -> (r: (ProbeRun, Step))
        requires
            old(self).wf(),
            forall|i: int|
                0 <= i < wanted@.len() ==> name_fits((#[trigger] probe_views(wanted@)[i]).ifname),
        ensures
            reached(
                *final(self),
                r.0,
                r.1,
                enter_stale(
                    old(self)@,
                    ProbeRunView {
                        wanted: probe_views(wanted@),
                        first_err: Fault::Clear,
                        purpose: Purpose::Stale,
                        phase: ProbePhase::Finished,
                    },
                    0,
                ),
            ),
    {
        let mut run = ProbeRun {
            wanted: copy_paths(wanted),
            first_err: Fault::Clear,
            purpose: Purpose::Stale,
            phase: ProbePhase::Finished,
        };
        let step = remove_stale(self, &mut run, 0);
        (run, step)
    }

    /// Goes on with an operation after the answer to its last request.
    pub fn resume_probe_paths(&mut self, run: &mut ProbeRun, reply: Result<(), NetlinkError>) -> (step:
        Step)
        requires
            phase_wf(old(self)@, old(run)@),
        ensures
            reached(*final(self), *final(run), step, next_state(old(self)@, old(run)@, reply)),
    {
        match run.phase {
            ProbePhase::RemoveHost(p, j) => {
                assert(self@.probes[p as int] == self.probe_paths@[p as int]@);
                assert(j < self.probe_paths@[p as int].main_route_targets.len());
                remove_from(self, run, p, j + 1)
            },
            ProbePhase::RemoveRoute(p) => {
                assert(self@.probes[p as int] == self.probe_paths@[p as int]@);
                proof {
                    reveal(probes_wf);
                }
                let copy = self.probe_paths[p].copy();
                let msg = self.delete_probe_rule(&copy);
                run.phase = ProbePhase::RemoveRule(p, to_fault(settle(true, reply)));
                Step::Send(msg)
            },
            ProbePhase::RemoveRule(p, f) => {
                let g = match f {
                    Fault::Clear => to_fault(settle_rule(true, reply)),
                    Fault::Error(_) => f,
                };
                end_removal(self, run, p, g)
            },
            ProbePhase::InstallRule(i) => {
                assert(run@.wanted[i as int] == run.wanted@[i as int]@);
                let r = settle_rule(false, reply);
                if r.is_ok() {
                    let msg = self.install_probe_route(&run.wanted[i]);
                    run.phase = ProbePhase::InstallRoute(i);
                    Step::Send(msg)
                } else {
                    run.note(to_fault(r));
                    assert(i < run.wanted.len());
                    next_wanted(self, run, i + 1)
                }
            },
            ProbePhase::InstallRoute(i) => {
                if reply.is_ok() {
                    install_host(self, run, i, 0)
                } else {
                    run.note(to_fault(reply));
                    assert(i < run.wanted.len());
                    next_wanted(self, run, i + 1)
                }
            },
            ProbePhase::InstallHost(i, j) => {
                if reply.is_ok() {
                    assert(run@.wanted[i as int] == run.wanted@[i as int]@);
                    assert(j < run.wanted@[i as int].main_route_targets.len());
                    install_host(self, run, i, j + 1)
                } else {
                    run.note(to_fault(reply));
                    assert(i < run.wanted.len());
                    next_wanted(self, run, i + 1)
                }
            },
            ProbePhase::Finished => match run.first_err {
                Fault::Clear => Step::Done(Ok(())),
                Fault::Error(e) => Step::Done(Err(e)),
            },
        }
    }
}

} // verus!
