//! Commands for the worker that talks to the kernel, and the text that describes
//! the routes in force.
use crate::config::DaemonConfig;
use crate::failover::{active_lines, actives, min_metric, NetlinkOp, WanMonitor};
use crate::netlink::manager::{ActiveWanRoute, ActiveWanRouteV6, ProbePath};
use crate::netlink::reply::RouteLookup;
use crate::prober::text_view;
use vstd::prelude::*;
use vstd::string::*;

verus! {

/// A command for the worker. Those that put something in place carry all of it.
pub enum NetlinkCmd {
    /// Put the IPv4 default route of these lines in place.
    Apply(Vec<ActiveWanRoute>),
    /// Put the IPv6 default route of these lines in place.
    ApplyV6(Vec<ActiveWanRouteV6>),
    /// Put these probe paths in place; sweep leftover host routes first if asked to.
    SetProbePaths(Vec<ProbePath>, bool),
    /// Delete the connections of these interfaces.
    FlushConntrack(Vec<String>),
    /// Take everything out of the kernel, and end.
    ClearRoutes,
}

/// What is left to do of a batch of commands.
pub struct Work {
    pub apply: Option<Vec<ActiveWanRoute>>,
    pub apply_v6: Option<Vec<ActiveWanRouteV6>>,
    pub probe_paths: Option<(Vec<ProbePath>, bool)>,
    pub flush: Vec<String>,
    pub clear_routes: bool,
    /// Whether everything was taken out of the kernel: the worker ends.
    pub over: bool,
}

/// What is left to do, as a mathematical value.
pub ghost struct WorkView {
    pub apply: Option<Vec<ActiveWanRoute>>,
    pub apply_v6: Option<Vec<ActiveWanRouteV6>>,
    pub probe_paths: Option<(Vec<ProbePath>, bool)>,
    pub flush: Seq<Seq<char>>,
    pub clear_routes: bool,
    pub over: bool,
}

impl View for Work {
    type V = WorkView;

    open spec fn view(&self) -> WorkView {
        WorkView {
            apply: self.apply,
            apply_v6: self.apply_v6,
            probe_paths: self.probe_paths,
            flush: texts(self.flush@),
            clear_routes: self.clear_routes,
            over: self.over,
        }
    }
}

/// The last IPv4 route of a batch: it stands for all of them.
pub open spec fn last_apply(cmds: Seq<NetlinkCmd>) -> Option<Vec<ActiveWanRoute>>
    decreases cmds.len(),
{
    if cmds.len() == 0 {
        None
    } else {
        match cmds.last() {
            NetlinkCmd::Apply(w) => Some(w),
            _ => last_apply(cmds.drop_last()),
        }
    }
}

/// The last IPv6 route of a batch.
pub open spec fn last_apply_v6(cmds: Seq<NetlinkCmd>) -> Option<Vec<ActiveWanRouteV6>>
    decreases cmds.len(),
{
    if cmds.len() == 0 {
        None
    } else {
        match cmds.last() {
            NetlinkCmd::ApplyV6(w) => Some(w),
            _ => last_apply_v6(cmds.drop_last()),
        }
    }
}

/// The last probe paths of a batch.
pub open spec fn last_paths(cmds: Seq<NetlinkCmd>) -> Option<(Vec<ProbePath>, bool)>
    decreases cmds.len(),
{
    if cmds.len() == 0 {
        None
    } else {
        match cmds.last() {
            NetlinkCmd::SetProbePaths(p, c) => Some((p, c)),
            _ => last_paths(cmds.drop_last()),
        }
    }
}

/// The contents of a list of strings.
pub open spec fn texts(list: Seq<String>) -> Seq<Seq<char>> {
    Seq::new(list.len(), |i: int| list[i]@)
}

/// A list of names with more names, each of them once.
pub open spec fn with_names(list: Seq<Seq<char>>, names: Seq<Seq<char>>) -> Seq<Seq<char>>
    decreases names.len(),
{
    if names.len() == 0 {
        list
    } else {
        let rest = with_names(list, names.drop_last());
        if rest.contains(names.last()) {
            rest
        } else {
            rest.push(names.last())
        }
    }
}

/// The interfaces of a batch whose connections have to go, each of them once.
pub open spec fn all_flushes(cmds: Seq<NetlinkCmd>) -> Seq<Seq<char>>
    decreases cmds.len(),
{
    if cmds.len() == 0 {
        Seq::empty()
    } else {
        let rest = all_flushes(cmds.drop_last());
        match cmds.last() {
            NetlinkCmd::FlushConntrack(names) => with_names(rest, texts(names@)),
            _ => rest,
        }
    }
}

/// Whether a batch holds the command to end.
pub open spec fn clears(cmds: Seq<NetlinkCmd>) -> bool {
    exists|i: int| 0 <= i < cmds.len() && (#[trigger] cmds[i]) is ClearRoutes
}

fn has_text(list: &Vec<String>, name: &String) -> (r: bool)
    ensures
        r == texts(list@).contains(name@),
{
    let mut i: usize = 0;
    while i < list.len()
        invariant
            i <= list@.len(),
            forall|j: int| 0 <= j < i ==> texts(list@)[j] != name@,
        decreases list@.len() - i,
    {
        if list[i] == *name {
            assert(texts(list@)[i as int] == name@);
            return true;
        }
        i += 1;
    }
    false
}

fn add_names(list: &mut Vec<String>, names: &Vec<String>)
    ensures
        texts(final(list)@) == with_names(texts(old(list)@), texts(names@)),
{
    let ghost first = texts(list@);
    let ghost all = texts(names@);
    let mut i: usize = 0;
    assert(all.take(0) =~= Seq::empty());
    while i < names.len()
        invariant
            i <= names@.len(),
            all == texts(names@),
            first == texts(old(list)@),
            texts(list@) == with_names(first, all.take(i as int)),
        decreases names@.len() - i,
    {
        let ghost before = texts(list@);
        if !has_text(list, &names[i]) {
            list.push(names[i].clone());
            assert(texts(list@) =~= before.push(names@[i as int]@));
        }
        i += 1;
        proof {
            assert(all.take(i as int).drop_last() =~= all.take(i - 1));
            assert(all.take(i as int).last() == names@[i - 1]@);
        }
    }
    assert(all.take(i as int) =~= all);
}

/// What is to be done for a batch of commands.
pub open spec fn work_of(cmds: Seq<NetlinkCmd>) -> WorkView {
    WorkView {
        apply: last_apply(cmds),
        apply_v6: last_apply_v6(cmds),
        probe_paths: last_paths(cmds),
        flush: all_flushes(cmds),
        clear_routes: clears(cmds),
        over: false,
    }
}

/// Puts a batch of commands together. Commands pile up while the worker is busy;
/// as each one carries all of what is wanted, only the last of a kind counts.
pub fn coalesce(batch: Vec<NetlinkCmd>) -> (r: Work)
    ensures
        r@ == work_of(batch@),
{
    let ghost all = batch@;
    let mut batch = batch;
    let mut work = Work {
        apply: None,
        apply_v6: None,
        probe_paths: None,
        flush: Vec::new(),
        clear_routes: false,
        over: false,
    };
    let ghost mut done: int = 0;
    assert(all.take(0) =~= Seq::empty());
    assert(texts(work.flush@) =~= all_flushes(all.take(0)));
    assert(batch@ =~= all.skip(0));
    while batch.len() > 0
        invariant
            0 <= done <= all.len(),
            batch@ == all.skip(done),
            work.apply == last_apply(all.take(done)),
            work.apply_v6 == last_apply_v6(all.take(done)),
            work.probe_paths == last_paths(all.take(done)),
            texts(work.flush@) == all_flushes(all.take(done)),
            work.clear_routes == (exists|i: int| 0 <= i < done && (#[trigger] all[i])
                is ClearRoutes),
            !work.over,
        decreases batch@.len(),
    {
        let cmd = batch.remove(0);
        proof {
            assert(cmd == all[done]);
            assert(all.take(done + 1).drop_last() =~= all.take(done));
            assert(all.take(done + 1).last() == cmd);
            assert(batch@ =~= all.skip(done + 1));
        }
        match cmd {
            NetlinkCmd::Apply(w) => {
                work.apply = Some(w);
            },
            NetlinkCmd::ApplyV6(w) => {
                work.apply_v6 = Some(w);
            },
            NetlinkCmd::SetProbePaths(p, c) => {
                work.probe_paths = Some((p, c));
            },
            NetlinkCmd::FlushConntrack(names) => {
                add_names(&mut work.flush, &names);
            },
            NetlinkCmd::ClearRoutes => {
                assert(all[done] is ClearRoutes);
                work.clear_routes = true;
            },
        }
        proof {
            done = done + 1;
        }
    }
    proof {
        assert(all.take(done) =~= all);
    }
    work
}

/// What the worker does next.
pub enum Job {
    /// Put the IPv4 default route of these lines in place.
    Apply(Vec<ActiveWanRoute>),
    /// Put the IPv6 default route of these lines in place.
    ApplyV6(Vec<ActiveWanRouteV6>),
    /// Delete leftover host routes.
    SweepHostRoutes,
    /// Put these probe paths in place.
    SetProbePaths(Vec<ProbePath>),
    /// Delete the connections of these interfaces.
    FlushConntrack(Vec<String>),
    /// Take everything out of the kernel.
    CleanUp,
    /// Wait for more commands.
    Wait,
    /// End.
    End,
}

/// What the worker does next, as a mathematical value.
pub ghost enum JobView {
    Apply(Vec<ActiveWanRoute>),
    ApplyV6(Vec<ActiveWanRouteV6>),
    SweepHostRoutes,
    SetProbePaths(Vec<ProbePath>),
    FlushConntrack(Seq<Seq<char>>),
    CleanUp,
    Wait,
    End,
}

impl View for Job {
    type V = JobView;

    open spec fn view(&self) -> JobView {
        match *self {
            Job::Apply(w) => JobView::Apply(w),
            Job::ApplyV6(w) => JobView::ApplyV6(w),
            Job::SweepHostRoutes => JobView::SweepHostRoutes,
            Job::SetProbePaths(p) => JobView::SetProbePaths(p),
            Job::FlushConntrack(names) => JobView::FlushConntrack(texts(names@)),
            Job::CleanUp => JobView::CleanUp,
            Job::Wait => JobView::Wait,
            Job::End => JobView::End,
        }
    }
}

/// The first thing to do: routes before anything that takes long, and the
/// clean-up last.
pub open spec fn first_job(w: WorkView) -> JobView {
    if w.over {
        JobView::End
    } else if w.apply is Some {
        JobView::Apply(w.apply->0)
    } else if w.apply_v6 is Some {
        JobView::ApplyV6(w.apply_v6->0)
    } else if w.probe_paths is Some {
        if (w.probe_paths->0).1 {
            JobView::SweepHostRoutes
        } else {
            JobView::SetProbePaths((w.probe_paths->0).0)
        }
    } else if w.flush.len() > 0 {
        JobView::FlushConntrack(w.flush)
    } else if w.clear_routes {
        JobView::CleanUp
    } else {
        JobView::Wait
    }
}

/// What is left to do after the first thing. After the clean-up nothing is.
pub open spec fn without_first(w: WorkView) -> WorkView {
    match first_job(w) {
        JobView::Apply(_) => WorkView { apply: None, ..w },
        JobView::ApplyV6(_) => WorkView { apply_v6: None, ..w },
        JobView::SweepHostRoutes => WorkView {
            probe_paths: Some(((w.probe_paths->0).0, false)),
            ..w
        },
        JobView::SetProbePaths(_) => WorkView { probe_paths: None, ..w },
        JobView::FlushConntrack(_) => WorkView { flush: Seq::empty(), ..w },
        JobView::CleanUp => WorkView { clear_routes: false, over: true, ..w },
        JobView::Wait => w,
        JobView::End => w,
    }
}

/// Takes the first thing to do off what is left to do.
pub fn next_job(w: &mut Work) -> (j: Job)
    ensures
        j@ == first_job(old(w)@),
        final(w)@ == without_first(old(w)@),
{
    if w.over {
        return Job::End;
    }
    let mut apply: Option<Vec<ActiveWanRoute>> = None;
    core::mem::swap(&mut apply, &mut w.apply);
    if let Some(wans) = apply {
        return Job::Apply(wans);
    }
    let mut apply_v6: Option<Vec<ActiveWanRouteV6>> = None;
    core::mem::swap(&mut apply_v6, &mut w.apply_v6);
    if let Some(wans) = apply_v6 {
        return Job::ApplyV6(wans);
    }
    let mut probe_paths: Option<(Vec<ProbePath>, bool)> = None;
    core::mem::swap(&mut probe_paths, &mut w.probe_paths);
    if let Some((paths, clean)) = probe_paths {
        if clean {
            w.probe_paths = Some((paths, false));
            return Job::SweepHostRoutes;
        }
        return Job::SetProbePaths(paths);
    }
    if w.flush.len() > 0 {
        let mut names: Vec<String> = Vec::new();
        core::mem::swap(&mut names, &mut w.flush);
        assert(texts(w.flush@) =~= Seq::empty());
        return Job::FlushConntrack(names);
    }
    if w.clear_routes {
        w.clear_routes = false;
        w.over = true;
        return Job::CleanUp;
    }
    Job::Wait
}

/// How many things are left to do before the worker waits or ends.
pub open spec fn jobs_left(w: WorkView) -> nat {
    if w.over {
        0
    } else {
        (if w.apply is Some { 1nat } else { 0 }) + (if w.apply_v6 is Some { 1nat } else { 0 }) + (
        match w.probe_paths {
            Some((_, clean)) => if clean { 2nat } else { 1 },
            None => 0,
        }) + (if w.flush.len() > 0 { 1nat } else { 0 }) + (if w.clear_routes { 1nat } else { 0 })
    }
}

/// Everything that the worker does, in order, up to and with waiting or ending.
pub open spec fn all_jobs(w: WorkView) -> Seq<JobView>
    decreases jobs_left(w),
{
    if first_job(w) is Wait || first_job(w) is End {
        seq![first_job(w)]
    } else {
        seq![first_job(w)] + all_jobs(without_first(w))
    }
}

/// A list of one thing, or of none.
pub open spec fn job_if(yes: bool, j: JobView) -> Seq<JobView> {
    if yes {
        seq![j]
    } else {
        Seq::empty()
    }
}

/// For a batch of commands, the worker does the last of each kind, once, in a
/// fixed order: the IPv4 route, the IPv6 route, the sweep of host routes if it
/// was asked for, the probe paths, the deletion of connections for all
/// interfaces together, the clean-up. After the clean-up it ends, and without it
/// waits for more.
pub proof fn batches_are_done_in_order(cmds: Seq<NetlinkCmd>)
    ensures
        all_jobs(work_of(cmds)) == job_if(
            last_apply(cmds) is Some,
            JobView::Apply(last_apply(cmds)->0),
        ) + job_if(last_apply_v6(cmds) is Some, JobView::ApplyV6(last_apply_v6(cmds)->0)) + job_if(
            last_paths(cmds) is Some && (last_paths(cmds)->0).1,
            JobView::SweepHostRoutes,
        ) + job_if(
            last_paths(cmds) is Some,
            JobView::SetProbePaths((last_paths(cmds)->0).0),
        ) + job_if(all_flushes(cmds).len() > 0, JobView::FlushConntrack(all_flushes(cmds))) + job_if(
            clears(cmds),
            JobView::CleanUp,
        ) + seq![if clears(cmds) { JobView::End } else { JobView::Wait }],
{
    let w0 = work_of(cmds);
    let w1 = WorkView { apply: None, ..w0 };
    let w2 = WorkView { apply_v6: None, ..w1 };
    let w3 = WorkView {
        probe_paths: match w2.probe_paths {
            Some((p, _)) => Some((p, false)),
            None => None,
        },
        ..w2
    };
    let w4 = WorkView { probe_paths: None, ..w3 };
    let w5 = WorkView { flush: Seq::empty(), ..w4 };
    let w6 = WorkView { clear_routes: false, over: w5.clear_routes, ..w5 };
    if w4.flush.len() == 0 {
        assert(w4.flush =~= Seq::empty());
    }
    let sweeps = w2.probe_paths is Some && (w2.probe_paths->0).1;
    let paths = JobView::SetProbePaths((w3.probe_paths->0).0);
    lemma_one_job(w0, w1, w0.apply is Some, JobView::Apply(w0.apply->0));
    lemma_one_job(w1, w2, w1.apply_v6 is Some, JobView::ApplyV6(w1.apply_v6->0));
    lemma_one_job(w2, w3, sweeps, JobView::SweepHostRoutes);
    lemma_one_job(w3, w4, w3.probe_paths is Some, paths);
    lemma_one_job(w4, w5, w4.flush.len() > 0, JobView::FlushConntrack(w4.flush));
    lemma_one_job(w5, w6, w5.clear_routes, JobView::CleanUp);
    let a = job_if(w0.apply is Some, JobView::Apply(w0.apply->0));
    let b = job_if(w1.apply_v6 is Some, JobView::ApplyV6(w1.apply_v6->0));
    let c = job_if(sweeps, JobView::SweepHostRoutes);
    let d = job_if(w3.probe_paths is Some, paths);
    let e = job_if(w4.flush.len() > 0, JobView::FlushConntrack(w4.flush));
    let f = job_if(w5.clear_routes, JobView::CleanUp);
    lemma_seven(a, b, c, d, e, f, all_jobs(w6));
    assert(d == job_if(
        last_paths(cmds) is Some,
        JobView::SetProbePaths((last_paths(cmds)->0).0),
    ));
}

proof fn lemma_one_job(w: WorkView, rest: WorkView, yes: bool, j: JobView)
    requires
        yes ==> first_job(w) == j && without_first(w) == rest && !(j is Wait) && !(j is End),
        !yes ==> w == rest,
    ensures
        all_jobs(w) == job_if(yes, j) + all_jobs(rest),
{
    if !yes {
        assert(Seq::<JobView>::empty() + all_jobs(rest) =~= all_jobs(rest));
    }
}

proof fn lemma_seven(
    a: Seq<JobView>,
    b: Seq<JobView>,
    c: Seq<JobView>,
    d: Seq<JobView>,
    e: Seq<JobView>,
    f: Seq<JobView>,
    g: Seq<JobView>,
)
    ensures
        a + (b + (c + (d + (e + (f + g))))) == a + b + c + d + e + f + g,
{
    assert(e + (f + g) =~= e + f + g);
    assert(d + (e + f + g) =~= d + e + f + g);
    assert(c + (d + e + f + g) =~= c + d + e + f + g);
    assert(b + (c + d + e + f + g) =~= b + c + d + e + f + g);
    assert(a + (b + c + d + e + f + g) =~= a + b + c + d + e + f + g);
}

/// The operation that a job reports on, if it reports at all.
pub open spec fn reported_op(j: JobView) -> Option<NetlinkOp> {
    match j {
        JobView::Apply(_) => Some(NetlinkOp::Ipv4Routes),
        JobView::ApplyV6(_) => Some(NetlinkOp::Ipv6Routes),
        JobView::SetProbePaths(_) => Some(NetlinkOp::ProbePaths),
        JobView::FlushConntrack(_) => Some(NetlinkOp::Conntrack),
        _ => None,
    }
}

/// The operations that a list of jobs reports on, in order.
pub open spec fn reported(jobs: Seq<JobView>) -> Seq<NetlinkOp>
    decreases jobs.len(),
{
    if jobs.len() == 0 {
        Seq::empty()
    } else {
        reported(jobs.drop_last()) + (match reported_op(jobs.last()) {
            Some(op) => seq![op],
            None => Seq::empty(),
        })
    }
}

proof fn lemma_reported(a: Seq<JobView>, b: Seq<JobView>)
    ensures
        reported(a + b) == reported(a) + reported(b),
    decreases b.len(),
{
    if b.len() == 0 {
        assert(a + b =~= a);
        assert(reported(a) + reported(b) =~= reported(a));
    } else {
        assert((a + b).drop_last() =~= a + b.drop_last());
        lemma_reported(a, b.drop_last());
        let last = match reported_op(b.last()) {
            Some(op) => seq![op],
            None => Seq::empty(),
        };
        assert(reported(a) + reported(b.drop_last()) + last =~= reported(a) + (reported(
            b.drop_last(),
        ) + last));
    }
}

proof fn lemma_reported_if(yes: bool, j: JobView)
    ensures
        reported(job_if(yes, j)) == (match reported_op(j) {
            Some(op) if yes => seq![op],
            _ => Seq::empty(),
        }),
{
    if yes {
        let one = seq![j];
        assert(one.drop_last() =~= Seq::empty());
        assert(one.last() == j);
        assert(reported(one.drop_last()) =~= Seq::empty());
        assert(reported(one) =~= (match reported_op(j) {
            Some(op) => seq![op],
            None => Seq::empty(),
        }));
    }
}

/// A list of one operation, or of none.
pub open spec fn op_if(yes: bool, op: NetlinkOp) -> Seq<NetlinkOp> {
    if yes {
        seq![op]
    } else {
        Seq::empty()
    }
}

/// Each operation of a batch brings one report, in the order of the operations.
pub proof fn operations_are_reported_once(cmds: Seq<NetlinkCmd>)
    ensures
        reported(all_jobs(work_of(cmds))) == op_if(
            last_apply(cmds) is Some,
            NetlinkOp::Ipv4Routes,
        ) + op_if(last_apply_v6(cmds) is Some, NetlinkOp::Ipv6Routes) + op_if(
            last_paths(cmds) is Some,
            NetlinkOp::ProbePaths,
        ) + op_if(all_flushes(cmds).len() > 0, NetlinkOp::Conntrack),
{
    batches_are_done_in_order(cmds);
    let a = job_if(last_apply(cmds) is Some, JobView::Apply(last_apply(cmds)->0));
    let b = job_if(last_apply_v6(cmds) is Some, JobView::ApplyV6(last_apply_v6(cmds)->0));
    let sweeps = last_paths(cmds) is Some && (last_paths(cmds)->0).1;
    let c = job_if(sweeps, JobView::SweepHostRoutes);
    let d = job_if(last_paths(cmds) is Some, JobView::SetProbePaths((last_paths(cmds)->0).0));
    let e = job_if(all_flushes(cmds).len() > 0, JobView::FlushConntrack(all_flushes(cmds)));
    let f = job_if(clears(cmds), JobView::CleanUp);
    let last = if clears(cmds) {
        JobView::End
    } else {
        JobView::Wait
    };
    lemma_reported(a, b);
    lemma_reported(a + b, c);
    lemma_reported(a + b + c, d);
    lemma_reported(a + b + c + d, e);
    lemma_reported(a + b + c + d + e, f);
    lemma_reported(a + b + c + d + e + f, seq![last]);
    lemma_reported_if(last_apply(cmds) is Some, JobView::Apply(last_apply(cmds)->0));
    lemma_reported_if(last_apply_v6(cmds) is Some, JobView::ApplyV6(last_apply_v6(cmds)->0));
    lemma_reported_if(sweeps, JobView::SweepHostRoutes);
    lemma_reported_if(
        last_paths(cmds) is Some,
        JobView::SetProbePaths((last_paths(cmds)->0).0),
    );
    lemma_reported_if(
        all_flushes(cmds).len() > 0,
        JobView::FlushConntrack(all_flushes(cmds)),
    );
    lemma_reported_if(clears(cmds), JobView::CleanUp);
    lemma_reported_if(true, last);
    let none: Seq<NetlinkOp> = Seq::empty();
    let ab = reported(a) + reported(b);
    assert(ab + none =~= ab);
    let abde = ab + reported(d) + reported(e);
    assert(abde + none =~= abde);
}

/// What came of an operation of the worker.
pub struct Report {
    pub op: NetlinkOp,
    pub ok: bool,
    /// Why it failed.
    pub detail: Option<String>,
}

/// The report on an operation that ended with an error, or without one.
pub fn report_of(op: NetlinkOp, err: Option<String>) -> (r: Report)
    ensures
        r.op == op,
        r.ok == (err is None),
        text_view(r.detail) == text_view(err),
{
    Report { op, ok: err.is_none(), detail: err }
}

impl Job {
    /// The report on the job once it is done, with an error or without one. The
    /// sweep and the clean-up, waiting and ending bring none.
    pub fn report(&self, err: Option<String>) -> (r: Option<Report>)
        ensures
            match reported_op(self@) {
                Some(op) => r matches Some(p) && p.op == op && p.ok == (err is None) && text_view(
                    p.detail,
                ) == text_view(err),
                None => r is None,
            },
    {
        match self {
            Job::Apply(_) => Some(report_of(NetlinkOp::Ipv4Routes, err)),
            Job::ApplyV6(_) => Some(report_of(NetlinkOp::Ipv6Routes, err)),
            Job::SetProbePaths(_) => Some(report_of(NetlinkOp::ProbePaths, err)),
            Job::FlushConntrack(_) => Some(report_of(NetlinkOp::Conntrack, err)),
            _ => None,
        }
    }
}

/// The command at the end: everything goes if that is configured, else the
/// default route stays and the probe paths go.
pub fn exit_command(config: &DaemonConfig) -> (r: NetlinkCmd)
    ensures
        config.remove_routes_on_exit ==> r is ClearRoutes,
        !config.remove_routes_on_exit ==> (r matches NetlinkCmd::SetProbePaths(p, c) && p@.len()
            == 0 && !c),
{
    if config.remove_routes_on_exit {
        NetlinkCmd::ClearRoutes
    } else {
        NetlinkCmd::SetProbePaths(Vec::new(), false)
    }
}

/// What an answer to the question for a route says: whether there is one, or
/// nothing if the question could not be asked.
pub fn kernel_has_route<E>(answer: Option<Result<Option<RouteLookup>, E>>) -> (r: Option<bool>)
    ensures
        r == (match answer {
            Some(Ok(Some(_))) => Some(true),
            Some(Ok(None)) => Some(false),
            _ => None,
        }),
{
    match answer {
        Some(Ok(Some(_))) => Some(true),
        Some(Ok(None)) => Some(false),
        _ => None,
    }
}

/// The least metric of a list of lines.
pub open spec fn least_of(lines: Seq<WanMonitor>) -> u32
    decreases lines.len(),
{
    if lines.len() == 0 {
        u32::MAX
    } else {
        let rest = least_of(lines.drop_last());
        if lines.last().metric < rest {
            lines.last().metric
        } else {
            rest
        }
    }
}

/// The greatest metric of a list of lines.
pub open spec fn greatest_of(lines: Seq<WanMonitor>) -> u32
    decreases lines.len(),
{
    if lines.len() == 0 {
        0
    } else {
        let rest = greatest_of(lines.drop_last());
        if lines.last().metric > rest {
            lines.last().metric
        } else {
            rest
        }
    }
}

/// The metric of the first line with a name; 1 if there is none.
pub open spec fn metric_of(lines: Seq<WanMonitor>, name: Seq<char>, from: int) -> u32
    decreases lines.len() - from,
{
    if from >= lines.len() {
        1
    } else if lines[from].ifname@ == name {
        lines[from].metric
    } else {
        metric_of(lines, name, from + 1)
    }
}

/// Names, separated by a comma and a blank.
pub open spec fn name_list(lines: Seq<WanMonitor>, at: Seq<usize>) -> Seq<char>
    decreases at.len(),
{
    if at.len() == 0 {
        Seq::empty()
    } else if at.len() == 1 {
        lines[at[0] as int].ifname@
    } else {
        name_list(lines, at.drop_last()) + ", "@ + lines[at.last() as int].ifname@
    }
}

/// The description of the routes in force.
pub open spec fn route_desc(lines: Seq<WanMonitor>) -> Seq<char> {
    let at = actives(lines, min_metric(lines));
    if at.len() > 1 {
        "Multipath ECMP ("@ + name_list(lines, at) + ")"@
    } else if at.len() == 1 {
        let name = lines[at[0] as int].ifname@;
        if least_of(lines) == greatest_of(lines) {
            "Single Active ("@ + name + ")"@
        } else if metric_of(lines, name, 0) == least_of(lines) {
            "Primary Active ("@ + name + ")"@
        } else {
            "Failover Active ("@ + name + ")"@
        }
    } else {
        "All Links DOWN"@
    }
}

fn bracketed(prefix: &str, name: &String) -> (r: String)
    ensures
        r@ == prefix@ + name@ + ")"@,
{
    let mut r = prefix.to_owned();
    r.append(name.as_str());
    r.append(")");
    r
}

fn metric_range(lines: &[WanMonitor]) -> (r: (u32, u32))
    ensures
        r.0 == least_of(lines@),
        r.1 == greatest_of(lines@),
{
    let mut least: u32 = u32::MAX;
    let mut greatest: u32 = 0;
    let mut i: usize = 0;
    while i < lines.len()
        invariant
            i <= lines@.len(),
            least == least_of(lines@.take(i as int)),
            greatest == greatest_of(lines@.take(i as int)),
        decreases lines@.len() - i,
    {
        let m: u32 = lines[i].metric;
        if m < least {
            least = m;
        }
        if m > greatest {
            greatest = m;
        }
        i += 1;
        assert(lines@.take(i as int).drop_last() =~= lines@.take(i - 1));
    }
    assert(lines@.take(i as int) =~= lines@);
    (least, greatest)
}

fn find_metric(lines: &[WanMonitor], name: &String) -> (r: u32)
    ensures
        r == metric_of(lines@, name@, 0),
{
    let mut i: usize = 0;
    while i < lines.len()
        invariant
            i <= lines@.len(),
            metric_of(lines@, name@, 0) == metric_of(lines@, name@, i as int),
        decreases lines@.len() - i,
    {
        if lines[i].ifname == *name {
            return lines[i].metric;
        }
        i += 1;
    }
    1
}

fn join_names(lines: &[WanMonitor], at: &Vec<usize>) -> (r: String)
    requires
        at@.len() > 0,
        forall|k: int| 0 <= k < at@.len() ==> (#[trigger] at@[k]) < lines@.len(),
    ensures
        r@ == name_list(lines@, at@),
{
    let mut r = lines[at[0]].ifname.clone();
    let mut k: usize = 1;
    while k < at.len()
        invariant
            1 <= k <= at@.len(),
            forall|j: int| 0 <= j < at@.len() ==> (#[trigger] at@[j]) < lines@.len(),
            r@ == name_list(lines@, at@.take(k as int)),
        decreases at@.len() - k,
    {
        r.append(", ");
        r.append(lines[at[k]].ifname.as_str());
        k += 1;
        assert(at@.take(k as int).drop_last() =~= at@.take(k - 1));
    }
    assert(at@.take(k as int) =~= at@);
    r
}

/// Describes the routes in force.
pub fn build_route_desc(lines: &[WanMonitor]) -> (r: String)
    ensures
        r@ == route_desc(lines@),
{
    let at = active_lines(lines);
    if at.len() > 1 {
        bracketed("Multipath ECMP (", &join_names(lines, &at))
    } else if at.len() == 1 {
        let name = &lines[at[0]].ifname;
        let (least, greatest) = metric_range(lines);
        if least == greatest {
            bracketed("Single Active (", name)
        } else if find_metric(lines, name) == least {
            bracketed("Primary Active (", name)
        } else {
            bracketed("Failover Active (", name)
        }
    } else {
        "All Links DOWN".to_owned()
    }
}

} // verus!
