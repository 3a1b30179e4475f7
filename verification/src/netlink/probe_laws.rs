//! What holds of every operation that brings the probe paths in line.
use crate::netlink::apply::StepView;
use crate::netlink::manager::{probes_wf, MgrView, ProbeView};
use crate::netlink::probe_path::{enter_host, enter_stale, enter_wanted, fault_of, find_name,
    lemma_find_name, next_state, next_unwanted, phase_wf, upsert, Fault, ProbePhase, ProbeRunView,
    ProbeState, Purpose};
use crate::netlink::reply::{committed, rule_committed, NetlinkError};
use vstd::prelude::*;

verus! {

/// No two wanted paths have the interface name in common.
pub open spec fn names_distinct(wanted: Seq<ProbeView>) -> bool {
    forall|i: int, j: int|
        #![trigger wanted[i], wanted[j]]
        0 <= i < j < wanted.len() ==> wanted[i].ifname != wanted[j].ifname
}

/// Whether a path of that name is wanted.
pub open spec fn is_wanted(p: ProbeView, wanted: Seq<ProbeView>) -> bool {
    find_name(wanted, p.ifname, 0) < wanted.len()
}

/// Whether the first `n` wanted paths are known to be in place.
pub open spec fn in_place(m: MgrView, wanted: Seq<ProbeView>, n: int) -> bool {
    forall|i: int| 0 <= i < n ==> m.probes.contains(#[trigger] wanted[i])
}

/// Whether the first `n` known paths have a name that is wanted.
pub open spec fn all_named(m: MgrView, wanted: Seq<ProbeView>, n: int) -> bool {
    forall|k: int| 0 <= k < n ==> is_wanted(#[trigger] m.probes[k], wanted)
}

/// What the phase of an operation says, as long as the kernel accepts all requests.
pub open spec fn on_course(m: MgrView, run: ProbeRunView) -> bool {
    let removing = |p: int|
        match run.purpose {
            Purpose::Stale => all_named(m, run.wanted, p),
            Purpose::Update(i) => {
                &&& all_named(m, run.wanted, m.probes.len() as int)
                &&& in_place(m, run.wanted, i as int)
                &&& m.probes[p].ifname == run.wanted[i as int].ifname
            },
        };
    let installing = |i: int|
        {
            &&& all_named(m, run.wanted, m.probes.len() as int)
            &&& in_place(m, run.wanted, i)
        };
    &&& run.first_err == Fault::Clear
    &&& match run.phase {
        ProbePhase::RemoveHost(p, _) => removing(p as int),
        ProbePhase::RemoveRoute(p) => removing(p as int),
        ProbePhase::RemoveRule(p, f) => removing(p as int) && f == Fault::Clear,
        ProbePhase::InstallRule(i) => installing(i as int),
        ProbePhase::InstallRoute(i) => installing(i as int),
        ProbePhase::InstallHost(i, _) => installing(i as int),
        ProbePhase::Finished => installing(run.wanted.len() as int),
    }
}

spec fn good(s: ProbeState) -> bool {
    on_course(s.m, s.run)
}

proof fn lemma_upsert(list: Seq<ProbeView>, p: ProbeView)
    requires
        probes_wf(list),
    ensures
        upsert(list, p).contains(p),
        forall|q: ProbeView| #[trigger] list.contains(q) && q.ifname != p.ifname ==> upsert(
            list,
            p,
        ).contains(q),
        forall|k: int|
            0 <= k < upsert(list, p).len() ==> (#[trigger] upsert(list, p)[k]) == p || list.contains(
                upsert(list, p)[k],
            ),
{
    reveal(probes_wf);
    lemma_find_name(list, p.ifname, 0);
    let k = find_name(list, p.ifname, 0);
    let up = upsert(list, p);
    assert(up[k] == p);
    assert forall|q: ProbeView| #[trigger] list.contains(q) && q.ifname != p.ifname implies up.contains(
        q,
    ) by {
        let i = choose|i: int| 0 <= i < list.len() && list[i] == q;
        assert(up[i] == q);
    }
}

proof fn lemma_wanted_self(wanted: Seq<ProbeView>, i: int)
    requires
        0 <= i < wanted.len(),
    ensures
        is_wanted(wanted[i], wanted),
{
    lemma_find_name(wanted, wanted[i].ifname, 0);
}

proof fn lemma_enter_wanted(m: MgrView, run: ProbeRunView, i: int)
    requires
        0 <= i <= run.wanted.len() <= usize::MAX,
        m.probes.len() <= usize::MAX,
        run.first_err == Fault::Clear,
        all_named(m, run.wanted, m.probes.len() as int),
        in_place(m, run.wanted, i),
    ensures
        good(enter_wanted(m, run, i)),
        enter_wanted(m, run, i).step is Done ==> enter_wanted(m, run, i).step == StepView::Done(
            None,
        ),
{
    if i < run.wanted.len() {
        lemma_find_name(m.probes, run.wanted[i].ifname, 0);
    }
}

proof fn lemma_unwanted(list: Seq<ProbeView>, wanted: Seq<ProbeView>, from: int)
    requires
        0 <= from <= list.len(),
    ensures
        ({
            let k = next_unwanted(list, wanted, from);
            &&& from <= k <= list.len()
            &&& forall|i: int| from <= i < k ==> is_wanted(#[trigger] list[i], wanted)
        }),
    decreases list.len() - from,
{
    if from < list.len() && is_wanted(list[from], wanted) {
        lemma_unwanted(list, wanted, from + 1);
    }
}

proof fn lemma_enter_stale(m: MgrView, run: ProbeRunView, from: int)
    requires
        0 <= from <= m.probes.len() <= usize::MAX,
        run.wanted.len() <= usize::MAX,
        run.first_err == Fault::Clear,
        all_named(m, run.wanted, from),
    ensures
        good(enter_stale(m, run, from)),
        enter_stale(m, run, from).step is Done ==> enter_stale(m, run, from).step
            == StepView::Done(None),
{
    lemma_unwanted(m.probes, run.wanted, from);
    let p = next_unwanted(m.probes, run.wanted, from);
    if p >= m.probes.len() {
        lemma_enter_wanted(m, run, 0);
    }
}

/// The failure that an answer brings, by the request it belongs to. A route or a
/// rule that is not there cannot fail to be deleted, a rule that is there cannot
/// fail to be made, and host routes that stay are no failure.
pub open spec fn request_fault(phase: ProbePhase, reply: Result<(), NetlinkError>) -> Fault {
    match phase {
        ProbePhase::RemoveHost(_, _) => Fault::Clear,
        ProbePhase::RemoveRoute(_) => fault_of(committed(true, reply)),
        ProbePhase::RemoveRule(_, _) => fault_of(rule_committed(true, reply)),
        ProbePhase::InstallRule(_) => fault_of(rule_committed(false, reply)),
        ProbePhase::InstallRoute(_) => fault_of(reply),
        ProbePhase::InstallHost(_, _) => fault_of(reply),
        ProbePhase::Finished => Fault::Clear,
    }
}

/// At the start of an operation everything is on course ...
pub proof fn starts_on_course(m: MgrView, run: ProbeRunView)
    requires
        m.probes.len() <= usize::MAX,
        run.wanted.len() <= usize::MAX,
        run.first_err == Fault::Clear,
    ensures
        on_course(enter_stale(m, run, 0).m, enter_stale(m, run, 0).run),
{
    lemma_enter_stale(m, run, 0);
}

/// ... and stays so while no request fails. At the end, then, the operation
/// succeeds, every wanted path is known to be in place, and no path is
/// known that is not wanted.
pub proof fn accepted_requests_bring_the_wanted_paths(
    m: MgrView,
    run: ProbeRunView,
    reply: Result<(), NetlinkError>,
)
    requires
        phase_wf(m, run),
        m.probes.len() < usize::MAX,
        run.wanted.len() < usize::MAX,
        names_distinct(run.wanted),
        on_course(m, run),
        request_fault(run.phase, reply) == Fault::Clear,
    ensures
        ({
            let s = next_state(m, run, reply);
            &&& on_course(s.m, s.run)
            &&& s.step is Done ==> {
                &&& s.step == StepView::Done(None)
                &&& forall|i: int|
                    0 <= i < run.wanted.len() ==> s.m.probes.contains(#[trigger] run.wanted[i])
                &&& forall|k: int|
                    0 <= k < s.m.probes.len() ==> is_wanted(#[trigger] s.m.probes[k], run.wanted)
            }
        }),
{
    match run.phase {
        ProbePhase::RemoveHost(_, _) | ProbePhase::RemoveRoute(_) => {},
        ProbePhase::RemoveRule(p, _) => {
            let gone = MgrView { probes: m.probes.remove(p as int), ..m };
            match run.purpose {
                Purpose::Stale => {
                    assert forall|k: int| 0 <= k < p implies is_wanted(
                        #[trigger] gone.probes[k],
                        run.wanted,
                    ) by {
                        assert(gone.probes[k] == m.probes[k]);
                    }
                    lemma_enter_stale(gone, run, p as int);
                },
                Purpose::Update(i) => {
                    lemma_remove_keeps(m, gone, run.wanted, p as int, i as int);
                },
            }
        },
        ProbePhase::InstallRule(_) => {},
        ProbePhase::InstallRoute(i) => lemma_installed(m, run, i as int, 0),
        ProbePhase::InstallHost(i, j) => lemma_installed(m, run, i as int, j + 1),
        ProbePhase::Finished => {},
    }
}

proof fn lemma_remove_keeps(m: MgrView, gone: MgrView, wanted: Seq<ProbeView>, p: int, i: int)
    requires
        0 <= p < m.probes.len(),
        0 <= i < wanted.len(),
        gone.probes == m.probes.remove(p),
        names_distinct(wanted),
        all_named(m, wanted, m.probes.len() as int),
        in_place(m, wanted, i),
        m.probes[p].ifname == wanted[i].ifname,
    ensures
        all_named(gone, wanted, gone.probes.len() as int),
        in_place(gone, wanted, i),
{
    assert forall|k: int| 0 <= k < gone.probes.len() implies is_wanted(
        #[trigger] gone.probes[k],
        wanted,
    ) by {
        if k < p {
            assert(gone.probes[k] == m.probes[k]);
        } else {
            assert(gone.probes[k] == m.probes[k + 1]);
        }
    }
    assert forall|x: int| 0 <= x < i implies gone.probes.contains(#[trigger] wanted[x]) by {
        let k = choose|k: int| 0 <= k < m.probes.len() && m.probes[k] == wanted[x];
        assert(wanted[x].ifname != wanted[i].ifname);
        assert(k != p);
        if k < p {
            assert(gone.probes[k] == wanted[x]);
        } else {
            assert(gone.probes[k - 1] == wanted[x]);
        }
    }
}

proof fn lemma_installed(m: MgrView, run: ProbeRunView, i: int, j: int)
    requires
        m.wf(),
        0 <= i < run.wanted.len() <= usize::MAX,
        m.probes.len() < usize::MAX,
        0 <= j <= run.wanted[i].main_route_targets.len(),
        names_distinct(run.wanted),
        run.first_err == Fault::Clear,
        all_named(m, run.wanted, m.probes.len() as int),
        in_place(m, run.wanted, i),
    ensures
        ({
            let s = enter_host(m, run, i, j);
            &&& good(s)
            &&& s.step is Done ==> s.step == StepView::Done(None)
        }),
{
    let p = run.wanted[i];
    let done = MgrView { probes: upsert(m.probes, p), ..m };
    lemma_upsert(m.probes, p);
    lemma_wanted_self(run.wanted, i);
    assert forall|k: int| 0 <= k < done.probes.len() implies is_wanted(
        #[trigger] done.probes[k],
        run.wanted,
    ) by {
        if done.probes[k] != p {
            assert(m.probes.contains(done.probes[k]));
            let x = choose|x: int| 0 <= x < m.probes.len() && m.probes[x] == done.probes[k];
            assert(is_wanted(m.probes[x], run.wanted));
        }
    }
    assert forall|x: int| 0 <= x < i + 1 implies done.probes.contains(#[trigger] run.wanted[x]) by {
        if x < i {
            assert(run.wanted[x].ifname != p.ifname);
        }
    }
    lemma_find_name(m.probes, p.ifname, 0);
    lemma_enter_wanted(done, run, i + 1);
}

/// How much of an operation is left: the part of the operation, the paths of
/// that part, whether an old path is still in the way, and the requests for the
/// path.
pub open spec fn left(m: MgrView, run: ProbeRunView) -> (int, int, int, int) {
    let removing = |p: usize, requests: int|
        match run.purpose {
            Purpose::Stale => (2int, m.probes.len() - p, 1int, requests),
            Purpose::Update(i) => (1int, run.wanted.len() - i, 1int, requests),
        };
    let installing = |i: usize, requests: int| (1int, run.wanted.len() - i, 0int, requests);
    match run.phase {
        ProbePhase::RemoveHost(p, j) => removing(
            p,
            2 + m.probes[p as int].main_route_targets.len() - j,
        ),
        ProbePhase::RemoveRoute(p) => removing(p, 2),
        ProbePhase::RemoveRule(p, _) => removing(p, 1),
        ProbePhase::InstallRule(i) => installing(
            i,
            2 + run.wanted[i as int].main_route_targets.len() as int,
        ),
        ProbePhase::InstallRoute(i) => installing(
            i,
            1 + run.wanted[i as int].main_route_targets.len() as int,
        ),
        ProbePhase::InstallHost(i, j) => installing(
            i,
            run.wanted[i as int].main_route_targets.len() - j,
        ),
        ProbePhase::Finished => (0, 0, 0, 0),
    }
}

/// The order of a dictionary.
pub open spec fn less(a: (int, int, int, int), b: (int, int, int, int)) -> bool {
    ||| a.0 < b.0
    ||| a.0 == b.0 && a.1 < b.1
    ||| a.0 == b.0 && a.1 == b.1 && a.2 < b.2
    ||| a.0 == b.0 && a.1 == b.1 && a.2 == b.2 && a.3 < b.3
}

/// Whether the lists of an operation are as short as memory makes them.
pub open spec fn lists_fit(m: MgrView, run: ProbeRunView) -> bool {
    &&& m.probes.len() <= usize::MAX
    &&& run.wanted.len() <= usize::MAX
    &&& forall|p: int|
        0 <= p < m.probes.len() ==> (#[trigger] m.probes[p]).main_route_targets.len() <= usize::MAX
    &&& forall|i: int|
        0 <= i < run.wanted.len() ==> (#[trigger] run.wanted[i]).main_route_targets.len()
            <= usize::MAX
}

spec fn natural(a: (int, int, int, int)) -> bool {
    a.0 >= 0 && a.1 >= 0 && a.2 >= 0 && a.3 >= 0
}

proof fn lemma_wanted_left(m: MgrView, run: ProbeRunView, i: int)
    requires
        lists_fit(m, run),
        0 <= i <= run.wanted.len(),
    ensures
        ({
            let s = enter_wanted(m, run, i);
            &&& natural(left(s.m, s.run))
            &&& left(s.m, s.run).0 <= 1
            &&& left(s.m, s.run).0 == 1 ==> left(s.m, s.run).1 <= run.wanted.len() - i
        }),
{
    if i < run.wanted.len() {
        lemma_find_name(m.probes, run.wanted[i].ifname, 0);
    }
}

proof fn lemma_stale_left(m: MgrView, run: ProbeRunView, from: int)
    requires
        lists_fit(m, run),
        0 <= from <= m.probes.len(),
    ensures
        ({
            let s = enter_stale(m, run, from);
            &&& natural(left(s.m, s.run))
            &&& left(s.m, s.run).0 == 2 ==> left(s.m, s.run).1 <= m.probes.len() - from
            &&& left(s.m, s.run).0 <= 2
        }),
{
    lemma_unwanted(m.probes, run.wanted, from);
    if next_unwanted(m.probes, run.wanted, from) >= m.probes.len() {
        lemma_wanted_left(m, run, 0);
    }
}

/// Every operation on probe paths ends: each answer leaves less to do.
pub proof fn every_probe_operation_ends(
    m: MgrView,
    run: ProbeRunView,
    reply: Result<(), NetlinkError>,
)
    requires
        phase_wf(m, run),
        lists_fit(m, run),
        m.probes.len() < usize::MAX,
        !(run.phase is Finished),
    ensures
        ({
            let s = next_state(m, run, reply);
            let rest = left(s.m, s.run);
            &&& less(rest, left(m, run))
            &&& rest.0 >= 0 && rest.1 >= 0 && rest.2 >= 0 && rest.3 >= 0
        }),
{
    match run.phase {
        ProbePhase::RemoveRule(p, _) => {
            let gone = MgrView { probes: m.probes.remove(p as int), ..m };
            assert forall|k: int| 0 <= k < gone.probes.len() implies (
            #[trigger] gone.probes[k]).main_route_targets.len() <= usize::MAX by {
                if k < p {
                    assert(gone.probes[k] == m.probes[k]);
                } else {
                    assert(gone.probes[k] == m.probes[k + 1]);
                }
            }
            match run.purpose {
                Purpose::Stale => {
                    lemma_stale_left(gone, run, p as int);
                    assert forall|f: Fault| #![trigger run.noting(f)] true implies {
                        let s = enter_stale(m, run.noting(f), p + 1);
                        &&& natural(left(s.m, s.run))
                        &&& less(left(s.m, s.run), left(m, run))
                    } by {
                        lemma_stale_left(m, run.noting(f), p + 1);
                    }
                },
                Purpose::Update(i) => {
                    assert forall|f: Fault| #![trigger run.noting(f)] true implies {
                        let s = enter_wanted(m, run.noting(f), i + 1);
                        &&& natural(left(s.m, s.run))
                        &&& less(left(s.m, s.run), left(m, run))
                    } by {
                        lemma_wanted_left(m, run.noting(f), i + 1);
                    }
                },
            }
        },
        ProbePhase::InstallRule(i) | ProbePhase::InstallRoute(i) | ProbePhase::InstallHost(i, _) => {
            let done = MgrView { probes: upsert(m.probes, run.wanted[i as int]), ..m };
            lemma_upsert(m.probes, run.wanted[i as int]);
            lemma_find_name(m.probes, run.wanted[i as int].ifname, 0);
            assert forall|k: int| 0 <= k < done.probes.len() implies (
            #[trigger] done.probes[k]).main_route_targets.len() <= usize::MAX by {
                if done.probes[k] != run.wanted[i as int] {
                    assert(m.probes.contains(done.probes[k]));
                    let x = choose|x: int| 0 <= x < m.probes.len() && m.probes[x] == done.probes[k];
                    assert(m.probes[x].main_route_targets.len() <= usize::MAX);
                }
            }
            lemma_wanted_left(done, run, i + 1);
            assert forall|f: Fault| #![trigger run.noting(f)] true implies {
                let s = enter_wanted(m, run.noting(f), i + 1);
                &&& natural(left(s.m, s.run))
                &&& less(left(s.m, s.run), left(m, run))
            } by {
                lemma_wanted_left(m, run.noting(f), i + 1);
            }
        },
        _ => {},
    }
}

/// Whether the known paths are just the wanted ones.
pub open spec fn settled(m: MgrView, wanted: Seq<ProbeView>) -> bool {
    &&& in_place(m, wanted, wanted.len() as int)
    &&& all_named(m, wanted, m.probes.len() as int)
}

/// Whether a path is being put in place, or nothing is left to do.
pub open spec fn only_installs(run: ProbeRunView) -> bool {
    run.phase is InstallRule || run.phase is InstallRoute || run.phase is InstallHost
        || run.phase is Finished
}

proof fn lemma_known(list: Seq<ProbeView>, p: ProbeView)
    requires
        probes_wf(list),
        list.contains(p),
    ensures
        find_name(list, p.ifname, 0) < list.len(),
        list[find_name(list, p.ifname, 0)] == p,
        upsert(list, p) == list,
{
    reveal(probes_wf);
    lemma_find_name(list, p.ifname, 0);
    let x = choose|x: int| 0 <= x < list.len() && list[x] == p;
    let k = find_name(list, p.ifname, 0);
    assert(k == x);
    assert(upsert(list, p) =~= list);
}

proof fn lemma_settled_wanted(m: MgrView, run: ProbeRunView, i: int)
    requires
        m.wf(),
        settled(m, run.wanted),
        0 <= i <= run.wanted.len(),
    ensures
        enter_wanted(m, run, i).m.probes == m.probes,
        only_installs(enter_wanted(m, run, i).run),
{
    if i < run.wanted.len() {
        lemma_known(m.probes, run.wanted[i]);
    }
}

/// The operation can be repeated: where the known paths are just the wanted
/// ones, it removes nothing ...
pub proof fn repeating_removes_nothing(m: MgrView, run: ProbeRunView)
    requires
        m.wf(),
        settled(m, run.wanted),
    ensures
        enter_stale(m, run, 0).m.probes == m.probes,
        only_installs(enter_stale(m, run, 0).run),
{
    lemma_all_wanted(m.probes, run.wanted, 0);
    lemma_settled_wanted(m, run, 0);
}

proof fn lemma_all_wanted(list: Seq<ProbeView>, wanted: Seq<ProbeView>, from: int)
    requires
        0 <= from <= list.len(),
        forall|k: int| 0 <= k < list.len() ==> is_wanted(#[trigger] list[k], wanted),
    ensures
        next_unwanted(list, wanted, from) >= list.len(),
    decreases list.len() - from,
{
    if from < list.len() {
        assert(is_wanted(list[from], wanted));
        lemma_all_wanted(list, wanted, from + 1);
    }
}

/// ... and, whatever the kernel answers, what is known stays the same.
pub proof fn repeating_changes_nothing(
    m: MgrView,
    run: ProbeRunView,
    reply: Result<(), NetlinkError>,
)
    requires
        phase_wf(m, run),
        settled(m, run.wanted),
        only_installs(run),
    ensures
        ({
            let s = next_state(m, run, reply);
            &&& s.m.probes == m.probes
            &&& only_installs(s.run)
        }),
{
    match run.phase {
        ProbePhase::InstallRule(i) | ProbePhase::InstallRoute(i) | ProbePhase::InstallHost(i, _) => {
            lemma_known(m.probes, run.wanted[i as int]);
            let same = MgrView { probes: upsert(m.probes, run.wanted[i as int]), ..m };
            assert(same == m);
            lemma_settled_wanted(m, run, i + 1);
            assert forall|f: Fault| #![trigger run.noting(f)] true implies {
                let s = enter_wanted(m, run.noting(f), i + 1);
                s.m.probes == m.probes && only_installs(s.run)
            } by {
                lemma_settled_wanted(m, run.noting(f), i + 1);
            }
        },
        _ => {},
    }
}

} // verus!
