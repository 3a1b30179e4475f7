//! Which requests a whole run of the operation on probe paths sends.
use crate::addr::Ipv4Addr;
use crate::netlink::apply::StepView;
use crate::netlink::manager::{probes_wf, MgrView, ProbeView};
use crate::netlink::probe_laws::{lists_fit, names_distinct, request_fault};
use crate::netlink::probe_path::{
    enter_host, enter_install, enter_remove, enter_stale, enter_wanted, lemma_find_name, next_state,
    next_unwanted, phase_wf, removed, upsert, find_name, Fault, ProbePhase, ProbeRunView,
    ProbeState, Purpose,
};
use crate::netlink::probe_run_laws::{
    first_fault, fresh_probes, lemma_last_fault, lemma_next_unwanted, lemma_no_fault,
    lemma_removed_fits, lemma_run, lemma_upsert_fits, lemma_turned_to, probe_run, run_fits,
    run_unfolds, success_means_just_the_wanted_paths, run_tells_the_first_failure,
};
use crate::netlink::reply::NetlinkError;
use crate::netlink::request::{
    name_fits, req_delete_host_route, req_delete_probe_route, req_delete_probe_rule, req_host_route,
    req_probe_route, req_probe_rule,
};
use crate::netlink::request_laws::octets;
use crate::netlink::util::ByteOrder;
use vstd::prelude::*;

verus! {

/// What is asked of the kernel for a probe path.
pub ghost enum Ask {
    /// The rule of the path.
    Rule(ProbeView),
    /// The default route in the path's table.
    Route(ProbeView),
    /// A host route to the target, through the path's interface and gateway.
    Host(ProbeView, Ipv4Addr),
    /// That there be no host route to the target.
    NoHost(Ipv4Addr),
    /// That the path's table have no default route.
    NoRoute(ProbeView),
    /// That the rule of the path go.
    NoRule(ProbeView),
}

/// Whether a step asks that of the kernel, with the number that the manager `at`
/// gives.
pub open spec fn asks_with(at: MgrView, step: StepView, a: Ask) -> bool {
    match a {
        Ask::Rule(p) => step == StepView::Send(req_probe_rule(at, p)),
        Ask::Route(p) => step == StepView::Send(req_probe_route(at, p)),
        Ask::Host(p, t) => step == StepView::Send(
            req_host_route(at, 42760, t, p.ifindex, octets(p.gateway)),
        ),
        Ask::NoHost(t) => step == StepView::Send(req_delete_host_route(at, 42760, 254, t, 32)),
        Ask::NoRoute(p) => step == StepView::Send(req_delete_probe_route(at, p)),
        Ask::NoRule(p) => step == StepView::Send(req_delete_probe_rule(at, p)),
    }
}

/// Whether a step asks that of the kernel.
pub open spec fn is_ask(order: ByteOrder, step: StepView, a: Ask) -> bool {
    exists|at: MgrView| at.order == order && #[trigger] asks_with(at, step, a)
}

/// Whether that was asked of the kernel at some time of a run.
pub open spec fn asked(
    m: MgrView,
    wanted: Seq<ProbeView>,
    replies: Seq<Result<(), NetlinkError>>,
    a: Ask,
) -> bool {
    exists|k: int|
        0 <= k <= replies.len() && is_ask(
            m.order,
            (#[trigger] probe_run(m, wanted, replies.take(k))).step,
            a,
        )
}

spec fn asked_in(
    m: MgrView,
    wanted: Seq<ProbeView>,
    replies: Seq<Result<(), NetlinkError>>,
) -> spec_fn(Ask) -> bool {
    |a: Ask| asked(m, wanted, replies, a)
}

/// Whether everything that a path needs was asked for.
spec fn all_asked(asks: spec_fn(Ask) -> bool, p: ProbeView) -> bool {
    &&& asks(Ask::Rule(p))
    &&& asks(Ask::Route(p))
    &&& hosts_asked(asks, p, p.main_route_targets.len() as int)
}

spec fn hosts_asked(asks: spec_fn(Ask) -> bool, p: ProbeView, n: int) -> bool {
    forall|j: int| 0 <= j < n ==> asks(Ask::Host(p, #[trigger] p.main_route_targets[j]))
}

/// Whether everything of a path was asked to go.
pub open spec fn all_dropped(asks: spec_fn(Ask) -> bool, p: ProbeView) -> bool {
    &&& asks(Ask::NoRule(p))
    &&& asks(Ask::NoRoute(p))
    &&& hosts_dropped(asks, p, p.main_route_targets.len() as int)
}

pub open spec fn hosts_dropped(asks: spec_fn(Ask) -> bool, p: ProbeView, n: int) -> bool {
    forall|j: int| 0 <= j < n ==> asks(Ask::NoHost(#[trigger] p.main_route_targets[j]))
}

spec fn done_up_to(asks: spec_fn(Ask) -> bool, wanted: Seq<ProbeView>, n: int) -> bool {
    forall|x: int| 0 <= x < n ==> all_asked(asks, #[trigger] wanted[x])
}

/// Whether each path that was known at first is still known, or was asked to go.
spec fn none_forgotten(
    asks: spec_fn(Ask) -> bool,
    first: Seq<ProbeView>,
    known: Seq<ProbeView>,
) -> bool {
    forall|q: ProbeView|
        first.contains(q) ==> #[trigger] known.contains(q) || all_dropped(asks, q)
}

/// What a state asks for, by its phase.
pub open spec fn phase_ask(m: MgrView, run: ProbeRunView) -> Option<Ask> {
    match run.phase {
        ProbePhase::RemoveHost(p, j) => Some(
            Ask::NoHost(m.probes[p as int].main_route_targets[j as int]),
        ),
        ProbePhase::RemoveRoute(p) => Some(Ask::NoRoute(m.probes[p as int])),
        ProbePhase::RemoveRule(p, _) => Some(Ask::NoRule(m.probes[p as int])),
        ProbePhase::InstallRule(i) => Some(Ask::Rule(run.wanted[i as int])),
        ProbePhase::InstallRoute(i) => Some(Ask::Route(run.wanted[i as int])),
        ProbePhase::InstallHost(i, j) => Some(
            Ask::Host(
                run.wanted[i as int],
                run.wanted[i as int].main_route_targets[j as int],
            ),
        ),
        ProbePhase::Finished => None,
    }
}

/// Whether a state asks for what its phase says.
spec fn faithful(order: ByteOrder, s: ProbeState) -> bool {
    &&& s.m.order == order
    &&& match phase_ask(s.m, s.run) {
        Some(a) => is_ask(order, s.step, a),
        None => s.step is Done,
    }
}

/// How many wanted paths are dealt with before the one that a removal makes way for.
spec fn before_removal(run: ProbeRunView) -> int {
    match run.purpose {
        Purpose::Stale => 0,
        Purpose::Update(i) => i as int,
    }
}

/// What was asked for by the time that a state is reached, as long as no request
/// has failed.
spec fn course(asks: spec_fn(Ask) -> bool, first: Seq<ProbeView>, s: ProbeState) -> bool {
    &&& none_forgotten(asks, first, s.m.probes)
    &&& match s.run.phase {
        ProbePhase::RemoveHost(p, j) => done_up_to(asks, s.run.wanted, before_removal(s.run))
            && hosts_dropped(asks, s.m.probes[p as int], j + 1),
        ProbePhase::RemoveRoute(p) => done_up_to(asks, s.run.wanted, before_removal(s.run))
            && hosts_dropped(
            asks,
            s.m.probes[p as int],
            s.m.probes[p as int].main_route_targets.len() as int,
        ) && asks(Ask::NoRoute(s.m.probes[p as int])),
        ProbePhase::RemoveRule(p, _) => done_up_to(asks, s.run.wanted, before_removal(s.run))
            && all_dropped(asks, s.m.probes[p as int]),
        ProbePhase::InstallRule(i) => done_up_to(asks, s.run.wanted, i as int) && asks(
            Ask::Rule(s.run.wanted[i as int]),
        ),
        ProbePhase::InstallRoute(i) => done_up_to(asks, s.run.wanted, i as int) && asks(
            Ask::Rule(s.run.wanted[i as int]),
        ) && asks(Ask::Route(s.run.wanted[i as int])),
        ProbePhase::InstallHost(i, j) => done_up_to(asks, s.run.wanted, i as int) && asks(
            Ask::Rule(s.run.wanted[i as int]),
        ) && asks(Ask::Route(s.run.wanted[i as int])) && hosts_asked(
            asks,
            s.run.wanted[i as int],
            j + 1,
        ),
        ProbePhase::Finished => done_up_to(asks, s.run.wanted, s.run.wanted.len() as int),
    }
}

/// Whether what a state asks for is counted.
pub open spec fn counted(asks: spec_fn(Ask) -> bool, order: ByteOrder, s: ProbeState) -> bool {
    forall|a: Ask| is_ask(order, s.step, a) ==> #[trigger] asks(a)
}

proof fn lemma_ask(at: MgrView, step: StepView, a: Ask)
    requires
        asks_with(at, step, a),
    ensures
        is_ask(at.order, step, a),
{
}

proof fn lemma_install(
    asks: spec_fn(Ask) -> bool,
    first: Seq<ProbeView>,
    m: MgrView,
    run: ProbeRunView,
    i: int,
)
    requires
        0 <= i < run.wanted.len() <= usize::MAX,
    ensures
        faithful(m.order, enter_install(m, run, i)),
        done_up_to(asks, run.wanted, i) && none_forgotten(asks, first, m.probes) && counted(
            asks,
            m.order,
            enter_install(m, run, i),
        ) ==> course(asks, first, enter_install(m, run, i)),
{
    let s = enter_install(m, run, i);
    lemma_ask(m, s.step, Ask::Rule(run.wanted[i]));
}

proof fn lemma_remove(
    asks: spec_fn(Ask) -> bool,
    first: Seq<ProbeView>,
    m: MgrView,
    run: ProbeRunView,
    p: int,
    j: int,
)
    requires
        0 <= p < m.probes.len() <= usize::MAX,
        0 <= j <= m.probes[p].main_route_targets.len() <= usize::MAX,
    ensures
        faithful(m.order, enter_remove(m, run, p, j)),
        done_up_to(asks, run.wanted, before_removal(run)) && none_forgotten(asks, first, m.probes)
            && hosts_dropped(asks, m.probes[p], j) && counted(
            asks,
            m.order,
            enter_remove(m, run, p, j),
        ) ==> course(asks, first, enter_remove(m, run, p, j)),
{
    let s = enter_remove(m, run, p, j);
    let path = m.probes[p];
    if j < path.main_route_targets.len() {
        lemma_ask(m, s.step, Ask::NoHost(path.main_route_targets[j]));
    } else {
        lemma_ask(m, s.step, Ask::NoRoute(path));
    }
}

proof fn lemma_wanted(
    asks: spec_fn(Ask) -> bool,
    first: Seq<ProbeView>,
    m: MgrView,
    run: ProbeRunView,
    i: int,
)
    requires
        0 <= i <= run.wanted.len() <= usize::MAX,
        lists_fit(m, run),
    ensures
        faithful(m.order, enter_wanted(m, run, i)),
        done_up_to(asks, run.wanted, i) && none_forgotten(asks, first, m.probes) && counted(
            asks,
            m.order,
            enter_wanted(m, run, i),
        ) ==> course(asks, first, enter_wanted(m, run, i)),
{
    if i < run.wanted.len() {
        let k = find_name(m.probes, run.wanted[i].ifname, 0);
        lemma_find_name(m.probes, run.wanted[i].ifname, 0);
        if k < m.probes.len() && m.probes[k] != run.wanted[i] {
            let way = ProbeRunView { purpose: Purpose::Update(i as usize), ..run };
            lemma_remove(asks, first, m, way, k, 0);
        } else {
            lemma_install(asks, first, m, run, i);
        }
    }
}

proof fn lemma_stale(
    asks: spec_fn(Ask) -> bool,
    first: Seq<ProbeView>,
    m: MgrView,
    run: ProbeRunView,
    from: int,
)
    requires
        0 <= from <= m.probes.len(),
        lists_fit(m, run),
    ensures
        faithful(m.order, enter_stale(m, run, from)),
        none_forgotten(asks, first, m.probes) && counted(asks, m.order, enter_stale(m, run, from))
            ==> course(asks, first, enter_stale(m, run, from)),
{
    let p = next_unwanted(m.probes, run.wanted, from);
    lemma_next_unwanted(m.probes, run.wanted, from);
    if p < m.probes.len() {
        lemma_remove(asks, first, m, ProbeRunView { purpose: Purpose::Stale, ..run }, p, 0);
    } else {
        lemma_wanted(asks, first, m, run, 0);
    }
}

proof fn lemma_gone(
    asks: spec_fn(Ask) -> bool,
    first: Seq<ProbeView>,
    known: Seq<ProbeView>,
    p: int,
)
    requires
        0 <= p < known.len(),
        none_forgotten(asks, first, known),
        all_dropped(asks, known[p]),
    ensures
        none_forgotten(asks, first, known.remove(p)),
{
    let less = known.remove(p);
    assert forall|q: ProbeView| first.contains(q) implies #[trigger] less.contains(q)
        || all_dropped(asks, q) by {
        if known.contains(q) && q != known[p] {
            let k = choose|k: int| 0 <= k < known.len() && known[k] == q;
            if k < p {
                assert(less[k] == q);
            } else {
                assert(less[k - 1] == q);
            }
        }
    }
}

proof fn lemma_fits_without(m: MgrView, run: ProbeRunView, p: int)
    requires
        0 <= p < m.probes.len(),
        lists_fit(m, run),
    ensures
        lists_fit(crate::netlink::probe_run_laws::knowing(m, m.probes.remove(p)), run),
{
    let less = m.probes.remove(p);
    assert forall|k: int| 0 <= k < less.len() implies (
    #[trigger] less[k]).main_route_targets.len() <= usize::MAX by {
        if k < p {
            assert(less[k] == m.probes[k]);
        } else {
            assert(less[k] == m.probes[k + 1]);
        }
    }
}

proof fn lemma_removed(
    asks: spec_fn(Ask) -> bool,
    first: Seq<ProbeView>,
    m: MgrView,
    run: ProbeRunView,
    p: int,
    f: Fault,
)
    requires
        0 <= p < m.probes.len(),
        lists_fit(m, run),
        run.purpose matches Purpose::Update(i) ==> i < run.wanted.len(),
    ensures
        faithful(m.order, removed(m, run, p, f)),
        f == Fault::Clear && none_forgotten(asks, first, m.probes) && all_dropped(
            asks,
            m.probes[p],
        ) && done_up_to(asks, run.wanted, before_removal(run)) && counted(
            asks,
            m.order,
            removed(m, run, p, f),
        ) ==> course(asks, first, removed(m, run, p, f)),
{
    match f {
        Fault::Clear => {
            let less = MgrView { probes: m.probes.remove(p), ..m };
            lemma_fits_without(m, run, p);
            if none_forgotten(asks, first, m.probes) && all_dropped(asks, m.probes[p]) {
                lemma_gone(asks, first, m.probes, p);
            }
            match run.purpose {
                Purpose::Stale => lemma_stale(asks, first, less, run, p),
                Purpose::Update(i) => lemma_install(asks, first, less, run, i as int),
            }
        },
        Fault::Error(_) => match run.purpose {
            Purpose::Stale => lemma_stale(asks, first, m, run.noting(f), p + 1),
            Purpose::Update(i) => lemma_wanted(asks, first, m, run.noting(f), i + 1),
        },
    }
}

proof fn lemma_host(
    asks: spec_fn(Ask) -> bool,
    first: Seq<ProbeView>,
    m: MgrView,
    run: ProbeRunView,
    i: int,
    j: int,
)
    requires
        0 <= i < run.wanted.len(),
        0 <= j <= run.wanted[i].main_route_targets.len() <= usize::MAX,
        lists_fit(m, run),
        m.probes.len() < usize::MAX,
    ensures
        faithful(m.order, enter_host(m, run, i, j)),
        done_up_to(asks, run.wanted, i) && asks(Ask::Rule(run.wanted[i])) && asks(
            Ask::Route(run.wanted[i]),
        ) && hosts_asked(asks, run.wanted[i], j) && none_forgotten(asks, first, m.probes) && (
        forall|k: int|
            0 <= k < m.probes.len() && (#[trigger] m.probes[k]).ifname == run.wanted[i].ifname
                ==> m.probes[k] == run.wanted[i]) && counted(
            asks,
            m.order,
            enter_host(m, run, i, j),
        ) ==> course(asks, first, enter_host(m, run, i, j)),
{
    let path = run.wanted[i];
    let s = enter_host(m, run, i, j);
    if j < path.main_route_targets.len() {
        lemma_ask(m, s.step, Ask::Host(path, path.main_route_targets[j]));
    } else {
        let up = upsert(m.probes, path);
        let n = MgrView { probes: up, ..m };
        lemma_find_name(m.probes, path.ifname, 0);
        let k = find_name(m.probes, path.ifname, 0);
        assert forall|x: int| 0 <= x < up.len() implies (
        #[trigger] up[x]).main_route_targets.len() <= usize::MAX by {
            if x < m.probes.len() && x != k {
                assert(up[x] == m.probes[x]);
            }
        }
        if none_forgotten(asks, first, m.probes) && (forall|k: int|
            0 <= k < m.probes.len() && (#[trigger] m.probes[k]).ifname == path.ifname
                ==> m.probes[k] == path) {
            assert forall|q: ProbeView| first.contains(q) implies #[trigger] up.contains(q)
                || all_dropped(asks, q) by {
                if m.probes.contains(q) {
                    let x = choose|x: int| 0 <= x < m.probes.len() && m.probes[x] == q;
                    assert(up[x] == q);
                }
            }
        }
        lemma_wanted(asks, first, n, run, i + 1);
    }
}

/// Whether the known path `p` is in the way: it is not one of the wanted paths, and
/// where it makes way for one, it has that one's name.
spec fn removal_is_due(s: ProbeState, p: int) -> bool {
    &&& !s.run.wanted.contains(s.m.probes[p])
    &&& s.run.purpose matches Purpose::Update(i) ==> s.m.probes[p].ifname
        == s.run.wanted[i as int].ifname
}

/// Whether a known path with the name of the path that is being put in place is
/// that path itself, and a path that is being removed is in the way.
spec fn way_is_free(s: ProbeState) -> bool {
    let free = |i: int|
        forall|k: int|
            0 <= k < s.m.probes.len() && (#[trigger] s.m.probes[k]).ifname
                == s.run.wanted[i].ifname ==> s.m.probes[k] == s.run.wanted[i];
    match s.run.phase {
        ProbePhase::InstallRule(i) => free(i as int),
        ProbePhase::InstallRoute(i) => free(i as int),
        ProbePhase::InstallHost(i, _) => free(i as int),
        ProbePhase::RemoveHost(p, _) => removal_is_due(s, p as int),
        ProbePhase::RemoveRoute(p) => removal_is_due(s, p as int),
        ProbePhase::RemoveRule(p, _) => removal_is_due(s, p as int),
        ProbePhase::Finished => true,
    }
}

proof fn lemma_free_wanted(m: MgrView, run: ProbeRunView, i: int)
    requires
        0 <= i <= run.wanted.len(),
        lists_fit(m, run),
        probes_wf(m.probes),
        names_distinct(run.wanted),
    ensures
        way_is_free(enter_wanted(m, run, i)),
{
    reveal(probes_wf);
    if i < run.wanted.len() {
        lemma_find_name(m.probes, run.wanted[i].ifname, 0);
        let k = find_name(m.probes, run.wanted[i].ifname, 0);
        if k < m.probes.len() && m.probes[k] != run.wanted[i] && run.wanted.contains(
            m.probes[k],
        ) {
            let x = choose|x: int| 0 <= x < run.wanted.len() && run.wanted[x] == m.probes[k];
            assert(run.wanted[x].ifname == run.wanted[i].ifname);
        }
    }
}

proof fn lemma_unwanted_name(list: Seq<ProbeView>, wanted: Seq<ProbeView>, from: int)
    requires
        0 <= from <= list.len(),
    ensures
        ({
            let k = next_unwanted(list, wanted, from);
            k < list.len() ==> !wanted.contains(list[k])
        }),
    decreases list.len() - from,
{
    if from < list.len() {
        lemma_find_name(wanted, list[from].ifname, 0);
        if find_name(wanted, list[from].ifname, 0) >= wanted.len() {
            if wanted.contains(list[from]) {
                let x = choose|x: int| 0 <= x < wanted.len() && wanted[x] == list[from];
                assert(wanted[x].ifname == list[from].ifname);
            }
        } else {
            lemma_unwanted_name(list, wanted, from + 1);
        }
    }
}

proof fn lemma_free_stale(m: MgrView, run: ProbeRunView, from: int)
    requires
        0 <= from <= m.probes.len(),
        lists_fit(m, run),
        probes_wf(m.probes),
        names_distinct(run.wanted),
    ensures
        way_is_free(enter_stale(m, run, from)),
{
    lemma_unwanted_name(m.probes, run.wanted, from);
    lemma_next_unwanted(m.probes, run.wanted, from);
    if next_unwanted(m.probes, run.wanted, from) >= m.probes.len() {
        lemma_free_wanted(m, run, 0);
    }
}

proof fn lemma_free_next(s: ProbeState, reply: Result<(), NetlinkError>)
    requires
        phase_wf(s.m, s.run),
        lists_fit(s.m, s.run),
        s.m.probes.len() < usize::MAX,
        names_distinct(s.run.wanted),
        way_is_free(s),
    ensures
        way_is_free(next_state(s.m, s.run, reply)),
{
    let (m, run) = (s.m, s.run);
    match run.phase {
        ProbePhase::RemoveHost(_, _) | ProbePhase::RemoveRoute(_) | ProbePhase::Finished => {},
        ProbePhase::RemoveRule(p, g) => {
            let f = crate::netlink::probe_path::first_of(
                g,
                crate::netlink::probe_path::fault_of(
                    crate::netlink::reply::rule_committed(true, reply),
                ),
            );
            let less = MgrView { probes: m.probes.remove(p as int), ..m };
            lemma_removed_fits(m, run, p as int);
            match f {
                Fault::Clear => match run.purpose {
                    Purpose::Stale => lemma_free_stale(less, run, p as int),
                    Purpose::Update(i) => {
                        reveal(probes_wf);
                        let t = enter_install(less, run, i as int);
                        assert forall|k: int|
                            0 <= k < t.m.probes.len() && (#[trigger] t.m.probes[k]).ifname
                                == run.wanted[i as int].ifname implies t.m.probes[k]
                            == run.wanted[i as int] by {
                            if k < p {
                                assert(t.m.probes[k] == m.probes[k]);
                            } else {
                                assert(t.m.probes[k] == m.probes[k + 1]);
                            }
                        }
                    },
                },
                Fault::Error(_) => match run.purpose {
                    Purpose::Stale => lemma_free_stale(m, run.noting(f), p + 1),
                    Purpose::Update(i) => lemma_free_wanted(m, run.noting(f), i + 1),
                },
            }
        },
        ProbePhase::InstallRule(i) => {
            lemma_free_wanted(m, run.noting(request_fault(run.phase, reply)), i + 1);
        },
        ProbePhase::InstallRoute(i) => {
            lemma_free_wanted(m, run.noting(request_fault(run.phase, reply)), i + 1);
            lemma_free_host(m, run, i as int, 0);
        },
        ProbePhase::InstallHost(i, j) => {
            lemma_free_wanted(m, run.noting(request_fault(run.phase, reply)), i + 1);
            lemma_free_host(m, run, i as int, j + 1);
        },
    }
}

proof fn lemma_free_host(m: MgrView, run: ProbeRunView, i: int, j: int)
    requires
        0 <= i < run.wanted.len(),
        0 <= j <= run.wanted[i].main_route_targets.len(),
        m.wf(),
        lists_fit(m, run),
        m.probes.len() < usize::MAX,
        names_distinct(run.wanted),
        name_fits(run.wanted[i].ifname),
        forall|k: int|
            0 <= k < m.probes.len() && (#[trigger] m.probes[k]).ifname == run.wanted[i].ifname
                ==> m.probes[k] == run.wanted[i],
    ensures
        way_is_free(enter_host(m, run, i, j)),
{
    if j >= run.wanted[i].main_route_targets.len() {
        lemma_upsert_fits(m, run, run.wanted[i]);
        lemma_free_wanted(
            MgrView { probes: upsert(m.probes, run.wanted[i]), ..m },
            run,
            i + 1,
        );
    }
}

proof fn lemma_next(
    asks: spec_fn(Ask) -> bool,
    first: Seq<ProbeView>,
    s: ProbeState,
    reply: Result<(), NetlinkError>,
)
    requires
        phase_wf(s.m, s.run),
        lists_fit(s.m, s.run),
        s.m.probes.len() < usize::MAX,
        way_is_free(s),
        !(s.run.phase is Finished),
    ensures
        faithful(s.m.order, next_state(s.m, s.run, reply)),
        course(asks, first, s) && request_fault(s.run.phase, reply) == Fault::Clear && (
        s.run.phase matches ProbePhase::RemoveRule(_, f) ==> f == Fault::Clear) && counted(
            asks,
            s.m.order,
            next_state(s.m, s.run, reply),
        ) ==> course(asks, first, next_state(s.m, s.run, reply)),
{
    let (m, run) = (s.m, s.run);
    let t = next_state(m, run, reply);
    let rf = request_fault(run.phase, reply);
    match run.phase {
        ProbePhase::RemoveHost(p, j) => lemma_remove(asks, first, m, run, p as int, j + 1),
        ProbePhase::RemoveRoute(p) => lemma_ask(m, t.step, Ask::NoRule(m.probes[p as int])),
        ProbePhase::RemoveRule(p, g) => {
            lemma_removed(
                asks,
                first,
                m,
                run,
                p as int,
                crate::netlink::probe_path::first_of(g, rf),
            );
        },
        ProbePhase::InstallRule(i) => {
            if rf is Clear {
                lemma_ask(m, t.step, Ask::Route(run.wanted[i as int]));
            } else {
                lemma_wanted(asks, first, m, run.noting(rf), i + 1);
            }
        },
        ProbePhase::InstallRoute(i) => {
            if rf is Clear {
                lemma_host(asks, first, m, run, i as int, 0);
            } else {
                lemma_wanted(asks, first, m, run.noting(rf), i + 1);
            }
        },
        ProbePhase::InstallHost(i, j) => {
            if rf is Clear {
                lemma_host(asks, first, m, run, i as int, j + 1);
            } else {
                lemma_wanted(asks, first, m, run.noting(rf), i + 1);
            }
        },
        ProbePhase::Finished => {},
    }
}

proof fn lemma_more(
    few: spec_fn(Ask) -> bool,
    many: spec_fn(Ask) -> bool,
    first: Seq<ProbeView>,
    s: ProbeState,
)
    requires
        phase_wf(s.m, s.run),
        course(few, first, s),
        forall|a: Ask| few(a) ==> #[trigger] many(a),
    ensures
        course(many, first, s),
{
    assert forall|q: ProbeView| first.contains(q) implies #[trigger] s.m.probes.contains(q)
        || all_dropped(many, q) by {}
    assert forall|p: ProbeView| all_asked(few, p) implies #[trigger] all_asked(many, p) by {}
}

proof fn lemma_trace(m: MgrView, wanted: Seq<ProbeView>, replies: Seq<Result<(), NetlinkError>>)
    requires
        run_fits(m, wanted),
        names_distinct(wanted),
    ensures
        way_is_free(probe_run(m, wanted, replies)),
        faithful(m.order, probe_run(m, wanted, replies)),
        first_fault(m, wanted, replies) == Fault::Clear ==> course(
            asked_in(m, wanted, replies),
            m.probes,
            probe_run(m, wanted, replies),
        ),
    decreases replies.len(),
{
    let asks = asked_in(m, wanted, replies);
    let s = probe_run(m, wanted, replies);
    run_unfolds(m, wanted, replies);
    assert(replies.take(replies.len() as int) =~= replies);
    assert(counted(asks, m.order, s)) by {
        assert forall|a: Ask| is_ask(m.order, s.step, a) implies #[trigger] asks(a) by {
            assert(is_ask(
                m.order,
                probe_run(m, wanted, replies.take(replies.len() as int)).step,
                a,
            ));
        }
    }
    if replies.len() == 0 {
        lemma_free_stale(m, fresh_probes(wanted), 0);
        assert(none_forgotten(asks, m.probes, m.probes));
        lemma_stale(asks, m.probes, m, fresh_probes(wanted), 0);
    } else {
        let before = replies.drop_last();
        let b = probe_run(m, wanted, before);
        lemma_trace(m, wanted, before);
        lemma_run(m, wanted, before);
        lemma_last_fault(m, wanted, replies);
        lemma_turned_to(b.m, b.run);
        lemma_free_next(b, replies.last());
        if first_fault(m, wanted, replies) == Fault::Clear {
            assert forall|a: Ask| asked_in(m, wanted, before)(a) implies #[trigger] asks(a) by {
                let k = choose|k: int|
                    0 <= k <= before.len() && is_ask(
                        m.order,
                        (#[trigger] probe_run(m, wanted, before.take(k))).step,
                        a,
                    );
                assert(before.take(k) =~= replies.take(k));
                assert(is_ask(m.order, probe_run(m, wanted, replies.take(k)).step, a));
            }
            lemma_more(asked_in(m, wanted, before), asks, m.probes, b);
        }
        if !(b.run.phase is Finished) {
            lemma_next(asks, m.probes, b, replies.last());
        }
    }
}

/// A run that succeeds has asked for everything that it was to do: for each wanted
/// path the rule, the route in its table, and a host route to every target that
/// needs one; and of each path known before that is not wanted as it was, that the
/// rule, the route and every host route go.
pub proof fn success_means_everything_was_asked_for(
    m: MgrView,
    wanted: Seq<ProbeView>,
    replies: Seq<Result<(), NetlinkError>>,
)
    requires
        run_fits(m, wanted),
        names_distinct(wanted),
        probe_run(m, wanted, replies).step == StepView::Done(None),
    ensures
        forall|i: int|
            #![trigger wanted[i]]
            0 <= i < wanted.len() ==> {
                &&& asked(m, wanted, replies, Ask::Rule(wanted[i]))
                &&& asked(m, wanted, replies, Ask::Route(wanted[i]))
                &&& forall|j: int|
                    0 <= j < wanted[i].main_route_targets.len() ==> asked(
                        m,
                        wanted,
                        replies,
                        Ask::Host(wanted[i], #[trigger] wanted[i].main_route_targets[j]),
                    )
            },
        forall|k: int|
            #![trigger m.probes[k]]
            0 <= k < m.probes.len() && !wanted.contains(m.probes[k]) ==> {
                &&& asked(m, wanted, replies, Ask::NoRule(m.probes[k]))
                &&& asked(m, wanted, replies, Ask::NoRoute(m.probes[k]))
                &&& forall|j: int|
                    0 <= j < m.probes[k].main_route_targets.len() ==> asked(
                        m,
                        wanted,
                        replies,
                        Ask::NoHost(#[trigger] m.probes[k].main_route_targets[j]),
                    )
            },
{
    let s = probe_run(m, wanted, replies);
    let asks = asked_in(m, wanted, replies);
    run_tells_the_first_failure(m, wanted, replies);
    lemma_no_fault(m, wanted, replies);
    lemma_trace(m, wanted, replies);
    lemma_run(m, wanted, replies);
    success_means_just_the_wanted_paths(m, wanted, replies);
    assert(s.run.phase is Finished);
    assert forall|i: int| #![trigger wanted[i]] 0 <= i < wanted.len() implies {
        &&& asked(m, wanted, replies, Ask::Rule(wanted[i]))
        &&& asked(m, wanted, replies, Ask::Route(wanted[i]))
        &&& forall|j: int|
            0 <= j < wanted[i].main_route_targets.len() ==> asked(
                m,
                wanted,
                replies,
                Ask::Host(wanted[i], #[trigger] wanted[i].main_route_targets[j]),
            )
    } by {
        assert(all_asked(asks, wanted[i]));
        assert forall|j: int| 0 <= j < wanted[i].main_route_targets.len() implies asked(
            m,
            wanted,
            replies,
            Ask::Host(wanted[i], #[trigger] wanted[i].main_route_targets[j]),
        ) by {
            assert(asks(Ask::Host(wanted[i], wanted[i].main_route_targets[j])));
        }
    }
    assert forall|k: int|
        #![trigger m.probes[k]]
        0 <= k < m.probes.len() && !wanted.contains(m.probes[k]) implies {
        &&& asked(m, wanted, replies, Ask::NoRule(m.probes[k]))
        &&& asked(m, wanted, replies, Ask::NoRoute(m.probes[k]))
        &&& forall|j: int|
            0 <= j < m.probes[k].main_route_targets.len() ==> asked(
                m,
                wanted,
                replies,
                Ask::NoHost(#[trigger] m.probes[k].main_route_targets[j]),
            )
    } by {
        let q = m.probes[k];
        assert(m.probes.contains(q));
        assert(!s.m.probes.contains(q));
        assert(all_dropped(asks, q));
        assert forall|j: int| 0 <= j < q.main_route_targets.len() implies asked(
            m,
            wanted,
            replies,
            Ask::NoHost(#[trigger] q.main_route_targets[j]),
        ) by {
            assert(asks(Ask::NoHost(q.main_route_targets[j])));
        }
    }
}

/// Nothing else is asked of the kernel, whatever it answers: each request is for a
/// wanted path, or for a known path to go that is not wanted as it is.
pub proof fn nothing_else_is_asked_for(
    m: MgrView,
    wanted: Seq<ProbeView>,
    replies: Seq<Result<(), NetlinkError>>,
)
    requires
        run_fits(m, wanted),
        names_distinct(wanted),
        !(probe_run(m, wanted, replies).step is Done),
    ensures
        ({
            let s = probe_run(m, wanted, replies);
            let known = s.m.probes;
            exists|a: Ask| #[trigger]
                is_ask(m.order, s.step, a) && match a {
                    Ask::Rule(p) => wanted.contains(p),
                    Ask::Route(p) => wanted.contains(p),
                    Ask::Host(p, t) => wanted.contains(p) && p.main_route_targets.contains(t),
                    Ask::NoRule(p) => known.contains(p) && !wanted.contains(p),
                    Ask::NoRoute(p) => known.contains(p) && !wanted.contains(p),
                    Ask::NoHost(t) => exists|k: int|
                        0 <= k < known.len() && !wanted.contains(#[trigger] known[k])
                            && known[k].main_route_targets.contains(t),
                }
        }),
{
    let s = probe_run(m, wanted, replies);
    lemma_trace(m, wanted, replies);
    lemma_run(m, wanted, replies);
    let a = phase_ask(s.m, s.run)->0;
    assert(is_ask(m.order, s.step, a));
    match s.run.phase {
        ProbePhase::RemoveHost(p, j) => {
            let known = s.m.probes;
            assert(!wanted.contains(known[p as int]));
            assert(known[p as int].main_route_targets.contains(
                known[p as int].main_route_targets[j as int],
            ));
        },
        ProbePhase::RemoveRoute(p) => assert(s.m.probes.contains(s.m.probes[p as int])),
        ProbePhase::RemoveRule(p, _) => assert(s.m.probes.contains(s.m.probes[p as int])),
        ProbePhase::InstallHost(i, j) => {
            assert(wanted.contains(wanted[i as int]));
            assert(wanted[i as int].main_route_targets.contains(
                wanted[i as int].main_route_targets[j as int],
            ));
        },
        _ => {},
    }
}

/// Whether no wanted path has the name of a path.
pub open spec fn not_wanted(q: ProbeView, wanted: Seq<ProbeView>) -> bool {
    forall|x: int| 0 <= x < wanted.len() ==> (#[trigger] wanted[x]).ifname != q.ifname
}

/// Whether every path that was known at first and is not wanted was asked to go, or
/// stands in the list of known paths from the place `from` on.
pub open spec fn awaits(
    asks: spec_fn(Ask) -> bool,
    first: Seq<ProbeView>,
    wanted: Seq<ProbeView>,
    known: Seq<ProbeView>,
    from: int,
) -> bool {
    forall|a: int|
        0 <= a < first.len() && not_wanted(#[trigger] first[a], wanted) ==> all_dropped(
            asks,
            first[a],
        ) || exists|b: int| from <= b < known.len() && #[trigger] known[b] == first[a]
}

/// Whether every path that was known at first and is not wanted was asked to go.
pub open spec fn all_gone(
    asks: spec_fn(Ask) -> bool,
    first: Seq<ProbeView>,
    wanted: Seq<ProbeView>,
) -> bool {
    forall|a: int|
        0 <= a < first.len() && not_wanted(#[trigger] first[a], wanted) ==> all_dropped(
            asks,
            first[a],
        )
}

/// What was asked to go by the time that a state is reached, whatever the kernel
/// has answered.
pub open spec fn removal_course(
    asks: spec_fn(Ask) -> bool,
    first: Seq<ProbeView>,
    s: ProbeState,
) -> bool {
    let known = s.m.probes;
    match (s.run.purpose, s.run.phase) {
        (Purpose::Stale, ProbePhase::RemoveHost(p, j)) => awaits(
            asks,
            first,
            s.run.wanted,
            known,
            p as int,
        ) && hosts_dropped(asks, known[p as int], j + 1),
        (Purpose::Stale, ProbePhase::RemoveRoute(p)) => awaits(
            asks,
            first,
            s.run.wanted,
            known,
            p as int,
        ) && hosts_dropped(
            asks,
            known[p as int],
            known[p as int].main_route_targets.len() as int,
        ) && asks(Ask::NoRoute(known[p as int])),
        (Purpose::Stale, ProbePhase::RemoveRule(p, _)) => awaits(
            asks,
            first,
            s.run.wanted,
            known,
            p as int,
        ) && all_dropped(asks, known[p as int]),
        _ => all_gone(asks, first, s.run.wanted),
    }
}

pub proof fn lemma_gone_stale(
    asks: spec_fn(Ask) -> bool,
    first: Seq<ProbeView>,
    m: MgrView,
    run: ProbeRunView,
    from: int,
)
    requires
        0 <= from <= m.probes.len(),
        lists_fit(m, run),
        awaits(asks, first, run.wanted, m.probes, from),
        counted(asks, m.order, enter_stale(m, run, from)),
    ensures
        removal_course(asks, first, enter_stale(m, run, from)),
{
    let p = next_unwanted(m.probes, run.wanted, from);
    lemma_next_unwanted(m.probes, run.wanted, from);
    assert forall|a: int|
        0 <= a < first.len() && not_wanted(#[trigger] first[a], run.wanted) implies all_dropped(
        asks,
        first[a],
    ) || exists|b: int| p <= b < m.probes.len() && #[trigger] m.probes[b] == first[a] by {
        if !all_dropped(asks, first[a]) {
            let b = choose|b: int| from <= b < m.probes.len() && #[trigger] m.probes[b] == first[a];
            if b < p {
                lemma_find_name(run.wanted, m.probes[b].ifname, 0);
                let x = find_name(run.wanted, m.probes[b].ifname, 0);
                assert(run.wanted[x].ifname == first[a].ifname);
            }
        }
    }
    if p < m.probes.len() {
        let stale = ProbeRunView { purpose: Purpose::Stale, ..run };
        lemma_remove(asks, first, m, stale, p, 0);
        let s = enter_remove(m, stale, p, 0);
        assert(is_ask(m.order, s.step, phase_ask(s.m, s.run)->0));
    }
}

pub proof fn lemma_gone_next(
    asks: spec_fn(Ask) -> bool,
    first: Seq<ProbeView>,
    s: ProbeState,
    reply: Result<(), NetlinkError>,
)
    requires
        phase_wf(s.m, s.run),
        lists_fit(s.m, s.run),
        removal_course(asks, first, s),
        counted(asks, s.m.order, next_state(s.m, s.run, reply)),
    ensures
        removal_course(asks, first, next_state(s.m, s.run, reply)),
{
    let (m, run) = (s.m, s.run);
    let t = next_state(m, run, reply);
    match run.phase {
        ProbePhase::RemoveHost(p, j) => {
            if run.purpose == Purpose::Stale {
                lemma_remove(asks, first, m, run, p as int, j + 1);
                assert(is_ask(m.order, t.step, phase_ask(t.m, t.run)->0));
            }
        },
        ProbePhase::RemoveRoute(p) => {
            if run.purpose == Purpose::Stale {
                lemma_ask(m, t.step, Ask::NoRule(m.probes[p as int]));
            }
        },
        ProbePhase::RemoveRule(p, g) => {
            let f = crate::netlink::probe_path::first_of(
                g,
                crate::netlink::probe_path::fault_of(
                    crate::netlink::reply::rule_committed(true, reply),
                ),
            );
            if run.purpose == Purpose::Stale {
                let less = MgrView { probes: m.probes.remove(p as int), ..m };
                lemma_fits_without(m, run, p as int);
                let (n, from) = match f {
                    Fault::Clear => (less, p as int),
                    Fault::Error(_) => (m, p + 1),
                };
                assert forall|a: int|
                    0 <= a < first.len() && not_wanted(
                        #[trigger] first[a],
                        run.wanted,
                    ) implies all_dropped(asks, first[a]) || exists|b: int|
                    from <= b < n.probes.len() && #[trigger] n.probes[b] == first[a] by {
                    if !all_dropped(asks, first[a]) {
                        let b = choose|b: int|
                            p <= b < m.probes.len() && #[trigger] m.probes[b] == first[a];
                        assert(b != p);
                        if f is Clear {
                            assert(n.probes[b - 1] == first[a]);
                        } else {
                            assert(n.probes[b] == first[a]);
                        }
                    }
                }
                if f is Clear {
                    lemma_gone_stale(asks, first, less, run, p as int);
                } else {
                    lemma_gone_stale(asks, first, m, run.noting(f), p + 1);
                }
            }
        },
        _ => {},
    }
}

/// Which answers are failures. A route, a rule or a host route that is not granted
/// is one, except for a rule that is there already; so is a deletion that is
/// refused, except of what is not there, and except of a host route.
pub proof fn which_answers_are_failures(phase: ProbePhase, reply: Result<(), NetlinkError>)
    ensures
        ({
            let gone = reply == Err::<(), NetlinkError>(NetlinkError::Os(2)) || reply == Err::<
                (),
                NetlinkError,
            >(NetlinkError::Os(3)) || reply == Err::<(), NetlinkError>(NetlinkError::Os(22));
            let there = reply == Err::<(), NetlinkError>(NetlinkError::Os(17));
            let f = request_fault(phase, reply);
            &&& phase is InstallRoute || phase is InstallHost ==> (f is Clear <==> reply is Ok)
            &&& phase is InstallRule ==> (f is Clear <==> reply is Ok || there)
            &&& phase is RemoveRoute ==> (f is Clear <==> reply is Ok || gone)
            &&& phase is RemoveRule ==> (f is Clear <==> reply is Ok || gone || there)
            &&& phase is RemoveHost ==> f is Clear
            &&& f matches Fault::Error(e) ==> reply == Err::<(), NetlinkError>(e)
        }),
{
}

} // verus!
