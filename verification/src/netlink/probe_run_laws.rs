//! What holds of a whole run of the operation on probe paths, from the first
//! request to the end.
use crate::netlink::apply::StepView;
use crate::netlink::manager::{probes_wf, MgrView, ProbeView};
use crate::netlink::probe_laws::{accepted_requests_bring_the_wanted_paths, is_wanted, lists_fit,
    names_distinct, on_course, only_installs, repeating_changes_nothing, repeating_removes_nothing,
    request_fault, settled, starts_on_course};
use crate::netlink::probe_path::{enter_host, enter_stale, enter_wanted, fault_option, find_name,
    first_of, lemma_find_name, next_state, next_unwanted, phase_wf, removed, upsert, Fault,
    ProbePhase, ProbeRunView, ProbeState, Purpose};
use crate::netlink::reply::NetlinkError;
use crate::netlink::request::name_fits;
use vstd::prelude::*;

verus! {

/// An operation before its first request.
pub open spec fn fresh_probes(wanted: Seq<ProbeView>) -> ProbeRunView {
    ProbeRunView {
        wanted,
        first_err: Fault::Clear,
        purpose: Purpose::Stale,
        phase: ProbePhase::Finished,
    }
}

/// The operation after a list of answers.
#[verifier::opaque]
pub open spec fn probe_run(
    m: MgrView,
    wanted: Seq<ProbeView>,
    replies: Seq<Result<(), NetlinkError>>,
) -> ProbeState
    decreases replies.len(),
{
    if replies.len() == 0 {
        enter_stale(m, fresh_probes(wanted), 0)
    } else {
        let s = probe_run(m, wanted, replies.drop_last());
        next_state(s.m, s.run, replies.last())
    }
}

/// What `probe_run` is.
pub proof fn run_unfolds(
    m: MgrView,
    wanted: Seq<ProbeView>,
    replies: Seq<Result<(), NetlinkError>>,
)
    ensures
        replies.len() == 0 ==> probe_run(m, wanted, replies) == enter_stale(
            m,
            fresh_probes(wanted),
            0,
        ),
        replies.len() > 0 ==> probe_run(m, wanted, replies) == next_state(
            probe_run(m, wanted, replies.drop_last()).m,
            probe_run(m, wanted, replies.drop_last()).run,
            replies.last(),
        ),
{
    reveal(probe_run);
}

/// The failure, if any, that the answer `k` of a run brings.
#[verifier::opaque]
pub open spec fn fault_at(
    m: MgrView,
    wanted: Seq<ProbeView>,
    replies: Seq<Result<(), NetlinkError>>,
    k: int,
) -> Fault {
    request_fault(probe_run(m, wanted, replies.take(k)).run.phase, replies[k])
}

/// The first failure among a list of answers.
pub open spec fn first_fault(
    m: MgrView,
    wanted: Seq<ProbeView>,
    replies: Seq<Result<(), NetlinkError>>,
) -> Fault
    decreases replies.len(),
{
    if replies.len() == 0 {
        Fault::Clear
    } else {
        first_of(
            first_fault(m, wanted, replies.drop_last()),
            fault_at(m, wanted, replies, replies.len() - 1),
        )
    }
}

/// Whether a manager and wanted paths are as they can be: records consistent,
/// lists and names no longer than memory makes them.
pub open spec fn run_fits(m: MgrView, wanted: Seq<ProbeView>) -> bool {
    &&& m.wf()
    &&& lists_fit(m, fresh_probes(wanted))
    &&& m.probes.len() + wanted.len() < usize::MAX
    &&& forall|i: int| 0 <= i < wanted.len() ==> name_fits((#[trigger] wanted[i]).ifname)
}

/// How many wanted paths have been turned to.
pub open spec fn turned_to(run: ProbeRunView) -> int {
    match run.phase {
        ProbePhase::RemoveHost(_, _) | ProbePhase::RemoveRoute(_) | ProbePhase::RemoveRule(_, _) => {
            match run.purpose {
                Purpose::Stale => 0,
                Purpose::Update(i) => i + 1,
            }
        },
        ProbePhase::InstallRule(i) => i + 1,
        ProbePhase::InstallRoute(i) => i + 1,
        ProbePhase::InstallHost(i, _) => i + 1,
        ProbePhase::Finished => run.wanted.len() as int,
    }
}

/// The error of a removal whose second request is still under way.
pub open spec fn pending(run: ProbeRunView) -> Fault {
    match run.phase {
        ProbePhase::RemoveRule(_, f) => f,
        _ => Fault::Clear,
    }
}

/// What every state of a run keeps, with `most` paths known at the start.
pub open spec fn sound(s: ProbeState, most: int, wanted: Seq<ProbeView>) -> bool {
    &&& phase_wf(s.m, s.run)
    &&& lists_fit(s.m, s.run)
    &&& s.run.wanted == wanted
    &&& s.m.probes.len() <= most + turned_to(s.run)
    &&& s.run.phase is InstallRule || s.run.phase is InstallRoute || s.run.phase is InstallHost
        ==> s.m.probes.len() < most + turned_to(s.run)
    &&& s.step is Done <==> s.run.phase is Finished
    &&& s.step is Done ==> s.step == StepView::Done(fault_option(s.run.first_err))
}

/// Whether a state carries the first failure so far.
pub open spec fn told(s: ProbeState, f: Fault) -> bool {
    first_of(s.run.first_err, pending(s.run)) == f
}

proof fn lemma_wanted_sound(m: MgrView, run: ProbeRunView, i: int, most: int)
    requires
        m.wf(),
        lists_fit(m, run),
        forall|k: int| 0 <= k < run.wanted.len() ==> name_fits((#[trigger] run.wanted[k]).ifname),
        run.purpose matches Purpose::Update(k) ==> k < run.wanted.len(),
        0 <= i <= run.wanted.len(),
        m.probes.len() <= most + i,
    ensures
        sound(enter_wanted(m, run, i), most, run.wanted),
        told(enter_wanted(m, run, i), run.first_err),
{
    if i < run.wanted.len() {
        lemma_find_name(m.probes, run.wanted[i].ifname, 0);
    }
}

pub proof fn lemma_stale_sound(m: MgrView, run: ProbeRunView, from: int, most: int)
    requires
        m.wf(),
        lists_fit(m, run),
        forall|k: int| 0 <= k < run.wanted.len() ==> name_fits((#[trigger] run.wanted[k]).ifname),
        run.purpose == Purpose::Stale,
        0 <= from <= m.probes.len() <= most,
    ensures
        sound(enter_stale(m, run, from), most, run.wanted),
        told(enter_stale(m, run, from), run.first_err),
{
    lemma_next_unwanted(m.probes, run.wanted, from);
    if next_unwanted(m.probes, run.wanted, from) >= m.probes.len() {
        lemma_wanted_sound(m, run, 0, most);
    }
}

pub proof fn lemma_next_unwanted(list: Seq<ProbeView>, wanted: Seq<ProbeView>, from: int)
    requires
        0 <= from <= list.len(),
    ensures
        ({
            let k = next_unwanted(list, wanted, from);
            &&& from <= k <= list.len()
            &&& forall|i: int| from <= i < k ==> is_wanted(#[trigger] list[i], wanted)
        }),
    decreases list.len() - from,
{
    if from < list.len() && is_wanted(list[from], wanted) {
        lemma_next_unwanted(list, wanted, from + 1);
    }
}

/// The manager with other known paths.
pub open spec fn knowing(m: MgrView, probes: Seq<ProbeView>) -> MgrView {
    MgrView { probes, ..m }
}

pub proof fn lemma_removed_fits(m: MgrView, run: ProbeRunView, p: int)
    requires
        m.wf(),
        lists_fit(m, run),
        0 <= p < m.probes.len(),
    ensures
        knowing(m, m.probes.remove(p)).wf(),
        lists_fit(knowing(m, m.probes.remove(p)), run),
{
    reveal(probes_wf);
    let gone = m.probes.remove(p);
    assert forall|k: int| 0 <= k < gone.len() implies (
    #[trigger] gone[k]).main_route_targets.len() <= usize::MAX by {
        if k < p {
            assert(gone[k] == m.probes[k]);
        } else {
            assert(gone[k] == m.probes[k + 1]);
        }
    }
}

pub proof fn lemma_upsert_fits(m: MgrView, run: ProbeRunView, p: ProbeView)
    requires
        m.wf(),
        lists_fit(m, run),
        name_fits(p.ifname),
        p.main_route_targets.len() <= usize::MAX,
        m.probes.len() < usize::MAX,
    ensures
        knowing(m, upsert(m.probes, p)).wf(),
        lists_fit(knowing(m, upsert(m.probes, p)), run),
        upsert(m.probes, p).len() <= m.probes.len() + 1,
{
    reveal(probes_wf);
    lemma_find_name(m.probes, p.ifname, 0);
    let up = upsert(m.probes, p);
    let k = find_name(m.probes, p.ifname, 0);
    assert forall|i: int| 0 <= i < up.len() implies (
    #[trigger] up[i]).main_route_targets.len() <= usize::MAX by {
        if i != k {
            assert(up[i] == m.probes[i]);
        }
    }
}

proof fn lemma_host_sound(m: MgrView, run: ProbeRunView, i: int, j: int, most: int)
    requires
        m.wf(),
        lists_fit(m, run),
        forall|k: int| 0 <= k < run.wanted.len() ==> name_fits((#[trigger] run.wanted[k]).ifname),
        run.purpose matches Purpose::Update(k) ==> k < run.wanted.len(),
        0 <= i < run.wanted.len(),
        0 <= j <= run.wanted[i].main_route_targets.len(),
        m.probes.len() < most + i + 1,
        most + run.wanted.len() < usize::MAX,
    ensures
        sound(enter_host(m, run, i, j), most, run.wanted),
        told(enter_host(m, run, i, j), run.first_err),
{
    let path = run.wanted[i];
    if j >= path.main_route_targets.len() {
        lemma_upsert_fits(m, run, path);
        lemma_wanted_sound(MgrView { probes: upsert(m.probes, path), ..m }, run, i + 1, most);
    }
}

pub proof fn lemma_next_sound(
    s: ProbeState,
    reply: Result<(), NetlinkError>,
    most: int,
    wanted: Seq<ProbeView>,
    f: Fault,
)
    requires
        sound(s, most, wanted),
        told(s, f),
        most + wanted.len() < usize::MAX,
    ensures
        sound(next_state(s.m, s.run, reply), most, wanted),
        told(next_state(s.m, s.run, reply), first_of(f, request_fault(s.run.phase, reply))),
{
    let (m, run) = (s.m, s.run);
    let rf = request_fault(run.phase, reply);
    match run.phase {
        ProbePhase::RemoveHost(_, _) | ProbePhase::RemoveRoute(_) | ProbePhase::Finished => {},
        ProbePhase::RemoveRule(p, g) => {
            lemma_removed_sound(m, run, p as int, first_of(g, rf), most);
        },
        ProbePhase::InstallRule(i) => {
            if rf is Error {
                lemma_wanted_sound(m, run.noting(rf), i + 1, most);
            }
        },
        ProbePhase::InstallRoute(i) => {
            if rf is Error {
                lemma_wanted_sound(m, run.noting(rf), i + 1, most);
            } else {
                lemma_host_sound(m, run, i as int, 0, most);
            }
        },
        ProbePhase::InstallHost(i, j) => {
            if rf is Error {
                lemma_wanted_sound(m, run.noting(rf), i + 1, most);
            } else {
                lemma_host_sound(m, run, i as int, j + 1, most);
            }
        },
    }
}

proof fn lemma_removed_sound(m: MgrView, run: ProbeRunView, p: int, f: Fault, most: int)
    requires
        phase_wf(m, run),
        lists_fit(m, run),
        run.phase is RemoveRule,
        0 <= p < m.probes.len() <= most + turned_to(run),
    ensures
        sound(removed(m, run, p, f), most, run.wanted),
        told(removed(m, run, p, f), first_of(run.first_err, f)),
{
    let gone = MgrView { probes: m.probes.remove(p), ..m };
    lemma_removed_fits(m, run, p);
    match f {
        Fault::Clear => match run.purpose {
            Purpose::Stale => lemma_stale_sound(gone, run, p, most),
            Purpose::Update(_) => {},
        },
        Fault::Error(_) => match run.purpose {
            Purpose::Stale => lemma_stale_sound(m, run.noting(f), p + 1, most),
            Purpose::Update(i) => lemma_wanted_sound(m, run.noting(f), i + 1, most),
        },
    }
}

pub proof fn lemma_last_fault(
    m: MgrView,
    wanted: Seq<ProbeView>,
    replies: Seq<Result<(), NetlinkError>>,
)
    requires
        replies.len() > 0,
    ensures
        fault_at(m, wanted, replies, replies.len() - 1) == request_fault(
            probe_run(m, wanted, replies.drop_last()).run.phase,
            replies.last(),
        ),
{
    reveal(fault_at);
    assert(replies.take(replies.len() - 1) =~= replies.drop_last());
}

pub proof fn lemma_run(m: MgrView, wanted: Seq<ProbeView>, replies: Seq<Result<(), NetlinkError>>)
    requires
        run_fits(m, wanted),
    ensures
        sound(probe_run(m, wanted, replies), m.probes.len() as int, wanted),
        told(probe_run(m, wanted, replies), first_fault(m, wanted, replies)),
    decreases replies.len(),
{
    let most = m.probes.len() as int;
    run_unfolds(m, wanted, replies);
    if replies.len() == 0 {
        lemma_stale_sound(m, fresh_probes(wanted), 0, most);
    } else {
        let before = replies.drop_last();
        lemma_last_fault(m, wanted, replies);
        lemma_run(m, wanted, before);
        lemma_next_sound(
            probe_run(m, wanted, before),
            replies.last(),
            most,
            wanted,
            first_fault(m, wanted, before),
        );
    }
}

/// The operation that a list of answers brings to its end tells the first
/// failure, and succeeds if and only if there is none: no request of a removal or
/// an installation has failed.
pub proof fn run_tells_the_first_failure(
    m: MgrView,
    wanted: Seq<ProbeView>,
    replies: Seq<Result<(), NetlinkError>>,
)
    requires
        run_fits(m, wanted),
        probe_run(m, wanted, replies).step is Done,
    ensures
        probe_run(m, wanted, replies).step == StepView::Done(
            fault_option(first_fault(m, wanted, replies)),
        ),
        probe_run(m, wanted, replies).step == StepView::Done(None) <==> forall|k: int|
            0 <= k < replies.len() ==> #[trigger] fault_at(m, wanted, replies, k) == Fault::Clear,
{
    lemma_run(m, wanted, replies);
    lemma_no_fault(m, wanted, replies);
}

proof fn lemma_same_faults(
    m: MgrView,
    wanted: Seq<ProbeView>,
    replies: Seq<Result<(), NetlinkError>>,
    k: int,
)
    requires
        0 <= k < replies.len() - 1,
    ensures
        fault_at(m, wanted, replies.drop_last(), k) == fault_at(m, wanted, replies, k),
{
    reveal(fault_at);
    assert(replies.drop_last().take(k) =~= replies.take(k));
}

pub proof fn lemma_no_fault(m: MgrView, wanted: Seq<ProbeView>, replies: Seq<Result<(), NetlinkError>>)
    ensures
        first_fault(m, wanted, replies) == Fault::Clear <==> forall|k: int|
            0 <= k < replies.len() ==> #[trigger] fault_at(m, wanted, replies, k) == Fault::Clear,
    decreases replies.len(),
{
    if replies.len() > 0 {
        let before = replies.drop_last();
        let n = before.len() as int;
        lemma_no_fault(m, wanted, before);
        assert forall|k: int| 0 <= k < n implies #[trigger] fault_at(m, wanted, replies, k)
            == fault_at(m, wanted, before, k) by {
            lemma_same_faults(m, wanted, replies, k);
        }
        if forall|k: int|
            0 <= k < replies.len() ==> #[trigger] fault_at(m, wanted, replies, k) == Fault::Clear {
            assert forall|k: int| 0 <= k < n implies #[trigger] fault_at(m, wanted, before, k)
                == Fault::Clear by {
                assert(fault_at(m, wanted, replies, k) == fault_at(m, wanted, before, k));
            }
            assert(fault_at(m, wanted, replies, n) == Fault::Clear);
        }
    }
}

pub proof fn lemma_on_course(m: MgrView, wanted: Seq<ProbeView>, replies: Seq<Result<(), NetlinkError>>)
    requires
        run_fits(m, wanted),
        names_distinct(wanted),
        first_fault(m, wanted, replies) == Fault::Clear,
    ensures
        on_course(probe_run(m, wanted, replies).m, probe_run(m, wanted, replies).run),
    decreases replies.len(),
{
    run_unfolds(m, wanted, replies);
    if replies.len() == 0 {
        starts_on_course(m, fresh_probes(wanted));
    } else {
        let before = replies.drop_last();
        let s = probe_run(m, wanted, before);
        lemma_run(m, wanted, before);
        lemma_on_course(m, wanted, before);
        lemma_last_fault(m, wanted, replies);
        lemma_turned_to(s.m, s.run);
        accepted_requests_bring_the_wanted_paths(s.m, s.run, replies.last());
    }
}

pub proof fn lemma_turned_to(m: MgrView, run: ProbeRunView)
    requires
        phase_wf(m, run),
    ensures
        0 <= turned_to(run) <= run.wanted.len(),
{
}

/// After a success the known paths are exactly the wanted ones.
pub proof fn success_means_just_the_wanted_paths(
    m: MgrView,
    wanted: Seq<ProbeView>,
    replies: Seq<Result<(), NetlinkError>>,
)
    requires
        run_fits(m, wanted),
        names_distinct(wanted),
        probe_run(m, wanted, replies).step == StepView::Done(None),
    ensures
        settled(probe_run(m, wanted, replies).m, wanted),
        forall|p: ProbeView| #[trigger]
            probe_run(m, wanted, replies).m.probes.contains(p) <==> wanted.contains(p),
{
    let s = probe_run(m, wanted, replies);
    run_tells_the_first_failure(m, wanted, replies);
    lemma_run(m, wanted, replies);
    lemma_on_course(m, wanted, replies);
    let known = s.m.probes;
    assert forall|p: ProbeView| wanted.contains(p) implies known.contains(p) by {
        let i = choose|i: int| 0 <= i < wanted.len() && wanted[i] == p;
        assert(known.contains(wanted[i]));
    }
    assert forall|p: ProbeView| known.contains(p) implies wanted.contains(p) by {
        reveal(probes_wf);
        let k = choose|k: int| 0 <= k < known.len() && known[k] == p;
        assert(is_wanted(known[k], wanted));
        lemma_find_name(wanted, p.ifname, 0);
        let i = find_name(wanted, p.ifname, 0);
        assert(known.contains(wanted[i]));
        let x = choose|x: int| 0 <= x < known.len() && known[x] == wanted[i];
        assert(x == k);
    }
}

/// Whether a known path is being removed.
pub open spec fn tries_removal(s: ProbeState, q: ProbeView) -> bool {
    match s.run.phase {
        ProbePhase::RemoveHost(p, _) => s.m.probes[p as int] == q,
        ProbePhase::RemoveRoute(p) => s.m.probes[p as int] == q,
        ProbePhase::RemoveRule(p, _) => s.m.probes[p as int] == q,
        _ => false,
    }
}

/// Whether the wanted path `i` is being put in place.
pub open spec fn tries_install(s: ProbeState, i: int) -> bool {
    match s.run.phase {
        ProbePhase::InstallRule(k) => k == i,
        ProbePhase::InstallRoute(k) => k == i,
        ProbePhase::InstallHost(k, _) => k == i,
        _ => false,
    }
}

/// Whether a known path that differs from the wanted path `i` is being removed to
/// make way for it.
pub open spec fn makes_way(s: ProbeState, i: int) -> bool {
    &&& s.run.phase is RemoveHost || s.run.phase is RemoveRoute || s.run.phase is RemoveRule
    &&& s.run.purpose matches Purpose::Update(k) && k == i
}

/// Whether the removal of a path was tried at some time of a run.
pub open spec fn removal_tried(
    m: MgrView,
    wanted: Seq<ProbeView>,
    replies: Seq<Result<(), NetlinkError>>,
    q: ProbeView,
) -> bool {
    exists|k: int|
        0 <= k <= replies.len() && tries_removal(
            #[trigger] probe_run(m, wanted, replies.take(k)),
            q,
        )
}

/// Whether the wanted path `i` was turned to at some time of a run: it was being
/// put in place, or an earlier path was being removed to make way for it.
pub open spec fn path_tried(
    m: MgrView,
    wanted: Seq<ProbeView>,
    replies: Seq<Result<(), NetlinkError>>,
    i: int,
) -> bool {
    exists|k: int|
        0 <= k <= replies.len() && {
            let s = #[trigger] probe_run(m, wanted, replies.take(k));
            tries_install(s, i) || makes_way(s, i)
        }
}

/// Whether the wanted path `i` was being put in place at some time of a run.
pub open spec fn install_tried(
    m: MgrView,
    wanted: Seq<ProbeView>,
    replies: Seq<Result<(), NetlinkError>>,
    i: int,
) -> bool {
    exists|k: int|
        0 <= k <= replies.len() && tries_install(
            #[trigger] probe_run(m, wanted, replies.take(k)),
            i,
        )
}

/// The place of the path that is being removed because it is not wanted.
spec fn stale_place(s: ProbeState) -> Option<int> {
    if s.run.purpose == Purpose::Stale {
        match s.run.phase {
            ProbePhase::RemoveHost(p, _) => Some(p as int),
            ProbePhase::RemoveRoute(p) => Some(p as int),
            ProbePhase::RemoveRule(p, _) => Some(p as int),
            _ => None,
        }
    } else {
        None
    }
}

/// Whether a path comes after the place of the removal under way.
spec fn still_to_come(s: ProbeState, q: ProbeView) -> bool {
    stale_place(s) matches Some(p) && exists|b: int|
        p < b < s.m.probes.len() && #[trigger] s.m.probes[b] == q
}

spec fn covered(
    first: Seq<ProbeView>,
    s: ProbeState,
    gone: spec_fn(ProbeView) -> bool,
    placed: spec_fn(int) -> bool,
) -> bool {
    &&& forall|a: int|
        0 <= a < first.len() && !is_wanted(#[trigger] first[a], s.run.wanted) ==> gone(first[a])
            || still_to_come(s, first[a])
    &&& forall|i: int| 0 <= i < turned_to(s.run) ==> #[trigger] placed(i)
}

/// Whether what a state tries is counted as tried.
spec fn counts(
    s: ProbeState,
    gone: spec_fn(ProbeView) -> bool,
    placed: spec_fn(int) -> bool,
) -> bool {
    &&& forall|q: ProbeView| tries_removal(s, q) ==> #[trigger] gone(q)
    &&& forall|i: int| tries_install(s, i) || makes_way(s, i) ==> #[trigger] placed(i)
}

proof fn lemma_wanted_covers(
    first: Seq<ProbeView>,
    m: MgrView,
    run: ProbeRunView,
    i: int,
    gone: spec_fn(ProbeView) -> bool,
    placed: spec_fn(int) -> bool,
)
    requires
        0 <= i <= run.wanted.len() <= usize::MAX,
        m.probes.len() <= usize::MAX,
        counts(enter_wanted(m, run, i), gone, placed),
        forall|a: int|
            0 <= a < first.len() && !is_wanted(#[trigger] first[a], run.wanted) ==> gone(first[a]),
        forall|k: int| 0 <= k < i ==> #[trigger] placed(k),
    ensures
        covered(first, enter_wanted(m, run, i), gone, placed),
{
    let s = enter_wanted(m, run, i);
    if i < run.wanted.len() {
        lemma_find_name(m.probes, run.wanted[i].ifname, 0);
        assert(tries_install(s, i) || makes_way(s, i));
        assert(placed(i));
    }
}

proof fn lemma_stale_covers(
    first: Seq<ProbeView>,
    m: MgrView,
    run: ProbeRunView,
    from: int,
    gone: spec_fn(ProbeView) -> bool,
    placed: spec_fn(int) -> bool,
)
    requires
        0 <= from <= m.probes.len() <= usize::MAX,
        run.wanted.len() <= usize::MAX,
        counts(enter_stale(m, run, from), gone, placed),
        forall|a: int|
            0 <= a < first.len() && !is_wanted(#[trigger] first[a], run.wanted) ==> gone(first[a])
                || exists|b: int|
                from <= b < m.probes.len() && #[trigger] m.probes[b] == first[a],
    ensures
        covered(first, enter_stale(m, run, from), gone, placed),
{
    let s = enter_stale(m, run, from);
    let p = next_unwanted(m.probes, run.wanted, from);
    lemma_next_unwanted(m.probes, run.wanted, from);
    assert forall|a: int|
        0 <= a < first.len() && !is_wanted(#[trigger] first[a], run.wanted) implies gone(first[a])
        || p < m.probes.len() && still_to_come(s, first[a]) by {
        if !gone(first[a]) {
            let b = choose|b: int| from <= b < m.probes.len() && #[trigger] m.probes[b] == first[a];
            if b < p {
                assert(is_wanted(m.probes[b], run.wanted));
            } else if b == p {
                assert(tries_removal(s, first[a]));
            } else {
                assert(s.m.probes[b] == first[a]);
            }
        }
    }
    if p >= m.probes.len() {
        lemma_wanted_covers(first, m, run, 0, gone, placed);
    }
}

proof fn lemma_removed_covers(
    first: Seq<ProbeView>,
    s: ProbeState,
    p: int,
    f: Fault,
    gone: spec_fn(ProbeView) -> bool,
    placed: spec_fn(int) -> bool,
)
    requires
        phase_wf(s.m, s.run),
        lists_fit(s.m, s.run),
        s.run.phase matches ProbePhase::RemoveRule(x, _) && x == p,
        covered(first, s, gone, placed),
        counts(removed(s.m, s.run, p, f), gone, placed),
    ensures
        covered(first, removed(s.m, s.run, p, f), gone, placed),
{
    let (m, run) = (s.m, s.run);
    let less = MgrView { probes: m.probes.remove(p), ..m };
    match run.purpose {
        Purpose::Stale => {
            let (n, from) = match f {
                Fault::Clear => (less, p),
                Fault::Error(_) => (m, p + 1),
            };
            assert forall|a: int|
                0 <= a < first.len() && !is_wanted(#[trigger] first[a], run.wanted) implies gone(
                first[a],
            ) || exists|b: int| from <= b < n.probes.len() && #[trigger] n.probes[b] == first[a] by {
                if !gone(first[a]) {
                    assert(still_to_come(s, first[a]));
                    let b = choose|b: int|
                        p < b < m.probes.len() && #[trigger] m.probes[b] == first[a];
                    if f is Clear {
                        assert(n.probes[b - 1] == first[a]);
                    } else {
                        assert(n.probes[b] == first[a]);
                    }
                }
            }
            if f is Clear {
                lemma_stale_covers(first, less, run, p, gone, placed);
            } else {
                lemma_stale_covers(first, m, run.noting(f), p + 1, gone, placed);
            }
        },
        Purpose::Update(i) => {
            if f is Error {
                lemma_wanted_covers(first, m, run.noting(f), i + 1, gone, placed);
            }
        },
    }
}

proof fn lemma_host_covers(
    first: Seq<ProbeView>,
    s: ProbeState,
    i: int,
    j: int,
    gone: spec_fn(ProbeView) -> bool,
    placed: spec_fn(int) -> bool,
)
    requires
        phase_wf(s.m, s.run),
        lists_fit(s.m, s.run),
        s.m.probes.len() < usize::MAX,
        tries_install(s, i),
        turned_to(s.run) == i + 1,
        0 <= i < s.run.wanted.len(),
        0 <= j <= s.run.wanted[i].main_route_targets.len(),
        covered(first, s, gone, placed),
        counts(enter_host(s.m, s.run, i, j), gone, placed),
    ensures
        covered(first, enter_host(s.m, s.run, i, j), gone, placed),
{
    let path = s.run.wanted[i];
    if j >= path.main_route_targets.len() {
        lemma_find_name(s.m.probes, path.ifname, 0);
        let up = MgrView { probes: upsert(s.m.probes, path), ..s.m };
        lemma_wanted_covers(first, up, s.run, i + 1, gone, placed);
    }
}

proof fn lemma_next_covers(
    first: Seq<ProbeView>,
    s: ProbeState,
    reply: Result<(), NetlinkError>,
    gone: spec_fn(ProbeView) -> bool,
    placed: spec_fn(int) -> bool,
)
    requires
        phase_wf(s.m, s.run),
        lists_fit(s.m, s.run),
        s.m.probes.len() < usize::MAX,
        covered(first, s, gone, placed),
        counts(next_state(s.m, s.run, reply), gone, placed),
    ensures
        covered(first, next_state(s.m, s.run, reply), gone, placed),
{
    let (m, run) = (s.m, s.run);
    let rf = request_fault(run.phase, reply);
    match run.phase {
        ProbePhase::RemoveHost(p, j) => {
            let t = next_state(m, run, reply);
            assert forall|q: ProbeView| still_to_come(s, q) implies still_to_come(t, q) by {
                let b = choose|b: int| p < b < m.probes.len() && #[trigger] m.probes[b] == q;
                assert(t.m.probes[b] == q);
            }
        },
        ProbePhase::RemoveRoute(p) => {
            let t = next_state(m, run, reply);
            assert forall|q: ProbeView| still_to_come(s, q) implies still_to_come(t, q) by {
                let b = choose|b: int| p < b < m.probes.len() && #[trigger] m.probes[b] == q;
                assert(t.m.probes[b] == q);
            }
        },
        ProbePhase::RemoveRule(p, g) => {
            lemma_removed_covers(first, s, p as int, first_of(g, rf), gone, placed);
        },
        ProbePhase::InstallRule(i) => {
            if rf is Error {
                lemma_wanted_covers(first, m, run.noting(rf), i + 1, gone, placed);
            }
        },
        ProbePhase::InstallRoute(i) => {
            if rf is Error {
                lemma_wanted_covers(first, m, run.noting(rf), i + 1, gone, placed);
            } else {
                lemma_host_covers(first, s, i as int, 0, gone, placed);
            }
        },
        ProbePhase::InstallHost(i, j) => {
            if rf is Error {
                lemma_wanted_covers(first, m, run.noting(rf), i + 1, gone, placed);
            } else {
                lemma_host_covers(first, s, i as int, j + 1, gone, placed);
            }
        },
        ProbePhase::Finished => {},
    }
}

spec fn gone_in(
    m: MgrView,
    wanted: Seq<ProbeView>,
    replies: Seq<Result<(), NetlinkError>>,
) -> spec_fn(ProbeView) -> bool {
    |q: ProbeView| removal_tried(m, wanted, replies, q)
}

spec fn placed_in(
    m: MgrView,
    wanted: Seq<ProbeView>,
    replies: Seq<Result<(), NetlinkError>>,
) -> spec_fn(int) -> bool {
    |i: int| path_tried(m, wanted, replies, i)
}

/// What was tried before an answer, was tried after it too.
proof fn lemma_tried_grows(
    m: MgrView,
    wanted: Seq<ProbeView>,
    replies: Seq<Result<(), NetlinkError>>,
)
    requires
        replies.len() > 0,
    ensures
        forall|q: ProbeView|
            removal_tried(m, wanted, replies.drop_last(), q) ==> #[trigger] removal_tried(
                m,
                wanted,
                replies,
                q,
            ),
        forall|i: int|
            path_tried(m, wanted, replies.drop_last(), i) ==> #[trigger] path_tried(
                m,
                wanted,
                replies,
                i,
            ),
{
    let before = replies.drop_last();
    assert forall|k: int| 0 <= k <= before.len() implies #[trigger] before.take(k) == replies.take(
        k,
    ) by {
        assert(replies.take(k) =~= before.take(k));
    }
    assert forall|q: ProbeView| removal_tried(m, wanted, before, q) implies #[trigger] removal_tried(
        m,
        wanted,
        replies,
        q,
    ) by {
        let k = choose|k: int|
            0 <= k <= before.len() && tries_removal(
                #[trigger] probe_run(m, wanted, before.take(k)),
                q,
            );
        assert(before.take(k) == replies.take(k));
        assert(tries_removal(probe_run(m, wanted, replies.take(k)), q));
    }
    assert forall|i: int| path_tried(m, wanted, before, i) implies #[trigger] path_tried(
        m,
        wanted,
        replies,
        i,
    ) by {
        let k = choose|k: int|
            0 <= k <= before.len() && {
                let s = #[trigger] probe_run(m, wanted, before.take(k));
                tries_install(s, i) || makes_way(s, i)
            };
        assert(before.take(k) == replies.take(k));
        let s = probe_run(m, wanted, replies.take(k));
        assert(tries_install(s, i) || makes_way(s, i));
    }
}

proof fn lemma_counts(m: MgrView, wanted: Seq<ProbeView>, replies: Seq<Result<(), NetlinkError>>)
    ensures
        counts(
            probe_run(m, wanted, replies),
            gone_in(m, wanted, replies),
            placed_in(m, wanted, replies),
        ),
{
    let n = replies.len() as int;
    assert(replies.take(n) =~= replies);
    let t = probe_run(m, wanted, replies.take(n));
    assert forall|q: ProbeView| tries_removal(t, q) implies removal_tried(
        m,
        wanted,
        replies,
        q,
    ) by {}
    assert forall|i: int| tries_install(t, i) || makes_way(t, i) implies path_tried(
        m,
        wanted,
        replies,
        i,
    ) by {}
}

proof fn lemma_covered_grows(
    first: Seq<ProbeView>,
    s: ProbeState,
    gone: spec_fn(ProbeView) -> bool,
    placed: spec_fn(int) -> bool,
    more_gone: spec_fn(ProbeView) -> bool,
    more_placed: spec_fn(int) -> bool,
)
    requires
        covered(first, s, gone, placed),
        forall|q: ProbeView| gone(q) ==> #[trigger] more_gone(q),
        forall|i: int| placed(i) ==> #[trigger] more_placed(i),
    ensures
        covered(first, s, more_gone, more_placed),
{
    assert forall|a: int|
        0 <= a < first.len() && !is_wanted(#[trigger] first[a], s.run.wanted) implies more_gone(
        first[a],
    ) || still_to_come(s, first[a]) by {
        assert(gone(first[a]) || still_to_come(s, first[a]));
    }
    assert forall|i: int| 0 <= i < turned_to(s.run) implies #[trigger] more_placed(i) by {
        assert(placed(i));
    }
}

proof fn lemma_run_covers(m: MgrView, wanted: Seq<ProbeView>, replies: Seq<Result<(), NetlinkError>>)
    requires
        run_fits(m, wanted),
    ensures
        covered(
            m.probes,
            probe_run(m, wanted, replies),
            gone_in(m, wanted, replies),
            placed_in(m, wanted, replies),
        ),
    decreases replies.len(),
{
    let gone = gone_in(m, wanted, replies);
    let placed = placed_in(m, wanted, replies);
    run_unfolds(m, wanted, replies);
    lemma_counts(m, wanted, replies);
    if replies.len() == 0 {
        assert forall|a: int|
            0 <= a < m.probes.len() && !is_wanted(#[trigger] m.probes[a], wanted) implies gone(
            m.probes[a],
        ) || exists|b: int| 0 <= b < m.probes.len() && #[trigger] m.probes[b] == m.probes[a] by {}
        lemma_stale_covers(m.probes, m, fresh_probes(wanted), 0, gone, placed);
    } else {
        let before = replies.drop_last();
        let s = probe_run(m, wanted, before);
        lemma_run(m, wanted, before);
        lemma_turned_to(s.m, s.run);
        lemma_run_covers(m, wanted, before);
        lemma_tried_grows(m, wanted, replies);
        lemma_covered_grows(
            m.probes,
            s,
            gone_in(m, wanted, before),
            placed_in(m, wanted, before),
            gone,
            placed,
        );
        lemma_next_covers(m.probes, s, replies.last(), gone, placed);
    }
}

/// One failure keeps nothing else from being tried: once a run is over, whatever
/// the kernel has answered, the removal of every known path that is not wanted
/// was tried, and every wanted path was turned to.
pub proof fn every_path_is_tried(
    m: MgrView,
    wanted: Seq<ProbeView>,
    replies: Seq<Result<(), NetlinkError>>,
)
    requires
        run_fits(m, wanted),
        probe_run(m, wanted, replies).step is Done,
    ensures
        forall|a: int|
            0 <= a < m.probes.len() && !is_wanted(#[trigger] m.probes[a], wanted) ==> removal_tried(
                m,
                wanted,
                replies,
                m.probes[a],
            ),
        forall|i: int| 0 <= i < wanted.len() ==> #[trigger] path_tried(m, wanted, replies, i),
{
    let s = probe_run(m, wanted, replies);
    lemma_run(m, wanted, replies);
    lemma_run_covers(m, wanted, replies);
    assert forall|a: int|
        0 <= a < m.probes.len() && !is_wanted(#[trigger] m.probes[a], wanted) implies removal_tried(
        m,
        wanted,
        replies,
        m.probes[a],
    ) by {
        assert(!still_to_come(s, m.probes[a]));
        assert(gone_in(m, wanted, replies)(m.probes[a]));
    }
    assert forall|i: int| 0 <= i < wanted.len() implies #[trigger] path_tried(
        m,
        wanted,
        replies,
        i,
    ) by {
        assert(placed_in(m, wanted, replies)(i));
    }
}

proof fn lemma_repeated_run(
    m: MgrView,
    wanted: Seq<ProbeView>,
    replies: Seq<Result<(), NetlinkError>>,
)
    requires
        run_fits(m, wanted),
        settled(m, wanted),
    ensures
        probe_run(m, wanted, replies).m.probes == m.probes,
        only_installs(probe_run(m, wanted, replies).run),
    decreases replies.len(),
{
    run_unfolds(m, wanted, replies);
    if replies.len() == 0 {
        repeating_removes_nothing(m, fresh_probes(wanted));
    } else {
        let before = replies.drop_last();
        let s = probe_run(m, wanted, before);
        lemma_run(m, wanted, before);
        lemma_repeated_run(m, wanted, before);
        repeating_changes_nothing(s.m, s.run, replies.last());
    }
}

/// A second run with the same wanted paths puts all of them in place again,
/// removes none, and leaves the same paths known, whatever the kernel answers.
pub proof fn a_second_run_repeats_the_first(
    m: MgrView,
    wanted: Seq<ProbeView>,
    replies: Seq<Result<(), NetlinkError>>,
)
    requires
        run_fits(m, wanted),
        settled(m, wanted),
        probe_run(m, wanted, replies).step is Done,
    ensures
        probe_run(m, wanted, replies).m.probes == m.probes,
        forall|k: int|
            0 <= k <= replies.len() ==> only_installs(
                (#[trigger] probe_run(m, wanted, replies.take(k))).run,
            ),
        forall|i: int| 0 <= i < wanted.len() ==> #[trigger] install_tried(m, wanted, replies, i),
{
    lemma_repeated_run(m, wanted, replies);
    every_path_is_tried(m, wanted, replies);
    assert forall|k: int| 0 <= k <= replies.len() implies only_installs(
        (#[trigger] probe_run(m, wanted, replies.take(k))).run,
    ) by {
        lemma_repeated_run(m, wanted, replies.take(k));
    }
    assert forall|i: int| 0 <= i < wanted.len() implies #[trigger] install_tried(
        m,
        wanted,
        replies,
        i,
    ) by {
        assert(path_tried(m, wanted, replies, i));
        let k = choose|k: int|
            0 <= k <= replies.len() && {
                let s = #[trigger] probe_run(m, wanted, replies.take(k));
                tries_install(s, i) || makes_way(s, i)
            };
        lemma_repeated_run(m, wanted, replies.take(k));
        assert(tries_install(probe_run(m, wanted, replies.take(k)), i));
    }
}

/// The whole of setting probe paths. A run that has come to its end succeeds if
/// and only if no request of a removal or an installation failed, and then the
/// known paths are exactly the wanted ones; otherwise it tells the first failure.
/// Either way every path that is not wanted any more, and every wanted path, was
/// tried. After a success, a second run with the same wanted paths puts all of
/// them in place again, removes nothing and leaves the same paths known.
pub proof fn setting_probe_paths(
    m: MgrView,
    wanted: Seq<ProbeView>,
    replies: Seq<Result<(), NetlinkError>>,
    again: Seq<Result<(), NetlinkError>>,
)
    requires
        run_fits(m, wanted),
        m.probes.len() + 2 * wanted.len() < usize::MAX,
        names_distinct(wanted),
        probe_run(m, wanted, replies).step is Done,
    ensures
        ({
            let s = probe_run(m, wanted, replies);
            let t = probe_run(s.m, wanted, again);
            &&& s.step == StepView::Done(None) <==> forall|k: int|
                0 <= k < replies.len() ==> #[trigger] fault_at(m, wanted, replies, k)
                    == Fault::Clear
            &&& s.step == StepView::Done(fault_option(first_fault(m, wanted, replies)))
            &&& forall|a: int|
                0 <= a < m.probes.len() && !is_wanted(
                    #[trigger] m.probes[a],
                    wanted,
                ) ==> removal_tried(m, wanted, replies, m.probes[a])
            &&& forall|i: int| 0 <= i < wanted.len() ==> #[trigger] path_tried(m, wanted, replies, i)
            &&& s.step == StepView::Done(None) ==> forall|p: ProbeView| #[trigger]
                s.m.probes.contains(p) <==> wanted.contains(p)
            &&& s.step == StepView::Done(None) && t.step is Done ==> {
                &&& t.m.probes == s.m.probes
                &&& forall|k: int|
                    0 <= k <= again.len() ==> only_installs(
                        (#[trigger] probe_run(s.m, wanted, again.take(k))).run,
                    )
                &&& forall|i: int|
                    0 <= i < wanted.len() ==> #[trigger] install_tried(s.m, wanted, again, i)
            }
        }),
{
    let s = probe_run(m, wanted, replies);
    run_tells_the_first_failure(m, wanted, replies);
    every_path_is_tried(m, wanted, replies);
    if s.step == StepView::Done(None) {
        success_means_just_the_wanted_paths(m, wanted, replies);
        lemma_run(m, wanted, replies);
        lemma_turned_to(s.m, s.run);
        assert(run_fits(s.m, wanted));
        if probe_run(s.m, wanted, again).step is Done {
            a_second_run_repeats_the_first(s.m, wanted, again);
        }
    }
}

} // verus!
