//! What holds of the final clean-up.
use crate::netlink::apply::StepView;
use crate::netlink::apply_laws::{cleared, teardown_leaves_no_object};
use crate::netlink::cleanup::{after_tear_v4, after_tear_v6, clean_next, clean_start, clean_wf,
    enter_delete_v4, enter_delete_v6, enter_underlay, CleanPhase, CleanState, CleanView};
use crate::netlink::manager::{lemma_next_stale_nh, tear_next, tear_start, tear_wf, InstalledVariant,
    MgrView, TearAt, TearState};
use crate::netlink::probe_laws::{accepted_requests_bring_the_wanted_paths,
    every_probe_operation_ends, is_wanted, left, less, lists_fit, on_course, starts_on_course};
use crate::netlink::probe_path::{self, enter_stale, phase_wf, Fault, ProbeRunView};
use crate::netlink::reply::NetlinkError;
use crate::netlink::request::req_delete_standard_route;
use crate::netlink::route::{AF_INET, AF_INET6};
use vstd::prelude::*;

verus! {

/// Whether no nexthop object of the family is known.
pub open spec fn no_object(m: MgrView, family: u8) -> bool {
    forall|j: int| 0 <= j < m.nh.len() ==> (#[trigger] m.nh[j]).family != family
}

/// Whether nothing of ours is known to be in the kernel.
pub open spec fn nothing_left(m: MgrView) -> bool {
    &&& m.probes.len() == 0
    &&& m.underlay.len() == 0
    &&& m.v4 == InstalledVariant::Absent
    &&& m.v6 == InstalledVariant::Absent
    &&& no_object(m, AF_INET)
    &&& no_object(m, AF_INET6)
}

/// What a clean-up has done by the phase it is in, as long as the kernel accepts
/// all requests.
pub open spec fn clean_course(m: MgrView, run: CleanView) -> bool {
    let past_probes = m.probes.len() == 0;
    let past_v4 = past_probes && m.v4 == InstalledVariant::Absent && no_object(m, AF_INET);
    let past_v6 = past_v4 && m.v6 == InstalledVariant::Absent && no_object(m, AF_INET6);
    &&& run.first_err == Fault::Clear
    &&& m.nh.len() <= usize::MAX
    &&& m.underlay.len() <= usize::MAX
    &&& match run.phase {
        CleanPhase::Probes => {
            &&& run.probes.wanted.len() == 0
            &&& m.probes.len() < usize::MAX
            &&& on_course(m, run.probes)
        },
        CleanPhase::TearV4(at) => past_probes && !(at is Over) && cleared(m, AF_INET, at),
        CleanPhase::TearV6(at) => past_v4 && !(at is Over) && cleared(m, AF_INET6, at),
        CleanPhase::DeleteV4 | CleanPhase::DeleteV6 => past_v6,
        CleanPhase::Underlay(i) => past_v6 && i == 0,
        CleanPhase::Finished => nothing_left(m),
    }
}

spec fn good(s: CleanState) -> bool {
    &&& clean_course(s.m, s.run)
    &&& s.step is Done ==> s.step == StepView::Done(None) && nothing_left(s.m)
}

proof fn lemma_no_probes(m: MgrView, run: ProbeRunView)
    requires
        run.wanted.len() == 0,
        run.phase is Finished,
        on_course(m, run),
    ensures
        m.probes.len() == 0,
{
    if m.probes.len() > 0 {
        assert(is_wanted(m.probes[0], run.wanted));
    }
}

/// An operation without wanted paths touches nothing but the known paths, and
/// adds none.
pub proof fn lemma_probe_frame(m: MgrView, run: ProbeRunView, reply: Result<(), NetlinkError>)
    requires
        phase_wf(m, run),
        run.wanted.len() == 0,
    ensures
        ({
            let s = probe_path::next_state(m, run, reply);
            &&& s.run.wanted == run.wanted
            &&& s.m.nh == m.nh
            &&& s.m.underlay == m.underlay
            &&& s.m.probes.len() <= m.probes.len()
            &&& s.step is Done ==> s.run.phase is Finished
        }),
{
}

proof fn lemma_default_routes(m: MgrView, run: CleanView)
    requires
        run.first_err == Fault::Clear,
        m.nh.len() <= usize::MAX,
        m.underlay.len() <= usize::MAX,
        m.probes.len() == 0,
        m.v4 == InstalledVariant::Absent,
        m.v6 == InstalledVariant::Absent,
        no_object(m, AF_INET),
        no_object(m, AF_INET6),
    ensures
        good(enter_delete_v4(m, run)),
        good(enter_delete_v6(m, run)),
        good(enter_underlay(m, run, 0)),
{
}

proof fn lemma_tear_v6(t: TearState, run: CleanView)
    requires
        run.first_err == Fault::Clear,
        t.m.nh.len() <= usize::MAX,
        t.m.underlay.len() <= usize::MAX,
        t.m.probes.len() == 0,
        t.m.v4 == InstalledVariant::Absent,
        no_object(t.m, AF_INET),
        cleared(t.m, AF_INET6, t.at),
        t.msg is None <==> t.at is Over,
        t.msg is None ==> t.m.v6 == InstalledVariant::Absent,
    ensures
        good(after_tear_v6(t, run)),
{
    if t.msg is None {
        lemma_default_routes(t.m, run);
    }
}

proof fn lemma_tear_v4(t: TearState, run: CleanView)
    requires
        run.first_err == Fault::Clear,
        t.m.nh.len() <= usize::MAX,
        t.m.underlay.len() <= usize::MAX,
        t.m.probes.len() == 0,
        cleared(t.m, AF_INET, t.at),
        t.msg is None <==> t.at is Over,
        t.msg is None ==> t.m.v4 == InstalledVariant::Absent,
    ensures
        good(after_tear_v4(t, run)),
{
    if t.msg is None {
        lemma_tear_v6(tear_start(t.m, AF_INET6), run);
    }
}

/// From the start of a clean-up on ...
pub proof fn clean_up_starts_on_course(m: MgrView)
    requires
        m.wf(),
        m.probes.len() < usize::MAX,
        m.nh.len() <= usize::MAX,
        m.underlay.len() <= usize::MAX,
    ensures
        clean_course(clean_start(m).m, clean_start(m).run),
        !(clean_start(m).step is Done),
{
    let none = crate::netlink::cleanup::no_probes();
    starts_on_course(m, none);
    let s = enter_stale(m, none, 0);
    if s.step is Done {
        lemma_no_probes(s.m, s.run);
        lemma_tear_v4(tear_start(s.m, AF_INET), clean_start(m).run);
    }
}

/// ... and as long as the kernel accepts the requests, it stays on course. At the
/// end, then, it succeeds, and nothing of ours is left in the kernel: no probe
/// path, no default route, no nexthop object, no route to a tunnel peer.
pub proof fn clean_up_leaves_nothing(m: MgrView, run: CleanView, reply: Result<(), NetlinkError>)
    requires
        clean_wf(m, run),
        clean_course(m, run),
        reply is Ok,
    ensures
        ({
            let s = clean_next(m, run, reply);
            &&& clean_course(s.m, s.run)
            &&& s.step is Done ==> s.step == StepView::Done(None) && nothing_left(s.m)
        }),
{
    match run.phase {
        CleanPhase::Probes => {
            let s = probe_path::next_state(m, run.probes, reply);
            accepted_requests_bring_the_wanted_paths(m, run.probes, reply);
            lemma_probe_frame(m, run.probes, reply);
            if s.step is Done {
                lemma_no_probes(s.m, s.run);
                lemma_tear_v4(tear_start(s.m, AF_INET), run);
            }
        },
        CleanPhase::TearV4(at) => {
            teardown_leaves_no_object(m, AF_INET, at, reply);
            lemma_tear_v4(tear_next(m, AF_INET, at, reply), run);
        },
        CleanPhase::TearV6(at) => {
            teardown_leaves_no_object(m, AF_INET6, at, reply);
            lemma_tear_v6(tear_next(m, AF_INET6, at, reply), run);
        },
        CleanPhase::DeleteV4 | CleanPhase::DeleteV6 => lemma_default_routes(m, run),
        CleanPhase::Underlay(i) => {
            let gone = MgrView { underlay: m.underlay.remove(0), ..m };
            lemma_default_routes(gone, run);
        },
        CleanPhase::Finished => {},
    }
}

/// The clean-up asks for a multipath default route to go if and only if it was
/// installed here: a route of the same metric may belong to someone else.
pub proof fn clean_up_deletes_only_our_routes(m: MgrView, run: CleanView)
    ensures
        clean_start(m).run.had_v4 == (m.v4 == InstalledVariant::Standard),
        clean_start(m).run.had_v6 == (m.v6 == InstalledVariant::Standard),
        run.had_v4 ==> enter_delete_v4(m, run).step == StepView::Send(
            req_delete_standard_route(m, AF_INET),
        ),
        !run.had_v4 ==> enter_delete_v4(m, run) == enter_delete_v6(m, run),
        run.had_v6 ==> enter_delete_v6(m, run).step == StepView::Send(
            req_delete_standard_route(m, AF_INET6),
        ),
        !run.had_v6 ==> enter_delete_v6(m, run) == enter_underlay(m, run, 0),
{
}

/// The part of a clean-up that is under way; 0 is the end.
pub open spec fn part(run: CleanView) -> int {
    match run.phase {
        CleanPhase::Probes => 6,
        CleanPhase::TearV4(_) => 5,
        CleanPhase::TearV6(_) => 4,
        CleanPhase::DeleteV4 => 3,
        CleanPhase::DeleteV6 => 2,
        CleanPhase::Underlay(_) => 1,
        CleanPhase::Finished => 0,
    }
}

/// How much is left of the removal of a resilient route.
pub open spec fn tear_left(m: MgrView, at: TearAt) -> (int, int, int, int) {
    match at {
        TearAt::Route => (2, 0, 0, 0),
        TearAt::Group => (1, 0, 0, 0),
        TearAt::Member(i) => (0, m.nh.len() - i, 0, 0),
        TearAt::Over => (0, 0, 0, 0),
    }
}

/// How much is left of the part of a clean-up that is under way.
pub open spec fn part_left(m: MgrView, run: CleanView) -> (int, int, int, int) {
    match run.phase {
        CleanPhase::Probes => left(m, run.probes),
        CleanPhase::TearV4(at) => tear_left(m, at),
        CleanPhase::TearV6(at) => tear_left(m, at),
        CleanPhase::Underlay(i) => (m.underlay.len() - i, 0, 0, 0),
        _ => (0, 0, 0, 0),
    }
}

proof fn lemma_tear_ends(m: MgrView, family: u8, at: TearAt, reply: Result<(), NetlinkError>)
    requires
        tear_wf(m, at),
        m.nh.len() <= usize::MAX,
        tear_next(m, family, at, reply).msg is Some,
    ensures
        ({
            let t = tear_next(m, family, at, reply);
            &&& less(tear_left(t.m, t.at), tear_left(m, at))
            &&& tear_left(t.m, t.at).0 >= 0 && tear_left(t.m, t.at).1 >= 0
        }),
{
    match at {
        TearAt::Group => lemma_next_stale_nh(m.nh, family, Seq::empty(), 0),
        TearAt::Member(i) => {
            let gone = m.nh.remove(i as int);
            lemma_next_stale_nh(gone, family, Seq::empty(), i as int);
            lemma_next_stale_nh(m.nh, family, Seq::empty(), i + 1);
        },
        _ => {},
    }
}

/// Every clean-up ends: each answer brings it to a later part, or leaves less of
/// the same part.
pub proof fn every_clean_up_ends(m: MgrView, run: CleanView, reply: Result<(), NetlinkError>)
    requires
        clean_wf(m, run),
        lists_fit(m, run.probes),
        m.probes.len() < usize::MAX,
        m.nh.len() <= usize::MAX,
        m.underlay.len() <= usize::MAX,
        run.phase is Probes ==> !(run.probes.phase is Finished),
        !(run.phase is Finished),
    ensures
        ({
            let s = clean_next(m, run, reply);
            let rest = part_left(s.m, s.run);
            &&& 0 <= part(s.run) <= part(run)
            &&& part(s.run) == part(run) ==> {
                &&& less(rest, part_left(m, run))
                &&& rest.0 >= 0 && rest.1 >= 0 && rest.2 >= 0 && rest.3 >= 0
            }
        }),
{
    match run.phase {
        CleanPhase::Probes => every_probe_operation_ends(m, run.probes, reply),
        CleanPhase::TearV4(at) => {
            if tear_next(m, AF_INET, at, reply).msg is Some {
                lemma_tear_ends(m, AF_INET, at, reply);
            }
        },
        CleanPhase::TearV6(at) => {
            if tear_next(m, AF_INET6, at, reply).msg is Some {
                lemma_tear_ends(m, AF_INET6, at, reply);
            }
        },
        _ => {},
    }
}

} // verus!
