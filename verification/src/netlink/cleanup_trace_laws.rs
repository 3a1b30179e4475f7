//! Which requests a whole clean-up sends.
use crate::netlink::apply::StepView;
use crate::netlink::apply_trace_laws::{self, task_of, RouteAsk, Task};
use crate::netlink::cleanup::{
    after_probes, after_tear_v4, after_tear_v6, clean_next, enter_delete_v4, enter_delete_v6,
    enter_underlay, no_probes, CleanPhase, CleanState, CleanView,
};
use crate::netlink::cleanup_laws::lemma_probe_frame;
use crate::netlink::cleanup_run_laws::{clean_run, clean_run_unfolds};
use crate::netlink::manager::{
    lemma_next_stale_nh, next_stale_nh, tear_group, tear_members, tear_next, tear_start, tear_wf,
    HostRouteView, InstalledVariant, MgrView, NhView, ProbeView, TearAt, TearState,
};
use crate::netlink::probe_laws::lists_fit;
use crate::netlink::probe_path::{
    enter_stale, fault_of, first_of, next_state, Fault, ProbePhase, ProbeRunView, ProbeState,
    Purpose,
};
use crate::netlink::probe_run_laws::{lemma_next_sound, lemma_stale_sound, pending, sound};
use crate::netlink::probe_trace_laws::{
    self, all_dropped, all_gone, awaits, lemma_gone_next, lemma_gone_stale, not_wanted,
    removal_course, Ask,
};
use crate::netlink::reply::{committed, NetlinkError};
use crate::netlink::route::HopView;
use vstd::prelude::*;

verus! {

/// What a clean-up asks of the kernel: that something of a probe path go, or
/// something of a family's default route.
pub ghost enum CleanAsk {
    Path(Ask),
    Route(u8, RouteAsk),
}

/// The task of a clean-up in a family: no way out is wanted, and no peer.
pub open spec fn no_lines(m: MgrView, family: u8) -> Task {
    task_of(m, family, Seq::empty(), Seq::empty())
}

/// Whether a step of the clean-up of a manager asks that of the kernel.
pub open spec fn is_clean_ask(m: MgrView, step: StepView, a: CleanAsk) -> bool {
    match a {
        CleanAsk::Path(p) => probe_trace_laws::is_ask(m.order, step, p),
        CleanAsk::Route(family, r) => apply_trace_laws::is_ask(no_lines(m, family), step, r),
    }
}

/// Whether that was asked of the kernel at some time of a clean-up.
pub open spec fn clean_asked(
    m: MgrView,
    replies: Seq<Result<(), NetlinkError>>,
    a: CleanAsk,
) -> bool {
    exists|k: int|
        0 <= k <= replies.len() && is_clean_ask(
            m,
            (#[trigger] clean_run(m, replies.take(k))).step,
            a,
        )
}

spec fn asked_in(m: MgrView, replies: Seq<Result<(), NetlinkError>>) -> spec_fn(CleanAsk) -> bool {
    |a: CleanAsk| clean_asked(m, replies, a)
}

spec fn of_paths(asks: spec_fn(CleanAsk) -> bool) -> spec_fn(Ask) -> bool {
    |a: Ask| asks(CleanAsk::Path(a))
}

/// Whether each object of a family that was known at first was asked to go, or
/// stands in the list of objects from the place `from` on.
spec fn objects_await(
    asks: spec_fn(CleanAsk) -> bool,
    first: Seq<NhView>,
    family: u8,
    known: Seq<NhView>,
    from: int,
) -> bool {
    forall|a: int|
        0 <= a < first.len() && (#[trigger] first[a]).family == family ==> asks(
            CleanAsk::Route(family, RouteAsk::NoObject(first[a].id)),
        ) || exists|b: int| from <= b < known.len() && #[trigger] known[b] == first[a]
}

spec fn objects_gone(asks: spec_fn(CleanAsk) -> bool, first: Seq<NhView>, family: u8) -> bool {
    forall|a: int|
        0 <= a < first.len() && (#[trigger] first[a]).family == family ==> asks(
            CleanAsk::Route(family, RouteAsk::NoObject(first[a].id)),
        )
}

/// Whether the group of a family, and a route over it, were asked to go.
spec fn group_gone(asks: spec_fn(CleanAsk) -> bool, m: MgrView, family: u8) -> bool {
    &&& asks(CleanAsk::Route(family, RouteAsk::NoGroup))
    &&& m.variant(family) == InstalledVariant::Resilient ==> asks(
        CleanAsk::Route(family, RouteAsk::NoGroupRoute),
    )
}

/// How far the removal of a family's resilient route has come.
spec fn tear_course(
    asks: spec_fn(CleanAsk) -> bool,
    first: MgrView,
    family: u8,
    m: MgrView,
    at: TearAt,
) -> bool {
    &&& tear_wf(m, at)
    &&& match at {
        TearAt::Route => asks(CleanAsk::Route(family, RouteAsk::NoGroupRoute)) && objects_await(
            asks,
            first.nh,
            family,
            m.nh,
            0,
        ),
        TearAt::Group => group_gone(asks, first, family) && objects_await(
            asks,
            first.nh,
            family,
            m.nh,
            0,
        ),
        TearAt::Member(i) => group_gone(asks, first, family) && objects_await(
            asks,
            first.nh,
            family,
            m.nh,
            i as int,
        ) && asks(CleanAsk::Route(family, RouteAsk::NoObject(m.nh[i as int].id)))
            && m.nh[i as int].family == family,
        TearAt::Over => true,
    }
}

spec fn family_gone(asks: spec_fn(CleanAsk) -> bool, first: MgrView, family: u8) -> bool {
    group_gone(asks, first, family) && objects_gone(asks, first.nh, family)
}

/// Whether a family's default route, if it was ours, was asked to go.
spec fn default_gone(asks: spec_fn(CleanAsk) -> bool, first: MgrView, family: u8) -> bool {
    first.variant(family) == InstalledVariant::Standard ==> asks(
        CleanAsk::Route(family, RouteAsk::NoDefault),
    )
}

/// Whether each tunnel route that was known at first was asked to go, or stands in
/// the list from the place `from` on.
spec fn tunnels_await(
    asks: spec_fn(CleanAsk) -> bool,
    first: Seq<HostRouteView>,
    known: Seq<HostRouteView>,
    from: int,
) -> bool {
    forall|a: int|
        0 <= a < first.len() ==> asks(
            CleanAsk::Route(2, RouteAsk::NoTunnel((#[trigger] first[a]).0)),
        ) || exists|b: int| from <= b < known.len() && #[trigger] known[b] == first[a]
}

spec fn same_settings(first: MgrView, m: MgrView) -> bool {
    &&& m.order == first.order && m.priority == first.priority
    &&& m.nh.len() <= usize::MAX
    &&& m.underlay.len() <= usize::MAX
}

spec fn had_as_at_first(first: MgrView, run: CleanView) -> bool {
    &&& run.had_v4 == (first.v4 == InstalledVariant::Standard)
    &&& run.had_v6 == (first.v6 == InstalledVariant::Standard)
}

/// What was asked by the time that a state of a clean-up is reached, whatever the
/// kernel has answered.
spec fn course(asks: spec_fn(CleanAsk) -> bool, first: MgrView, s: CleanState) -> bool {
    let m = s.m;
    let paths = all_gone(of_paths(asks), first.probes, Seq::empty());
    &&& same_settings(first, m)
    &&& had_as_at_first(first, s.run)
    &&& s.step is Done <==> s.run.phase is Finished
    &&& match s.run.phase {
        CleanPhase::Probes => {
            let p = ProbeState { m, run: s.run.probes, step: s.step };
            &&& sound(p, first.probes.len() as int, Seq::empty())
            &&& removal_course(of_paths(asks), first.probes, p)
            &&& m.nh == first.nh && m.underlay == first.underlay && m.v4 == first.v4 && m.v6
                == first.v6
        },
        CleanPhase::TearV4(at) => paths && tear_course(asks, first, 2, m, at) && objects_await(
            asks,
            first.nh,
            10,
            m.nh,
            0,
        ) && m.underlay == first.underlay && m.v6 == first.v6 && !(at is Over),
        CleanPhase::TearV6(at) => paths && family_gone(asks, first, 2) && tear_course(
            asks,
            first,
            10,
            m,
            at,
        ) && m.underlay == first.underlay && !(at is Over),
        CleanPhase::DeleteV4 => paths && family_gone(asks, first, 2) && family_gone(asks, first, 10)
            && default_gone(asks, first, 2) && m.underlay == first.underlay,
        CleanPhase::DeleteV6 => paths && family_gone(asks, first, 2) && family_gone(asks, first, 10)
            && default_gone(asks, first, 2) && default_gone(asks, first, 10) && m.underlay
            == first.underlay,
        CleanPhase::Underlay(i) => i < m.underlay.len() && paths && family_gone(asks, first, 2)
            && family_gone(asks, first, 10) && default_gone(asks, first, 2) && default_gone(
            asks,
            first,
            10,
        ) && tunnels_await(asks, first.underlay, m.underlay, i as int) && asks(
            CleanAsk::Route(2, RouteAsk::NoTunnel(m.underlay[i as int].0)),
        ),
        CleanPhase::Finished => paths && family_gone(asks, first, 2) && family_gone(asks, first, 10)
            && default_gone(asks, first, 2) && default_gone(asks, first, 10) && forall|a: int|
            0 <= a < first.underlay.len() ==> asks(
                CleanAsk::Route(2, RouteAsk::NoTunnel((#[trigger] first.underlay[a]).0)),
            ),
    }
}

spec fn clean_counted(asks: spec_fn(CleanAsk) -> bool, first: MgrView, s: CleanState) -> bool {
    forall|a: CleanAsk| is_clean_ask(first, s.step, a) ==> #[trigger] asks(a)
}

proof fn lemma_route_ask(first: MgrView, at: MgrView, family: u8, step: StepView, a: RouteAsk)
    requires
        at.order == first.order,
        at.priority == first.priority,
        apply_trace_laws::asks_with(at, family, step, a),
    ensures
        is_clean_ask(first, step, CleanAsk::Route(family, a)),
{
    let t = no_lines(first, family);
    assert(apply_trace_laws::asks_with(at, t.family, step, a));
}

proof fn lemma_underlay(
    asks: spec_fn(CleanAsk) -> bool,
    first: MgrView,
    m: MgrView,
    run: CleanView,
    i: int,
)
    requires
        same_settings(first, m),
        had_as_at_first(first, run),
        all_gone(of_paths(asks), first.probes, Seq::empty()),
        family_gone(asks, first, 2),
        family_gone(asks, first, 10),
        default_gone(asks, first, 2),
        default_gone(asks, first, 10),
        tunnels_await(asks, first.underlay, m.underlay, i),
        0 <= i,
        clean_counted(asks, first, enter_underlay(m, run, i)),
    ensures
        course(asks, first, enter_underlay(m, run, i)),
{
    let s = enter_underlay(m, run, i);
    if i < m.underlay.len() {
        lemma_route_ask(first, m, 2, s.step, RouteAsk::NoTunnel(m.underlay[i].0));
    }
}

proof fn lemma_delete_v6(
    asks: spec_fn(CleanAsk) -> bool,
    first: MgrView,
    m: MgrView,
    run: CleanView,
)
    requires
        same_settings(first, m),
        had_as_at_first(first, run),
        m.underlay == first.underlay,
        all_gone(of_paths(asks), first.probes, Seq::empty()),
        family_gone(asks, first, 2),
        family_gone(asks, first, 10),
        default_gone(asks, first, 2),
        clean_counted(asks, first, enter_delete_v6(m, run)),
    ensures
        course(asks, first, enter_delete_v6(m, run)),
{
    let s = enter_delete_v6(m, run);
    if run.had_v6 {
        lemma_route_ask(first, m, 10, s.step, RouteAsk::NoDefault);
    } else {
        lemma_underlay(asks, first, m, run, 0);
    }
}

proof fn lemma_delete_v4(
    asks: spec_fn(CleanAsk) -> bool,
    first: MgrView,
    m: MgrView,
    run: CleanView,
)
    requires
        same_settings(first, m),
        had_as_at_first(first, run),
        m.underlay == first.underlay,
        all_gone(of_paths(asks), first.probes, Seq::empty()),
        family_gone(asks, first, 2),
        family_gone(asks, first, 10),
        clean_counted(asks, first, enter_delete_v4(m, run)),
    ensures
        course(asks, first, enter_delete_v4(m, run)),
{
    let s = enter_delete_v4(m, run);
    if run.had_v4 {
        lemma_route_ask(first, m, 2, s.step, RouteAsk::NoDefault);
    } else {
        lemma_delete_v6(asks, first, m, run);
    }
}

/// Whether what a step of a removal asks for is counted.
spec fn tear_counted(asks: spec_fn(CleanAsk) -> bool, first: MgrView, t: TearState) -> bool {
    t.msg matches Some(msg) ==> forall|a: CleanAsk|
        is_clean_ask(first, StepView::Send(msg), a) ==> #[trigger] asks(a)
}

spec fn tear_good(
    asks: spec_fn(CleanAsk) -> bool,
    first: MgrView,
    family: u8,
    m: MgrView,
    t: TearState,
) -> bool {
    &&& same_settings(first, t.m)
    &&& t.m.underlay == m.underlay
    &&& t.msg is Some ==> !(t.at is Over) && tear_course(asks, first, family, t.m, t.at)
    &&& t.msg is None ==> family_gone(asks, first, family)
    &&& family == 2 ==> t.m.v6 == m.v6
}

proof fn lemma_tear_members(
    asks: spec_fn(CleanAsk) -> bool,
    first: MgrView,
    family: u8,
    m: MgrView,
    from: int,
)
    requires
        family == 2 || family == 10,
        same_settings(first, m),
        0 <= from <= m.nh.len(),
        group_gone(asks, first, family),
        objects_await(asks, first.nh, family, m.nh, from),
        tear_counted(asks, first, tear_members(m, family, from)),
    ensures
        tear_good(asks, first, family, m, tear_members(m, family, from)),
{
    let none: Seq<HopView> = Seq::empty();
    let i = next_stale_nh(m.nh, family, none, from);
    let t = tear_members(m, family, from);
    lemma_next_stale_nh(m.nh, family, none, from);
    assert forall|a: int|
        0 <= a < first.nh.len() && (#[trigger] first.nh[a]).family == family implies asks(
        CleanAsk::Route(family, RouteAsk::NoObject(first.nh[a].id)),
    ) || exists|b: int| i <= b < m.nh.len() && #[trigger] m.nh[b] == first.nh[a] by {
        if !asks(CleanAsk::Route(family, RouteAsk::NoObject(first.nh[a].id))) {
            let b = choose|b: int| from <= b < m.nh.len() && #[trigger] m.nh[b] == first.nh[a];
            if b < i {
                assert(!crate::netlink::manager::is_stale_nh(m.nh[b], family, none));
            }
        }
    }
    if i < m.nh.len() {
        lemma_route_ask(
            first,
            m,
            family,
            StepView::Send(t.msg->0),
            RouteAsk::NoObject(m.nh[i].id),
        );
    }
}

proof fn lemma_tear_group(
    asks: spec_fn(CleanAsk) -> bool,
    first: MgrView,
    family: u8,
    m: MgrView,
)
    requires
        family == 2 || family == 10,
        same_settings(first, m),
        first.variant(family) == InstalledVariant::Resilient ==> asks(
            CleanAsk::Route(family, RouteAsk::NoGroupRoute),
        ),
        objects_await(asks, first.nh, family, m.nh, 0),
        tear_counted(asks, first, tear_group(m, family)),
    ensures
        tear_good(asks, first, family, m, tear_group(m, family)),
{
    let t = tear_group(m, family);
    lemma_route_ask(first, m, family, StepView::Send(t.msg->0), RouteAsk::NoGroup);
}

proof fn lemma_tear_start(
    asks: spec_fn(CleanAsk) -> bool,
    first: MgrView,
    family: u8,
    m: MgrView,
)
    requires
        family == 2 || family == 10,
        same_settings(first, m),
        m.variant(family) == first.variant(family),
        objects_await(asks, first.nh, family, m.nh, 0),
        tear_counted(asks, first, tear_start(m, family)),
    ensures
        tear_good(asks, first, family, m, tear_start(m, family)),
        tear_start(m, family).m.nh == m.nh,
{
    let t = tear_start(m, family);
    if m.variant(family) == InstalledVariant::Resilient {
        lemma_route_ask(first, m, family, StepView::Send(t.msg->0), RouteAsk::NoGroupRoute);
    } else {
        lemma_tear_group(asks, first, family, m);
    }
}

proof fn lemma_tear_next(
    asks: spec_fn(CleanAsk) -> bool,
    first: MgrView,
    family: u8,
    m: MgrView,
    at: TearAt,
    reply: Result<(), NetlinkError>,
)
    requires
        family == 2 || family == 10,
        same_settings(first, m),
        tear_course(asks, first, family, m, at),
        !(at is Over),
        tear_counted(asks, first, tear_next(m, family, at, reply)),
    ensures
        tear_good(asks, first, family, m, tear_next(m, family, at, reply)),
{
    match at {
        TearAt::Route => lemma_tear_group(asks, first, family, m),
        TearAt::Group => lemma_tear_members(asks, first, family, m, 0),
        TearAt::Member(i) => {
            let gone = m.with_nh(m.nh.remove(i as int));
            let (n, from) = if committed(true, reply) is Ok {
                (gone, i as int)
            } else {
                (m, i + 1)
            };
            assert forall|a: int|
                0 <= a < first.nh.len() && (#[trigger] first.nh[a]).family == family implies asks(
                CleanAsk::Route(family, RouteAsk::NoObject(first.nh[a].id)),
            ) || exists|b: int| from <= b < n.nh.len() && #[trigger] n.nh[b] == first.nh[a] by {
                if !asks(CleanAsk::Route(family, RouteAsk::NoObject(first.nh[a].id))) {
                    let b = choose|b: int|
                        i <= b < m.nh.len() && #[trigger] m.nh[b] == first.nh[a];
                    assert(b != i);
                    if committed(true, reply) is Ok {
                        assert(n.nh[b - 1] == first.nh[a]);
                    } else {
                        assert(n.nh[b] == first.nh[a]);
                    }
                }
            }
            lemma_tear_members(asks, first, family, n, from);
        },
        TearAt::Over => {},
    }
}

/// Objects of the other family stay where a removal finds them.
proof fn lemma_other_objects(
    asks: spec_fn(CleanAsk) -> bool,
    first: Seq<NhView>,
    m: MgrView,
    at: TearAt,
    reply: Result<(), NetlinkError>,
)
    requires
        tear_wf(m, at),
        at matches TearAt::Member(i) ==> m.nh[i as int].family == 2,
        objects_await(asks, first, 10, m.nh, 0),
    ensures
        objects_await(asks, first, 10, tear_next(m, 2, at, reply).m.nh, 0),
{
    if let TearAt::Member(i) = at {
        if committed(true, reply) is Ok {
            let less = m.nh.remove(i as int);
            assert forall|a: int|
                0 <= a < first.len() && (#[trigger] first[a]).family == 10 implies asks(
                CleanAsk::Route(10, RouteAsk::NoObject(first[a].id)),
            ) || exists|b: int| 0 <= b < less.len() && #[trigger] less[b] == first[a] by {
                if !asks(CleanAsk::Route(10, RouteAsk::NoObject(first[a].id))) {
                    let b = choose|b: int| 0 <= b < m.nh.len() && #[trigger] m.nh[b] == first[a];
                    assert(b != i);
                    if b < i {
                        assert(less[b] == first[a]);
                    } else {
                        assert(less[b - 1] == first[a]);
                    }
                }
            }
        }
    }
}

proof fn lemma_after_tear_v6(
    asks: spec_fn(CleanAsk) -> bool,
    first: MgrView,
    m: MgrView,
    t: TearState,
    run: CleanView,
)
    requires
        tear_good(asks, first, 10, m, t),
        m.underlay == first.underlay,
        had_as_at_first(first, run),
        all_gone(of_paths(asks), first.probes, Seq::empty()),
        family_gone(asks, first, 2),
        clean_counted(asks, first, after_tear_v6(t, run)),
    ensures
        course(asks, first, after_tear_v6(t, run)),
{
    if t.msg is None {
        lemma_delete_v4(asks, first, t.m, run);
    }
}

proof fn lemma_after_tear_v4(
    asks: spec_fn(CleanAsk) -> bool,
    first: MgrView,
    m: MgrView,
    t: TearState,
    run: CleanView,
)
    requires
        tear_good(asks, first, 2, m, t),
        m.underlay == first.underlay,
        m.v6 == first.v6,
        objects_await(asks, first.nh, 10, t.m.nh, 0),
        had_as_at_first(first, run),
        all_gone(of_paths(asks), first.probes, Seq::empty()),
        clean_counted(asks, first, after_tear_v4(t, run)),
    ensures
        course(asks, first, after_tear_v4(t, run)),
{
    if t.msg is None {
        let u = tear_start(t.m, 10);
        lemma_tear_start(asks, first, 10, t.m);
        lemma_after_tear_v6(asks, first, t.m, u, run);
    }
}

proof fn lemma_after_probes(
    asks: spec_fn(CleanAsk) -> bool,
    first: MgrView,
    p: ProbeState,
    run: CleanView,
)
    requires
        first.nh.len() <= usize::MAX,
        first.underlay.len() <= usize::MAX,
        p.m.order == first.order && p.m.priority == first.priority,
        p.m.nh == first.nh && p.m.underlay == first.underlay && p.m.v4 == first.v4 && p.m.v6
            == first.v6,
        sound(p, first.probes.len() as int, Seq::empty()),
        removal_course(of_paths(asks), first.probes, p),
        had_as_at_first(first, run),
        clean_counted(asks, first, after_probes(p, run)),
    ensures
        course(asks, first, after_probes(p, run)),
{
    if p.step is Done {
        let next = CleanView { probes: p.run, phase: CleanPhase::Probes, ..run };
        let t = tear_start(p.m, 2);
        assert(objects_await(asks, first.nh, 2, p.m.nh, 0));
        assert(objects_await(asks, first.nh, 10, p.m.nh, 0));
        lemma_tear_start(asks, first, 2, p.m);
        lemma_after_tear_v4(asks, first, p.m, t, next);
    }
}

proof fn lemma_next_probes(
    asks: spec_fn(CleanAsk) -> bool,
    first: MgrView,
    s: CleanState,
    reply: Result<(), NetlinkError>,
)
    requires
        s.run.phase is Probes,
        course(asks, first, s),
        first.probes.len() < usize::MAX,
        first.nh.len() <= usize::MAX,
        first.underlay.len() <= usize::MAX,
        clean_counted(asks, first, clean_next(s.m, s.run, reply)),
    ensures
        course(asks, first, clean_next(s.m, s.run, reply)),
{
    let p = ProbeState { m: s.m, run: s.run.probes, step: s.step };
    let n = next_state(p.m, p.run, reply);
    let f = first_of(p.run.first_err, pending(p.run));
    lemma_next_sound(p, reply, first.probes.len() as int, Seq::empty(), f);
    lemma_probe_frame(p.m, p.run, reply);
    let c = clean_next(s.m, s.run, reply);
    assert forall|a: Ask| probe_trace_laws::is_ask(s.m.order, n.step, a) implies #[trigger] of_paths(
        asks,
    )(a) by {
        assert(!(n.step is Done));
        assert(is_clean_ask(first, c.step, CleanAsk::Path(a)));
    }
    lemma_gone_next(of_paths(asks), first.probes, p, reply);
    lemma_after_probes(asks, first, n, s.run);
}

proof fn lemma_next(
    asks: spec_fn(CleanAsk) -> bool,
    first: MgrView,
    s: CleanState,
    reply: Result<(), NetlinkError>,
)
    requires
        course(asks, first, s),
        first.probes.len() < usize::MAX,
        first.nh.len() <= usize::MAX,
        first.underlay.len() <= usize::MAX,
        clean_counted(asks, first, clean_next(s.m, s.run, reply)),
    ensures
        course(asks, first, clean_next(s.m, s.run, reply)),
{
    let (m, run) = (s.m, s.run);
    let c = clean_next(m, run, reply);
    match run.phase {
        CleanPhase::Probes => lemma_next_probes(asks, first, s, reply),
        CleanPhase::TearV4(at) => {
            let t = tear_next(m, 2, at, reply);
            assert(tear_counted(asks, first, t));
            lemma_tear_next(asks, first, 2, m, at, reply);
            lemma_other_objects(asks, first.nh, m, at, reply);
            lemma_after_tear_v4(asks, first, m, t, run);
        },
        CleanPhase::TearV6(at) => {
            let t = tear_next(m, 10, at, reply);
            assert(tear_counted(asks, first, t));
            lemma_tear_next(asks, first, 10, m, at, reply);
            lemma_after_tear_v6(asks, first, m, t, run);
        },
        CleanPhase::DeleteV4 => {
            let next = CleanView {
                first_err: first_of(run.first_err, fault_of(committed(true, reply))),
                ..run
            };
            lemma_delete_v6(asks, first, m, next);
        },
        CleanPhase::DeleteV6 => {
            let next = CleanView {
                first_err: first_of(run.first_err, fault_of(committed(true, reply))),
                ..run
            };
            lemma_underlay(asks, first, m, next, 0);
        },
        CleanPhase::Underlay(i) => {
            let gone = MgrView { underlay: m.underlay.remove(i as int), ..m };
            let (n, from) = if committed(true, reply) is Ok {
                (gone, i as int)
            } else {
                (m, i + 1)
            };
            assert forall|a: int| 0 <= a < first.underlay.len() implies asks(
                CleanAsk::Route(2, RouteAsk::NoTunnel((#[trigger] first.underlay[a]).0)),
            ) || exists|b: int|
                from <= b < n.underlay.len() && #[trigger] n.underlay[b] == first.underlay[a] by {
                if !asks(CleanAsk::Route(2, RouteAsk::NoTunnel(first.underlay[a].0))) {
                    let b = choose|b: int|
                        i <= b < m.underlay.len() && #[trigger] m.underlay[b] == first.underlay[a];
                    assert(b != i);
                    if committed(true, reply) is Ok {
                        assert(n.underlay[b - 1] == first.underlay[a]);
                    } else {
                        assert(n.underlay[b] == first.underlay[a]);
                    }
                }
            }
            lemma_underlay(asks, first, n, run, from);
        },
        CleanPhase::Finished => {},
    }
}

proof fn lemma_more(
    few: spec_fn(CleanAsk) -> bool,
    many: spec_fn(CleanAsk) -> bool,
    first: MgrView,
    s: CleanState,
)
    requires
        course(few, first, s),
        forall|a: CleanAsk| few(a) ==> #[trigger] many(a),
    ensures
        course(many, first, s),
{
    assert forall|a: Ask| of_paths(few)(a) implies #[trigger] of_paths(many)(a) by {
        assert(many(CleanAsk::Path(a)));
    }
    assert forall|p: ProbeView| all_dropped(of_paths(few), p) implies #[trigger] all_dropped(
        of_paths(many),
        p,
    ) by {
        assert forall|j: int| 0 <= j < p.main_route_targets.len() implies of_paths(many)(
            Ask::NoHost(#[trigger] p.main_route_targets[j]),
        ) by {
            assert(of_paths(few)(Ask::NoHost(p.main_route_targets[j])));
        }
    }
}

proof fn lemma_trace(m: MgrView, replies: Seq<Result<(), NetlinkError>>)
    requires
        m.wf(),
        lists_fit(m, no_probes()),
        m.probes.len() < usize::MAX,
        m.nh.len() <= usize::MAX,
        m.underlay.len() <= usize::MAX,
    ensures
        course(asked_in(m, replies), m, clean_run(m, replies)),
    decreases replies.len(),
{
    let asks = asked_in(m, replies);
    let s = clean_run(m, replies);
    clean_run_unfolds(m, replies);
    assert(replies.take(replies.len() as int) =~= replies);
    assert forall|a: CleanAsk| is_clean_ask(m, s.step, a) implies #[trigger] asks(a) by {
        assert(is_clean_ask(m, clean_run(m, replies.take(replies.len() as int)).step, a));
    }
    if replies.len() == 0 {
        let p = enter_stale(m, no_probes(), 0);
        lemma_stale_sound(m, no_probes(), 0, m.probes.len() as int);
        assert forall|a: Ask| probe_trace_laws::is_ask(m.order, p.step, a) implies #[trigger] of_paths(
            asks,
        )(a) by {
            assert(!(p.step is Done));
            assert(is_clean_ask(m, s.step, CleanAsk::Path(a)));
        }
        assert(awaits(of_paths(asks), m.probes, Seq::empty(), m.probes, 0));
        lemma_gone_stale(of_paths(asks), m.probes, m, no_probes(), 0);
        lemma_start_frame(m);
        lemma_after_probes(
            asks,
            m,
            p,
            CleanView {
                probes: no_probes(),
                had_v4: m.v4 == InstalledVariant::Standard,
                had_v6: m.v6 == InstalledVariant::Standard,
                first_err: Fault::Clear,
                phase: CleanPhase::Probes,
            },
        );
    } else {
        let before = replies.drop_last();
        let few = asked_in(m, before);
        let b = clean_run(m, before);
        lemma_trace(m, before);
        assert forall|a: CleanAsk| few(a) implies #[trigger] asks(a) by {
            let k = choose|k: int|
                0 <= k <= before.len() && is_clean_ask(
                    m,
                    (#[trigger] clean_run(m, before.take(k))).step,
                    a,
                );
            assert(before.take(k) =~= replies.take(k));
            assert(is_clean_ask(m, clean_run(m, replies.take(k)).step, a));
        }
        lemma_more(few, asks, m, b);
        lemma_next(asks, m, b, replies.last());
    }
}

proof fn lemma_start_frame(m: MgrView)
    ensures
        ({
            let p = enter_stale(m, no_probes(), 0);
            &&& p.m.order == m.order && p.m.priority == m.priority
            &&& p.m.nh == m.nh && p.m.underlay == m.underlay && p.m.v4 == m.v4 && p.m.v6 == m.v6
        }),
{
}

/// A clean-up that is over has asked for everything of ours to go, whatever the
/// kernel has answered on the way: the rule, the route and the host routes of each
/// probe path; in both families the group, the route over it if there was one, and
/// every nexthop object; each multipath default route that was installed here; and
/// the route to each tunnel's peer.
pub proof fn a_clean_up_asks_for_everything_to_go(
    m: MgrView,
    replies: Seq<Result<(), NetlinkError>>,
)
    requires
        m.wf(),
        lists_fit(m, no_probes()),
        m.probes.len() < usize::MAX,
        m.nh.len() <= usize::MAX,
        m.underlay.len() <= usize::MAX,
        clean_run(m, replies).step is Done,
    ensures
        forall|k: int|
            #![trigger m.probes[k]]
            0 <= k < m.probes.len() ==> {
                &&& clean_asked(m, replies, CleanAsk::Path(Ask::NoRule(m.probes[k])))
                &&& clean_asked(m, replies, CleanAsk::Path(Ask::NoRoute(m.probes[k])))
                &&& forall|j: int|
                    0 <= j < m.probes[k].main_route_targets.len() ==> clean_asked(
                        m,
                        replies,
                        CleanAsk::Path(
                            Ask::NoHost(#[trigger] m.probes[k].main_route_targets[j]),
                        ),
                    )
            },
        clean_asked(m, replies, CleanAsk::Route(2, RouteAsk::NoGroup)),
        clean_asked(m, replies, CleanAsk::Route(10, RouteAsk::NoGroup)),
        m.v4 == InstalledVariant::Resilient ==> clean_asked(
            m,
            replies,
            CleanAsk::Route(2, RouteAsk::NoGroupRoute),
        ),
        m.v6 == InstalledVariant::Resilient ==> clean_asked(
            m,
            replies,
            CleanAsk::Route(10, RouteAsk::NoGroupRoute),
        ),
        m.v4 == InstalledVariant::Standard ==> clean_asked(
            m,
            replies,
            CleanAsk::Route(2, RouteAsk::NoDefault),
        ),
        m.v6 == InstalledVariant::Standard ==> clean_asked(
            m,
            replies,
            CleanAsk::Route(10, RouteAsk::NoDefault),
        ),
        forall|e: int|
            0 <= e < m.nh.len() && ((#[trigger] m.nh[e]).family == 2 || m.nh[e].family == 10)
                ==> clean_asked(
                m,
                replies,
                CleanAsk::Route(m.nh[e].family, RouteAsk::NoObject(m.nh[e].id)),
            ),
        forall|u: int|
            0 <= u < m.underlay.len() ==> clean_asked(
                m,
                replies,
                CleanAsk::Route(2, RouteAsk::NoTunnel((#[trigger] m.underlay[u]).0)),
            ),
{
    let asks = asked_in(m, replies);
    lemma_trace(m, replies);
    let none: Seq<ProbeView> = Seq::empty();
    assert(all_gone(of_paths(asks), m.probes, none));
    assert(family_gone(asks, m, 2) && family_gone(asks, m, 10));
    assert(default_gone(asks, m, 2) && default_gone(asks, m, 10));
    assert(asks(CleanAsk::Route(2, RouteAsk::NoGroup)));
    assert(asks(CleanAsk::Route(10, RouteAsk::NoGroup)));
    assert forall|k: int| #![trigger m.probes[k]] 0 <= k < m.probes.len() implies {
        &&& clean_asked(m, replies, CleanAsk::Path(Ask::NoRule(m.probes[k])))
        &&& clean_asked(m, replies, CleanAsk::Path(Ask::NoRoute(m.probes[k])))
        &&& forall|j: int|
            0 <= j < m.probes[k].main_route_targets.len() ==> clean_asked(
                m,
                replies,
                CleanAsk::Path(Ask::NoHost(#[trigger] m.probes[k].main_route_targets[j])),
            )
    } by {
        let q = m.probes[k];
        assert(not_wanted(q, none));
        assert(all_dropped(of_paths(asks), q));
        assert(of_paths(asks)(Ask::NoRule(q)));
        assert(of_paths(asks)(Ask::NoRoute(q)));
        assert forall|j: int| 0 <= j < q.main_route_targets.len() implies clean_asked(
            m,
            replies,
            CleanAsk::Path(Ask::NoHost(#[trigger] q.main_route_targets[j])),
        ) by {
            assert(of_paths(asks)(Ask::NoHost(q.main_route_targets[j])));
        }
    }
    assert forall|e: int|
        0 <= e < m.nh.len() && ((#[trigger] m.nh[e]).family == 2 || m.nh[e].family
            == 10) implies clean_asked(
        m,
        replies,
        CleanAsk::Route(m.nh[e].family, RouteAsk::NoObject(m.nh[e].id)),
    ) by {
        assert(asks(CleanAsk::Route(m.nh[e].family, RouteAsk::NoObject(m.nh[e].id))));
    }
    assert forall|u: int| 0 <= u < m.underlay.len() implies clean_asked(
        m,
        replies,
        CleanAsk::Route(2, RouteAsk::NoTunnel((#[trigger] m.underlay[u]).0)),
    ) by {
        assert(asks(CleanAsk::Route(2, RouteAsk::NoTunnel(m.underlay[u].0))));
    }
    if m.v4 == InstalledVariant::Resilient {
        assert(asks(CleanAsk::Route(2, RouteAsk::NoGroupRoute)));
    }
    if m.v6 == InstalledVariant::Resilient {
        assert(asks(CleanAsk::Route(10, RouteAsk::NoGroupRoute)));
    }
    if m.v4 == InstalledVariant::Standard {
        assert(asks(CleanAsk::Route(2, RouteAsk::NoDefault)));
    }
    if m.v6 == InstalledVariant::Standard {
        assert(asks(CleanAsk::Route(10, RouteAsk::NoDefault)));
    }
}

/// What a clean-up tells in the end: the first refusal to delete a default route
/// of ours. Nothing else counts, and a route that is not there is no refusal.
pub proof fn what_a_clean_up_tells(m: MgrView, run: CleanView, reply: Result<(), NetlinkError>)
    ensures
        ({
            let s = clean_next(m, run, reply);
            let told = run.phase is DeleteV4 || run.phase is DeleteV6;
            &&& s.run.first_err == (match (run.first_err, reply) {
                (Fault::Clear, Err(e)) if told && e != NetlinkError::Os(2) && e != NetlinkError::Os(
                    3,
                ) && e != NetlinkError::Os(22) => Fault::Error(e),
                _ => run.first_err,
            })
            &&& s.step matches StepView::Done(e) ==> e == (match s.run.first_err {
                Fault::Clear => None,
                Fault::Error(x) => Some(x),
            })
        }),
{
}

/// Whether an answer to a deletion means that the thing is gone: it was deleted, or
/// was not there.
pub open spec fn means_gone(reply: Result<(), NetlinkError>) -> bool {
    match reply {
        Ok(_) => true,
        Err(e) => e == NetlinkError::Os(2) || e == NetlinkError::Os(3) || e == NetlinkError::Os(22),
    }
}

/// What is gone is forgotten, and what could not be deleted stays known: a nexthop
/// object in the removal of a group ...
pub proof fn refused_objects_stay_known(
    m: MgrView,
    family: u8,
    i: int,
    reply: Result<(), NetlinkError>,
)
    requires
        0 <= i < m.nh.len() <= usize::MAX,
    ensures
        tear_next(m, family, TearAt::Member(i as usize), reply).m.nh == (if means_gone(reply) {
            m.nh.remove(i)
        } else {
            m.nh
        }),
{
}

/// ... a route to a tunnel's peer in the clean-up ...
pub proof fn refused_tunnel_routes_stay_known(
    m: MgrView,
    run: CleanView,
    i: int,
    reply: Result<(), NetlinkError>,
)
    requires
        0 <= i < m.underlay.len() <= usize::MAX,
        run.phase == CleanPhase::Underlay(i as usize),
    ensures
        clean_next(m, run, reply).m.underlay == (if means_gone(reply) {
            m.underlay.remove(i)
        } else {
            m.underlay
        }),
{
}

/// ... and a probe path: it is forgotten only if both its route and its rule are
/// gone.
pub proof fn refused_paths_stay_known(
    m: MgrView,
    run: ProbeRunView,
    p: int,
    f: Fault,
    reply: Result<(), NetlinkError>,
)
    requires
        0 <= p < m.probes.len() <= usize::MAX,
        run.phase == ProbePhase::RemoveRule(p as usize, f),
        run.purpose == Purpose::Stale,
    ensures
        next_state(m, run, reply).m.probes == (if f is Clear && (means_gone(reply) || reply == Err::<
            (),
            NetlinkError,
        >(NetlinkError::Os(17))) {
            m.probes.remove(p)
        } else {
            m.probes
        }),
{
}

} // verus!
