//! Which requests a whole run of the operation on the default route sends, and
//! which of them the kernel has granted when it succeeds.
use crate::addr::Ipv4Addr;
use crate::config::EcmpMode;
use crate::netlink::apply::{
    after_tear, answer, enter_drop, enter_links_down, enter_member, enter_members, enter_mode,
    enter_resilient, enter_standard, enter_teardown, enter_underlay_delete, enter_underlay_install,
    find_dest, finish_links_down, finish_resilient, fresh_run, ids_needed, lemma_find_dest,
    next_missing, next_state, next_unwanted, routes, AfterTeardown, ApplyState, Event, Phase, RunView,
    StepView,
};
use crate::netlink::group_laws::{only_stale_objects_go, stands_for};
use crate::netlink::manager::{
    gateway_key, lemma_find_nh_exists, nh_id, tear_group, tear_members, tear_next, tear_start,
    tear_wf, with_nh_id, HostRouteView, InstalledVariant, MgrView, TearAt, TearState,
};
use crate::netlink::reply::NetlinkError;
use crate::netlink::reply_laws::whose_default_route_it_is;
use crate::netlink::request::{
    req_delete_host_route, req_delete_nexthop, req_delete_nh_route, req_delete_standard_route,
    req_dump, req_group, req_host_route, req_nexthop, req_nh_route, req_standard_route,
};
use crate::netlink::route::HopView;
use crate::netlink::util::ByteOrder;
use vstd::prelude::*;

verus! {

/// What is asked of the kernel for the default route of a family.
pub ghost enum RouteAsk {
    /// A default route over these ways out.
    Default(Seq<HopView>),
    /// A nexthop object with this identifier for a way out.
    Object(u32, HopView),
    /// A group of these members: identifier and weight.
    Group(Seq<(u32, u32)>),
    /// A default route over the group.
    GroupRoute,
    /// That the default route go.
    NoDefault,
    /// That the default route over the group go.
    NoGroupRoute,
    /// That the group go.
    NoGroup,
    /// That the object with this identifier go.
    NoObject(u32),
    /// A host route to a tunnel's peer, through an interface and a gateway.
    Tunnel(Ipv4Addr, u32, Option<Seq<u8>>),
    /// That there be no host route to this address.
    NoTunnel(Ipv4Addr),
    /// Which default routes there are.
    Routes,
}

/// What an operation is for, and under which settings.
pub ghost struct Task {
    pub order: ByteOrder,
    pub priority: u32,
    pub mode: EcmpMode,
    pub family: u8,
    pub hops: Seq<HopView>,
    pub wanted: Seq<HostRouteView>,
}

/// Whether the mode is the one without groups.
pub open spec fn multipath_only(t: Task) -> bool {
    t.mode == EcmpMode::Standard
}

/// Whether the mode is the one with groups and nothing else.
pub open spec fn resilient_only(t: Task) -> bool {
    t.mode == EcmpMode::Resilient
}

/// The task of an operation that a manager starts.
pub open spec fn task_of(
    m: MgrView,
    family: u8,
    hops: Seq<HopView>,
    wanted: Seq<HostRouteView>,
) -> Task {
    Task { order: m.order, priority: m.priority, mode: m.mode, family, hops, wanted }
}

/// The group of a family.
pub open spec fn group_of(family: u8) -> u32 {
    if family == 10 {
        0xFFFF_FF01
    } else {
        0xFFFF_FF00
    }
}

/// Whether a step asks that of the kernel, with the number that the manager `at`
/// gives.
pub open spec fn asks_with(at: MgrView, family: u8, step: StepView, a: RouteAsk) -> bool {
    match a {
        RouteAsk::Default(hops) => step == StepView::Send(req_standard_route(at, family, hops)),
        RouteAsk::Object(id, hop) => step == StepView::Send(req_nexthop(at, family, id, hop)),
        RouteAsk::Group(members) => step == StepView::Send(req_group(at, family, members)),
        RouteAsk::GroupRoute => step == StepView::Send(req_nh_route(at, family)),
        RouteAsk::NoDefault => step == StepView::Send(req_delete_standard_route(at, family)),
        RouteAsk::NoGroupRoute => step == StepView::Send(req_delete_nh_route(at, family)),
        RouteAsk::NoGroup => step == StepView::Send(req_delete_nexthop(at, 0, group_of(family))),
        RouteAsk::NoObject(id) => step == StepView::Send(req_delete_nexthop(at, family, id)),
        RouteAsk::Tunnel(dst, ifindex, gateway) => step == StepView::Send(
            req_host_route(at, 42761, dst, ifindex, gateway),
        ),
        RouteAsk::NoTunnel(dst) => step == StepView::Send(
            req_delete_host_route(at, 42761, 254, dst, 32),
        ),
        RouteAsk::Routes => step == StepView::Query(req_dump(at, family)),
    }
}

/// Whether a step asks that of the kernel.
pub open spec fn is_ask(t: Task, step: StepView, a: RouteAsk) -> bool {
    exists|at: MgrView|
        at.order == t.order && at.priority == t.priority && #[trigger] asks_with(
            at,
            t.family,
            step,
            a,
        )
}

/// The state of an operation after a list of events, from its first state on.
#[verifier::opaque]
pub open spec fn apply_run(first: ApplyState, events: Seq<Event>) -> ApplyState
    decreases events.len(),
{
    if events.len() == 0 {
        first
    } else {
        let s = apply_run(first, events.drop_last());
        next_state(s.m, s.run, events.last())
    }
}

/// What `apply_run` is.
pub proof fn apply_run_unfolds(first: ApplyState, events: Seq<Event>)
    ensures
        events.len() == 0 ==> apply_run(first, events) == first,
        events.len() > 0 ==> apply_run(first, events) == next_state(
            apply_run(first, events.drop_last()).m,
            apply_run(first, events.drop_last()).run,
            events.last(),
        ),
{
    reveal(apply_run);
}

/// Whether that was asked of the kernel at some time of a run, and granted.
pub open spec fn granted(t: Task, first: ApplyState, events: Seq<Event>, a: RouteAsk) -> bool {
    exists|k: int|
        0 <= k < events.len() && answer(events[k]) is Ok && is_ask(
            t,
            (#[trigger] apply_run(first, events.take(k))).step,
            a,
        )
}

spec fn granted_in(t: Task, first: ApplyState, events: Seq<Event>) -> spec_fn(RouteAsk) -> bool {
    |a: RouteAsk| granted(t, first, events, a)
}

/// Whether a state may ask that of the kernel: a default route over all the ways
/// out, not in the resilient mode; objects, a group and a route over it, with the
/// weights of the ways out, not in the multipath mode; host routes to the wanted
/// peers. What is asked to go is not wanted.
pub open spec fn permitted(t: Task, m: MgrView, run: RunView, a: RouteAsk) -> bool {
    match a {
        RouteAsk::Default(hops) => hops == t.hops && hops.len() > 0 && !resilient_only(t),
        RouteAsk::Object(_, hop) => t.hops.contains(hop) && !multipath_only(t),
        RouteAsk::Group(members) => members.len() == t.hops.len() && members.len() > 0 && !multipath_only(t) && forall|k: int|
            0 <= k < members.len() ==> (#[trigger] members[k]).1 == t.hops[k].weight,
        RouteAsk::GroupRoute => t.hops.len() > 0 && !multipath_only(t),
        RouteAsk::NoDefault => t.hops.len() == 0 || !multipath_only(t),
        RouteAsk::NoGroupRoute => true,
        RouteAsk::NoGroup => true,
        RouteAsk::NoObject(id) => exists|e: int|
            0 <= e < m.nh.len() && (#[trigger] m.nh[e]).id == id && m.nh[e].family == t.family && (
            run.phase is Drop ==> forall|h: int|
                0 <= h < t.hops.len() ==> !stands_for(m.nh[e], t.family, #[trigger] t.hops[h])),
        RouteAsk::Tunnel(dst, ifindex, gateway) => t.wanted.contains((dst, ifindex, gateway)),
        RouteAsk::NoTunnel(dst) => forall|k: int|
            0 <= k < t.wanted.len() ==> (#[trigger] t.wanted[k]).0 != dst,
        RouteAsk::Routes => t.hops.len() == 0,
    }
}

/// Whether a state asks for something that it may ask for, unless it is the last.
pub open spec fn asks_what_it_may(t: Task, s: ApplyState) -> bool {
    s.step is Done || exists|a: RouteAsk| #[trigger]
        is_ask(t, s.step, a) && permitted(t, s.m, s.run, a)
}

/// Whether the first `n` members of the group are granted objects for the ways
/// out, with the weights of these.
spec fn objects_granted(g: spec_fn(RouteAsk) -> bool, t: Task, members: Seq<(u32, u32)>, n: int) -> bool {
    forall|k: int|
        0 <= k < n ==> (#[trigger] members[k]).1 == t.hops[k].weight && g(
            RouteAsk::Object(members[k].0, t.hops[k]),
        )
}

spec fn group_granted(g: spec_fn(RouteAsk) -> bool, t: Task, members: Seq<(u32, u32)>) -> bool {
    &&& members.len() == t.hops.len()
    &&& objects_granted(g, t, members, t.hops.len() as int)
    &&& g(RouteAsk::Group(members))
    &&& g(RouteAsk::GroupRoute)
}

spec fn made(g: spec_fn(RouteAsk) -> bool, t: Task) -> bool {
    ||| !resilient_only(t) && g(RouteAsk::Default(t.hops))
    ||| !multipath_only(t) && exists|members: Seq<(u32, u32)>| #[trigger]
        group_granted(g, t, members)
}

spec fn is_for(t: Task, m: MgrView, run: RunView) -> bool {
    &&& m.order == t.order && m.priority == t.priority && m.mode == t.mode
    &&& run.family == t.family && run.hops == t.hops && run.wanted == t.wanted
    &&& m.nh.len() <= usize::MAX
    &&& t.wanted.len() <= usize::MAX
    &&& t.hops.len() <= usize::MAX
}

/// What holds of every state of a run.
spec fn course(g: spec_fn(RouteAsk) -> bool, t: Task, s: ApplyState) -> bool {
    &&& is_for(t, s.m, s.run)
    &&& s.m.nh.len() + ids_needed(s.run) <= usize::MAX
    &&& asks_what_it_may(t, s)
    &&& s.step is Done <==> s.run.phase is Finished
    &&& multipath_only(t) ==> !s.run.resilient
    &&& match s.run.phase {
        Phase::UnderlayDelete(_) | Phase::UnderlayInstall(_) => true,
        Phase::Teardown(at) => tear_wf(s.m, at) && (resilient_only(t)
            ==> s.run.after is Fail),
        Phase::LinksDown | Phase::LinksDownDelete => t.hops.len() == 0,
        Phase::Standard => !resilient_only(t) && is_ask(
            t,
            s.step,
            RouteAsk::Default(t.hops),
        ),
        Phase::Switch => t.hops.len() > 0 && !multipath_only(t),
        Phase::Member(i) => !multipath_only(t) && i < t.hops.len() && s.run.members.len()
            == i + 1 && objects_granted(g, t, s.run.members, i as int) && s.run.members[i as int].1
            == t.hops[i as int].weight && is_ask(
            t,
            s.step,
            RouteAsk::Object(s.run.members[i as int].0, t.hops[i as int]),
        ),
        Phase::Group => !multipath_only(t) && t.hops.len() > 0 && s.run.members.len()
            == t.hops.len() && objects_granted(g, t, s.run.members, t.hops.len() as int) && is_ask(
            t,
            s.step,
            RouteAsk::Group(s.run.members),
        ),
        Phase::Route => !multipath_only(t) && t.hops.len() > 0 && s.run.members.len()
            == t.hops.len() && objects_granted(g, t, s.run.members, t.hops.len() as int) && g(
            RouteAsk::Group(s.run.members),
        ) && is_ask(t, s.step, RouteAsk::GroupRoute),
        Phase::Drop(i) => !multipath_only(t) && i < s.m.nh.len() && group_granted(
            g,
            t,
            s.run.members,
        ),
        Phase::Finished => s.step == StepView::Done(None) && t.hops.len() > 0 ==> made(g, t),
    }
}

proof fn lemma_ask(t: Task, at: MgrView, step: StepView, a: RouteAsk)
    requires
        at.order == t.order,
        at.priority == t.priority,
        asks_with(at, t.family, step, a),
    ensures
        is_ask(t, step, a),
{
}

proof fn lemma_links_down(g: spec_fn(RouteAsk) -> bool, t: Task, m: MgrView, run: RunView)
    requires
        is_for(t, m, run),
        t.hops.len() == 0,
        multipath_only(t) ==> !run.resilient,
    ensures
        course(g, t, enter_links_down(m, run)),
{
    let s = enter_links_down(m, run);
    lemma_ask(t, m, s.step, RouteAsk::Routes);
}

proof fn lemma_standard(g: spec_fn(RouteAsk) -> bool, t: Task, m: MgrView, run: RunView)
    requires
        is_for(t, m, run),
        !resilient_only(t),
    ensures
        course(g, t, enter_standard(m, run)),
{
    let plain = RunView { resilient: false, ..run };
    if t.hops.len() == 0 {
        lemma_links_down(g, t, m, plain);
    } else {
        let s = enter_standard(m, run);
        lemma_ask(t, m, s.step, RouteAsk::Default(t.hops));
    }
}

/// Whether a step of a removal asks for something that may be asked for.
spec fn tear_asks(t: Task, ts: TearState) -> bool {
    ts.msg matches Some(msg) ==> {
        &&& exists|a: RouteAsk| #[trigger]
            is_ask(t, StepView::Send(msg), a) && {
                ||| a is NoGroupRoute
                ||| a is NoGroup
                ||| a matches RouteAsk::NoObject(id) && exists|e: int|
                    0 <= e < ts.m.nh.len() && (#[trigger] ts.m.nh[e]).id == id && ts.m.nh[e].family
                        == t.family
            }
        &&& tear_wf(ts.m, ts.at)
    }
}

spec fn tear_fits(t: Task, m: MgrView) -> bool {
    m.order == t.order && m.priority == t.priority && m.mode == t.mode && m.nh.len() <= usize::MAX
}

proof fn lemma_tear_members(t: Task, m: MgrView, from: int)
    requires
        tear_fits(t, m),
        0 <= from <= m.nh.len(),
    ensures
        tear_fits(t, tear_members(m, t.family, from).m),
        tear_asks(t, tear_members(m, t.family, from)),
{
    let none: Seq<HopView> = Seq::empty();
    let ts = tear_members(m, t.family, from);
    only_stale_objects_go(m.nh, t.family, none, from);
    if let Some(msg) = ts.msg {
        let i = crate::netlink::manager::next_stale_nh(m.nh, t.family, none, from);
        let a = RouteAsk::NoObject(m.nh[i].id);
        lemma_ask(t, m, StepView::Send(msg), a);
        assert(ts.m.nh[i].id == m.nh[i].id);
    }
}

proof fn lemma_tear_group(t: Task, m: MgrView)
    requires
        tear_fits(t, m),
    ensures
        tear_fits(t, tear_group(m, t.family).m),
        tear_asks(t, tear_group(m, t.family)),
{
    let ts = tear_group(m, t.family);
    lemma_ask(t, m, StepView::Send(ts.msg->0), RouteAsk::NoGroup);
}

proof fn lemma_tear_start(t: Task, m: MgrView)
    requires
        tear_fits(t, m),
    ensures
        tear_fits(t, tear_start(m, t.family).m),
        tear_asks(t, tear_start(m, t.family)),
{
    let ts = tear_start(m, t.family);
    if m.variant(t.family) == InstalledVariant::Resilient {
        lemma_ask(t, m, StepView::Send(ts.msg->0), RouteAsk::NoGroupRoute);
    } else {
        lemma_tear_group(t, m);
    }
}

proof fn lemma_tear_next(t: Task, m: MgrView, at: TearAt, reply: Result<(), NetlinkError>)
    requires
        tear_fits(t, m),
        tear_wf(m, at),
    ensures
        tear_fits(t, tear_next(m, t.family, at, reply).m),
        tear_asks(t, tear_next(m, t.family, at, reply)),
{
    match at {
        TearAt::Route => lemma_tear_group(t, m),
        TearAt::Group => lemma_tear_members(t, m, 0),
        TearAt::Member(i) => {
            lemma_tear_members(t, m.with_nh(m.nh.remove(i as int)), i as int);
            lemma_tear_members(t, m, i + 1);
        },
        TearAt::Over => {},
    }
}

proof fn lemma_after_tear(g: spec_fn(RouteAsk) -> bool, t: Task, ts: TearState, run: RunView)
    requires
        is_for(t, ts.m, run),
        tear_asks(t, ts),
        resilient_only(t) ==> run.after is Fail,
        multipath_only(t) ==> !run.resilient,
    ensures
        course(g, t, after_tear(ts, run)),
{
    match ts.msg {
        Some(msg) => {
            let s = after_tear(ts, run);
            let a = choose|a: RouteAsk| #[trigger]
                is_ask(t, StepView::Send(msg), a) && {
                    ||| a is NoGroupRoute
                    ||| a is NoGroup
                    ||| a matches RouteAsk::NoObject(id) && exists|e: int|
                        0 <= e < ts.m.nh.len() && (#[trigger] ts.m.nh[e]).id == id
                            && ts.m.nh[e].family == t.family
                };
            assert(permitted(t, s.m, s.run, a));
            assert(is_ask(t, s.step, a));
        },
        None => {
            if run.after == AfterTeardown::Standard {
                lemma_standard(g, t, ts.m, run);
            }
        },
    }
}

proof fn lemma_teardown(
    g: spec_fn(RouteAsk) -> bool,
    t: Task,
    m: MgrView,
    run: RunView,
    after: AfterTeardown,
)
    requires
        is_for(t, m, run),
        resilient_only(t) ==> after is Fail,
    ensures
        course(g, t, enter_teardown(m, run, after)),
{
    lemma_tear_start(t, m);
    let ts = tear_start(m, t.family);
    lemma_after_tear(g, t, ts, RunView { resilient: false, after, ..run });
}

proof fn lemma_finish_resilient(
    g: spec_fn(RouteAsk) -> bool,
    t: Task,
    m: MgrView,
    run: RunView,
    e: Option<NetlinkError>,
)
    requires
        is_for(t, m, run),
        !multipath_only(t),
        e is None && t.hops.len() > 0 ==> group_granted(g, t, run.members),
    ensures
        course(g, t, finish_resilient(m, run, e)),
{
    if let Some(err) = e {
        if !resilient_only(t) {
            let n = if crate::netlink::reply::gives_up(m.numbers, err) {
                MgrView { supported: Some(false), ..m }
            } else {
                m
            };
            lemma_teardown(g, t, n, run, AfterTeardown::Standard);
        } else {
            lemma_teardown(g, t, m, run, AfterTeardown::Fail(err));
        }
    }
}

proof fn lemma_finish_links_down(
    g: spec_fn(RouteAsk) -> bool,
    t: Task,
    m: MgrView,
    run: RunView,
    e: Option<NetlinkError>,
)
    requires
        is_for(t, m, run),
        t.hops.len() == 0,
        multipath_only(t) ==> !run.resilient,
    ensures
        course(g, t, finish_links_down(m, run, e)),
{
    if run.resilient {
        lemma_finish_resilient(g, t, m, run, e);
    }
}

proof fn lemma_drop(g: spec_fn(RouteAsk) -> bool, t: Task, m: MgrView, run: RunView, from: int)
    requires
        is_for(t, m, run),
        !multipath_only(t),
        group_granted(g, t, run.members),
        0 <= from <= m.nh.len(),
    ensures
        course(g, t, enter_drop(m, run, from)),
{
    only_stale_objects_go(m.nh, t.family, t.hops, from);
    let i = crate::netlink::manager::next_stale_nh(m.nh, t.family, t.hops, from);
    let s = enter_drop(m, run, from);
    if i < m.nh.len() {
        let a = RouteAsk::NoObject(m.nh[i].id);
        lemma_ask(t, m, s.step, a);
        assert(s.m.nh[i].id == m.nh[i].id);
        assert(permitted(t, s.m, s.run, a));
    } else {
        lemma_finish_resilient(g, t, m, run, None);
    }
}

proof fn lemma_member(g: spec_fn(RouteAsk) -> bool, t: Task, m: MgrView, run: RunView, i: int)
    requires
        is_for(t, m, run),
        !multipath_only(t),
        0 <= i <= t.hops.len(),
        0 < t.hops.len() <= usize::MAX,
        m.nh.len() + t.hops.len() - i <= usize::MAX,
        run.members.len() == i,
        objects_granted(g, t, run.members, i),
    ensures
        course(g, t, enter_member(m, run, i)),
{
    let s = enter_member(m, run, i);
    if i < t.hops.len() {
        let hop = t.hops[i];
        let key = gateway_key(hop.gateway);
        let id = nh_id(m, t.family, hop.ifindex, hop.gateway);
        let n = with_nh_id(m, t.family, hop.ifindex, hop.gateway);
        lemma_find_nh_exists(m.nh, t.family, hop.ifindex, key);
        lemma_ask(t, n, s.step, RouteAsk::Object(id, hop));
        assert(t.hops.contains(hop));
        assert(permitted(t, s.m, s.run, RouteAsk::Object(id, hop)));
        assert forall|k: int| 0 <= k < i implies (#[trigger] s.run.members[k]).1
            == t.hops[k].weight && g(RouteAsk::Object(s.run.members[k].0, t.hops[k])) by {
            assert(s.run.members[k] == run.members[k]);
        }
    } else {
        lemma_ask(t, m, s.step, RouteAsk::Group(run.members));
        assert(permitted(t, s.m, s.run, RouteAsk::Group(run.members)));
    }
}

proof fn lemma_members(g: spec_fn(RouteAsk) -> bool, t: Task, m: MgrView, run: RunView)
    requires
        is_for(t, m, run),
        !multipath_only(t),
        t.hops.len() > 0,
        m.nh.len() + t.hops.len() <= usize::MAX,
    ensures
        course(g, t, enter_members(m, run)),
{
    if t.hops.len() > 256 {
        lemma_finish_resilient(
            g,
            t,
            m,
            run,
            Some(NetlinkError::TooManyNexthops(run.hops.len() as usize)),
        );
    } else {
        lemma_member(g, t, m, RunView { members: Seq::empty(), ..run }, 0);
    }
}

proof fn lemma_resilient(g: spec_fn(RouteAsk) -> bool, t: Task, m: MgrView, run: RunView)
    requires
        is_for(t, m, run),
        !multipath_only(t),
        m.nh.len() + t.hops.len() <= usize::MAX,
    ensures
        course(g, t, enter_resilient(m, run)),
{
    let r = RunView { resilient: true, ..run };
    if t.hops.len() == 0 {
        lemma_links_down(g, t, m, r);
    } else if m.variant(t.family) == InstalledVariant::Standard {
        let s = enter_resilient(m, run);
        lemma_ask(t, m, s.step, RouteAsk::NoDefault);
        assert(permitted(t, s.m, s.run, RouteAsk::NoDefault));
    } else {
        lemma_members(g, t, m, r);
    }
}

proof fn lemma_mode(g: spec_fn(RouteAsk) -> bool, t: Task, m: MgrView, run: RunView)
    requires
        is_for(t, m, run),
        m.nh.len() + t.hops.len() <= usize::MAX,
        multipath_only(t) ==> !run.resilient,
    ensures
        course(g, t, enter_mode(m, run)),
{
    match m.mode {
        EcmpMode::Standard => {
            lemma_teardown(g, t, m, run, AfterTeardown::Standard);
            lemma_standard(g, t, m, run);
        },
        EcmpMode::Resilient => lemma_resilient(g, t, m, run),
        EcmpMode::Auto => {
            lemma_resilient(g, t, m, run);
            lemma_standard(g, t, m, run);
        },
    }
}

proof fn lemma_next_missing(list: Seq<HostRouteView>, wanted: Seq<HostRouteView>, from: int)
    requires
        0 <= from,
    ensures
        next_missing(list, wanted, from) >= 0,
    decreases wanted.len() - from,
{
    if from < wanted.len() {
        lemma_next_missing(list, wanted, from + 1);
    }
}

proof fn lemma_next_unwanted(list: Seq<HostRouteView>, wanted: Seq<HostRouteView>, from: int)
    requires
        0 <= from,
    ensures
        ({
            let k = next_unwanted(list, wanted, from);
            &&& k >= 0
            &&& k < list.len() ==> forall|x: int|
                0 <= x < wanted.len() ==> (#[trigger] wanted[x]).0 != list[k].0
        }),
    decreases list.len() - from,
{
    if from < list.len() {
        lemma_find_dest(wanted, list[from].0, 0);
        if find_dest(wanted, list[from].0, 0) < wanted.len() {
            lemma_next_unwanted(list, wanted, from + 1);
        }
    }
}

proof fn lemma_install(g: spec_fn(RouteAsk) -> bool, t: Task, m: MgrView, run: RunView, from: int)
    requires
        is_for(t, m, run),
        m.nh.len() + t.hops.len() <= usize::MAX,
        multipath_only(t) ==> !run.resilient,
        0 <= from,
    ensures
        course(g, t, enter_underlay_install(m, run, from)),
{
    let i = next_missing(m.underlay, t.wanted, from);
    lemma_next_missing(m.underlay, t.wanted, from);
    if i < t.wanted.len() {
        let s = enter_underlay_install(m, run, from);
        let w = t.wanted[i];
        let a = RouteAsk::Tunnel(w.0, w.1, w.2);
        lemma_ask(t, m, s.step, a);
        assert(t.wanted.contains((w.0, w.1, w.2)));
        assert(permitted(t, s.m, s.run, a));
    } else {
        lemma_mode(g, t, m, run);
    }
}

proof fn lemma_delete(g: spec_fn(RouteAsk) -> bool, t: Task, m: MgrView, run: RunView, from: int)
    requires
        is_for(t, m, run),
        m.nh.len() + t.hops.len() <= usize::MAX,
        multipath_only(t) ==> !run.resilient,
        0 <= from,
    ensures
        course(g, t, enter_underlay_delete(m, run, from)),
{
    let i = next_unwanted(m.underlay, t.wanted, from);
    lemma_next_unwanted(m.underlay, t.wanted, from);
    if i < m.underlay.len() {
        let s = enter_underlay_delete(m, run, from);
        let a = RouteAsk::NoTunnel(m.underlay[i].0);
        lemma_ask(t, m, s.step, a);
        assert(permitted(t, s.m, s.run, a));
    } else {
        lemma_install(g, t, m, run, 0);
    }
}

proof fn lemma_next_early(g: spec_fn(RouteAsk) -> bool, t: Task, s: ApplyState, ev: Event)
    requires
        s.run.phase is UnderlayDelete || s.run.phase is UnderlayInstall || s.run.phase is Teardown,
        course(g, t, s),
        !(s.run.phase is Finished),
        answer(ev) is Ok ==> forall|a: RouteAsk| is_ask(t, s.step, a) ==> #[trigger] g(a),
    ensures
        course(g, t, next_state(s.m, s.run, ev)),
{
    let (m, run) = (s.m, s.run);
    let reply = answer(ev);
    let created = crate::netlink::apply::fault(reply);
    let deleted = crate::netlink::apply::fault(crate::netlink::reply::committed(true, reply));
    match s.run.phase {
        Phase::UnderlayDelete(i) => {
            if deleted is None {
                let n = MgrView { underlay: m.underlay.remove(i as int), ..m };
                lemma_delete(g, t, n, run, i as int);
            } else {
                lemma_delete(g, t, m, run, i + 1);
            }
        },
        Phase::UnderlayInstall(i) => {
            if created is None {
                let n = MgrView {
                    underlay: crate::netlink::apply::upsert(m.underlay, run.wanted[i as int]),
                    ..m
                };
                lemma_install(g, t, n, run, i + 1);
            } else {
                lemma_mode(g, t, m, run);
            }
        },
        Phase::Teardown(at) => {
            lemma_tear_next(t, m, at, reply);
            lemma_after_tear(g, t, tear_next(m, t.family, at, reply), run);
        },
        _ => {},
    }
}

proof fn lemma_next_plain(g: spec_fn(RouteAsk) -> bool, t: Task, s: ApplyState, ev: Event)
    requires
        s.run.phase is LinksDown || s.run.phase is LinksDownDelete || s.run.phase is Standard,
        course(g, t, s),
        !(s.run.phase is Finished),
        answer(ev) is Ok ==> forall|a: RouteAsk| is_ask(t, s.step, a) ==> #[trigger] g(a),
    ensures
        course(g, t, next_state(s.m, s.run, ev)),
{
    let (m, run) = (s.m, s.run);
    let reply = answer(ev);
    let created = crate::netlink::apply::fault(reply);
    let deleted = crate::netlink::apply::fault(crate::netlink::reply::committed(true, reply));
    match s.run.phase {
        Phase::LinksDown => {
            lemma_finish_links_down(g, t, m, run, None);
            lemma_ask(
                t,
                m,
                StepView::Send(req_delete_standard_route(m, t.family)),
                RouteAsk::NoDefault,
            );
            let n = next_state(m, run, ev);
            if n.run.phase is LinksDownDelete {
                assert(is_ask(t, n.step, RouteAsk::NoDefault));
                assert(permitted(t, n.m, n.run, RouteAsk::NoDefault));
            }
        },
        Phase::LinksDownDelete => {
            let n = m.with_variant(run.family, InstalledVariant::Absent);
            lemma_finish_links_down(g, t, n, run, None);
            lemma_finish_links_down(g, t, m, run, deleted);
        },
        Phase::Standard => {},
        _ => {},
    }
}

proof fn lemma_next_members(g: spec_fn(RouteAsk) -> bool, t: Task, s: ApplyState, ev: Event)
    requires
        s.run.phase is Switch || s.run.phase is Member,
        course(g, t, s),
        !(s.run.phase is Finished),
        answer(ev) is Ok ==> forall|a: RouteAsk| is_ask(t, s.step, a) ==> #[trigger] g(a),
    ensures
        course(g, t, next_state(s.m, s.run, ev)),
{
    let (m, run) = (s.m, s.run);
    let reply = answer(ev);
    let created = crate::netlink::apply::fault(reply);
    let deleted = crate::netlink::apply::fault(crate::netlink::reply::committed(true, reply));
    match s.run.phase {
        Phase::Switch => {
            if deleted is None {
                lemma_members(g, t, m.with_variant(run.family, InstalledVariant::Absent), run);
            } else {
                lemma_finish_resilient(g, t, m, run, deleted);
            }
        },
        Phase::Member(i) => {
            if created is None {
                assert(g(RouteAsk::Object(run.members[i as int].0, t.hops[i as int])));
                lemma_member(g, t, m, run, i + 1);
            } else {
                lemma_finish_resilient(g, t, m, run, created);
            }
        },
        _ => {},
    }
}

proof fn lemma_next_group(g: spec_fn(RouteAsk) -> bool, t: Task, s: ApplyState, ev: Event)
    requires
        s.run.phase is Group || s.run.phase is Route || s.run.phase is Drop,
        course(g, t, s),
        !(s.run.phase is Finished),
        answer(ev) is Ok ==> forall|a: RouteAsk| is_ask(t, s.step, a) ==> #[trigger] g(a),
    ensures
        course(g, t, next_state(s.m, s.run, ev)),
{
    let (m, run) = (s.m, s.run);
    let reply = answer(ev);
    let created = crate::netlink::apply::fault(reply);
    let deleted = crate::netlink::apply::fault(crate::netlink::reply::committed(true, reply));
    match s.run.phase {
        Phase::Group => {
            if created is None {
                assert(g(RouteAsk::Group(run.members)));
                let n = next_state(m, run, ev);
                lemma_ask(t, m, n.step, RouteAsk::GroupRoute);
                assert(permitted(t, n.m, n.run, RouteAsk::GroupRoute));
            } else {
                lemma_finish_resilient(g, t, m, run, created);
            }
        },
        Phase::Route => {
            if created is None {
                assert(g(RouteAsk::GroupRoute));
                let n = m.with_variant(run.family, InstalledVariant::Resilient);
                lemma_drop(g, t, n, run, 0);
            } else {
                lemma_finish_resilient(g, t, m, run, created);
            }
        },
        Phase::Drop(i) => {
            if deleted is None {
                lemma_drop(g, t, m.with_nh(m.nh.remove(i as int)), run, i as int);
            } else {
                lemma_drop(g, t, m, run, i + 1);
            }
        },
        _ => {},
    }
}

proof fn lemma_next(g: spec_fn(RouteAsk) -> bool, t: Task, s: ApplyState, ev: Event)
    requires
        course(g, t, s),
        !(s.run.phase is Finished),
        answer(ev) is Ok ==> forall|a: RouteAsk| is_ask(t, s.step, a) ==> #[trigger] g(a),
    ensures
        course(g, t, next_state(s.m, s.run, ev)),
{
    match s.run.phase {
        Phase::UnderlayDelete(_) | Phase::UnderlayInstall(_) | Phase::Teardown(_) => {
            lemma_next_early(g, t, s, ev)
        },
        Phase::LinksDown | Phase::LinksDownDelete | Phase::Standard => lemma_next_plain(
            g,
            t,
            s,
            ev,
        ),
        Phase::Switch | Phase::Member(_) => lemma_next_members(g, t, s, ev),
        _ => lemma_next_group(g, t, s, ev),
    }
}

proof fn lemma_more(few: spec_fn(RouteAsk) -> bool, many: spec_fn(RouteAsk) -> bool, t: Task, s: ApplyState)
    requires
        course(few, t, s),
        forall|a: RouteAsk| few(a) ==> #[trigger] many(a),
    ensures
        course(many, t, s),
{
    assert forall|members: Seq<(u32, u32)>| #[trigger]
        group_granted(few, t, members) implies group_granted(many, t, members) by {}
    if made(few, t) && !few(RouteAsk::Default(t.hops)) {
        let members = choose|members: Seq<(u32, u32)>| #[trigger] group_granted(few, t, members);
        assert(group_granted(many, t, members));
    }
}

/// The first state of an operation: with tunnel routes to see to, or without.
pub open spec fn is_start(
    first: ApplyState,
    m: MgrView,
    family: u8,
    hops: Seq<HopView>,
    wanted: Seq<HostRouteView>,
) -> bool {
    ||| first == enter_underlay_delete(m, fresh_run(family, hops, wanted), 0)
    ||| first == enter_mode(m, fresh_run(family, hops, wanted))
}

/// Whether a list of events has not brought an operation beyond its end.
pub open spec fn not_beyond_the_end(first: ApplyState, events: Seq<Event>) -> bool {
    forall|k: int|
        0 <= k < events.len() ==> !((#[trigger] apply_run(first, events.take(k))).step is Done)
}

proof fn lemma_trace(
    m: MgrView,
    family: u8,
    hops: Seq<HopView>,
    wanted: Seq<HostRouteView>,
    first: ApplyState,
    events: Seq<Event>,
)
    requires
        is_start(first, m, family, hops, wanted),
        m.nh.len() + hops.len() <= usize::MAX,
        wanted.len() <= usize::MAX,
        not_beyond_the_end(first, events),
    ensures
        course(
            granted_in(task_of(m, family, hops, wanted), first, events),
            task_of(m, family, hops, wanted),
            apply_run(first, events),
        ),
    decreases events.len(),
{
    let t = task_of(m, family, hops, wanted);
    let g = granted_in(t, first, events);
    apply_run_unfolds(first, events);
    if events.len() == 0 {
        lemma_delete(g, t, m, fresh_run(family, hops, wanted), 0);
        lemma_mode(g, t, m, fresh_run(family, hops, wanted));
    } else {
        let before = events.drop_last();
        let n = before.len() as int;
        let few = granted_in(t, first, before);
        let s = apply_run(first, before);
        assert forall|k: int| 0 <= k < before.len() implies !((
        #[trigger] apply_run(first, before.take(k))).step is Done) by {
            assert(before.take(k) =~= events.take(k));
            assert(!(apply_run(first, events.take(k)).step is Done));
        }
        lemma_trace(m, family, hops, wanted, first, before);
        assert(events.take(n) =~= before);
        assert(!(apply_run(first, events.take(n)).step is Done));
        assert forall|a: RouteAsk| few(a) implies #[trigger] g(a) by {
            let k = choose|k: int|
                0 <= k < before.len() && answer(before[k]) is Ok && is_ask(
                    t,
                    (#[trigger] apply_run(first, before.take(k))).step,
                    a,
                );
            assert(before.take(k) =~= events.take(k));
            assert(before[k] == events[k]);
            assert(is_ask(t, apply_run(first, events.take(k)).step, a));
        }
        if answer(events.last()) is Ok {
            assert forall|a: RouteAsk| is_ask(t, s.step, a) implies #[trigger] g(a) by {
                assert(events[n] == events.last());
                assert(is_ask(t, apply_run(first, events.take(n)).step, a));
            }
        }
        lemma_more(few, g, t, s);
        lemma_next(g, t, s, events.last());
    }
}

/// A run over some lines that succeeds has put all of them in the kernel: it has
/// granted a default route over all the ways out; or an object for each way out, a
/// group of just these objects with the weights of the ways out, and a default
/// route over the group. The first is so in the multipath mode, the second in the
/// resilient mode.
pub proof fn success_means_the_lines_were_granted(
    m: MgrView,
    family: u8,
    hops: Seq<HopView>,
    wanted: Seq<HostRouteView>,
    first: ApplyState,
    events: Seq<Event>,
)
    requires
        is_start(first, m, family, hops, wanted),
        m.nh.len() + hops.len() <= usize::MAX,
        wanted.len() <= usize::MAX,
        not_beyond_the_end(first, events),
        hops.len() > 0,
        apply_run(first, events).step == StepView::Done(None),
    ensures
        ({
            let t = task_of(m, family, hops, wanted);
            ||| !resilient_only(t) && granted(t, first, events, RouteAsk::Default(hops))
            ||| !multipath_only(t) && exists|members: Seq<(u32, u32)>|
                {
                    &&& #[trigger] granted(t, first, events, RouteAsk::Group(members))
                    &&& granted(t, first, events, RouteAsk::GroupRoute)
                    &&& members.len() == hops.len()
                    &&& forall|k: int|
                        0 <= k < members.len() ==> (#[trigger] members[k]).1 == hops[k].weight
                            && granted(
                            t,
                            first,
                            events,
                            RouteAsk::Object(members[k].0, hops[k]),
                        )
                }
        }),
{
    let t = task_of(m, family, hops, wanted);
    let g = granted_in(t, first, events);
    lemma_trace(m, family, hops, wanted, first, events);
    assert(made(g, t));
    if !(!resilient_only(t) && g(RouteAsk::Default(hops))) {
        let members = choose|members: Seq<(u32, u32)>| #[trigger] group_granted(g, t, members);
        assert(g(RouteAsk::Group(members)));
        assert(g(RouteAsk::GroupRoute));
        assert(granted(t, first, events, RouteAsk::Group(members)));
        assert forall|k: int| 0 <= k < members.len() implies (#[trigger] members[k]).1
            == hops[k].weight && granted(t, first, events, RouteAsk::Object(members[k].0, hops[k])) by {
            assert(g(RouteAsk::Object(members[k].0, hops[k])));
        }
    }
}

/// Whatever the kernel answers, nothing is asked of it but what the task calls
/// for: a default route over all the ways out and no others, objects and a group
/// for just these, host routes to the wanted peers; and what is asked to go is not
/// wanted.
pub proof fn nothing_else_is_asked_for(
    m: MgrView,
    family: u8,
    hops: Seq<HopView>,
    wanted: Seq<HostRouteView>,
    first: ApplyState,
    events: Seq<Event>,
)
    requires
        is_start(first, m, family, hops, wanted),
        m.nh.len() + hops.len() <= usize::MAX,
        wanted.len() <= usize::MAX,
        not_beyond_the_end(first, events),
    ensures
        asks_what_it_may(task_of(m, family, hops, wanted), apply_run(first, events)),
{
    lemma_trace(m, family, hops, wanted, first, events);
}

/// With all lines down the default route is asked to go if and only if the main
/// table has a default route of another metric; else it stays, and the operation
/// succeeds with what is known of it unchanged.
pub proof fn with_all_lines_down(m: MgrView, run: RunView, ev: Event)
    requires
        run.phase == Phase::LinksDown,
    ensures
        ({
            let s = next_state(m, run, ev);
            let others = exists|k: int|
                0 <= k < routes(ev).len() && (#[trigger] routes(ev)[k]).1 != m.priority;
            &&& others ==> s.step == StepView::Send(req_delete_standard_route(m, run.family))
            &&& !others ==> s.step == StepView::Done(None) && s.m.v4 == m.v4 && s.m.v6 == m.v6
                && s.m.nh == m.nh
        }),
{
    whose_default_route_it_is(routes(ev), m.priority);
}

/// A refusal is told: the multipath default route that the kernel does not grant
/// ends the operation with the kernel's error, and does not count as installed.
pub proof fn a_refused_route_is_told(m: MgrView, run: RunView, ev: Event)
    requires
        run.phase == Phase::Standard,
    ensures
        answer(ev) matches Err(e) ==> next_state(m, run, ev).step == StepView::Done(Some(e))
            && next_state(m, run, ev).m == m,
        answer(ev) is Ok ==> next_state(m, run, ev).step == StepView::Done(None) && next_state(
            m,
            run,
            ev,
        ).m.variant(run.family) == InstalledVariant::Standard,
{
}

/// In the resilient mode every refusal on the way to the group, and to the route
/// over it, is told in the end; in automatic mode it leads to a multipath route.
/// Either way what there is of the group is asked to go first.
pub proof fn a_refused_group_is_cleared(m: MgrView, run: RunView, ev: Event, e: NetlinkError)
    requires
        run.phase is Member || run.phase is Group || run.phase is Route,
        answer(ev) == Err::<(), NetlinkError>(e),
        !multipath_only(task_of(m, run.family, run.hops, run.wanted)),
    ensures
        ({
            let s = next_state(m, run, ev);
            &&& s.run.phase is Teardown
            &&& s.run.after == (if resilient_only(
                task_of(m, run.family, run.hops, run.wanted),
            ) {
                AfterTeardown::Fail(e)
            } else {
                AfterTeardown::Standard
            })
            &&& s.m.variant(run.family) == m.variant(run.family)
        }),
{
}

/// When the removal of a group is over, what it was made for follows: the error is
/// told, or a default route over all the ways out is asked for.
pub proof fn what_follows_a_removal(m: MgrView, run: RunView, ev: Event, at: TearAt)
    requires
        run.phase == Phase::Teardown(at),
        tear_next(m, run.family, at, answer(ev)).msg is None,
    ensures
        run.after matches AfterTeardown::Fail(e) ==> next_state(m, run, ev).step == StepView::Done(
            Some(e),
        ),
        run.after is Standard && run.hops.len() > 0 ==> exists|n: MgrView|
            n.order == m.order && n.priority == m.priority && next_state(m, run, ev).step
                == StepView::Send(#[trigger] req_standard_route(n, run.family, run.hops)),
{
    let t = tear_next(m, run.family, at, answer(ev));
    if run.after is Standard && run.hops.len() > 0 {
        assert(next_state(m, run, ev).step == StepView::Send(
            req_standard_route(t.m, run.family, run.hops),
        ));
    }
}

/// Whether an object belongs to the family of an operation and to none of its ways
/// out.
pub open spec fn left_over(m: MgrView, run: RunView, e: int) -> bool {
    &&& 0 <= e < m.nh.len()
    &&& m.nh[e].family == run.family
    &&& forall|h: int|
        0 <= h < run.hops.len() ==> !stands_for(m.nh[e], run.family, #[trigger] run.hops[h])
}

proof fn lemma_left_over(m: MgrView, run: RunView, from: int)
    requires
        0 <= from <= m.nh.len(),
    ensures
        ({
            let s = enter_drop(m, run, from);
            &&& s.m.nh == m.nh && s.run.hops == run.hops && s.run.family == run.family
            &&& s.step is Done ==> forall|e: int| from <= e ==> !#[trigger] left_over(m, run, e)
            &&& (exists|e: int| from <= e && #[trigger] left_over(m, run, e)) ==> exists|e: int|
                from <= e && #[trigger] left_over(m, run, e) && s.step == StepView::Send(
                    req_delete_nexthop(m, run.family, m.nh[e].id),
                )
        }),
{
    only_stale_objects_go(m.nh, run.family, run.hops, from);
    let i = crate::netlink::manager::next_stale_nh(m.nh, run.family, run.hops, from);
    assert forall|e: int| from <= e < i implies !#[trigger] left_over(m, run, e) by {
        if m.nh[e].family == run.family {
            let h = choose|h: int|
                0 <= h < run.hops.len() && stands_for(m.nh[e], run.family, #[trigger] run.hops[h]);
            assert(stands_for(m.nh[e], run.family, run.hops[h]));
        }
    }
    if i < m.nh.len() {
        assert(left_over(m, run, i));
    }
}

/// Once the route over a group is granted, every object that the group does not
/// hold is asked to go: first one of them, if there is any ...
pub proof fn left_over_objects_go(m: MgrView, run: RunView, ev: Event)
    requires
        run.phase == Phase::Route,
        answer(ev) is Ok,
    ensures
        ({
            let s = next_state(m, run, ev);
            &&& s.m.nh == m.nh && s.m.variant(run.family) == InstalledVariant::Resilient
            &&& s.step is Done ==> forall|e: int| !#[trigger] left_over(m, run, e)
            &&& (exists|e: int| #[trigger] left_over(m, run, e)) ==> !(s.step is Done)
        }),
{
    let n = m.with_variant(run.family, InstalledVariant::Resilient);
    lemma_left_over(n, run, 0);
    assert forall|e: int| #[trigger] left_over(m, run, e) == left_over(n, run, e) by {}
    if exists|e: int| #[trigger] left_over(m, run, e) {
        let e = choose|e: int| #[trigger] left_over(m, run, e);
        assert(left_over(n, run, e));
    }
}

/// ... then the next one behind it, whether it was granted or not; an object that
/// is gone is forgotten, one that is not stays known.
pub proof fn left_over_objects_go_on(m: MgrView, run: RunView, ev: Event, i: int)
    requires
        0 <= i < m.nh.len() <= usize::MAX,
        run.phase == Phase::Drop(i as usize),
    ensures
        ({
            let s = next_state(m, run, ev);
            let gone = crate::netlink::reply::committed(true, answer(ev)) is Ok;
            let from = if gone {
                i
            } else {
                i + 1
            };
            &&& s.m.nh == (if gone {
                m.nh.remove(i)
            } else {
                m.nh
            })
            &&& s.step is Done ==> forall|e: int|
                from <= e ==> !#[trigger] left_over(s.m, s.run, e)
        }),
{
    let gone = crate::netlink::reply::committed(true, answer(ev)) is Ok;
    let n = m.with_nh(m.nh.remove(i));
    let s = next_state(m, run, ev);
    if gone {
        lemma_left_over(n, run, i);
        assert forall|e: int| #[trigger] left_over(s.m, s.run, e) == left_over(n, run, e) by {}
    } else {
        lemma_left_over(m, run, i + 1);
        assert forall|e: int| #[trigger] left_over(s.m, s.run, e) == left_over(m, run, e) by {}
    }
}

/// What automatic mode has learnt decides what it starts with: groups that cannot
/// work are not tried again, and otherwise they are tried before a multipath
/// route.
pub proof fn what_automatic_mode_starts_with(m: MgrView, run: RunView)
    requires
        m.mode == EcmpMode::Auto,
        1 <= run.hops.len() <= 256,
    ensures
        m.supported == Some(false) ==> enter_mode(m, run).step == StepView::Send(
            req_standard_route(m, run.family, run.hops),
        ),
        m.supported != Some(false) ==> (enter_mode(m, run).run.phase is Switch || enter_mode(
            m,
            run,
        ).run.phase is Member) && enter_mode(m, run).run.resilient,
        finish_resilient(m, run, None).m.supported == Some(true),
{
}

} // verus!
