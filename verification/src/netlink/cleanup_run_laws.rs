//! What holds of a whole clean-up, from the first request to the end.
use crate::addr::Ipv4Addr;
use crate::netlink::apply::StepView;
use crate::netlink::cleanup::{after_probes, after_tear_v4, after_tear_v6, clean_next, clean_start,
    clean_wf, enter_delete_v4, enter_delete_v6, enter_underlay, no_probes, CleanPhase, CleanState,
    CleanView};
use crate::netlink::cleanup_laws::{clean_course, clean_up_leaves_nothing, clean_up_starts_on_course,
    nothing_left, part};
use crate::netlink::manager::{group_id, lemma_next_stale_nh, next_stale_nh, nh_wf, tear_next,
    tear_start, tear_wf, underlay_wf, InstalledVariant, MgrView, ProbeView, TearAt};
use crate::netlink::message::{stream_bytes, AttrView};
use crate::netlink::message_laws::{deletes_default_route, group_route_deletion_is_recognised,
    other_messages_delete_no_route, route_deletions_are_told_apart};
use crate::netlink::probe_laws::lists_fit;
use crate::netlink::probe_path::{self, enter_remove, enter_stale, fault_of, first_of, next_unwanted,
    phase_wf, Fault, ProbePhase, ProbeRunView, ProbeState, Purpose};
use crate::netlink::probe_run_laws::{knowing, lemma_next_sound, lemma_next_unwanted,
    lemma_removed_fits, lemma_stale_sound, pending, sound, turned_to};
use crate::netlink::reply::{committed, NetlinkError};
use crate::netlink::request::{req_delete_host_route, req_delete_nexthop, req_delete_nh_route,
    req_delete_probe_route, req_delete_probe_rule, req_delete_standard_route, table_arg};
use crate::netlink::route::{nexthop_head, rule_attrs, rule_head, AF_INET, AF_INET6, AF_UNSPEC,
    FLAGS_DELETE, NHA_ID, PROBE_MAIN_ROUTE_METRIC, RTM_DELNEXTHOP, RTM_DELRULE, RT_TABLE_MAIN,
    UNDERLAY_ROUTE_METRIC};
use crate::netlink::util::u32_bytes;
use vstd::prelude::*;

verus! {

/// A clean-up after a list of answers.
#[verifier::opaque]
pub open spec fn clean_run(m: MgrView, replies: Seq<Result<(), NetlinkError>>) -> CleanState
    decreases replies.len(),
{
    if replies.len() == 0 {
        clean_start(m)
    } else {
        let s = clean_run(m, replies.drop_last());
        clean_next(s.m, s.run, replies.last())
    }
}

/// What `clean_run` is.
pub proof fn clean_run_unfolds(m: MgrView, replies: Seq<Result<(), NetlinkError>>)
    ensures
        replies.len() == 0 ==> clean_run(m, replies) == clean_start(m),
        replies.len() > 0 ==> clean_run(m, replies) == clean_next(
            clean_run(m, replies.drop_last()).m,
            clean_run(m, replies.drop_last()).run,
            replies.last(),
        ),
{
    reveal(clean_run);
}

/// Whether a step asks for the default route of a family to go that has the
/// metric of a manager.
pub open spec fn asks(step: StepView, m: MgrView, family: u8) -> bool {
    step matches StepView::Send(msg) && deletes_default_route(m.order, msg, family, m.priority)
}

/// Whether a clean-up asked for the default route of a family to go at some time.
pub open spec fn deletion_sent(
    m: MgrView,
    replies: Seq<Result<(), NetlinkError>>,
    family: u8,
) -> bool {
    exists|k: int|
        0 <= k <= replies.len() && asks(
            (#[trigger] clean_run(m, replies.take(k))).step,
            m,
            family,
        )
}

/// Whether no known probe path uses the main table.
pub open spec fn tables_apart(probes: Seq<ProbeView>) -> bool {
    forall|p: int| 0 <= p < probes.len() ==> (#[trigger] probes[p]).table != RT_TABLE_MAIN as u32
}

/// Whether no request for a known probe path can be taken for one that deletes
/// the default route of a family: the table, the metric or the family differs.
pub open spec fn paths_apart(m: MgrView, family: u8) -> bool {
    tables_apart(m.probes) || m.priority != 0 || family == AF_INET6
}

proof fn lemma_standard(m: MgrView, of: u8, family: u8)
    ensures
        asks(StepView::Send(req_delete_standard_route(m, of)), m, family) <==> of == family,
{
    reveal(req_delete_standard_route);
    route_deletions_are_told_apart(
        m.order,
        m.priority,
        of,
        None,
        None,
        FLAGS_DELETE,
        m.next_seq(),
        family,
        m.priority,
    );
}

proof fn lemma_group_route(m: MgrView, of: u8, family: u8)
    ensures
        asks(StepView::Send(req_delete_nh_route(m, of)), m, family) <==> of == family,
{
    reveal(req_delete_nh_route);
    group_route_deletion_is_recognised(
        m.order,
        m.priority,
        of,
        group_id(of),
        FLAGS_DELETE,
        m.next_seq(),
        family,
        m.priority,
    );
}

proof fn lemma_object(m: MgrView, of: u8, id: u32, family: u8)
    ensures
        !asks(StepView::Send(req_delete_nexthop(m, of, id)), m, family),
{
    reveal(req_delete_nexthop);
    let list = seq![
        AttrView {
            kind: NHA_ID,
            data: u32_bytes(m.order, id),
        },
    ];
    let body = nexthop_head(of).bytes(m.order) + stream_bytes(m.order, list);
    other_messages_delete_no_route(
        m.order,
        RTM_DELNEXTHOP,
        FLAGS_DELETE,
        m.next_seq(),
        body,
        family,
        m.priority,
    );
}

proof fn lemma_host(m: MgrView, metric: u32, dst: Ipv4Addr, family: u8)
    ensures
        !asks(
            StepView::Send(req_delete_host_route(m, metric, RT_TABLE_MAIN as u32, dst, 32)),
            m,
            family,
        ),
{
    reveal(req_delete_host_route);
    route_deletions_are_told_apart(
        m.order,
        metric,
        AF_INET,
        table_arg(RT_TABLE_MAIN as u32),
        Some((dst@, 32u8)),
        FLAGS_DELETE,
        m.next_seq(),
        family,
        m.priority,
    );
}

proof fn lemma_probe_requests(m: MgrView, p: ProbeView, family: u8)
    requires
        p.table != RT_TABLE_MAIN as u32 || m.priority != 0 || family == AF_INET6,
    ensures
        !asks(StepView::Send(req_delete_probe_route(m, p)), m, family),
        !asks(StepView::Send(req_delete_probe_rule(m, p)), m, family),
{
    reveal(req_delete_probe_route);
    reveal(req_delete_probe_rule);
    route_deletions_are_told_apart(
        m.order,
        0,
        AF_INET,
        Some(p.table),
        None,
        FLAGS_DELETE,
        m.next_seq(),
        family,
        m.priority,
    );
    let list = rule_attrs(m.order, p.table, p.ifname, p.priority, true);
    let body = rule_head(AF_INET).bytes(m.order) + stream_bytes(m.order, list);
    other_messages_delete_no_route(
        m.order,
        RTM_DELRULE,
        FLAGS_DELETE,
        m.next_seq(),
        body,
        family,
        m.priority,
    );
}

/// What stays the same in the manager: all but the known paths and the number of
/// the last request.
spec fn same_routes(a: MgrView, b: MgrView) -> bool {
    a.order == b.order && a.priority == b.priority && a.v4 == b.v4 && a.v6 == b.v6
}

/// What holds of the removal of all probe paths.
spec fn removing(s: ProbeState) -> bool {
    &&& s.run.wanted.len() == 0
    &&& phase_wf(s.m, s.run)
    &&& lists_fit(s.m, s.run)
    &&& s.step is Done <==> s.run.phase is Finished
    &&& !(s.step is Query)
}

proof fn lemma_remove_from(m: MgrView, run: ProbeRunView, p: int, j: int, family: u8, strict: bool)
    requires
        m.wf(),
        run.wanted.len() == 0,
        !(run.purpose is Update),
        lists_fit(m, run),
        strict ==> paths_apart(m, family),
        0 <= p < m.probes.len(),
        0 <= j,
    ensures
        removing(enter_remove(m, run, p, j)),
        same_routes(enter_remove(m, run, p, j).m, m),
        enter_remove(m, run, p, j).m.probes == m.probes,
        strict ==> !asks(enter_remove(m, run, p, j).step, m, family),
{
    let path = m.probes[p];
    if strict {
        lemma_probe_requests(m, path, family);
    }
    if j < path.main_route_targets.len() {
        lemma_host(m, PROBE_MAIN_ROUTE_METRIC, path.main_route_targets[j], family);
    }
}

proof fn lemma_stale_from(m: MgrView, run: ProbeRunView, from: int, family: u8, strict: bool)
    requires
        m.wf(),
        run.wanted.len() == 0,
        !(run.purpose is Update),
        lists_fit(m, run),
        strict ==> paths_apart(m, family),
        0 <= from <= m.probes.len(),
    ensures
        removing(enter_stale(m, run, from)),
        same_routes(enter_stale(m, run, from).m, m),
        enter_stale(m, run, from).m.probes == m.probes,
        strict ==> !asks(enter_stale(m, run, from).step, m, family),
{
    lemma_next_unwanted(m.probes, run.wanted, from);
    let p = next_unwanted(m.probes, run.wanted, from);
    if p < m.probes.len() {
        let stale = ProbeRunView { purpose: Purpose::Stale, ..run };
        lemma_remove_from(m, stale, p, 0, family, strict);
    }
}

proof fn lemma_probe_step(s: ProbeState, reply: Result<(), NetlinkError>, family: u8, strict: bool)
    requires
        removing(s),
        strict ==> paths_apart(s.m, family),
        !(s.run.phase is Finished),
    ensures
        ({
            let t = probe_path::next_state(s.m, s.run, reply);
            &&& removing(t)
            &&& same_routes(t.m, s.m)
            &&& strict ==> paths_apart(t.m, family)
            &&& strict ==> !asks(t.step, s.m, family)
        }),
{
    let (m, run) = (s.m, s.run);
    match run.phase {
        ProbePhase::RemoveHost(p, j) => lemma_remove_from(m, run, p as int, j + 1, family, strict),
        ProbePhase::RemoveRoute(p) => {
            if strict {
                lemma_probe_requests(m, m.probes[p as int], family);
            }
        },
        ProbePhase::RemoveRule(p, _) => {
            let gone = knowing(m, m.probes.remove(p as int));
            lemma_removed_fits(m, run, p as int);
            if tables_apart(m.probes) {
                assert forall|k: int| 0 <= k < gone.probes.len() implies (
                #[trigger] gone.probes[k]).table != RT_TABLE_MAIN as u32 by {
                    if k < p {
                        assert(gone.probes[k] == m.probes[k]);
                    } else {
                        assert(gone.probes[k] == m.probes[k + 1]);
                    }
                }
            }
            lemma_stale_from(gone, run, p as int, family, strict);
            assert forall|f: Fault| #![trigger run.noting(f)] true implies {
                let t = enter_stale(m, run.noting(f), p + 1);
                &&& removing(t)
                &&& same_routes(t.m, m)
                &&& t.m.probes == m.probes
                &&& strict ==> !asks(t.step, m, family)
            } by {
                lemma_stale_from(m, run.noting(f), p + 1, family, strict);
            }
        },
        _ => {},
    }
}

/// The part of a clean-up in which a resilient route of the family goes, and the
/// one in which a multipath route does.
spec fn tear_part(family: u8) -> int {
    if family == AF_INET6 {
        4
    } else {
        5
    }
}

spec fn delete_part(family: u8) -> int {
    if family == AF_INET6 {
        2
    } else {
        3
    }
}

/// What a clean-up that began with `m0` keeps.
spec fn common(m0: MgrView, m: MgrView, run: CleanView) -> bool {
    &&& m.order == m0.order && m.priority == m0.priority
    &&& run.had_v4 == (m0.v4 == InstalledVariant::Standard)
    &&& run.had_v6 == (m0.v6 == InstalledVariant::Standard)
}

/// Whether what was sent covers what should have been; where requests for probe
/// paths cannot be mistaken, no more than that was sent.
spec fn fits(sent: bool, should: bool, strict: bool) -> bool {
    (should ==> sent) && (strict && sent ==> should)
}

/// Whether `sent`, that the default route of the family was asked to go, is what
/// it should be by the part that a clean-up is in.
spec fn timely(m0: MgrView, m: MgrView, at: int, sent: bool, family: u8, strict: bool) -> bool {
    let had = m0.variant(family);
    if at > tear_part(family) {
        fits(sent, false, strict) && m.variant(family) == had
    } else if at > delete_part(family) {
        fits(sent, had == InstalledVariant::Resilient, strict)
    } else {
        fits(sent, had != InstalledVariant::Absent, strict)
    }
}

spec fn course(m0: MgrView, s: CleanState, sent: bool, family: u8, strict: bool) -> bool {
    &&& common(m0, s.m, s.run)
    &&& timely(m0, s.m, part(s.run), sent, family, strict)
    &&& s.run.phase is Probes ==> removing(
        ProbeState { m: s.m, run: s.run.probes, step: s.step },
    )
    &&& s.run.phase is Probes && strict ==> paths_apart(s.m, family)
    &&& s.step is Done <==> s.run.phase is Finished
}

spec fn is_family(family: u8) -> bool {
    family == AF_INET || family == AF_INET6
}

proof fn lemma_arrive_underlay(m0: MgrView, m: MgrView, run: CleanView, i: int, sent: bool, family: u8, strict: bool)
    requires
        common(m0, m, run),
        is_family(family),
        fits(sent, m0.variant(family) != InstalledVariant::Absent, strict),
    ensures
        ({
            let s = enter_underlay(m, run, i);
            course(m0, s, sent || asks(s.step, m0, family), family, strict)
        }),
{
    if i < m.underlay.len() {
        lemma_host(m, UNDERLAY_ROUTE_METRIC, m.underlay[i].0, family);
    }
}

proof fn lemma_arrive_v6(m0: MgrView, m: MgrView, run: CleanView, sent: bool, family: u8, strict: bool)
    requires
        common(m0, m, run),
        is_family(family),
        family == AF_INET ==> fits(sent, m0.v4 != InstalledVariant::Absent, strict),
        family == AF_INET6 ==> fits(sent, m0.v6 == InstalledVariant::Resilient, strict),
    ensures
        ({
            let s = enter_delete_v6(m, run);
            course(m0, s, sent || asks(s.step, m0, family), family, strict)
        }),
{
    lemma_standard(m, AF_INET6, family);
    if !run.had_v6 {
        lemma_arrive_underlay(m0, m, run, 0, sent, family, strict);
    }
}

proof fn lemma_arrive_v4(m0: MgrView, m: MgrView, run: CleanView, sent: bool, family: u8, strict: bool)
    requires
        common(m0, m, run),
        is_family(family),
        fits(sent, m0.variant(family) == InstalledVariant::Resilient, strict),
    ensures
        ({
            let s = enter_delete_v4(m, run);
            course(m0, s, sent || asks(s.step, m0, family), family, strict)
        }),
{
    lemma_standard(m, AF_INET, family);
    if !run.had_v4 {
        lemma_arrive_v6(m0, m, run, sent, family, strict);
    }
}

proof fn lemma_tear_start(m: MgrView, of: u8, family: u8)
    requires
        is_family(of),
        is_family(family),
    ensures
        ({
            let t = tear_start(m, of);
            &&& t.msg is Some
            &&& same_routes(t.m, m)
            &&& asks(StepView::Send(t.msg->0), m, family) <==> of == family && m.variant(of)
                == InstalledVariant::Resilient
        }),
{
    lemma_group_route(m, of, family);
    lemma_object(m, AF_UNSPEC, group_id(of), family);
}

proof fn lemma_tear_next(m: MgrView, of: u8, at: TearAt, reply: Result<(), NetlinkError>, family: u8)
    requires
        is_family(of),
    ensures
        ({
            let t = tear_next(m, of, at, reply);
            &&& t.msg matches Some(msg) ==> !asks(StepView::Send(msg), m, family)
            &&& t.m.order == m.order && t.m.priority == m.priority
            &&& of == AF_INET ==> t.m.v6 == m.v6
        }),
{
    lemma_object(m, AF_UNSPEC, group_id(of), family);
    match at {
        TearAt::Group => {
            let i = next_stale_nh(m.nh, of, Seq::empty(), 0);
            lemma_object(m, of, m.nh[i].id, family);
        },
        TearAt::Member(x) => {
            let gone = m.with_nh(m.nh.remove(x as int));
            let i = next_stale_nh(gone.nh, of, Seq::empty(), x as int);
            lemma_object(gone, of, gone.nh[i].id, family);
            let j = next_stale_nh(m.nh, of, Seq::empty(), x + 1);
            lemma_object(m, of, m.nh[j].id, family);
        },
        _ => {},
    }
}

proof fn lemma_tear_v6_begins(m0: MgrView, m: MgrView, run: CleanView, sent: bool, family: u8, strict: bool)
    requires
        common(m0, m, run),
        is_family(family),
        family == AF_INET ==> fits(sent, m0.v4 == InstalledVariant::Resilient, strict),
        family == AF_INET6 ==> fits(sent, false, strict) && m.v6 == m0.v6,
    ensures
        ({
            let s = after_tear_v6(tear_start(m, AF_INET6), run);
            course(m0, s, sent || asks(s.step, m0, family), family, strict)
        }),
{
    lemma_tear_start(m, AF_INET6, family);
}

proof fn lemma_tear_v4_begins(m0: MgrView, m: MgrView, run: CleanView, sent: bool, family: u8, strict: bool)
    requires
        common(m0, m, run),
        is_family(family),
        fits(sent, false, strict),
        m.variant(family) == m0.variant(family),
    ensures
        ({
            let s = after_tear_v4(tear_start(m, AF_INET), run);
            course(m0, s, sent || asks(s.step, m0, family), family, strict)
        }),
{
    lemma_tear_start(m, AF_INET, family);
}

proof fn lemma_course_next(
    m0: MgrView,
    s: CleanState,
    reply: Result<(), NetlinkError>,
    sent: bool,
    family: u8,
    strict: bool,
)
    requires
        course(m0, s, sent, family, strict),
        is_family(family),
    ensures
        ({
            let t = clean_next(s.m, s.run, reply);
            course(m0, t, sent || asks(t.step, m0, family), family, strict)
        }),
{
    let (m, run) = (s.m, s.run);
    let done = committed(true, reply);
    match run.phase {
        CleanPhase::Probes => {
            let ps = ProbeState { m, run: run.probes, step: s.step };
            if !(run.probes.phase is Finished) {
                lemma_probe_step(ps, reply, family, strict);
            }
            let t = probe_path::next_state(m, run.probes, reply);
            let next = CleanView { probes: t.run, phase: CleanPhase::Probes, ..run };
            if t.step is Done {
                lemma_tear_v4_begins(m0, t.m, next, sent, family, strict);
            }
        },
        CleanPhase::TearV4(at) => {
            lemma_tear_next(m, AF_INET, at, reply, family);
            let t = tear_next(m, AF_INET, at, reply);
            if t.msg is None {
                lemma_tear_v6_begins(m0, t.m, run, sent, family, strict);
            }
        },
        CleanPhase::TearV6(at) => {
            lemma_tear_next(m, AF_INET6, at, reply, family);
            let t = tear_next(m, AF_INET6, at, reply);
            if t.msg is None {
                lemma_arrive_v4(m0, t.m, run, sent, family, strict);
            }
        },
        CleanPhase::DeleteV4 => {
            let e = first_of(run.first_err, fault_of(done));
            lemma_arrive_v6(m0, m, CleanView { first_err: e, ..run }, sent, family, strict);
        },
        CleanPhase::DeleteV6 => {
            let e = first_of(run.first_err, fault_of(done));
            lemma_arrive_underlay(m0, m, CleanView { first_err: e, ..run }, 0, sent, family, strict);
        },
        CleanPhase::Underlay(i) => {
            let gone = MgrView { underlay: m.underlay.remove(i as int), ..m };
            lemma_arrive_underlay(m0, gone, run, i as int, sent, family, strict);
            lemma_arrive_underlay(m0, m, run, i + 1, sent, family, strict);
        },
        CleanPhase::Finished => {},
    }
}

proof fn lemma_sent_grows(m: MgrView, replies: Seq<Result<(), NetlinkError>>, family: u8)
    ensures
        replies.len() == 0 ==> deletion_sent(m, replies, family) == asks(
            clean_run(m, replies).step,
            m,
            family,
        ),
        replies.len() > 0 ==> deletion_sent(m, replies, family) == (deletion_sent(
            m,
            replies.drop_last(),
            family,
        ) || asks(clean_run(m, replies).step, m, family)),
{
    let n = replies.len() as int;
    assert(replies.take(n) =~= replies);
    if asks(clean_run(m, replies).step, m, family) {
        assert(asks(clean_run(m, replies.take(n)).step, m, family));
    }
    if n == 0 {
        assert forall|k: int| 0 <= k <= 0 implies replies.take(k) == replies by {}
    } else {
        let before = replies.drop_last();
        assert forall|k: int| 0 <= k < n implies #[trigger] replies.take(k) == before.take(k) by {
            assert(replies.take(k) =~= before.take(k));
        }
        if deletion_sent(m, before, family) {
            let k = choose|k: int|
                0 <= k <= before.len() && asks(
                    (#[trigger] clean_run(m, before.take(k))).step,
                    m,
                    family,
                );
            assert(replies.take(k) == before.take(k));
            assert(asks(clean_run(m, replies.take(k)).step, m, family));
        }
        if deletion_sent(m, replies, family) {
            let k = choose|k: int|
                0 <= k <= replies.len() && asks(
                    (#[trigger] clean_run(m, replies.take(k))).step,
                    m,
                    family,
                );
            if k < n {
                assert(replies.take(k) == before.take(k));
                assert(asks(clean_run(m, before.take(k)).step, m, family));
            }
        }
    }
}

proof fn lemma_clean_run(
    m: MgrView,
    replies: Seq<Result<(), NetlinkError>>,
    family: u8,
    strict: bool,
)
    requires
        m.wf(),
        lists_fit(m, no_probes()),
        strict ==> paths_apart(m, family),
        is_family(family),
    ensures
        course(m, clean_run(m, replies), deletion_sent(m, replies, family), family, strict),
    decreases replies.len(),
{
    clean_run_unfolds(m, replies);
    lemma_sent_grows(m, replies, family);
    if replies.len() == 0 {
        let s = enter_stale(m, no_probes(), 0);
        let run = CleanView {
            probes: no_probes(),
            had_v4: m.v4 == InstalledVariant::Standard,
            had_v6: m.v6 == InstalledVariant::Standard,
            first_err: Fault::Clear,
            phase: CleanPhase::Probes,
        };
        lemma_stale_from(m, no_probes(), 0, family, strict);
        let next = CleanView { probes: s.run, phase: CleanPhase::Probes, ..run };
        assert(clean_start(m) == after_probes(s, run));
        if s.step is Done {
            lemma_tear_v4_begins(m, s.m, next, false, family, strict);
        }
    } else {
        let before = replies.drop_last();
        lemma_clean_run(m, before, family, strict);
        lemma_course_next(
            m,
            clean_run(m, before),
            replies.last(),
            deletion_sent(m, before, family),
            family,
            strict,
        );
    }
}

/// A whole clean-up asks for the default route of a family to go if and only if
/// one was installed here, whatever the kernel answers: a route that was never
/// installed here is left alone. A known probe path in the main table, without a
/// metric, could be taken for such a route: it is left out where there is none.
pub proof fn clean_up_deletes_a_default_route_iff_installed(
    m: MgrView,
    replies: Seq<Result<(), NetlinkError>>,
    family: u8,
)
    requires
        m.wf(),
        lists_fit(m, no_probes()),
        family == AF_INET || family == AF_INET6,
        family == AF_INET && m.v4 == InstalledVariant::Absent && m.priority == 0 ==> tables_apart(
            m.probes,
        ),
        clean_run(m, replies).step is Done,
    ensures
        deletion_sent(m, replies, family) <==> m.variant(family) != InstalledVariant::Absent,
{
    lemma_clean_run(m, replies, family, paths_apart(m, family));
}

proof fn lemma_tear_keeps(m: MgrView, of: u8, at: TearAt, reply: Result<(), NetlinkError>)
    requires
        m.wf(),
        tear_wf(m, at),
        m.nh.len() <= usize::MAX,
    ensures
        tear_next(m, of, at, reply).m.wf(),
        tear_wf(tear_next(m, of, at, reply).m, tear_next(m, of, at, reply).at),
{
    match at {
        TearAt::Group => lemma_next_stale_nh(m.nh, of, Seq::empty(), 0),
        TearAt::Member(x) => {
            let gone = m.nh.remove(x as int);
            assert(nh_wf(gone, m.next_id)) by {
                reveal(nh_wf);
            }
            lemma_next_stale_nh(gone, of, Seq::empty(), x as int);
            lemma_next_stale_nh(m.nh, of, Seq::empty(), x + 1);
        },
        _ => {},
    }
}

/// What the accepted clean-up keeps.
spec fn accepted(s: CleanState) -> bool {
    &&& clean_wf(s.m, s.run)
    &&& clean_course(s.m, s.run)
    &&& s.run.phase is Probes ==> sound(
        ProbeState { m: s.m, run: s.run.probes, step: s.step },
        s.m.probes.len() as int,
        Seq::empty(),
    )
    &&& s.step is Done ==> s.step == StepView::Done(None) && nothing_left(s.m)
}

proof fn lemma_accepted_next(s: CleanState, reply: Result<(), NetlinkError>)
    requires
        accepted(s),
        reply is Ok,
    ensures
        accepted(clean_next(s.m, s.run, reply)),
{
    let (m, run) = (s.m, s.run);
    clean_up_leaves_nothing(m, run, reply);
    match run.phase {
        CleanPhase::Probes => {
            let ps = ProbeState { m, run: run.probes, step: s.step };
            let f = first_of(run.probes.first_err, pending(run.probes));
            assert(run.probes.wanted =~= Seq::empty());
            lemma_next_sound(ps, reply, m.probes.len() as int, Seq::empty(), f);
            lemma_still_sound(m, run.probes, reply);
        },
        CleanPhase::TearV4(at) => lemma_tear_keeps(m, AF_INET, at, reply),
        CleanPhase::TearV6(at) => lemma_tear_keeps(m, AF_INET6, at, reply),
        CleanPhase::Underlay(i) => {
            let gone = m.underlay.remove(i as int);
            assert(underlay_wf(gone)) by {
                reveal(underlay_wf);
            }
        },
        _ => {},
    }
}

/// Without wanted paths, none is added.
proof fn lemma_still_sound(m: MgrView, run: ProbeRunView, reply: Result<(), NetlinkError>)
    requires
        phase_wf(m, run),
        run.wanted.len() == 0,
        sound(probe_path::next_state(m, run, reply), m.probes.len() as int, Seq::empty()),
    ensures
        ({
            let t = probe_path::next_state(m, run, reply);
            sound(t, t.m.probes.len() as int, Seq::empty())
        }),
{
    let t = probe_path::next_state(m, run, reply);
    assert(turned_to(t.run) == 0);
}

/// A whole clean-up whose requests the kernel accepts succeeds, and leaves
/// nothing of ours in the kernel.
pub proof fn accepted_clean_up_leaves_nothing(m: MgrView, replies: Seq<Result<(), NetlinkError>>)
    requires
        m.wf(),
        lists_fit(m, no_probes()),
        m.probes.len() < usize::MAX,
        m.nh.len() <= usize::MAX,
        m.underlay.len() <= usize::MAX,
        forall|k: int| 0 <= k < replies.len() ==> (#[trigger] replies[k]) is Ok,
        clean_run(m, replies).step is Done,
    ensures
        clean_run(m, replies).step == StepView::Done(None),
        nothing_left(clean_run(m, replies).m),
{
    lemma_accepted(m, replies);
}

proof fn lemma_accepted(m: MgrView, replies: Seq<Result<(), NetlinkError>>)
    requires
        m.wf(),
        lists_fit(m, no_probes()),
        m.probes.len() < usize::MAX,
        m.nh.len() <= usize::MAX,
        m.underlay.len() <= usize::MAX,
        forall|k: int| 0 <= k < replies.len() ==> (#[trigger] replies[k]) is Ok,
    ensures
        accepted(clean_run(m, replies)),
    decreases replies.len(),
{
    clean_run_unfolds(m, replies);
    if replies.len() == 0 {
        clean_up_starts_on_course(m);
        lemma_stale_sound(m, no_probes(), 0, m.probes.len() as int);
        let s = enter_stale(m, no_probes(), 0);
        assert(no_probes().wanted =~= Seq::empty());
        assert(s.m.probes == m.probes);
    } else {
        let before = replies.drop_last();
        assert forall|k: int| 0 <= k < before.len() implies (#[trigger] before[k]) is Ok by {
            assert(before[k] == replies[k]);
        }
        lemma_accepted(m, before);
        assert(replies.last() is Ok) by {
            assert(replies[replies.len() - 1] is Ok);
        }
        lemma_accepted_next(clean_run(m, before), replies.last());
    }
}

} // verus!
