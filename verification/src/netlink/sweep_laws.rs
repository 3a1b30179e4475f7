//! What the sweeps of leftovers go through, from the first request to the end.
use crate::addr::Ipv4Addr;
use crate::netlink::apply::StepView;
use crate::netlink::cleanup::{
    all_targets, ask_hosts, bumped_by, host_sweep_next, sweep_slot, swept, HostEvent,
    HostSweepState, HostSweepView, RuleSweep,
};
use crate::netlink::manager::{MgrView, ProbePath};
use crate::netlink::probe_path::Fault;
use crate::netlink::reply::NetlinkError;
use crate::netlink::request::{req_delete_host_route, req_delete_own_rule, req_dump};
use vstd::prelude::*;

verus! {

/// The sweep of rules after a list of answers.
pub open spec fn rules_swept(replies: Seq<Result<(), NetlinkError>>) -> RuleSweep
    decreases replies.len(),
{
    if replies.len() == 0 {
        RuleSweep { slot: 0, removed: 0, first_err: Fault::Clear }
    } else {
        swept(rules_swept(replies.drop_last()), replies.last())
    }
}

/// Whether an answer to a deletion is no failure: it was done, or there was
/// nothing to delete.
pub open spec fn no_failure(reply: Result<(), NetlinkError>) -> bool {
    match reply {
        Ok(_) => true,
        Err(e) => e == NetlinkError::Os(2) || e == NetlinkError::Os(3) || e == NetlinkError::Os(22),
    }
}

pub open spec fn was_done() -> spec_fn(Result<(), NetlinkError>) -> bool {
    |r: Result<(), NetlinkError>| r is Ok
}

pub open spec fn was_no_failure() -> spec_fn(Result<(), NetlinkError>) -> bool {
    |r: Result<(), NetlinkError>| no_failure(r)
}

/// A sweep of rules asks for the rule of every slot to go, one after the other,
/// whatever the answers are. It counts the rules that were there, and tells the
/// first answer that was a failure, if any was.
pub proof fn every_slot_is_swept(m: MgrView, replies: Seq<Result<(), NetlinkError>>)
    requires
        replies.len() <= 64,
    ensures
        ({
            let s = rules_swept(replies);
            &&& s.slot == replies.len()
            &&& s.removed == replies.filter(was_done()).len()
            &&& s.removed <= s.slot
            &&& replies.len() < 64 ==> sweep_slot(m, s).1 == StepView::Send(
                req_delete_own_rule(m, (10000 + replies.len()) as u32),
            )
            &&& match s.first_err {
                Fault::Clear => forall|k: int|
                    0 <= k < replies.len() ==> no_failure(#[trigger] replies[k]),
                Fault::Error(e) => exists|k: int|
                    0 <= k < replies.len() && #[trigger] replies[k] == Err::<(), NetlinkError>(e)
                        && !no_failure(replies[k]) && forall|j: int|
                        0 <= j < k ==> no_failure(#[trigger] replies[j]),
            }
            &&& replies.len() == 64 ==> sweep_slot(m, s).1 == StepView::Done(
                match s.first_err {
                    Fault::Clear => None,
                    Fault::Error(e) => Some(e),
                },
            )
        }),
    decreases replies.len(),
{
    reveal(Seq::filter);
    if replies.len() > 0 {
        let init = replies.drop_last();
        every_slot_is_swept(m, init);
        let last = replies.last();
        assert(replies[replies.len() - 1] == last);
        let b = rules_swept(init);
        let s = rules_swept(replies);
        match b.first_err {
            Fault::Error(e) => {
                let k = choose|k: int|
                    0 <= k < init.len() && #[trigger] init[k] == Err::<(), NetlinkError>(e)
                        && !no_failure(init[k]) && forall|j: int|
                        0 <= j < k ==> no_failure(#[trigger] init[j]);
                assert(replies[k] == init[k]);
                assert forall|j: int| 0 <= j < k implies no_failure(#[trigger] replies[j]) by {
                    assert(init[j] == replies[j]);
                }
            },
            Fault::Clear => {
                assert forall|j: int| 0 <= j < init.len() implies no_failure(
                    #[trigger] replies[j],
                ) by {
                    assert(init[j] == replies[j]);
                }
            },
        }
    }
}

/// The sweep of host routes after a list of answers to deletions.
pub open spec fn hosts_swept(s: HostSweepState, replies: Seq<Result<(), NetlinkError>>) -> HostSweepState
    decreases replies.len(),
{
    if replies.len() == 0 {
        s
    } else {
        let b = hosts_swept(s, replies.drop_last());
        host_sweep_next(b.m, b.sweep, HostEvent::Answer(replies.last()))
    }
}

/// A sweep of host routes asks for every listed route to go, one after the other,
/// whatever the answers are: by the metric that is being swept, and by the route's
/// own table and destination. Then it turns to the other metric, and after that
/// one it is over. It counts the routes that are gone.
pub proof fn every_listed_host_route_is_swept(
    m: MgrView,
    s: HostSweepView,
    list: Vec<(u32, Ipv4Addr, u8)>,
    replies: Seq<Result<(), NetlinkError>>,
)
    requires
        replies.len() <= list@.len() <= usize::MAX,
        s.removed + list@.len() <= usize::MAX,
        s.metric == 42760 || s.metric == 42761,
    ensures
        ({
            let first = host_sweep_next(m, s, HostEvent::Routes(Ok(list)));
            let t = hosts_swept(first, replies);
            let v = list@;
            let n = replies.len() as int;
            &&& t.sweep.removed == s.removed + replies.filter(was_no_failure()).len()
            &&& t.m.order == m.order && t.m.priority == m.priority
            &&& n < v.len() ==> {
                &&& t.sweep.at == Some(n as usize) && t.sweep.victims == v && t.sweep.metric
                    == s.metric
                &&& exists|at: MgrView|
                    at.order == m.order && t.step == StepView::Send(
                        #[trigger] req_delete_host_route(at, s.metric, v[n].0, v[n].1, v[n].2),
                    )
            }
            &&& n == v.len() && s.metric == 42760 ==> t.sweep.metric == 42761 && t.sweep.at is None
                && exists|at: MgrView|
                at.order == m.order && t.step == StepView::Query(#[trigger] req_dump(at, 2))
            &&& n == v.len() && s.metric == 42761 ==> t.step == StepView::Done(None)
        }),
    decreases replies.len(),
{
    reveal(Seq::filter);
    let v = list@;
    let first = host_sweep_next(m, s, HostEvent::Routes(Ok(list)));
    let t = hosts_swept(first, replies);
    let n = replies.len() as int;
    if n > 0 {
        let init = replies.drop_last();
        every_listed_host_route_is_swept(m, s, list, init);
        let b = hosts_swept(first, init);
        assert(init.filter(was_no_failure()).len() <= init.len()) by {
            init.lemma_filter_len(was_no_failure());
        }
        if n < v.len() {
            assert(t.step == StepView::Send(
                req_delete_host_route(b.m, s.metric, v[n].0, v[n].1, v[n].2),
            ));
        } else if s.metric == 42760 {
            assert(t.step == StepView::Query(req_dump(b.m, 2)));
        }
    } else {
        if v.len() > 0 {
            assert(t.step == StepView::Send(
                req_delete_host_route(m, s.metric, v[0].0, v[0].1, v[0].2),
            ));
        } else if s.metric == 42760 {
            assert(t.step == StepView::Query(req_dump(m, 2)));
        }
    }
}

/// A sweep starts with the metric of probe routes, and a list that cannot be had
/// ends it with the error.
pub proof fn how_a_host_sweep_starts(m: MgrView, s: HostSweepView, e: NetlinkError)
    ensures
        ask_hosts(m, s, 42760).step == StepView::Query(req_dump(m, 2)),
        ask_hosts(m, s, 42760).sweep.metric == 42760,
        host_sweep_next(m, s, HostEvent::Routes(Err(e))).step == StepView::Done(Some(e)),
{
}

/// The targets of some paths are those of each of them, and no others.
pub proof fn targets_of_all_paths(paths: Seq<ProbePath>)
    ensures
        forall|a: Ipv4Addr| #[trigger]
            all_targets(paths).contains(a) <==> exists|k: int|
                0 <= k < paths.len() && (#[trigger] paths[k]).targets@.contains(a),
    decreases paths.len(),
{
    let all = all_targets(paths);
    if paths.len() > 0 {
        let init = paths.drop_last();
        targets_of_all_paths(init);
        let rest = all_targets(init);
        let last = paths.last();
        assert(paths[paths.len() - 1] == last);
        assert forall|a: Ipv4Addr| #[trigger] all.contains(a) <==> exists|k: int|
            0 <= k < paths.len() && (#[trigger] paths[k]).targets@.contains(a) by {
            assert(rest.contains(a) <==> exists|k: int|
                0 <= k < init.len() && (#[trigger] init[k]).targets@.contains(a));
            if all.contains(a) {
                let i = choose|i: int| 0 <= i < all.len() && all[i] == a;
                if i < rest.len() {
                    assert(rest[i] == a);
                    let k = choose|k: int|
                        0 <= k < init.len() && (#[trigger] init[k]).targets@.contains(a);
                    assert(paths[k] == init[k]);
                } else {
                    assert(last.targets@[i - rest.len()] == a);
                }
            }
            if exists|k: int| 0 <= k < paths.len() && (#[trigger] paths[k]).targets@.contains(a) {
                let k = choose|k: int|
                    0 <= k < paths.len() && (#[trigger] paths[k]).targets@.contains(a);
                if k < init.len() {
                    assert(init[k] == paths[k]);
                    assert(rest.contains(a));
                    let i = choose|i: int| 0 <= i < rest.len() && rest[i] == a;
                    assert(all[i] == a);
                } else {
                    let i = choose|i: int|
                        0 <= i < last.targets@.len() && last.targets@[i] == a;
                    assert(all[rest.len() + i] == a);
                }
            }
        }
    }
}

/// Each request has the number after that of the one before; nothing else of the
/// manager changes.
pub proof fn requests_are_numbered(m: MgrView, n: nat)
    requires
        m.seq + n <= u32::MAX,
    ensures
        ({
            let b = bumped_by(m, n);
            &&& b.seq == m.seq + n
            &&& b.order == m.order && b.numbers == m.numbers && b.priority == m.priority
            &&& b.mode == m.mode && b.supported == m.supported && b.nh == m.nh
            &&& b.next_id == m.next_id && b.v4 == m.v4 && b.v6 == m.v6
            &&& b.probes == m.probes && b.underlay == m.underlay
        }),
    decreases n,
{
    if n > 0 {
        requests_are_numbered(m, (n - 1) as nat);
    }
}

} // verus!
