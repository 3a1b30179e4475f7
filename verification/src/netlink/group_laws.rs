//! Nexthop objects, groups and the way to tunnel peers, told by the lines.
use crate::addr::Ipv4Addr;
use crate::netlink::apply::{
    enter_member, enter_members, find_dest, is_current, is_exit, lemma_find_dest, next_state,
    peers_via, phase_wf, underlay_plan, upsert, Event, Phase, RunView, StepView,
};
use crate::netlink::manager::{
    find_nh, gateway_key, lemma_find_nh_exists, lemma_next_stale_nh, next_stale_nh, nh_id, nh_wf,
    same_nh, with_nh_id, ActiveWanRoute, HostRouteView, MgrView, NhView,
};
use crate::netlink::request::{req_group, req_nexthop, v4_gateway};
use crate::netlink::request_laws::octets;
use crate::netlink::route::HopView;
use vstd::prelude::*;

verus! {

/// The octets of a gateway; nothing for a direct link.
pub open spec fn router(gateway: Option<Seq<u8>>) -> Seq<u8> {
    match gateway {
        Some(g) => g,
        None => Seq::empty(),
    }
}

/// Whether a nexthop object stands for a way out.
pub open spec fn stands_for(e: NhView, family: u8, hop: HopView) -> bool {
    e.family == family && e.ifindex == hop.ifindex && e.gateway == router(hop.gateway)
}

/// A way out has one object. If there is one already, it is taken and nothing
/// changes; else a new one with the next identifier joins the others.
pub proof fn a_way_out_has_one_object(m: MgrView, family: u8, hop: HopView)
    requires
        nh_wf(m.nh, m.next_id),
        m.next_id < 0xFFFF_FF00,
    ensures
        ({
            let id = nh_id(m, family, hop.ifindex, hop.gateway);
            let n = with_nh_id(m, family, hop.ifindex, hop.gateway);
            &&& exists|k: int|
                0 <= k < n.nh.len() && stands_for(#[trigger] n.nh[k], family, hop) && n.nh[k].id
                    == id
            &&& (exists|k: int| 0 <= k < m.nh.len() && stands_for(#[trigger] m.nh[k], family, hop))
                ==> n == m
            &&& (forall|k: int|
                0 <= k < m.nh.len() ==> !stands_for(#[trigger] m.nh[k], family, hop)) ==> id
                == m.next_id && n.next_id == m.next_id + 1 && n.nh.len() == m.nh.len() + 1
            &&& forall|k: int| 0 <= k < m.nh.len() ==> #[trigger] n.nh[k] == m.nh[k]
            &&& n.seq == m.seq && n.mode == m.mode && n.v4 == m.v4 && n.v6 == m.v6
            &&& n.probes == m.probes && n.underlay == m.underlay && n.order == m.order
            &&& n.priority == m.priority && n.supported == m.supported
        }),
{
    let key = router(hop.gateway);
    assert(key == gateway_key(hop.gateway));
    lemma_find_nh_exists(m.nh, family, hop.ifindex, key);
    let k = find_nh(m.nh, family, hop.ifindex, key);
    let n = with_nh_id(m, family, hop.ifindex, hop.gateway);
    if k < m.nh.len() {
        assert(same_nh(m.nh[k], family, hop.ifindex, key));
        assert(stands_for(n.nh[k], family, hop));
    } else {
        assert(stands_for(n.nh[m.nh.len() as int], family, hop));
        assert forall|i: int| 0 <= i < m.nh.len() implies !stands_for(
            #[trigger] m.nh[i],
            family,
            hop,
        ) by {
            assert(!same_nh(m.nh[i], family, hop.ifindex, key));
        }
    }
}

/// The objects that are deleted while a group is in force belong to its family
/// and to none of its ways out; one that is passed over belongs to another family
/// or to a way out.
pub proof fn only_stale_objects_go(
    list: Seq<NhView>,
    family: u8,
    hops: Seq<HopView>,
    from: int,
)
    requires
        0 <= from <= list.len(),
    ensures
        ({
            let i = next_stale_nh(list, family, hops, from);
            &&& from <= i <= list.len()
            &&& i < list.len() ==> list[i].family == family && forall|h: int|
                0 <= h < hops.len() ==> !stands_for(list[i], family, #[trigger] hops[h])
            &&& forall|k: int|
                from <= k < i ==> (#[trigger] list[k]).family != family || exists|h: int|
                    0 <= h < hops.len() && stands_for(list[k], family, #[trigger] hops[h])
        }),
{
    lemma_next_stale_nh(list, family, hops, from);
    let i = next_stale_nh(list, family, hops, from);
    if i < list.len() {
        assert forall|h: int| 0 <= h < hops.len() implies !stands_for(
            list[i],
            family,
            #[trigger] hops[h],
        ) by {
            assert(router(hops[h].gateway) == gateway_key(hops[h].gateway));
        }
    }
    assert forall|k: int| from <= k < i implies (#[trigger] list[k]).family != family || exists|h: int|
        0 <= h < hops.len() && stands_for(list[k], family, #[trigger] hops[h]) by {
        if list[k].family == family {
            let h = choose|h: int|
                0 <= h < hops.len() && list[k].ifindex == (#[trigger] hops[h]).ifindex
                    && list[k].gateway == gateway_key(hops[h].gateway);
            assert(stands_for(list[k], family, hops[h]));
        }
    }
}

/// Whether the member `k` of the group that is being made is the way out `k`: it
/// has the weight of the line, and its identifier is that of an object that
/// stands for the way out.
pub open spec fn member_is_way(m: MgrView, run: RunView, k: int) -> bool {
    &&& run.members[k].1 == run.hops[k].weight
    &&& exists|e: int|
        0 <= e < m.nh.len() && stands_for(#[trigger] m.nh[e], run.family, run.hops[k])
            && m.nh[e].id == run.members[k].0
}

/// What holds of the members while a group is being made: each of them is a way
/// out, up to the one under way; for the group, all of them are there.
pub open spec fn members_in_order(m: MgrView, run: RunView) -> bool {
    match run.phase {
        Phase::Member(i) => run.members.len() == i + 1 && i < run.hops.len() && forall|k: int|
            0 <= k <= i ==> #[trigger] member_is_way(m, run, k),
        Phase::Group => run.members.len() == run.hops.len() && forall|k: int|
            0 <= k < run.hops.len() ==> #[trigger] member_is_way(m, run, k),
        _ => true,
    }
}

proof fn lemma_enter_member(m: MgrView, run: RunView, i: int)
    requires
        nh_wf(m.nh, m.next_id),
        i < run.hops.len() ==> m.next_id < 0xFFFF_FF00,
        0 <= i <= run.hops.len() <= usize::MAX,
        run.members.len() == i,
        forall|k: int| 0 <= k < i ==> #[trigger] member_is_way(m, run, k),
    ensures
        ({
            let s = enter_member(m, run, i);
            &&& members_in_order(s.m, s.run)
            &&& i < run.hops.len() ==> s.run.phase == Phase::Member(i as usize)
            &&& i == run.hops.len() ==> s.run.phase == Phase::Group
        }),
{
    let s = enter_member(m, run, i);
    if i < run.hops.len() {
        let hop = run.hops[i];
        a_way_out_has_one_object(m, run.family, hop);
        let n = with_nh_id(m, run.family, hop.ifindex, hop.gateway);
        assert(s.m.nh == n.nh);
        assert forall|k: int| 0 <= k <= i implies #[trigger] member_is_way(s.m, s.run, k) by {
            if k < i {
                assert(member_is_way(m, run, k));
                assert(s.run.members[k] == run.members[k]);
                let e = choose|e: int|
                    0 <= e < m.nh.len() && stands_for(#[trigger] m.nh[e], run.family, run.hops[k])
                        && m.nh[e].id == run.members[k].0;
                assert(n.nh[e] == m.nh[e]);
                assert(stands_for(s.m.nh[e], run.family, run.hops[k]));
            } else {
                let e = choose|e: int|
                    0 <= e < n.nh.len() && stands_for(#[trigger] n.nh[e], run.family, hop)
                        && n.nh[e].id == nh_id(m, run.family, hop.ifindex, hop.gateway);
                assert(stands_for(s.m.nh[e], run.family, run.hops[k]));
            }
        }
    } else {
        assert forall|k: int| 0 <= k < run.hops.len() implies #[trigger] member_is_way(
            s.m,
            s.run,
            k,
        ) by {
            assert(member_is_way(m, run, k));
            let e = choose|e: int|
                0 <= e < m.nh.len() && stands_for(#[trigger] m.nh[e], run.family, run.hops[k])
                    && m.nh[e].id == run.members[k].0;
            assert(stands_for(s.m.nh[e], run.family, run.hops[k]));
        }
    }
}

/// While a group is being made its members are the ways out, with the lines'
/// weights, from the first object on ...
pub proof fn members_start_in_order(m: MgrView, run: RunView)
    requires
        m.wf(),
        m.next_id + run.hops.len() <= 0xFFFF_FF00,
        1 <= run.hops.len() <= 256,
    ensures
        ({
            let s = enter_members(m, run);
            &&& members_in_order(s.m, s.run)
            &&& s.run.phase == Phase::Member(0)
        }),
{
    lemma_enter_member(m, RunView { members: Seq::empty(), ..run }, 0);
}

/// ... through every object that the kernel accepts, until the group itself is
/// asked for, with all of them.
pub proof fn members_stay_in_order(m: MgrView, run: RunView, ev: Event, i: int)
    requires
        phase_wf(m, run),
        0 <= i < run.hops.len(),
        run.phase == Phase::Member(i as usize),
        members_in_order(m, run),
        crate::netlink::apply::answer(ev) is Ok,
    ensures
        ({
            let s = next_state(m, run, ev);
            &&& members_in_order(s.m, s.run)
            &&& i + 1 < run.hops.len() ==> s.run.phase == Phase::Member((i + 1) as usize)
            &&& i + 1 == run.hops.len() ==> s.run.phase == Phase::Group && s.step
                == StepView::Send(req_group(m, run.family, run.members)) && s.run.members
                == run.members
            &&& s.run.hops == run.hops && s.run.family == run.family
        }),
{
    lemma_enter_member(m, run, i + 1);
}

/// The request for an object names the way out that it stands for, and the
/// identifier under which the group will hold it.
pub proof fn objects_are_made_for_the_ways_out(m: MgrView, run: RunView, i: int)
    requires
        nh_wf(m.nh, m.next_id),
        m.next_id < 0xFFFF_FF00,
        0 <= i < run.hops.len(),
        run.members.len() == i,
    ensures
        ({
            let s = enter_member(m, run, i);
            exists|at: MgrView|
                at.order == m.order && at.seq == m.seq && s.step == StepView::Send(
                    #[trigger] req_nexthop(at, run.family, s.run.members[i].0, run.hops[i]),
                )
        }),
{
    let hop = run.hops[i];
    let at = with_nh_id(m, run.family, hop.ifindex, hop.gateway);
    let s = enter_member(m, run, i);
    a_way_out_has_one_object(m, run.family, hop);
    assert(s.step == StepView::Send(
        req_nexthop(at, run.family, s.run.members[i].0, run.hops[i]),
    ));
}

/// Whether a line is no tunnel.
pub open spec fn no_tunnel(w: ActiveWanRoute) -> bool {
    w.underlay_targets@.len() == 0
}

proof fn lemma_exit(wans: Seq<ActiveWanRoute>, n: int) -> (k: int)
    requires
        0 <= n <= wans.len(),
        exists|i: int| 0 <= i < n && no_tunnel(#[trigger] wans[i]),
    ensures
        0 <= k < n,
        no_tunnel(wans[k]),
        forall|j: int|
            0 <= j < n && no_tunnel(#[trigger] wans[j]) ==> wans[k].metric <= wans[j].metric && (
            wans[k].metric == wans[j].metric ==> k <= j),
    decreases n,
{
    if exists|i: int| 0 <= i < n - 1 && no_tunnel(#[trigger] wans[i]) {
        let k = lemma_exit(wans, n - 1);
        if no_tunnel(wans[n - 1]) && wans[n - 1].metric < wans[k].metric {
            n - 1
        } else {
            k
        }
    } else {
        n - 1
    }
}

proof fn lemma_peers(
    wans: Seq<ActiveWanRoute>,
    ifindex: u32,
    gateway: Option<Seq<u8>>,
    r: HostRouteView,
)
    ensures
        peers_via(wans, ifindex, gateway).contains(r) <==> r.1 == ifindex && r.2 == gateway
            && exists|i: int|
            0 <= i < wans.len() && (#[trigger] wans[i]).underlay_targets@.contains(r.0),
    decreases wans.len(),
{
    let all = peers_via(wans, ifindex, gateway);
    if wans.len() > 0 {
        let init = wans.drop_last();
        let last = wans.last();
        lemma_peers(init, ifindex, gateway, r);
        let rest = peers_via(init, ifindex, gateway);
        let f = |a: Ipv4Addr| (a, ifindex, gateway);
        let mine = last.underlay_targets@.map_values(f);
        assert(all == rest + mine);
        assert(wans[wans.len() - 1] == last);
        if all.contains(r) {
            let k = choose|k: int| 0 <= k < all.len() && all[k] == r;
            if k < rest.len() {
                assert(rest[k] == r);
                let i = choose|i: int|
                    0 <= i < init.len() && (#[trigger] init[i]).underlay_targets@.contains(r.0);
                assert(wans[i] == init[i]);
            } else {
                assert(mine[k - rest.len()] == r);
                assert(last.underlay_targets@[k - rest.len()] == r.0);
            }
        }
        if r.1 == ifindex && r.2 == gateway && exists|i: int|
            0 <= i < wans.len() && (#[trigger] wans[i]).underlay_targets@.contains(r.0) {
            let i = choose|i: int|
                0 <= i < wans.len() && (#[trigger] wans[i]).underlay_targets@.contains(r.0);
            if i < init.len() {
                assert(init[i] == wans[i]);
                assert(rest.contains(r));
                let k = choose|k: int| 0 <= k < rest.len() && rest[k] == r;
                assert(all[k] == r);
            } else {
                let k = choose|k: int|
                    0 <= k < last.underlay_targets@.len() && last.underlay_targets@[k] == r.0;
                assert(mine[k] == r);
                assert(all[rest.len() + k] == r);
            }
        }
    }
}

/// Every peer of every tunnel gets a host route, through the line that is no
/// tunnel and has the least metric, the earliest of several; and no other address
/// gets one. Without such a line there are none.
pub proof fn every_peer_goes_through_the_exit(wans: Seq<ActiveWanRoute>)
    ensures
        (forall|i: int| 0 <= i < wans.len() ==> !no_tunnel(#[trigger] wans[i])) ==> underlay_plan(
            wans,
        ).len() == 0,
        forall|e: int|
            0 <= e < wans.len() && no_tunnel(#[trigger] wans[e]) && (forall|j: int|
                0 <= j < wans.len() && no_tunnel(#[trigger] wans[j]) ==> wans[e].metric
                    <= wans[j].metric && (wans[e].metric == wans[j].metric ==> e <= j)) ==> forall|
                a: Ipv4Addr,
                x: u32,
                g: Option<Seq<u8>>,
            | #[trigger]
                underlay_plan(wans).contains((a, x, g)) <==> x == wans[e].ifindex && g == octets(
                    wans[e].gateway,
                ) && exists|i: int|
                    0 <= i < wans.len() && (#[trigger] wans[i]).underlay_targets@.contains(a),
{
    if forall|i: int| 0 <= i < wans.len() ==> !no_tunnel(#[trigger] wans[i]) {
        assert forall|k: int| !is_exit(wans, k) by {
            if 0 <= k < wans.len() {
                assert(!no_tunnel(wans[k]));
            }
        }
    }
    assert forall|e: int|
        0 <= e < wans.len() && no_tunnel(#[trigger] wans[e]) && (forall|j: int|
            0 <= j < wans.len() && no_tunnel(#[trigger] wans[j]) ==> wans[e].metric
                <= wans[j].metric && (wans[e].metric == wans[j].metric ==> e <= j)) implies forall|
        a: Ipv4Addr,
        x: u32,
        g: Option<Seq<u8>>,
    | #[trigger]
        underlay_plan(wans).contains((a, x, g)) <==> x == wans[e].ifindex && g == octets(
            wans[e].gateway,
        ) && exists|i: int|
            0 <= i < wans.len() && (#[trigger] wans[i]).underlay_targets@.contains(a) by {
        assert forall|j: int|
            0 <= j < wans.len() && (#[trigger] wans[j]).underlay_targets@.len()
                == 0 implies wans[e].metric <= wans[j].metric && (wans[e].metric == wans[j].metric
            ==> e <= j) by {
            assert(no_tunnel(wans[j]));
        }
        assert(is_exit(wans, e));
        let k = choose|k: int| is_exit(wans, k);
        assert(is_exit(wans, k));
        assert(no_tunnel(wans[k]));
        assert(k == e);
        assert(v4_gateway(wans[e].gateway) == octets(wans[e].gateway)) by {
            if let Some(a) = wans[e].gateway {
                assert(a@ =~= seq![a.a, a.b, a.c, a.d]);
            }
        }
        assert forall|a: Ipv4Addr, x: u32, g: Option<Seq<u8>>| #[trigger]
            underlay_plan(wans).contains((a, x, g)) <==> x == wans[e].ifindex && g == octets(
                wans[e].gateway,
            ) && exists|i: int|
                0 <= i < wans.len() && (#[trigger] wans[i]).underlay_targets@.contains(a) by {
            lemma_peers(wans, wans[e].ifindex, v4_gateway(wans[e].gateway), (a, x, g));
        }
    }
}

/// Wherever some line is no tunnel there is an exit, so that peers have a way.
pub proof fn there_is_an_exit(wans: Seq<ActiveWanRoute>)
    requires
        exists|i: int| 0 <= i < wans.len() && no_tunnel(#[trigger] wans[i]),
    ensures
        exists|k: int| #[trigger] is_exit(wans, k),
{
    let k = lemma_exit(wans, wans.len() as int);
    assert forall|j: int|
        0 <= j < wans.len() && (#[trigger] wans[j]).underlay_targets@.len()
            == 0 implies wans[k].metric <= wans[j].metric && (wans[k].metric == wans[j].metric
        ==> k <= j) by {
        assert(no_tunnel(wans[j]));
    }
    assert(is_exit(wans, k));
}

/// The kernel has just a route if the first known one to its destination is that
/// very route, with its interface and its gateway; another way to the same
/// destination does not do.
pub proof fn when_a_tunnel_route_is_there(list: Seq<HostRouteView>, r: HostRouteView)
    ensures
        is_current(list, r) <==> exists|k: int|
            0 <= k < list.len() && #[trigger] list[k] == r && forall|j: int|
                0 <= j < k ==> (#[trigger] list[j]).0 != r.0,
{
    lemma_find_dest(list, r.0, 0);
    let f = find_dest(list, r.0, 0);
    if is_current(list, r) {
        assert(list[f] == r);
    }
    if exists|k: int|
        0 <= k < list.len() && #[trigger] list[k] == r && forall|j: int|
            0 <= j < k ==> (#[trigger] list[j]).0 != r.0 {
        let k = choose|k: int|
            0 <= k < list.len() && #[trigger] list[k] == r && forall|j: int|
                0 <= j < k ==> (#[trigger] list[j]).0 != r.0;
        if k < f {
            assert(list[k].0 != r.0);
        }
        if f < k {
            assert(list[f].0 != r.0);
        }
    }
}

/// A new route to a destination takes the place of the one before, or joins the
/// others; the routes to other destinations stay.
pub proof fn a_new_tunnel_route_takes_its_place(list: Seq<HostRouteView>, r: HostRouteView)
    ensures
        is_current(upsert(list, r), r),
        forall|k: int|
            0 <= k < list.len() && (#[trigger] list[k]).0 != r.0 ==> k < upsert(list, r).len()
                && upsert(list, r)[k] == list[k],
        (exists|k: int| 0 <= k < list.len() && (#[trigger] list[k]).0 == r.0) ==> upsert(
            list,
            r,
        ).len() == list.len(),
        (forall|k: int| 0 <= k < list.len() ==> (#[trigger] list[k]).0 != r.0) ==> upsert(
            list,
            r,
        ).len() == list.len() + 1,
{
    lemma_find_dest(list, r.0, 0);
    let f = find_dest(list, r.0, 0);
    let up = upsert(list, r);
    assert(up[f] == r);
    assert forall|j: int| 0 <= j < f implies (#[trigger] up[j]).0 != r.0 by {
        assert(up[j] == list[j]);
    }
    when_a_tunnel_route_is_there(up, r);
}

} // verus!
