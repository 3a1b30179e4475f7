//! The requests that the route manager sends, one message each.
use crate::addr::Ipv4Addr;
use crate::netlink::manager::{group_id, group_id_for, MgrView, ProbePath, ProbeView, RouteManager};
use crate::netlink::reply::{default_routes, host_routes, other_default_routes, other_routes,
    receipt_progress, receipt_routes, scan_default_routes, scan_host_routes, DumpProgress,
    Received};
use crate::netlink::route::{bucket_count, build_getroute_msg, build_nexthop_del_msg,
    build_nexthop_group_msg, build_nexthop_id_msg, build_own_rule_del_msg, build_route_msg,
    build_route_msg_ex, build_route_msg_via_nh, build_rule_msg, gateway_view, getroute_msg,
    group_msg, hop_views, hops_fit, nexthop_del_msg, nexthop_msg, own_rule_del_msg,
    res_bucket_count, route_msg, rule_msg, slice_view, via_nh_msg, HopView, RouteNexthop,
    RouteTarget, RuleSpec, AF_INET, FLAGS_DELETE, FLAGS_EXCLUSIVE, FLAGS_REPLACE,
    PROBE_MAIN_ROUTE_METRIC, RTM_DELROUTE, RTM_DELRULE, RTM_NEWNEXTHOP, RTM_NEWROUTE, RTM_NEWRULE,
    RT_TABLE_MAIN};
use crate::netlink::util::copy_bytes;
use vstd::prelude::*;

verus! {

/// Deletes a nexthop object of a family.
#[verifier::opaque]
pub open spec fn req_delete_nexthop(m: MgrView, family: u8, id: u32) -> Seq<u8> {
    nexthop_del_msg(m.order, m.next_seq(), family, id)
}

/// Deletes the default route that points at the family's group.
#[verifier::opaque]
pub open spec fn req_delete_nh_route(m: MgrView, family: u8) -> Seq<u8> {
    via_nh_msg(
        m.order,
        m.priority,
        family,
        group_id(family),
        RTM_DELROUTE,
        FLAGS_DELETE,
        m.next_seq(),
    )
}

/// Makes or replaces the default route that points at the family's group.
#[verifier::opaque]
pub open spec fn req_nh_route(m: MgrView, family: u8) -> Seq<u8> {
    via_nh_msg(
        m.order,
        m.priority,
        family,
        group_id(family),
        RTM_NEWROUTE,
        FLAGS_REPLACE,
        m.next_seq(),
    )
}

/// Deletes the default route that has our metric; it names no nexthop.
#[verifier::opaque]
pub open spec fn req_delete_standard_route(m: MgrView, family: u8) -> Seq<u8> {
    route_msg(
        m.order,
        m.priority,
        family,
        None,
        None,
        Seq::empty(),
        RTM_DELROUTE,
        FLAGS_DELETE,
        m.next_seq(),
    )
}

/// Makes or replaces, in one go, the default route over all the ways out.
#[verifier::opaque]
pub open spec fn req_standard_route(m: MgrView, family: u8, hops: Seq<HopView>) -> Seq<u8> {
    route_msg(
        m.order,
        m.priority,
        family,
        None,
        None,
        hops,
        RTM_NEWROUTE,
        FLAGS_REPLACE,
        m.next_seq(),
    )
}

/// Makes or replaces the nexthop object `id`.
#[verifier::opaque]
pub open spec fn req_nexthop(m: MgrView, family: u8, id: u32, hop: HopView) -> Seq<u8> {
    nexthop_msg(
        m.order,
        m.next_seq(),
        family,
        id,
        hop.ifindex,
        hop.gateway,
        RTM_NEWNEXTHOP,
        FLAGS_REPLACE,
    )
}

/// Makes or replaces the resilient group of the family.
#[verifier::opaque]
pub open spec fn req_group(m: MgrView, family: u8, members: Seq<(u32, u32)>) -> Seq<u8> {
    group_msg(
        m.order,
        m.next_seq(),
        group_id(family),
        members,
        Some(bucket_count(members.len() as int)),
        RTM_NEWNEXTHOP,
        FLAGS_REPLACE,
    )
}

/// Asks for all routes of a family.
#[verifier::opaque]
pub open spec fn req_dump(m: MgrView, family: u8) -> Seq<u8> {
    getroute_msg(m.order, family, m.next_seq(), None, None, true)
}

/// Asks for the route to a destination, as a socket bound to `oif` would go.
#[verifier::opaque]
pub open spec fn req_lookup(m: MgrView, dst: Ipv4Addr, oif: Option<u32>) -> Seq<u8> {
    getroute_msg(m.order, AF_INET, m.next_seq(), Some((dst, 32)), oif, false)
}

/// The table field for a table: none for the main one, where a table attribute
/// would keep a deletion from matching.
pub open spec fn table_arg(table: u32) -> Option<u32> {
    if table == RT_TABLE_MAIN as u32 {
        None
    } else {
        Some(table)
    }
}

/// Deletes a host route by table, destination and metric alone; it names no nexthop.
#[verifier::opaque]
pub open spec fn req_delete_host_route(
    m: MgrView,
    metric: u32,
    table: u32,
    dst: Ipv4Addr,
    dst_len: u8,
) -> Seq<u8> {
    route_msg(
        m.order,
        metric,
        AF_INET,
        table_arg(table),
        Some((dst@, dst_len)),
        Seq::empty(),
        RTM_DELROUTE,
        FLAGS_DELETE,
        m.next_seq(),
    )
}

/// Makes or replaces a host route in the main table.
#[verifier::opaque]
pub open spec fn req_host_route(
    m: MgrView,
    metric: u32,
    dst: Ipv4Addr,
    ifindex: u32,
    gateway: Option<Seq<u8>>,
) -> Seq<u8> {
    route_msg(
        m.order,
        metric,
        AF_INET,
        None,
        Some((dst@, 32u8)),
        seq![HopView { ifindex, gateway, weight: 1 }],
        RTM_NEWROUTE,
        FLAGS_REPLACE,
        m.next_seq(),
    )
}

/// The octets of an optional gateway.
pub open spec fn v4_gateway(g: Option<Ipv4Addr>) -> Option<Seq<u8>> {
    match g {
        Some(a) => Some(a@),
        None => None,
    }
}

/// Makes the rule of a probe path, unless it is there.
#[verifier::opaque]
pub open spec fn req_probe_rule(m: MgrView, p: ProbeView) -> Seq<u8> {
    rule_msg(
        m.order,
        m.next_seq(),
        AF_INET,
        p.table,
        p.ifname,
        p.priority,
        true,
        RTM_NEWRULE,
        FLAGS_EXCLUSIVE,
    )
}

/// Deletes the rule of a probe path.
#[verifier::opaque]
pub open spec fn req_delete_probe_rule(m: MgrView, p: ProbeView) -> Seq<u8> {
    rule_msg(
        m.order,
        m.next_seq(),
        AF_INET,
        p.table,
        p.ifname,
        p.priority,
        true,
        RTM_DELRULE,
        FLAGS_DELETE,
    )
}

/// Makes or replaces the default route in the table of a probe path.
#[verifier::opaque]
pub open spec fn req_probe_route(m: MgrView, p: ProbeView) -> Seq<u8> {
    route_msg(
        m.order,
        0,
        AF_INET,
        Some(p.table),
        None,
        seq![HopView { ifindex: p.ifindex, gateway: v4_gateway(p.gateway), weight: 1 }],
        RTM_NEWROUTE,
        FLAGS_REPLACE,
        m.next_seq(),
    )
}

/// Deletes the default route in the table of a probe path.
#[verifier::opaque]
pub open spec fn req_delete_probe_route(m: MgrView, p: ProbeView) -> Seq<u8> {
    route_msg(
        m.order,
        0,
        AF_INET,
        Some(p.table),
        None,
        Seq::empty(),
        RTM_DELROUTE,
        FLAGS_DELETE,
        m.next_seq(),
    )
}

/// Deletes the rule of ours that has a priority.
#[verifier::opaque]
pub open spec fn req_delete_own_rule(m: MgrView, priority: u32) -> Seq<u8> {
    own_rule_del_msg(m.order, m.next_seq(), priority)
}

/// Whether the name of an interface can be put in a message.
pub open spec fn name_fits(name: Seq<char>) -> bool {
    vstd::utf8::encode_utf8(name).len() + 128 <= usize::MAX
}

fn v4_octets(g: &Option<Ipv4Addr>) -> (r: Option<Vec<u8>>)
    ensures
        gateway_view(r) == v4_gateway(*g),
        r matches Some(v) ==> v@.len() == 4,
{
    match g {
        Some(a) => Some(copy_bytes(&a.octets())),
        None => None,
    }
}

impl RouteManager {
    pub(crate) fn delete_nexthop(&mut self, family: u8, id: u32) -> (r: Vec<u8>)
        ensures
            r@ == req_delete_nexthop(old(self)@, family, id),
            final(self)@ == old(self)@.bumped(),
    {
        reveal(req_delete_nexthop);
        let seq: u32 = self.bump();
        build_nexthop_del_msg(self.order, seq, family, id)
    }

    pub(crate) fn delete_nh_route(&mut self, family: u8) -> (r: Vec<u8>)
        ensures
            r@ == req_delete_nh_route(old(self)@, family),
            final(self)@ == old(self)@.bumped(),
    {
        reveal(req_delete_nh_route);
        let seq: u32 = self.bump();
        build_route_msg_via_nh(
            self.order,
            self.priority,
            family,
            group_id_for(family),
            RTM_DELROUTE,
            FLAGS_DELETE,
            seq,
        )
    }

    pub(crate) fn install_nh_route(&mut self, family: u8) -> (r: Vec<u8>)
        ensures
            r@ == req_nh_route(old(self)@, family),
            final(self)@ == old(self)@.bumped(),
    {
        reveal(req_nh_route);
        let seq: u32 = self.bump();
        build_route_msg_via_nh(
            self.order,
            self.priority,
            family,
            group_id_for(family),
            RTM_NEWROUTE,
            FLAGS_REPLACE,
            seq,
        )
    }

    pub(crate) fn delete_standard_route(&mut self, family: u8) -> (r: Vec<u8>)
        ensures
            r@ == req_delete_standard_route(old(self)@, family),
            final(self)@ == old(self)@.bumped(),
    {
        reveal(req_delete_standard_route);
        let seq: u32 = self.bump();
        let hops: Vec<RouteNexthop> = Vec::new();
        assert(hop_views(hops@) =~= Seq::empty());
        build_route_msg(
            self.order,
            self.priority,
            family,
            hops.as_slice(),
            RTM_DELROUTE,
            FLAGS_DELETE,
            seq,
        )
    }

    pub(crate) fn install_standard_route(&mut self, family: u8, hops: &Vec<RouteNexthop>) -> (r: Vec<
        u8,
    >)
        requires
            hops_fit(hops@),
        ensures
            r@ == req_standard_route(old(self)@, family, hop_views(hops@)),
            final(self)@ == old(self)@.bumped(),
    {
        reveal(req_standard_route);
        let seq: u32 = self.bump();
        build_route_msg(
            self.order,
            self.priority,
            family,
            hops.as_slice(),
            RTM_NEWROUTE,
            FLAGS_REPLACE,
            seq,
        )
    }

    pub(crate) fn ensure_nexthop(&mut self, family: u8, id: u32, hop: &RouteNexthop) -> (r: Vec<u8>)
        requires
            hop.wf(),
        ensures
            r@ == req_nexthop(old(self)@, family, id, hop@),
            final(self)@ == old(self)@.bumped(),
    {
        reveal(req_nexthop);
        let seq: u32 = self.bump();
        let gateway: Option<&[u8]> = match &hop.gateway {
            Some(g) => Some(g.as_slice()),
            None => None,
        };
        assert(slice_view(gateway) == hop@.gateway);
        build_nexthop_id_msg(
            self.order,
            seq,
            family,
            id,
            hop.ifindex,
            gateway,
            RTM_NEWNEXTHOP,
            FLAGS_REPLACE,
        )
    }

    pub(crate) fn ensure_nexthop_group(&mut self, family: u8, members: &Vec<(u32, u32)>) -> (r: Vec<
        u8,
    >)
        requires
            8 * members@.len() + 128 <= usize::MAX,
        ensures
            r@ == req_group(old(self)@, family, members@),
            final(self)@ == old(self)@.bumped(),
    {
        reveal(req_group);
        let seq: u32 = self.bump();
        build_nexthop_group_msg(
            self.order,
            seq,
            group_id_for(family),
            members.as_slice(),
            Some(res_bucket_count(members.len())),
            RTM_NEWNEXTHOP,
            FLAGS_REPLACE,
        )
    }

    /// Asks for all routes of a family.
    pub fn dump_request(&mut self, family: u8) -> (r: Vec<u8>)
        ensures
            r@ == req_dump(old(self)@, family),
            final(self)@ == old(self)@.bumped(),
    {
        reveal(req_dump);
        let seq: u32 = self.bump();
        build_getroute_msg(self.order, family, seq, None, None, true)
    }

    /// Asks for the route to a destination, as a socket bound to `oif` would go.
    pub fn lookup_route(&mut self, dst: Ipv4Addr, oif: Option<u32>) -> (r: Vec<u8>)
        ensures
            r@ == req_lookup(old(self)@, dst, oif),
            final(self)@ == old(self)@.bumped(),
    {
        reveal(req_lookup);
        let seq: u32 = self.bump();
        build_getroute_msg(self.order, AF_INET, seq, Some((dst, 32)), oif, false)
    }

    pub(crate) fn delete_host_route(
        &mut self,
        metric: u32,
        table: u32,
        dst: Ipv4Addr,
        dst_len: u8,
    ) -> (r: Vec<u8>)
        ensures
            r@ == req_delete_host_route(old(self)@, metric, table, dst, dst_len),
            final(self)@ == old(self)@.bumped(),
    {
        reveal(req_delete_host_route);
        let seq: u32 = self.bump();
        let hops: Vec<RouteNexthop> = Vec::new();
        assert(hop_views(hops@) =~= Seq::empty());
        let octets = dst.octets();
        let table = if table == RT_TABLE_MAIN as u32 {
            None
        } else {
            Some(table)
        };
        let target = RouteTarget { table, dst: Some((&octets, dst_len)) };
        build_route_msg_ex(
            self.order,
            metric,
            AF_INET,
            target,
            hops.as_slice(),
            RTM_DELROUTE,
            FLAGS_DELETE,
            seq,
        )
    }

    pub(crate) fn install_host_route(
        &mut self,
        metric: u32,
        dst: Ipv4Addr,
        ifindex: u32,
        gateway: Option<Vec<u8>>,
    ) -> (r: Vec<u8>)
        requires
            gateway matches Some(g) ==> g@.len() <= 16,
        ensures
            r@ == req_host_route(old(self)@, metric, dst, ifindex, gateway_view(gateway)),
            final(self)@ == old(self)@.bumped(),
    {
        reveal(req_host_route);
        let seq: u32 = self.bump();
        let ghost gw = gateway_view(gateway);
        let hops: Vec<RouteNexthop> = vec![RouteNexthop { ifindex, gateway, weight: 1 }];
        assert(hop_views(hops@) =~= seq![HopView { ifindex, gateway: gw, weight: 1 }]);
        let octets = dst.octets();
        let target = RouteTarget { table: None, dst: Some((&octets, 32)) };
        build_route_msg_ex(
            self.order,
            metric,
            AF_INET,
            target,
            hops.as_slice(),
            RTM_NEWROUTE,
            FLAGS_REPLACE,
            seq,
        )
    }

    pub(crate) fn install_probe_rule(&mut self, p: &ProbePath) -> (r: Vec<u8>)
        requires
            name_fits(p.ifname@),
        ensures
            r@ == req_probe_rule(old(self)@, p@),
            final(self)@ == old(self)@.bumped(),
    {
        reveal(req_probe_rule);
        let seq: u32 = self.bump();
        let spec = RuleSpec {
            family: AF_INET,
            table: p.table,
            ifname: p.ifname.as_str(),
            priority: p.priority,
            output: true,
        };
        build_rule_msg(self.order, seq, spec, RTM_NEWRULE, FLAGS_EXCLUSIVE)
    }

    pub(crate) fn delete_probe_rule(&mut self, p: &ProbePath) -> (r: Vec<u8>)
        requires
            name_fits(p.ifname@),
        ensures
            r@ == req_delete_probe_rule(old(self)@, p@),
            final(self)@ == old(self)@.bumped(),
    {
        reveal(req_delete_probe_rule);
        let seq: u32 = self.bump();
        let spec = RuleSpec {
            family: AF_INET,
            table: p.table,
            ifname: p.ifname.as_str(),
            priority: p.priority,
            output: true,
        };
        build_rule_msg(self.order, seq, spec, RTM_DELRULE, FLAGS_DELETE)
    }

    pub(crate) fn install_probe_route(&mut self, p: &ProbePath) -> (r: Vec<u8>)
        ensures
            r@ == req_probe_route(old(self)@, p@),
            final(self)@ == old(self)@.bumped(),
    {
        reveal(req_probe_route);
        let seq: u32 = self.bump();
        let hops: Vec<RouteNexthop> = vec![
            RouteNexthop { ifindex: p.ifindex, gateway: v4_octets(&p.gateway), weight: 1 },
        ];
        assert(hop_views(hops@) =~= seq![
            HopView { ifindex: p.ifindex, gateway: v4_gateway(p.gateway), weight: 1 },
        ]);
        build_route_msg_ex(
            self.order,
            0,
            AF_INET,
            RouteTarget { table: Some(p.table), dst: None },
            hops.as_slice(),
            RTM_NEWROUTE,
            FLAGS_REPLACE,
            seq,
        )
    }

    pub(crate) fn delete_probe_route(&mut self, p: &ProbePath) -> (r: Vec<u8>)
        ensures
            r@ == req_delete_probe_route(old(self)@, p@),
            final(self)@ == old(self)@.bumped(),
    {
        reveal(req_delete_probe_route);
        let seq: u32 = self.bump();
        let hops: Vec<RouteNexthop> = Vec::new();
        assert(hop_views(hops@) =~= Seq::empty());
        build_route_msg_ex(
            self.order,
            0,
            AF_INET,
            RouteTarget { table: Some(p.table), dst: None },
            hops.as_slice(),
            RTM_DELROUTE,
            FLAGS_DELETE,
            seq,
        )
    }

    pub(crate) fn install_probe_host(&mut self, p: &ProbePath, target: Ipv4Addr) -> (r: Vec<u8>)
        ensures
            r@ == req_host_route(
                old(self)@,
                PROBE_MAIN_ROUTE_METRIC,
                target,
                p@.ifindex,
                v4_gateway(p@.gateway),
            ),
            final(self)@ == old(self)@.bumped(),
    {
        self.install_host_route(
            PROBE_MAIN_ROUTE_METRIC,
            target,
            p.ifindex,
            v4_octets(&p.gateway),
        )
    }

    pub(crate) fn delete_own_rule_by_priority(&mut self, priority: u32) -> (r: Vec<u8>)
        ensures
            r@ == req_delete_own_rule(old(self)@, priority),
            final(self)@ == old(self)@.bumped(),
    {
        reveal(req_delete_own_rule);
        let seq: u32 = self.bump();
        build_own_rule_del_msg(self.order, seq, priority)
    }
}

impl RouteManager {
    /// Takes one receipt of the last dump: adds its host routes of the main table
    /// with a metric to `out`, as table, destination and prefix length.
    pub fn dump_host_routes_with_metric(
        &self,
        ev: &Received,
        metric: u32,
        out: &mut Vec<(u32, Ipv4Addr, u8)>,
    ) -> (r: DumpProgress)
        ensures
            final(out)@ == old(out)@ + host_routes(
                self@.order,
                receipt_routes(self@.order, *ev, self@.seq),
                metric,
            ),
            r == receipt_progress(self@.order, *ev, self@.seq),
    {
        scan_host_routes(self.order, ev, self.seq, metric, out)
    }

    /// Takes one receipt of the last dump: adds its default routes of the main
    /// table to `out`, as table and metric.
    pub fn dump_default_routes(&self, ev: &Received, out: &mut Vec<(u32, u32)>) -> (r: DumpProgress)
        ensures
            final(out)@ == old(out)@ + default_routes(
                self@.order,
                receipt_routes(self@.order, *ev, self@.seq),
            ),
            r == receipt_progress(self@.order, *ev, self@.seq),
    {
        scan_default_routes(self.order, ev, self.seq, out)
    }

    /// The default routes of a dump that are not ours: those with another metric.
    pub fn dump_other_default_routes(&self, routes: &Vec<(u32, u32)>, skip_metric: u32) -> (r: Vec<
        (u32, u32),
    >)
        ensures
            r@ == other_routes(routes@, skip_metric),
    {
        other_default_routes(routes, skip_metric)
    }

    /// Whether a dump of the main table shows any default route, ours included.
    pub fn has_main_default_route(&self, routes: &Vec<(u32, u32)>) -> (r: bool)
        ensures
            r == (routes@.len() > 0),
    {
        routes.len() > 0
    }
}

} // verus!
