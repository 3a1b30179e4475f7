//! The route manager: what is known of the kernel's state, and the requests that
//! bring the kernel to a wanted state.
//!
//! No request is sent here. An operation gives one request at a time and takes
//! the kernel's answer before it gives the next.
use crate::addr::{Ipv4Addr, Ipv6Addr};
use crate::config::EcmpMode;
use crate::errno::ErrorNumbers;
use crate::netlink::reply::{committed, settle, NetlinkError};
use crate::netlink::request::{name_fits, req_delete_nexthop, req_delete_nh_route};
use crate::netlink::route::{gateway_view, hop_views, HopView, RouteNexthop, AF_INET6, AF_UNSPEC,
    NH_GROUP_ID_V4, NH_GROUP_ID_V6};
use crate::netlink::util::{bytes_equal, copy_bytes, ByteOrder};
use vstd::prelude::*;

verus! {

/// An active line (IPv4).
pub struct ActiveWanRoute {
    pub ifname: String,
    pub ifindex: u32,
    pub gateway: Option<Ipv4Addr>,
    pub weight: u32,
    /// The exit for tunnel peers is the line with the least metric.
    pub metric: u32,
    /// The peers of a tunnel; empty for a line that is none.
    pub underlay_targets: Vec<Ipv4Addr>,
}

/// An active line (IPv6).
pub struct ActiveWanRouteV6 {
    pub ifname: String,
    pub ifindex: u32,
    pub gateway: Option<Ipv6Addr>,
    pub weight: u32,
}

/// Which kind of default route is in the kernel. The two kinds have different
/// keys, so that one does not replace the other.
#[derive(Debug, Clone, Copy, PartialEq, Eq, Structural)]
pub enum InstalledVariant {
    /// None of ours.
    Absent,
    /// A route with its own nexthops.
    Standard,
    /// A route that points at a resilient group.
    Resilient,
}

/// A nexthop object: what it stands for, and its identifier.
pub struct NhEntry {
    pub family: u8,
    pub ifindex: u32,
    /// The gateway's octets; empty for a direct link.
    pub gateway: Vec<u8>,
    pub id: u32,
}

pub ghost struct NhView {
    pub family: u8,
    pub ifindex: u32,
    pub gateway: Seq<u8>,
    pub id: u32,
}

impl View for NhEntry {
    type V = NhView;

    open spec fn view(&self) -> NhView {
        NhView {
            family: self.family,
            ifindex: self.ifindex,
            gateway: self.gateway@,
            id: self.id,
        }
    }
}

pub open spec fn nh_views(list: Seq<NhEntry>) -> Seq<NhView> {
    Seq::new(list.len(), |i: int| list[i]@)
}

/// A host route: a destination, and the interface and gateway that lead to it.
pub type HostRoute = (Ipv4Addr, u32, Option<Vec<u8>>);

pub type HostRouteView = (Ipv4Addr, u32, Option<Seq<u8>>);

pub open spec fn host_route_view(r: HostRoute) -> HostRouteView {
    (r.0, r.1, gateway_view(r.2))
}

pub open spec fn host_route_views(list: Seq<HostRoute>) -> Seq<HostRouteView> {
    Seq::new(list.len(), |i: int| host_route_view(list[i]))
}

/// A way for the probes of one line, whatever the main table holds: a table with
/// a default route through that line, and a rule that sends what is bound to the
/// line there. The answers need a route back: the kernel's reverse path check
/// reads the main table alone, so that some targets get a host route there.
pub struct ProbePath {
    pub ifname: String,
    pub ifindex: u32,
    pub gateway: Option<Ipv4Addr>,
    /// All probe targets of the line.
    pub targets: Vec<Ipv4Addr>,
    pub table: u32,
    pub priority: u32,
    /// The targets that get a host route in the main table.
    pub main_route_targets: Vec<Ipv4Addr>,
}

pub ghost struct ProbeView {
    pub ifname: Seq<char>,
    pub ifindex: u32,
    pub gateway: Option<Ipv4Addr>,
    pub targets: Seq<Ipv4Addr>,
    pub table: u32,
    pub priority: u32,
    pub main_route_targets: Seq<Ipv4Addr>,
}

impl View for ProbePath {
    type V = ProbeView;

    open spec fn view(&self) -> ProbeView {
        ProbeView {
            ifname: self.ifname@,
            ifindex: self.ifindex,
            gateway: self.gateway,
            targets: self.targets@,
            table: self.table,
            priority: self.priority,
            main_route_targets: self.main_route_targets@,
        }
    }
}

pub open spec fn probe_views(list: Seq<ProbePath>) -> Seq<ProbeView> {
    Seq::new(list.len(), |i: int| list[i]@)
}

/// The route manager.
pub struct RouteManager {
    pub order: ByteOrder,
    /// The error numbers of the kernel's answers.
    pub numbers: ErrorNumbers,
    /// The number of the last request.
    pub seq: u32,
    /// The metric of the default routes.
    pub priority: u32,
    pub ecmp_mode: EcmpMode,
    /// Whether the kernel has resilient groups; `None` until it was tried.
    pub resilient_supported: Option<bool>,
    /// The nexthop objects in the kernel. An identifier stays with what it stands
    /// for, so that the kernel moves the buckets of failed members only.
    pub nh_ids: Vec<NhEntry>,
    pub next_nh_id: u32,
    pub installed_v4: InstalledVariant,
    pub installed_v6: InstalledVariant,
    /// The probe paths in the kernel, one for each interface name.
    pub probe_paths: Vec<ProbePath>,
    /// The host routes of tunnel peers in the kernel, one for each peer.
    pub underlay_routes: Vec<HostRoute>,
}

/// The route manager as a mathematical value.
pub ghost struct MgrView {
    pub order: ByteOrder,
    pub numbers: ErrorNumbers,
    pub seq: u32,
    pub priority: u32,
    pub mode: EcmpMode,
    pub supported: Option<bool>,
    pub nh: Seq<NhView>,
    pub next_id: u32,
    pub v4: InstalledVariant,
    pub v6: InstalledVariant,
    pub probes: Seq<ProbeView>,
    pub underlay: Seq<HostRouteView>,
}

impl View for RouteManager {
    type V = MgrView;

    open spec fn view(&self) -> MgrView {
        MgrView {
            order: self.order,
            numbers: self.numbers,
            seq: self.seq,
            priority: self.priority,
            mode: self.ecmp_mode,
            supported: self.resilient_supported,
            nh: nh_views(self.nh_ids@),
            next_id: self.next_nh_id,
            v4: self.installed_v4,
            v6: self.installed_v6,
            probes: probe_views(self.probe_paths@),
            underlay: host_route_views(self.underlay_routes@),
        }
    }
}

/// No two objects have an identifier or a meaning in common; identifiers are
/// below the next one, which is not above those of the groups.
#[verifier::opaque]
pub open spec fn nh_wf(nh: Seq<NhView>, next_id: u32) -> bool {
    &&& 1 <= next_id <= NH_GROUP_ID_V4
    &&& forall|i: int| 0 <= i < nh.len() ==> (#[trigger] nh[i]).id < next_id
    &&& forall|i: int, j: int|
        #![trigger nh[i], nh[j]]
        0 <= i < j < nh.len() ==> nh[i].id != nh[j].id && !same_nh(
            nh[i],
            nh[j].family,
            nh[j].ifindex,
            nh[j].gateway,
        )
}

/// No two probe paths have the interface name in common, and each name fits in
/// a message.
#[verifier::opaque]
pub open spec fn probes_wf(probes: Seq<ProbeView>) -> bool {
    &&& forall|i: int, j: int|
        #![trigger probes[i], probes[j]]
        0 <= i < j < probes.len() ==> probes[i].ifname != probes[j].ifname
    &&& forall|i: int| 0 <= i < probes.len() ==> name_fits((#[trigger] probes[i]).ifname)
}

/// No two tunnel routes have the destination in common.
#[verifier::opaque]
pub open spec fn underlay_wf(underlay: Seq<HostRouteView>) -> bool {
    forall|i: int, j: int|
        #![trigger underlay[i], underlay[j]]
        0 <= i < j < underlay.len() ==> underlay[i].0 != underlay[j].0
}

impl MgrView {
    /// The records are consistent.
    pub open spec fn wf(self) -> bool {
        &&& nh_wf(self.nh, self.next_id)
        &&& probes_wf(self.probes)
        &&& underlay_wf(self.underlay)
    }

    /// The kind of default route that the kernel has.
    pub open spec fn variant(self, family: u8) -> InstalledVariant {
        if family == AF_INET6 {
            self.v6
        } else {
            self.v4
        }
    }

    pub open spec fn with_variant(self, family: u8, v: InstalledVariant) -> MgrView {
        if family == AF_INET6 {
            MgrView { v6: v, ..self }
        } else {
            MgrView { v4: v, ..self }
        }
    }

    /// The number of the next request; it wraps around.
    pub open spec fn next_seq(self) -> u32 {
        if self.seq == u32::MAX {
            0
        } else {
            (self.seq + 1) as u32
        }
    }

    /// One request later.
    pub open spec fn bumped(self) -> MgrView {
        MgrView { seq: self.next_seq(), ..self }
    }

    pub open spec fn with_nh(self, nh: Seq<NhView>) -> MgrView {
        MgrView { nh, ..self }
    }
}

/// Whether a nexthop object stands for that interface and gateway.
pub open spec fn same_nh(e: NhView, family: u8, ifindex: u32, gateway: Seq<u8>) -> bool {
    e.family == family && e.ifindex == ifindex && e.gateway == gateway
}

/// The octets of a gateway; none for a direct link.
pub open spec fn gateway_key(gateway: Option<Seq<u8>>) -> Seq<u8> {
    match gateway {
        Some(g) => g,
        None => Seq::empty(),
    }
}

/// The place of the object that stands for an interface and gateway; the length
/// of the list if there is none.
pub open spec fn find_nh(list: Seq<NhView>, family: u8, ifindex: u32, gateway: Seq<u8>) -> int
    decreases list.len(),
{
    if list.len() == 0 {
        0
    } else if same_nh(list[0], family, ifindex, gateway) {
        0
    } else {
        1 + find_nh(list.drop_first(), family, ifindex, gateway)
    }
}

pub proof fn lemma_find_nh(list: Seq<NhView>, family: u8, ifindex: u32, gateway: Seq<u8>, k: int)
    requires
        0 <= k <= list.len(),
        forall|i: int|
            0 <= i < k ==> !same_nh(#[trigger] list[i], family, ifindex, gateway),
        k < list.len() ==> same_nh(list[k], family, ifindex, gateway),
    ensures
        find_nh(list, family, ifindex, gateway) == k,
    decreases list.len(),
{
    if list.len() > 0 && k > 0 {
        let tail = list.drop_first();
        assert forall|i: int| 0 <= i < k - 1 implies !same_nh(
            #[trigger] tail[i],
            family,
            ifindex,
            gateway,
        ) by {
            assert(tail[i] == list[i + 1]);
        }
        assert(!same_nh(list[0], family, ifindex, gateway));
        lemma_find_nh(tail, family, ifindex, gateway, k - 1);
    }
}

/// The identifier that a nexthop has, or would get.
pub open spec fn nh_id(m: MgrView, family: u8, ifindex: u32, gateway: Option<Seq<u8>>) -> u32 {
    let k = find_nh(m.nh, family, ifindex, gateway_key(gateway));
    if k < m.nh.len() {
        m.nh[k].id
    } else {
        m.next_id
    }
}

/// The manager once that nexthop has an identifier.
pub open spec fn with_nh_id(m: MgrView, family: u8, ifindex: u32, gateway: Option<Seq<u8>>) -> MgrView {
    let k = find_nh(m.nh, family, ifindex, gateway_key(gateway));
    if k < m.nh.len() {
        m
    } else {
        MgrView {
            nh: m.nh.push(
                NhView { family, ifindex, gateway: gateway_key(gateway), id: m.next_id },
            ),
            next_id: (m.next_id + 1) as u32,
            ..m
        }
    }
}

/// Whether the interface and gateway of an object are among the ways out.
pub open spec fn is_wanted_nh(e: NhView, hops: Seq<HopView>) -> bool {
    exists|i: int|
        0 <= i < hops.len() && e.ifindex == (#[trigger] hops[i]).ifindex && e.gateway
            == gateway_key(hops[i].gateway)
}

/// Whether an object belongs to a family and to none of the ways out.
pub open spec fn is_stale_nh(e: NhView, family: u8, hops: Seq<HopView>) -> bool {
    e.family == family && !is_wanted_nh(e, hops)
}

/// The first place from `from` on where an object is stale; the length of the
/// list if there is none.
pub open spec fn next_stale_nh(list: Seq<NhView>, family: u8, hops: Seq<HopView>, from: int) -> int
    decreases list.len() - from,
{
    if from >= list.len() {
        list.len() as int
    } else if is_stale_nh(list[from], family, hops) {
        from
    } else {
        next_stale_nh(list, family, hops, from + 1)
    }
}

/// The group that holds the ways out of a family.
pub open spec fn group_id(family: u8) -> u32 {
    if family == AF_INET6 {
        NH_GROUP_ID_V6
    } else {
        NH_GROUP_ID_V4
    }
}

/// The group that holds the ways out of a family.
pub fn group_id_for(family: u8) -> (r: u32)
    ensures
        r == group_id(family),
{
    if family == AF_INET6 {
        NH_GROUP_ID_V6
    } else {
        NH_GROUP_ID_V4
    }
}

/// Whether two optional gateways have the same octets.
pub fn gateways_equal(a: &Option<Vec<u8>>, b: &Option<Vec<u8>>) -> (r: bool)
    ensures
        r == (gateway_view(*a) == gateway_view(*b)),
{
    match (a, b) {
        (None, None) => true,
        (Some(x), Some(y)) => bytes_equal(x.as_slice(), y.as_slice()),
        _ => false,
    }
}

pub fn copy_gateway(g: &Option<Vec<u8>>) -> (r: Option<Vec<u8>>)
    ensures
        gateway_view(r) == gateway_view(*g),
{
    match g {
        Some(v) => Some(copy_bytes(v.as_slice())),
        None => None,
    }
}

/// The octets of an optional gateway; none for a direct link.
fn key_of(g: &Option<Vec<u8>>) -> (r: Vec<u8>)
    ensures
        r@ == gateway_key(gateway_view(*g)),
{
    match g {
        Some(v) => copy_bytes(v.as_slice()),
        None => {
            let r: Vec<u8> = Vec::new();
            assert(r@ =~= Seq::empty());
            r
        },
    }
}

impl RouteManager {
    pub open spec fn wf(self) -> bool {
        self@.wf()
    }

    /// A manager that has sent nothing yet, for a machine with the given byte order
    /// and error numbers.
    pub fn with_order(
        order: ByteOrder,
        numbers: ErrorNumbers,
        priority: u32,
        ecmp_mode: EcmpMode,
    ) -> (r: RouteManager)
        ensures
            r.wf(),
            r@ == (MgrView {
                order,
                numbers,
                seq: 1,
                priority,
                mode: ecmp_mode,
                supported: None,
                nh: Seq::empty(),
                next_id: 1,
                v4: InstalledVariant::Absent,
                v6: InstalledVariant::Absent,
                probes: Seq::empty(),
                underlay: Seq::empty(),
            }),
    {
        let r = RouteManager {
            order,
            numbers,
            seq: 1,
            priority,
            ecmp_mode,
            resilient_supported: None,
            nh_ids: Vec::new(),
            next_nh_id: 1,
            installed_v4: InstalledVariant::Absent,
            installed_v6: InstalledVariant::Absent,
            probe_paths: Vec::new(),
            underlay_routes: Vec::new(),
        };
        proof {
            reveal(nh_wf);
            reveal(probes_wf);
            reveal(underlay_wf);
            assert(r@.nh =~= Seq::empty());
            assert(r@.probes =~= Seq::empty());
            assert(r@.underlay =~= Seq::empty());
        }
        r
    }

    /// A manager that has sent nothing yet, for this machine.
    pub fn new(priority: u32, ecmp_mode: EcmpMode) -> (r: RouteManager)
        ensures
            r.wf(),
            r@ == (MgrView {
                order: r.order,
                numbers: r.numbers,
                seq: 1,
                priority,
                mode: ecmp_mode,
                supported: None,
                nh: Seq::empty(),
                next_id: 1,
                v4: InstalledVariant::Absent,
                v6: InstalledVariant::Absent,
                probes: Seq::empty(),
                underlay: Seq::empty(),
            }),
    {
        RouteManager::with_order(ByteOrder::native(), ErrorNumbers::native(), priority, ecmp_mode)
    }

    /// Whether that many more nexthops can get an identifier.
    pub fn has_room(&self, hops: usize) -> (r: bool)
        requires
            self.wf(),
        ensures
            r == (self@.next_id + hops <= NH_GROUP_ID_V4),
    {
        proof {
            reveal(nh_wf);
        }
        hops as u64 <= (NH_GROUP_ID_V4 - self.next_nh_id) as u64
    }

    /// The number for the next request.
    pub(crate) fn bump(&mut self) -> (seq: u32)
        ensures
            final(self)@ == old(self)@.bumped(),
            seq == old(self)@.next_seq(),
    {
        self.seq = self.seq.wrapping_add(1);
        self.seq
    }

    /// The kind of default route that the kernel has.
    pub fn installed_variant(&self, family: u8) -> (r: InstalledVariant)
        ensures
            r == self@.variant(family),
    {
        if family == AF_INET6 {
            self.installed_v6
        } else {
            self.installed_v4
        }
    }

    pub(crate) fn set_installed_variant(&mut self, family: u8, v: InstalledVariant)
        ensures
            final(self)@ == old(self)@.with_variant(family, v),
    {
        if family == AF_INET6 {
            self.installed_v6 = v;
        } else {
            self.installed_v4 = v;
        }
    }

    /// The identifier of a nexthop; it gets one if it has none.
    pub fn alloc_nh_id(&mut self, family: u8, ifindex: u32, gateway: &Option<Vec<u8>>) -> (r: u32)
        requires
            old(self).wf(),
            old(self)@.next_id < NH_GROUP_ID_V4,
        ensures
            r == nh_id(old(self)@, family, ifindex, gateway_view(*gateway)),
            final(self)@ == with_nh_id(old(self)@, family, ifindex, gateway_view(*gateway)),
            final(self).wf(),
    {
        let key = key_of(gateway);
        let ghost list = self@.nh;
        let mut i: usize = 0;
        while i < self.nh_ids.len()
            invariant
                i <= self.nh_ids@.len(),
                *self == *old(self),
                self.wf(),
                list == self@.nh,
                key@ == gateway_key(gateway_view(*gateway)),
                forall|j: int|
                    0 <= j < i ==> !same_nh(#[trigger] list[j], family, ifindex, key@),
            decreases self.nh_ids@.len() - i,
        {
            let e = &self.nh_ids[i];
            assert(list[i as int] == e@);
            if e.family == family && e.ifindex == ifindex && bytes_equal(
                e.gateway.as_slice(),
                key.as_slice(),
            ) {
                proof {
                    lemma_find_nh(list, family, ifindex, key@, i as int);
                }
                return e.id;
            }
            i += 1;
        }
        proof {
            lemma_find_nh(list, family, ifindex, key@, i as int);
        }
        let id: u32 = self.next_nh_id;
        self.next_nh_id = id + 1;
        let entry = NhEntry { family, ifindex, gateway: key, id };
        self.nh_ids.push(entry);
        proof {
            reveal(nh_wf);
            assert(self@.nh =~= list.push(entry@));
            assert(self@.underlay =~= old(self)@.underlay);
            assert(self@.probes =~= old(self)@.probes);
        }
        id
    }

    /// Whether any object of a family is in the kernel.
    pub fn has_any_member(&self, family: u8) -> (r: bool)
        ensures
            r == (next_stale_nh(self@.nh, family, Seq::empty(), 0) < self@.nh.len()),
    {
        let hops: Vec<RouteNexthop> = Vec::new();
        assert(hop_views(hops@) =~= Seq::empty());
        self.find_stale(family, &hops, 0) < self.nh_ids.len()
    }

    /// The first object from `from` on that belongs to the family and to none of
    /// the ways out; the number of objects if there is none.
    pub(crate) fn find_stale(&self, family: u8, hops: &Vec<RouteNexthop>, from: usize) -> (r: usize)
        requires
            from <= self@.nh.len(),
        ensures
            r == next_stale_nh(self@.nh, family, hop_views(hops@), from as int),
            from <= r <= self@.nh.len(),
            r < self@.nh.len() ==> is_stale_nh(self@.nh[r as int], family, hop_views(hops@)),
    {
        let ghost list = self@.nh;
        let ghost views = hop_views(hops@);
        let mut i: usize = from;
        while i < self.nh_ids.len()
            invariant
                from <= i <= self.nh_ids@.len(),
                list == self@.nh,
                views == hop_views(hops@),
                next_stale_nh(list, family, views, from as int) == next_stale_nh(
                    list,
                    family,
                    views,
                    i as int,
                ),
            decreases self.nh_ids@.len() - i,
        {
            let e = &self.nh_ids[i];
            assert(list[i as int] == e@);
            if e.family == family && !wants_nh(e, hops) {
                return i;
            }
            i += 1;
        }
        i
    }
}

/// Whether the interface and gateway of an object are among the ways out.
fn wants_nh(e: &NhEntry, hops: &Vec<RouteNexthop>) -> (r: bool)
    ensures
        r == is_wanted_nh(e@, hop_views(hops@)),
{
    let ghost views = hop_views(hops@);
    let mut i: usize = 0;
    while i < hops.len()
        invariant
            i <= hops@.len(),
            views == hop_views(hops@),
            forall|j: int|
                0 <= j < i ==> !(e@.ifindex == (#[trigger] views[j]).ifindex && e@.gateway
                    == gateway_key(views[j].gateway)),
        decreases hops@.len() - i,
    {
        let h = &hops[i];
        assert(views[i as int] == h@);
        let key = key_of(&h.gateway);
        if e.ifindex == h.ifindex && bytes_equal(e.gateway.as_slice(), key.as_slice()) {
            return true;
        }
        i += 1;
    }
    false
}

/// An identifier stays with its nexthop: allocating again, after any other
/// allocation, gives the same one.
pub proof fn nh_id_is_stable(
    m: MgrView,
    family: u8,
    ifindex: u32,
    gateway: Option<Seq<u8>>,
    family2: u8,
    ifindex2: u32,
    gateway2: Option<Seq<u8>>,
)
    requires
        m.wf(),
    ensures
        ({
            let id = nh_id(m, family, ifindex, gateway);
            let m1 = with_nh_id(m, family, ifindex, gateway);
            let m2 = with_nh_id(m1, family2, ifindex2, gateway2);
            nh_id(m1, family, ifindex, gateway) == id && nh_id(m2, family, ifindex, gateway) == id
        }),
{
    let key = gateway_key(gateway);
    lemma_find_nh_exists(m.nh, family, ifindex, key);
    let k = find_nh(m.nh, family, ifindex, key);
    let m1 = with_nh_id(m, family, ifindex, gateway);
    assert forall|i: int| 0 <= i < k implies !same_nh(#[trigger] m1.nh[i], family, ifindex, key) by {
        assert(m1.nh[i] == m.nh[i]);
    }
    lemma_find_nh(m1.nh, family, ifindex, key, k);
    let m2 = with_nh_id(m1, family2, ifindex2, gateway2);
    assert forall|i: int| 0 <= i < k implies !same_nh(#[trigger] m2.nh[i], family, ifindex, key) by {
        assert(m2.nh[i] == m1.nh[i]);
    }
    lemma_find_nh_exists(m1.nh, family2, ifindex2, gateway_key(gateway2));
    lemma_find_nh(m2.nh, family, ifindex, key, k);
}

/// What `find_nh` finds.
pub proof fn lemma_find_nh_exists(list: Seq<NhView>, family: u8, ifindex: u32, gateway: Seq<u8>)
    ensures
        ({
            let k = find_nh(list, family, ifindex, gateway);
            &&& 0 <= k <= list.len()
            &&& forall|i: int| 0 <= i < k ==> !same_nh(#[trigger] list[i], family, ifindex, gateway)
            &&& k < list.len() ==> same_nh(list[k], family, ifindex, gateway)
        }),
    decreases list.len(),
{
    if list.len() > 0 && !same_nh(list[0], family, ifindex, gateway) {
        let tail = list.drop_first();
        lemma_find_nh_exists(tail, family, ifindex, gateway);
        let k = find_nh(list, family, ifindex, gateway);
        assert forall|i: int| 0 <= i < k implies !same_nh(
            #[trigger] list[i],
            family,
            ifindex,
            gateway,
        ) by {
            if i > 0 {
                assert(list[i] == tail[i - 1]);
            }
        }
    }
}

/// Two nexthops that differ in family, interface or gateway never share an
/// identifier, and no identifier is that of a group.
pub proof fn nh_ids_are_distinct(
    m: MgrView,
    family: u8,
    ifindex: u32,
    gateway: Option<Seq<u8>>,
    family2: u8,
    ifindex2: u32,
    gateway2: Option<Seq<u8>>,
)
    requires
        m.wf(),
        m.next_id < NH_GROUP_ID_V4,
        family != family2 || ifindex != ifindex2 || gateway_key(gateway) != gateway_key(gateway2),
    ensures
        ({
            let m1 = with_nh_id(m, family, ifindex, gateway);
            &&& nh_id(m, family, ifindex, gateway) != nh_id(m1, family2, ifindex2, gateway2)
            &&& nh_id(m, family, ifindex, gateway) < NH_GROUP_ID_V4
        }),
{
    reveal(nh_wf);
    let m1 = with_nh_id(m, family, ifindex, gateway);
    lemma_find_nh_exists(m.nh, family, ifindex, gateway_key(gateway));
    lemma_find_nh_exists(m1.nh, family2, ifindex2, gateway_key(gateway2));
    let k = find_nh(m.nh, family, ifindex, gateway_key(gateway));
    let k2 = find_nh(m1.nh, family2, ifindex2, gateway_key(gateway2));
    assert(k < m1.nh.len());
    if k2 < m1.nh.len() {
        assert(m1.nh[k] != m1.nh[k2]);
        if k2 < m.nh.len() && k < m.nh.len() {
            assert(m.nh[k].id != m.nh[k2].id);
        }
    }
}

/// How far the removal of a resilient default route has come.
#[derive(Debug, Clone, Copy, PartialEq, Eq, Structural)]
pub enum TearAt {
    /// The route is being deleted: while it is there, the group is in use.
    Route,
    /// The group is being deleted: while it is there, its members are in use.
    Group,
    /// The object at this place is being deleted.
    Member(usize),
    /// Nothing is left to do.
    Over,
}

/// A state of the removal: the manager, how far it has come, and the request to
/// send next (`None` when it is over).
pub ghost struct TearState {
    pub m: MgrView,
    pub at: TearAt,
    pub msg: Option<Seq<u8>>,
}

/// Deletes the objects of the family from the place `from` on; then the kernel
/// has no default route of ours.
pub open spec fn tear_members(m: MgrView, family: u8, from: int) -> TearState {
    let i = next_stale_nh(m.nh, family, Seq::empty(), from);
    if i < m.nh.len() {
        TearState {
            m: m.bumped(),
            at: TearAt::Member(i as usize),
            msg: Some(req_delete_nexthop(m, family, m.nh[i].id)),
        }
    } else {
        TearState {
            m: m.with_variant(family, InstalledVariant::Absent),
            at: TearAt::Over,
            msg: None,
        }
    }
}

/// Deletes the group of the family. Groups belong to no family.
pub open spec fn tear_group(m: MgrView, family: u8) -> TearState {
    TearState {
        m: m.bumped(),
        at: TearAt::Group,
        msg: Some(req_delete_nexthop(m, AF_UNSPEC, group_id(family))),
    }
}

/// Starts the removal: with the route if there is one, else with the group.
pub open spec fn tear_start(m: MgrView, family: u8) -> TearState {
    if m.variant(family) == InstalledVariant::Resilient {
        TearState {
            m: m.bumped(),
            at: TearAt::Route,
            msg: Some(req_delete_nh_route(m, family)),
        }
    } else {
        tear_group(m, family)
    }
}

/// Goes on with the removal after an answer. A failure holds up nothing; an
/// object that could not be deleted stays known.
pub open spec fn tear_next(
    m: MgrView,
    family: u8,
    at: TearAt,
    reply: Result<(), NetlinkError>,
) -> TearState {
    match at {
        TearAt::Route => tear_group(m, family),
        TearAt::Group => tear_members(m, family, 0),
        TearAt::Member(i) => if committed(true, reply) is Ok {
            tear_members(m.with_nh(m.nh.remove(i as int)), family, i as int)
        } else {
            tear_members(m, family, i + 1)
        },
        TearAt::Over => TearState { m, at, msg: None },
    }
}

/// Whether `at` is a place in the list of objects, where it is one at all.
pub open spec fn tear_wf(m: MgrView, at: TearAt) -> bool {
    at matches TearAt::Member(i) ==> i < m.nh.len()
}

pub proof fn lemma_next_stale_nh(list: Seq<NhView>, family: u8, hops: Seq<HopView>, from: int)
    requires
        0 <= from <= list.len(),
    ensures
        ({
            let k = next_stale_nh(list, family, hops, from);
            &&& from <= k <= list.len()
            &&& k < list.len() ==> is_stale_nh(list[k], family, hops)
            &&& forall|i: int| from <= i < k ==> !is_stale_nh(#[trigger] list[i], family, hops)
        }),
    decreases list.len() - from,
{
    if from < list.len() && !is_stale_nh(list[from], family, hops) {
        lemma_next_stale_nh(list, family, hops, from + 1);
    }
}

impl RouteManager {
    /// Forgets the object at a place.
    pub(crate) fn forget_nh(&mut self, i: usize)
        requires
            i < old(self)@.nh.len(),
        ensures
            final(self)@ == old(self)@.with_nh(old(self)@.nh.remove(i as int)),
            old(self).wf() ==> final(self).wf(),
    {
        self.nh_ids.remove(i);
        proof {
            reveal(nh_wf);
            assert(self@.nh =~= old(self)@.nh.remove(i as int));
        }
    }

    /// Deletes an object of the family, the first from `from` on.
    fn teardown_members(&mut self, family: u8, from: usize) -> (r: (TearAt, Option<Vec<u8>>))
        requires
            from <= old(self)@.nh.len(),
        ensures
            ({
                let t = tear_members(old(self)@, family, from as int);
                final(self)@ == t.m && r.0 == t.at && opt_view(r.1) == t.msg
            }),
            tear_wf(final(self)@, r.0),
            old(self).wf() ==> final(self).wf(),
            r.1 is Some == !(r.0 is Over),
    {
        let hops: Vec<RouteNexthop> = Vec::new();
        assert(hop_views(hops@) =~= Seq::empty());
        let i: usize = self.find_stale(family, &hops, from);
        if i < self.nh_ids.len() {
            let id: u32 = self.nh_ids[i].id;
            (TearAt::Member(i), Some(self.delete_nexthop(family, id)))
        } else {
            self.set_installed_variant(family, InstalledVariant::Absent);
            (TearAt::Over, None)
        }
    }

    fn teardown_group(&mut self, family: u8) -> (r: (TearAt, Option<Vec<u8>>))
        ensures
            ({
                let t = tear_group(old(self)@, family);
                final(self)@ == t.m && r.0 == t.at && opt_view(r.1) == t.msg
            }),
            tear_wf(final(self)@, r.0),
            old(self).wf() ==> final(self).wf(),
            r.1 is Some == !(r.0 is Over),
    {
        (TearAt::Group, Some(self.delete_nexthop(AF_UNSPEC, group_id_for(family))))
    }

    /// Starts the removal of the resilient default route of a family.
    pub fn teardown_resilient(&mut self, family: u8) -> (r: (TearAt, Option<Vec<u8>>))
        ensures
            ({
                let t = tear_start(old(self)@, family);
                final(self)@ == t.m && r.0 == t.at && opt_view(r.1) == t.msg
            }),
            tear_wf(final(self)@, r.0),
            old(self).wf() ==> final(self).wf(),
            r.1 is Some == !(r.0 is Over),
    {
        if self.installed_variant(family) == InstalledVariant::Resilient {
            (TearAt::Route, Some(self.delete_nh_route(family)))
        } else {
            self.teardown_group(family)
        }
    }

    /// Goes on with the removal after an answer.
    pub fn teardown_next(&mut self, family: u8, at: TearAt, reply: Result<(), NetlinkError>) -> (r: (
        TearAt,
        Option<Vec<u8>>,
    ))
        requires
            tear_wf(old(self)@, at),
        ensures
            ({
                let t = tear_next(old(self)@, family, at, reply);
                final(self)@ == t.m && r.0 == t.at && opt_view(r.1) == t.msg
            }),
            tear_wf(final(self)@, r.0),
            old(self).wf() ==> final(self).wf(),
            r.1 is Some == !(r.0 is Over),
    {
        match at {
            TearAt::Route => self.teardown_group(family),
            TearAt::Group => self.teardown_members(family, 0),
            TearAt::Member(i) => {
                if settle(true, reply).is_ok() {
                    self.forget_nh(i);
                    self.teardown_members(family, i)
                } else {
                    assert(i < self.nh_ids.len());
                    self.teardown_members(family, i + 1)
                }
            },
            TearAt::Over => (TearAt::Over, None),
        }
    }
}

/// An optional request as a mathematical value.
pub open spec fn opt_view(msg: Option<Vec<u8>>) -> Option<Seq<u8>> {
    match msg {
        Some(m) => Some(m@),
        None => None,
    }
}

} // verus!
