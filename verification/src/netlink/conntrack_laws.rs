//! Which connections a flush deletes, told by their addresses.
use crate::addr::Ipv4Addr;
use crate::netlink::conntrack::{
    advance, any_holds_ip, connection_matches, delete_bytes, deletions, holds_ip, ip_part_matches,
    known_ips, lemma_range_in_stream, matching_tuple, nf_head, nf_msg, orig_range, part_matches,
    tuple_matches, verdict, wind_up, FlushStepView, FlushView, Verdict,
};
use crate::netlink::message::{
    after_attr, after_message, attr_bytes, attr_bytes_aligned, attrs, message, messages,
    stream_bytes, stream_bytes_aligned, stream_round_trip, AttrView,
};
use crate::netlink::util::{
    align4, header_round_trip, u16_at, u16_round_trip, u32_at, zeros, ByteOrder, NlMsgHdr,
};
use vstd::prelude::*;

verus! {

/// Whether some places are those of the addresses that are known, in order.
pub open spec fn known_places(at: Seq<int>, ips: Seq<Option<Ipv4Addr>>) -> bool {
    &&& forall|j: int, k: int| 0 <= j < k < at.len() ==> #[trigger] at[j] < #[trigger] at[k]
    &&& forall|k: int| 0 <= k < at.len() ==> 0 <= #[trigger] at[k] < ips.len() && ips[at[k]] is Some
    &&& forall|i: int| 0 <= i < ips.len() && #[trigger] ips[i] is Some ==> at.contains(i)
}

/// Every known address counts, at whatever place of the list it is: the targets
/// of a flush are the addresses that are given, one for each place that has one,
/// in their order, and nothing else.
pub proof fn every_known_address_counts(ips: Seq<Option<Ipv4Addr>>)
    ensures
        exists|at: Seq<int>|
            #![trigger known_places(at, ips)]
            {
                &&& known_places(at, ips)
                &&& at.len() == known_ips(ips).len()
                &&& forall|k: int|
                    0 <= k < at.len() ==> ips[at[k]] == Some(#[trigger] known_ips(ips)[k])
            },
        forall|a: Ipv4Addr| #[trigger]
            known_ips(ips).contains(a) <==> exists|i: int|
                0 <= i < ips.len() && #[trigger] ips[i] == Some(a),
        known_ips(ips).len() == 0 <==> forall|i: int|
            0 <= i < ips.len() ==> #[trigger] ips[i] is None,
    decreases ips.len(),
{
    let all = known_ips(ips);
    if ips.len() == 0 {
        assert(known_places(Seq::empty(), ips));
    } else {
        let init = ips.drop_last();
        every_known_address_counts(init);
        let rest = known_ips(init);
        let before = choose|at: Seq<int>|
            #![trigger known_places(at, init)]
            {
                &&& known_places(at, init)
                &&& at.len() == rest.len()
                &&& forall|k: int| 0 <= k < at.len() ==> init[at[k]] == Some(#[trigger] rest[k])
            };
        let n = ips.len() - 1;
        let at = if ips.last() is Some {
            before.push(n)
        } else {
            before
        };
        assert forall|k: int| 0 <= k < at.len() implies 0 <= #[trigger] at[k] < ips.len()
            && ips[at[k]] is Some by {
            if k < before.len() {
                assert(at[k] == before[k]);
            }
        }
        assert forall|j: int, k: int| 0 <= j < k < at.len() implies #[trigger] at[j]
            < #[trigger] at[k] by {
            assert(at[j] == before[j]);
            if k < before.len() {
                assert(at[k] == before[k]);
            }
        }
        assert forall|i: int| 0 <= i < ips.len() && #[trigger] ips[i] is Some implies at.contains(
            i,
        ) by {
            if i < init.len() {
                assert(init[i] == ips[i]);
                let k = choose|k: int| 0 <= k < before.len() && before[k] == i;
                assert(at[k] == i);
            } else {
                assert(at[at.len() - 1] == i);
            }
        }
        assert(known_places(at, ips));
        assert forall|k: int| 0 <= k < at.len() implies ips[at[k]] == Some(
            #[trigger] all[k],
        ) by {
            if k < before.len() {
                assert(all[k] == rest[k]);
                assert(at[k] == before[k]);
            }
        }
        assert(at.len() == all.len());
        assert forall|a: Ipv4Addr| #[trigger] all.contains(a) <==> exists|i: int|
            0 <= i < ips.len() && #[trigger] ips[i] == Some(a) by {
            if all.contains(a) {
                let k = choose|k: int| 0 <= k < all.len() && all[k] == a;
                assert(ips[at[k]] == Some(a));
            }
            if exists|i: int| 0 <= i < ips.len() && #[trigger] ips[i] == Some(a) {
                let i = choose|i: int| 0 <= i < ips.len() && #[trigger] ips[i] == Some(a);
                let k = choose|k: int| 0 <= k < at.len() && at[k] == i;
                assert(all[k] == a);
            }
        }
        if all.len() > 0 {
            assert(ips[at[0]] is Some);
        } else {
            assert forall|i: int| 0 <= i < ips.len() implies #[trigger] ips[i] is None by {
                if ips[i] is Some {
                    assert(at.contains(i));
                }
            }
        }
    }
}

pub open spec fn octets(a: Ipv4Addr) -> Seq<u8> {
    seq![a.a, a.b, a.c, a.d]
}

/// The two ends of a connection in one direction, and what else its tuple holds.
pub ghost struct Ends {
    pub src: Ipv4Addr,
    pub dst: Ipv4Addr,
    pub proto: Seq<u8>,
}

impl Ends {
    /// The address part: the source, then the destination.
    pub open spec fn ip_attrs(self) -> Seq<AttrView> {
        seq![
            AttrView { kind: 1, data: octets(self.src) },
            AttrView { kind: 2, data: octets(self.dst) },
        ]
    }

    /// The address part as the kernel sends it.
    #[verifier::opaque]
    pub open spec fn ip_part(self, order: ByteOrder) -> Seq<u8> {
        stream_bytes(order, self.ip_attrs())
    }

    /// The parts of the tuple; `nested` is the flag of nested attributes, or zero.
    pub open spec fn parts(self, order: ByteOrder, nested: u16) -> Seq<AttrView> {
        seq![
            AttrView { kind: (nested + 1) as u16, data: self.ip_part(order) },
            AttrView { kind: (nested + 2) as u16, data: self.proto },
        ]
    }

    /// The tuple as the kernel sends it.
    #[verifier::opaque]
    pub open spec fn tuple(self, order: ByteOrder, nested: u16) -> Seq<u8> {
        stream_bytes(order, self.parts(order, nested))
    }

    /// Whether one of the two ends is among some addresses.
    pub open spec fn meets(self, ips: Seq<Ipv4Addr>) -> bool {
        ips.contains(self.src) || ips.contains(self.dst)
    }
}

proof fn lemma_stream_of_two(order: ByteOrder, a: AttrView, b: AttrView)
    ensures
        stream_bytes(order, seq![a, b]) == attr_bytes(order, a.kind, a.data) + attr_bytes(
            order,
            b.kind,
            b.data,
        ),
{
    reveal_with_fuel(stream_bytes, 3);
    assert(seq![a, b].drop_first() =~= seq![b]);
    assert(seq![b].drop_first() =~= Seq::empty());
    assert(stream_bytes(order, seq![a, b]) =~= attr_bytes(order, a.kind, a.data) + attr_bytes(
        order,
        b.kind,
        b.data,
    ));
}

proof fn lemma_len_of_two(order: ByteOrder, a: AttrView, b: AttrView)
    requires
        a.data.len() <= 1010,
        b.data.len() <= 1010,
    ensures
        stream_bytes(order, seq![a, b]).len() == align4(4 + a.data.len() as int) + align4(
            4 + b.data.len() as int,
        ),
{
    lemma_stream_of_two(order, a, b);
    attr_bytes_aligned(order, a.kind, a.data);
    attr_bytes_aligned(order, b.kind, b.data);
}

proof fn lemma_octets(a: Ipv4Addr, kind: u16, ips: Seq<Ipv4Addr>)
    ensures
        holds_ip(AttrView { kind, data: octets(a) }, ips) == ips.contains(a),
{
    let d = octets(a);
    assert(d.len() == 4);
    assert(Ipv4Addr { a: d[0], b: d[1], c: d[2], d: d[3] } == a);
}

proof fn lemma_ends(e: Ends, ips: Seq<Ipv4Addr>)
    ensures
        any_holds_ip(e.ip_attrs(), ips) == e.meets(ips),
{
    let ends = e.ip_attrs();
    lemma_octets(e.src, 1, ips);
    lemma_octets(e.dst, 2, ips);
    assert(ends[0] == AttrView { kind: 1, data: octets(e.src) });
    assert(ends[1] == AttrView { kind: 2, data: octets(e.dst) });
}

#[verifier::rlimit(40)]
proof fn lemma_tuple_sizes(order: ByteOrder, e: Ends, nested: u16)
    requires
        e.proto.len() <= 1000,
    ensures
        e.tuple(order, nested).len() <= 1040,
        e.tuple(order, nested).len() % 4 == 0,
        e.ip_part(order).len() == 16,
{
    reveal(Ends::tuple);
    reveal(Ends::ip_part);
    let ends = e.ip_attrs();
    let parts = e.parts(order, nested);
    assert(ends =~= seq![ends[0], ends[1]]);
    assert(parts =~= seq![parts[0], parts[1]]);
    lemma_len_of_two(order, ends[0], ends[1]);
    lemma_len_of_two(order, parts[0], parts[1]);
    stream_bytes_aligned(order, parts);
}

#[verifier::rlimit(40)]
proof fn lemma_tuple_attrs(order: ByteOrder, e: Ends, nested: u16)
    requires
        e.proto.len() <= 1000,
    ensures
        attrs(order, e.tuple(order, nested)) == e.parts(order, nested),
        attrs(order, e.ip_part(order)) == e.ip_attrs(),
{
    reveal(Ends::tuple);
    reveal(Ends::ip_part);
    lemma_tuple_sizes(order, e, nested);
    let ends = e.ip_attrs();
    let parts = e.parts(order, nested);
    assert(ends[0].data.len() == 4 && ends[1].data.len() == 4);
    stream_round_trip(order, ends);
    stream_round_trip(order, parts);
}

proof fn lemma_match_of(
    order: ByteOrder,
    tuple: Seq<u8>,
    list: Seq<AttrView>,
    inner: Seq<AttrView>,
    ips: Seq<Ipv4Addr>,
)
    requires
        attrs(order, tuple) == list,
        list.len() == 2,
        list[0].kind % 0x4000 == 1,
        list[1].kind % 0x4000 == 2,
        attrs(order, list[0].data) == inner,
    ensures
        tuple_matches(order, tuple, ips) <==> any_holds_ip(inner, ips),
{
    assert(ip_part_matches(order, list[0], ips) == any_holds_ip(inner, ips));
    assert(!ip_part_matches(order, list[1], ips));
    if any_holds_ip(inner, ips) {
        assert(ip_part_matches(order, attrs(order, tuple)[0], ips));
    }
}

proof fn lemma_nested_kinds(nested: u16)
    requires
        nested == 0 || nested == 0x8000,
    ensures
        ((nested + 1) as u16) % 0x4000 == 1,
        ((nested + 2) as u16) % 0x4000 == 2,
{
}

/// Either end of a tuple counts, and only the ends do.
#[verifier::rlimit(40)]
pub proof fn either_end_counts(order: ByteOrder, e: Ends, nested: u16, ips: Seq<Ipv4Addr>)
    requires
        nested == 0 || nested == 0x8000,
        e.proto.len() <= 1000,
    ensures
        tuple_matches(order, e.tuple(order, nested), ips) <==> e.meets(ips),
{
    lemma_tuple_attrs(order, e, nested);
    lemma_nested_kinds(nested);
    lemma_ends(e, ips);
    lemma_match_of(
        order,
        e.tuple(order, nested),
        e.parts(order, nested),
        e.ip_attrs(),
        ips,
    );
}

/// What the kernel tells of a connection: the original direction, the reply
/// direction, and more that is neither.
pub open spec fn connection(
    order: ByteOrder,
    orig: Ends,
    reply: Ends,
    nested: u16,
    more: Seq<AttrView>,
) -> Seq<AttrView> {
    seq![
        AttrView { kind: (nested + 1) as u16, data: orig.tuple(order, nested) },
        AttrView { kind: (nested + 2) as u16, data: reply.tuple(order, nested) },
    ] + more
}

/// Whether some attributes are neither of a connection's tuples.
pub open spec fn no_tuples(more: Seq<AttrView>) -> bool {
    forall|i: int|
        0 <= i < more.len() ==> (#[trigger] more[i]).kind % 0x4000 != 1 && more[i].kind % 0x4000
            != 2 && more[i].data.len() <= 1000
}

proof fn lemma_first_attr(order: ByteOrder, a: AttrView, rest: Seq<u8>)
    requires
        a.data.len() < 60000,
    ensures
        ({
            let s = attr_bytes(order, a.kind, a.data) + rest;
            let len = 4 + a.data.len() as int;
            &&& s.len() >= len
            &&& u16_at(order, s, 0) == len
            &&& u16_at(order, s, 2) == a.kind
            &&& after_attr(s, len) == rest
        }),
{
    let s = attr_bytes(order, a.kind, a.data) + rest;
    let len = (4 + a.data.len()) as int;
    u16_round_trip(order, len as u16);
    u16_round_trip(order, a.kind);
    attr_bytes_aligned(order, a.kind, a.data);
    assert(u16_at(order, s, 0) == len);
    assert(u16_at(order, s, 2) == a.kind);
    assert(after_attr(s, len) =~= rest);
}

proof fn lemma_range_step(order: ByteOrder, s: Seq<u8>, len: int, kind: u16, rest: Seq<u8>, base: int)
    requires
        4 <= len <= s.len(),
        u16_at(order, s, 0) == len,
        u16_at(order, s, 2) == kind,
        after_attr(s, len) == rest,
    ensures
        orig_range(order, s, base) == (match orig_range(order, rest, base + align4(len)) {
            Some(r) => Some(r),
            None => if kind % 0x4000 == 1 {
                Some((base, base + len))
            } else {
                None
            },
        }),
{
}

proof fn lemma_range_of(order: ByteOrder, a: AttrView, rest: Seq<u8>, base: int)
    requires
        a.data.len() < 60000,
    ensures
        orig_range(order, attr_bytes(order, a.kind, a.data) + rest, base) == (match orig_range(
            order,
            rest,
            base + align4(4 + a.data.len() as int),
        ) {
            Some(r) => Some(r),
            None => if a.kind % 0x4000 == 1 {
                Some((base, base + 4 + a.data.len()))
            } else {
                None
            },
        }),
{
    lemma_first_attr(order, a, rest);
    lemma_range_step(
        order,
        attr_bytes(order, a.kind, a.data) + rest,
        4 + a.data.len() as int,
        a.kind,
        rest,
        base,
    );
}

proof fn lemma_no_range(order: ByteOrder, list: Seq<AttrView>, base: int)
    requires
        forall|i: int|
            0 <= i < list.len() ==> (#[trigger] list[i]).kind % 0x4000 != 1 && list[i].data.len()
                < 60000,
    ensures
        orig_range(order, stream_bytes(order, list), base) is None,
    decreases list.len(),
{
    if list.len() > 0 {
        let tail = list.drop_first();
        assert forall|i: int| 0 <= i < tail.len() implies (#[trigger] tail[i]).kind % 0x4000 != 1
            && tail[i].data.len() < 60000 by {
            assert(tail[i] == list[i + 1]);
        }
        let len = 4 + list[0].data.len() as int;
        lemma_no_range(order, tail, base + align4(len));
        lemma_range_of(order, list[0], stream_bytes(order, tail), base);
    }
}

/// Whether a list of attributes is that of a connection of which some ends are
/// among the addresses.
#[verifier::rlimit(40)]
proof fn lemma_connection_match(
    order: ByteOrder,
    stream: Seq<u8>,
    orig: Ends,
    reply: Ends,
    nested: u16,
    more: Seq<AttrView>,
    ips: Seq<Ipv4Addr>,
)
    requires
        nested == 0 || nested == 0x8000,
        orig.proto.len() <= 1000,
        reply.proto.len() <= 1000,
        no_tuples(more),
        attrs(order, stream) == connection(order, orig, reply, nested, more),
    ensures
        connection_matches(order, stream, ips) <==> orig.meets(ips) || reply.meets(ips),
{
    either_end_counts(order, orig, nested, ips);
    either_end_counts(order, reply, nested, ips);
    let list = attrs(order, stream);
    let o = AttrView { kind: (nested + 1) as u16, data: orig.tuple(order, nested) };
    let r = AttrView { kind: (nested + 2) as u16, data: reply.tuple(order, nested) };
    assert(list[0] == o);
    assert(list[1] == r);
    assert((0x8000 + 1) % 0x4000 == 1);
    assert((0x8000 + 2) % 0x4000 == 2);
    assert(part_matches(order, o, ips) == orig.meets(ips));
    assert(part_matches(order, r, ips) == reply.meets(ips));
    if orig.meets(ips) {
        assert(part_matches(order, attrs(order, stream)[0], ips));
    }
    if reply.meets(ips) {
        assert(part_matches(order, attrs(order, stream)[1], ips));
    }
    assert forall|i: int| 2 <= i < list.len() implies !part_matches(
        order,
        #[trigger] attrs(order, stream)[i],
        ips,
    ) by {
        assert(list[i] == more[i - 2]);
    }
}

proof fn lemma_connection_attrs(
    order: ByteOrder,
    orig: Ends,
    reply: Ends,
    nested: u16,
    more: Seq<AttrView>,
)
    requires
        orig.proto.len() <= 1000,
        reply.proto.len() <= 1000,
        no_tuples(more),
    ensures
        ({
            let list = connection(order, orig, reply, nested, more);
            attrs(order, stream_bytes(order, list)) == list
        }),
{
    lemma_tuple_sizes(order, orig, nested);
    lemma_tuple_sizes(order, reply, nested);
    let list = connection(order, orig, reply, nested, more);
    assert forall|i: int| 0 <= i < list.len() implies 4 + (#[trigger] list[i]).data.len()
        < 65536 by {
        if i >= 2 {
            assert(list[i] == more[i - 2]);
        }
    }
    stream_round_trip(order, list);
}

proof fn lemma_attr_whole(order: ByteOrder, a: AttrView, rest: Seq<u8>)
    requires
        a.data.len() % 4 == 0,
    ensures
        (attr_bytes(order, a.kind, a.data) + rest).subrange(0, 4 + a.data.len() as int)
            == attr_bytes(order, a.kind, a.data),
{
    let olen = 4 + a.data.len() as int;
    attr_bytes_aligned(order, a.kind, a.data);
    assert(align4(olen) == olen);
    assert((attr_bytes(order, a.kind, a.data) + rest).subrange(0, olen) =~= attr_bytes(
        order,
        a.kind,
        a.data,
    ));
}

proof fn lemma_stream_cons(order: ByteOrder, a: AttrView, tail: Seq<AttrView>)
    ensures
        stream_bytes(order, seq![a] + tail) == attr_bytes(order, a.kind, a.data) + stream_bytes(
            order,
            tail,
        ),
{
    let list = seq![a] + tail;
    assert(list[0] == a);
    assert(list.drop_first() =~= tail);
}

proof fn lemma_orig_first(order: ByteOrder, o: AttrView, tail: Seq<AttrView>)
    requires
        o.kind % 0x4000 == 1,
        o.data.len() % 4 == 0,
        o.data.len() < 60000,
        forall|i: int|
            0 <= i < tail.len() ==> (#[trigger] tail[i]).kind % 0x4000 != 1 && tail[i].data.len()
                < 60000,
    ensures
        ({
            let stream = stream_bytes(order, seq![o] + tail);
            let olen = 4 + o.data.len() as int;
            &&& orig_range(order, stream, 0) == Some((0int, olen))
            &&& stream.subrange(0, olen) == attr_bytes(order, o.kind, o.data)
        }),
{
    let rest = stream_bytes(order, tail);
    lemma_stream_cons(order, o, tail);
    lemma_no_range(order, tail, align4(4 + o.data.len() as int));
    lemma_range_of(order, o, rest, 0);
    lemma_attr_whole(order, o, rest);
}

proof fn lemma_connection_len(
    order: ByteOrder,
    orig: Ends,
    reply: Ends,
    nested: u16,
    more: Seq<AttrView>,
)
    requires
        orig.proto.len() <= 1000,
        reply.proto.len() <= 1000,
        stream_bytes(order, more).len() <= 100_000,
    ensures
        0 < stream_bytes(order, connection(order, orig, reply, nested, more)).len() <= 1_000_000,
{
    lemma_tuple_sizes(order, orig, nested);
    lemma_tuple_sizes(order, reply, nested);
    let o = AttrView { kind: (nested + 1) as u16, data: orig.tuple(order, nested) };
    let r = AttrView { kind: (nested + 2) as u16, data: reply.tuple(order, nested) };
    assert(connection(order, orig, reply, nested, more) =~= seq![o] + (seq![r] + more));
    lemma_stream_cons(order, o, seq![r] + more);
    lemma_stream_cons(order, r, more);
    attr_bytes_aligned(order, o.kind, o.data);
    attr_bytes_aligned(order, r.kind, r.data);
}

proof fn lemma_connection_range(
    order: ByteOrder,
    orig: Ends,
    reply: Ends,
    nested: u16,
    more: Seq<AttrView>,
)
    requires
        nested == 0 || nested == 0x8000,
        orig.proto.len() <= 1000,
        reply.proto.len() <= 1000,
        no_tuples(more),
    ensures
        ({
            let stream = stream_bytes(order, connection(order, orig, reply, nested, more));
            let olen = 4 + orig.tuple(order, nested).len() as int;
            &&& orig_range(order, stream, 0) == Some((0int, olen))
            &&& stream.subrange(0, olen) == attr_bytes(
                order,
                (nested + 1) as u16,
                orig.tuple(order, nested),
            )
        }),
{
    lemma_tuple_sizes(order, orig, nested);
    lemma_tuple_sizes(order, reply, nested);
    lemma_nested_kinds(nested);
    let o = AttrView { kind: (nested + 1) as u16, data: orig.tuple(order, nested) };
    let r = AttrView { kind: (nested + 2) as u16, data: reply.tuple(order, nested) };
    let tail = seq![r] + more;
    assert(connection(order, orig, reply, nested, more) =~= seq![o] + tail);
    assert forall|i: int| 0 <= i < tail.len() implies (#[trigger] tail[i]).kind % 0x4000 != 1
        && tail[i].data.len() < 60000 by {
        if i >= 1 {
            assert(tail[i] == more[i - 1]);
        }
    }
    lemma_orig_first(order, o, tail);
}

/// A flush deletes a connection if and only if one of its four ends, of the
/// original direction or of the reply, is one of the addresses; and it names the
/// connection by its original tuple, whole.
#[verifier::rlimit(40)]
pub proof fn which_connections_go(
    order: ByteOrder,
    flags: u16,
    seq: u32,
    orig: Ends,
    reply: Ends,
    nested: u16,
    more: Seq<AttrView>,
    ips: Seq<Ipv4Addr>,
)
    requires
        nested == 0 || nested == 0x8000,
        orig.proto.len() <= 1000,
        reply.proto.len() <= 1000,
        no_tuples(more),
        stream_bytes(order, more).len() <= 100_000,
    ensures
        verdict(
            order,
            message(
                order,
                0x100,
                flags,
                seq,
                seq![2u8, 0, 0, 0] + stream_bytes(
                    order,
                    connection(order, orig, reply, nested, more),
                ),
            ),
            seq,
            ips,
        ) == (if orig.meets(ips) || reply.meets(ips) {
            Verdict::Delete(
                attr_bytes(order, (nested + 1) as u16, orig.tuple(order, nested)),
            )
        } else {
            Verdict::Skip
        }),
{
    let stream = stream_bytes(order, connection(order, orig, reply, nested, more));
    lemma_connection_attrs(order, orig, reply, nested, more);
    lemma_connection_match(order, stream, orig, reply, nested, more, ips);
    lemma_connection_range(order, orig, reply, nested, more);
    lemma_connection_len(order, orig, reply, nested, more);
    lemma_verdict_of_new(order, flags, seq, stream, ips);
}

proof fn lemma_verdict_of_new(
    order: ByteOrder,
    flags: u16,
    seq: u32,
    stream: Seq<u8>,
    ips: Seq<Ipv4Addr>,
)
    requires
        0 < stream.len() <= 1_000_000,
    ensures
        verdict(order, message(order, 0x100, flags, seq, seq![2u8, 0, 0, 0] + stream), seq, ips)
            == (match matching_tuple(order, stream, ips) {
            Some(t) => Verdict::Delete(stream.subrange(t.0, t.1)),
            None => Verdict::Skip,
        }),
{
    reveal(message);
    reveal(verdict);
    let body = seq![2u8, 0, 0, 0] + stream;
    let msg = message(order, 0x100, flags, seq, body);
    let h = NlMsgHdr {
        nlmsg_len: ((16 + body.len()) % 0x1_0000_0000) as u32,
        nlmsg_type: 0x100,
        nlmsg_flags: flags,
        nlmsg_seq: seq,
        nlmsg_pid: 0,
    };
    header_round_trip(order, h, body);
    assert(msg == h.bytes(order) + body);
    assert(h.bytes(order).len() == 16);
    assert(msg.skip(20) =~= stream);
}

/// What is not an entry of the flush's own dump deletes nothing: the end of a dump
/// and an error of the dump itself end the flush, everything else is passed over.
pub proof fn other_messages_delete_nothing(
    order: ByteOrder,
    msg: Seq<u8>,
    dump_seq: u32,
    ips: Seq<Ipv4Addr>,
)
    ensures
        ({
            let kind = u16_at(order, msg, 4);
            let number = u32_at(order, msg, 8);
            &&& kind == 3 ==> verdict(order, msg, dump_seq, ips) is Stop
            &&& kind == 2 ==> (verdict(order, msg, dump_seq, ips) is Stop <==> number == dump_seq)
            &&& kind != 0x100 || number != dump_seq ==> !(verdict(order, msg, dump_seq, ips)
                is Delete)
            &&& kind != 2 && kind != 3 ==> !(verdict(order, msg, dump_seq, ips) is Stop)
            &&& ips.len() == 0 ==> !(verdict(order, msg, dump_seq, ips) is Delete)
        }),
{
    reveal(verdict);
    reveal(NlMsgHdr::at);
    if ips.len() == 0 {
        let s = msg.skip(20);
        assert forall|i: int| 0 <= i < attrs(order, s).len() implies !part_matches(
            order,
            #[trigger] attrs(order, s)[i],
            ips,
        ) by {
            let t = attrs(order, s)[i].data;
            assert forall|j: int| 0 <= j < attrs(order, t).len() implies !ip_part_matches(
                order,
                #[trigger] attrs(order, t)[j],
                ips,
            ) by {}
        }
    }
}

/// With more addresses, no fewer connections go.
pub proof fn more_addresses_delete_no_less(
    order: ByteOrder,
    msg: Seq<u8>,
    dump_seq: u32,
    few: Seq<Ipv4Addr>,
    many: Seq<Ipv4Addr>,
)
    requires
        forall|a: Ipv4Addr| few.contains(a) ==> #[trigger] many.contains(a),
        verdict(order, msg, dump_seq, few) is Delete,
    ensures
        verdict(order, msg, dump_seq, many) == verdict(order, msg, dump_seq, few),
{
    reveal(verdict);
    let s = msg.skip(20);
    let i = choose|i: int|
        0 <= i < attrs(order, s).len() && part_matches(order, #[trigger] attrs(order, s)[i], few);
    let t = attrs(order, s)[i].data;
    let j = choose|j: int|
        0 <= j < attrs(order, t).len() && ip_part_matches(
            order,
            #[trigger] attrs(order, t)[j],
            few,
        );
    let inner = attrs(order, attrs(order, t)[j].data);
    let k = choose|k: int| 0 <= k < inner.len() && holds_ip(#[trigger] inner[k], few);
    assert(holds_ip(inner[k], many));
    assert(ip_part_matches(order, attrs(order, t)[j], many));
    assert(part_matches(order, attrs(order, s)[i], many));
}

proof fn lemma_header_fields(order: ByteOrder, h: NlMsgHdr, rest: Seq<u8>)
    ensures
        h.bytes(order).len() == 16,
        u16_at(order, h.bytes(order) + rest, 4) == h.nlmsg_type,
        u16_at(order, h.bytes(order) + rest, 6) == h.nlmsg_flags,
        u32_at(order, h.bytes(order) + rest, 8) == h.nlmsg_seq,
        NlMsgHdr::at(order, h.bytes(order) + rest) == h,
{
    header_round_trip(order, h, rest);
    reveal(NlMsgHdr::at);
}

proof fn lemma_padded_message(order: ByteOrder, h: NlMsgHdr, body: Seq<u8>, pad: Seq<u8>, rest: Seq<u8>)
    requires
        h.bytes(order).len() == 16,
        NlMsgHdr::at(order, h.bytes(order) + (body + pad + rest)).nlmsg_len == 16 + body.len(),
        16 + body.len() + pad.len() == align4(16 + body.len() as int),
    ensures
        messages(order, h.bytes(order) + body + pad + rest) == seq![h.bytes(order) + body]
            + messages(order, rest),
{
    let msg = h.bytes(order) + body;
    let n = msg.len() as int;
    let s = msg + pad + rest;
    assert(s =~= h.bytes(order) + (body + pad + rest));
    assert(s.take(n) =~= msg);
    assert(after_message(s, n) =~= rest);
}

/// A deletion in a batch is a message of its own: it asks to delete, with the
/// given number and no answer wanted, the connection of the given tuple.
#[verifier::rlimit(40)]
pub proof fn a_deletion_names_its_connection(
    order: ByteOrder,
    seq: u32,
    tuple: Seq<u8>,
    rest: Seq<u8>,
)
    requires
        0 < tuple.len() <= 1_000_000,
    ensures
        ({
            let list = messages(order, delete_bytes(order, seq, tuple) + rest);
            &&& list.len() == 1 + messages(order, rest).len()
            &&& list.skip(1) == messages(order, rest)
            &&& list[0].len() == 20 + tuple.len()
            &&& u16_at(order, list[0], 4) == 0x102
            &&& u16_at(order, list[0], 6) == 1
            &&& u32_at(order, list[0], 8) == seq
            &&& list[0][16] == 2
            &&& list[0].skip(20) == tuple
        }),
{
    let body = nf_head().bytes(order) + tuple;
    let h = NlMsgHdr {
        nlmsg_len: ((16 + body.len()) % 0x1_0000_0000) as u32,
        nlmsg_type: 0x102,
        nlmsg_flags: 1,
        nlmsg_seq: seq,
        nlmsg_pid: 0,
    };
    let msg = h.bytes(order) + body;
    assert(msg == nf_msg(order, 0x102, 1, seq, tuple)) by {
        reveal(message);
    }
    assert(body.len() == 4 + tuple.len());
    let n = (16 + body.len()) as int;
    let pad = zeros((align4(n) - n) as nat);
    assert(delete_bytes(order, seq, tuple) == msg + pad) by {
        reveal(delete_bytes);
    }
    lemma_header_fields(order, h, body + pad + rest);
    lemma_header_fields(order, h, body);
    lemma_padded_message(order, h, body, pad, rest);
    let list = messages(order, msg + pad + rest);
    assert(list.skip(1) =~= messages(order, rest));
    assert(list[0] == msg);
    assert(msg.skip(20) =~= tuple);
    assert(nf_head().bytes(order)[0] == 2u8);
    assert(msg[16] == body[0]);
}

/// How many of some messages are entries whose connection is to go.
pub open spec fn doomed(
    order: ByteOrder,
    dump_seq: u32,
    ips: Seq<Ipv4Addr>,
    msgs: Seq<Seq<u8>>,
    from: int,
    to: int,
) -> nat
    decreases to - from,
{
    if from >= to {
        0
    } else {
        doomed(order, dump_seq, ips, msgs, from, to - 1) + (if verdict(
            order,
            msgs[to - 1],
            dump_seq,
            ips,
        ) is Delete {
            1nat
        } else {
            0nat
        })
    }
}

proof fn lemma_doomed_first(
    order: ByteOrder,
    dump_seq: u32,
    ips: Seq<Ipv4Addr>,
    msgs: Seq<Seq<u8>>,
    from: int,
    to: int,
)
    requires
        from < to,
    ensures
        doomed(order, dump_seq, ips, msgs, from, to) == doomed(
            order,
            dump_seq,
            ips,
            msgs,
            from + 1,
            to,
        ) + (if verdict(order, msgs[from], dump_seq, ips) is Delete {
            1nat
        } else {
            0nat
        }),
    decreases to - from,
{
    if from + 1 < to {
        lemma_doomed_first(order, dump_seq, ips, msgs, from, to - 1);
    } else {
        assert(doomed(order, dump_seq, ips, msgs, from, to - 1) == 0);
        assert(doomed(order, dump_seq, ips, msgs, from + 1, to) == 0);
    }
}

/// Going through a buffer, a flush counts each connection that it asks to go, once,
/// and gives each deletion the next number. It stops at the end of the dump only;
/// what has come together is sent whole, and the flush is not over while something
/// waits to be sent.
pub proof fn a_flush_counts_its_deletions(
    order: ByteOrder,
    dump_seq: u32,
    ips: Seq<Ipv4Addr>,
    msgs: Seq<Seq<u8>>,
    at: int,
    f: FlushView,
)
    requires
        0 <= at <= msgs.len(),
        f.deleted + msgs.len() - at <= usize::MAX,
        f.seq + msgs.len() - at <= u32::MAX,
    ensures
        ({
            let s = advance(order, dump_seq, ips, msgs, at, f);
            &&& at <= s.at <= msgs.len()
            &&& s.f.deleted == f.deleted + doomed(order, dump_seq, ips, msgs, at, s.at)
            &&& s.f.seq == f.seq + doomed(order, dump_seq, ips, msgs, at, s.at)
            &&& s.over ==> s.at < msgs.len() && verdict(order, msgs[s.at], dump_seq, ips) is Stop
            &&& s.step is Receive ==> s.at == msgs.len() && !s.over
            &&& s.step is Send ==> s.f.batch.len() == 0
            &&& s.step matches FlushStepView::Send(b) ==> b.len() > 0
            &&& s.step matches FlushStepView::Done(e) ==> e is None && s.over && s.f.batch.len()
                == 0
            &&& forall|k: int|
                at <= k < s.at ==> !(verdict(order, #[trigger] msgs[k], dump_seq, ips) is Stop)
        }),
    decreases msgs.len() - at,
{
    if at < msgs.len() {
        let s = advance(order, dump_seq, ips, msgs, at, f);
        match verdict(order, msgs[at], dump_seq, ips) {
            Verdict::Stop => {
                assert(doomed(order, dump_seq, ips, msgs, at, at) == 0);
            },
            Verdict::Skip => {
                a_flush_counts_its_deletions(order, dump_seq, ips, msgs, at + 1, f);
                if at < s.at {
                    lemma_doomed_first(order, dump_seq, ips, msgs, at, s.at);
                }
            },
            Verdict::Delete(tuple) => {
                let g = f.with(order, tuple);
                assert(g.seq == f.seq + 1);
                if g.batch.len() >= crate::netlink::conntrack::DELETE_BATCH_LIMIT {
                    lemma_doomed_first(order, dump_seq, ips, msgs, at, at + 1);
                    assert(doomed(order, dump_seq, ips, msgs, at + 1, at + 1) == 0);
                } else {
                    a_flush_counts_its_deletions(order, dump_seq, ips, msgs, at + 1, g);
                    lemma_doomed_first(order, dump_seq, ips, msgs, at, s.at);
                }
            },
        }
    } else {
        assert(doomed(order, dump_seq, ips, msgs, at, at) == 0);
    }
}

/// A request says what it is: its type, its flags and its number, then the fixed
/// part for IPv4, then the payload.
pub proof fn a_request_says_what_it_is(
    order: ByteOrder,
    kind: u16,
    flags: u16,
    seq: u32,
    payload: Seq<u8>,
)
    requires
        payload.len() <= 1_000_000,
    ensures
        ({
            let msg = nf_msg(order, kind, flags, seq, payload);
            &&& msg.len() == 20 + payload.len()
            &&& u32_at(order, msg, 0) == msg.len()
            &&& u16_at(order, msg, 4) == kind
            &&& u16_at(order, msg, 6) == flags
            &&& u32_at(order, msg, 8) == seq
            &&& msg.subrange(16, 20) == seq![2u8, 0, 0, 0]
            &&& msg.skip(20) == payload
        }),
{
    let head = nf_head().bytes(order);
    let body = head + payload;
    let h = NlMsgHdr {
        nlmsg_len: ((16 + body.len()) % 0x1_0000_0000) as u32,
        nlmsg_type: kind,
        nlmsg_flags: flags,
        nlmsg_seq: seq,
        nlmsg_pid: 0,
    };
    let msg = nf_msg(order, kind, flags, seq, payload);
    assert(msg == h.bytes(order) + body) by {
        reveal(message);
    }
    lemma_header_fields(order, h, body);
    assert(u32_at(order, msg, 0) == h.nlmsg_len) by {
        reveal(NlMsgHdr::at);
    }
    assert(head =~= seq![2u8, 0, 0, 0]);
    assert(msg.subrange(16, 20) =~= head);
    assert(msg.skip(20) =~= payload);
}

proof fn lemma_doomed_tuple(order: ByteOrder, msg: Seq<u8>, dump_seq: u32, ips: Seq<Ipv4Addr>)
    ensures
        verdict(order, msg, dump_seq, ips) matches Verdict::Delete(tuple) ==> 0 < tuple.len()
            <= msg.len(),
{
    reveal(verdict);
    if msg.len() > 20 {
        lemma_range_in_stream(order, msg.skip(20), 0);
    }
}

/// The deletions for a list of messages, told by the first of them. If its
/// connection is to go, the first deletion names that connection by its tuple,
/// with the next number, and those for the other messages follow; if the dump is
/// over there are none; else they are those for the other messages.
pub proof fn deletions_name_their_connections(
    order: ByteOrder,
    dump_seq: u32,
    ips: Seq<Ipv4Addr>,
    seq: u32,
    msgs: Seq<Seq<u8>>,
)
    requires
        msgs.len() > 0,
        msgs[0].len() <= 1_000_000,
        seq < u32::MAX,
    ensures
        ({
            let all = messages(order, deletions(order, dump_seq, ips, seq, msgs));
            let tail = msgs.drop_first();
            match verdict(order, msgs[0], dump_seq, ips) {
                Verdict::Stop => all.len() == 0,
                Verdict::Skip => all == messages(
                    order,
                    deletions(order, dump_seq, ips, seq, tail),
                ),
                Verdict::Delete(tuple) => {
                    &&& all.len() > 0
                    &&& all.skip(1) == messages(
                        order,
                        deletions(order, dump_seq, ips, (seq + 1) as u32, tail),
                    )
                    &&& u16_at(order, all[0], 4) == 0x102
                    &&& u16_at(order, all[0], 6) == 1
                    &&& u32_at(order, all[0], 8) == seq + 1
                    &&& all[0].skip(20) == tuple
                },
            }
        }),
{
    lemma_doomed_tuple(order, msgs[0], dump_seq, ips);
    match verdict(order, msgs[0], dump_seq, ips) {
        Verdict::Stop => {
            assert(messages(order, Seq::<u8>::empty()).len() == 0);
        },
        Verdict::Skip => {},
        Verdict::Delete(tuple) => {
            a_deletion_names_its_connection(
                order,
                (seq + 1) as u32,
                tuple,
                deletions(order, dump_seq, ips, (seq + 1) as u32, msgs.drop_first()),
            );
        },
    }
}

/// Without any message there is nothing to delete.
pub proof fn no_messages_no_deletions(order: ByteOrder, dump_seq: u32, ips: Seq<Ipv4Addr>, seq: u32)
    ensures
        deletions(order, dump_seq, ips, seq, Seq::empty()).len() == 0,
{
}

/// At the end of a dump what waits is sent whole, and the flush is over once
/// nothing waits.
pub proof fn what_waits_is_sent_at_the_end(f: FlushView, at: int)
    ensures
        wind_up(f, at).over,
        wind_up(f, at).f.batch.len() == 0,
        wind_up(f, at).f.seq == f.seq && wind_up(f, at).f.deleted == f.deleted,
        f.batch.len() > 0 ==> wind_up(f, at).step == FlushStepView::Send(f.batch),
        f.batch.len() == 0 ==> wind_up(f, at).step == FlushStepView::Done(None),
{
}

} // verus!
