//! What the kernel's answers mean, told by the bytes of the answers.
use crate::addr::Ipv4Addr;
use crate::errno::ErrorNumbers;
use crate::netlink::message::{attrs, first_attr, last_attr, AttrView};
use crate::netlink::reply::{
    ack_step, committed, default_route, default_routes, deletes, dump_progress, dumped_routes,
    gives_up, host_route, host_routes, lookup_step, makes_rule, other_routes, receipt_progress,
    receipt_routes, route_reply, rule_committed, AckStep, AckWait, DumpProgress, LookupStep,
    LookupWait, NetlinkError, Received,
};
use crate::netlink::util::{u16_at, u32_at, ByteOrder, NlMsgHdr};
use vstd::prelude::*;

verus! {

/// Whether an attribute is of a kind and has a payload of a fitting size.
pub open spec fn fits(a: AttrView, kind: u16, least: int, most: int) -> bool {
    a.kind == kind && least <= a.data.len() <= most
}

/// Of several attributes of a kind with a payload of a fitting size, the last one
/// counts.
pub proof fn the_last_attribute_counts(list: Seq<AttrView>, kind: u16, least: int, most: int)
    ensures
        match last_attr(list, kind, least, most) {
            Some(d) => exists|k: int|
                0 <= k < list.len() && (#[trigger] list[k]).data == d && fits(
                    list[k],
                    kind,
                    least,
                    most,
                ) && forall|j: int|
                    k < j < list.len() ==> !fits(#[trigger] list[j], kind, least, most),
            None => forall|k: int|
                0 <= k < list.len() ==> !fits(#[trigger] list[k], kind, least, most),
        },
    decreases list.len(),
{
    if list.len() > 0 {
        let init = list.drop_last();
        let last = list.last();
        assert(list[list.len() - 1] == last);
        if !fits(last, kind, least, most) {
            the_last_attribute_counts(init, kind, least, most);
            match last_attr(init, kind, least, most) {
                Some(d) => {
                    let k = choose|k: int|
                        0 <= k < init.len() && (#[trigger] init[k]).data == d && fits(
                            init[k],
                            kind,
                            least,
                            most,
                        ) && forall|j: int|
                            k < j < init.len() ==> !fits(#[trigger] init[j], kind, least, most);
                    assert(list[k] == init[k]);
                    assert forall|j: int| k < j < list.len() implies !fits(
                        #[trigger] list[j],
                        kind,
                        least,
                        most,
                    ) by {
                        if j < init.len() {
                            assert(init[j] == list[j]);
                        }
                    }
                },
                None => {
                    assert forall|k: int| 0 <= k < list.len() implies !fits(
                        #[trigger] list[k],
                        kind,
                        least,
                        most,
                    ) by {
                        if k < init.len() {
                            assert(init[k] == list[k]);
                        }
                    }
                },
            }
        }
    }
}

/// Where the first attribute of a kind counts, it is the first of all with that
/// kind, whatever its flags are.
pub proof fn the_first_attribute_counts(list: Seq<AttrView>, kind: u16)
    ensures
        match first_attr(list, kind) {
            Some(d) => exists|k: int|
                0 <= k < list.len() && (#[trigger] list[k]).data == d && list[k].kind % 0x4000
                    == kind && forall|j: int|
                    0 <= j < k ==> (#[trigger] list[j]).kind % 0x4000 != kind,
            None => forall|k: int| 0 <= k < list.len() ==> (#[trigger] list[k]).kind % 0x4000 != kind,
        },
    decreases list.len(),
{
    if list.len() > 0 && list[0].kind % 0x4000 != kind {
        let tail = list.drop_first();
        the_first_attribute_counts(tail, kind);
        match first_attr(tail, kind) {
            Some(d) => {
                let k = choose|k: int|
                    0 <= k < tail.len() && (#[trigger] tail[k]).data == d && tail[k].kind % 0x4000
                        == kind && forall|j: int|
                        0 <= j < k ==> (#[trigger] tail[j]).kind % 0x4000 != kind;
                assert(list[k + 1] == tail[k]);
                assert forall|j: int| 0 <= j < k + 1 implies (#[trigger] list[j]).kind % 0x4000
                    != kind by {
                    if j > 0 {
                        assert(tail[j - 1] == list[j]);
                    }
                }
            },
            None => {
                assert forall|k: int| 0 <= k < list.len() implies (#[trigger] list[k]).kind % 0x4000
                    != kind by {
                    if k > 0 {
                        assert(tail[k - 1] == list[k]);
                    }
                }
            },
        }
    }
}

/// Deleting what is not there is a success, and so is making a rule that is
/// there. Every other answer stands as it is: no refusal is passed over, and no
/// success is made a failure.
pub proof fn what_an_answer_comes_to(delete: bool, reply: Result<(), NetlinkError>)
    ensures
        reply is Ok ==> committed(delete, reply) is Ok && rule_committed(delete, reply) is Ok,
        reply matches Err(e) ==> {
            let gone = e == NetlinkError::Os(2) || e == NetlinkError::Os(3) || e
                == NetlinkError::Os(22);
            let there = e == NetlinkError::Os(17);
            &&& committed(delete, reply) is Ok <==> delete && gone
            &&& rule_committed(delete, reply) is Ok <==> (delete && gone) || there
            &&& committed(delete, reply) is Err ==> committed(delete, reply) == reply
            &&& rule_committed(delete, reply) is Err ==> rule_committed(delete, reply) == reply
        },
{
}

/// What a message does is told by its type: routes, rules and nexthop objects can
/// be deleted, and rules made.
pub proof fn what_a_message_does(order: ByteOrder, msg: Seq<u8>)
    requires
        msg.len() >= 16,
    ensures
        deletes(order, msg) <==> (u16_at(order, msg, 4) == 25 || u16_at(order, msg, 4) == 33
            || u16_at(order, msg, 4) == 105),
        makes_rule(order, msg) <==> u16_at(order, msg, 4) == 32,
{
}

/// Resilient groups are given up on for the refusals that say that they cannot
/// work, and for too many ways out; a passing trouble is no reason.
pub proof fn when_groups_are_given_up(numbers: ErrorNumbers, e: NetlinkError)
    ensures
        gives_up(numbers, e) <==> {
            ||| e == NetlinkError::Os(22)
            ||| e == NetlinkError::Os(numbers.eopnotsupp)
            ||| e == NetlinkError::Os(numbers.enosys)
            ||| e == NetlinkError::Os(numbers.eafnosupport)
            ||| e == NetlinkError::Recv(22)
            ||| e is TooManyNexthops
        },
{
}

/// What an answer says of a request. An answer to another request says nothing.
/// One to this request is a success unless it is an error message with a number
/// other than zero; the kernel sends the error number with a minus sign.
pub proof fn what_an_acknowledgement_says(order: ByteOrder, buf: Seq<u8>, seq: u32)
    ensures
        ({
            let step = ack_step(order, buf, seq);
            let kind = u16_at(order, buf, 4);
            let number = u32_at(order, buf, 8);
            let code = u32_at(order, buf, 16);
            &&& buf.len() < 16 ==> step == AckStep::Over(Err(NetlinkError::Truncated))
            &&& buf.len() >= 16 && number != seq <==> step is Stale
            &&& buf.len() >= 16 && number == seq && kind != 2 ==> step == AckStep::Over(Ok(()))
            &&& 16 <= buf.len() < 20 && number == seq && kind == 2 ==> step == AckStep::Over(
                Err(NetlinkError::ErrorTruncated),
            )
            &&& buf.len() >= 20 && number == seq && kind == 2 ==> {
                &&& code == 0 ==> step == AckStep::Over(Ok(()))
                &&& code != 0 ==> (step matches AckStep::Over(Err(NetlinkError::Os(e))) && (
                code > 0x8000_0000 ==> e == 0x1_0000_0000 - code))
            }
        }),
{
    reveal(NlMsgHdr::at);
}

/// What one receipt does to waiting for an answer. An answer to this request ends
/// it; a failed receipt ends it with its own error; an interruption or an answer
/// to another request is passed over, up to the last try.
pub proof fn how_long_an_answer_is_waited_for(
    order: ByteOrder,
    seq: u32,
    left: usize,
    ev: Received,
)
    requires
        left >= 1,
    ensures
        ({
            let r = AckWait::outcome(order, seq, left, ev);
            let other = ev is Interrupted || (ev matches Received::Bytes(b) && ack_step(
                order,
                b@,
                seq,
            ) is Stale);
            &&& ev matches Received::Failed(e) ==> r == Some(
                Err::<(), NetlinkError>(NetlinkError::Recv(e)),
            )
            &&& other && left > 1 ==> r is None
            &&& other && left == 1 ==> r == Some(Err::<(), NetlinkError>(NetlinkError::NoAck))
            &&& ev matches Received::Bytes(b) ==> (ack_step(order, b@, seq) matches AckStep::Over(
                res,
            ) ==> r == Some(res))
        }),
{
}

/// What an answer says of a lookup: nothing, if it is not whole or belongs to
/// another request; what the route is, if it is a route; and else that there is
/// none.
pub proof fn what_a_lookup_finds(order: ByteOrder, buf: Seq<u8>, seq: u32)
    ensures
        ({
            let step = lookup_step(order, buf, seq);
            let mine = buf.len() >= 16 && u32_at(order, buf, 8) == seq;
            &&& step is Skip <==> !mine
            &&& mine && u16_at(order, buf, 4) == 24 ==> step == LookupStep::Found(
                route_reply(order, buf),
            )
            &&& mine && u16_at(order, buf, 4) != 24 ==> step == LookupStep::Found(None)
        }),
{
    reveal(NlMsgHdr::at);
}

/// The same of waiting for the answer to a lookup.
pub proof fn how_long_a_lookup_is_waited_for(
    order: ByteOrder,
    seq: u32,
    left: usize,
    ev: Received,
)
    requires
        left >= 1,
    ensures
        ({
            let r = LookupWait::outcome(order, seq, left, ev);
            let other = ev is Interrupted || (ev matches Received::Bytes(b) && lookup_step(
                order,
                b@,
                seq,
            ) is Skip);
            &&& ev matches Received::Failed(e) ==> (r matches Some(Err(x)) && x
                == NetlinkError::Os(e))
            &&& other && left > 1 ==> r is None
            &&& other && left == 1 ==> (r matches Some(Err(x)) && x == NetlinkError::NoReply)
            &&& ev matches Received::Bytes(b) ==> (lookup_step(order, b@, seq)
                matches LookupStep::Found(route) ==> r == Some(
                Ok::<_, NetlinkError>(route),
            ))
        }),
{
}

/// Whether a message ends a dump.
pub open spec fn ends_dump(order: ByteOrder, msg: Seq<u8>) -> bool {
    u16_at(order, msg, 4) == 3
}

/// Whether a message is a route of a dump.
pub open spec fn tells_of_route(order: ByteOrder, msg: Seq<u8>, seq: u32) -> bool {
    u16_at(order, msg, 4) == 24 && u32_at(order, msg, 8) == seq
}

/// Whether some messages neither end a dump nor break it off.
pub open spec fn goes_on(order: ByteOrder, msgs: Seq<Seq<u8>>, seq: u32) -> bool {
    forall|k: int|
        0 <= k < msgs.len() ==> !ends_dump(order, #[trigger] msgs[k]) && (tells_of_route(
            order,
            msgs[k],
            seq,
        ) ==> msgs[k].len() > 20)
}

pub open spec fn route_filter(order: ByteOrder, seq: u32) -> spec_fn(Seq<u8>) -> bool {
    |msg: Seq<u8>| tells_of_route(order, msg, seq)
}

/// A dump goes on up to its end, or up to a route that is too short, and yields
/// all its routes up to there, in order; what comes behind does not count.
pub proof fn a_dump_yields_its_routes(
    order: ByteOrder,
    msgs: Seq<Seq<u8>>,
    behind: Seq<Seq<u8>>,
    seq: u32,
)
    requires
        goes_on(order, msgs, seq),
    ensures
        ({
            let found = msgs.filter(route_filter(order, seq));
            &&& behind.len() == 0 ==> dumped_routes(order, msgs + behind, seq) == found
                && dump_progress(order, msgs + behind, seq) == DumpProgress::More
            &&& behind.len() > 0 && ends_dump(order, behind[0]) ==> dumped_routes(
                order,
                msgs + behind,
                seq,
            ) == found && dump_progress(order, msgs + behind, seq) == DumpProgress::Done
            &&& behind.len() > 0 && !ends_dump(order, behind[0]) && tells_of_route(
                order,
                behind[0],
                seq,
            ) && behind[0].len() <= 20 ==> dumped_routes(order, msgs + behind, seq) == found
                && dump_progress(order, msgs + behind, seq) == DumpProgress::Malformed
        }),
    decreases msgs.len(),
{
    reveal(NlMsgHdr::at);
    let f = route_filter(order, seq);
    let all = msgs + behind;
    if msgs.len() == 0 {
        assert(all =~= behind);
        reveal(Seq::filter);
        assert(msgs.filter(f) =~= Seq::empty());
    } else {
        let tail = msgs.drop_first();
        assert forall|k: int| 0 <= k < tail.len() implies !ends_dump(order, #[trigger] tail[k]) && (
        tells_of_route(order, tail[k], seq) ==> tail[k].len() > 20) by {
            assert(tail[k] == msgs[k + 1]);
        }
        a_dump_yields_its_routes(order, tail, behind, seq);
        assert(all.drop_first() =~= tail + behind);
        assert(all[0] == msgs[0]);
        let one = seq![msgs[0]];
        assert(msgs =~= one + tail);
        Seq::filter_distributes_over_add(one, tail, f);
        lemma_filter_one(msgs[0], f);
        if f(msgs[0]) {
        } else {
            assert(Seq::<Seq<u8>>::empty() + tail.filter(f) =~= tail.filter(f));
        }
    }
}

proof fn lemma_filter_one(x: Seq<u8>, f: spec_fn(Seq<u8>) -> bool)
    ensures
        seq![x].filter(f) == (if f(x) {
            seq![x]
        } else {
            Seq::empty()
        }),
{
    reveal(Seq::filter);
    let s = seq![x];
    assert(s.drop_last() =~= Seq::empty());
    assert(s.drop_last().filter(f) =~= Seq::empty());
    if f(x) {
        assert(s.filter(f) =~= seq![x]);
    } else {
        assert(s.filter(f) =~= Seq::empty());
    }
}

/// An interruption brings a dump no further and loses nothing of it; a failed
/// receipt ends it with its error.
pub proof fn what_a_receipt_brings(order: ByteOrder, ev: Received, seq: u32)
    ensures
        ev is Interrupted ==> receipt_progress(order, ev, seq) == DumpProgress::More,
        ev matches Received::Failed(e) ==> receipt_progress(order, ev, seq) == DumpProgress::Failed(
            e,
        ),
        !(ev is Bytes) ==> receipt_routes(order, ev, seq).len() == 0,
{
}

/// Whether a route message is about the main table: the table attribute says so,
/// or the field of the fixed part if there is none.
pub open spec fn in_main_table(order: ByteOrder, msg: Seq<u8>) -> bool {
    match last_attr(attrs(order, msg.skip(28)), 15, 4, 65535) {
        Some(d) => u32_at(order, d, 0) == 254,
        None => msg[20] == 254,
    }
}

/// The metric of a route message; none if it has no metric attribute.
pub open spec fn metric_in(order: ByteOrder, msg: Seq<u8>) -> Option<u32> {
    match last_attr(attrs(order, msg.skip(28)), 6, 0, 65535) {
        Some(d) => if d.len() >= 4 {
            Some(u32_at(order, d, 0))
        } else {
            None
        },
        None => None,
    }
}

/// What a route message says: the interface and the table are numbers, the gateway
/// is an IPv4 address, each by its own attribute; without a table attribute the
/// fixed part counts.
pub proof fn what_a_route_says(order: ByteOrder, msg: Seq<u8>)
    ensures
        msg.len() < 28 <==> route_reply(order, msg) is None,
        route_reply(order, msg) matches Some(r) ==> {
            let list = attrs(order, msg.skip(28));
            &&& r.ifindex == (match last_attr(list, 4, 0, 65535) {
                Some(d) if d.len() >= 4 => Some(u32_at(order, d, 0)),
                _ => None,
            })
            &&& r.gateway == (match last_attr(list, 5, 4, 4) {
                Some(d) => Some(Ipv4Addr { a: d[0], b: d[1], c: d[2], d: d[3] }),
                None => None,
            })
            &&& r.table == (match last_attr(list, 15, 4, 65535) {
                Some(d) => u32_at(order, d, 0),
                None => msg[20] as u32,
            })
        },
{
    the_last_attribute_counts(attrs(order, msg.skip(28)), 15, 4, 65535);
}

/// Which dumped messages are host routes of ours: those of the main table to a
/// whole IPv4 address, with our metric.
pub proof fn which_host_routes_are_ours(order: ByteOrder, msg: Seq<u8>, metric: u32)
    requires
        msg.len() >= 28,
    ensures
        match host_route(order, msg, metric) {
            Some((table, dst, len)) => {
                &&& table == 254 && len == 32 && msg[17] == 32
                &&& in_main_table(order, msg)
                &&& metric_in(order, msg) == Some(metric)
                &&& last_attr(attrs(order, msg.skip(28)), 1, 4, 4) matches Some(d) && d[0] == dst.a
                    && d[1] == dst.b && d[2] == dst.c && d[3] == dst.d
            },
            None => msg[17] != 32 || !in_main_table(order, msg) || metric_in(order, msg) != Some(
                metric,
            ) || last_attr(attrs(order, msg.skip(28)), 1, 4, 4) is None,
        },
{
    the_last_attribute_counts(attrs(order, msg.skip(28)), 15, 4, 65535);
}

/// Which dumped messages are default routes: those of the main table without a
/// destination. A missing metric is zero.
pub proof fn which_routes_are_default(order: ByteOrder, msg: Seq<u8>)
    requires
        msg.len() >= 28,
    ensures
        match default_route(order, msg) {
            Some((table, metric)) => {
                &&& table == 254 && msg[17] == 0 && in_main_table(order, msg)
                &&& match metric_in(order, msg) {
                    Some(m) => metric == m,
                    None => metric == 0,
                }
            },
            None => msg[17] != 0 || !in_main_table(order, msg),
        },
{
    the_last_attribute_counts(attrs(order, msg.skip(28)), 15, 4, 65535);
}

/// Every host route of ours in a dump is listed, and nothing else is.
pub proof fn every_host_route_is_listed(order: ByteOrder, msgs: Seq<Seq<u8>>, metric: u32)
    ensures
        forall|h: (u32, Ipv4Addr, u8)| #[trigger]
            host_routes(order, msgs, metric).contains(h) <==> exists|k: int|
                0 <= k < msgs.len() && host_route(order, #[trigger] msgs[k], metric) == Some(h),
    decreases msgs.len(),
{
    let all = host_routes(order, msgs, metric);
    if msgs.len() > 0 {
        let init = msgs.drop_last();
        every_host_route_is_listed(order, init, metric);
        let rest = host_routes(order, init, metric);
        assert(msgs[msgs.len() - 1] == msgs.last());
        assert forall|h: (u32, Ipv4Addr, u8)| #[trigger] all.contains(h) <==> exists|k: int|
            0 <= k < msgs.len() && host_route(order, #[trigger] msgs[k], metric) == Some(h) by {
            assert(rest.contains(h) <==> exists|k: int|
                0 <= k < init.len() && host_route(order, #[trigger] init[k], metric) == Some(h));
            if all.contains(h) {
                let i = choose|i: int| 0 <= i < all.len() && all[i] == h;
                if i < rest.len() {
                    assert(rest[i] == h);
                    let k = choose|k: int|
                        0 <= k < init.len() && host_route(order, #[trigger] init[k], metric)
                            == Some(h);
                    assert(msgs[k] == init[k]);
                }
            }
            if exists|k: int|
                0 <= k < msgs.len() && host_route(order, #[trigger] msgs[k], metric) == Some(h) {
                let k = choose|k: int|
                    0 <= k < msgs.len() && host_route(order, #[trigger] msgs[k], metric) == Some(h);
                if k < init.len() {
                    assert(init[k] == msgs[k]);
                    assert(rest.contains(h));
                    let i = choose|i: int| 0 <= i < rest.len() && rest[i] == h;
                    assert(all[i] == h);
                } else {
                    assert(all[rest.len() as int] == h);
                }
            }
        }
    }
}

/// Every default route in a dump is listed, and nothing else is.
pub proof fn every_default_route_is_listed(order: ByteOrder, msgs: Seq<Seq<u8>>)
    ensures
        forall|h: (u32, u32)| #[trigger]
            default_routes(order, msgs).contains(h) <==> exists|k: int|
                0 <= k < msgs.len() && default_route(order, #[trigger] msgs[k]) == Some(h),
    decreases msgs.len(),
{
    let all = default_routes(order, msgs);
    if msgs.len() > 0 {
        let init = msgs.drop_last();
        every_default_route_is_listed(order, init);
        let rest = default_routes(order, init);
        assert(msgs[msgs.len() - 1] == msgs.last());
        assert forall|h: (u32, u32)| #[trigger] all.contains(h) <==> exists|k: int|
            0 <= k < msgs.len() && default_route(order, #[trigger] msgs[k]) == Some(h) by {
            assert(rest.contains(h) <==> exists|k: int|
                0 <= k < init.len() && default_route(order, #[trigger] init[k]) == Some(h));
            if all.contains(h) {
                let i = choose|i: int| 0 <= i < all.len() && all[i] == h;
                if i < rest.len() {
                    assert(rest[i] == h);
                    let k = choose|k: int|
                        0 <= k < init.len() && default_route(order, #[trigger] init[k]) == Some(h);
                    assert(msgs[k] == init[k]);
                }
            }
            if exists|k: int|
                0 <= k < msgs.len() && default_route(order, #[trigger] msgs[k]) == Some(h) {
                let k = choose|k: int|
                    0 <= k < msgs.len() && default_route(order, #[trigger] msgs[k]) == Some(h);
                if k < init.len() {
                    assert(init[k] == msgs[k]);
                    assert(rest.contains(h));
                    let i = choose|i: int| 0 <= i < rest.len() && rest[i] == h;
                    assert(all[i] == h);
                } else {
                    assert(all[rest.len() as int] == h);
                }
            }
        }
    }
}

/// A default route is someone else's if and only if its metric is not ours.
pub proof fn whose_default_route_it_is(routes: Seq<(u32, u32)>, ours: u32)
    ensures
        forall|r: (u32, u32)| #[trigger]
            other_routes(routes, ours).contains(r) <==> routes.contains(r) && r.1 != ours,
        other_routes(routes, ours).len() == 0 <==> forall|k: int|
            0 <= k < routes.len() ==> (#[trigger] routes[k]).1 == ours,
    decreases routes.len(),
{
    reveal(Seq::filter);
    let all = other_routes(routes, ours);
    if routes.len() > 0 {
        let init = routes.drop_last();
        whose_default_route_it_is(init, ours);
        let rest = other_routes(init, ours);
        let last = routes.last();
        assert(routes[routes.len() - 1] == last);
        assert forall|r: (u32, u32)| #[trigger] all.contains(r) <==> routes.contains(r) && r.1
            != ours by {
            assert(rest.contains(r) <==> init.contains(r) && r.1 != ours);
            if init.contains(r) {
                let k = choose|k: int| 0 <= k < init.len() && init[k] == r;
                assert(routes[k] == r);
            }
            if routes.contains(r) {
                let k = choose|k: int| 0 <= k < routes.len() && routes[k] == r;
                if k < init.len() {
                    assert(init[k] == r);
                }
            }
            if rest.contains(r) {
                let k = choose|k: int| 0 <= k < rest.len() && rest[k] == r;
                assert(all[k] == r);
            }
            if all.contains(r) {
                let k = choose|k: int| 0 <= k < all.len() && all[k] == r;
                if k < rest.len() {
                    assert(rest[k] == r);
                }
            }
            if last.1 != ours {
                assert(all[all.len() - 1] == last);
            }
        }
        if all.len() > 0 {
            assert(all.contains(all[0]));
            let k = choose|k: int| 0 <= k < routes.len() && routes[k] == all[0];
            assert(routes[k].1 != ours);
        } else {
            assert forall|k: int| 0 <= k < routes.len() implies (#[trigger] routes[k]).1 == ours by {
                if routes[k].1 != ours {
                    assert(routes.contains(routes[k]));
                    assert(all.contains(routes[k]));
                }
            }
        }
    }
}

} // verus!
