//! What the kernel's news of interfaces say, told by the bytes of the messages.
use crate::netlink::link::{carrier_flags, event_at, has_carrier, link_events, link_name, LinkEventView};
use crate::netlink::message::{
    after_message, attrs, first_attr, message, stream_bytes, stream_round_trip,
    AttrView,
};
use crate::netlink::text::{explanation, extack, text_of, until_nul};
use crate::netlink::util::{
    header_round_trip, u16_at, u32_at, u32_bytes, u32_round_trip, ByteOrder, NlMsgHdr,
};
use vstd::prelude::*;

verus! {

/// A name ends before its first zero byte: what is left is a start of the bytes,
/// without a zero, and either all of them or followed by one.
pub proof fn texts_end_at_zero(data: Seq<u8>)
    ensures
        ({
            let t = until_nul(data);
            &&& t.len() <= data.len()
            &&& t == data.take(t.len() as int)
            &&& forall|i: int| 0 <= i < t.len() ==> #[trigger] t[i] != 0
            &&& t.len() < data.len() ==> data[t.len() as int] == 0
        }),
    decreases data.len(),
{
    if data.len() > 0 && data[0] != 0 {
        let tail = data.drop_first();
        texts_end_at_zero(tail);
        let t = until_nul(data);
        let u = until_nul(tail);
        assert(t == seq![data[0]] + u);
        assert forall|i: int| 0 <= i < t.len() implies #[trigger] t[i] != 0 && t[i] == data[i] by {
            if i > 0 {
                assert(t[i] == u[i - 1]);
                assert(u[i - 1] == tail.take(u.len() as int)[i - 1]);
                assert(tail[i - 1] == data[i]);
            }
        }
        assert(t =~= data.take(t.len() as int));
        if t.len() < data.len() {
            assert(tail[u.len() as int] == data[t.len() as int]);
        }
    } else {
        assert(until_nul(data) =~= data.take(0));
    }
}

/// What the message at the start of a buffer tells of: the coming, the going or a
/// change of a link, or that of an address, at the interface that the message
/// names. Only a link that is there, with both flags set, has a carrier.
pub proof fn what_a_message_tells(order: ByteOrder, s: Seq<u8>)
    ensures
        ({
            let kind = u16_at(order, s, 4);
            let index = u32_at(order, s, 20);
            let flags = u32_at(order, s, 24);
            &&& s.len() < 24 ==> event_at(order, s) is None
            &&& s.len() >= 24 && (kind == 16 || kind == 17) ==> (event_at(order, s) matches Some(
                LinkEventView::Link { ifindex, ifname, carrier_up },
            ) && ifindex == index && ifname == link_name(
                order,
                s,
                u32_at(order, s, 0) as int,
            ) && (carrier_up <==> kind == 16 && s.len() >= 28 && flags & 1 != 0 && flags & 0x40
                != 0))
            &&& s.len() >= 24 && (kind == 20 || kind == 21) ==> event_at(order, s) == Some(
                LinkEventView::Address { ifindex: index },
            )
            &&& kind != 16 && kind != 17 && kind != 20 && kind != 21 ==> event_at(order, s) is None
        }),
{
    reveal(event_at);
    reveal(NlMsgHdr::at);
    carrier_flags(u32_at(order, s, 24));
}

/// The news in a buffer are those of its messages, one after the other: that of
/// the first one, if it tells of any, and those of what follows.
pub proof fn news_come_in_order(order: ByteOrder, s: Seq<u8>)
    requires
        s.len() >= 16,
        16 <= u32_at(order, s, 0) <= s.len(),
    ensures
        ({
            let rest = link_events(order, after_message(s, u32_at(order, s, 0) as int));
            link_events(order, s) == (match event_at(order, s) {
                Some(e) => seq![e] + rest,
                None => rest,
            })
        }),
{
    reveal(NlMsgHdr::at);
    let rest = link_events(order, after_message(s, u32_at(order, s, 0) as int));
    assert(Seq::<LinkEventView>::empty() + rest =~= rest);
}

/// A buffer without a whole message tells of nothing.
pub proof fn no_message_no_news(order: ByteOrder, s: Seq<u8>)
    requires
        s.len() < 16 || u32_at(order, s, 0) < 16 || u32_at(order, s, 0) > s.len(),
    ensures
        link_events(order, s).len() == 0,
{
    reveal(NlMsgHdr::at);
}

/// A link message as the kernel sends it: the interface's index, its flags, and
/// its name among other attributes.
pub open spec fn link_message(
    order: ByteOrder,
    kind: u16,
    seq: u32,
    head: Seq<u8>,
    index: u32,
    flags: u32,
    change: u32,
    list: Seq<AttrView>,
) -> Seq<u8> {
    message(
        order,
        kind,
        0,
        seq,
        head + u32_bytes(order, index) + u32_bytes(order, flags) + u32_bytes(order, change)
            + stream_bytes(order, list),
    )
}

/// The name of an interface reaches the reader: of a link message the event has
/// the text of the first name attribute, up to its first zero byte.
pub proof fn names_reach_the_reader(
    order: ByteOrder,
    kind: u16,
    seq: u32,
    head: Seq<u8>,
    index: u32,
    flags: u32,
    change: u32,
    list: Seq<AttrView>,
)
    requires
        kind == 16 || kind == 17,
        head.len() == 4,
        forall|i: int| 0 <= i < list.len() ==> 4 + (#[trigger] list[i]).data.len() < 65536,
        stream_bytes(order, list).len() <= 1_000_000,
    ensures
        event_at(order, link_message(order, kind, seq, head, index, flags, change, list)) == Some(
            LinkEventView::Link {
                ifindex: index,
                ifname: match first_attr(list, 3) {
                    Some(d) => Some(text_of(until_nul(d))),
                    None => None,
                },
                carrier_up: kind == 16 && has_carrier(flags),
            },
        ),
{
    let stream = stream_bytes(order, list);
    let body = head + u32_bytes(order, index) + u32_bytes(order, flags) + u32_bytes(order, change)
        + stream;
    let msg = link_message(order, kind, seq, head, index, flags, change, list);
    let h = NlMsgHdr {
        nlmsg_len: ((16 + body.len()) % 0x1_0000_0000) as u32,
        nlmsg_type: kind,
        nlmsg_flags: 0,
        nlmsg_seq: seq,
        nlmsg_pid: 0,
    };
    assert(msg == h.bytes(order) + body) by {
        reveal(message);
    }
    header_round_trip(order, h, body);
    stream_round_trip(order, list);
    lemma_link_parts(order, h.bytes(order), head, index, flags, change, stream);
    lemma_event_of(order, msg, h, stream, index, flags);
}

proof fn lemma_link_parts(
    order: ByteOrder,
    hb: Seq<u8>,
    head: Seq<u8>,
    index: u32,
    flags: u32,
    change: u32,
    stream: Seq<u8>,
)
    requires
        hb.len() == 16,
        head.len() == 4,
    ensures
        ({
            let msg = hb + (head + u32_bytes(order, index) + u32_bytes(order, flags) + u32_bytes(
                order,
                change,
            ) + stream);
            &&& msg.len() == 32 + stream.len()
            &&& u32_at(order, msg, 20) == index
            &&& u32_at(order, msg, 24) == flags
            &&& msg.subrange(32, msg.len() as int) == stream
        }),
{
    u32_round_trip(order, index);
    u32_round_trip(order, flags);
    let a = u32_bytes(order, index);
    let b = u32_bytes(order, flags);
    let c = u32_bytes(order, change);
    let msg = hb + (head + a + b + c + stream);
    assert(a.len() == 4 && b.len() == 4 && c.len() == 4);
    assert(msg[20] == a[0] && msg[21] == a[1] && msg[22] == a[2] && msg[23] == a[3]);
    assert(msg[24] == b[0] && msg[25] == b[1] && msg[26] == b[2] && msg[27] == b[3]);
    assert(u32_at(order, msg, 20) == u32_at(order, a, 0));
    assert(u32_at(order, msg, 24) == u32_at(order, b, 0));
    assert(msg.subrange(32, msg.len() as int) =~= stream);
}

proof fn lemma_event_of(
    order: ByteOrder,
    msg: Seq<u8>,
    h: NlMsgHdr,
    stream: Seq<u8>,
    index: u32,
    flags: u32,
)
    requires
        msg.len() == 32 + stream.len(),
        msg.len() <= u32::MAX,
        NlMsgHdr::at(order, msg) == h,
        h.nlmsg_len == msg.len(),
        h.nlmsg_type == 16 || h.nlmsg_type == 17,
        u32_at(order, msg, 20) == index,
        u32_at(order, msg, 24) == flags,
        msg.subrange(32, msg.len() as int) == stream,
    ensures
        event_at(order, msg) == Some(
            LinkEventView::Link {
                ifindex: index,
                ifname: match first_attr(attrs(order, stream), 3) {
                    Some(d) => Some(text_of(until_nul(d))),
                    None => None,
                },
                carrier_up: h.nlmsg_type == 16 && has_carrier(flags),
            },
        ),
{
    reveal(event_at);
}

/// The kernel's explanation of a refusal is the first one that is not empty, up to
/// its first zero byte.
pub proof fn the_first_explanation_counts(list: Seq<AttrView>)
    ensures
        match explanation(list) {
            Some(t) => exists|k: int|
                0 <= k < list.len() && (#[trigger] list[k]).kind % 0x4000 == 1 && t == until_nul(
                    list[k].data,
                ) && t.len() > 0 && forall|j: int|
                    0 <= j < k ==> (#[trigger] list[j]).kind % 0x4000 != 1 || until_nul(
                        list[j].data,
                    ).len() == 0,
            None => forall|k: int|
                0 <= k < list.len() ==> (#[trigger] list[k]).kind % 0x4000 != 1 || until_nul(
                    list[k].data,
                ).len() == 0,
        },
    decreases list.len(),
{
    if list.len() > 0 {
        let tail = list.drop_first();
        the_first_explanation_counts(tail);
        if list[0].kind % 0x4000 == 1 && until_nul(list[0].data).len() > 0 {
            assert(list[0].kind % 0x4000 == 1);
        } else {
            match explanation(tail) {
                Some(t) => {
                    let k = choose|k: int|
                        0 <= k < tail.len() && (#[trigger] tail[k]).kind % 0x4000 == 1 && t
                            == until_nul(tail[k].data) && t.len() > 0 && forall|j: int|
                            0 <= j < k ==> (#[trigger] tail[j]).kind % 0x4000 != 1 || until_nul(
                                tail[j].data,
                            ).len() == 0;
                    assert(list[k + 1] == tail[k]);
                    assert forall|j: int| 0 <= j < k + 1 implies (#[trigger] list[j]).kind % 0x4000
                        != 1 || until_nul(list[j].data).len() == 0 by {
                        if j > 0 {
                            assert(tail[j - 1] == list[j]);
                        }
                    }
                },
                None => {
                    assert forall|k: int| 0 <= k < list.len() implies (
                    #[trigger] list[k]).kind % 0x4000 != 1 || until_nul(list[k].data).len()
                        == 0 by {
                        if k > 0 {
                            assert(tail[k - 1] == list[k]);
                        }
                    }
                },
            }
        }
    }
}

/// The explanation of a refusal stands behind the error number and the header of
/// the refused request.
pub proof fn where_an_explanation_stands(order: ByteOrder, msg: Seq<u8>)
    ensures
        msg.len() < 20 ==> extack(order, msg) is None,
        msg.len() >= 36 ==> extack(order, msg) == explanation(attrs(order, msg.skip(36))),
        20 <= msg.len() < 36 ==> extack(order, msg) == explanation(attrs(order, msg.skip(20))),
{
}

} // verus!
