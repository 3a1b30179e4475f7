//! Messages and attribute streams: a header, a fixed part, and the
//! type-length-value records that follow it.
use crate::netlink::util::{align4, append_bytes, copy_bytes, header_round_trip, nlmsg_align,
    read_u16, rta_align, sub_bytes, u16_at, u16_bytes, u16_round_trip, u16_to_bytes, zeros,
    ByteOrder, NlMsgHdr};
use vstd::prelude::*;

verus! {

/// Length of an attribute's own header.
pub const ATTR_HDR_LEN: usize = 4;

/// The bits of an attribute's type that name its kind; the two bits above are flags.
pub const ATTR_KIND_BITS: u16 = 0x4000;

/// One attribute: its type field as it stands in the message, and its payload.
pub struct Attr {
    pub kind: u16,
    pub data: Vec<u8>,
}

/// One attribute as a mathematical value.
pub ghost struct AttrView {
    pub kind: u16,
    pub data: Seq<u8>,
}

impl View for Attr {
    type V = AttrView;

    open spec fn view(&self) -> AttrView {
        AttrView { kind: self.kind, data: self.data@ }
    }
}

/// The attributes of a list, as mathematical values.
pub open spec fn attr_views(list: Seq<Attr>) -> Seq<AttrView> {
    Seq::new(list.len(), |i: int| list[i]@)
}

/// An attribute in a message: length, type, payload, and zeros up to a multiple
/// of four. The length field holds the low sixteen bits of the true length.
pub open spec fn attr_bytes(order: ByteOrder, kind: u16, data: Seq<u8>) -> Seq<u8> {
    u16_bytes(order, ((4 + data.len()) % 65536) as u16) + u16_bytes(order, kind) + data + zeros(
        (align4((4 + data.len()) as int) - (4 + data.len())) as nat,
    )
}

/// A whole stream, one attribute after the other.
pub open spec fn stream_bytes(order: ByteOrder, list: Seq<AttrView>) -> Seq<u8>
    decreases list.len(),
{
    if list.len() == 0 {
        Seq::empty()
    } else {
        attr_bytes(order, list[0].kind, list[0].data) + stream_bytes(order, list.drop_first())
    }
}

/// What is left of `s` after an attribute of length `len` at its start.
pub open spec fn after_attr(s: Seq<u8>, len: int) -> Seq<u8> {
    if align4(len) >= s.len() {
        Seq::empty()
    } else {
        s.skip(align4(len))
    }
}

/// The attributes of the stream `s`. The stream ends where no header fits any
/// more, or at an attribute whose length field cannot be right.
pub open spec fn attrs(order: ByteOrder, s: Seq<u8>) -> Seq<AttrView>
    decreases s.len(),
{
    if s.len() < 4 {
        Seq::empty()
    } else {
        let len = u16_at(order, s, 0) as int;
        if len < 4 || len > s.len() {
            Seq::empty()
        } else {
            seq![AttrView { kind: u16_at(order, s, 2), data: s.subrange(4, len) }] + attrs(
                order,
                after_attr(s, len),
            )
        }
    }
}

/// The payload of the last attribute of type `kind` whose payload has between
/// `least` and `most` bytes.
pub open spec fn last_attr(list: Seq<AttrView>, kind: u16, least: int, most: int) -> Option<
    Seq<u8>,
>
    decreases list.len(),
{
    if list.len() == 0 {
        None
    } else if list.last().kind == kind && least <= list.last().data.len() <= most {
        Some(list.last().data)
    } else {
        last_attr(list.drop_last(), kind, least, most)
    }
}

/// The payload of the first attribute whose kind, flags aside, is `kind`.
pub open spec fn first_attr(list: Seq<AttrView>, kind: u16) -> Option<Seq<u8>>
    decreases list.len(),
{
    if list.len() == 0 {
        None
    } else if list[0].kind % ATTR_KIND_BITS == kind {
        Some(list[0].data)
    } else {
        first_attr(list.drop_first(), kind)
    }
}

/// Appends an attribute to a message.
pub fn append_attr(order: ByteOrder, buf: &mut Vec<u8>, kind: u16, data: &[u8])
    requires
        data@.len() + 7 <= usize::MAX,
    ensures
        final(buf)@ == old(buf)@ + attr_bytes(order, kind, data@),
{
    let total_len: usize = ATTR_HDR_LEN + data.len();
    let aligned_len: usize = rta_align(total_len);
    append_bytes(buf, &u16_to_bytes(order, (total_len % 65536) as u16));
    append_bytes(buf, &u16_to_bytes(order, kind));
    append_bytes(buf, data);
    let mut pad: usize = 0;
    let ghost head = buf@;
    while pad < aligned_len - total_len
        invariant
            pad <= aligned_len - total_len,
            buf@ == head + zeros(pad as nat),
        decreases aligned_len - total_len - pad,
    {
        buf.push(0);
        pad += 1;
        assert(buf@ =~= head + zeros(pad as nat));
    }
    assert(buf@ =~= old(buf)@ + attr_bytes(order, kind, data@));
}

/// Decodes the attribute stream that starts at `off` and ends at `len`.
pub fn parse_attrs(order: ByteOrder, buf: &[u8], off: usize, len: usize) -> (r: Vec<Attr>)
    requires
        off <= len <= buf@.len(),
    ensures
        attr_views(r@) == attrs(order, buf@.subrange(off as int, len as int)),
{
    let ghost all = attrs(order, buf@.subrange(off as int, len as int));
    let mut out: Vec<Attr> = Vec::new();
    let mut at: usize = off;
    assert(attr_views(out@) + attrs(order, buf@.subrange(at as int, len as int)) =~= all);
    loop
        invariant_except_break
            at <= len <= buf@.len(),
            attr_views(out@) + attrs(order, buf@.subrange(at as int, len as int)) == all,
        ensures
            attr_views(out@) == all,
        decreases len - at,
    {
        let ghost s = buf@.subrange(at as int, len as int);
        if len - at < ATTR_HDR_LEN {
            assert(attr_views(out@) =~= all);
            break;
        }
        let (attr_len, kind) = match (read_u16(order, buf, at), read_u16(order, buf, at + 2)) {
            (Some(l), Some(k)) => (l as usize, k),
            _ => (0usize, 0u16),
        };
        assert(attr_len == u16_at(order, s, 0) && kind == u16_at(order, s, 2));
        if attr_len < ATTR_HDR_LEN || attr_len > len - at {
            assert(attr_views(out@) =~= all);
            break;
        }
        let ghost before = attr_views(out@);
        let ghost rest = after_attr(s, attr_len as int);
        let attr = Attr { kind, data: sub_bytes(buf, at + ATTR_HDR_LEN, at + attr_len) };
        let ghost this = attr@;
        assert(this.data =~= s.subrange(4, attr_len as int));
        out.push(attr);
        let step: usize = rta_align(attr_len);
        at = if step >= len - at {
            len
        } else {
            at + step
        };
        proof {
            assert(attr_views(out@) =~= before + seq![this]);
            assert(buf@.subrange(at as int, len as int) =~= rest);
            assert(before + (seq![this] + attrs(order, rest)) =~= before + seq![this] + attrs(
                order,
                rest,
            ));
        }
    }
    out
}

/// The last attribute of type `kind` whose payload has between `least` and
/// `most` bytes: its place in the list.
pub fn find_last(list: &Vec<Attr>, kind: u16, least: usize, most: usize) -> (r: Option<usize>)
    ensures
        match r {
            Some(i) => i < list@.len() && last_attr(
                attr_views(list@),
                kind,
                least as int,
                most as int,
            ) == Some(list@[i as int].data@),
            None => last_attr(attr_views(list@), kind, least as int, most as int) is None,
        },
{
    let ghost views = attr_views(list@);
    let mut n: usize = list.len();
    assert(views.take(n as int) =~= views);
    while n > 0
        invariant
            n <= list@.len(),
            views == attr_views(list@),
            last_attr(views, kind, least as int, most as int) == last_attr(
                views.take(n as int),
                kind,
                least as int,
                most as int,
            ),
        decreases n,
    {
        let a = &list[n - 1];
        assert(views.take(n as int).drop_last() =~= views.take(n - 1));
        if a.kind == kind && least <= a.data.len() && a.data.len() <= most {
            return Some(n - 1);
        }
        n -= 1;
    }
    None
}

/// The first attribute whose kind, flags aside, is `kind`: its place in the list.
pub fn find_first(list: &Vec<Attr>, kind: u16) -> (r: Option<usize>)
    ensures
        match r {
            Some(i) => i < list@.len() && first_attr(attr_views(list@), kind) == Some(
                list@[i as int].data@,
            ),
            None => first_attr(attr_views(list@), kind) is None,
        },
{
    let ghost views = attr_views(list@);
    let mut i: usize = 0;
    assert(views.skip(0) =~= views);
    while i < list.len()
        invariant
            i <= list@.len(),
            views == attr_views(list@),
            first_attr(views, kind) == first_attr(views.skip(i as int), kind),
        decreases list@.len() - i,
    {
        let a = &list[i];
        assert(views.skip(i as int).drop_first() =~= views.skip(i + 1));
        if a.kind % ATTR_KIND_BITS == kind {
            return Some(i);
        }
        i += 1;
    }
    None
}

/// A whole message: the header, with the length of all of it (its low 32 bits),
/// and the body.
#[verifier::opaque]
pub open spec fn message(
    order: ByteOrder,
    msg_type: u16,
    flags: u16,
    seq: u32,
    body: Seq<u8>,
) -> Seq<u8> {
    NlMsgHdr {
        nlmsg_len: ((16 + body.len()) % 0x1_0000_0000) as u32,
        nlmsg_type: msg_type,
        nlmsg_flags: flags,
        nlmsg_seq: seq,
        nlmsg_pid: 0,
    }.bytes(order) + body
}

/// Puts the header in front of a message body.
pub fn finish_msg(order: ByteOrder, body: &Vec<u8>, msg_type: u16, flags: u16, seq: u32) -> (r: Vec<
    u8,
>)
    requires
        body@.len() + 16 <= usize::MAX,
    ensures
        r@ == message(order, msg_type, flags, seq, body@),
{
    reveal(message);
    let total_len: usize = NlMsgHdr::LEN + body.len();
    let hdr = NlMsgHdr {
        nlmsg_len: (total_len as u64 % 0x1_0000_0000) as u32,
        nlmsg_type: msg_type,
        nlmsg_flags: flags,
        nlmsg_seq: seq,
        nlmsg_pid: 0,
    };
    let mut r: Vec<u8> = Vec::new();
    append_bytes(&mut r, &hdr.to_bytes(order));
    append_bytes(&mut r, body.as_slice());
    assert(r@ =~= message(order, msg_type, flags, seq, body@));
    r
}

/// Whether `body` is the fixed part `head` followed by the attributes `list`.
#[verifier::opaque]
pub open spec fn holds(order: ByteOrder, body: Seq<u8>, head: Seq<u8>, list: Seq<AttrView>) -> bool {
    body == head + stream_bytes(order, list)
}

/// A message body with a fixed part and no attributes yet.
pub(crate) fn start_body(order: ByteOrder, head: &[u8]) -> (r: Vec<u8>)
    ensures
        holds(order, r@, head@, Seq::empty()),
        r@.len() == head@.len(),
{
    let r = copy_bytes(head);
    proof {
        reveal(holds);
        assert(r@ =~= head@ + stream_bytes(order, Seq::empty()));
    }
    r
}

/// Appends an attribute to a message body.
pub(crate) fn push_attr(
    order: ByteOrder,
    body: &mut Vec<u8>,
    kind: u16,
    data: &[u8],
    Ghost(head): Ghost<Seq<u8>>,
    Ghost(list): Ghost<Seq<AttrView>>,
)
    requires
        data@.len() + 7 <= usize::MAX,
        holds(order, old(body)@, head, list),
    ensures
        holds(order, final(body)@, head, list.push(AttrView { kind, data: data@ })),
        final(body)@.len() <= old(body)@.len() + data@.len() + 7,
{
    append_attr(order, body, kind, data);
    proof {
        reveal(holds);
        stream_push(order, list, AttrView { kind, data: data@ });
        assert(body@ =~= head + stream_bytes(order, list.push(AttrView { kind, data: data@ })));
    }
}

/// Puts the header in front of a message body made of a fixed part and attributes.
pub(crate) fn finish_attrs(
    order: ByteOrder,
    body: &Vec<u8>,
    msg_type: u16,
    flags: u16,
    seq: u32,
    Ghost(head): Ghost<Seq<u8>>,
    Ghost(list): Ghost<Seq<AttrView>>,
) -> (r: Vec<u8>)
    requires
        body@.len() + 16 <= usize::MAX,
        holds(order, body@, head, list),
    ensures
        r@ == message(order, msg_type, flags, seq, head + stream_bytes(order, list)),
{
    proof {
        reveal(holds);
    }
    finish_msg(order, body, msg_type, flags, seq)
}

/// What is left of a buffer after a message of length `len` at its start.
pub open spec fn after_message(s: Seq<u8>, len: int) -> Seq<u8> {
    if align4(len) >= s.len() {
        Seq::empty()
    } else {
        s.skip(align4(len))
    }
}

/// The messages in a received buffer. They end where no header fits any more, or
/// at a header whose length cannot be right.
pub open spec fn messages(order: ByteOrder, s: Seq<u8>) -> Seq<Seq<u8>>
    decreases s.len(),
{
    if s.len() < 16 {
        Seq::empty()
    } else {
        let len = NlMsgHdr::at(order, s).nlmsg_len as int;
        if len < 16 || len > s.len() {
            Seq::empty()
        } else {
            seq![s.take(len)] + messages(order, after_message(s, len))
        }
    }
}

/// The contents of a list of byte vectors.
pub open spec fn contents(list: Seq<Vec<u8>>) -> Seq<Seq<u8>> {
    Seq::new(list.len(), |i: int| list[i]@)
}

/// Splits a received buffer into its messages.
pub fn split_messages(order: ByteOrder, buf: &[u8]) -> (r: Vec<Vec<u8>>)
    ensures
        contents(r@) == messages(order, buf@),
        forall|i: int| 0 <= i < r@.len() ==> (#[trigger] r@[i])@.len() >= 16,
{
    let ghost all = messages(order, buf@);
    let mut out: Vec<Vec<u8>> = Vec::new();
    let len: usize = buf.len();
    let mut at: usize = 0;
    assert(buf@.skip(0) =~= buf@);
    assert(contents(out@) + messages(order, buf@.skip(at as int)) =~= all);
    loop
        invariant_except_break
            at <= len,
            len == buf@.len(),
            contents(out@) + messages(order, buf@.skip(at as int)) == all,
            forall|i: int| 0 <= i < out@.len() ==> (#[trigger] out@[i])@.len() >= 16,
        ensures
            contents(out@) == all,
            forall|i: int| 0 <= i < out@.len() ==> (#[trigger] out@[i])@.len() >= 16,
        decreases len - at,
    {
        let ghost s = buf@.skip(at as int);
        let tail = vstd::slice::slice_subrange(buf, at, len);
        assert(tail@ =~= s);
        let msg_len: u32 = match NlMsgHdr::from_bytes(order, tail) {
            Some(h) => h.nlmsg_len,
            None => 0,
        };
        if msg_len < 16 || msg_len as u64 > (len - at) as u64 {
            assert(contents(out@) =~= all);
            break;
        }
        let msg_len: usize = msg_len as usize;
        let ghost before = contents(out@);
        let ghost rest = after_message(s, msg_len as int);
        let msg = sub_bytes(buf, at, at + msg_len);
        let ghost this = msg@;
        assert(this =~= s.take(msg_len as int));
        out.push(msg);
        at = if msg_len > usize::MAX - 3 || nlmsg_align(msg_len) >= len - at {
            len
        } else {
            at + nlmsg_align(msg_len)
        };
        proof {
            assert(contents(out@) =~= before + seq![this]);
            assert(buf@.skip(at as int) =~= rest);
            assert(before + (seq![this] + messages(order, rest)) =~= before + seq![this]
                + messages(order, rest));
        }
    }
    out
}

/// Splitting a buffer that starts with a finished message, whose body is a
/// multiple of four bytes long, gives that message first.
pub proof fn message_then_rest(
    order: ByteOrder,
    msg_type: u16,
    flags: u16,
    seq: u32,
    body: Seq<u8>,
    rest: Seq<u8>,
)
    requires
        body.len() % 4 == 0,
        16 + body.len() <= u32::MAX,
    ensures
        messages(order, message(order, msg_type, flags, seq, body) + rest) == seq![
            message(order, msg_type, flags, seq, body),
        ] + messages(order, rest),
{
    reveal(message);
    let m = message(order, msg_type, flags, seq, body);
    let h = NlMsgHdr {
        nlmsg_len: ((16 + body.len()) % 0x1_0000_0000) as u32,
        nlmsg_type: msg_type,
        nlmsg_flags: flags,
        nlmsg_seq: seq,
        nlmsg_pid: 0,
    };
    header_round_trip(order, h, body + rest);
    let hb = h.bytes(order);
    assert(m == hb + body);
    lemma_split_first(order, hb, body, rest);
}

/// A buffer that starts with a header, whose length field is right, and a body.
proof fn lemma_split_first(order: ByteOrder, hb: Seq<u8>, body: Seq<u8>, rest: Seq<u8>)
    requires
        hb.len() == 16,
        body.len() % 4 == 0,
        NlMsgHdr::at(order, hb + (body + rest)).nlmsg_len == 16 + body.len(),
    ensures
        messages(order, hb + body + rest) == seq![hb + body] + messages(order, rest),
{
    let s = hb + body + rest;
    let len = (16 + body.len()) as int;
    assert(s =~= hb + (body + rest));
    assert(s.take(len) =~= hb + body);
    assert(align4(len) == len);
    assert(after_message(s, len) =~= rest);
}

/// Adding an attribute at the end of a stream.
pub proof fn stream_push(order: ByteOrder, list: Seq<AttrView>, a: AttrView)
    ensures
        stream_bytes(order, list.push(a)) == stream_bytes(order, list) + attr_bytes(
            order,
            a.kind,
            a.data,
        ),
    decreases list.len(),
{
    if list.len() == 0 {
        assert(list.push(a).drop_first() =~= list);
        assert(stream_bytes(order, list.push(a)) =~= stream_bytes(order, list) + attr_bytes(
            order,
            a.kind,
            a.data,
        ));
    } else {
        assert(list.push(a).drop_first() =~= list.drop_first().push(a));
        stream_push(order, list.drop_first(), a);
        assert(stream_bytes(order, list.push(a)) =~= stream_bytes(order, list) + attr_bytes(
            order,
            a.kind,
            a.data,
        ));
    }
}

/// An encoded stream takes up a multiple of four bytes.
pub proof fn stream_bytes_aligned(order: ByteOrder, list: Seq<AttrView>)
    ensures
        stream_bytes(order, list).len() % 4 == 0,
    decreases list.len(),
{
    if list.len() > 0 {
        stream_bytes_aligned(order, list.drop_first());
    }
}

/// Decoding an encoded attribute followed by a stream gives that attribute and
/// then the attributes of the stream, as long as the length fits its field.
pub proof fn attr_then_stream(order: ByteOrder, kind: u16, data: Seq<u8>, rest: Seq<u8>)
    requires
        4 + data.len() < 65536,
    ensures
        attrs(order, attr_bytes(order, kind, data) + rest) == seq![AttrView { kind, data }]
            + attrs(order, rest),
{
    let s = attr_bytes(order, kind, data) + rest;
    let len = (4 + data.len()) as int;
    u16_round_trip(order, len as u16);
    u16_round_trip(order, kind);
    assert(u16_at(order, s, 0) == len);
    assert(u16_at(order, s, 2) == kind);
    assert(s.subrange(4, len) =~= data);
    assert(after_attr(s, len) =~= rest);
}

/// Decoding an encoded stream gives back its attributes, as long as each length
/// fits its field.
pub proof fn stream_round_trip(order: ByteOrder, list: Seq<AttrView>)
    requires
        forall|i: int| 0 <= i < list.len() ==> 4 + (#[trigger] list[i]).data.len() < 65536,
    ensures
        attrs(order, stream_bytes(order, list)) == list,
    decreases list.len(),
{
    if list.len() == 0 {
        assert(attrs(order, stream_bytes(order, list)) =~= list);
    } else {
        let tail = list.drop_first();
        assert forall|i: int| 0 <= i < tail.len() implies 4 + (#[trigger] tail[i]).data.len()
            < 65536 by {
            assert(tail[i] == list[i + 1]);
        }
        stream_round_trip(order, tail);
        attr_then_stream(order, list[0].kind, list[0].data, stream_bytes(order, tail));
        assert(attrs(order, stream_bytes(order, list)) =~= list);
    }
}

/// An encoded attribute takes up a multiple of four bytes.
pub proof fn attr_bytes_aligned(order: ByteOrder, kind: u16, data: Seq<u8>)
    ensures
        attr_bytes(order, kind, data).len() == align4(4 + data.len() as int),
        attr_bytes(order, kind, data).len() % 4 == 0,
{
}

} // verus!
