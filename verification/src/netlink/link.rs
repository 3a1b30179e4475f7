//! Link and address events.
use crate::errno::ErrorNumbers;
use crate::netlink::message::after_message;
use crate::netlink::text::{ifname_of, parse_ifla_ifname, text_of};
use crate::netlink::util::{nlmsg_align, read_u32, u32_at, ByteOrder, NlMsgHdr};
use vstd::prelude::*;

verus! {

pub const RTNLGRP_LINK: u32 = 1;

pub const RTNLGRP_IPV4_IFADDR: u32 = 5;

pub const RTNLGRP_IPV6_IFADDR: u32 = 9;

/// The groups that are listened to, one bit each: group `n` is bit `n - 1`.
pub const LINK_GROUPS: u32 = 0x111;

pub const RTM_NEWLINK: u16 = 16;

pub const RTM_DELLINK: u16 = 17;

pub const RTM_NEWADDR: u16 = 20;

pub const RTM_DELADDR: u16 = 21;

pub const IFF_UP: u32 = 0x1;

pub const IFF_RUNNING: u32 = 0x40;

/// The mask of groups is made of the bits of the three groups.
pub proof fn groups_are_bits()
    ensures
        LINK_GROUPS == (1u32 << ((RTNLGRP_LINK - 1) as u32)) | (1u32 << ((RTNLGRP_IPV4_IFADDR - 1)
            as u32)) | (1u32 << ((RTNLGRP_IPV6_IFADDR - 1) as u32)),
{
    assert(0x111u32 == (1u32 << 0u32) | (1u32 << 4u32) | (1u32 << 8u32)) by (bit_vector);
}

/// What happened to an interface.
#[derive(Debug, Clone, PartialEq, Eq)]
pub enum LinkEvent {
    /// It came, went or changed. An interface that is made anew has another index
    /// and the same name.
    Link { ifindex: u32, ifname: Option<String>, carrier_up: bool },
    /// One of its addresses came or went.
    Address { ifindex: u32 },
    /// Events were lost: everything has to be looked at again.
    Resync,
}

/// An event as a mathematical value.
pub ghost enum LinkEventView {
    Link { ifindex: u32, ifname: Option<Seq<char>>, carrier_up: bool },
    Address { ifindex: u32 },
    Resync,
}

impl View for LinkEvent {
    type V = LinkEventView;

    open spec fn view(&self) -> LinkEventView {
        match *self {
            LinkEvent::Link { ifindex, ifname, carrier_up } => LinkEventView::Link {
                ifindex,
                ifname: match ifname {
                    Some(s) => Some(s@),
                    None => None,
                },
                carrier_up,
            },
            LinkEvent::Address { ifindex } => LinkEventView::Address { ifindex },
            LinkEvent::Resync => LinkEventView::Resync,
        }
    }
}

pub open spec fn event_views(list: Seq<LinkEvent>) -> Seq<LinkEventView> {
    Seq::new(list.len(), |i: int| list[i]@)
}

impl LinkEvent {
    /// The interface that the event is about; 0 if it is about all of them.
    pub fn ifindex(&self) -> (r: u32)
        ensures
            r == match self@ {
                LinkEventView::Link { ifindex, .. } => ifindex,
                LinkEventView::Address { ifindex } => ifindex,
                LinkEventView::Resync => 0,
            },
    {
        match self {
            LinkEvent::Link { ifindex, .. } => *ifindex,
            LinkEvent::Address { ifindex } => *ifindex,
            LinkEvent::Resync => 0,
        }
    }
}

/// Whether an interface with these flags is up and running.
pub open spec fn has_carrier(flags: u32) -> bool {
    flags % 2 == 1 && (flags / 64) % 2 == 1
}

/// The two flags are the ones that [`has_carrier`] looks at.
pub proof fn carrier_flags(flags: u32)
    ensures
        has_carrier(flags) == (flags & IFF_UP != 0 && flags & IFF_RUNNING != 0),
{
    assert((flags % 2 == 1) == (flags & 0x1 != 0)) by (bit_vector);
    assert(((flags / 64) % 2 == 1) == (flags & 0x40 != 0)) by (bit_vector);
}

/// The name in a link message: its attributes start after 32 bytes.
pub open spec fn link_name(order: ByteOrder, s: Seq<u8>, len: int) -> Option<Seq<char>> {
    if 32 <= len {
        match ifname_of(order, s.subrange(32, len)) {
            Some(b) => Some(text_of(b)),
            None => None,
        }
    } else {
        None
    }
}

/// The event that the message at the start of `s` tells of, if any. The fields of
/// the fixed part are read up to the end of the buffer.
#[verifier::opaque]
pub open spec fn event_at(order: ByteOrder, s: Seq<u8>) -> Option<LinkEventView> {
    let hdr = NlMsgHdr::at(order, s);
    if s.len() < 24 {
        None
    } else if hdr.nlmsg_type == RTM_NEWLINK || hdr.nlmsg_type == RTM_DELLINK {
        Some(
            LinkEventView::Link {
                ifindex: u32_at(order, s, 20),
                ifname: link_name(order, s, hdr.nlmsg_len as int),
                carrier_up: hdr.nlmsg_type == RTM_NEWLINK && s.len() >= 28 && has_carrier(
                    u32_at(order, s, 24),
                ),
            },
        )
    } else if hdr.nlmsg_type == RTM_NEWADDR || hdr.nlmsg_type == RTM_DELADDR {
        Some(LinkEventView::Address { ifindex: u32_at(order, s, 20) })
    } else {
        None
    }
}

/// A list of one event, or of none.
pub open spec fn as_list(e: Option<LinkEventView>) -> Seq<LinkEventView> {
    match e {
        Some(e) => seq![e],
        None => Seq::empty(),
    }
}

/// The events that a received buffer tells of, in their order.
pub open spec fn link_events(order: ByteOrder, s: Seq<u8>) -> Seq<LinkEventView>
    decreases s.len(),
{
    if s.len() < 16 {
        Seq::empty()
    } else {
        let len = NlMsgHdr::at(order, s).nlmsg_len as int;
        if len < 16 || len > s.len() {
            Seq::empty()
        } else {
            as_list(event_at(order, s)) + link_events(order, after_message(s, len))
        }
    }
}

/// Reads the event that the message at the start of `s` tells of.
fn read_event(order: ByteOrder, s: &[u8], hdr: &NlMsgHdr) -> (r: Option<LinkEvent>)
    requires
        s@.len() >= 16,
        *hdr == NlMsgHdr::at(order, s@),
        16 <= hdr.nlmsg_len <= s@.len(),
    ensures
        r matches Some(e) ==> event_at(order, s@) == Some(e@),
        r is None ==> event_at(order, s@) is None,
{
    reveal(event_at);
    let ifindex: u32 = match read_u32(order, s, 20) {
        Some(v) => v,
        None => return None,
    };
    if hdr.nlmsg_type == RTM_NEWLINK || hdr.nlmsg_type == RTM_DELLINK {
        let len: usize = hdr.nlmsg_len as usize;
        let ifname = if 32 <= len {
            parse_ifla_ifname(order, vstd::slice::slice_subrange(s, 32, len))
        } else {
            None
        };
        let flags: u32 = match read_u32(order, s, 24) {
            Some(v) => v,
            None => 0,
        };
        let carrier_up = hdr.nlmsg_type == RTM_NEWLINK && flags % 2 == 1 && (flags / 64) % 2 == 1;
        return Some(LinkEvent::Link { ifindex, ifname, carrier_up });
    }
    if hdr.nlmsg_type == RTM_NEWADDR || hdr.nlmsg_type == RTM_DELADDR {
        return Some(LinkEvent::Address { ifindex });
    }
    None
}

/// Adds the events that a received buffer tells of to `out`.
pub fn parse_events(order: ByteOrder, buf: &[u8], out: &mut Vec<LinkEvent>)
    ensures
        event_views(final(out)@) == event_views(old(out)@) + link_events(order, buf@),
{
    let ghost all = event_views(old(out)@) + link_events(order, buf@);
    let len: usize = buf.len();
    let mut at: usize = 0;
    assert(buf@.skip(0) =~= buf@);
    loop
        invariant_except_break
            at <= len,
            len == buf@.len(),
            event_views(out@) + link_events(order, buf@.skip(at as int)) == all,
        ensures
            event_views(out@) == all,
        decreases len - at,
    {
        let ghost s = buf@.skip(at as int);
        let ghost before = event_views(out@);
        let tail = vstd::slice::slice_subrange(buf, at, len);
        assert(tail@ =~= s);
        let hdr = match NlMsgHdr::from_bytes(order, tail) {
            Some(h) => h,
            None => {
                assert(event_views(out@) =~= all);
                break;
            },
        };
        if hdr.nlmsg_len < 16 || hdr.nlmsg_len as u64 > (len - at) as u64 {
            assert(event_views(out@) =~= all);
            break;
        }
        let msg_len: usize = hdr.nlmsg_len as usize;
        let ghost rest = after_message(s, msg_len as int);
        let ghost this = event_at(order, s);
        if let Some(e) = read_event(order, tail, &hdr) {
            out.push(e);
        }
        assert(event_views(out@) =~= before + as_list(this));
        at = if msg_len > usize::MAX - 3 || nlmsg_align(msg_len) >= len - at {
            len
        } else {
            at + nlmsg_align(msg_len)
        };
        proof {
            assert(buf@.skip(at as int) =~= rest);
            let tail_events = link_events(order, rest);
            assert(before + (as_list(this) + tail_events) =~= before + as_list(this)
                + tail_events);
        }
    }
}

/// What came of trying to receive events without waiting.
pub enum LinkReceived {
    Bytes(Vec<u8>),
    /// A signal arrived first.
    Interrupted,
    /// Nothing is left to receive, or the other end is gone.
    Empty,
    /// Receiving failed with this error number.
    Failed(i32),
}

/// What to do next while draining the socket.
#[derive(Debug, Clone, Copy, PartialEq, Eq, Structural)]
pub enum DrainStep {
    /// Receive again.
    More,
    /// The events are complete.
    Over,
    /// The subscription has failed with this error number.
    Failed(i32),
}

/// Takes one receipt. Lost events are no failure: they are told of by a single
/// [`LinkEvent::Resync`] in place of all others.
pub fn drain(
    order: ByteOrder,
    numbers: ErrorNumbers,
    ev: LinkReceived,
    events: &mut Vec<LinkEvent>,
) -> (r: DrainStep)
    ensures
        match ev {
            LinkReceived::Bytes(b) => r == DrainStep::More && event_views(final(events)@)
                == event_views(old(events)@) + link_events(order, b@),
            LinkReceived::Interrupted => r == DrainStep::More && final(events)@ == old(events)@,
            LinkReceived::Empty => r == DrainStep::Over && final(events)@ == old(events)@,
            LinkReceived::Failed(e) => if e == numbers.enobufs {
                r == DrainStep::Over && event_views(final(events)@) == seq![LinkEventView::Resync]
            } else {
                r == DrainStep::Failed(e) && final(events)@ == old(events)@
            },
        },
{
    match ev {
        LinkReceived::Bytes(b) => {
            parse_events(order, b.as_slice(), events);
            DrainStep::More
        },
        LinkReceived::Interrupted => DrainStep::More,
        LinkReceived::Empty => DrainStep::Over,
        LinkReceived::Failed(e) => {
            if e == numbers.enobufs {
                events.clear();
                events.push(LinkEvent::Resync);
                assert(event_views(events@) =~= seq![LinkEventView::Resync]);
                DrainStep::Over
            } else {
                DrainStep::Failed(e)
            }
        },
    }
}

} // verus!
