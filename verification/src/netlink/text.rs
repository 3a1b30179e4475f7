//! Text in messages: zero-terminated, and not always valid.
use crate::netlink::message::{attr_views, attrs, find_first, first_attr, parse_attrs, AttrView,
    ATTR_KIND_BITS};
use crate::netlink::util::{sub_bytes, ByteOrder};
use vstd::prelude::*;
use vstd::utf8::{decode_utf8, valid_utf8};

verus! {

/// The text of bytes that need not be valid UTF-8, as `String::from_utf8_lossy`
/// of the standard library makes it.
pub uninterp spec fn lossy_text(bytes: Seq<u8>) -> Seq<char>;

/// `String::from_utf8_lossy` of the standard library, made into an owned string:
/// the text of the bytes, where each invalid part becomes a replacement
/// character. Valid UTF-8 is decoded as it stands.
#[verifier::external_body]
fn from_utf8_lossy(bytes: &[u8]) -> (r: String)
    ensures
        r@ == lossy_text(bytes@),
        valid_utf8(bytes@) ==> r@ == decode_utf8(bytes@),
{
    String::from_utf8_lossy(bytes).into_owned()
}

/// The text of bytes: decoded where they are valid UTF-8, else as the standard
/// library makes do with them.
pub open spec fn text_of(bytes: Seq<u8>) -> Seq<char> {
    if valid_utf8(bytes) {
        decode_utf8(bytes)
    } else {
        lossy_text(bytes)
    }
}

/// The bytes before the first zero byte; all of them if there is none.
pub open spec fn until_nul(data: Seq<u8>) -> Seq<u8>
    decreases data.len(),
{
    if data.len() == 0 {
        Seq::empty()
    } else if data[0] == 0 {
        Seq::empty()
    } else {
        seq![data[0]] + until_nul(data.drop_first())
    }
}

proof fn lemma_until_nul(data: Seq<u8>, n: int)
    requires
        0 <= n <= data.len(),
        forall|i: int| 0 <= i < n ==> data[i] != 0,
        n < data.len() ==> data[n] == 0,
    ensures
        until_nul(data) == data.take(n),
    decreases data.len(),
{
    if n > 0 {
        let tail = data.drop_first();
        assert forall|i: int| 0 <= i < n - 1 implies tail[i] != 0 by {
            assert(tail[i] == data[i + 1]);
        }
        assert(data[0] != 0);
        lemma_until_nul(tail, n - 1);
        assert(data.take(n) =~= seq![data[0]] + tail.take(n - 1));
    } else {
        assert(data.take(0) =~= Seq::empty());
    }
}

/// The bytes before the first zero byte.
pub fn cut_at_nul(data: &[u8]) -> (r: Vec<u8>)
    ensures
        r@ == until_nul(data@),
{
    let mut n: usize = 0;
    while n < data.len() && data[n] != 0
        invariant
            n <= data@.len(),
            forall|i: int| 0 <= i < n ==> data@[i] != 0,
        decreases data@.len() - n,
    {
        n += 1;
    }
    proof {
        lemma_until_nul(data@, n as int);
        assert(data@.subrange(0, n as int) =~= data@.take(n as int));
    }
    sub_bytes(data, 0, n)
}

/// Where the attributes of an error message start: after the header, the error
/// number and, if it fits, the header of the refused request.
pub open spec fn extack_start(len: int) -> int {
    if 36 <= len {
        36
    } else {
        20
    }
}

/// The first explanation among the attributes that is not empty.
pub open spec fn explanation(list: Seq<AttrView>) -> Option<Seq<u8>>
    decreases list.len(),
{
    if list.len() == 0 {
        None
    } else if list[0].kind % ATTR_KIND_BITS == 1 && until_nul(list[0].data).len() > 0 {
        Some(until_nul(list[0].data))
    } else {
        explanation(list.drop_first())
    }
}

/// The kernel's explanation in an error message.
pub open spec fn extack(order: ByteOrder, msg: Seq<u8>) -> Option<Seq<u8>> {
    if msg.len() < 20 {
        None
    } else {
        explanation(attrs(order, msg.skip(extack_start(msg.len() as int))))
    }
}

/// The bytes of the kernel's explanation in the first `len` bytes of `buf`.
pub fn extack_bytes(order: ByteOrder, buf: &[u8], len: usize) -> (r: Option<Vec<u8>>)
    requires
        len <= buf@.len(),
    ensures
        r matches Some(v) ==> extack(order, buf@.take(len as int)) == Some(v@),
        r is None ==> extack(order, buf@.take(len as int)) is None,
{
    if len < 20 {
        return None;
    }
    let start: usize = if 36 <= len {
        36
    } else {
        20
    };
    let list = parse_attrs(order, buf, start, len);
    let ghost views = attr_views(list@);
    assert(buf@.subrange(start as int, len as int) =~= buf@.take(len as int).skip(start as int));
    let mut i: usize = 0;
    assert(views.skip(0) =~= views);
    while i < list.len()
        invariant
            i <= list@.len(),
            views == attr_views(list@),
            explanation(views) == explanation(views.skip(i as int)),
            extack(order, buf@.take(len as int)) == explanation(views),
        decreases list@.len() - i,
    {
        let a = &list[i];
        assert(views.skip(i as int)[0] == a@);
        assert(views.skip(i as int).drop_first() =~= views.skip(i + 1));
        if a.kind % ATTR_KIND_BITS == 1 {
            let text = cut_at_nul(a.data.as_slice());
            if text.len() > 0 {
                return Some(text);
            }
        }
        i += 1;
    }
    None
}

/// The kernel's explanation in the first `len` bytes of an error message.
pub fn parse_extack(order: ByteOrder, buf: &[u8], len: usize) -> (r: Option<String>)
    requires
        len <= buf@.len(),
    ensures
        match extack(order, buf@.take(len as int)) {
            Some(b) => r matches Some(t) && t@ == text_of(b),
            None => r is None,
        },
{
    match extack_bytes(order, buf, len) {
        Some(b) => Some(from_utf8_lossy(b.as_slice())),
        None => None,
    }
}

/// The attribute of a link message that holds the interface's name.
pub const IFLA_IFNAME: u16 = 3;

/// The interface name in the attributes of a link message.
pub open spec fn ifname_of(order: ByteOrder, stream: Seq<u8>) -> Option<Seq<u8>> {
    match first_attr(attrs(order, stream), IFLA_IFNAME) {
        Some(d) => Some(until_nul(d)),
        None => None,
    }
}

/// The bytes of the interface name in the attributes of a link message.
pub fn ifname_bytes(order: ByteOrder, stream: &[u8]) -> (r: Option<Vec<u8>>)
    ensures
        r matches Some(v) ==> ifname_of(order, stream@) == Some(v@),
        r is None ==> ifname_of(order, stream@) is None,
{
    let list = parse_attrs(order, stream, 0, stream.len());
    assert(stream@.subrange(0, stream@.len() as int) =~= stream@);
    match find_first(&list, IFLA_IFNAME) {
        Some(i) => Some(cut_at_nul(list[i].data.as_slice())),
        None => None,
    }
}

/// The interface name in the attributes of a link message.
pub fn parse_ifla_ifname(order: ByteOrder, stream: &[u8]) -> (r: Option<String>)
    ensures
        match ifname_of(order, stream@) {
            Some(b) => r matches Some(t) && t@ == text_of(b),
            None => r is None,
        },
{
    match ifname_bytes(order, stream) {
        Some(b) => Some(from_utf8_lossy(b.as_slice())),
        None => None,
    }
}

} // verus!
