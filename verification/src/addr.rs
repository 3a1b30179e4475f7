//! Internet addresses as plain octets.
use vstd::prelude::*;

verus! {

/// An IPv4 address, most significant octet first.
#[derive(Debug, Clone, Copy, PartialEq, Eq, Structural)]
pub struct Ipv4Addr {
    pub a: u8,
    pub b: u8,
    pub c: u8,
    pub d: u8,
}

impl View for Ipv4Addr {
    type V = Seq<u8>;

    open spec fn view(&self) -> Seq<u8> {
        seq![self.a, self.b, self.c, self.d]
    }
}

impl Ipv4Addr {
    /// The address `a.b.c.d`.
    pub fn new(a: u8, b: u8, c: u8, d: u8) -> (r: Ipv4Addr)
        ensures
            r == (Ipv4Addr { a, b, c, d }),
            r@ == seq![a, b, c, d],
    {
        Ipv4Addr { a, b, c, d }
    }

    /// The four octets in network order.
    pub fn octets(&self) -> (r: [u8; 4])
        ensures
            r@ == self@,
    {
        let r = [self.a, self.b, self.c, self.d];
        assert(r@ =~= self@);
        r
    }

    /// Whether this is `0.0.0.0`.
    pub fn is_unspecified(&self) -> (r: bool)
        ensures
            r == (self@ == seq![0u8, 0, 0, 0]),
    {
        let r = self.a == 0 && self.b == 0 && self.c == 0 && self.d == 0;
        proof {
            let z = seq![0u8, 0, 0, 0];
            assert(self@[0] == self.a && self@[1] == self.b && self@[2] == self.c && self@[3]
                == self.d);
            assert(z[0] == 0 && z[1] == 0 && z[2] == 0 && z[3] == 0);
            if r {
                assert(self@ =~= z);
            }
        }
        r
    }
}

/// An IPv6 address as its eight 16-bit groups, most significant first.
#[derive(Debug, Clone, Copy, PartialEq, Eq, Structural)]
pub struct Ipv6Addr {
    pub a: u16,
    pub b: u16,
    pub c: u16,
    pub d: u16,
    pub e: u16,
    pub f: u16,
    pub g: u16,
    pub h: u16,
}

/// The more significant octet of a 16-bit group.
pub open spec fn group_high(v: u16) -> u8 {
    (v / 256) as u8
}

/// The less significant octet of a 16-bit group.
pub open spec fn group_low(v: u16) -> u8 {
    (v % 256) as u8
}

impl View for Ipv6Addr {
    type V = Seq<u8>;

    open spec fn view(&self) -> Seq<u8> {
        seq![
            group_high(self.a),
            group_low(self.a),
            group_high(self.b),
            group_low(self.b),
            group_high(self.c),
            group_low(self.c),
            group_high(self.d),
            group_low(self.d),
            group_high(self.e),
            group_low(self.e),
            group_high(self.f),
            group_low(self.f),
            group_high(self.g),
            group_low(self.g),
            group_high(self.h),
            group_low(self.h),
        ]
    }
}

fn high(v: u16) -> (r: u8)
    ensures
        r == group_high(v),
{
    (v / 256) as u8
}

fn low(v: u16) -> (r: u8)
    ensures
        r == group_low(v),
{
    (v % 256) as u8
}

impl Ipv6Addr {
    /// The address `a:b:c:d:e:f:g:h`.
    pub fn new(a: u16, b: u16, c: u16, d: u16, e: u16, f: u16, g: u16, h: u16) -> (r: Ipv6Addr)
        ensures
            r == (Ipv6Addr { a, b, c, d, e, f, g, h }),
    {
        Ipv6Addr { a, b, c, d, e, f, g, h }
    }

    /// The sixteen octets in network order.
    pub fn octets(&self) -> (r: [u8; 16])
        ensures
            r@ == self@,
    {
        let r = [
            high(self.a),
            low(self.a),
            high(self.b),
            low(self.b),
            high(self.c),
            low(self.c),
            high(self.d),
            low(self.d),
            high(self.e),
            low(self.e),
            high(self.f),
            low(self.f),
            high(self.g),
            low(self.g),
            high(self.h),
            low(self.h),
        ];
        assert(r@ =~= self@);
        r
    }

    /// Whether this is `::`.
    pub fn is_unspecified(&self) -> (r: bool)
        ensures
            r == (self@ == Seq::new(16, |i: int| 0u8)),
    {
        let r = self.a == 0 && self.b == 0 && self.c == 0 && self.d == 0 && self.e == 0 && self.f
            == 0 && self.g == 0 && self.h == 0;
        proof {
            let z = Seq::new(16, |i: int| 0u8);
            if r {
                assert(self@ =~= z);
            }
            if self@ == z {
                assert(self@[0] == 0 && self@[1] == 0 && self@[2] == 0 && self@[3] == 0);
                assert(self@[4] == 0 && self@[5] == 0 && self@[6] == 0 && self@[7] == 0);
                assert(self@[8] == 0 && self@[9] == 0 && self@[10] == 0 && self@[11] == 0);
                assert(self@[12] == 0 && self@[13] == 0 && self@[14] == 0 && self@[15] == 0);
            }
        }
        r
    }
}

/// An address of either family.
#[derive(Debug, Clone, Copy, PartialEq, Eq, Structural)]
pub enum IpAddr {
    V4(Ipv4Addr),
    V6(Ipv6Addr),
}

impl View for IpAddr {
    type V = Seq<u8>;

    open spec fn view(&self) -> Seq<u8> {
        match *self {
            IpAddr::V4(v) => v@,
            IpAddr::V6(v) => v@,
        }
    }
}

/// A TCP endpoint: an address and a port.
#[derive(Debug, Clone, Copy, PartialEq, Eq, Structural)]
pub struct SocketAddr {
    pub ip: IpAddr,
    pub port: u16,
}

impl SocketAddr {
    /// The endpoint `ip:port`.
    pub fn new(ip: IpAddr, port: u16) -> (r: SocketAddr)
        ensures
            r == (SocketAddr { ip, port }),
    {
        SocketAddr { ip, port }
    }

    /// Whether the address is an IPv4 one.
    pub fn is_ipv4(&self) -> (r: bool)
        ensures
            r == (self.ip is V4),
    {
        matches!(self.ip, IpAddr::V4(_))
    }
}

} // verus!
