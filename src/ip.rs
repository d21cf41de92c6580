//! Classification of IP addresses for outbound connections.
use vstd::prelude::*;

verus! {

/// An IP address, held as its octets (IPv4) or its eight 16-bit segments (IPv6).
#[derive(Clone, Copy, Debug, PartialEq, Eq)]
pub enum IpAddr {
    V4([u8; 4]),
    V6([u16; 8]),
}

/// A resolved socket address: an IP address and a port.
#[derive(Clone, Copy, Debug, PartialEq, Eq)]
pub struct SocketAddress {
    pub ip: IpAddr,
    pub port: u16,
}

/// The IPv4 ranges that outbound connections must not reach.
pub open spec fn v4_blocked(o: [u8; 4]) -> bool {
    ||| o[0] == 127  // loopback 127.0.0.0/8
    ||| (o[0] == 0 && o[1] == 0 && o[2] == 0 && o[3] == 0)  // unspecified
    ||| (224 <= o[0] && o[0] <= 239)  // multicast 224.0.0.0/4
    ||| o[0] == 10  // 10.0.0.0/8
    ||| (o[0] == 172 && 16 <= o[1] && o[1] <= 31)  // 172.16.0.0/12
    ||| (o[0] == 192 && o[1] == 168)  // 192.168.0.0/16
    ||| (o[0] == 169 && o[1] == 254)  // link-local 169.254.0.0/16
    ||| (o[0] == 100 && 64 <= o[1] && o[1] <= 127)  // carrier-grade NAT 100.64.0.0/10
}

/// Whether an IPv6 address is IPv4-mapped (`::ffff:a.b.c.d`).
pub open spec fn is_v4_mapped(s: [u16; 8]) -> bool {
    s[0] == 0 && s[1] == 0 && s[2] == 0 && s[3] == 0 && s[4] == 0 && s[5] == 0xffff
}

/// The IPv4 address that an IPv4-mapped IPv6 address carries.
pub open spec fn mapped_v4(s: [u16; 8]) -> [u8; 4] {
    [(s[6] / 256) as u8, (s[6] % 256) as u8, (s[7] / 256) as u8, (s[7] % 256) as u8]
}

/// The IPv6 ranges that outbound connections must not reach (for an address that is not
/// IPv4-mapped).
pub open spec fn v6_blocked(s: [u16; 8]) -> bool {
    let all_zero_but_last = s[0] == 0 && s[1] == 0 && s[2] == 0 && s[3] == 0 && s[4] == 0
        && s[5] == 0 && s[6] == 0;
    ||| (all_zero_but_last && s[7] == 1)  // loopback ::1
    ||| (all_zero_but_last && s[7] == 0)  // unspecified ::
    ||| s[0] >= 0xff00  // multicast ff00::/8
    ||| (0xfc00 <= s[0] && s[0] <= 0xfdff)  // unique local fc00::/7
    ||| (0xfe80 <= s[0] && s[0] <= 0xfebf)  // link-local fe80::/10
    ||| (0xfec0 <= s[0] && s[0] <= 0xfeff)  // site-local fec0::/10
}

/// Whether an outbound connection to `ip` is allowed.
pub open spec fn safe_ip(ip: IpAddr) -> bool {
    match ip {
        IpAddr::V4(o) => !v4_blocked(o),
        IpAddr::V6(s) => if is_v4_mapped(s) {
            !v4_blocked(mapped_v4(s))
        } else {
            !v6_blocked(s)
        },
    }
}

/// The IPv4 address carried by an IPv4-mapped IPv6 address, if it is one.
pub fn to_ipv4_mapped(s: &[u16; 8]) -> (r: Option<[u8; 4]>)
    ensures
        r is Some <==> is_v4_mapped(*s),
        r is Some ==> r->0 == mapped_v4(*s),
{
    if s[0] == 0 && s[1] == 0 && s[2] == 0 && s[3] == 0 && s[4] == 0 && s[5] == 0xffff {
        let a: u16 = s[6];
        let b: u16 = s[7];
        let r = [(a / 256) as u8, (a % 256) as u8, (b / 256) as u8, (b % 256) as u8];
        assert(r =~= mapped_v4(*s));
        Some(r)
    } else {
        None
    }
}

fn is_blocked_v4(o: &[u8; 4]) -> (r: bool)
    ensures
        r == v4_blocked(*o),
{
    let a = o[0];
    let b = o[1];
    a == 127 || (a == 0 && b == 0 && o[2] == 0 && o[3] == 0) || (224 <= a && a <= 239) || a
        == 10 || (a == 172 && 16 <= b && b <= 31) || (a == 192 && b == 168) || (a == 169 && b
        == 254) || (a == 100 && 64 <= b && b <= 127)
}

fn is_blocked_v6(s: &[u16; 8]) -> (r: bool)
    ensures
        r == v6_blocked(*s),
{
    let zeros = s[0] == 0 && s[1] == 0 && s[2] == 0 && s[3] == 0 && s[4] == 0 && s[5] == 0
        && s[6] == 0;
    let first = s[0];
    (zeros && s[7] == 1) || (zeros && s[7] == 0) || first >= 0xff00 || (0xfc00 <= first && first
        <= 0xfdff) || (0xfe80 <= first && first <= 0xfebf) || (0xfec0 <= first && first <= 0xfeff)
}

/// Check whether an IP address is safe for outbound connections: not loopback,
/// unspecified, multicast, private, link-local, carrier-grade NAT, unique-local or
/// site-local. An IPv4-mapped IPv6 address is judged by the IPv4 address it carries.
pub fn is_safe_ip(ip: &IpAddr) -> (r: bool)
    ensures
        r == safe_ip(*ip),
{
    match ip {
        IpAddr::V4(o) => !is_blocked_v4(o),
        IpAddr::V6(s) => match to_ipv4_mapped(s) {
            Some(v4) => !is_blocked_v4(&v4),
            None => !is_blocked_v6(s),
        },
    }
}

/// The IPv6 form `::ffff:a.b.c.d` of an IPv4 address.
pub open spec fn v4_to_mapped(o: [u8; 4]) -> [u16; 8] {
    [0, 0, 0, 0, 0, 0xffff, (o[0] * 256 + o[1]) as u16, (o[2] * 256 + o[3]) as u16]
}

/// An IPv4-mapped IPv6 address is safe exactly when the IPv4 address it carries is.
pub proof fn lemma_mapped_safety_matches(o: [u8; 4])
    ensures
        safe_ip(IpAddr::V6(v4_to_mapped(o))) == safe_ip(IpAddr::V4(o)),
{
    let s = v4_to_mapped(o);
    assert(is_v4_mapped(s));
    assert(mapped_v4(s) =~= o);
}

/// The first address of `addrs` that is safe to connect to, if any.
pub open spec fn first_safe(addrs: Seq<SocketAddress>) -> Option<SocketAddress>
    decreases addrs.len(),
{
    if addrs.len() == 0 {
        None
    } else if safe_ip(addrs[0].ip) {
        Some(addrs[0])
    } else {
        first_safe(addrs.drop_first())
    }
}

proof fn lemma_first_safe_at(addrs: Seq<SocketAddress>, i: int)
    requires
        0 <= i <= addrs.len(),
        forall|j: int| 0 <= j < i ==> !safe_ip(#[trigger] addrs[j].ip),
    ensures
        first_safe(addrs) == first_safe(addrs.subrange(i, addrs.len() as int)),
    decreases i,
{
    if i > 0 {
        let t = addrs.drop_first();
        assert forall|j: int| 0 <= j < i - 1 implies !safe_ip(#[trigger] t[j].ip) by {
            assert(t[j] == addrs[j + 1]);
        }
        lemma_first_safe_at(t, i - 1);
        assert(t.subrange(i - 1, t.len() as int) =~= addrs.subrange(i, addrs.len() as int));
    } else {
        assert(addrs.subrange(0, addrs.len() as int) =~= addrs);
    }
}

/// When every resolved address is loopback, private, link-local or otherwise unsafe,
/// there is no address to connect to, so no request is sent.
pub proof fn lemma_no_safe_address_no_connection(addrs: Seq<SocketAddress>)
    requires
        forall|j: int| 0 <= j < addrs.len() ==> !safe_ip(#[trigger] addrs[j].ip),
    ensures
        first_safe(addrs) is None,
{
    lemma_first_safe_at(addrs, addrs.len() as int);
}

/// The first address in `addrs` that is safe to connect to, if any.
pub fn first_safe_address(addrs: &Vec<SocketAddress>) -> (r: Option<SocketAddress>)
    ensures
        r == first_safe(addrs@),
        match r {
            Some(a) => exists|i: int|
                0 <= i < addrs@.len() && addrs@[i] == a && safe_ip(a.ip) && forall|j: int|
                    0 <= j < i ==> !safe_ip(#[trigger] addrs@[j].ip),
            None => forall|j: int| 0 <= j < addrs@.len() ==> !safe_ip(#[trigger] addrs@[j].ip),
        },
{
    let mut i: usize = 0;
    while i < addrs.len()
        invariant
            i <= addrs@.len(),
            forall|j: int| 0 <= j < i ==> !safe_ip(#[trigger] addrs@[j].ip),
        decreases addrs@.len() - i,
    {
        if is_safe_ip(&addrs[i].ip) {
            proof {
                lemma_first_safe_at(addrs@, i as int);
            }
            return Some(addrs[i]);
        }
        i = i + 1;
    }
    proof {
        lemma_first_safe_at(addrs@, i as int);
    }
    None
}

} // verus!
