//! Network addresses as plain numbers, and what is read of them from text.

use vstd::prelude::*;

verus! {

/// An IP address: the 32 bits of version 4, or the 128 bits of version 6, as a number whose
/// highest bits come first in the address.
#[derive(Debug, Clone, Copy, PartialEq, Eq, Structural, Hash)]
pub enum IpAddr {
    V4(u32),
    V6(u128),
}

/// An IP address and a port.
#[derive(Debug, Clone, Copy, PartialEq, Eq, Structural, Hash)]
pub struct SocketAddr {
    pub ip: IpAddr,
    pub port: u16,
}

/// A network: an address in it, and how many bits all its addresses share.
#[derive(Debug, Clone, Copy, PartialEq, Eq, Structural)]
pub struct IpNet {
    pub addr: IpAddr,
    pub prefix_len: u8,
}

/// Text that is no address.
#[derive(Debug, Clone, Copy, PartialEq, Eq, Structural)]
pub struct AddrParseError;

/// The version 4 address that a text stands for.
pub uninterp spec fn ipv4_of_text(text: Seq<char>) -> Option<u32>;

/// The version 6 address that a text stands for.
pub uninterp spec fn ipv6_of_text(text: Seq<char>) -> Option<u128>;

/// The address of either version that a text stands for.
pub uninterp spec fn ip_of_text(text: Seq<char>) -> Option<IpAddr>;

/// The network that a text in the form of an address, a slash and a prefix length stands for.
pub uninterp spec fn net_of_text(text: Seq<char>) -> Option<IpNet>;

/// `core::net::Ipv4Addr::from_str`: the address that a text stands for, which depends on the
/// text alone.
#[verifier::external_body]
pub(crate) fn parse_ipv4(s: &str) -> (r: Option<u32>)
    ensures
        r == ipv4_of_text(s@),
{
    s.parse::<core::net::Ipv4Addr>().ok().map(u32::from)
}

/// `core::net::Ipv6Addr::from_str`: the address that a text stands for, which depends on the
/// text alone.
#[verifier::external_body]
pub(crate) fn parse_ipv6(s: &str) -> (r: Option<u128>)
    ensures
        r == ipv6_of_text(s@),
{
    s.parse::<core::net::Ipv6Addr>().ok().map(u128::from)
}

/// `core::net::IpAddr::from_str`: the address of either version that a text stands for, which
/// depends on the text alone.
#[verifier::external_body]
pub(crate) fn parse_ip(s: &str) -> (r: Option<IpAddr>)
    ensures
        r == ip_of_text(s@),
{
    match s.parse::<core::net::IpAddr>() {
        Ok(core::net::IpAddr::V4(a)) => Some(IpAddr::V4(u32::from(a))),
        Ok(core::net::IpAddr::V6(a)) => Some(IpAddr::V6(u128::from(a))),
        Err(_) => None,
    }
}

/// `ipnet::IpNet::from_str`: the network that a text stands for, which depends on the text
/// alone.
#[verifier::external_body]
pub(crate) fn parse_net(s: &str) -> (r: Option<IpNet>)
    ensures
        r == net_of_text(s@),
{
    match s.parse::<ipnet::IpNet>() {
        Ok(ipnet::IpNet::V4(n)) => Some(
            IpNet { addr: IpAddr::V4(u32::from(n.addr())), prefix_len: n.prefix_len() },
        ),
        Ok(ipnet::IpNet::V6(n)) => Some(
            IpNet { addr: IpAddr::V6(u128::from(n.addr())), prefix_len: n.prefix_len() },
        ),
        Err(_) => None,
    }
}

/// Whether an address lies in a network: it is of the same version and has the same bits up to
/// the prefix length. A network whose prefix is longer than an address holds none.
pub open spec fn in_net(net: IpNet, ip: IpAddr) -> bool {
    let prefix = net.prefix_len as int;
    match (net.addr, ip) {
        (IpAddr::V4(a), IpAddr::V4(b)) => {
            let rest = vstd::arithmetic::power2::pow2((32 - prefix) as nat);
            prefix <= 32 && a as nat / rest == b as nat / rest
        },
        (IpAddr::V6(a), IpAddr::V6(b)) => {
            let rest = vstd::arithmetic::power2::pow2((128 - prefix) as nat);
            prefix <= 128 && a as nat / rest == b as nat / rest
        },
        _ => false,
    }
}

/// `ipnet::IpNet::contains`, on the network that `ipnet::IpNet::new` makes of the address and
/// the prefix length. It makes none if the prefix is longer than an address.
#[verifier::external_body]
pub(crate) fn net_contains(net: &IpNet, ip: &IpAddr) -> (r: bool)
    ensures
        r == in_net(*net, *ip),
{
    let base = match net.addr {
        IpAddr::V4(a) => core::net::IpAddr::V4(core::net::Ipv4Addr::from(a)),
        IpAddr::V6(a) => core::net::IpAddr::V6(core::net::Ipv6Addr::from(a)),
    };
    let other = match *ip {
        IpAddr::V4(a) => core::net::IpAddr::V4(core::net::Ipv4Addr::from(a)),
        IpAddr::V6(a) => core::net::IpAddr::V6(core::net::Ipv6Addr::from(a)),
    };
    match ipnet::IpNet::new(base, net.prefix_len) {
        Ok(n) => n.contains(&other),
        Err(_) => false,
    }
}

impl core::str::FromStr for IpAddr {
    type Err = AddrParseError;

    fn from_str(s: &str) -> (r: Result<Self, AddrParseError>)
        ensures
            match r {
                Ok(ip) => ip_of_text(s@) == Some(ip),
                Err(_) => ip_of_text(s@) is None,
            },
    {
        match parse_ip(s) {
            Some(ip) => Ok(ip),
            None => Err(AddrParseError),
        }
    }
}

/// A network of a single address holds that address and no other.
pub proof fn single_address_net(addr: IpAddr, ip: IpAddr)
    ensures
        ({
            let prefix_len = match addr {
                IpAddr::V4(_) => 32u8,
                IpAddr::V6(_) => 128u8,
            };
            in_net(IpNet { addr, prefix_len }, ip) <==> ip == addr
        }),
{
    vstd::arithmetic::power2::lemma2_to64();
    assert(forall|x: nat| #[trigger] (x / 1) == x);
}

} // verus!
