//! Which destinations clients may reach, and what a client's own address is.

use vstd::prelude::*;

use crate::net;
use crate::net::{
    net_contains, parse_ip, parse_ipv4, parse_ipv6, parse_net, IpAddr, IpNet,
};
use crate::server::config::{ConfigView, ServerConfig};
use crate::text;
use crate::text::{chars_of, find_char, has_prefix, read_decimal, same_text, trim_range};

verus! {

// ---------------------------------------------------------------------------------------
// Kinds of addresses
// ---------------------------------------------------------------------------------------

/// The version 4 address that a version 6 address maps, if it does: `::ffff:a.b.c.d`.
pub open spec fn mapped_v4(ip: u128) -> Option<u32> {
    if 0xffff_0000_0000 <= ip <= 0xffff_ffff_ffff {
        Some((ip - 0xffff_0000_0000) as u32)
    } else {
        None
    }
}

/// 127.0.0.0/8.
pub open spec fn v4_loopback(ip: u32) -> bool {
    0x7f00_0000 <= ip <= 0x7fff_ffff
}

/// 10.0.0.0/8, 172.16.0.0/12 and 192.168.0.0/16.
pub open spec fn v4_private(ip: u32) -> bool {
    ||| 0x0a00_0000 <= ip <= 0x0aff_ffff
    ||| 0xac10_0000 <= ip <= 0xac1f_ffff
    ||| 0xc0a8_0000 <= ip <= 0xc0a8_ffff
}

/// 169.254.0.0/16.
pub open spec fn v4_link_local(ip: u32) -> bool {
    0xa9fe_0000 <= ip <= 0xa9fe_ffff
}

/// Whether a version 6 address maps a version 4 address of a kind.
pub open spec fn maps(ip: u128, kind: spec_fn(u32) -> bool) -> bool {
    mapped_v4(ip) matches Some(v4) && kind(v4)
}

/// Loopback addresses: 127.0.0.0/8, ::1, and what maps them.
pub open spec fn loopback(ip: IpAddr) -> bool {
    match ip {
        IpAddr::V4(v4) => v4_loopback(v4),
        IpAddr::V6(v6) => v6 == 1 || maps(v6, |v4: u32| v4_loopback(v4)),
    }
}

/// fc00::/7.
pub open spec fn v6_unique_local(ip: u128) -> bool {
    0xfc00_0000_0000_0000_0000_0000_0000_0000 <= ip
        <= 0xfdff_ffff_ffff_ffff_ffff_ffff_ffff_ffff
}

/// fe80::/10.
pub open spec fn v6_link_local(ip: u128) -> bool {
    0xfe80_0000_0000_0000_0000_0000_0000_0000 <= ip
        <= 0xfebf_ffff_ffff_ffff_ffff_ffff_ffff_ffff
}

/// Private addresses: RFC 1918, fc00::/7, and what maps them.
pub open spec fn private(ip: IpAddr) -> bool {
    match ip {
        IpAddr::V4(v4) => v4_private(v4),
        IpAddr::V6(v6) => v6_unique_local(v6) || maps(v6, |v4: u32| v4_private(v4)),
    }
}

/// The address that stands for none: 0.0.0.0, ::, and what maps it.
pub open spec fn unspecified(ip: IpAddr) -> bool {
    match ip {
        IpAddr::V4(v4) => v4 == 0,
        IpAddr::V6(v6) => v6 == 0 || maps(v6, |v4: u32| v4 == 0),
    }
}

/// Link-local addresses: 169.254.0.0/16, fe80::/10, and what maps them.
pub open spec fn link_local(ip: IpAddr) -> bool {
    match ip {
        IpAddr::V4(v4) => v4_link_local(v4),
        IpAddr::V6(v6) => v6_link_local(v6) || maps(v6, |v4: u32| v4_link_local(v4)),
    }
}

/// Whether an address is kept from clients. The unspecified address always is; loopback
/// addresses are unless they are allowed; private and link-local ones are unless private
/// addresses are allowed.
pub open spec fn ip_blocked(ip: IpAddr, config: ConfigView) -> bool {
    ||| unspecified(ip)
    ||| !config.allow_loopback && loopback(ip)
    ||| !config.allow_private_ips && private(ip)
    ||| !config.allow_private_ips && link_local(ip)
}

/// The version 4 address that a version 6 address maps.
fn to_mapped_v4(ip: u128) -> (r: Option<u32>)
    ensures
        r == mapped_v4(ip),
{
    if 0xffff_0000_0000 <= ip && ip <= 0xffff_ffff_ffff {
        Some((ip - 0xffff_0000_0000) as u32)
    } else {
        None
    }
}

/// Whether a version 4 address is in 127.0.0.0/8.
fn is_v4_loopback(v4: u32) -> (r: bool)
    ensures
        r == v4_loopback(v4),
{
    0x7f00_0000 <= v4 && v4 <= 0x7fff_ffff
}

/// Whether a version 4 address is one of RFC 1918.
fn is_v4_private(v4: u32) -> (r: bool)
    ensures
        r == v4_private(v4),
{
    (0x0a00_0000 <= v4 && v4 <= 0x0aff_ffff) || (0xac10_0000 <= v4 && v4 <= 0xac1f_ffff) || (
    0xc0a8_0000 <= v4 && v4 <= 0xc0a8_ffff)
}

/// Whether a version 4 address is in 169.254.0.0/16.
fn is_v4_link_local(v4: u32) -> (r: bool)
    ensures
        r == v4_link_local(v4),
{
    0xa9fe_0000 <= v4 && v4 <= 0xa9fe_ffff
}

/// Whether an address is a loopback address.
pub fn is_loopback(ip: &IpAddr) -> (r: bool)
    ensures
        r == loopback(*ip),
{
    match *ip {
        IpAddr::V4(v4) => is_v4_loopback(v4),
        IpAddr::V6(v6) => v6 == 1 || match to_mapped_v4(v6) {
            Some(v4) => is_v4_loopback(v4),
            None => false,
        },
    }
}

/// Whether an address is a private one.
pub fn is_private(ip: &IpAddr) -> (r: bool)
    ensures
        r == private(*ip),
{
    match *ip {
        IpAddr::V4(v4) => is_v4_private(v4),
        IpAddr::V6(v6) => is_ipv6_unique_local(v6) || match to_mapped_v4(v6) {
            Some(v4) => is_v4_private(v4),
            None => false,
        },
    }
}

/// Whether an address stands for none.
pub fn is_unspecified(ip: &IpAddr) -> (r: bool)
    ensures
        r == unspecified(*ip),
{
    match *ip {
        IpAddr::V4(v4) => v4 == 0,
        IpAddr::V6(v6) => v6 == 0 || match to_mapped_v4(v6) {
            Some(v4) => v4 == 0,
            None => false,
        },
    }
}

/// Whether an address is a link-local one.
pub fn is_link_local(ip: &IpAddr) -> (r: bool)
    ensures
        r == link_local(*ip),
{
    match *ip {
        IpAddr::V4(v4) => is_v4_link_local(v4),
        IpAddr::V6(v6) => is_ipv6_link_local(v6) || match to_mapped_v4(v6) {
            Some(v4) => is_v4_link_local(v4),
            None => false,
        },
    }
}

/// Whether a version 6 address is in fe80::/10.
fn is_ipv6_link_local(v6: u128) -> (r: bool)
    ensures
        r == v6_link_local(v6),
{
    0xfe80_0000_0000_0000_0000_0000_0000_0000 <= v6 && v6
        <= 0xfebf_ffff_ffff_ffff_ffff_ffff_ffff_ffff
}

/// Whether a version 6 address is in fc00::/7.
fn is_ipv6_unique_local(v6: u128) -> (r: bool)
    ensures
        r == v6_unique_local(v6),
{
    0xfc00_0000_0000_0000_0000_0000_0000_0000 <= v6 && v6
        <= 0xfdff_ffff_ffff_ffff_ffff_ffff_ffff_ffff
}

/// Whether an address is kept from clients.
pub fn is_ip_blocked(ip: &IpAddr, config: &ServerConfig) -> (r: bool)
    ensures
        r == ip_blocked(*ip, config@),
{
    if is_unspecified(ip) {
        return true;
    }
    if !config.allow_loopback && is_loopback(ip) {
        return true;
    }
    if !config.allow_private_ips && is_private(ip) {
        return true;
    }
    !config.allow_private_ips && is_link_local(ip)
}

// ---------------------------------------------------------------------------------------
// Hostnames before they are resolved
// ---------------------------------------------------------------------------------------

/// Whether a hostname is an address.
pub open spec fn raw_ip(hostname: Seq<char>) -> bool {
    net::ipv4_of_text(hostname) is Some || net::ipv6_of_text(hostname) is Some
}

/// Whether a hostname is "172.", a number from 16 to 31 and a dot, and then anything.
pub open spec fn private_172(hostname: Seq<char>) -> bool {
    let rest = hostname.skip(4);
    let dot = text::first_index(rest, '.');
    &&& "172."@.is_prefix_of(hostname)
    &&& dot < rest.len()
    &&& text::decimal_up_to(rest.take(dot), u8::MAX as nat) matches Some(octet) && 16 <= octet <= 31
}

/// Whether a hostname is one of the names of this machine.
pub open spec fn local_name(hostname: Seq<char>) -> bool {
    ||| hostname == "localhost"@
    ||| hostname == "127.0.0.1"@
    ||| hostname == "::1"@
    ||| hostname == "0.0.0.0"@
    ||| hostname == "::"@
}

/// Whether a hostname looks like a private address of version 4.
pub open spec fn private_name(hostname: Seq<char>) -> bool {
    ||| "10."@.is_prefix_of(hostname)
    ||| "192.168."@.is_prefix_of(hostname)
    ||| "169.254."@.is_prefix_of(hostname)
    ||| private_172(hostname)
}

/// Whether a hostname is refused for what it looks like, given whether it is an address.
pub open spec fn name_refused(hostname: Seq<char>, is_raw: bool, config: ConfigView) -> bool {
    ||| !config.allow_direct_ip && is_raw
    ||| !config.allow_loopback && local_name(hostname)
    ||| !config.allow_private_ips && private_name(hostname)
    ||| !config.allow_loopback && "127."@.is_prefix_of(hostname)
}

/// Whether a hostname is an address.
pub fn is_raw_ip(hostname: &str) -> (r: bool)
    ensures
        r == raw_ip(hostname@),
{
    parse_ipv4(hostname).is_some() || parse_ipv6(hostname).is_some()
}

/// Whether a hostname looks like an address in 172.16.0.0/12.
pub fn hostname_is_private_172(hostname: &str) -> (r: bool)
    ensures
        r == private_172(hostname@),
{
    if !has_prefix(hostname, "172.") {
        return false;
    }
    let chars = chars_of(hostname);
    proof {
        reveal_strlit("172.");
        text::lemma_first_index(hostname@.skip(4), '.');
    }
    let dot: usize = find_char(&chars, 4, '.');
    if dot == chars.len() {
        return false;
    }
    proof {
        assert(chars@.subrange(4, dot as int) == hostname@.skip(4).take(dot - 4));
    }
    match read_decimal(&chars, 4, dot, u8::MAX as u64) {
        Some(octet) => 16 <= octet && octet <= 31,
        None => false,
    }
}

/// Whether a hostname is refused for what it looks like, given whether it is an address.
pub fn is_name_refused(hostname: &str, is_raw: bool, config: &ServerConfig) -> (r: bool)
    ensures
        r == name_refused(hostname@, is_raw, config@),
{
    if !config.allow_direct_ip && is_raw {
        return true;
    }
    if !config.allow_loopback && (same_text(hostname, "localhost") || same_text(
        hostname,
        "127.0.0.1",
    ) || same_text(hostname, "::1") || same_text(hostname, "0.0.0.0") || same_text(
        hostname,
        "::",
    )) {
        return true;
    }
    if !config.allow_private_ips && (has_prefix(hostname, "10.") || has_prefix(
        hostname,
        "192.168.",
    ) || has_prefix(hostname, "169.254.") || hostname_is_private_172(hostname)) {
        return true;
    }
    !config.allow_loopback && has_prefix(hostname, "127.")
}

/// Whether a hostname is refused before it is resolved. What it resolves to is judged by
/// `is_ip_blocked`.
pub fn is_hostname_blocked_pre_resolution(hostname: &str, config: &ServerConfig) -> (r: bool)
    ensures
        r == name_refused(hostname@, raw_ip(hostname@), config@),
{
    is_name_refused(hostname, is_raw_ip(hostname), config)
}

// ---------------------------------------------------------------------------------------
// The client's address behind a proxy
// ---------------------------------------------------------------------------------------

/// The network that a proxy's text stands for, given the network and the address that the text
/// may be read as: an address alone is a network of one address.
pub open spec fn proxy_net(net: Option<IpNet>, ip: Option<IpAddr>) -> Option<IpNet> {
    match net {
        Some(net) => Some(net),
        None => match ip {
            Some(IpAddr::V4(a)) => Some(IpNet { addr: IpAddr::V4(a), prefix_len: 32 }),
            Some(IpAddr::V6(a)) => Some(IpNet { addr: IpAddr::V6(a), prefix_len: 128 }),
            None => None,
        },
    }
}

/// The networks that some texts stand for, in order. Text that is neither a network nor an
/// address is left out.
pub open spec fn proxy_nets(texts: Seq<String>) -> Seq<IpNet>
    decreases texts.len(),
{
    if texts.len() == 0 {
        seq![]
    } else {
        let before = proxy_nets(texts.drop_last());
        let last = texts.last()@;
        match proxy_net(net::net_of_text(last), net::ip_of_text(last)) {
            Some(net) => before.push(net),
            None => before,
        }
    }
}

/// Whether an address lies in one of some networks.
pub open spec fn trusted(ip: IpAddr, nets: Seq<IpNet>) -> bool {
    exists|i: int| 0 <= i < nets.len() && net::in_net(#[trigger] nets[i], ip)
}

/// The part of a header's value that may name the client: what stands before the first comma,
/// without the white space around it.
pub open spec fn candidate(value: Seq<char>) -> Seq<char> {
    text::trimmed(value.take(text::first_index(value, ',')))
}

/// The candidates in the headers of one name, in order.
pub open spec fn header_candidates(headers: Seq<(String, String)>, target: Seq<char>) -> Seq<
    Seq<char>,
>
    decreases headers.len(),
{
    if headers.len() == 0 {
        seq![]
    } else {
        let before = header_candidates(headers.drop_last(), target);
        if text::lower(headers.last().0@) == text::lower(target) {
            before.push(candidate(headers.last().1@))
        } else {
            before
        }
    }
}

/// The candidates in all headers that may name the client, the first name first.
pub open spec fn all_candidates(headers: Seq<(String, String)>, targets: Seq<String>) -> Seq<
    Seq<char>,
>
    decreases targets.len(),
{
    if targets.len() == 0 {
        seq![]
    } else {
        all_candidates(headers, targets.drop_last()) + header_candidates(
            headers,
            targets.last()@,
        )
    }
}

/// The first candidate that is an address.
pub open spec fn first_address(candidates: Seq<Seq<char>>) -> Option<IpAddr>
    decreases candidates.len(),
{
    if candidates.len() == 0 {
        None
    } else {
        match net::ip_of_text(candidates[0]) {
            Some(ip) => Some(ip),
            None => first_address(candidates.skip(1)),
        }
    }
}

/// The client's address: what the headers say if they may be believed and say anything, else
/// the peer's own.
pub open spec fn client_address(
    peer: IpAddr,
    config: ConfigView,
    nets: Seq<IpNet>,
    named: Option<IpAddr>,
) -> IpAddr {
    if config.real_ip_enabled && config.real_ip_headers.len() > 0 && trusted(peer, nets) {
        match named {
            Some(ip) => ip,
            None => peer,
        }
    } else {
        peer
    }
}

/// The network that a proxy's text stands for, given what the text may be read as.
pub fn choose_proxy_net(net: Option<IpNet>, ip: Option<IpAddr>) -> (r: Option<IpNet>)
    ensures
        r == proxy_net(net, ip),
{
    match net {
        Some(net) => Some(net),
        None => match ip {
            Some(IpAddr::V4(a)) => Some(IpNet { addr: IpAddr::V4(a), prefix_len: 32 }),
            Some(IpAddr::V6(a)) => Some(IpNet { addr: IpAddr::V6(a), prefix_len: 128 }),
            None => None,
        },
    }
}

/// Reads the networks whose headers are believed. Text that stands for none is left out.
pub fn parse_trusted_proxies(proxy_strs: &[String]) -> (r: Vec<IpNet>)
    ensures
        r@ == proxy_nets(proxy_strs@),
{
    let mut nets: Vec<IpNet> = Vec::new();
    let mut i: usize = 0;
    proof {
        assert(proxy_strs@.take(0) == Seq::<String>::empty());
    }
    while i < proxy_strs.len()
        invariant
            i <= proxy_strs@.len(),
            nets@ == proxy_nets(proxy_strs@.take(i as int)),
        decreases proxy_strs@.len() - i,
    {
        let text = proxy_strs[i].as_str();
        proof {
            assert(proxy_strs@.take(i + 1).drop_last() == proxy_strs@.take(i as int));
        }
        if let Some(net) = choose_proxy_net(parse_net(text), parse_ip(text)) {
            nets.push(net);
        }
        i = i + 1;
    }
    proof {
        assert(proxy_strs@.take(proxy_strs@.len() as int) == proxy_strs@);
    }
    nets
}

/// Whether a peer's headers are believed.
pub fn is_trusted_proxy(peer_ip: &IpAddr, trusted_proxies: &[IpNet]) -> (r: bool)
    ensures
        r == trusted(*peer_ip, trusted_proxies@),
{
    let mut i: usize = 0;
    while i < trusted_proxies.len()
        invariant
            i <= trusted_proxies@.len(),
            forall|j: int| 0 <= j < i ==> !net::in_net(#[trigger] trusted_proxies@[j], *peer_ip),
        decreases trusted_proxies@.len() - i,
    {
        if net_contains(&trusted_proxies[i], peer_ip) {
            return true;
        }
        i = i + 1;
    }
    false
}

/// The part of a header's value that may name the client.
pub fn header_candidate(value: &str) -> (r: String)
    ensures
        r@ == candidate(value@),
{
    let chars = chars_of(value);
    proof {
        assert(chars@.skip(0) == chars@);
    }
    let comma: usize = find_char(&chars, 0, ',');
    let (from, to): (usize, usize) = trim_range(&chars, 0, comma);
    proof {
        assert(chars@.subrange(0, comma as int) == value@.take(comma as int));
    }
    value.substring_char(from, to).to_owned()
}

/// The candidates in all headers that may name the client, the first name first.
pub fn client_candidates(headers: &[(String, String)], config_headers: &[String]) -> (r: Vec<String>)
    ensures
        text::views(r@) == all_candidates(headers@, config_headers@),
{
    let mut found: Vec<String> = Vec::new();
    let mut i: usize = 0;
    proof {
        assert(config_headers@.take(0) == Seq::<String>::empty());
        assert(text::views(found@) == Seq::<Seq<char>>::empty());
    }
    while i < config_headers.len()
        invariant
            i <= config_headers@.len(),
            text::views(found@) == all_candidates(headers@, config_headers@.take(i as int)),
        decreases config_headers@.len() - i,
    {
        let ghost before = text::views(found@);
        let target = config_headers[i].as_str().to_ascii_lowercase();
        let mut j: usize = 0;
        proof {
            assert(headers@.take(0) == Seq::<(String, String)>::empty());
            assert(before + Seq::<Seq<char>>::empty() == before);
        }
        while j < headers.len()
            invariant
                i < config_headers@.len(),
                j <= headers@.len(),
                target@ == text::lower(config_headers@[i as int]@),
                text::views(found@) == before + header_candidates(
                    headers@.take(j as int),
                    config_headers@[i as int]@,
                ),
            decreases headers@.len() - j,
        {
            let name = headers[j].0.as_str().to_ascii_lowercase();
            let ghost so_far = found@;
            proof {
                assert(headers@.take(j + 1).drop_last() == headers@.take(j as int));
            }
            if name == target {
                let text = header_candidate(headers[j].1.as_str());
                found.push(text);
                proof {
                    assert(text::views(found@) == text::views(so_far).push(text@));
                }
            }
            proof {
                assert(text::views(found@) == before + header_candidates(
                    headers@.take(j + 1),
                    config_headers@[i as int]@,
                ));
            }
            j = j + 1;
        }
        proof {
            assert(headers@.take(headers@.len() as int) == headers@);
            assert(config_headers@.take(i + 1).drop_last() == config_headers@.take(i as int));
        }
        i = i + 1;
    }
    proof {
        assert(config_headers@.take(config_headers@.len() as int) == config_headers@);
    }
    found
}

/// The address that the headers name: of the headers that may name it, the first that does.
pub fn extract_real_ip(headers: &[(String, String)], config_headers: &[String]) -> (r: Option<
    IpAddr,
>)
    ensures
        r == first_address(all_candidates(headers@, config_headers@)),
{
    let candidates = client_candidates(headers, config_headers);
    let ghost all = text::views(candidates@);
    let mut i: usize = 0;
    proof {
        assert(all.skip(0) == all);
    }
    while i < candidates.len()
        invariant
            i <= candidates@.len(),
            all == text::views(candidates@),
            all == all_candidates(headers@, config_headers@),
            first_address(all.skip(i as int)) == first_address(all),
        decreases candidates@.len() - i,
    {
        proof {
            assert(all.skip(i as int)[0] == candidates@[i as int]@);
            assert(all.skip(i as int).skip(1) == all.skip(i + 1));
        }
        if let Some(ip) = parse_ip(candidates[i].as_str()) {
            return Some(ip);
        }
        i = i + 1;
    }
    None
}

/// The client's address, given what the headers name.
pub fn choose_client_ip(
    peer: IpAddr,
    config: &ServerConfig,
    trusted_proxies: &[IpNet],
    named: Option<IpAddr>,
) -> (r: IpAddr)
    ensures
        r == client_address(peer, config@, trusted_proxies@, named),
{
    if config.real_ip_enabled && config.real_ip_headers.len() > 0 && is_trusted_proxy(
        &peer,
        trusted_proxies,
    ) {
        match named {
            Some(ip) => ip,
            None => peer,
        }
    } else {
        peer
    }
}

/// The client's address.
pub fn client_ip(
    peer: IpAddr,
    config: &ServerConfig,
    trusted_proxies: &[IpNet],
    headers: &[(String, String)],
) -> (r: IpAddr)
    ensures
        r == client_address(
            peer,
            config@,
            trusted_proxies@,
            first_address(all_candidates(headers@, config@.real_ip_headers)),
        ),
{
    let named = extract_real_ip(headers, config.real_ip_headers.as_slice());
    choose_client_ip(peer, config, trusted_proxies, named)
}

// ---------------------------------------------------------------------------------------
// Laws
// ---------------------------------------------------------------------------------------

/// The version 6 address that maps a version 4 address.
pub open spec fn mapping(v4: u32) -> IpAddr {
    IpAddr::V6((0xffff_0000_0000 + v4) as u128)
}

/// An address is judged the same whether it is given in version 4 or mapped into version 6.
pub proof fn mapping_changes_nothing(v4: u32, config: ConfigView)
    ensures
        loopback(mapping(v4)) == loopback(IpAddr::V4(v4)),
        private(mapping(v4)) == private(IpAddr::V4(v4)),
        unspecified(mapping(v4)) == unspecified(IpAddr::V4(v4)),
        link_local(mapping(v4)) == link_local(IpAddr::V4(v4)),
        ip_blocked(mapping(v4), config) == ip_blocked(IpAddr::V4(v4), config),
{
}

/// The unspecified address is never reached, and with everything allowed no other address is
/// kept from clients.
pub proof fn only_the_unspecified_is_always_blocked(ip: IpAddr, config: ConfigView)
    ensures
        unspecified(ip) ==> ip_blocked(ip, config),
        config.allow_loopback && config.allow_private_ips ==> ip_blocked(ip, config)
            == unspecified(ip),
{
}

/// With loopback and private addresses kept from clients, no such address is reached, whatever
/// name led to it.
pub proof fn local_addresses_are_kept(ip: IpAddr, config: ConfigView)
    ensures
        !config.allow_loopback && loopback(ip) ==> ip_blocked(ip, config),
        !config.allow_private_ips && (private(ip) || link_local(ip)) ==> ip_blocked(ip, config),
{
}

/// Headers from a peer outside the trusted networks say nothing about the client.
pub proof fn untrusted_headers_are_ignored(
    peer: IpAddr,
    config: ConfigView,
    nets: Seq<IpNet>,
    named: Option<IpAddr>,
)
    requires
        !trusted(peer, nets),
    ensures
        client_address(peer, config, nets, named) == peer,
{
}

/// With no trusted networks, no headers are believed.
pub proof fn no_networks_no_trust(ip: IpAddr)
    ensures
        !trusted(ip, seq![]),
{
}

/// Which addresses of version 4 are kept from clients, octet by octet: the one of zeros; those
/// that begin with 127 unless loopback is allowed; those that begin with 10, with 172 and a number
/// from 16 to 31, with 192 and 168, or with 169 and 254, unless private addresses are allowed.
pub proof fn which_v4_addresses_are_kept(v4: u32, config: ConfigView)
    ensures
        ({
            let a = v4 / 0x100_0000;
            let b = v4 / 0x1_0000 % 0x100;
            let near = a == 127;
            let inner = a == 10 || (a == 172 && b / 16 == 1) || (a == 192 && b == 168) || (a == 169
                && b == 254);
            ip_blocked(IpAddr::V4(v4), config) <==> v4 == 0 || (near && !config.allow_loopback) || (
            inner && !config.allow_private_ips)
        }),
{
}

/// Which addresses of version 6 are kept from clients: the one of zeros; the one before it and
/// nothing else as loopback; those whose first seven bits are those of fc00, or whose first ten
/// are those of fe80, as private; and those that map such an address of version 4.
pub proof fn which_v6_addresses_are_kept(v6: u128, config: ConfigView)
    ensures
        ({
            let top = v6 / 0x1_0000_0000_0000_0000_0000_0000_0000;
            let inner = top / 0x200 == 0xfc00int / 0x200 || top / 0x40 == 0xfe80int / 0x40;
            let maps = v6 / 0x1_0000_0000 == 0xffff;
            ip_blocked(IpAddr::V6(v6), config) <==> v6 == 0 || (v6 == 1 && !config.allow_loopback)
                || (inner && !config.allow_private_ips) || (maps && ip_blocked(
                IpAddr::V4((v6 % 0x1_0000_0000) as u32),
                config,
            ))
        }),
{
    if v6 / 0x1_0000_0000 == 0xffff {
        assert(v6 % 0x1_0000_0000 == v6 - 0xffff_0000_0000);
    }
}

/// A hostname is refused for what it looks like exactly if it is an address where none may be
/// given, names this machine where loopback is not allowed, or begins like a private address where
/// none is allowed.
pub proof fn which_names_are_refused(hostname: Seq<char>, is_raw: bool, config: ConfigView)
    ensures
        ({
            let near = hostname == "localhost"@ || hostname == "::1"@ || hostname == "0.0.0.0"@
                || hostname == "::"@ || "127."@.is_prefix_of(hostname);
            let inner = "10."@.is_prefix_of(hostname) || "192.168."@.is_prefix_of(hostname)
                || "169.254."@.is_prefix_of(hostname) || private_172(hostname);
            name_refused(hostname, is_raw, config) <==> (is_raw && !config.allow_direct_ip) || (near
                && !config.allow_loopback) || (inner && !config.allow_private_ips)
        }),
{
    reveal_strlit("127.");
    reveal_strlit("127.0.0.1");
    assert("127."@ == "127.0.0.1"@.subrange(0, 4));
}

/// Of the names that begin with "172." those are private whose next part, up to a dot, is a number
/// from 16 to 31.
pub proof fn which_names_are_private_172(part: Seq<char>, rest: Seq<char>, hostname: Seq<char>)
    requires
        forall|i: int| 0 <= i < part.len() ==> part[i] != '.',
    ensures
        private_172("172."@ + part + seq!['.'] + rest) <==> (text::decimal(part) matches Some(n)
            && 16 <= n && n <= 31),
        !private_172("172."@ + part),
        !"172."@.is_prefix_of(hostname) ==> !private_172(hostname),
{
    reveal_strlit("172.");
    let name = "172."@ + part + seq!['.'] + rest;
    let after = name.skip(4);
    assert("172."@ == name.subrange(0, 4));
    assert(after == part + seq!['.'] + rest);
    text::lemma_first_index(after, '.');
    let dot = text::first_index(after, '.');
    assert(after[part.len() as int] == '.');
    if dot < part.len() {
        assert(after[dot] == part[dot]);
    }
    assert(dot == part.len());
    assert(after.take(dot) == part);
    let short = "172."@ + part;
    assert(short.skip(4) == part);
    text::lemma_first_index(part, '.');
}

/// A peer is believed exactly if one of the texts is a network that holds it, or is its address.
pub proof fn who_is_believed(texts: Seq<String>, ip: IpAddr)
    ensures
        trusted(ip, proxy_nets(texts)) <==> exists|i: int|
            0 <= i < texts.len() && match net::net_of_text((#[trigger] texts[i])@) {
                Some(net) => net::in_net(net, ip),
                None => net::ip_of_text(texts[i]@) == Some(ip),
            },
    decreases texts.len(),
{
    if texts.len() > 0 {
        let shorter = texts.drop_last();
        let last = texts.last()@;
        who_is_believed(shorter, ip);
        let before = proxy_nets(shorter);
        let after = proxy_nets(texts);
        let holds = match net::net_of_text(last) {
            Some(net) => net::in_net(net, ip),
            None => net::ip_of_text(last) == Some(ip),
        };
        if let Some(addr) = net::ip_of_text(last) {
            net::single_address_net(addr, ip);
        }
        assert(trusted(ip, after) <==> trusted(ip, before) || holds) by {
            if trusted(ip, before) {
                let i = choose|i: int|
                    0 <= i < before.len() && net::in_net(#[trigger] before[i], ip);
                assert(after[i] == before[i]);
            }
            if holds {
                assert(net::in_net(after[before.len() as int], ip));
            }
            if trusted(ip, after) && !trusted(ip, before) {
                let i = choose|i: int| 0 <= i < after.len() && net::in_net(#[trigger] after[i], ip);
                if i < before.len() {
                    assert(after[i] == before[i]);
                }
            }
        }
        assert forall|i: int| 0 <= i < shorter.len() implies shorter[i] == #[trigger] texts[i] by {
        }
        if trusted(ip, before) {
            let i = choose|i: int|
                0 <= i < shorter.len() && match net::net_of_text((#[trigger] shorter[i])@) {
                    Some(net) => net::in_net(net, ip),
                    None => net::ip_of_text(shorter[i]@) == Some(ip),
                };
            assert(texts[i] == shorter[i]);
        }
        assert(texts[texts.len() - 1] == texts.last());
        if exists|i: int|
            0 <= i < texts.len() && match net::net_of_text((#[trigger] texts[i])@) {
                Some(net) => net::in_net(net, ip),
                None => net::ip_of_text(texts[i]@) == Some(ip),
            } {
            let i = choose|i: int|
                0 <= i < texts.len() && match net::net_of_text((#[trigger] texts[i])@) {
                    Some(net) => net::in_net(net, ip),
                    None => net::ip_of_text(texts[i]@) == Some(ip),
                };
            if i < shorter.len() {
                assert(shorter[i] == texts[i]);
            }
        }
    }
}

/// Headers name the client exactly if they are looked for, a name to look for is given, the peer
/// is believed, and an address was found; in all other cases the peer is the client.
pub proof fn who_the_client_is(
    peer: IpAddr,
    config: ConfigView,
    nets: Seq<IpNet>,
    named: Option<IpAddr>,
)
    ensures
        ({
            let believed = config.real_ip_enabled && config.real_ip_headers.len() > 0 && exists|
                i: int,
            |
                0 <= i < nets.len() && net::in_net(#[trigger] nets[i], peer);
            &&& believed && named is Some ==> client_address(peer, config, nets, named) == named->0
            &&& !believed || named is None ==> client_address(peer, config, nets, named) == peer
        }),
{
}

/// What may name the client stands before the first comma, without the white space around it.
pub proof fn what_stands_before_the_comma(part: Seq<char>, rest: Seq<char>)
    requires
        forall|i: int| 0 <= i < part.len() ==> part[i] != ',',
    ensures
        candidate(part + seq![','] + rest) == text::trimmed(part),
        candidate(part) == text::trimmed(part),
{
    let value = part + seq![','] + rest;
    text::lemma_first_index(value, ',');
    text::lemma_first_index(part, ',');
    let comma = text::first_index(value, ',');
    assert(value[part.len() as int] == ',');
    if comma < part.len() {
        assert(value[comma] == part[comma]);
    }
    assert(value.take(comma) == part);
    let end = text::first_index(part, ',');
    assert(part.take(end) == part);
}

/// Candidates are tried in order.
proof fn lemma_first_address_of_both(a: Seq<Seq<char>>, b: Seq<Seq<char>>)
    ensures
        first_address(a + b) == match first_address(a) {
            Some(ip) => Some(ip),
            None => first_address(b),
        },
    decreases a.len(),
{
    if a.len() == 0 {
        assert(a + b == b);
    } else {
        assert((a + b)[0] == a[0]);
        assert((a + b).skip(1) == a.skip(1) + b);
        lemma_first_address_of_both(a.skip(1), b);
    }
}

/// The address in a header, if it has the name looked for and is an address.
pub open spec fn address_in(header: (String, String), target: Seq<char>) -> Option<IpAddr> {
    if text::lower(header.0@) == text::lower(target) {
        net::ip_of_text(candidate(header.1@))
    } else {
        None
    }
}

/// Of the headers of one name the first that holds an address names the client.
pub proof fn the_first_header_counts(headers: Seq<(String, String)>, target: Seq<char>, i: int)
    ensures
        (forall|j: int|
            0 <= j < headers.len() ==> address_in(#[trigger] headers[j], target) is None) ==> first_address(header_candidates(headers, target)) is None,
        0 <= i < headers.len() && address_in(headers[i], target) is Some && (forall|j: int|
            0 <= j < i ==> address_in(#[trigger] headers[j], target) is None) ==> first_address(
            header_candidates(headers, target),
        ) == address_in(headers[i], target),
    decreases headers.len(),
{
    if headers.len() > 0 {
        let shorter = headers.drop_last();
        let last = headers.last();
        assert(headers[headers.len() - 1] == last);
        the_first_header_counts(shorter, target, i);
        let before = header_candidates(shorter, target);
        assert forall|j: int| 0 <= j < shorter.len() implies shorter[j] == #[trigger] headers[j] by {
        }
        let own = seq![candidate(last.1@)];
        assert(first_address(own.skip(1)) is None);
        assert(first_address(own) == net::ip_of_text(candidate(last.1@)));
        lemma_first_address_of_both(before, own);
        assert(before.push(candidate(last.1@)) == before + own);
        if forall|j: int|
            0 <= j < headers.len() ==> address_in(#[trigger] headers[j], target) is None {
            assert forall|j: int| 0 <= j < shorter.len() implies address_in(
                #[trigger] shorter[j],
                target,
            ) is None by {
                assert(headers[j] == shorter[j]);
            }
        }
        if i == headers.len() - 1 && (forall|j: int|
            0 <= j < i ==> address_in(#[trigger] headers[j], target) is None) {
            assert forall|j: int| 0 <= j < shorter.len() implies address_in(
                #[trigger] shorter[j],
                target,
            ) is None by {
                assert(headers[j] == shorter[j]);
            }
        }
        if 0 <= i < shorter.len() {
            assert(shorter[i] == headers[i]);
            if forall|j: int| 0 <= j < i ==> address_in(#[trigger] headers[j], target) is None {
                assert forall|j: int| 0 <= j < i implies address_in(
                    #[trigger] shorter[j],
                    target,
                ) is None by {
                    assert(headers[j] == shorter[j]);
                }
            }
        }
    }
}

/// Whether some header of a name holds an address.
pub open spec fn names_someone(headers: Seq<(String, String)>, target: Seq<char>) -> bool {
    exists|j: int| 0 <= j < headers.len() && address_in(#[trigger] headers[j], target) is Some
}

/// Of the names that are looked for, the first with an address in some header of that name decides,
/// whatever the others hold; and if there is none, no one is named.
pub proof fn the_first_name_counts(headers: Seq<(String, String)>, targets: Seq<String>, t: int)
    ensures
        (forall|u: int|
            0 <= u < targets.len() ==> !names_someone(headers, (#[trigger] targets[u])@)) ==> first_address(all_candidates(headers, targets)) is None,
        0 <= t < targets.len() && names_someone(headers, targets[t]@) && (forall|u: int|
            0 <= u < t ==> !names_someone(headers, (#[trigger] targets[u])@)) ==> first_address(
            all_candidates(headers, targets),
        ) == first_address(header_candidates(headers, targets[t]@)),
    decreases targets.len(),
{
    if targets.len() > 0 {
        let shorter = targets.drop_last();
        let last = targets.last();
        assert(targets[targets.len() - 1] == last);
        the_first_name_counts(headers, shorter, t);
        lemma_first_address_of_both(
            all_candidates(headers, shorter),
            header_candidates(headers, last@),
        );
        the_first_header_counts(headers, last@, 0);
        if !names_someone(headers, last@) {
            assert(first_address(header_candidates(headers, last@)) is None);
        }
        if forall|u: int|
            0 <= u < targets.len() ==> !names_someone(headers, (#[trigger] targets[u])@) {
            assert forall|u: int| 0 <= u < shorter.len() implies !names_someone(
                headers,
                (#[trigger] shorter[u])@,
            ) by {
                assert(targets[u] == shorter[u]);
            }
        }
        if t == targets.len() - 1 && (forall|u: int|
            0 <= u < t ==> !names_someone(headers, (#[trigger] targets[u])@)) {
            assert forall|u: int| 0 <= u < shorter.len() implies !names_someone(
                headers,
                (#[trigger] shorter[u])@,
            ) by {
                assert(targets[u] == shorter[u]);
            }
        }
        if 0 <= t < shorter.len() {
            assert(shorter[t] == targets[t]);
            if names_someone(headers, targets[t]@) && forall|u: int|
                0 <= u < t ==> !names_someone(headers, (#[trigger] targets[u])@) {
                assert forall|u: int| 0 <= u < t implies !names_someone(
                    headers,
                    (#[trigger] shorter[u])@,
                ) by {
                    assert(targets[u] == shorter[u]);
                }
                lemma_someone_is_found(headers, targets[t]@);
            }
        }
    }
}

/// Where some header of a name holds an address, one is found.
proof fn lemma_someone_is_found(headers: Seq<(String, String)>, target: Seq<char>)
    requires
        names_someone(headers, target),
    ensures
        first_address(header_candidates(headers, target)) is Some,
    decreases headers.len(),
{
    let shorter = headers.drop_last();
    let last = headers.last();
    let own = seq![candidate(last.1@)];
    let before = header_candidates(shorter, target);
    assert(first_address(own.skip(1)) is None);
    lemma_first_address_of_both(before, own);
    assert(before.push(candidate(last.1@)) == before + own);
    let j = choose|j: int|
        0 <= j < headers.len() && address_in(#[trigger] headers[j], target) is Some;
    if j < shorter.len() {
        assert(shorter[j] == headers[j]);
        lemma_someone_is_found(shorter, target);
    } else {
        assert(headers[j] == last);
        assert(first_address(own) is Some);
    }
}

/// A hostname counts as an address exactly if it is one of either version.
pub proof fn addresses_of_both_versions_count(hostname: Seq<char>)
    ensures
        net::ipv4_of_text(hostname) is Some ==> raw_ip(hostname),
        net::ipv6_of_text(hostname) is Some ==> raw_ip(hostname),
        raw_ip(hostname) && net::ipv4_of_text(hostname) is None ==> net::ipv6_of_text(hostname)
            is Some,
{
}

/// The client is the peer unless headers are looked for and the peer is believed; the header that
/// counts is the first that holds an address, of the first name that leads to one.
pub proof fn clients_are_told_by_their_headers(
    peer: IpAddr,
    config: ServerConfig,
    nets: &[IpNet],
    headers: &[(String, String)],
    t: int,
    h: int,
    r: IpAddr,
)
    requires
        call_ensures(client_ip, (peer, &config, nets, headers), r),
    ensures
        !config.real_ip_enabled || !trusted(peer, nets@) ==> r == peer,
        ({
            let targets = config.real_ip_headers@;
            let believed = config.real_ip_enabled && trusted(peer, nets@);
            &&& (forall|u: int|
                0 <= u < targets.len() ==> !names_someone(headers@, (#[trigger] targets[u])@))
                ==> r == peer
            &&& believed && 0 <= t < targets.len() && (forall|u: int|
                0 <= u < t ==> !names_someone(headers@, (#[trigger] targets[u])@)) && 0 <= h
                < headers@.len() && address_in(headers@[h], targets[t]@) is Some && (forall|j: int|
                0 <= j < h ==> address_in(#[trigger] headers@[j], targets[t]@) is None) ==> Some(r)
                == address_in(headers@[h], targets[t]@)
        }),
{
    let targets = config.real_ip_headers@;
    the_first_name_counts(headers@, targets, t);
    if 0 <= t < targets.len() {
        the_first_header_counts(headers@, targets[t]@, h);
        if 0 <= h < headers@.len() && address_in(headers@[h], targets[t]@) is Some {
            assert(names_someone(headers@, targets[t]@));
        }
    }
}

/// A hostname is refused before it is resolved for what it looks like alone, where an address of
/// either version counts as an address.
pub proof fn names_are_refused_for_their_looks(hostname: &str, config: ServerConfig, r: bool)
    requires
        call_ensures(is_hostname_blocked_pre_resolution, (hostname, &config), r),
    ensures
        ({
            let is_raw = net::ipv4_of_text(hostname@) is Some || net::ipv6_of_text(
                hostname@,
            ) is Some;
            let near = local_name(hostname@) || "127."@.is_prefix_of(hostname@);
            r <==> (is_raw && !config.allow_direct_ip) || (near && !config.allow_loopback) || (
            private_name(hostname@) && !config.allow_private_ips)
        }),
{
}

} // verus!
