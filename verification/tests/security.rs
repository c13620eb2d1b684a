//! Kinds of addresses, refused hostnames, and the client's address behind a proxy.

use shrimpwisp::net::{IpAddr, IpNet};
use shrimpwisp::server::config::ServerConfig;
use shrimpwisp::server::security::{
    choose_client_ip, client_candidates, client_ip, extract_real_ip, header_candidate,
    hostname_is_private_172, is_hostname_blocked_pre_resolution, is_ip_blocked, is_link_local,
    is_loopback, is_name_refused, is_private, is_raw_ip, is_trusted_proxy, is_unspecified,
    parse_trusted_proxies,
};

fn ip(text: &str) -> IpAddr {
    text.parse().unwrap()
}

#[test]
fn test_is_loopback() {
    assert!(is_loopback(&"127.0.0.1".parse().unwrap()));
    assert!(is_loopback(&"127.0.0.2".parse().unwrap()));
    assert!(is_loopback(&"::1".parse().unwrap()));
    assert!(!is_loopback(&"8.8.8.8".parse().unwrap()));
}

#[test]
fn test_is_private() {
    assert!(is_private(&"10.0.0.1".parse().unwrap()));
    assert!(is_private(&"172.16.0.1".parse().unwrap()));
    assert!(is_private(&"192.168.1.1".parse().unwrap()));
    assert!(!is_private(&"8.8.8.8".parse().unwrap()));
}

#[test]
fn test_is_raw_ip() {
    assert!(is_raw_ip("127.0.0.1"));
    assert!(is_raw_ip("::1"));
    assert!(is_raw_ip("10.0.0.1"));
    assert!(!is_raw_ip("example.com"));
    assert!(!is_raw_ip("localhost"));
}

#[test]
fn test_extract_real_ip() {
    let headers = vec![
        ("X-Forwarded-For".to_string(), "1.2.3.4, 5.6.7.8".to_string()),
        ("CF-Connecting-IP".to_string(), "9.10.11.12".to_string()),
    ];

    // CF-Connecting-IP has priority
    let config_headers = vec![
        "CF-Connecting-IP".to_string(),
        "X-Forwarded-For".to_string(),
    ];
    assert_eq!(
        extract_real_ip(&headers, &config_headers),
        Some("9.10.11.12".parse().unwrap())
    );

    // X-Forwarded-For takes leftmost IP
    let config_headers = vec!["X-Forwarded-For".to_string()];
    assert_eq!(
        extract_real_ip(&headers, &config_headers),
        Some("1.2.3.4".parse().unwrap())
    );
}

#[test]
fn addresses_are_read_as_numbers() {
    assert_eq!(ip("1.2.3.4"), IpAddr::V4(0x0102_0304));
    assert_eq!(ip("::1"), IpAddr::V6(1));
    assert_eq!(ip("::ffff:1.2.3.4"), IpAddr::V6(0xffff_0102_0304));
    assert!("1.2.3".parse::<IpAddr>().is_err());
    assert!("".parse::<IpAddr>().is_err());
}

#[test]
fn the_edges_of_the_blocks() {
    assert!(!is_loopback(&ip("126.255.255.255")));
    assert!(is_loopback(&ip("127.255.255.255")));
    assert!(!is_loopback(&ip("128.0.0.0")));
    assert!(!is_loopback(&ip("::2")));
    assert!(!is_private(&ip("9.255.255.255")));
    assert!(is_private(&ip("10.255.255.255")));
    assert!(!is_private(&ip("172.15.255.255")));
    assert!(is_private(&ip("172.31.255.255")));
    assert!(!is_private(&ip("172.32.0.0")));
    assert!(!is_private(&ip("192.167.255.255")));
    assert!(!is_private(&ip("192.169.0.0")));
    assert!(is_private(&ip("fc00::")));
    assert!(is_private(&ip("fdff:ffff:ffff:ffff:ffff:ffff:ffff:ffff")));
    assert!(!is_private(&ip("fe00::")));
    assert!(is_link_local(&ip("169.254.0.0")));
    assert!(!is_link_local(&ip("169.253.255.255")));
    assert!(is_link_local(&ip("fe80::1")));
    assert!(is_link_local(&ip("febf::")));
    assert!(!is_link_local(&ip("fec0::")));
    assert!(is_unspecified(&ip("0.0.0.0")));
    assert!(is_unspecified(&ip("::")));
    assert!(!is_unspecified(&ip("0.0.0.1")));
}

#[test]
fn mapped_addresses_are_judged_alike() {
    for text in ["127.0.0.1", "10.1.2.3", "0.0.0.0", "169.254.9.9", "8.8.8.8"] {
        let plain = ip(text);
        let mapped = ip(&format!("::ffff:{}", text));
        assert_eq!(is_loopback(&plain), is_loopback(&mapped));
        assert_eq!(is_private(&plain), is_private(&mapped));
        assert_eq!(is_unspecified(&plain), is_unspecified(&mapped));
        assert_eq!(is_link_local(&plain), is_link_local(&mapped));
    }
}

#[test]
fn blocked_addresses_follow_the_flags() {
    let mut config = ServerConfig::default();
    assert!(is_ip_blocked(&ip("0.0.0.0"), &config));
    assert!(is_ip_blocked(&ip("::"), &config));
    assert!(!is_ip_blocked(&ip("127.0.0.1"), &config));
    assert!(!is_ip_blocked(&ip("10.0.0.1"), &config));
    config.allow_loopback = false;
    assert!(is_ip_blocked(&ip("127.0.0.1"), &config));
    assert!(!is_ip_blocked(&ip("10.0.0.1"), &config));
    config.allow_private_ips = false;
    assert!(is_ip_blocked(&ip("10.0.0.1"), &config));
    assert!(is_ip_blocked(&ip("169.254.1.1"), &config));
    assert!(is_ip_blocked(&ip("fe80::1"), &config));
    assert!(!is_ip_blocked(&ip("8.8.8.8"), &config));
}

#[test]
fn hostnames_refused_before_resolution() {
    let mut config = ServerConfig::default();
    assert!(!is_hostname_blocked_pre_resolution("127.0.0.1", &config));
    assert!(!is_hostname_blocked_pre_resolution("localhost", &config));
    config.allow_direct_ip = false;
    assert!(is_hostname_blocked_pre_resolution("8.8.8.8", &config));
    assert!(is_hostname_blocked_pre_resolution("2001:db8::1", &config));
    assert!(!is_hostname_blocked_pre_resolution("example.com", &config));
    config.allow_direct_ip = true;
    config.allow_loopback = false;
    for name in ["localhost", "127.0.0.1", "::1", "0.0.0.0", "::", "127.example"] {
        assert!(is_hostname_blocked_pre_resolution(name, &config));
    }
    assert!(!is_hostname_blocked_pre_resolution("LOCALHOST", &config));
    config.allow_loopback = true;
    config.allow_private_ips = false;
    for name in ["10.1.2.3", "192.168.0.1", "169.254.1.1", "172.16.0.1"] {
        assert!(is_hostname_blocked_pre_resolution(name, &config));
    }
    for name in ["11.1.2.3", "172.32.0.1", "example.com"] {
        assert!(!is_hostname_blocked_pre_resolution(name, &config));
    }
}

#[test]
fn a_hostname_is_refused_by_what_it_was_read_as() {
    let mut config = ServerConfig::default();
    config.allow_direct_ip = false;
    assert!(is_name_refused("whatever", true, &config));
    assert!(!is_name_refused("whatever", false, &config));
}

#[test]
fn hostnames_that_look_like_172() {
    assert!(hostname_is_private_172("172.16.0.1"));
    assert!(hostname_is_private_172("172.31.anything"));
    assert!(hostname_is_private_172("172.+20.x"));
    assert!(hostname_is_private_172("172.016."));
    assert!(!hostname_is_private_172("172.15.0.1"));
    assert!(!hostname_is_private_172("172.32.0.1"));
    assert!(!hostname_is_private_172("172.16"));
    assert!(!hostname_is_private_172("172.."));
    assert!(!hostname_is_private_172("172.272.0.1"));
    assert!(!hostname_is_private_172("172.1x.0.1"));
    assert!(!hostname_is_private_172("173.16.0.1"));
    assert!(!hostname_is_private_172("172"));
}

#[test]
fn trusted_networks_are_read() {
    let texts = vec![
        "10.0.0.0/8".to_string(),
        "192.0.2.1".to_string(),
        "nonsense".to_string(),
        "2001:db8::/32".to_string(),
        "::1".to_string(),
        "10.0.0.0/33".to_string(),
    ];
    let nets = parse_trusted_proxies(&texts);
    assert_eq!(
        nets,
        vec![
            IpNet { addr: ip("10.0.0.0"), prefix_len: 8 },
            IpNet { addr: ip("192.0.2.1"), prefix_len: 32 },
            IpNet { addr: ip("2001:db8::"), prefix_len: 32 },
            IpNet { addr: ip("::1"), prefix_len: 128 },
        ]
    );
    assert!(is_trusted_proxy(&ip("10.255.0.1"), &nets));
    assert!(!is_trusted_proxy(&ip("11.0.0.1"), &nets));
    assert!(is_trusted_proxy(&ip("192.0.2.1"), &nets));
    assert!(!is_trusted_proxy(&ip("192.0.2.2"), &nets));
    assert!(is_trusted_proxy(&ip("2001:db8:1::5"), &nets));
    assert!(!is_trusted_proxy(&ip("2001:db9::"), &nets));
    assert!(!is_trusted_proxy(&ip("10.0.0.1"), &[]));
}

#[test]
fn networks_and_their_prefixes() {
    let all_v4 = [IpNet { addr: ip("1.2.3.4"), prefix_len: 0 }];
    assert!(is_trusted_proxy(&ip("255.0.0.1"), &all_v4));
    assert!(!is_trusted_proxy(&ip("::1"), &all_v4));
    let all_v6 = [IpNet { addr: ip("::"), prefix_len: 0 }];
    assert!(is_trusted_proxy(&ip("ffff::"), &all_v6));
    // A prefix longer than an address holds nothing, not even the address.
    let too_long = [IpNet { addr: ip("1.2.3.4"), prefix_len: 33 }];
    assert!(!is_trusted_proxy(&ip("1.2.3.4"), &too_long));
    let twelve = [IpNet { addr: ip("172.16.200.1"), prefix_len: 12 }];
    assert!(is_trusted_proxy(&ip("172.31.0.0"), &twelve));
    assert!(!is_trusted_proxy(&ip("172.32.0.0"), &twelve));
}

#[test]
fn candidates_in_headers() {
    assert_eq!(header_candidate("1.2.3.4, 5.6.7.8"), "1.2.3.4");
    assert_eq!(header_candidate(" \u{2003}x\t"), "x");
    assert_eq!(header_candidate(",a"), "");
    assert_eq!(header_candidate(""), "");
    let headers = vec![
        ("x-real-ip".to_string(), " a ".to_string()),
        ("Other".to_string(), "b".to_string()),
        ("X-REAL-IP".to_string(), "c,d".to_string()),
    ];
    let names = vec!["other".to_string(), "X-Real-Ip".to_string()];
    assert_eq!(client_candidates(&headers, &names), vec!["b", "a", "c"]);
}

#[test]
fn the_first_candidate_that_is_an_address_counts() {
    let headers = vec![
        ("a".to_string(), "unknown".to_string()),
        ("a".to_string(), "1.1.1.1".to_string()),
        ("b".to_string(), "2.2.2.2".to_string()),
    ];
    let names = vec!["a".to_string(), "b".to_string()];
    assert_eq!(extract_real_ip(&headers, &names), Some(ip("1.1.1.1")));
    assert_eq!(extract_real_ip(&headers, &["c".to_string()]), None);
}

#[test]
fn untrusted_peers_cannot_choose_their_address() {
    let mut config = ServerConfig::default();
    config.real_ip_headers = vec!["x-real-ip".to_string()];
    let headers = vec![("X-Real-IP".to_string(), "9.9.9.9".to_string())];
    let nets = parse_trusted_proxies(&["127.0.0.1/32".to_string()]);
    let peer = ip("127.0.0.1");
    assert_eq!(client_ip(peer, &config, &nets, &headers), peer);
    config.real_ip_enabled = true;
    assert_eq!(client_ip(peer, &config, &nets, &headers), ip("9.9.9.9"));
    assert_eq!(client_ip(ip("127.0.0.2"), &config, &nets, &headers), ip("127.0.0.2"));
    assert_eq!(client_ip(peer, &config, &nets, &[]), peer);
    assert_eq!(client_ip(peer, &config, &[], &headers), peer);
    assert_eq!(choose_client_ip(peer, &config, &nets, None), peer);
    assert_eq!(choose_client_ip(peer, &config, &nets, Some(ip("1.1.1.1"))), ip("1.1.1.1"));
    config.real_ip_headers = vec![];
    assert_eq!(choose_client_ip(peer, &config, &nets, Some(ip("1.1.1.1"))), peer);
}
