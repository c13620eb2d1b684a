//! Configuration: defaults, the file, the command line, and the number of workers.

use shrimpwisp::server::cli::{
    choose_bind, choose_workers, configure, num_physical_cores, BindChoice, CliOptions,
    ConfigError, CpuEntry,
};
use shrimpwisp::server::config::{
    expand_ports, merge_json_config, merge_json_over, JsonAuth, JsonConfig, JsonDns,
    JsonFilterList, JsonRealIp, PortEntry, ServerConfig,
};

fn texts(list: &[&str]) -> Vec<String> {
    list.iter().map(|t| t.to_string()).collect()
}

fn cli() -> CliOptions {
    CliOptions {
        words: texts(&["shrimpwisp"]),
        workers: 0,
        buffer_size: 65535,
        no_tcp_nodelay: false,
        block_loopback: false,
        block_direct_ip: false,
        block_private_ips: false,
        max_streams: 0,
        max_frame_size: 0,
        password: None,
        prod: false,
        log_level: None,
        log_format: None,
        max_connections: None,
        idle_timeout_secs: None,
        max_connections_per_ip: None,
        connection_window_secs: None,
        ws_ping_interval_secs: None,
        ws_pong_timeout_secs: None,
        tcp_keepalive_secs: None,
    }
}

fn list(hostnames: &[&str], ports: Vec<PortEntry>) -> Option<JsonFilterList> {
    Some(JsonFilterList { hostnames: texts(hostnames), ports })
}

#[test]
fn defaults() {
    let config = ServerConfig::default();
    assert_eq!(config.buffer_size, 65535);
    assert!(config.tcp_nodelay && config.allow_loopback);
    assert!(config.allow_direct_ip && config.allow_private_ips);
    assert_eq!((config.max_streams, config.max_frame_size), (0, 0));
    assert_eq!(config.dns_ttl, 120);
    assert_eq!(config.dns_result_order, "ipv4first");
    assert_eq!((config.log_level.as_str(), config.log_format.as_str()), ("info", "text"));
    assert_eq!((config.connection_window_secs, config.ws_pong_timeout_secs), (60, 10));
    assert!(!config.is_auth_required());
    assert!(!config.has_filters());
}

#[test]
fn thresholds() {
    let mut config = ServerConfig::default();
    for (size, threshold) in
        [(0, 1), (1, 1), (2, 1), (10, 9), (128, 115), (65535, 58981), (u32::MAX, 3_865_470_565)]
    {
        config.buffer_size = size;
        assert_eq!(config.continue_threshold(), threshold);
    }
}

#[test]
fn production_defaults_fill_gaps() {
    let mut config = ServerConfig::default();
    config.max_connections_per_ip = 5;
    config.apply_prod_defaults();
    assert_eq!(config.max_connections, 8192);
    assert_eq!(config.idle_timeout_secs, 300);
    assert_eq!(config.max_connections_per_ip, 5);
    assert_eq!(config.connection_window_secs, 60);
    assert_eq!(config.ws_ping_interval_secs, 30);
    assert_eq!(config.ws_pong_timeout_secs, 10);
    assert_eq!(config.tcp_keepalive_secs, 60);
    assert_eq!(config.buffer_size, 65535);
    config.apply_prod_defaults();
    assert_eq!(config.max_connections, 8192);
    assert_eq!(config.max_connections_per_ip, 5);
}

#[test]
fn ports_are_expanded() {
    let ports = expand_ports(&[
        PortEntry::Single(25),
        PortEntry::Range([6660, 6669]),
        PortEntry::Range([12, 10]),
        PortEntry::Range([65534, 65535]),
        PortEntry::Single(25),
    ]);
    assert_eq!(ports.len(), 1 + 10 + 3 + 2);
    for port in [25, 6660, 6669, 10, 11, 12, 65534, 65535] {
        assert!(ports.contains(&port));
    }
    assert!(!ports.contains(&6670));
    assert!(expand_ports(&[]).is_empty());
    assert_eq!(expand_ports(&[PortEntry::Range([0, 65535])]).len(), 65536);
}

#[test]
fn filters() {
    let mut json = JsonConfig::default();
    json.blacklist = list(&["Malware.Example.com"], vec![PortEntry::Single(25)]);
    let config = merge_json_config(&json);
    assert!(config.has_filters());
    assert!(config.is_hostname_blocked("malware.example.COM"));
    assert!(!config.is_hostname_blocked("sub.malware.example.com"));
    assert!(config.is_port_blocked(25));
    assert!(!config.is_port_blocked(26));
    // With a whitelist, the blacklist is ignored.
    json.whitelist = list(&["malware.example.com", "ok.org"], vec![PortEntry::Range([25, 80])]);
    let config = merge_json_config(&json);
    assert!(!config.is_hostname_blocked("MALWARE.example.com"));
    assert!(!config.is_hostname_blocked("ok.org"));
    assert!(config.is_hostname_blocked("other.org"));
    assert!(!config.is_port_blocked(25));
    assert!(config.is_port_blocked(443));
    // A whitelist of hostnames alone says nothing of ports.
    json.whitelist = list(&["ok.org"], vec![]);
    let config = merge_json_config(&json);
    assert!(config.is_port_blocked(25));
    assert!(!config.is_port_blocked(443));
}

#[test]
fn the_file_is_laid_over_the_defaults() {
    let config = merge_json_config(&JsonConfig::default());
    assert_eq!(config.buffer_size, 65535);
    assert!(!config.has_filters());
    let json = JsonConfig {
        bind: Some("1.2.3.4:1".to_string()),
        workers: Some(3),
        buffer_size: Some(7),
        tcp_no_delay: Some(false),
        allow_loopback: Some(false),
        allow_direct_ip: Some(false),
        allow_private_ips: Some(false),
        max_streams: Some(8),
        max_frame_size: Some(9),
        prod: Some(true),
        blacklist: None,
        whitelist: None,
        auth: Some(JsonAuth {
            required: true,
            users: vec![
                ("u".to_string(), "old".to_string()),
                ("u".to_string(), "new".to_string()),
            ],
        }),
        dns: Some(JsonDns {
            servers: texts(&["9.9.9.9"]),
            ttl: Some(5),
            result_order: Some("verbatim".to_string()),
        }),
        real_ip: Some(JsonRealIp {
            enabled: true,
            trusted_proxies: texts(&["10.0.0.0/8"]),
            headers: texts(&["X-Real-IP"]),
        }),
        log_level: Some("debug".to_string()),
        log_format: Some("json".to_string()),
        max_connections: Some(10),
        idle_timeout_secs: Some(11),
        max_connections_per_ip: Some(12),
        connection_window_secs: Some(13),
        ws_ping_interval_secs: Some(14),
        ws_pong_timeout_secs: Some(15),
        tcp_keepalive_secs: Some(16),
    };
    let config = merge_json_config(&json);
    assert_eq!(config.buffer_size, 7);
    assert!(!config.tcp_nodelay && !config.allow_loopback);
    assert!(!config.allow_direct_ip && !config.allow_private_ips);
    assert_eq!((config.max_streams, config.max_frame_size), (8, 9));
    assert!(config.prod_mode && config.auth_required);
    assert_eq!(config.auth_users.get("u").map(|p| p.as_str()), Some("new"));
    assert!(config.is_auth_required());
    assert_eq!(config.dns_servers, texts(&["9.9.9.9"]));
    assert_eq!((config.dns_ttl, config.dns_result_order.as_str()), (5, "verbatim"));
    assert!(config.real_ip_enabled);
    assert_eq!(config.real_ip_trusted_proxies, texts(&["10.0.0.0/8"]));
    assert_eq!(config.real_ip_headers, texts(&["X-Real-IP"]));
    assert_eq!((config.log_level.as_str(), config.log_format.as_str()), ("debug", "json"));
    assert_eq!((config.max_connections, config.max_connections_per_ip), (10, 12));
    assert_eq!((config.idle_timeout_secs, config.connection_window_secs), (11, 13));
    assert_eq!((config.ws_ping_interval_secs, config.ws_pong_timeout_secs), (14, 15));
    assert_eq!(config.tcp_keepalive_secs, 16);
}

#[test]
fn what_a_file_leaves_out_is_kept() {
    let mut base = ServerConfig::default();
    base.buffer_size = 99;
    base.dns_ttl = 1;
    let mut json = JsonConfig::default();
    json.dns = Some(JsonDns { servers: vec![], ttl: None, result_order: None });
    let config = merge_json_over(base, &json);
    assert_eq!(config.buffer_size, 99);
    assert_eq!(config.dns_ttl, 1);
    assert_eq!(config.dns_result_order, "ipv4first");
}

#[test]
fn the_file_and_the_command_line_prevail_over_production_values() {
    let mut json = JsonConfig::default();
    json.max_connections = Some(0);
    json.idle_timeout_secs = Some(5);
    let mut options = cli();
    options.prod = true;
    options.max_connections_per_ip = Some(0);
    let config = configure(&options, Some(&json)).ok().unwrap();
    assert!(config.prod_mode);
    assert_eq!(config.max_connections, 0);
    assert_eq!(config.idle_timeout_secs, 5);
    assert_eq!(config.max_connections_per_ip, 0);
    assert_eq!(config.ws_ping_interval_secs, 30);
    options.idle_timeout_secs = Some(6);
    let config = configure(&options, Some(&json)).ok().unwrap();
    assert_eq!(config.idle_timeout_secs, 6);
    // A file cannot ask for production values.
    json.prod = Some(true);
    options.prod = false;
    let config = configure(&options, Some(&json)).ok().unwrap();
    assert!(config.prod_mode);
    assert_eq!(config.ws_ping_interval_secs, 0);
}

#[test]
fn options_with_defaults_count_only_if_given() {
    let mut json = JsonConfig::default();
    json.buffer_size = Some(10);
    json.max_streams = Some(11);
    json.max_frame_size = Some(12);
    let mut options = cli();
    options.buffer_size = 1;
    options.max_streams = 2;
    options.max_frame_size = 3;
    let sizes = |c: &ServerConfig| (c.buffer_size, c.max_streams, c.max_frame_size);
    assert_eq!(sizes(&configure(&options, Some(&json)).ok().unwrap()), (10, 11, 12));
    assert_eq!(sizes(&configure(&options, None).ok().unwrap()), (1, 2, 3));
    options.words = texts(&["x", "--buffer-size=1"]);
    assert_eq!(sizes(&configure(&options, Some(&json)).ok().unwrap()), (1, 11, 12));
    options.words = texts(&["x", "--max-streams", "2", "--max-frame-size", "3"]);
    assert_eq!(sizes(&configure(&options, Some(&json)).ok().unwrap()), (10, 2, 3));
}

#[test]
fn flags_and_texts_of_the_command_line() {
    let mut options = cli();
    options.no_tcp_nodelay = true;
    options.block_loopback = true;
    options.block_direct_ip = true;
    options.block_private_ips = true;
    options.password = Some("pw".to_string());
    options.log_level = Some("trace".to_string());
    options.log_format = Some("json".to_string());
    options.connection_window_secs = Some(1);
    options.ws_pong_timeout_secs = Some(2);
    options.tcp_keepalive_secs = Some(3);
    options.ws_ping_interval_secs = Some(4);
    options.max_connections = Some(5);
    let config = configure(&options, None).ok().unwrap();
    assert!(!config.tcp_nodelay && !config.allow_loopback);
    assert!(!config.allow_direct_ip && !config.allow_private_ips);
    assert_eq!(config.auth_password, Some("pw".to_string()));
    assert!(config.is_auth_required());
    assert_eq!((config.log_level.as_str(), config.log_format.as_str()), ("trace", "json"));
    assert_eq!((config.connection_window_secs, config.ws_pong_timeout_secs), (1, 2));
    assert_eq!((config.tcp_keepalive_secs, config.ws_ping_interval_secs), (3, 4));
    assert_eq!(config.max_connections, 5);
}

#[test]
fn streams_need_credit() {
    let mut options = cli();
    options.buffer_size = 0;
    match configure(&options, None) {
        Err(e) => {
            assert_eq!(e, ConfigError::ZeroBufferSize);
            assert_eq!(e.message(), "buffer_size must be >= 1");
        }
        Ok(_) => panic!("expected an error"),
    }
    let mut json = JsonConfig::default();
    json.buffer_size = Some(0);
    assert!(configure(&cli(), Some(&json)).is_err());
}

#[test]
fn the_address_to_bind() {
    let mut json = JsonConfig::default();
    assert!(matches!(choose_bind(&texts(&["x"]), None), BindChoice::CommandLine));
    assert!(matches!(choose_bind(&texts(&["x"]), Some(&json)), BindChoice::CommandLine));
    json.bind = Some("0.0.0.0:1".to_string());
    match choose_bind(&texts(&["x"]), Some(&json)) {
        BindChoice::File(address) => assert_eq!(address, "0.0.0.0:1"),
        _ => panic!("expected the file's address"),
    }
    for words in [&["x", "-b", "1:2"][..], &["x", "--bind=1:2"][..], &["x", "-b1:2"][..]] {
        assert!(matches!(choose_bind(&texts(words), Some(&json)), BindChoice::CommandLine));
    }
}

#[test]
fn the_number_of_workers() {
    let mut json = JsonConfig::default();
    assert_eq!(choose_workers(&texts(&["x"]), 0, None, 4), 4);
    assert_eq!(choose_workers(&texts(&["x"]), 2, None, 4), 2);
    assert_eq!(choose_workers(&texts(&["x"]), 2, Some(&json), 4), 4);
    json.workers = Some(3);
    assert_eq!(choose_workers(&texts(&["x"]), 2, Some(&json), 4), 3);
    assert_eq!(choose_workers(&texts(&["x", "-w", "2"]), 2, Some(&json), 4), 2);
    assert_eq!(choose_workers(&texts(&["x", "-w2"]), 2, Some(&json), 4), 2);
    assert_eq!(choose_workers(&texts(&["x", "--workers=0"]), 0, Some(&json), 4), 4);
}

fn cpu(name: &str, package: Option<&str>, core: Option<&str>) -> CpuEntry {
    CpuEntry {
        name: name.to_string(),
        package: package.map(|t| t.to_string()),
        core: core.map(|t| t.to_string()),
    }
}

#[test]
fn cores_are_counted() {
    let cpus = vec![
        cpu("cpu0", Some("0\n"), Some("0\n")),
        cpu("cpu1", Some("0\n"), Some("1\n")),
        cpu("cpu2", Some("0\n"), Some("0\n")),
        cpu("cpu3", Some("1\n"), Some("0\n")),
        cpu("cpufreq", None, Some("7")),
        cpu("cpuidle", None, None),
        cpu("cpu9", Some("0"), Some("9")),
        cpu("online", None, Some("8")),
    ];
    assert_eq!(num_physical_cores(&[0, 1, 2, 3], &cpus), 3);
    assert_eq!(num_physical_cores(&[0, 2], &cpus), 1);
    assert_eq!(num_physical_cores(&[], &cpus), 1);
    assert_eq!(num_physical_cores(&[4, 5, 6], &[]), 3);
    assert_eq!(num_physical_cores(&[0, 1], &[cpu("cpu0", None, Some("x"))]), 2);
    // A package that cannot be read counts as the first.
    assert_eq!(
        num_physical_cores(&[0, 1], &[cpu("cpu0", None, Some(" 5 ")), cpu("cpu1", Some("0"), Some("+5"))]),
        1
    );
}
