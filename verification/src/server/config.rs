//! Configuration: its defaults, the JSON file laid over them, and the command line over both.

use std::collections::HashSet;
use vstd::hash_map::StringHashMap;
use vstd::hash_set::StringHashSet;
use vstd::prelude::*;

use crate::text;
use crate::text::clone_texts;

verus! {

broadcast use vstd::std_specs::hash::group_hash_axioms;

// ---------------------------------------------------------------------------------------
// The JSON file
// ---------------------------------------------------------------------------------------

/// The contents of a configuration file. Whatever the file leaves out is `None`.
#[derive(Debug)]
pub struct JsonConfig {
    pub bind: Option<String>,
    pub workers: Option<usize>,
    pub buffer_size: Option<u32>,
    pub tcp_no_delay: Option<bool>,
    pub allow_loopback: Option<bool>,
    pub allow_direct_ip: Option<bool>,
    pub allow_private_ips: Option<bool>,
    pub max_streams: Option<usize>,
    pub max_frame_size: Option<usize>,
    pub prod: Option<bool>,
    pub blacklist: Option<JsonFilterList>,
    pub whitelist: Option<JsonFilterList>,
    pub auth: Option<JsonAuth>,
    pub dns: Option<JsonDns>,
    pub real_ip: Option<JsonRealIp>,
    pub log_level: Option<String>,
    pub log_format: Option<String>,
    pub max_connections: Option<usize>,
    pub idle_timeout_secs: Option<u64>,
    pub max_connections_per_ip: Option<usize>,
    pub connection_window_secs: Option<u64>,
    pub ws_ping_interval_secs: Option<u64>,
    pub ws_pong_timeout_secs: Option<u64>,
    pub tcp_keepalive_secs: Option<u64>,
}

/// Hostnames and ports, as a blacklist or a whitelist.
#[derive(Debug)]
pub struct JsonFilterList {
    pub hostnames: Vec<String>,
    pub ports: Vec<PortEntry>,
}

/// A port, or all ports from one end of a range to the other.
#[derive(Debug)]
pub enum PortEntry {
    Single(u16),
    Range([u16; 2]),
}

/// Who may connect: users with their passwords or bcrypt hashes.
#[derive(Debug)]
pub struct JsonAuth {
    pub required: bool,
    pub users: Vec<(String, String)>,
}

/// Name resolution.
#[derive(Debug)]
pub struct JsonDns {
    pub servers: Vec<String>,
    pub ttl: Option<u64>,
    pub result_order: Option<String>,
}

/// Where the client's address is found behind a proxy.
#[derive(Debug)]
pub struct JsonRealIp {
    pub enabled: bool,
    pub trusted_proxies: Vec<String>,
    pub headers: Vec<String>,
}

impl JsonConfig {
    /// A file that says nothing.
    pub open spec fn empty(self) -> bool {
        self == JsonConfig {
            bind: None,
            workers: None,
            buffer_size: None,
            tcp_no_delay: None,
            allow_loopback: None,
            allow_direct_ip: None,
            allow_private_ips: None,
            max_streams: None,
            max_frame_size: None,
            prod: None,
            blacklist: None,
            whitelist: None,
            auth: None,
            dns: None,
            real_ip: None,
            log_level: None,
            log_format: None,
            max_connections: None,
            idle_timeout_secs: None,
            max_connections_per_ip: None,
            connection_window_secs: None,
            ws_ping_interval_secs: None,
            ws_pong_timeout_secs: None,
            tcp_keepalive_secs: None,
        }
    }
}

impl Default for JsonConfig {
    fn default() -> (r: Self)
        ensures
            r.empty(),
    {
        JsonConfig {
            bind: None,
            workers: None,
            buffer_size: None,
            tcp_no_delay: None,
            allow_loopback: None,
            allow_direct_ip: None,
            allow_private_ips: None,
            max_streams: None,
            max_frame_size: None,
            prod: None,
            blacklist: None,
            whitelist: None,
            auth: None,
            dns: None,
            real_ip: None,
            log_level: None,
            log_format: None,
            max_connections: None,
            idle_timeout_secs: None,
            max_connections_per_ip: None,
            connection_window_secs: None,
            ws_ping_interval_secs: None,
            ws_pong_timeout_secs: None,
            tcp_keepalive_secs: None,
        }
    }
}

// ---------------------------------------------------------------------------------------
// The configuration in use
// ---------------------------------------------------------------------------------------

/// The configuration of a running server.
pub struct ServerConfig {
    /// The credit of each stream, in packets.
    pub buffer_size: u32,
    /// Whether backend sockets send small packets at once.
    pub tcp_nodelay: bool,
    /// Whether loopback addresses may be reached.
    pub allow_loopback: bool,
    /// Whether a destination may be given as an address in place of a hostname.
    pub allow_direct_ip: bool,
    /// Whether private addresses may be reached.
    pub allow_private_ips: bool,
    /// The most streams of a connection; zero stands for no limit.
    pub max_streams: usize,
    /// The largest frame in bytes; zero stands for no limit.
    pub max_frame_size: usize,
    /// The password, or its bcrypt hash, of the user "default" on a server that lists no users.
    pub auth_password: Option<String>,
    /// The users with their passwords or bcrypt hashes. Where there are any, the single
    /// password does not count.
    pub auth_users: StringHashMap<String>,
    /// Whether clients must say who they are, even if no one could.
    pub auth_required: bool,
    /// Whether the machine is tuned for the server.
    pub prod_mode: bool,
    /// Hostnames that are not reached, in small letters.
    pub blacklist_hostnames: StringHashSet,
    /// Ports that are not reached.
    pub blacklist_ports: HashSet<u16>,
    /// If there are any, the only hostnames that are reached, in small letters.
    pub whitelist_hostnames: StringHashSet,
    /// If there are any, the only ports that are reached.
    pub whitelist_ports: HashSet<u16>,
    /// Name servers.
    pub dns_servers: Vec<String>,
    /// How long a resolved name is kept, in seconds.
    pub dns_ttl: u64,
    /// The order of a name's addresses: "ipv4first", "ipv6first" or "verbatim".
    pub dns_result_order: String,
    /// Whether the client's address is taken from a header.
    pub real_ip_enabled: bool,
    /// The networks whose headers are believed.
    pub real_ip_trusted_proxies: Vec<String>,
    /// The headers that may name the client's address, the first one first.
    pub real_ip_headers: Vec<String>,
    /// What is logged.
    pub log_level: String,
    /// The form of the log: "text" or "json".
    pub log_format: String,
    /// The most connections of a worker; zero stands for no limit.
    pub max_connections: usize,
    /// After how many seconds an idle connection is closed; zero stands for never.
    pub idle_timeout_secs: u64,
    /// The most connections of an address within the window; zero stands for no limit.
    pub max_connections_per_ip: usize,
    /// The window for connections of an address, in seconds.
    pub connection_window_secs: u64,
    /// How often the client is pinged, in seconds; zero stands for never.
    pub ws_ping_interval_secs: u64,
    /// How long an answer to a ping may take, in seconds.
    pub ws_pong_timeout_secs: u64,
    /// When an idle backend is probed, in seconds; zero stands for never.
    pub tcp_keepalive_secs: u64,
}

/// A configuration as a mathematical value.
#[verifier::ext_equal]
pub struct ConfigView {
    pub buffer_size: u32,
    pub tcp_nodelay: bool,
    pub allow_loopback: bool,
    pub allow_direct_ip: bool,
    pub allow_private_ips: bool,
    pub max_streams: usize,
    pub max_frame_size: usize,
    pub auth_password: Option<Seq<char>>,
    pub auth_users: Map<Seq<char>, String>,
    pub auth_required: bool,
    pub prod_mode: bool,
    pub blacklist_hostnames: Set<Seq<char>>,
    pub blacklist_ports: Set<u16>,
    pub whitelist_hostnames: Set<Seq<char>>,
    pub whitelist_ports: Set<u16>,
    pub dns_servers: Seq<String>,
    pub dns_ttl: u64,
    pub dns_result_order: Seq<char>,
    pub real_ip_enabled: bool,
    pub real_ip_trusted_proxies: Seq<String>,
    pub real_ip_headers: Seq<String>,
    pub log_level: Seq<char>,
    pub log_format: Seq<char>,
    pub max_connections: usize,
    pub idle_timeout_secs: u64,
    pub max_connections_per_ip: usize,
    pub connection_window_secs: u64,
    pub ws_ping_interval_secs: u64,
    pub ws_pong_timeout_secs: u64,
    pub tcp_keepalive_secs: u64,
}

/// The value of an optional text.
pub open spec fn text_view(text: Option<String>) -> Option<Seq<char>> {
    match text {
        Some(text) => Some(text@),
        None => None,
    }
}

impl View for ServerConfig {
    type V = ConfigView;

    open spec fn view(&self) -> ConfigView {
        ConfigView {
            buffer_size: self.buffer_size,
            tcp_nodelay: self.tcp_nodelay,
            allow_loopback: self.allow_loopback,
            allow_direct_ip: self.allow_direct_ip,
            allow_private_ips: self.allow_private_ips,
            max_streams: self.max_streams,
            max_frame_size: self.max_frame_size,
            auth_password: text_view(self.auth_password),
            auth_users: self.auth_users@,
            auth_required: self.auth_required,
            prod_mode: self.prod_mode,
            blacklist_hostnames: self.blacklist_hostnames@,
            blacklist_ports: self.blacklist_ports@,
            whitelist_hostnames: self.whitelist_hostnames@,
            whitelist_ports: self.whitelist_ports@,
            dns_servers: self.dns_servers@,
            dns_ttl: self.dns_ttl,
            dns_result_order: self.dns_result_order@,
            real_ip_enabled: self.real_ip_enabled,
            real_ip_trusted_proxies: self.real_ip_trusted_proxies@,
            real_ip_headers: self.real_ip_headers@,
            log_level: self.log_level@,
            log_format: self.log_format@,
            max_connections: self.max_connections,
            idle_timeout_secs: self.idle_timeout_secs,
            max_connections_per_ip: self.max_connections_per_ip,
            connection_window_secs: self.connection_window_secs,
            ws_ping_interval_secs: self.ws_ping_interval_secs,
            ws_pong_timeout_secs: self.ws_pong_timeout_secs,
            tcp_keepalive_secs: self.tcp_keepalive_secs,
        }
    }
}

/// The configuration of a server that was told nothing.
pub open spec fn default_config() -> ConfigView {
    ConfigView {
        buffer_size: 65535,
        tcp_nodelay: true,
        allow_loopback: true,
        allow_direct_ip: true,
        allow_private_ips: true,
        max_streams: 0,
        max_frame_size: 0,
        auth_password: None,
        auth_users: Map::empty(),
        auth_required: false,
        prod_mode: false,
        blacklist_hostnames: Set::empty(),
        blacklist_ports: Set::empty(),
        whitelist_hostnames: Set::empty(),
        whitelist_ports: Set::empty(),
        dns_servers: seq![],
        dns_ttl: 120,
        dns_result_order: "ipv4first"@,
        real_ip_enabled: false,
        real_ip_trusted_proxies: seq![],
        real_ip_headers: seq![],
        log_level: "info"@,
        log_format: "text"@,
        max_connections: 0,
        idle_timeout_secs: 0,
        max_connections_per_ip: 0,
        connection_window_secs: 60,
        ws_ping_interval_secs: 0,
        ws_pong_timeout_secs: 10,
        tcp_keepalive_secs: 0,
    }
}

impl Default for ServerConfig {
    fn default() -> (r: Self)
        ensures
            r@ == default_config(),
    {
        ServerConfig {
            buffer_size: 65535,
            tcp_nodelay: true,
            allow_loopback: true,
            allow_direct_ip: true,
            allow_private_ips: true,
            max_streams: 0,
            max_frame_size: 0,
            auth_password: None,
            auth_users: StringHashMap::new(),
            auth_required: false,
            prod_mode: false,
            blacklist_hostnames: StringHashSet::new(),
            blacklist_ports: HashSet::new(),
            whitelist_hostnames: StringHashSet::new(),
            whitelist_ports: HashSet::new(),
            dns_servers: Vec::new(),
            dns_ttl: 120,
            dns_result_order: "ipv4first".to_owned(),
            real_ip_enabled: false,
            real_ip_trusted_proxies: Vec::new(),
            real_ip_headers: Vec::new(),
            log_level: "info".to_owned(),
            log_format: "text".to_owned(),
            max_connections: 0,
            idle_timeout_secs: 0,
            max_connections_per_ip: 0,
            connection_window_secs: 60,
            ws_ping_interval_secs: 0,
            ws_pong_timeout_secs: 10,
            tcp_keepalive_secs: 0,
        }
    }
}

/// A value that is taken in place of zero.
pub open spec fn nonzero_or(value: int, other: int) -> int {
    if value == 0 {
        other
    } else {
        value
    }
}

impl ConfigView {
    /// The number of packets after which a stream's credit is renewed: nine tenths of it, and
    /// at least one.
    pub open spec fn threshold(self) -> int {
        if self.buffer_size * 9 / 10 == 0 {
            1
        } else {
            self.buffer_size * 9 / 10
        }
    }

    /// Whether clients must say who they are.
    pub open spec fn auth_is_required(self) -> bool {
        self.auth_required || !self.auth_users.is_empty() || self.auth_password is Some
    }

    /// Whether a hostname is kept from clients. Where there is a whitelist it alone counts, and
    /// the case of ASCII letters never does.
    pub open spec fn hostname_blocked(self, hostname: Seq<char>) -> bool {
        if !self.whitelist_hostnames.is_empty() {
            !self.whitelist_hostnames.contains(text::lower(hostname))
        } else {
            self.blacklist_hostnames.contains(text::lower(hostname))
        }
    }

    /// Whether a port is kept from clients. Where there is a whitelist it alone counts.
    pub open spec fn port_blocked(self, port: u16) -> bool {
        if !self.whitelist_ports.is_empty() {
            !self.whitelist_ports.contains(port)
        } else {
            self.blacklist_ports.contains(port)
        }
    }

    /// The configuration with production values where nothing else was chosen.
    pub open spec fn with_prod_defaults(self) -> Self {
        ConfigView {
            max_connections: nonzero_or(self.max_connections as int, 8192) as usize,
            idle_timeout_secs: nonzero_or(self.idle_timeout_secs as int, 300) as u64,
            max_connections_per_ip: nonzero_or(self.max_connections_per_ip as int, 64) as usize,
            ws_ping_interval_secs: nonzero_or(self.ws_ping_interval_secs as int, 30) as u64,
            tcp_keepalive_secs: nonzero_or(self.tcp_keepalive_secs as int, 60) as u64,
            ..self
        }
    }
}

impl ServerConfig {
    /// The number of packets after which a stream's credit is renewed.
    pub fn continue_threshold(&self) -> (r: u32)
        ensures
            r == self@.threshold(),
            r >= 1,
            self.buffer_size >= 1 ==> r <= self.buffer_size,
    {
        let share: u64 = self.buffer_size as u64 * 9 / 10;
        if share == 0 {
            1
        } else {
            share as u32
        }
    }

    /// Whether clients must say who they are.
    pub fn is_auth_required(&self) -> (r: bool)
        ensures
            r == self@.auth_is_required(),
    {
        self.auth_required || !self.auth_users.is_empty() || self.auth_password.is_some()
    }

    /// Puts production values where nothing else was chosen. It comes before the file and the
    /// command line are laid over the configuration, so that both prevail.
    pub fn apply_prod_defaults(&mut self)
        ensures
            final(self)@ == old(self)@.with_prod_defaults(),
    {
        if self.max_connections == 0 {
            self.max_connections = 8192;
        }
        if self.idle_timeout_secs == 0 {
            self.idle_timeout_secs = 300;
        }
        if self.max_connections_per_ip == 0 {
            self.max_connections_per_ip = 64;
        }
        if self.ws_ping_interval_secs == 0 {
            self.ws_ping_interval_secs = 30;
        }
        if self.tcp_keepalive_secs == 0 {
            self.tcp_keepalive_secs = 60;
        }
    }

    /// Whether any hostname or port is listed.
    pub fn has_filters(&self) -> (r: bool)
        ensures
            r == !(self@.blacklist_hostnames.is_empty() && self@.blacklist_ports.is_empty()
                && self@.whitelist_hostnames.is_empty() && self@.whitelist_ports.is_empty()),
    {
        !self.blacklist_hostnames.is_empty() || !self.blacklist_ports.is_empty()
            || !self.whitelist_hostnames.is_empty() || !self.whitelist_ports.is_empty()
    }

    /// Whether a hostname is kept from clients.
    pub fn is_hostname_blocked(&self, hostname: &str) -> (r: bool)
        ensures
            r == self@.hostname_blocked(hostname@),
    {
        let lowered = hostname.to_ascii_lowercase();
        if !self.whitelist_hostnames.is_empty() {
            return !self.whitelist_hostnames.contains(lowered.as_str());
        }
        self.blacklist_hostnames.contains(lowered.as_str())
    }

    /// Whether a port is kept from clients.
    pub fn is_port_blocked(&self, port: u16) -> (r: bool)
        ensures
            r == self@.port_blocked(port),
    {
        if !self.whitelist_ports.is_empty() {
            return !self.whitelist_ports.contains(&port);
        }
        self.blacklist_ports.contains(&port)
    }
}

// ---------------------------------------------------------------------------------------
// Laying the file over the defaults
// ---------------------------------------------------------------------------------------

/// Whether an entry stands for a port. The ends of a range may come in either order.
pub open spec fn entry_has(entry: PortEntry, port: u16) -> bool {
    match entry {
        PortEntry::Single(p) => port == p,
        PortEntry::Range(ends) => ends[0] <= port <= ends[1] || ends[1] <= port <= ends[0],
    }
}

/// The ports that some entries stand for.
pub open spec fn ports_of(entries: Seq<PortEntry>) -> Set<u16> {
    Set::new(|port: u16| exists|i: int| 0 <= i < entries.len() && entry_has(#[trigger] entries[i], port))
}

/// The hostnames of a list, in small letters.
pub open spec fn hostnames_of(list: Seq<String>) -> Set<Seq<char>> {
    Set::new(|name: Seq<char>| exists|i: int| 0 <= i < list.len() && name == text::lower(#[trigger] list[i]@))
}

/// The users of a list. Of two entries for one user, the later counts.
pub open spec fn users_of(list: Seq<(String, String)>) -> Map<Seq<char>, String>
    decreases list.len(),
{
    if list.len() == 0 {
        Map::empty()
    } else {
        users_of(list.drop_last()).insert(list.last().0@, list.last().1)
    }
}

/// What was chosen, or else what was there before.
pub open spec fn or<T>(choice: Option<T>, before: T) -> T {
    match choice {
        Some(value) => value,
        None => before,
    }
}

/// The text that was chosen, or else what was there before.
pub open spec fn text_or(choice: Option<String>, before: Seq<char>) -> Seq<char> {
    match choice {
        Some(value) => value@,
        None => before,
    }
}

/// A configuration with a file laid over it: what the file says prevails, what it leaves out is
/// kept.
pub open spec fn merged(base: ConfigView, json: JsonConfig) -> ConfigView {
    ConfigView {
        buffer_size: or(json.buffer_size, base.buffer_size),
        tcp_nodelay: or(json.tcp_no_delay, base.tcp_nodelay),
        allow_loopback: or(json.allow_loopback, base.allow_loopback),
        allow_direct_ip: or(json.allow_direct_ip, base.allow_direct_ip),
        allow_private_ips: or(json.allow_private_ips, base.allow_private_ips),
        max_streams: or(json.max_streams, base.max_streams),
        max_frame_size: or(json.max_frame_size, base.max_frame_size),
        auth_password: base.auth_password,
        auth_users: match json.auth {
            Some(auth) => users_of(auth.users@),
            None => base.auth_users,
        },
        auth_required: match json.auth {
            Some(auth) => auth.required,
            None => base.auth_required,
        },
        prod_mode: or(json.prod, base.prod_mode),
        blacklist_hostnames: match json.blacklist {
            Some(list) => hostnames_of(list.hostnames@),
            None => base.blacklist_hostnames,
        },
        blacklist_ports: match json.blacklist {
            Some(list) => ports_of(list.ports@),
            None => base.blacklist_ports,
        },
        whitelist_hostnames: match json.whitelist {
            Some(list) => hostnames_of(list.hostnames@),
            None => base.whitelist_hostnames,
        },
        whitelist_ports: match json.whitelist {
            Some(list) => ports_of(list.ports@),
            None => base.whitelist_ports,
        },
        dns_servers: match json.dns {
            Some(dns) => dns.servers@,
            None => base.dns_servers,
        },
        dns_ttl: match json.dns {
            Some(dns) => or(dns.ttl, base.dns_ttl),
            None => base.dns_ttl,
        },
        dns_result_order: match json.dns {
            Some(dns) => text_or(dns.result_order, base.dns_result_order),
            None => base.dns_result_order,
        },
        real_ip_enabled: match json.real_ip {
            Some(real_ip) => real_ip.enabled,
            None => base.real_ip_enabled,
        },
        real_ip_trusted_proxies: match json.real_ip {
            Some(real_ip) => real_ip.trusted_proxies@,
            None => base.real_ip_trusted_proxies,
        },
        real_ip_headers: match json.real_ip {
            Some(real_ip) => real_ip.headers@,
            None => base.real_ip_headers,
        },
        log_level: text_or(json.log_level, base.log_level),
        log_format: text_or(json.log_format, base.log_format),
        max_connections: or(json.max_connections, base.max_connections),
        idle_timeout_secs: or(json.idle_timeout_secs, base.idle_timeout_secs),
        max_connections_per_ip: or(json.max_connections_per_ip, base.max_connections_per_ip),
        connection_window_secs: or(json.connection_window_secs, base.connection_window_secs),
        ws_ping_interval_secs: or(json.ws_ping_interval_secs, base.ws_ping_interval_secs),
        ws_pong_timeout_secs: or(json.ws_pong_timeout_secs, base.ws_pong_timeout_secs),
        tcp_keepalive_secs: or(json.tcp_keepalive_secs, base.tcp_keepalive_secs),
    }
}

/// What was chosen, or else what was there before.
pub(crate) fn pick<T: Copy>(choice: &Option<T>, before: T) -> (r: T)
    ensures
        r == or(*choice, before),
{
    match choice {
        Some(value) => *value,
        None => before,
    }
}

/// The text that was chosen, or else what was there before.
pub(crate) fn pick_text(choice: &Option<String>, before: String) -> (r: String)
    ensures
        r@ == text_or(*choice, before@),
{
    match choice {
        Some(value) => value.clone(),
        None => before,
    }
}

/// Expands entries into single ports.
pub fn expand_ports(entries: &[PortEntry]) -> (r: HashSet<u16>)
    ensures
        r@ == ports_of(entries@),
{
    let mut set: HashSet<u16> = HashSet::new();
    let mut i: usize = 0;
    proof {
        assert(set@ == ports_of(entries@.take(0)));
    }
    while i < entries.len()
        invariant
            i <= entries@.len(),
            set@ == ports_of(entries@.take(i as int)),
        decreases entries@.len() - i,
    {
        let ghost before = set@;
        let (lo, hi): (u16, u16) = match entries[i] {
            PortEntry::Single(p) => (p, p),
            PortEntry::Range(ends) => if ends[0] <= ends[1] {
                (ends[0], ends[1])
            } else {
                (ends[1], ends[0])
            },
        };
        let mut p: u32 = lo as u32;
        while p <= hi as u32
            invariant
                lo <= p <= hi + 1,
                set@ == before + Set::new(|q: u16| lo <= q < p),
            decreases hi + 1 - p,
        {
            set.insert(p as u16);
            proof {
                assert(set@ == before + Set::new(|q: u16| lo <= q < p + 1));
            }
            p = p + 1;
        }
        proof {
            let shorter = entries@.take(i as int);
            let longer = entries@.take(i + 1);
            let entry = entries@[i as int];
            assert forall|q: u16| set@.contains(q) == #[trigger] ports_of(longer).contains(q) by {
                if before.contains(q) {
                    let j = choose|j: int|
                        0 <= j < shorter.len() && entry_has(#[trigger] shorter[j], q);
                    assert(longer[j] == shorter[j]);
                }
                if entry_has(entry, q) {
                    assert(longer[i as int] == entry);
                }
                if ports_of(longer).contains(q) && !entry_has(entry, q) {
                    let j = choose|j: int|
                        0 <= j < longer.len() && entry_has(#[trigger] longer[j], q);
                    assert(shorter[j] == longer[j]);
                }
            }
            assert(set@ == ports_of(longer));
        }
        i = i + 1;
    }
    proof {
        assert(entries@.take(entries@.len() as int) == entries@);
    }
    set
}

/// The hostnames of a list, in small letters.
fn collect_hostnames(list: &Vec<String>) -> (r: StringHashSet)
    ensures
        r@ == hostnames_of(list@),
{
    let mut set = StringHashSet::new();
    let mut i: usize = 0;
    proof {
        assert(set@ == hostnames_of(list@.take(0)));
    }
    while i < list.len()
        invariant
            i <= list@.len(),
            set@ == hostnames_of(list@.take(i as int)),
        decreases list@.len() - i,
    {
        let ghost before = set@;
        let lowered = list[i].as_str().to_ascii_lowercase();
        set.insert(lowered);
        proof {
            let shorter = list@.take(i as int);
            let longer = list@.take(i + 1);
            assert forall|name: Seq<char>| set@.contains(name) == #[trigger] hostnames_of(
                longer,
            ).contains(name) by {
                if before.contains(name) {
                    let j = choose|j: int|
                        0 <= j < shorter.len() && name == text::lower(#[trigger] shorter[j]@);
                    assert(longer[j] == shorter[j]);
                }
                if name == text::lower(list@[i as int]@) {
                    assert(longer[i as int] == list@[i as int]);
                }
                if hostnames_of(longer).contains(name) && name != text::lower(list@[i as int]@) {
                    let j = choose|j: int|
                        0 <= j < longer.len() && name == text::lower(#[trigger] longer[j]@);
                    assert(shorter[j] == longer[j]);
                }
            }
            assert(set@ == hostnames_of(longer));
        }
        i = i + 1;
    }
    proof {
        assert(list@.take(list@.len() as int) == list@);
    }
    set
}

/// The users of a list.
fn collect_users(list: &Vec<(String, String)>) -> (r: StringHashMap<String>)
    ensures
        r@ == users_of(list@),
{
    let mut map: StringHashMap<String> = StringHashMap::new();
    let mut i: usize = 0;
    proof {
        assert(list@.take(0) == Seq::<(String, String)>::empty());
    }
    while i < list.len()
        invariant
            i <= list@.len(),
            map@ == users_of(list@.take(i as int)),
        decreases list@.len() - i,
    {
        map.insert(list[i].0.clone(), list[i].1.clone());
        proof {
            assert(list@.take(i + 1).drop_last() == list@.take(i as int));
        }
        i = i + 1;
    }
    proof {
        assert(list@.take(list@.len() as int) == list@);
    }
    map
}

/// The hostnames and ports of a list, or else what was there before.
fn pick_list(
    choice: &Option<JsonFilterList>,
    hostnames: StringHashSet,
    ports: HashSet<u16>,
) -> (r: (StringHashSet, HashSet<u16>))
    ensures
        r.0@ == match *choice {
            Some(list) => hostnames_of(list.hostnames@),
            None => hostnames@,
        },
        r.1@ == match *choice {
            Some(list) => ports_of(list.ports@),
            None => ports@,
        },
{
    match choice {
        Some(list) => (collect_hostnames(&list.hostnames), expand_ports(list.ports.as_slice())),
        None => (hostnames, ports),
    }
}

/// Lays a file over a configuration.
pub fn merge_json_over(base: ServerConfig, json: &JsonConfig) -> (r: ServerConfig)
    ensures
        r@ == merged(base@, *json),
{
    let (blacklist_hostnames, blacklist_ports) = pick_list(
        &json.blacklist,
        base.blacklist_hostnames,
        base.blacklist_ports,
    );
    let (whitelist_hostnames, whitelist_ports) = pick_list(
        &json.whitelist,
        base.whitelist_hostnames,
        base.whitelist_ports,
    );
    let (auth_required, auth_users) = match &json.auth {
        Some(auth) => (auth.required, collect_users(&auth.users)),
        None => (base.auth_required, base.auth_users),
    };
    let (dns_servers, dns_ttl, dns_result_order): (Vec<String>, u64, String) = match &json.dns {
        Some(dns) => (
            clone_texts(&dns.servers),
            pick(&dns.ttl, base.dns_ttl),
            pick_text(&dns.result_order, base.dns_result_order),
        ),
        None => (base.dns_servers, base.dns_ttl, base.dns_result_order),
    };
    let (real_ip_enabled, real_ip_trusted_proxies, real_ip_headers) = match &json.real_ip {
        Some(real_ip) => (
            real_ip.enabled,
            clone_texts(&real_ip.trusted_proxies),
            clone_texts(&real_ip.headers),
        ),
        None => (base.real_ip_enabled, base.real_ip_trusted_proxies, base.real_ip_headers),
    };
    ServerConfig {
        buffer_size: pick(&json.buffer_size, base.buffer_size),
        tcp_nodelay: pick(&json.tcp_no_delay, base.tcp_nodelay),
        allow_loopback: pick(&json.allow_loopback, base.allow_loopback),
        allow_direct_ip: pick(&json.allow_direct_ip, base.allow_direct_ip),
        allow_private_ips: pick(&json.allow_private_ips, base.allow_private_ips),
        max_streams: pick(&json.max_streams, base.max_streams),
        max_frame_size: pick(&json.max_frame_size, base.max_frame_size),
        auth_password: base.auth_password,
        auth_users,
        auth_required,
        prod_mode: pick(&json.prod, base.prod_mode),
        blacklist_hostnames,
        blacklist_ports,
        whitelist_hostnames,
        whitelist_ports,
        dns_servers,
        dns_ttl,
        dns_result_order,
        real_ip_enabled,
        real_ip_trusted_proxies,
        real_ip_headers,
        log_level: pick_text(&json.log_level, base.log_level),
        log_format: pick_text(&json.log_format, base.log_format),
        max_connections: pick(&json.max_connections, base.max_connections),
        idle_timeout_secs: pick(&json.idle_timeout_secs, base.idle_timeout_secs),
        max_connections_per_ip: pick(&json.max_connections_per_ip, base.max_connections_per_ip),
        connection_window_secs: pick(&json.connection_window_secs, base.connection_window_secs),
        ws_ping_interval_secs: pick(&json.ws_ping_interval_secs, base.ws_ping_interval_secs),
        ws_pong_timeout_secs: pick(&json.ws_pong_timeout_secs, base.ws_pong_timeout_secs),
        tcp_keepalive_secs: pick(&json.tcp_keepalive_secs, base.tcp_keepalive_secs),
    }
}

/// Lays a file over the defaults.
pub fn merge_json_config(json: &JsonConfig) -> (r: ServerConfig)
    ensures
        r@ == merged(default_config(), *json),
{
    merge_json_over(ServerConfig::default(), json)
}

// ---------------------------------------------------------------------------------------
// Laws
// ---------------------------------------------------------------------------------------

/// A file that says nothing changes nothing.
pub proof fn an_empty_file_changes_nothing(base: ConfigView, json: JsonConfig)
    requires
        json.empty(),
    ensures
        merged(base, json) == base,
{
}

/// What a file says prevails over production values, even a zero; what it leaves out does not.
pub proof fn the_file_prevails_over_production_values(base: ConfigView, json: JsonConfig)
    ensures
        ({
            let config = merged(base.with_prod_defaults(), json);
            &&& json.max_connections matches Some(n) ==> config.max_connections == n
            &&& json.idle_timeout_secs matches Some(n) ==> config.idle_timeout_secs == n
            &&& json.max_connections_per_ip matches Some(n) ==> config.max_connections_per_ip == n
            &&& json.ws_ping_interval_secs matches Some(n) ==> config.ws_ping_interval_secs == n
            &&& json.tcp_keepalive_secs matches Some(n) ==> config.tcp_keepalive_secs == n
            &&& json.max_connections is None ==> config.max_connections
                == base.with_prod_defaults().max_connections
            &&& json.idle_timeout_secs is None ==> config.idle_timeout_secs
                == base.with_prod_defaults().idle_timeout_secs
            &&& json.max_connections_per_ip is None ==> config.max_connections_per_ip
                == base.with_prod_defaults().max_connections_per_ip
            &&& json.ws_ping_interval_secs is None ==> config.ws_ping_interval_secs
                == base.with_prod_defaults().ws_ping_interval_secs
            &&& json.tcp_keepalive_secs is None ==> config.tcp_keepalive_secs
                == base.with_prod_defaults().tcp_keepalive_secs
        }),
{
}

/// Asking for production values twice is asking once.
pub proof fn production_values_come_once(config: ConfigView)
    ensures
        config.with_prod_defaults().with_prod_defaults() == config.with_prod_defaults(),
{
}

/// The case of a hostname's ASCII letters does not matter.
pub proof fn case_does_not_matter(config: ConfigView, hostname: Seq<char>)
    ensures
        config.hostname_blocked(text::lower(hostname)) == config.hostname_blocked(hostname),
{
    text::lowering_twice_is_lowering_once(hostname);
}

/// Where there is a whitelist, the blacklist does not matter.
pub proof fn the_whitelist_alone_counts(
    config: ConfigView,
    hostnames: Set<Seq<char>>,
    ports: Set<u16>,
    hostname: Seq<char>,
    port: u16,
)
    ensures
        ({
            let other = ConfigView {
                blacklist_hostnames: hostnames,
                blacklist_ports: ports,
                ..config
            };
            &&& !config.whitelist_hostnames.is_empty() ==> other.hostname_blocked(hostname)
                == config.hostname_blocked(hostname)
            &&& !config.whitelist_ports.is_empty() ==> other.port_blocked(port)
                == config.port_blocked(port)
        }),
{
}

/// Without lists, nothing is kept from clients.
pub proof fn without_lists_nothing_is_blocked(
    config: ConfigView,
    hostname: Seq<char>,
    port: u16,
)
    requires
        config.blacklist_hostnames.is_empty(),
        config.blacklist_ports.is_empty(),
        config.whitelist_hostnames.is_empty(),
        config.whitelist_ports.is_empty(),
    ensures
        !config.hostname_blocked(hostname),
        !config.port_blocked(port),
{
}

/// A hostname on a file's blacklist is kept from clients in any spelling, unless there is a
/// whitelist.
pub proof fn blacklisted_hostnames_are_blocked(
    base: ConfigView,
    json: JsonConfig,
    i: int,
    hostname: Seq<char>,
)
    requires
        json.blacklist is Some,
        json.whitelist is None,
        base.whitelist_hostnames.is_empty(),
        0 <= i < json.blacklist->0.hostnames@.len(),
        text::lower(hostname) == text::lower(json.blacklist->0.hostnames@[i]@),
    ensures
        merged(base, json).hostname_blocked(hostname),
{
    let list = json.blacklist->0.hostnames@;
    assert(hostnames_of(list).contains(text::lower(list[i]@)));
}

/// A range of ports is the same whichever end comes first.
pub proof fn the_ends_of_a_range_may_be_swapped(a: u16, b: u16, port: u16)
    ensures
        entry_has(PortEntry::Range([a, b]), port) == entry_has(PortEntry::Range([b, a]), port),
        entry_has(PortEntry::Range([a, a]), port) == entry_has(PortEntry::Single(a), port),
{
}

/// A stream's credit is renewed before it is used up, and not before a packet has come.
pub proof fn credit_is_renewed_in_time(config: ConfigView)
    requires
        config.buffer_size >= 1,
    ensures
        1 <= config.threshold() <= config.buffer_size,
{
}

/// A stream's credit is renewed when nine tenths of it are used up, rounded down, but not before a
/// packet has come.
pub proof fn credit_is_renewed_at_nine_tenths(config: ConfigView)
    ensures
        ({
            let used = config.threshold();
            &&& config.buffer_size * 9 >= 10 ==> used * 10 <= config.buffer_size * 9 < (used + 1)
                * 10
            &&& config.buffer_size * 9 < 10 ==> used == 1
        }),
{
}

/// Clients must say who they are exactly if the configuration says so, if it lists a user, or if
/// it has a password.
pub proof fn when_clients_must_say_who_they_are(config: ConfigView)
    ensures
        config.auth_is_required() <==> {
            ||| config.auth_required
            ||| exists|name: Seq<char>| config.auth_users.contains_key(name)
            ||| config.auth_password is Some
        },
{
    if !(exists|name: Seq<char>| config.auth_users.contains_key(name)) {
        assert(config.auth_users =~= Map::empty());
    } else {
        let name = choose|name: Seq<char>| config.auth_users.contains_key(name);
        assert(config.auth_users.dom().contains(name));
    }
}

/// Production values take the place of a zero and of nothing else.
pub proof fn production_values_replace_zeros(config: ConfigView)
    ensures
        ({
            let prod = config.with_prod_defaults();
            &&& config.max_connections == 0 ==> prod.max_connections == 8192
            &&& config.max_connections != 0 ==> prod.max_connections == config.max_connections
            &&& config.idle_timeout_secs == 0 ==> prod.idle_timeout_secs == 300
            &&& config.idle_timeout_secs != 0 ==> prod.idle_timeout_secs
                == config.idle_timeout_secs
            &&& config.max_connections_per_ip == 0 ==> prod.max_connections_per_ip == 64
            &&& config.max_connections_per_ip != 0 ==> prod.max_connections_per_ip
                == config.max_connections_per_ip
            &&& config.ws_ping_interval_secs == 0 ==> prod.ws_ping_interval_secs == 30
            &&& config.ws_ping_interval_secs != 0 ==> prod.ws_ping_interval_secs
                == config.ws_ping_interval_secs
            &&& config.tcp_keepalive_secs == 0 ==> prod.tcp_keepalive_secs == 60
            &&& config.tcp_keepalive_secs != 0 ==> prod.tcp_keepalive_secs
                == config.tcp_keepalive_secs
            &&& config == (ConfigView {
                max_connections: config.max_connections,
                idle_timeout_secs: config.idle_timeout_secs,
                max_connections_per_ip: config.max_connections_per_ip,
                ws_ping_interval_secs: config.ws_ping_interval_secs,
                tcp_keepalive_secs: config.tcp_keepalive_secs,
                ..prod
            })
        }),
{
}

/// Whatever a file says is so, and whatever it leaves out stays as it was.
pub proof fn files_say_what_they_say(base: ConfigView, json: JsonConfig)
    ensures
        ({
            let config = merged(base, json);
            &&& json.buffer_size matches Some(v) ==> config.buffer_size == v
            &&& json.allow_loopback matches Some(v) ==> config.allow_loopback == v
            &&& json.allow_direct_ip matches Some(v) ==> config.allow_direct_ip == v
            &&& json.allow_private_ips matches Some(v) ==> config.allow_private_ips == v
            &&& json.max_streams matches Some(v) ==> config.max_streams == v
            &&& json.max_frame_size matches Some(v) ==> config.max_frame_size == v
            &&& json.max_connections matches Some(v) ==> config.max_connections == v
            &&& json.idle_timeout_secs matches Some(v) ==> config.idle_timeout_secs == v
            &&& json.max_connections_per_ip matches Some(v) ==> config.max_connections_per_ip == v
            &&& json.connection_window_secs matches Some(v) ==> config.connection_window_secs == v
            &&& json.ws_ping_interval_secs matches Some(v) ==> config.ws_ping_interval_secs == v
            &&& json.ws_pong_timeout_secs matches Some(v) ==> config.ws_pong_timeout_secs == v
            &&& json.tcp_keepalive_secs matches Some(v) ==> config.tcp_keepalive_secs == v
            &&& json.tcp_no_delay matches Some(v) ==> config.tcp_nodelay == v
            &&& json.prod matches Some(v) ==> config.prod_mode == v
            &&& json.log_level matches Some(v) ==> config.log_level == v@
            &&& json.log_format matches Some(v) ==> config.log_format == v@
            &&& json.auth matches Some(v) ==> config.auth_required == v.required
            &&& json.real_ip matches Some(v) ==> {
                &&& config.real_ip_enabled == v.enabled
                &&& config.real_ip_trusted_proxies == v.trusted_proxies@
                &&& config.real_ip_headers == v.headers@
            }
            &&& json.dns matches Some(v) ==> {
                &&& config.dns_servers == v.servers@
                &&& v.ttl matches Some(ttl) ==> config.dns_ttl == ttl
                &&& v.ttl is None ==> config.dns_ttl == base.dns_ttl
                &&& v.result_order matches Some(order) ==> config.dns_result_order == order@
                &&& v.result_order is None ==> config.dns_result_order == base.dns_result_order
            }
            &&& json.buffer_size is None ==> config.buffer_size == base.buffer_size
            &&& json.allow_loopback is None ==> config.allow_loopback == base.allow_loopback
            &&& json.allow_direct_ip is None ==> config.allow_direct_ip == base.allow_direct_ip
            &&& json.allow_private_ips is None ==> config.allow_private_ips
                == base.allow_private_ips
            &&& json.max_streams is None ==> config.max_streams == base.max_streams
            &&& json.max_frame_size is None ==> config.max_frame_size == base.max_frame_size
            &&& json.max_connections is None ==> config.max_connections == base.max_connections
            &&& json.idle_timeout_secs is None ==> config.idle_timeout_secs
                == base.idle_timeout_secs
            &&& json.max_connections_per_ip is None ==> config.max_connections_per_ip
                == base.max_connections_per_ip
            &&& json.connection_window_secs is None ==> config.connection_window_secs
                == base.connection_window_secs
            &&& json.ws_ping_interval_secs is None ==> config.ws_ping_interval_secs
                == base.ws_ping_interval_secs
            &&& json.ws_pong_timeout_secs is None ==> config.ws_pong_timeout_secs
                == base.ws_pong_timeout_secs
            &&& json.tcp_keepalive_secs is None ==> config.tcp_keepalive_secs
                == base.tcp_keepalive_secs
            &&& json.tcp_no_delay is None ==> config.tcp_nodelay == base.tcp_nodelay
            &&& json.prod is None ==> config.prod_mode == base.prod_mode
            &&& json.log_level is None ==> config.log_level == base.log_level
            &&& json.log_format is None ==> config.log_format == base.log_format
            &&& json.auth is None ==> {
                &&& config.auth_required == base.auth_required
                &&& config.auth_users == base.auth_users
            }
            &&& json.real_ip is None ==> {
                &&& config.real_ip_enabled == base.real_ip_enabled
                &&& config.real_ip_trusted_proxies == base.real_ip_trusted_proxies
                &&& config.real_ip_headers == base.real_ip_headers
            }
            &&& json.dns is None ==> {
                &&& config.dns_servers == base.dns_servers
                &&& config.dns_ttl == base.dns_ttl
                &&& config.dns_result_order == base.dns_result_order
            }
            &&& json.blacklist is None ==> {
                &&& config.blacklist_hostnames == base.blacklist_hostnames
                &&& config.blacklist_ports == base.blacklist_ports
            }
            &&& json.whitelist is None ==> {
                &&& config.whitelist_hostnames == base.whitelist_hostnames
                &&& config.whitelist_ports == base.whitelist_ports
            }
            &&& config.auth_password == base.auth_password
        }),
{
}

/// An entry stands for its port, or for every port from the lower end of its range to the higher.
pub proof fn entries_stand_for_their_ports(a: u16, b: u16, port: u16)
    ensures
        entry_has(PortEntry::Single(a), port) <==> port == a,
        a <= b ==> (entry_has(PortEntry::Range([a, b]), port) <==> a <= port && port <= b),
        a >= b ==> (entry_has(PortEntry::Range([a, b]), port) <==> b <= port && port <= a),
{
}

/// Adding an entry to a list adds its ports and no others.
pub proof fn entries_add_their_ports(entries: Seq<PortEntry>, entry: PortEntry, port: u16)
    ensures
        !ports_of(seq![]).contains(port),
        ports_of(entries.push(entry)).contains(port) <==> ports_of(entries).contains(port)
            || entry_has(entry, port),
{
    let longer = entries.push(entry);
    if ports_of(entries).contains(port) {
        let i = choose|i: int| 0 <= i < entries.len() && entry_has(#[trigger] entries[i], port);
        assert(longer[i] == entries[i]);
    }
    if entry_has(entry, port) {
        assert(longer[entries.len() as int] == entry);
    }
    if ports_of(longer).contains(port) && !entry_has(entry, port) {
        let i = choose|i: int| 0 <= i < longer.len() && entry_has(#[trigger] longer[i], port);
        assert(entries[i] == longer[i]);
    }
}

/// With a file's whitelist of ports, exactly the ports that its entries stand for are reached;
/// with its blacklist alone, exactly the others.
pub proof fn port_lists_decide_about_ports(base: ConfigView, json: JsonConfig, port: u16)
    ensures
        json.whitelist is Some && json.whitelist->0.ports@.len() > 0 ==> (merged(
            base,
            json,
        ).port_blocked(port) <==> forall|i: int|
            0 <= i < json.whitelist->0.ports@.len() ==> !entry_has(
                #[trigger] json.whitelist->0.ports@[i],
                port,
            )),
        json.whitelist is None && base.whitelist_ports.is_empty() && json.blacklist is Some ==> (
        merged(base, json).port_blocked(port) <==> exists|i: int|
            0 <= i < json.blacklist->0.ports@.len() && entry_has(
                #[trigger] json.blacklist->0.ports@[i],
                port,
            )),
{
    if let Some(list) = json.whitelist {
        if list.ports@.len() > 0 {
            let first = list.ports@[0];
            let some = match first {
                PortEntry::Single(p) => p,
                PortEntry::Range(ends) => ends[0],
            };
            assert(entry_has(list.ports@[0], some));
            assert(ports_of(list.ports@).contains(some));
        }
    }
}

/// With a file's whitelist of hostnames, exactly the names on it are reached, in any spelling.
pub proof fn whitelisted_hostnames_alone_are_reached(
    base: ConfigView,
    json: JsonConfig,
    hostname: Seq<char>,
)
    requires
        json.whitelist is Some,
        json.whitelist->0.hostnames@.len() > 0,
    ensures
        merged(base, json).hostname_blocked(hostname) <==> forall|i: int|
            0 <= i < json.whitelist->0.hostnames@.len() ==> text::lower(hostname) != text::lower(
                #[trigger] json.whitelist->0.hostnames@[i]@,
            ),
{
    let list = json.whitelist->0.hostnames@;
    assert(hostnames_of(list).contains(text::lower(list[0]@)));
}

/// With a file's blacklist of hostnames and no whitelist, exactly the names on it are kept from
/// clients, in any spelling.
pub proof fn blacklisted_hostnames_alone_are_blocked(
    base: ConfigView,
    json: JsonConfig,
    hostname: Seq<char>,
)
    requires
        json.blacklist is Some,
        json.whitelist is None,
        base.whitelist_hostnames.is_empty(),
    ensures
        merged(base, json).hostname_blocked(hostname) <==> exists|i: int|
            0 <= i < json.blacklist->0.hostnames@.len() && text::lower(hostname) == text::lower(
                #[trigger] json.blacklist->0.hostnames@[i]@,
            ),
{
}

/// Every user on a file's list has the password of the last entry under that name, and there are
/// no others.
pub proof fn the_last_entry_of_a_user_counts(list: Seq<(String, String)>, name: Seq<char>, i: int)
    requires
        0 <= i < list.len(),
        list[i].0@ == name,
        forall|j: int| i < j < list.len() ==> (#[trigger] list[j]).0@ != name,
    ensures
        users_of(list).contains_key(name),
        users_of(list)[name] == list[i].1,
    decreases list.len(),
{
    if i < list.len() - 1 {
        assert(list.last() == list[list.len() - 1]);
        let shorter = list.drop_last();
        assert forall|j: int| i < j < shorter.len() implies (#[trigger] shorter[j]).0@ != name by {
            assert(shorter[j] == list[j]);
        }
        the_last_entry_of_a_user_counts(shorter, name, i);
    }
}

/// A name that is not on a file's list is no user.
pub proof fn unlisted_users_are_none(list: Seq<(String, String)>, name: Seq<char>)
    requires
        forall|j: int| 0 <= j < list.len() ==> (#[trigger] list[j]).0@ != name,
    ensures
        !users_of(list).contains_key(name),
    decreases list.len(),
{
    if list.len() > 0 {
        assert(list.last() == list[list.len() - 1]);
        let shorter = list.drop_last();
        assert forall|j: int| 0 <= j < shorter.len() implies (#[trigger] shorter[j]).0@ != name by {
            assert(shorter[j] == list[j]);
        }
        unlisted_users_are_none(shorter, name);
    }
}

/// The users of a file are those of its list.
pub proof fn files_bring_their_users(base: ConfigView, json: JsonConfig)
    requires
        json.auth is Some,
    ensures
        merged(base, json).auth_users == users_of(json.auth->0.users@),
{
}

/// A file that says nothing leaves everything out.
pub proof fn empty_files_say_nothing(json: JsonConfig)
    requires
        json.empty(),
    ensures
        json.bind is None,
        json.workers is None,
        json.buffer_size is None,
        json.tcp_no_delay is None,
        json.allow_loopback is None,
        json.allow_direct_ip is None,
        json.allow_private_ips is None,
        json.max_streams is None,
        json.max_frame_size is None,
        json.prod is None,
        json.blacklist is None,
        json.whitelist is None,
        json.auth is None,
        json.dns is None,
        json.real_ip is None,
        json.log_level is None,
        json.log_format is None,
        json.max_connections is None,
        json.idle_timeout_secs is None,
        json.max_connections_per_ip is None,
        json.connection_window_secs is None,
        json.ws_ping_interval_secs is None,
        json.ws_pong_timeout_secs is None,
        json.tcp_keepalive_secs is None,
{
}

/// What is chosen prevails, and what is not is kept.
pub proof fn choices_prevail<T>(choice: T, before: T, text: String, kept: Seq<char>)
    ensures
        or(Some(choice), before) == choice,
        or(None, before) == before,
        text_or(Some(text), kept) == text@,
        text_or(None, kept) == kept,
        text_view(Some(text)) == Some(text@),
        text_view(None) is None,
{
}

/// A configuration has filters exactly if any of the four lists holds anything.
pub proof fn any_list_is_a_filter(config: ServerConfig, r: bool)
    requires
        call_ensures(ServerConfig::has_filters, (&config,), r),
    ensures
        r <==> {
            ||| exists|n: Seq<char>| config@.blacklist_hostnames.contains(n)
            ||| exists|n: Seq<char>| config@.whitelist_hostnames.contains(n)
            ||| exists|p: u16| config@.blacklist_ports.contains(p)
            ||| exists|p: u16| config@.whitelist_ports.contains(p)
        },
{
    let c = config@;
    if !(exists|n: Seq<char>| c.blacklist_hostnames.contains(n)) {
        assert(c.blacklist_hostnames =~= Set::empty());
    }
    if !(exists|n: Seq<char>| c.whitelist_hostnames.contains(n)) {
        assert(c.whitelist_hostnames =~= Set::empty());
    }
    if !(exists|p: u16| c.blacklist_ports.contains(p)) {
        assert(c.blacklist_ports =~= Set::empty());
    }
    if !(exists|p: u16| c.whitelist_ports.contains(p)) {
        assert(c.whitelist_ports =~= Set::empty());
    }
}

/// A configuration stands for its settings, one by one.
pub proof fn settings_stand_for_themselves(config: ServerConfig)
    ensures
        config@.buffer_size == config.buffer_size,
        config@.tcp_nodelay == config.tcp_nodelay,
        config@.allow_loopback == config.allow_loopback,
        config@.allow_direct_ip == config.allow_direct_ip,
        config@.allow_private_ips == config.allow_private_ips,
        config@.max_streams == config.max_streams,
        config@.max_frame_size == config.max_frame_size,
        config@.auth_required == config.auth_required,
        config@.prod_mode == config.prod_mode,
        config@.dns_ttl == config.dns_ttl,
        config@.real_ip_enabled == config.real_ip_enabled,
        config@.max_connections == config.max_connections,
        config@.idle_timeout_secs == config.idle_timeout_secs,
        config@.max_connections_per_ip == config.max_connections_per_ip,
        config@.connection_window_secs == config.connection_window_secs,
        config@.ws_ping_interval_secs == config.ws_ping_interval_secs,
        config@.ws_pong_timeout_secs == config.ws_pong_timeout_secs,
        config@.tcp_keepalive_secs == config.tcp_keepalive_secs,
        config@.auth_users == config.auth_users@,
        config@.blacklist_hostnames == config.blacklist_hostnames@,
        config@.blacklist_ports == config.blacklist_ports@,
        config@.whitelist_hostnames == config.whitelist_hostnames@,
        config@.whitelist_ports == config.whitelist_ports@,
        config@.dns_servers == config.dns_servers@,
        config@.dns_result_order == config.dns_result_order@,
        config@.real_ip_trusted_proxies == config.real_ip_trusted_proxies@,
        config@.real_ip_headers == config.real_ip_headers@,
        config@.log_level == config.log_level@,
        config@.log_format == config.log_format@,
        config@.auth_password is Some <==> config.auth_password is Some,
        config.auth_password matches Some(password) ==> config@.auth_password == Some(password@),
{
}

} // verus!
