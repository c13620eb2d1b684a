//! The command line: what it changes in the configuration, and how many workers there are.

use std::collections::HashSet;
use vstd::prelude::*;

use crate::server::config;
use crate::server::config::{merge_json_over, ConfigView, JsonConfig, ServerConfig};
use crate::text;
use crate::text::{chars_of, has_prefix, read_decimal, trim_range};

verus! {

broadcast use vstd::std_specs::hash::group_hash_axioms;

/// The options of the command line. Where an option has a default, the words themselves tell
/// whether it was given.
#[derive(Debug)]
pub struct CliOptions {
    /// The words of the command line.
    pub words: Vec<String>,
    pub workers: usize,
    pub buffer_size: u32,
    pub no_tcp_nodelay: bool,
    pub block_loopback: bool,
    pub block_direct_ip: bool,
    pub block_private_ips: bool,
    pub max_streams: usize,
    pub max_frame_size: usize,
    pub password: Option<String>,
    pub prod: bool,
    pub log_level: Option<String>,
    pub log_format: Option<String>,
    pub max_connections: Option<usize>,
    pub idle_timeout_secs: Option<u64>,
    pub max_connections_per_ip: Option<usize>,
    pub connection_window_secs: Option<u64>,
    pub ws_ping_interval_secs: Option<u64>,
    pub ws_pong_timeout_secs: Option<u64>,
    pub tcp_keepalive_secs: Option<u64>,
}

/// Why a configuration cannot be used.
#[derive(Debug, Clone, Copy, PartialEq, Eq, Structural)]
pub enum ConfigError {
    /// Streams need credit for at least one packet.
    ZeroBufferSize,
}

impl ConfigError {
    /// The error in words.
    pub fn message(&self) -> (r: &'static str)
        ensures
            r@ == "buffer_size must be >= 1"@,
    {
        "buffer_size must be >= 1"
    }
}

/// Whether some word begins like this.
pub open spec fn begins(words: Seq<String>, prefix: Seq<char>) -> bool {
    exists|i: int| 0 <= i < words.len() && prefix.is_prefix_of((#[trigger] words[i])@)
}

/// Whether some word begins like this.
fn any_begins(words: &Vec<String>, prefix: &str) -> (r: bool)
    ensures
        r == begins(words@, prefix@),
{
    let mut i: usize = 0;
    while i < words.len()
        invariant
            i <= words@.len(),
            forall|j: int| 0 <= j < i ==> !prefix@.is_prefix_of((#[trigger] words@[j])@),
        decreases words@.len() - i,
    {
        if has_prefix(words[i].as_str(), prefix) {
            return true;
        }
        i = i + 1;
    }
    false
}

impl CliOptions {
    /// Whether the command line decides an option that has a default: it does if there is no
    /// file, or if the option was given.
    pub open spec fn decides(self, has_file: bool, dashed: Seq<char>, other: Seq<char>) -> bool {
        !has_file || begins(self.words@, dashed) || begins(self.words@, other)
    }
}

/// A configuration with the command line laid over it.
pub open spec fn overridden(base: ConfigView, cli: CliOptions, has_file: bool) -> ConfigView {
    ConfigView {
        buffer_size: if cli.decides(has_file, "--buffer-size"@, "--buffer_size"@) {
            cli.buffer_size
        } else {
            base.buffer_size
        },
        tcp_nodelay: base.tcp_nodelay && !cli.no_tcp_nodelay,
        allow_loopback: base.allow_loopback && !cli.block_loopback,
        allow_direct_ip: base.allow_direct_ip && !cli.block_direct_ip,
        allow_private_ips: base.allow_private_ips && !cli.block_private_ips,
        max_streams: if cli.decides(has_file, "--max-streams"@, "--max_streams"@) {
            cli.max_streams
        } else {
            base.max_streams
        },
        max_frame_size: if cli.decides(has_file, "--max-frame-size"@, "--max_frame_size"@) {
            cli.max_frame_size
        } else {
            base.max_frame_size
        },
        auth_password: match cli.password {
            Some(password) => Some(password@),
            None => base.auth_password,
        },
        prod_mode: base.prod_mode || cli.prod,
        log_level: config::text_or(cli.log_level, base.log_level),
        log_format: config::text_or(cli.log_format, base.log_format),
        max_connections: config::or(cli.max_connections, base.max_connections),
        idle_timeout_secs: config::or(cli.idle_timeout_secs, base.idle_timeout_secs),
        max_connections_per_ip: config::or(cli.max_connections_per_ip, base.max_connections_per_ip),
        connection_window_secs: config::or(cli.connection_window_secs, base.connection_window_secs),
        ws_ping_interval_secs: config::or(cli.ws_ping_interval_secs, base.ws_ping_interval_secs),
        ws_pong_timeout_secs: config::or(cli.ws_pong_timeout_secs, base.ws_pong_timeout_secs),
        tcp_keepalive_secs: config::or(cli.tcp_keepalive_secs, base.tcp_keepalive_secs),
        ..base
    }
}

/// The configuration that a command line and a file, if one is named, amount to: production
/// values come first if they are asked for, the file goes over them, and the command line over
/// everything.
pub open spec fn configured(cli: CliOptions, json: Option<JsonConfig>) -> ConfigView {
    let start = if cli.prod {
        config::default_config().with_prod_defaults()
    } else {
        config::default_config()
    };
    match json {
        Some(json) => overridden(config::merged(start, json), cli, true),
        None => overridden(start, cli, false),
    }
}

/// Lays the command line over a configuration.
fn override_config(base: ServerConfig, cli: &CliOptions, has_file: bool) -> (r: ServerConfig)
    ensures
        r@ == overridden(base@, *cli, has_file),
{
    let buffer_size: u32 = if !has_file || any_begins(&cli.words, "--buffer-size") || any_begins(
        &cli.words,
        "--buffer_size",
    ) {
        cli.buffer_size
    } else {
        base.buffer_size
    };
    let max_streams: usize = if !has_file || any_begins(&cli.words, "--max-streams") || any_begins(
        &cli.words,
        "--max_streams",
    ) {
        cli.max_streams
    } else {
        base.max_streams
    };
    let max_frame_size: usize = if !has_file || any_begins(&cli.words, "--max-frame-size")
        || any_begins(&cli.words, "--max_frame_size") {
        cli.max_frame_size
    } else {
        base.max_frame_size
    };
    let auth_password = match &cli.password {
        Some(password) => Some(password.clone()),
        None => base.auth_password,
    };
    ServerConfig {
        buffer_size,
        tcp_nodelay: base.tcp_nodelay && !cli.no_tcp_nodelay,
        allow_loopback: base.allow_loopback && !cli.block_loopback,
        allow_direct_ip: base.allow_direct_ip && !cli.block_direct_ip,
        allow_private_ips: base.allow_private_ips && !cli.block_private_ips,
        max_streams,
        max_frame_size,
        auth_password,
        auth_users: base.auth_users,
        auth_required: base.auth_required,
        prod_mode: base.prod_mode || cli.prod,
        blacklist_hostnames: base.blacklist_hostnames,
        blacklist_ports: base.blacklist_ports,
        whitelist_hostnames: base.whitelist_hostnames,
        whitelist_ports: base.whitelist_ports,
        dns_servers: base.dns_servers,
        dns_ttl: base.dns_ttl,
        dns_result_order: base.dns_result_order,
        real_ip_enabled: base.real_ip_enabled,
        real_ip_trusted_proxies: base.real_ip_trusted_proxies,
        real_ip_headers: base.real_ip_headers,
        log_level: config::pick_text(&cli.log_level, base.log_level),
        log_format: config::pick_text(&cli.log_format, base.log_format),
        max_connections: config::pick(&cli.max_connections, base.max_connections),
        idle_timeout_secs: config::pick(&cli.idle_timeout_secs, base.idle_timeout_secs),
        max_connections_per_ip: config::pick(
            &cli.max_connections_per_ip,
            base.max_connections_per_ip,
        ),
        connection_window_secs: config::pick(
            &cli.connection_window_secs,
            base.connection_window_secs,
        ),
        ws_ping_interval_secs: config::pick(&cli.ws_ping_interval_secs, base.ws_ping_interval_secs),
        ws_pong_timeout_secs: config::pick(&cli.ws_pong_timeout_secs, base.ws_pong_timeout_secs),
        tcp_keepalive_secs: config::pick(&cli.tcp_keepalive_secs, base.tcp_keepalive_secs),
    }
}

/// The contents of a file, if one is named.
pub open spec fn json_view(json: Option<&JsonConfig>) -> Option<JsonConfig> {
    match json {
        Some(json) => Some(*json),
        None => None,
    }
}

/// Works out the configuration. It cannot be used if streams would have no credit.
pub fn configure(cli: &CliOptions, json: Option<&JsonConfig>) -> (r: Result<
    ServerConfig,
    ConfigError,
>)
    ensures
        ({
            let wanted = configured(*cli, json_view(json));
            match r {
                Ok(config) => config@ == wanted && wanted.buffer_size >= 1,
                Err(e) => e == ConfigError::ZeroBufferSize && wanted.buffer_size == 0,
            }
        }),
{
    let mut start = ServerConfig::default();
    if cli.prod {
        start.apply_prod_defaults();
    }
    let config = match json {
        Some(json) => override_config(merge_json_over(start, json), cli, true),
        None => override_config(start, cli, false),
    };
    if config.buffer_size == 0 {
        Err(ConfigError::ZeroBufferSize)
    } else {
        Ok(config)
    }
}

/// Where the address to bind comes from.
#[derive(Debug)]
pub enum BindChoice {
    /// From the command line, or its default.
    CommandLine,
    /// From the file.
    File(String),
}

/// The address to bind that the file decides about, if it does.
pub open spec fn bind_from_file(words: Seq<String>, json: Option<JsonConfig>) -> Option<Seq<char>> {
    match json {
        Some(json) => if begins(words, "-b"@) || begins(words, "--bind"@) {
            None
        } else {
            config::text_view(json.bind)
        },
        None => None,
    }
}

/// The number of workers that a command line and a file amount to, on so many cores.
pub open spec fn workers_wanted(
    words: Seq<String>,
    workers: usize,
    json: Option<JsonConfig>,
    cores: usize,
) -> usize {
    let chosen = match json {
        Some(json) => if begins(words, "-w"@) || begins(words, "--workers"@) {
            workers
        } else {
            config::or(json.workers, 0usize)
        },
        None => workers,
    };
    if chosen == 0 {
        cores
    } else {
        chosen
    }
}

/// Chooses the address to bind: the file's, unless there is none or the command line names one,
/// be it in a word of its own or in the word of the option.
pub fn choose_bind(words: &Vec<String>, json: Option<&JsonConfig>) -> (r: BindChoice)
    ensures
        match r {
            BindChoice::File(address) => bind_from_file(words@, json_view(json)) == Some(
                address@,
            ),
            BindChoice::CommandLine => bind_from_file(words@, json_view(json)) is None,
        },
{
    match json {
        Some(json) => {
            if any_begins(words, "-b") || any_begins(words, "--bind") {
                return BindChoice::CommandLine;
            }
            match &json.bind {
                Some(bind) => BindChoice::File(bind.clone()),
                None => BindChoice::CommandLine,
            }
        },
        None => BindChoice::CommandLine,
    }
}

/// Chooses the number of workers: the file's, unless there is none or the command line gives
/// one. Zero, or nothing, stands for one worker for each core.
pub fn choose_workers(
    words: &Vec<String>,
    workers: usize,
    json: Option<&JsonConfig>,
    cores: usize,
) -> (r: usize)
    ensures
        r == workers_wanted(words@, workers, json_view(json), cores),
{
    let chosen: usize = match json {
        Some(json) => if any_begins(words, "-w") || any_begins(words, "--workers") {
            workers
        } else {
            config::pick(&json.workers, 0)
        },
        None => workers,
    };
    if chosen == 0 {
        cores
    } else {
        chosen
    }
}

// ---------------------------------------------------------------------------------------
// Cores
// ---------------------------------------------------------------------------------------

/// What the system says of one entry among its processors: the entry's name, and the contents
/// of the files that number its package and its core, if they can be read.
#[derive(Debug)]
pub struct CpuEntry {
    pub name: String,
    pub package: Option<String>,
    pub core: Option<String>,
}

/// The number in a file: a decimal number with white space around it.
pub open spec fn number_in(contents: Option<String>) -> Option<nat> {
    match contents {
        Some(contents) => text::decimal_up_to(text::trimmed(contents@), u32::MAX as nat),
        None => None,
    }
}

impl CpuEntry {
    /// Whether the entry is a processor that may be used: its name is "cpu" and a number, and
    /// the number, if the machine can hold it, is among the schedulable ones.
    pub open spec fn usable(self, schedulable: Seq<usize>) -> bool {
        let digits = self.name@.skip(3);
        &&& "cpu"@.is_prefix_of(self.name@)
        &&& text::all_digits(digits)
        &&& text::decimal_up_to(digits, usize::MAX as nat) matches Some(number)
            ==> schedulable.contains(number as usize)
    }

    /// The core that the entry belongs to, as one number: the package first, zero if unknown.
    pub open spec fn core_key(self) -> Option<u64> {
        match number_in(self.core) {
            Some(core) => Some(
                (config::or(number_in(self.package), 0nat) * 0x1_0000_0000 + core) as u64,
            ),
            None => None,
        }
    }
}

/// The cores that usable processors belong to.
pub open spec fn cores_of(schedulable: Seq<usize>, cpus: Seq<CpuEntry>) -> Set<u64> {
    Set::new(
        |key: u64|
            exists|i: int|
                0 <= i < cpus.len() && (#[trigger] cpus[i]).usable(schedulable)
                    && cpus[i].core_key() == Some(key),
    )
}

/// Reads the number in a file.
fn read_number(contents: &Option<String>) -> (r: Option<u32>)
    ensures
        match r {
            Some(number) => number_in(*contents) == Some(number as nat),
            None => number_in(*contents) is None,
        },
{
    match contents {
        Some(contents) => {
            let chars = chars_of(contents.as_str());
            let (from, to): (usize, usize) = trim_range(&chars, 0, chars.len());
            proof {
                assert(chars@.subrange(0, chars@.len() as int) == contents@);
            }
            match read_decimal(&chars, from, to, u32::MAX as u64) {
                Some(number) => Some(number as u32),
                None => None,
            }
        },
        None => None,
    }
}

/// Whether a list holds a number.
fn list_has(list: &[usize], number: usize) -> (r: bool)
    ensures
        r == list@.contains(number),
{
    let mut i: usize = 0;
    while i < list.len()
        invariant
            i <= list@.len(),
            forall|j: int| 0 <= j < i ==> list@[j] != number,
        decreases list@.len() - i,
    {
        if list[i] == number {
            return true;
        }
        i = i + 1;
    }
    false
}

/// Whether an entry is a processor that may be used.
fn is_usable(entry: &CpuEntry, schedulable: &[usize]) -> (r: bool)
    ensures
        r == entry.usable(schedulable@),
{
    if !has_prefix(entry.name.as_str(), "cpu") {
        return false;
    }
    let chars = chars_of(entry.name.as_str());
    proof {
        reveal_strlit("cpu");
    }
    let ghost digits = chars@.skip(3);
    let mut i: usize = 3;
    while i < chars.len()
        invariant
            3 <= i <= chars@.len(),
            chars@ == entry.name@,
            digits == chars@.skip(3),
            forall|j: int| 0 <= j < i - 3 ==> text::is_digit(#[trigger] digits[j]),
        decreases chars@.len() - i,
    {
        if chars[i] < '0' || chars[i] > '9' {
            proof {
                assert(digits[i - 3] == chars@[i as int]);
                assert(!text::is_digit(digits[i - 3]));
            }
            return false;
        }
        i = i + 1;
    }
    proof {
        assert(chars@.subrange(3, chars@.len() as int) == digits);
    }
    match read_decimal(&chars, 3, chars.len(), usize::MAX as u64) {
        Some(number) => list_has(schedulable, number as usize),
        None => true,
    }
}

/// The number of cores that workers can have to themselves.
pub open spec fn core_count(schedulable: Seq<usize>, cpus: Seq<CpuEntry>) -> nat {
    if schedulable.len() == 0 {
        1
    } else if cores_of(schedulable, cpus).is_empty() {
        schedulable.len()
    } else {
        cores_of(schedulable, cpus).len()
    }
}

/// Counts the cores that workers can have to themselves: the different cores of the usable
/// processors; if they cannot be told, the schedulable processors; and one if there are none.
pub fn num_physical_cores(schedulable: &[usize], cpus: &[CpuEntry]) -> (r: usize)
    ensures
        r == core_count(schedulable@, cpus@),
{
    if schedulable.len() == 0 {
        return 1;
    }
    let mut cores: HashSet<u64> = HashSet::new();
    let mut i: usize = 0;
    proof {
        assert(cores@ == cores_of(schedulable@, cpus@.take(0)));
    }
    while i < cpus.len()
        invariant
            i <= cpus@.len(),
            cores@ == cores_of(schedulable@, cpus@.take(i as int)),
        decreases cpus@.len() - i,
    {
        let ghost before = cores@;
        let entry = &cpus[i];
        let usable = is_usable(entry, schedulable);
        if usable {
            let package: u32 = match read_number(&entry.package) {
                Some(package) => package,
                None => 0,
            };
            if let Some(core) = read_number(&entry.core) {
                let key: u64 = package as u64 * 0x1_0000_0000 + core as u64;
                cores.insert(key);
            }
        }
        proof {
            let shorter = cpus@.take(i as int);
            let longer = cpus@.take(i + 1);
            assert(longer[i as int] == *entry);
            assert forall|key: u64| cores@.contains(key) == #[trigger] cores_of(
                schedulable@,
                longer,
            ).contains(key) by {
                if before.contains(key) {
                    let j = choose|j: int|
                        0 <= j < shorter.len() && (#[trigger] shorter[j]).usable(schedulable@)
                            && shorter[j].core_key() == Some(key);
                    assert(longer[j] == shorter[j]);
                }
                if cores_of(schedulable@, longer).contains(key) && !(usable && entry.core_key()
                    == Some(key)) {
                    let j = choose|j: int|
                        0 <= j < longer.len() && (#[trigger] longer[j]).usable(schedulable@)
                            && longer[j].core_key() == Some(key);
                    assert(shorter[j] == longer[j]);
                }
            }
            assert(cores@ == cores_of(schedulable@, longer));
        }
        i = i + 1;
    }
    proof {
        assert(cpus@.take(cpus@.len() as int) == cpus@);
    }
    if cores.is_empty() {
        schedulable.len()
    } else {
        cores.len()
    }
}

// ---------------------------------------------------------------------------------------
// Laws
// ---------------------------------------------------------------------------------------

/// What the command line says prevails over the file and over production values.
pub proof fn the_command_line_prevails(cli: CliOptions, json: Option<JsonConfig>)
    ensures
        ({
            let config = configured(cli, json);
            &&& cli.max_connections matches Some(n) ==> config.max_connections == n
            &&& cli.idle_timeout_secs matches Some(n) ==> config.idle_timeout_secs == n
            &&& cli.max_connections_per_ip matches Some(n) ==> config.max_connections_per_ip == n
            &&& cli.connection_window_secs matches Some(n) ==> config.connection_window_secs == n
            &&& cli.ws_ping_interval_secs matches Some(n) ==> config.ws_ping_interval_secs == n
            &&& cli.ws_pong_timeout_secs matches Some(n) ==> config.ws_pong_timeout_secs == n
            &&& cli.tcp_keepalive_secs matches Some(n) ==> config.tcp_keepalive_secs == n
            &&& cli.log_level matches Some(level) ==> config.log_level == level@
            &&& cli.log_format matches Some(form) ==> config.log_format == form@
            &&& cli.password matches Some(password) ==> config.auth_password == Some(password@)
            &&& cli.prod ==> config.prod_mode
            &&& cli.no_tcp_nodelay ==> !config.tcp_nodelay
            &&& cli.block_loopback ==> !config.allow_loopback
            &&& cli.block_direct_ip ==> !config.allow_direct_ip
            &&& cli.block_private_ips ==> !config.allow_private_ips
            &&& begins(cli.words@, "--buffer-size"@) ==> config.buffer_size == cli.buffer_size
            &&& begins(cli.words@, "--max-streams"@) ==> config.max_streams == cli.max_streams
            &&& begins(cli.words@, "--max-frame-size"@) ==> config.max_frame_size
                == cli.max_frame_size
        }),
{
}

/// What the file says prevails over production values, even a zero, if the command line is
/// silent.
pub proof fn the_file_prevails_if_the_command_line_is_silent(cli: CliOptions, json: JsonConfig)
    ensures
        ({
            let config = configured(cli, Some(json));
            &&& cli.max_connections is None && json.max_connections is Some
                ==> config.max_connections == json.max_connections->0
            &&& cli.idle_timeout_secs is None && json.idle_timeout_secs is Some
                ==> config.idle_timeout_secs == json.idle_timeout_secs->0
            &&& cli.max_connections_per_ip is None && json.max_connections_per_ip is Some
                ==> config.max_connections_per_ip == json.max_connections_per_ip->0
            &&& cli.ws_ping_interval_secs is None && json.ws_ping_interval_secs is Some
                ==> config.ws_ping_interval_secs == json.ws_ping_interval_secs->0
            &&& cli.tcp_keepalive_secs is None && json.tcp_keepalive_secs is Some
                ==> config.tcp_keepalive_secs == json.tcp_keepalive_secs->0
        }),
{
}

/// What the command line is silent about stays as it was, setting by setting; and what it cannot
/// speak about always does.
pub proof fn silence_changes_nothing(base: ConfigView, cli: CliOptions, has_file: bool)
    ensures
        ({
            let config = overridden(base, cli, has_file);
            &&& cli.max_connections is None ==> config.max_connections == base.max_connections
            &&& cli.idle_timeout_secs is None ==> config.idle_timeout_secs == base.idle_timeout_secs
            &&& cli.max_connections_per_ip is None ==> config.max_connections_per_ip
                == base.max_connections_per_ip
            &&& cli.connection_window_secs is None ==> config.connection_window_secs
                == base.connection_window_secs
            &&& cli.ws_ping_interval_secs is None ==> config.ws_ping_interval_secs
                == base.ws_ping_interval_secs
            &&& cli.ws_pong_timeout_secs is None ==> config.ws_pong_timeout_secs
                == base.ws_pong_timeout_secs
            &&& cli.tcp_keepalive_secs is None ==> config.tcp_keepalive_secs
                == base.tcp_keepalive_secs
            &&& cli.password is None ==> config.auth_password == base.auth_password
            &&& cli.log_level is None ==> config.log_level == base.log_level
            &&& cli.log_format is None ==> config.log_format == base.log_format
            &&& !cli.prod ==> config.prod_mode == base.prod_mode
            &&& !cli.no_tcp_nodelay ==> config.tcp_nodelay == base.tcp_nodelay
            &&& !cli.block_loopback ==> config.allow_loopback == base.allow_loopback
            &&& !cli.block_direct_ip ==> config.allow_direct_ip == base.allow_direct_ip
            &&& !cli.block_private_ips ==> config.allow_private_ips == base.allow_private_ips
            &&& config.auth_users == base.auth_users
            &&& config.auth_required == base.auth_required
            &&& config.blacklist_hostnames == base.blacklist_hostnames
            &&& config.blacklist_ports == base.blacklist_ports
            &&& config.whitelist_hostnames == base.whitelist_hostnames
            &&& config.whitelist_ports == base.whitelist_ports
            &&& config.dns_servers == base.dns_servers
            &&& config.dns_ttl == base.dns_ttl
            &&& config.dns_result_order == base.dns_result_order
            &&& config.real_ip_enabled == base.real_ip_enabled
            &&& config.real_ip_trusted_proxies == base.real_ip_trusted_proxies
            &&& config.real_ip_headers == base.real_ip_headers
        }),
{
}

/// The file that is named is the file that counts.
pub proof fn the_file_is_the_one_named(json: JsonConfig)
    ensures
        json_view(Some(&json)) == Some(json),
        json_view(None) is None,
{
}

/// The three options with defaults are the command line's if there is no file or they were given
/// in either spelling, and the file's, or else the server's own default, if not.
pub proof fn options_with_defaults(cli: CliOptions, json: JsonConfig)
    ensures
        configured(cli, None).buffer_size == cli.buffer_size,
        configured(cli, None).max_streams == cli.max_streams,
        configured(cli, None).max_frame_size == cli.max_frame_size,
        ({
            let config = configured(cli, Some(json));
            &&& begins(cli.words@, "--buffer_size"@) ==> config.buffer_size == cli.buffer_size
            &&& begins(cli.words@, "--max_streams"@) ==> config.max_streams == cli.max_streams
            &&& begins(cli.words@, "--max_frame_size"@) ==> config.max_frame_size
                == cli.max_frame_size
            &&& !begins(cli.words@, "--buffer-size"@) && !begins(cli.words@, "--buffer_size"@)
                ==> config.buffer_size == match json.buffer_size {
                Some(v) => v,
                None => 65535u32,
            }
            &&& !begins(cli.words@, "--max-streams"@) && !begins(cli.words@, "--max_streams"@)
                ==> config.max_streams == match json.max_streams {
                Some(v) => v,
                None => 0usize,
            }
            &&& !begins(cli.words@, "--max-frame-size"@) && !begins(
                cli.words@,
                "--max_frame_size"@,
            ) ==> config.max_frame_size == match json.max_frame_size {
                Some(v) => v,
                None => 0usize,
            }
        }),
{
}

/// Where command line and file are silent, a server has the production values if they are asked
/// for on the command line, and the plain defaults if not.
pub proof fn silence_leaves_the_defaults(cli: CliOptions, json: Option<JsonConfig>)
    requires
        json matches Some(file) ==> file.empty(),
    ensures
        ({
            let config = configured(cli, json);
            &&& cli.max_connections is None ==> config.max_connections == if cli.prod {
                8192usize
            } else {
                0usize
            }
            &&& cli.idle_timeout_secs is None ==> config.idle_timeout_secs == if cli.prod {
                300u64
            } else {
                0u64
            }
            &&& cli.max_connections_per_ip is None ==> config.max_connections_per_ip
                == if cli.prod {
                64usize
            } else {
                0usize
            }
            &&& cli.ws_ping_interval_secs is None ==> config.ws_ping_interval_secs == if cli.prod {
                30u64
            } else {
                0u64
            }
            &&& cli.tcp_keepalive_secs is None ==> config.tcp_keepalive_secs == if cli.prod {
                60u64
            } else {
                0u64
            }
            &&& cli.connection_window_secs is None ==> config.connection_window_secs == 60
            &&& cli.ws_pong_timeout_secs is None ==> config.ws_pong_timeout_secs == 10
            &&& cli.password is None ==> config.auth_password is None
            &&& config.prod_mode == cli.prod
            &&& config.tcp_nodelay == !cli.no_tcp_nodelay
            &&& config.allow_loopback == !cli.block_loopback
            &&& config.allow_direct_ip == !cli.block_direct_ip
            &&& config.allow_private_ips == !cli.block_private_ips
            &&& config.auth_users == Map::<Seq<char>, String>::empty()
            &&& !config.auth_required
            &&& config.blacklist_hostnames == Set::<Seq<char>>::empty()
            &&& config.blacklist_ports == Set::<u16>::empty()
            &&& config.whitelist_hostnames == Set::<Seq<char>>::empty()
            &&& config.whitelist_ports == Set::<u16>::empty()
            &&& config.dns_ttl == 120
            &&& config.dns_result_order == "ipv4first"@
            &&& !config.real_ip_enabled
            &&& config.dns_servers == Seq::<String>::empty()
            &&& config.real_ip_trusted_proxies == Seq::<String>::empty()
            &&& config.real_ip_headers == Seq::<String>::empty()
            &&& cli.log_level is None ==> config.log_level == "info"@
            &&& cli.log_format is None ==> config.log_format == "text"@
        }),
{
}

/// The file's lists, users, names and addresses are those of the server, whatever the command line
/// says; so are its flags, unless the command line blocks something.
pub proof fn the_rest_of_the_file_stands(cli: CliOptions, json: JsonConfig)
    ensures
        ({
            let config = configured(cli, Some(json));
            &&& json.auth matches Some(auth) ==> {
                &&& config.auth_users == config::users_of(auth.users@)
                &&& config.auth_required == auth.required
            }
            &&& json.blacklist matches Some(list) ==> {
                &&& config.blacklist_hostnames == config::hostnames_of(list.hostnames@)
                &&& config.blacklist_ports == config::ports_of(list.ports@)
            }
            &&& json.whitelist matches Some(list) ==> {
                &&& config.whitelist_hostnames == config::hostnames_of(list.hostnames@)
                &&& config.whitelist_ports == config::ports_of(list.ports@)
            }
            &&& json.dns matches Some(dns) ==> (dns.ttl matches Some(ttl) ==> config.dns_ttl
                == ttl)
            &&& json.real_ip matches Some(real_ip) ==> {
                &&& config.real_ip_enabled == real_ip.enabled
                &&& config.real_ip_trusted_proxies == real_ip.trusted_proxies@
                &&& config.real_ip_headers == real_ip.headers@
            }
            &&& json.allow_loopback matches Some(v) ==> config.allow_loopback == (v
                && !cli.block_loopback)
            &&& json.allow_direct_ip matches Some(v) ==> config.allow_direct_ip == (v
                && !cli.block_direct_ip)
            &&& json.allow_private_ips matches Some(v) ==> config.allow_private_ips == (v
                && !cli.block_private_ips)
            &&& json.tcp_no_delay matches Some(v) ==> config.tcp_nodelay == (v
                && !cli.no_tcp_nodelay)
            &&& json.prod matches Some(v) ==> config.prod_mode == (v || cli.prod)
            &&& cli.connection_window_secs is None && json.connection_window_secs is Some
                ==> config.connection_window_secs == json.connection_window_secs->0
            &&& cli.ws_pong_timeout_secs is None && json.ws_pong_timeout_secs is Some
                ==> config.ws_pong_timeout_secs == json.ws_pong_timeout_secs->0
            &&& cli.log_level is None && json.log_level is Some ==> config.log_level
                == json.log_level->0@
            &&& cli.log_format is None && json.log_format is Some ==> config.log_format
                == json.log_format->0@
        }),
{
}

/// An option was given exactly if some word of the command line has it at its front, wherever the
/// word stands.
pub proof fn any_word_can_give_an_option(words: Seq<String>, prefix: Seq<char>)
    ensures
        begins(words, prefix) <==> exists|i: int|
            0 <= i < words.len() && prefix.len() <= (#[trigger] words[i])@.len()
                && words[i]@.take(prefix.len() as int) == prefix,
{
    if begins(words, prefix) {
        let i = choose|i: int| 0 <= i < words.len() && prefix.is_prefix_of((#[trigger] words[i])@);
        assert(words[i]@.take(prefix.len() as int) == words[i]@.subrange(
            0,
            prefix.len() as int,
        ));
    }
    if exists|i: int|
        0 <= i < words.len() && prefix.len() <= (#[trigger] words[i])@.len() && words[i]@.take(
            prefix.len() as int,
        ) == prefix {
        let i = choose|i: int|
            0 <= i < words.len() && prefix.len() <= (#[trigger] words[i])@.len()
                && words[i]@.take(prefix.len() as int) == prefix;
        assert(words[i]@.take(prefix.len() as int) == words[i]@.subrange(
            0,
            prefix.len() as int,
        ));
        assert(prefix.is_prefix_of(words[i]@));
    }
}

/// The file's address is bound exactly if there is one and the command line names none.
pub proof fn the_command_line_binds_first(words: Seq<String>, json: JsonConfig)
    ensures
        bind_from_file(words, None) is None,
        begins(words, "-b"@) || begins(words, "--bind"@) ==> bind_from_file(words, Some(json))
            is None,
        !begins(words, "-b"@) && !begins(words, "--bind"@) ==> match json.bind {
            Some(address) => bind_from_file(words, Some(json)) == Some(address@),
            None => bind_from_file(words, Some(json)) is None,
        },
{
}

/// There are as many workers as the command line says, or else the file; where neither gives a
/// number above zero there is one for each core.
pub proof fn workers_are_counted(
    words: Seq<String>,
    workers: usize,
    json: JsonConfig,
    cores: usize,
)
    ensures
        ({
            let given = begins(words, "-w"@) || begins(words, "--workers"@);
            &&& workers_wanted(words, workers, None, cores) == if workers > 0 {
                workers
            } else {
                cores
            }
            &&& given ==> workers_wanted(words, workers, Some(json), cores) == workers_wanted(
                words,
                workers,
                None,
                cores,
            )
            &&& !given && json.workers is Some && json.workers->0 > 0 ==> workers_wanted(
                words,
                workers,
                Some(json),
                cores,
            ) == json.workers->0
            &&& !given && !(json.workers is Some && json.workers->0 > 0) ==> workers_wanted(
                words,
                workers,
                Some(json),
                cores,
            ) == cores
        }),
{
}

/// A processor adds its core to the count exactly if it may be used and its core is known, and a
/// core is counted once, however many processors it has.
pub proof fn cores_are_counted_once(schedulable: Seq<usize>, cpus: Seq<CpuEntry>, cpu: CpuEntry)
    ensures
        ({
            let before = cores_of(schedulable, cpus);
            let after = cores_of(schedulable, cpus.push(cpu));
            cores_of(schedulable, seq![]) == Set::<u64>::empty() && after == if cpu.usable(
                schedulable,
            ) && cpu.core_key() is Some {
                before.insert(cpu.core_key()->0)
            } else {
                before
            }
        }),
{
    let longer = cpus.push(cpu);
    let before = cores_of(schedulable, cpus);
    let after = cores_of(schedulable, longer);
    assert(cores_of(schedulable, seq![]) =~= Set::<u64>::empty());
    assert forall|key: u64| #[trigger] after.contains(key) <==> before.contains(key) || (cpu.usable(
        schedulable,
    ) && cpu.core_key() == Some(key)) by {
        if before.contains(key) {
            let i = choose|i: int|
                0 <= i < cpus.len() && (#[trigger] cpus[i]).usable(schedulable)
                    && cpus[i].core_key() == Some(key);
            assert(longer[i] == cpus[i]);
        }
        if cpu.usable(schedulable) && cpu.core_key() == Some(key) {
            assert(longer[cpus.len() as int] == cpu);
        }
        if after.contains(key) && !(cpu.usable(schedulable) && cpu.core_key() == Some(key)) {
            let i = choose|i: int|
                0 <= i < longer.len() && (#[trigger] longer[i]).usable(schedulable)
                    && longer[i].core_key() == Some(key);
            assert(cpus[i] == longer[i]);
        }
    }
    assert(after =~= if cpu.usable(schedulable) && cpu.core_key() is Some {
        before.insert(cpu.core_key()->0)
    } else {
        before
    });
}

/// Two processors belong to one core exactly if both the numbers of their cores and those of their
/// packages are the same, where a package that is unknown counts as number zero.
pub proof fn cores_are_told_apart(a: CpuEntry, b: CpuEntry)
    requires
        a.core_key() is Some,
        b.core_key() is Some,
    ensures
        a.core_key() == b.core_key() <==> {
            &&& number_in(a.core) == number_in(b.core)
            &&& config::or(number_in(a.package), 0nat) == config::or(number_in(b.package), 0nat)
        },
        a.core_key() is Some <==> number_in(a.core) is Some,
{
}

/// The count is that of the cores that are known; if none is known, of the processors that may be
/// used; and it is never zero.
pub proof fn there_is_always_a_core(schedulable: Seq<usize>, cpus: Seq<CpuEntry>)
    requires
        cores_of(schedulable, cpus).finite(),
    ensures
        core_count(schedulable, cpus) > 0,
        schedulable.len() > 0 && cores_of(schedulable, cpus).len() > 0 ==> core_count(
            schedulable,
            cpus,
        ) == cores_of(schedulable, cpus).len(),
        schedulable.len() > 0 && cores_of(schedulable, cpus).len() == 0 ==> core_count(
            schedulable,
            cpus,
        ) == schedulable.len(),
        schedulable.len() == 0 ==> core_count(schedulable, cpus) == 1,
{
    let cores = cores_of(schedulable, cpus);
    if cores.len() == 0 {
        assert(cores =~= Set::empty());
    } else {
        assert(cores.contains(cores.choose()));
    }
}

/// An entry is a processor that may be used exactly if its name is "cpu" and digits, and these,
/// where they give a number that the machine can hold, give a schedulable one.
pub proof fn which_entries_are_processors(cpu: CpuEntry, digits: Seq<char>, schedulable: Seq<usize>)
    ensures
        cpu.name@ == "cpu"@ + digits ==> (cpu.usable(schedulable) <==> {
            &&& forall|i: int|
                0 <= i < digits.len() ==> '0' <= #[trigger] digits[i] && digits[i] <= '9'
            &&& text::decimal(digits) is Some && text::decimal(digits)->0 <= usize::MAX
                ==> schedulable.contains(text::decimal(digits)->0 as usize)
        }),
        cpu.usable(schedulable) ==> cpu.name@ == "cpu"@ + cpu.name@.skip(3),
{
    reveal_strlit("cpu");
    if cpu.name@ == "cpu"@ + digits {
        assert(cpu.name@.subrange(0, 3) == "cpu"@);
        assert(cpu.name@.skip(3) == digits);
    }
    if cpu.usable(schedulable) {
        assert(cpu.name@.subrange(0, 3) == "cpu"@);
        assert(cpu.name@ == "cpu"@ + cpu.name@.skip(3));
    }
}

/// A file holds a number exactly if, white space around it apart, it is a decimal number of 32
/// bits.
pub proof fn which_files_hold_numbers(contents: String)
    ensures
        number_in(None) is None,
        number_in(Some(contents)) == match text::decimal(text::trimmed(contents@)) {
            Some(n) => if n <= 0xffff_ffff {
                Some(n)
            } else {
                None
            },
            None => None,
        },
{
}

/// A configuration is refused exactly if its streams would have no credit, and is used as it stands
/// if not.
pub proof fn configurations_need_credit(
    cli: CliOptions,
    json: JsonConfig,
    with_file: Result<ServerConfig, ConfigError>,
    without: Result<ServerConfig, ConfigError>,
)
    requires
        call_ensures(configure, (&cli, Some(&json)), with_file),
        call_ensures(configure, (&cli, None), without),
    ensures
        with_file is Err <==> configured(cli, Some(json)).buffer_size == 0,
        with_file matches Ok(config) ==> config@ == configured(cli, Some(json)),
        without is Err <==> cli.buffer_size == 0,
        without matches Ok(config) ==> config@ == configured(cli, None),
{
}

} // verus!
