//! What the controller writes and passes when it launches a helper: the
//! per-start credential, the helper configuration and the command line.
use vstd::prelude::*;

use crate::compile::ProxyGroupEntry;
use crate::controller::{is_id_char, random_id};
use crate::text::{concat, decimal, decimal_string};

verus! {

/// The helper's local API endpoint.
pub open spec fn helper_api_spec() -> Seq<char> {
    "http://127.0.0.1:18080"@
}

/// The helper's local API endpoint.
pub fn helper_api() -> (r: String)
    ensures
        r@ == helper_api_spec(),
{
    String::from_str("http://127.0.0.1:18080")
}

/// A fresh bearer token: this process's id followed by 48 random id
/// characters.
pub fn helper_token(pid: u32) -> (r: String)
    ensures
        exists|suffix: Seq<char>|
            r@ == decimal(pid as nat) + suffix && suffix.len() == 48 && forall|i: int|
                0 <= i < suffix.len() ==> is_id_char(#[trigger] suffix[i]),
{
    let suffix = random_id(48);
    let r = concat(&decimal_string(pid as u64), suffix.as_str());
    assert(r@ == decimal(pid as nat) + suffix@);
    r
}

/// A fresh credential file name: `helper-`, 16 random id characters,
/// `.token`.
pub fn token_file_name() -> (r: String)
    ensures
        exists|middle: Seq<char>|
            r@ == "helper-"@ + middle + ".token"@ && middle.len() == 16 && forall|i: int|
                0 <= i < middle.len() ==> is_id_char(#[trigger] middle[i]),
{
    let middle = random_id(16);
    let r = concat(&concat(&String::from_str("helper-"), middle.as_str()), ".token");
    assert(r@ == "helper-"@ + middle@ + ".token"@);
    r
}

/// A fresh suffix for a temporary file next to the rules file.
pub fn temporary_suffix() -> (r: String)
    ensures
        exists|middle: Seq<char>|
            r@ == middle + ".tmp"@ && middle.len() == 12 && forall|i: int|
                0 <= i < middle.len() ==> is_id_char(#[trigger] middle[i]),
{
    let middle = random_id(12);
    let r = concat(&middle, ".tmp");
    assert(r@ == middle@ + ".tmp"@);
    r
}

/// The parameters of the elevated helper launch: headless mode, then the
/// credential file and the configuration file, each quoted.
pub open spec fn elevated_parameters_spec(token_path: Seq<char>, config_path: Seq<char>) -> Seq<char> {
    "--headless --token-file \""@ + token_path + "\" --config \""@ + config_path + "\""@
}

/// The parameter line of the elevated helper launch.
pub fn elevated_parameters(token_path: &String, config_path: &String) -> (r: String)
    ensures
        r@ == elevated_parameters_spec(token_path@, config_path@),
{
    let s = concat(&String::from_str("--headless --token-file \""), token_path.as_str());
    let s = concat(&s, "\" --config \"");
    let s = concat(&s, config_path.as_str());
    concat(&s, "\"")
}

/// The helper configuration written before a start.
#[derive(Debug)]
pub struct HelperConfig {
    /// Format version of the configuration.
    pub version: u32,
    /// Where connections go that no rule claims: the primary listener.
    pub default_proxy_host: String,
    pub default_proxy_port: u16,
    pub proxy_groups: Vec<ProxyGroupEntry>,
    /// The id the helper gives the next group it creates.
    pub next_group_id: usize,
    /// Destinations that are never intercepted.
    pub default_exclude_cidrs: Vec<String>,
    pub io_threads: u32,
    pub log_level: String,
    /// The helper's own DNS handling stays off.
    pub dns_enabled: bool,
    pub syn_parking_enabled: bool,
    pub syn_parking_watchdog_ms: u32,
    pub syn_parking_pool_size: u32,
}

/// The private and loopback ranges excluded from interception.
pub open spec fn excluded_ranges() -> Seq<Seq<char>> {
    seq!["127.0.0.0/8"@, "10.0.0.0/8"@, "172.16.0.0/12"@, "192.168.0.0/16"@]
}

/// The helper configuration for the compiled proxy groups: the first
/// group's listener is the default proxy; no automatic rules, no DNS.
pub fn helper_config(groups: Vec<ProxyGroupEntry>) -> (r: HelperConfig)
    requires
        groups@.len() > 0,
    ensures
        r.version == 2,
        r.default_proxy_host@ == "127.0.0.1"@,
        r.default_proxy_port == groups@[0].port,
        r.next_group_id == groups@.len(),
        r.proxy_groups@ == groups@,
        r.default_exclude_cidrs@.len() == 4,
        forall|i: int| 0 <= i < 4 ==> (#[trigger] r.default_exclude_cidrs@[i])@ == excluded_ranges()[i],
        r.io_threads == 2,
        r.log_level@ == "info"@,
        !r.dns_enabled,
        r.syn_parking_enabled,
        r.syn_parking_watchdog_ms == 20,
        r.syn_parking_pool_size == 256,
{
    let port = groups[0].port;
    let n = groups.len();
    let mut cidrs: Vec<String> = Vec::new();
    cidrs.push(String::from_str("127.0.0.0/8"));
    cidrs.push(String::from_str("10.0.0.0/8"));
    cidrs.push(String::from_str("172.16.0.0/12"));
    cidrs.push(String::from_str("192.168.0.0/16"));
    HelperConfig {
        version: 2,
        default_proxy_host: String::from_str("127.0.0.1"),
        default_proxy_port: port,
        proxy_groups: groups,
        next_group_id: n,
        default_exclude_cidrs: cidrs,
        io_threads: 2,
        log_level: String::from_str("info"),
        dns_enabled: false,
        syn_parking_enabled: true,
        syn_parking_watchdog_ms: 20,
        syn_parking_pool_size: 256,
    }
}

/// The exit code Windows reports for a process that still runs.
pub const STILL_ACTIVE: u32 = 259;

/// A Windows process exit status: `None` while the process runs.
pub fn windows_exit_code(code: u32) -> (r: Option<u32>)
    ensures
        r == if code == STILL_ACTIVE {
            None::<u32>
        } else {
            Some(code)
        },
{
    if code == STILL_ACTIVE {
        None
    } else {
        Some(code)
    }
}

/// The exit code recorded for a finished process: its code, or 1 when it
/// was ended by a signal.
pub fn unix_exit_code(code: Option<i32>) -> (r: u32)
    ensures
        r == match code {
            Some(c) => c as u32,
            None => 1u32,
        },
{
    match code {
        Some(c) => c as u32,
        None => 1,
    }
}

} // verus!
