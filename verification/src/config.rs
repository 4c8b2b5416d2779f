//! Server specifications.
//!
//! A [`Server`] names a machine, the MAC and local interface used to wake
//! it, an optional VLAN, the servers it depends on, and the health checks
//! that decide when it counts as up. A [`HealthCheck`] is one of three
//! probes — an HTTP request, a TCP connect, or a shell command — each with
//! a retry interval and a polling timeout, both in milliseconds.

use vstd::prelude::*;

use crate::ip::{is_ip_literal, is_valid_ip};

verus! {

/// A structural error in a server specification set.
#[derive(Debug)]
pub enum ServerConfigError {
    /// The configuration could not be read or decoded.
    ParseError(String),
    /// A `depends` entry names no server in the set.
    UndefinedDependency(String),
    /// The `depends` relation contains a cycle through the named server.
    CircularDependency(String),
    /// A health check is self-contradictory or incomplete.
    BadHealthCheckDefinition(String),
}

/// The default retry interval between health-check attempts: ten seconds,
/// in milliseconds.
pub fn default_duration() -> (d: u64)
    ensures
        d == 10000,
{
    10000
}

/// One health probe. `retry` and `timeout` are in milliseconds; `regex`
/// fields hold the textual pattern to look for.
pub enum HealthCheck {
    /// GET `url`; healthy when the response status equals `status` (if set)
    /// and the body matches `regex` (if set).
    Http { url: String, status: Option<u16>, retry: u64, timeout: u64, regex: Option<String> },
    /// Healthy when a TCP connection to `ip:port` can be established.
    Port { ip: String, port: u16, retry: u64, timeout: u64 },
    /// Run `command` through a shell; healthy when the exit code equals
    /// `status` (if set) and standard output matches `regex` (if set).
    Shell { command: String, retry: u64, timeout: u64, status: Option<i32>, regex: Option<String> },
}

/// Mathematical image of a [`HealthCheck`]: strings become character
/// sequences.
pub enum CheckView {
    Http { url: Seq<char>, status: Option<u16>, retry: u64, timeout: u64, regex: Option<Seq<char>> },
    Port { ip: Seq<char>, port: u16, retry: u64, timeout: u64 },
    Shell {
        command: Seq<char>,
        retry: u64,
        timeout: u64,
        status: Option<i32>,
        regex: Option<Seq<char>>,
    },
}

impl View for HealthCheck {
    type V = CheckView;

    open spec fn view(&self) -> CheckView {
        match self {
            HealthCheck::Http { url, status, retry, timeout, regex } => CheckView::Http {
                url: url@,
                status: *status,
                retry: *retry,
                timeout: *timeout,
                regex: regex.deep_view(),
            },
            HealthCheck::Port { ip, port, retry, timeout } => CheckView::Port {
                ip: ip@,
                port: *port,
                retry: *retry,
                timeout: *timeout,
            },
            HealthCheck::Shell { command, retry, timeout, status, regex } => CheckView::Shell {
                command: command@,
                retry: *retry,
                timeout: *timeout,
                status: *status,
                regex: regex.deep_view(),
            },
        }
    }
}

impl DeepView for HealthCheck {
    type V = CheckView;

    open spec fn deep_view(&self) -> CheckView {
        self.view()
    }
}

impl Clone for HealthCheck {
    /// A clone is equal to the original.
    fn clone(&self) -> (r: Self)
        ensures
            r == *self,
    {
        match self {
            HealthCheck::Http { url, status, retry, timeout, regex } => HealthCheck::Http {
                url: url.clone(),
                status: *status,
                retry: *retry,
                timeout: *timeout,
                regex: clone_opt_string(regex),
            },
            HealthCheck::Port { ip, port, retry, timeout } => HealthCheck::Port {
                ip: ip.clone(),
                port: *port,
                retry: *retry,
                timeout: *timeout,
            },
            HealthCheck::Shell { command, retry, timeout, status, regex } => HealthCheck::Shell {
                command: command.clone(),
                retry: *retry,
                timeout: *timeout,
                status: *status,
                regex: clone_opt_string(regex),
            },
        }
    }
}

fn clone_opt_string(s: &Option<String>) -> (r: Option<String>)
    ensures
        r == *s,
{
    match s {
        Some(v) => Some(v.clone()),
        None => None,
    }
}

/// A complete health check: an HTTP check names a status or a body
/// pattern (or both), a port check names a valid IP literal, a shell check
/// names an exit code or an output pattern (or both).
pub open spec fn valid_check(c: CheckView) -> bool {
    match c {
        CheckView::Http { status, regex, .. } => status is Some || regex is Some,
        CheckView::Port { ip, .. } => is_ip_literal(ip),
        CheckView::Shell { status, regex, .. } => status is Some || regex is Some,
    }
}

/// Rejects a health check that could never decide anything: an HTTP or
/// shell check with nothing to match, or a port check whose `ip` is not an
/// IP literal.
pub fn validate_health_check(healthcheck: &HealthCheck) -> (r: Result<(), ServerConfigError>)
    ensures
        r is Ok <==> valid_check(healthcheck@),
        r matches Err(e) ==> e matches ServerConfigError::BadHealthCheckDefinition(_),
{
    match healthcheck {
        HealthCheck::Http { status, regex, .. } => {
            if status.is_none() && regex.is_none() {
                return Err(
                    ServerConfigError::BadHealthCheckDefinition(
                        "HTTP health check requires an HTTP status code to match and/or a Regex to match in the response".to_owned(),
                    ),
                );
            }
        },
        HealthCheck::Port { ip, .. } => {
            if !is_valid_ip(ip.as_str()) {
                return Err(
                    ServerConfigError::BadHealthCheckDefinition(
                        "Port check requires a valid IP address".to_owned(),
                    ),
                );
            }
        },
        HealthCheck::Shell { status, regex, .. } => {
            if status.is_none() && regex.is_none() {
                return Err(
                    ServerConfigError::BadHealthCheckDefinition(
                        "Health check via shell command requires an return code to match and/or a Regex to match in the standard output".to_owned(),
                    ),
                );
            }
        },
    }
    Ok(())
}

/// Every health check of every server is complete.
pub open spec fn all_checks_valid(servers: Seq<ServerView>) -> bool {
    forall|i: int, k: int|
        0 <= i < servers.len() && 0 <= k < servers[i].check.len() ==> valid_check(
            #[trigger] servers[i].check[k],
        )
}

/// One server specification.
pub struct Server {
    /// Unique key of this server within the set.
    pub name: String,
    /// Hardware address of the machine to wake.
    pub mac: String,
    /// Name of the local interface the frame is sent on.
    pub interface: String,
    /// Optional 802.1Q VLAN identifier for the frame.
    pub vlan: Option<u16>,
    /// Names of servers that must be up before this one is woken.
    pub depends: Vec<String>,
    /// Probes that decide when this server is up.
    pub check: Vec<HealthCheck>,
}

/// Mathematical image of a [`Server`].
pub struct ServerView {
    pub name: Seq<char>,
    pub mac: Seq<char>,
    pub interface: Seq<char>,
    pub vlan: Option<u16>,
    pub depends: Seq<Seq<char>>,
    pub check: Seq<CheckView>,
}

impl View for Server {
    type V = ServerView;

    open spec fn view(&self) -> ServerView {
        ServerView {
            name: self.name@,
            mac: self.mac@,
            interface: self.interface@,
            vlan: self.vlan,
            depends: self.depends.deep_view(),
            check: self.check.deep_view(),
        }
    }
}

impl DeepView for Server {
    type V = ServerView;

    open spec fn deep_view(&self) -> ServerView {
        self.view()
    }
}

impl Clone for Server {
    /// A clone has the same mathematical image as the original.
    fn clone(&self) -> (r: Self)
        ensures
            r@ == self@,
    {
        let r = Server {
            name: self.name.clone(),
            mac: self.mac.clone(),
            interface: self.interface.clone(),
            vlan: self.vlan,
            depends: self.depends.clone(),
            check: self.check.clone(),
        };
        proof {
            assert(r.depends.deep_view() =~= self.depends.deep_view());
            assert(r.check.deep_view() =~= self.check.deep_view());
        }
        r
    }
}

} // verus!
