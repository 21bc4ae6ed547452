use vstd::prelude::*;

use crate::text::{
    contains_text, find_char, has_colon, has_substring, is_prefix, lacks_char, last_colon_index,
    last_colon_position, parse_port, port_of, same_text, starts_with_text,
};

verus! {

/// How the server's certificate is checked during the handshake.
#[derive(Clone, Copy, Debug, PartialEq, Eq, Structural)]
pub enum TrustPolicy {
    /// The compiled-in self-signed certificate is the only trust anchor, and
    /// any presented host name is accepted. Only for loopback targets.
    EmbeddedSelfSigned,
    /// The platform's trust store and standard host-name verification.
    SystemTrustStore,
}

/// Where the socket address of a target comes from.
#[derive(Clone, Debug, PartialEq, Eq)]
pub enum Resolution {
    /// The target text is itself a socket address.
    Direct,
    /// The target names this machine: connect to 127.0.0.1 at `port`.
    Loopback { port: u16 },
    /// Look `host` up in DNS and take the first address, at `port`.
    Lookup { host: String, port: u16 },
}

/// Why no connection could be made.
#[derive(Clone, Debug, PartialEq, Eq)]
pub enum ConnectError {
    /// Not a single `host:port` pair.
    InvalidAddress,
    /// The port is not a decimal number from 0 to 65535.
    InvalidPort,
    /// The host name resolved to no address.
    UnresolvedHost,
    /// The handshake timed out.
    HandshakeTimeout,
    /// The handshake failed.
    TlsHandshake,
    /// Any other connection failure, with the transport's own message.
    Other { message: String },
}

/// Everything decided about one connection attempt before any network work.
#[derive(Clone, Debug, PartialEq, Eq)]
pub struct ConnectionPlan {
    pub policy: TrustPolicy,
    pub server_name: String,
    pub resolution: Resolution,
}

pub open spec fn is_loopback_target(t: Seq<char>) -> bool {
    is_prefix("localhost:"@, t) || is_prefix("127.0.0.1:"@, t)
}

pub open spec fn trust_policy_of(t: Seq<char>) -> TrustPolicy {
    if is_loopback_target(t) {
        TrustPolicy::EmbeddedSelfSigned
    } else {
        TrustPolicy::SystemTrustStore
    }
}

/// The text before the last colon, or all of it where there is none.
pub open spec fn host_text(t: Seq<char>) -> Seq<char> {
    if has_colon(t) {
        t.take(last_colon_index(t))
    } else {
        t
    }
}

/// The text after the last colon.
pub open spec fn port_text(t: Seq<char>) -> Seq<char> {
    t.skip(last_colon_index(t) + 1)
}

/// Exactly one colon, splitting the text into a host and a port.
pub open spec fn is_host_port_pair(t: Seq<char>) -> bool {
    has_colon(t) && lacks_char(host_text(t), ':')
}

pub open spec fn is_localhost_name(h: Seq<char>) -> bool {
    h == "localhost"@ || h == "localhost.localdomain"@
}

/// The name that the server's certificate is checked against.
pub open spec fn server_name_of(t: Seq<char>) -> Seq<char> {
    if is_loopback_target(t) || host_text(t) == "localhost.localdomain"@ {
        "localhost"@
    } else {
        host_text(t)
    }
}

/// `r` is how `t` resolves, given whether `t` already reads as a socket address.
pub open spec fn resolves_to(t: Seq<char>, direct: bool, r: Result<Resolution, ConnectError>) -> bool {
    if direct {
        r == Ok::<Resolution, ConnectError>(Resolution::Direct)
    } else if !is_host_port_pair(t) {
        r == Err::<Resolution, ConnectError>(ConnectError::InvalidAddress)
    } else {
        match port_of(port_text(t)) {
            None => r == Err::<Resolution, ConnectError>(ConnectError::InvalidPort),
            Some(p) => if is_localhost_name(host_text(t)) {
                r == Ok::<Resolution, ConnectError>(Resolution::Loopback { port: p })
            } else {
                r matches Ok(Resolution::Lookup { host, port }) && host@ == host_text(t) && port
                    == p
            },
        }
    }
}

/// The error that a failed connection attempt is reported as, from the
/// transport's message.
pub open spec fn failure_class(m: Seq<char>, r: ConnectError) -> bool {
    if has_substring(m, "handshake"@) {
        if has_substring(m, "timeout"@) {
            r == ConnectError::HandshakeTimeout
        } else {
            r == ConnectError::TlsHandshake
        }
    } else {
        r matches ConnectError::Other { message } && message@ == m
    }
}

/// The trust policy for `target`: the embedded certificate for loopback
/// targets, the system trust store for every other.
pub fn select_trust_policy(target: &str) -> (r: TrustPolicy)
    ensures
        r == trust_policy_of(target@),
{
    if starts_with_text(target, "localhost:") || starts_with_text(target, "127.0.0.1:") {
        TrustPolicy::EmbeddedSelfSigned
    } else {
        TrustPolicy::SystemTrustStore
    }
}

/// The host part of `target`: the text before its last colon.
pub fn host_of(target: &str) -> (r: String)
    ensures
        r@ == host_text(target@),
{
    match last_colon_position(target) {
        Some(i) => {
            let host = target.substring_char(0, i);
            assert(host@ =~= target@.take(i as int));
            host.to_owned()
        },
        None => target.to_owned(),
    }
}

/// The server name for certificate verification: `localhost` for a loopback
/// target, else the host part of the target as written.
pub fn sni_server_name(target: &str) -> (r: String)
    ensures
        r@ == server_name_of(target@),
{
    let host = host_of(target);
    if select_trust_policy(target) == TrustPolicy::EmbeddedSelfSigned || same_text(
        host.as_str(),
        "localhost.localdomain",
    ) {
        "localhost".to_owned()
    } else {
        host
    }
}

/// How to find the socket address of `target`, where `parses_directly` tells
/// whether the text already reads as one.
pub fn resolve_target(target: &str, parses_directly: bool) -> (r: Result<Resolution, ConnectError>)
    ensures
        resolves_to(target@, parses_directly, r),
{
    if parses_directly {
        return Ok(Resolution::Direct);
    }
    let i = match last_colon_position(target) {
        None => return Err(ConnectError::InvalidAddress),
        Some(i) => i,
    };
    let n = target.unicode_len();
    let host = target.substring_char(0, i);
    assert(host@ =~= host_text(target@));
    if find_char(host, ':').is_some() {
        return Err(ConnectError::InvalidAddress);
    }
    let port_part = target.substring_char(i + 1, n);
    assert(port_part@ =~= port_text(target@));
    let port = match parse_port(port_part) {
        None => return Err(ConnectError::InvalidPort),
        Some(p) => p,
    };
    if same_text(host, "localhost") || same_text(host, "localhost.localdomain") {
        Ok(Resolution::Loopback { port })
    } else {
        Ok(Resolution::Lookup { host: host.to_owned(), port })
    }
}

/// The first address that a lookup found, or `UnresolvedHost` where it found none.
pub fn first_address<T>(found: Vec<T>) -> (r: Result<T, ConnectError>)
    ensures
        found@.len() > 0 ==> r == Ok::<T, ConnectError>(found@[0]),
        found@.len() == 0 ==> r == Err::<T, ConnectError>(ConnectError::UnresolvedHost),
{
    let mut found = found;
    if found.len() == 0 {
        Err(ConnectError::UnresolvedHost)
    } else {
        Ok(found.remove(0))
    }
}

/// Sorts a failed connection attempt by the transport's message: a handshake
/// timeout, another handshake failure, or anything else.
pub fn classify_connect_failure(message: &str) -> (r: ConnectError)
    ensures
        failure_class(message@, r),
{
    if contains_text(message, "handshake") {
        if contains_text(message, "timeout") {
            ConnectError::HandshakeTimeout
        } else {
            ConnectError::TlsHandshake
        }
    } else {
        ConnectError::Other { message: message.to_owned() }
    }
}

/// Decides the trust policy, server name and address resolution for one
/// connection attempt to `target`.
pub fn plan_connection(target: &str, parses_directly: bool) -> (r: Result<ConnectionPlan, ConnectError>)
    ensures
        match r {
            Ok(plan) => {
                &&& plan.policy == trust_policy_of(target@)
                &&& plan.server_name@ == server_name_of(target@)
                &&& resolves_to(target@, parses_directly, Ok(plan.resolution))
            },
            Err(e) => resolves_to(target@, parses_directly, Err(e)),
        },
{
    let policy = select_trust_policy(target);
    let resolution = match resolve_target(target, parses_directly) {
        Ok(res) => res,
        Err(e) => return Err(e),
    };
    let server_name = sni_server_name(target);
    Ok(ConnectionPlan { policy, server_name, resolution })
}

/// Loopback targets, and only they, get the embedded trust anchor, and their
/// certificate is checked against the name `localhost`; every other target is
/// checked against its own host part unless that part names this machine.
pub proof fn loopback_trust_law(t: Seq<char>)
    ensures
        (trust_policy_of(t) == TrustPolicy::EmbeddedSelfSigned) == is_loopback_target(t),
        is_loopback_target(t) ==> server_name_of(t) == "localhost"@,
        !is_loopback_target(t) && host_text(t) != "localhost.localdomain"@ ==> server_name_of(t)
            == host_text(t),
{
}

} // verus!
