use crate::text::{parse_unsigned, split, split_on, text_of, unsigned_of};
use http::Uri;
use regex::Regex;
use vstd::prelude::*;
use vstd::slice::slice_to_vec;
use vstd::string::StringExecFns;
use vstd::utf8::{decode_utf8, valid_utf8};

verus! {

/// Whether the regular expression `pattern` matches somewhere in `text`;
/// `None` where `pattern` is no regular expression.
pub uninterp spec fn pattern_matches(pattern: Seq<char>, text: Seq<char>) -> Option<bool>;

/// What an address says of where to go: scheme, host and port, each
/// only where the address names it.
pub struct AddressParts {
    pub scheme: Option<Seq<char>>,
    pub host: Option<Seq<char>>,
    pub port: Option<u16>,
}

/// The parts of the address `text`; `None` where `text` is no address.
pub uninterp spec fn address_parts(text: Seq<char>) -> Option<AddressParts>;

/// The host that the address `text` names, if it is an address and names
/// one.
pub open spec fn host_of(text: Seq<char>) -> Option<Seq<char>> {
    match address_parts(text) {
        Some(parts) => parts.host,
        None => None,
    }
}

/// The port that the address `text` names, if it is an address and names
/// one.
pub open spec fn port_of(text: Seq<char>) -> Option<u16> {
    match address_parts(text) {
        Some(parts) => parts.port,
        None => None,
    }
}

/// The scheme that the address `text` names, if it is an address and
/// names one.
pub open spec fn scheme_of(text: Seq<char>) -> Option<Seq<char>> {
    match address_parts(text) {
        Some(parts) => parts.scheme,
        None => None,
    }
}

/// `Regex::new` and `Regex::is_match` of the `regex` crate. Trusted: the
/// answer is the named one for this pattern and text.
#[verifier::external_body]
fn regex_is_match(pattern: &str, text: &str) -> (r: Option<bool>)
    ensures
        r == pattern_matches(pattern@, text@),
{
    match Regex::new(pattern) {
        Ok(re) => Some(re.is_match(text)),
        Err(_) => None,
    }
}

/// The outcome of a lookup, with the text taken by its view.
pub open spec fn text_view(r: Option<String>) -> Option<Seq<char>> {
    match r {
        Some(s) => Some(s@),
        None => None,
    }
}

/// What came out of reading an address, with the texts taken by their
/// view.
pub open spec fn parts_of(r: Option<(Option<String>, Option<String>, Option<u16>)>) -> Option<
    AddressParts,
> {
    match r {
        Some((scheme, host, port)) => Some(
            AddressParts { scheme: text_view(scheme), host: text_view(host), port },
        ),
        None => None,
    }
}

/// `str::parse` into a `Uri` of the `http` crate, and `Uri::scheme_str`,
/// `Uri::host` and `Uri::port_u16` on what it gave. Trusted: the answer
/// is the named reading of this text.
#[verifier::external_body]
fn uri_parts(text: &str) -> (r: Option<(Option<String>, Option<String>, Option<u16>)>)
    ensures
        parts_of(r) == address_parts(text@),
{
    match text.parse::<Uri>() {
        Ok(uri) => Some(
            (uri.scheme_str().map(String::from), uri.host().map(String::from), uri.port_u16()),
        ),
        Err(_) => None,
    }
}

/// The shape that the address of a listening entry must have: a scheme of
/// the web or of web sockets, a host, and a port.
pub open spec fn entry_pattern() -> Seq<char> {
    r"((https|wss|ws|http)?:\/\/)([^:/$]{1,})(?::(\d{1,}))"@
}

/// The shape that the address of a session entry must have: a scheme of
/// the web, a host, and a port.
pub open spec fn web_pattern() -> Seq<char> {
    r"((https|http)?:\/\/)([^:/$]{1,})(?::(\d{1,}))"@
}

/// A host and a port to listen on or to connect to.
#[derive(Debug)]
pub struct Target {
    pub host: String,
    pub port: u16,
}

pub struct TargetView {
    pub host: Seq<char>,
    pub port: u16,
}

impl View for Target {
    type V = TargetView;

    open spec fn view(&self) -> TargetView {
        TargetView { host: self.host@, port: self.port }
    }
}

/// The outcome of resolving an address, with the target taken by its
/// view.
pub open spec fn target_view(r: Option<Target>) -> Option<TargetView> {
    match r {
        Some(t) => Some(t@),
        None => None,
    }
}

/// Where an entry with the address `config` listens: the address must
/// have the shape `pattern` and name a host and a port.
pub open spec fn listen_target_of(pattern: Seq<char>, config: Seq<char>) -> Option<TargetView> {
    if pattern_matches(pattern, config) == Some(true) {
        match (host_of(config), port_of(config)) {
            (Some(host), Some(port)) => Some(TargetView { host, port }),
            _ => None,
        }
    } else {
        None
    }
}

fn resolve(pattern: &str, config: &str) -> (r: Option<Target>)
    ensures
        target_view(r) == listen_target_of(pattern@, config@),
{
    match regex_is_match(pattern, config) {
        Some(true) => match uri_parts(config) {
            Some((_, Some(host), Some(port))) => Some(Target { host, port }),
            _ => None,
        },
        _ => None,
    }
}

/// Where a stream or web-socket entry with the address `config` listens.
pub fn listen_target(config: &str) -> (r: Option<Target>)
    ensures
        target_view(r) == listen_target_of(entry_pattern(), config@),
{
    resolve(r"((https|wss|ws|http)?:\/\/)([^:/$]{1,})(?::(\d{1,}))", config)
}

/// The port that goes with a scheme where an address names none: 80 for
/// `ws` and `http`, 443 for `wss` and `https`.
pub open spec fn default_port(scheme: Option<Seq<char>>) -> Option<u16> {
    match scheme {
        Some(s) => if s == "ws"@ || s == "http"@ {
            Some(80u16)
        } else if s == "wss"@ || s == "https"@ {
            Some(443u16)
        } else {
            None
        },
        None => None,
    }
}

/// Where a step with the address `address` connects to: the host it
/// names and the port it names; where it names no port and `defaults` is
/// set, the port that goes with its scheme.
pub open spec fn connect_target_of(address: Seq<char>, defaults: bool) -> Option<TargetView> {
    match host_of(address) {
        Some(host) => match port_of(address) {
            Some(port) => Some(TargetView { host, port }),
            None => if defaults {
                match default_port(scheme_of(address)) {
                    Some(port) => Some(TargetView { host, port }),
                    None => None,
                }
            } else {
                None
            },
        },
        None => None,
    }
}

fn port_for(scheme: Option<String>) -> (r: Option<u16>)
    ensures
        r == default_port(text_view(scheme)),
{
    match scheme {
        Some(s) => {
            if s == String::from_str("ws") || s == String::from_str("http") {
                Some(80)
            } else if s == String::from_str("wss") || s == String::from_str("https") {
                Some(443)
            } else {
                None
            }
        },
        None => None,
    }
}

/// Resolves the address of a destination step.
pub fn connect_target(address: &str, defaults: bool) -> (r: Option<Target>)
    ensures
        target_view(r) == connect_target_of(address@, defaults),
{
    match uri_parts(address) {
        Some((scheme, Some(host), port)) => match port {
            Some(port) => Some(Target { host, port }),
            None => {
                if defaults {
                    match port_for(scheme) {
                        Some(port) => Some(Target { host, port }),
                        None => None,
                    }
                } else {
                    None
                }
            },
        },
        _ => None,
    }
}

/// What the configuration of a session entry says: where to listen, the
/// shared salt, and the idle timeout in seconds.
#[derive(Debug)]
pub struct SessionConfig {
    pub target: Target,
    pub salt: Vec<u8>,
    pub timeout: u64,
}

pub struct SessionConfigView {
    pub target: TargetView,
    pub salt: Seq<u8>,
    pub timeout: u64,
}

impl View for SessionConfig {
    type V = SessionConfigView;

    open spec fn view(&self) -> SessionConfigView {
        SessionConfigView { target: self.target@, salt: self.salt@, timeout: self.timeout }
    }
}

/// What `config` says as the configuration of a session entry: three
/// pieces between `-`, namely the address, the salt and the timeout; more
/// pieces are not read. `None` where a piece is missing, the address is
/// no text or not of the shape asked for, or the timeout is no number.
pub open spec fn session_config_of(config: Seq<u8>) -> Option<SessionConfigView> {
    let parts = split_on(config, 0x2Du8);
    if parts.len() >= 3 && valid_utf8(parts[0]) {
        match (listen_target_of(web_pattern(), decode_utf8(parts[0])), unsigned_of(parts[2])) {
            (Some(target), Some(timeout)) => Some(
                SessionConfigView { target, salt: parts[1], timeout: timeout as u64 },
            ),
            _ => None,
        }
    } else {
        None
    }
}

/// Reads the configuration of a session entry.
pub fn parse_session_config(config: &[u8]) -> (r: Option<SessionConfig>)
    ensures
        match session_config_of(config@) {
            Some(c) => r is Some && r.unwrap()@ == c,
            None => r is None,
        },
{
    let parts = split(config, 0x2Du8);
    if parts.len() < 3 {
        return None;
    }
    let address = match text_of(slice_to_vec(parts[0].as_slice())) {
        Some(text) => text,
        None => {
            return None;
        },
    };
    let target = resolve(r"((https|http)?:\/\/)([^:/$]{1,})(?::(\d{1,}))", address.as_str());
    let timeout = parse_unsigned(parts[2].as_slice());
    match (target, timeout) {
        (Some(target), Some(timeout)) => Some(
            SessionConfig { target, salt: slice_to_vec(parts[1].as_slice()), timeout: timeout as u64 },
        ),
        _ => None,
    }
}

} // verus!
