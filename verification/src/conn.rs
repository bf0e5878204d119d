//! What one relay connection decides: its state machine, the reconnect
//! budget, and the endpoint a configured relay address resolves to.

use vstd::prelude::*;

use crate::error::Error;

verus! {

/// The life of one relay connection.
#[derive(Debug, Clone, Copy, PartialEq, Eq, Structural)]
pub enum ConnState {
    Idle,
    Connecting,
    Open,
    /// Shutting down; `reconnect` records whether the loss was unexpected,
    /// so that closing finishes with a reconnect request.
    Closing { reconnect: bool },
    Closed,
}

/// What the connection observes.
#[derive(Debug, Clone, Copy, PartialEq, Eq, Structural)]
pub enum ConnEvent {
    /// A first send or subscription asks for a connection.
    Dial,
    /// The handshake succeeded.
    HandshakeOk,
    /// The handshake failed.
    HandshakeFailed,
    /// Another connection takes this one over on purpose.
    TakeOver,
    /// The stream failed or ended unexpectedly.
    NetError,
    /// The reader and writer tasks have exited.
    TasksExited,
}

/// What the driver must do next.
#[derive(Debug, Clone, Copy, PartialEq, Eq, Structural)]
pub enum ConnAction {
    /// Nothing.
    Stay,
    /// Resolve the address and start the handshake.
    StartHandshake,
    /// Spawn the reader and writer tasks and replay the subscription set.
    SpawnTasksAndReplay,
    /// Close the old connection with the well-known conflict reason.
    CloseConflict,
    /// Begin an orderly close.
    BeginClose,
    /// Hand the relay's name to the reconnector.
    EnqueueReconnect,
}

/// The transition table of one connection.
pub open spec fn spec_conn_step(s: ConnState, e: ConnEvent) -> (ConnState, ConnAction) {
    match (s, e) {
        (ConnState::Idle, ConnEvent::Dial) => (ConnState::Connecting, ConnAction::StartHandshake),
        (ConnState::Connecting, ConnEvent::HandshakeOk) => (
            ConnState::Open,
            ConnAction::SpawnTasksAndReplay,
        ),
        (ConnState::Connecting, ConnEvent::HandshakeFailed) => (
            ConnState::Closed,
            ConnAction::EnqueueReconnect,
        ),
        (ConnState::Open, ConnEvent::TakeOver) => (
            ConnState::Closing { reconnect: false },
            ConnAction::CloseConflict,
        ),
        (ConnState::Open, ConnEvent::NetError) => (
            ConnState::Closing { reconnect: true },
            ConnAction::BeginClose,
        ),
        (ConnState::Closing { reconnect }, ConnEvent::TasksExited) => (
            ConnState::Closed,
            if reconnect {
                ConnAction::EnqueueReconnect
            } else {
                ConnAction::Stay
            },
        ),
        (ConnState::Closed, ConnEvent::Dial) => (
            ConnState::Connecting,
            ConnAction::StartHandshake,
        ),
        _ => (s, ConnAction::Stay),
    }
}

/// Drives one connection one event forward.
pub fn conn_step(s: ConnState, e: ConnEvent) -> (r: (ConnState, ConnAction))
    ensures
        r == spec_conn_step(s, e),
{
    match (s, e) {
        (ConnState::Idle, ConnEvent::Dial) => (ConnState::Connecting, ConnAction::StartHandshake),
        (ConnState::Connecting, ConnEvent::HandshakeOk) => (
            ConnState::Open,
            ConnAction::SpawnTasksAndReplay,
        ),
        (ConnState::Connecting, ConnEvent::HandshakeFailed) => (
            ConnState::Closed,
            ConnAction::EnqueueReconnect,
        ),
        (ConnState::Open, ConnEvent::TakeOver) => (
            ConnState::Closing { reconnect: false },
            ConnAction::CloseConflict,
        ),
        (ConnState::Open, ConnEvent::NetError) => (
            ConnState::Closing { reconnect: true },
            ConnAction::BeginClose,
        ),
        (ConnState::Closing { reconnect }, ConnEvent::TasksExited) => (
            ConnState::Closed,
            if reconnect {
                ConnAction::EnqueueReconnect
            } else {
                ConnAction::Stay
            },
        ),
        (ConnState::Closed, ConnEvent::Dial) => (
            ConnState::Connecting,
            ConnAction::StartHandshake,
        ),
        _ => (s, ConnAction::Stay),
    }
}

/// Law: an unexpected loss of an open connection leads, once its tasks have
/// exited, to a reconnect request; an intentional takeover closes without
/// one.
pub proof fn lemma_disconnect_reconnects(s0: ConnState)
    requires
        s0 == ConnState::Open,
    ensures
        ({
            let (s1, a1) = spec_conn_step(s0, ConnEvent::NetError);
            let (s2, a2) = spec_conn_step(s1, ConnEvent::TasksExited);
            s2 == ConnState::Closed && a2 == ConnAction::EnqueueReconnect
        }),
        ({
            let (s1, a1) = spec_conn_step(s0, ConnEvent::TakeOver);
            let (s2, a2) = spec_conn_step(s1, ConnEvent::TasksExited);
            s2 == ConnState::Closed && a2 == ConnAction::Stay && a1 == ConnAction::CloseConflict
        }),
{
}

/// The reconnect budget: attempts are ten seconds apart and give up after
/// the hundred-and-fiftieth.
pub fn retry_delay(attempt: u64) -> (r: Option<u64>)
    ensures
        attempt < 150 ==> r == Some(10u64),
        attempt >= 150 ==> r is None,
{
    if attempt < 150 {
        Some(10)
    } else {
        None
    }
}

/// The scheme a relay address must carry.
pub open spec fn scheme_msgist() -> Seq<u8> {
    seq![109u8, 115u8, 103u8, 105u8, 115u8, 116u8]
}

/// The relay port used when the address names none.
pub const DEFAULT_PORT: u16 = 6996;

/// Abstract value of a `HostPart`.
pub enum HostPartV {
    Ipv4 { octets: Seq<u8> },
    Ipv6 { octets: Seq<u8> },
    Domain { name: Seq<u8> },
    Missing,
}

/// The host of a parsed relay address.
#[derive(Debug, Clone, PartialEq, Eq)]
pub enum HostPart {
    Ipv4 { octets: Vec<u8> },
    Ipv6 { octets: Vec<u8> },
    Domain { name: Vec<u8> },
    Missing,
}

impl View for HostPart {
    type V = HostPartV;

    open spec fn view(&self) -> HostPartV {
        match self {
            HostPart::Ipv4 { octets } => HostPartV::Ipv4 { octets: octets@ },
            HostPart::Ipv6 { octets } => HostPartV::Ipv6 { octets: octets@ },
            HostPart::Domain { name } => HostPartV::Domain { name: name@ },
            HostPart::Missing => HostPartV::Missing,
        }
    }
}

/// Abstract value of a `UrlParts`.
pub struct UrlPartsV {
    pub scheme: Seq<u8>,
    pub host: HostPartV,
    pub port: Option<u16>,
}

impl UrlPartsV {
    /// Address widths are what they say.
    pub open spec fn wf(self) -> bool {
        match self.host {
            HostPartV::Ipv4 { octets } => octets.len() == 4,
            HostPartV::Ipv6 { octets } => octets.len() == 16,
            _ => true,
        }
    }
}

/// A relay address split into its parts.
#[derive(Debug, Clone, PartialEq, Eq)]
pub struct UrlParts {
    pub scheme: Vec<u8>,
    pub host: HostPart,
    pub port: Option<u16>,
}

impl View for UrlParts {
    type V = UrlPartsV;

    open spec fn view(&self) -> UrlPartsV {
        UrlPartsV { scheme: self.scheme@, host: self.host@, port: self.port }
    }
}

/// What splitting a relay address yields: its parts when the address is a
/// URL, nothing otherwise. Parsing is a function of the address alone.
pub uninterp spec fn url_parts_of(addr: Seq<u8>) -> Option<UrlPartsV>;

/// Relies on url's `Url::parse` to split a relay address into scheme, host
/// and port, deterministically in the address; the host widths hold because
/// an IPv4 address has four octets and an IPv6 address sixteen. Nothing more
/// is assumed of the split.
#[verifier::external_body]
fn parse_url(addr: &[u8]) -> (r: Result<UrlParts, Error>)
    ensures
        match r {
            Ok(p) => url_parts_of(addr@) == Some(p@) && p@.wf(),
            Err(e) => url_parts_of(addr@) is None && e == Error::Config,
        },
{
    let s = std::str::from_utf8(addr).map_err(|_| Error::Config)?;
    let u = url::Url::parse(s).map_err(|_| Error::Config)?;
    let host = match u.host() {
        Some(url::Host::Ipv4(v)) => HostPart::Ipv4 { octets: v.octets().to_vec() },
        Some(url::Host::Ipv6(v)) => HostPart::Ipv6 { octets: v.octets().to_vec() },
        Some(url::Host::Domain(d)) => HostPart::Domain { name: d.as_bytes().to_vec() },
        None => HostPart::Missing,
    };
    Ok(UrlParts { scheme: u.scheme().as_bytes().to_vec(), host, port: u.port() })
}

/// Abstract value of an `Endpoint`.
pub enum EndpointV {
    ByIp { octets: Seq<u8>, port: u16 },
    ByName { name: Seq<u8>, port: u16 },
}

/// Where the driver should connect to.
#[derive(Debug, Clone, PartialEq, Eq)]
pub enum Endpoint {
    /// A literal address: four or sixteen octets.
    ByIp { octets: Vec<u8>, port: u16 },
    /// A name still to be resolved over DNS.
    ByName { name: Vec<u8>, port: u16 },
}

impl View for Endpoint {
    type V = EndpointV;

    open spec fn view(&self) -> EndpointV {
        match self {
            Endpoint::ByIp { octets, port } => EndpointV::ByIp { octets: octets@, port: *port },
            Endpoint::ByName { name, port } => EndpointV::ByName { name: name@, port: *port },
        }
    }
}

/// The port to use: the address's own, or the default.
pub open spec fn port_or_default(port: Option<u16>) -> u16 {
    match port {
        Some(p) => p,
        None => DEFAULT_PORT,
    }
}

/// The endpoint an address's parts lead to: none unless the scheme is the
/// configured literal and a host is present; a literal address connects
/// directly, a domain goes to DNS first; a missing port falls back to the
/// default.
pub open spec fn endpoint_decision(p: UrlPartsV) -> Option<EndpointV> {
    if p.scheme != scheme_msgist() {
        None
    } else {
        match p.host {
            HostPartV::Ipv4 { octets } => Some(
                EndpointV::ByIp { octets, port: port_or_default(p.port) },
            ),
            HostPartV::Ipv6 { octets } => Some(
                EndpointV::ByIp { octets, port: port_or_default(p.port) },
            ),
            HostPartV::Domain { name } => Some(
                EndpointV::ByName { name, port: port_or_default(p.port) },
            ),
            HostPartV::Missing => None,
        }
    }
}

/// Decides the endpoint of parsed relay-address parts: exactly
/// `endpoint_decision`, with a configuration error where it decides nothing.
pub fn endpoint_of(parts: &UrlParts) -> (r: Result<Endpoint, Error>)
    ensures
        match endpoint_decision(parts@) {
            Some(ep) => r matches Ok(e2) && e2@ == ep,
            None => r == Err::<Endpoint, Error>(Error::Config),
        },
{
    let scheme_lit: Vec<u8> = vec![109, 115, 103, 105, 115, 116];
    proof {
        assert(scheme_lit@ =~= scheme_msgist());
    }
    if !crate::util::bytes_eq(parts.scheme.as_slice(), scheme_lit.as_slice()) {
        return Err(Error::Config);
    }
    let port: u16 = match parts.port {
        Some(p) => p,
        None => DEFAULT_PORT,
    };
    match &parts.host {
        HostPart::Ipv4 { octets } => {
            let o = crate::cbor::copy_range(octets.as_slice(), 0, octets.len());
            proof {
                assert(o@ =~= parts.host@->Ipv4_octets);
            }
            Ok(Endpoint::ByIp { octets: o, port })
        },
        HostPart::Ipv6 { octets } => {
            let o = crate::cbor::copy_range(octets.as_slice(), 0, octets.len());
            proof {
                assert(o@ =~= parts.host@->Ipv6_octets);
            }
            Ok(Endpoint::ByIp { octets: o, port })
        },
        HostPart::Domain { name } => {
            let n = crate::cbor::copy_range(name.as_slice(), 0, name.len());
            proof {
                assert(n@ =~= parts.host@->Domain_name);
            }
            Ok(Endpoint::ByName { name: n, port })
        },
        HostPart::Missing => Err(Error::Config),
    }
}

/// Splits a relay address and decides its endpoint in one step: the decided
/// endpoint whenever the address parses to a usable relay URL, and a
/// configuration error exactly otherwise.
pub fn resolve_address(addr: &[u8]) -> (r: Result<Endpoint, Error>)
    ensures
        match url_parts_of(addr@) {
            Some(p) => match endpoint_decision(p) {
                Some(ep) => r matches Ok(e2) && e2@ == ep,
                None => r == Err::<Endpoint, Error>(Error::Config),
            },
            None => r == Err::<Endpoint, Error>(Error::Config),
        },
{
    let parts = match parse_url(addr) {
        Ok(p) => p,
        Err(e) => {
            return Err(e);
        },
    };
    endpoint_of(&parts)
}

} // verus!
