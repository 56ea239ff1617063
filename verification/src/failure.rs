//! The stable, export-safe failure contract used for retry and fallback
//! decisions: a fixed code, the connection stage it belongs to, and the path
//! (transport and address family) it was observed on.

use vstd::prelude::*;

verus! {

/// The wire transport that carries CONNECT-IP.
#[derive(Debug, Clone, Copy, PartialEq, Eq, Structural)]
pub enum Transport {
    Http3,
    Http2,
}

/// An IP address family of the physical network.
#[derive(Debug, Clone, Copy, PartialEq, Eq, Structural)]
pub enum AddressFamily {
    Ipv4,
    Ipv6,
}

/// Fixed failure codes. They never carry peer data.
#[derive(Debug, Clone, Copy, PartialEq, Eq, Structural)]
pub enum TransportFailureCode {
    IdentityInvalid,
    ConfigurationInvalid,
    AuthenticationFailed,
    AddressAssignmentInvalid,
    EndpointPinMismatch,
    PhysicalIpv4Unavailable,
    PhysicalIpv6Unavailable,
    PhysicalNetworkChanged,
    PhysicalDnsUnavailable,
    SocketProtectionFailed,
    H3UdpUnreachable,
    H3HandshakeTimeout,
    H3ProtocolError,
    H3DatagramUnavailable,
    H3ConnectionClosed,
    H2TcpConnectFailed,
    H2TlsFailed,
    H2ConnectRejected,
    H2GoAway,
    H2StreamClosed,
    ConnectIpRejected,
    PmtuRevalidationExhausted,
    PacketSendFailed,
    PacketSendTimeout,
    PacketReceiveStalled,
    SendQueueFull,
    AllTransportsFailed,
    ProxyPortInUse,
    AgentUnreachable,
    VpnServiceUnavailable,
    DnsApplyFailed,
    RouteApplyFailed,
    Internal,
}

/// The connection stage at which a failure was observed.
#[derive(Debug, Clone, Copy, PartialEq, Eq, Structural)]
pub enum TransportStage {
    TunnelStartup,
    EndpointResolution,
    SocketProtection,
    SocketConnect,
    TlsHandshake,
    QuicHandshake,
    PeerSettings,
    MasqueConnect,
    AddressAssignment,
    PacketSend,
    PacketReceive,
    PlatformRecovery,
    DnsApply,
    RouteApply,
}

/// Whether a failure with this code leaves HTTP/2 worth trying: the
/// failures of the HTTP/3 path (UDP blocked, a stalled or broken QUIC
/// handshake, missing datagram support, a closed connection, path MTU that
/// can no longer carry packets). Identity, pinning, configuration, platform
/// and exhausted-transport failures never allow it.
pub open spec fn code_allows_fallback(code: TransportFailureCode) -> bool {
    match code {
        TransportFailureCode::H3UdpUnreachable
        | TransportFailureCode::H3HandshakeTimeout
        | TransportFailureCode::H3ProtocolError
        | TransportFailureCode::H3DatagramUnavailable
        | TransportFailureCode::H3ConnectionClosed
        | TransportFailureCode::PmtuRevalidationExhausted => true,
        _ => false,
    }
}

/// Whether a failure with this code is transient, so that another attempt on
/// the same path may succeed: timeouts, unreachable or changed networks,
/// closed connections and streams, and a full or stalled packet path.
pub open spec fn code_is_retryable(code: TransportFailureCode) -> bool {
    match code {
        TransportFailureCode::PhysicalNetworkChanged
        | TransportFailureCode::PhysicalDnsUnavailable
        | TransportFailureCode::H3UdpUnreachable
        | TransportFailureCode::H3HandshakeTimeout
        | TransportFailureCode::H3ConnectionClosed
        | TransportFailureCode::H2TcpConnectFailed
        | TransportFailureCode::H2GoAway
        | TransportFailureCode::H2StreamClosed
        | TransportFailureCode::PmtuRevalidationExhausted
        | TransportFailureCode::PacketSendTimeout
        | TransportFailureCode::PacketReceiveStalled
        | TransportFailureCode::SendQueueFull => true,
        _ => false,
    }
}

/// Whether a failure with this code allows falling back to HTTP/2.
pub fn allows_fallback(code: TransportFailureCode) -> (allowed: bool)
    ensures
        allowed == code_allows_fallback(code),
{
    match code {
        TransportFailureCode::H3UdpUnreachable
        | TransportFailureCode::H3HandshakeTimeout
        | TransportFailureCode::H3ProtocolError
        | TransportFailureCode::H3DatagramUnavailable
        | TransportFailureCode::H3ConnectionClosed
        | TransportFailureCode::PmtuRevalidationExhausted => true,
        _ => false,
    }
}

/// Whether a failure with this code is worth another attempt.
pub fn is_retryable(code: TransportFailureCode) -> (retryable: bool)
    ensures
        retryable == code_is_retryable(code),
{
    match code {
        TransportFailureCode::PhysicalNetworkChanged
        | TransportFailureCode::PhysicalDnsUnavailable
        | TransportFailureCode::H3UdpUnreachable
        | TransportFailureCode::H3HandshakeTimeout
        | TransportFailureCode::H3ConnectionClosed
        | TransportFailureCode::H2TcpConnectFailed
        | TransportFailureCode::H2GoAway
        | TransportFailureCode::H2StreamClosed
        | TransportFailureCode::PmtuRevalidationExhausted
        | TransportFailureCode::PacketSendTimeout
        | TransportFailureCode::PacketReceiveStalled
        | TransportFailureCode::SendQueueFull => true,
        _ => false,
    }
}

/// A classified transport failure. Whether it is retryable and whether it
/// allows falling back to HTTP/2 follow from its code.
#[derive(Debug, Clone, Copy, PartialEq, Eq, Structural)]
pub struct TransportFailure {
    pub code: TransportFailureCode,
    pub stage: TransportStage,
    pub transport: Option<Transport>,
    pub family: Option<AddressFamily>,
    pub retryable: bool,
    pub fallback_allowed: bool,
}

/// The failure with this code and stage, not yet attributed to a path.
pub open spec fn unattributed(code: TransportFailureCode, stage: TransportStage) -> TransportFailure {
    TransportFailure {
        code,
        stage,
        transport: None,
        family: None,
        retryable: code_is_retryable(code),
        fallback_allowed: code_allows_fallback(code),
    }
}

impl TransportFailure {
    /// A failure that is not yet attributed to a path.
    pub fn new(code: TransportFailureCode, stage: TransportStage) -> (failure: Self)
        ensures
            failure == unattributed(code, stage),
    {
        TransportFailure {
            code,
            stage,
            transport: None,
            family: None,
            retryable: is_retryable(code),
            fallback_allowed: allows_fallback(code),
        }
    }

    /// The same failure, attributed to the path it was observed on.
    pub fn on_path(self, transport: Transport, family: AddressFamily) -> (failure: Self)
        ensures
            failure == (TransportFailure { transport: Some(transport), family: Some(family), ..self }),
    {
        TransportFailure { transport: Some(transport), family: Some(family), ..self }
    }
}

} // verus!
