//! The transport's internal error type and its mapping onto the stable
//! failure contract.

use vstd::prelude::*;

use crate::net::SocketAddress;
use crate::failure::{code_allows_fallback, code_is_retryable, AddressFamily, Transport, TransportFailure, TransportFailureCode, TransportStage};

verus! {

#[verifier::external_type_specification]
#[verifier::external_body]
pub struct ExIoError(std::io::Error);

#[verifier::external_type_specification]
#[verifier::external_body]
pub struct ExStatusCode(http::StatusCode);

#[verifier::external_type_specification]
#[verifier::external_body]
pub struct ExHttpError(http::Error);

/// The numeric value of an HTTP status code.
pub uninterp spec fn status_code_value(status: http::StatusCode) -> u16;

/// Calls `http::StatusCode::as_u16`. The crate only constructs status codes in
/// `100..=999`, so the number returned lies in that range.
#[verifier::external_body]
pub(crate) fn status_code_as_u16(status: &http::StatusCode) -> (code: u16)
    ensures
        code == status_code_value(*status),
        100 <= code <= 999,
{
    status.as_u16()
}

/// Internal transport errors. Payloads of foreign error types are kept
/// opaque; wire-protocol, TLS and HTTP/2 failures carry their message.
#[derive(Debug)]
pub enum TransportError {
    InvalidIdentity,
    InvalidPrivateKey,
    InvalidEndpointPin,
    EndpointTimeout(SocketAddress),
    EndpointFamilyUnavailable(AddressFamily),
    UnderlyingNetworkChanged,
    EndpointPinMismatch,
    EndpointPinRefresh(String),
    EndpointAssignmentChanged,
    TlsHandshake(String),
    SocketProtection(String),
    AlpnMismatch,
    ConnectTimeout,
    ConnectRejected(http::StatusCode),
    Http3(String),
    Http3ProtocolViolation(String),
    Http3ConnectRejected(u16),
    Http3DatagramUnavailable,
    Http3DatagramTooLarge { maximum_packet_size: usize },
    PmtuRevalidationExhausted,
    Ipv6MinimumMtuUnavailable(usize),
    UnsupportedOperatingMode,
    AllEndpointsFailed(String),
    AllTransportsFailed { h3: Box<TransportFailure>, h2: Box<TransportFailure> },
    Netstack(String),
    SocksListener { address: SocketAddress, source: std::io::Error },
    Socks5(String),
    HttpProxyListener { address: SocketAddress, source: std::io::Error },
    HttpProxy(String),
    Dns(String),
    TunnelClosed,
    SendQueueFull,
    SendTimeout,
    Driver(String),
    CapsuleTooLarge,
    InvalidVarint,
    MalformedIpPacket,
    Protocol(String),
    Io(std::io::Error),
    Tls(String),
    Http2(String),
    Http(http::Error),
}

/// HTTP 401 and 403 are authentication failures rather than rejections.
pub open spec fn is_authentication_status(status: u16) -> bool {
    status == 401 || status == 403
}

impl TransportError {
    /// The code and stage that `failure` reports for this error.
    pub open spec fn spec_code_stage(&self, transport: Option<Transport>) -> (
        TransportFailureCode,
        TransportStage,
    ) {
        let h3 = transport == Some(Transport::Http3);
        match self {
            TransportError::InvalidIdentity | TransportError::InvalidPrivateKey
            | TransportError::InvalidEndpointPin => (
                TransportFailureCode::IdentityInvalid,
                TransportStage::TunnelStartup,
            ),
            TransportError::EndpointTimeout(_) => if h3 {
                (TransportFailureCode::H3HandshakeTimeout, TransportStage::QuicHandshake)
            } else {
                (TransportFailureCode::H2TcpConnectFailed, TransportStage::SocketConnect)
            },
            TransportError::EndpointFamilyUnavailable(AddressFamily::Ipv4) => (
                TransportFailureCode::PhysicalIpv4Unavailable,
                TransportStage::EndpointResolution,
            ),
            TransportError::EndpointFamilyUnavailable(AddressFamily::Ipv6) => (
                TransportFailureCode::PhysicalIpv6Unavailable,
                TransportStage::EndpointResolution,
            ),
            TransportError::UnderlyingNetworkChanged => (
                TransportFailureCode::PhysicalNetworkChanged,
                TransportStage::SocketConnect,
            ),
            TransportError::EndpointPinMismatch | TransportError::EndpointPinRefresh(_) => (
                TransportFailureCode::EndpointPinMismatch,
                TransportStage::TlsHandshake,
            ),
            TransportError::EndpointAssignmentChanged => (
                TransportFailureCode::AddressAssignmentInvalid,
                TransportStage::AddressAssignment,
            ),
            TransportError::TlsHandshake(_) | TransportError::AlpnMismatch
            | TransportError::Tls(_) => if h3 {
                (TransportFailureCode::H3ProtocolError, TransportStage::QuicHandshake)
            } else {
                (TransportFailureCode::H2TlsFailed, TransportStage::TlsHandshake)
            },
            TransportError::SocketProtection(_) => (
                TransportFailureCode::SocketProtectionFailed,
                TransportStage::SocketProtection,
            ),
            TransportError::ConnectTimeout => if h3 {
                (TransportFailureCode::H3HandshakeTimeout, TransportStage::MasqueConnect)
            } else {
                (TransportFailureCode::H2ConnectRejected, TransportStage::MasqueConnect)
            },
            TransportError::ConnectRejected(status) => if is_authentication_status(
                status_code_value(*status),
            ) {
                (TransportFailureCode::AuthenticationFailed, TransportStage::MasqueConnect)
            } else {
                (TransportFailureCode::H2ConnectRejected, TransportStage::MasqueConnect)
            },
            TransportError::Http3(_) | TransportError::Http3ProtocolViolation(_) => (
                TransportFailureCode::H3ProtocolError,
                TransportStage::QuicHandshake,
            ),
            TransportError::Http3ConnectRejected(status) => if is_authentication_status(*status) {
                (TransportFailureCode::AuthenticationFailed, TransportStage::MasqueConnect)
            } else {
                (TransportFailureCode::H3ProtocolError, TransportStage::MasqueConnect)
            },
            TransportError::Http3DatagramUnavailable => (
                TransportFailureCode::H3DatagramUnavailable,
                TransportStage::PeerSettings,
            ),
            TransportError::PmtuRevalidationExhausted => (
                TransportFailureCode::PmtuRevalidationExhausted,
                TransportStage::PacketSend,
            ),
            TransportError::Http3DatagramTooLarge { .. }
            | TransportError::Ipv6MinimumMtuUnavailable(_)
            | TransportError::MalformedIpPacket => (
                TransportFailureCode::PacketSendFailed,
                TransportStage::PacketSend,
            ),
            TransportError::UnsupportedOperatingMode => (
                TransportFailureCode::ConfigurationInvalid,
                TransportStage::TunnelStartup,
            ),
            TransportError::AllEndpointsFailed(_) => if h3 {
                (TransportFailureCode::H3UdpUnreachable, TransportStage::SocketConnect)
            } else {
                (TransportFailureCode::H2TcpConnectFailed, TransportStage::SocketConnect)
            },
            TransportError::AllTransportsFailed { .. } => (
                TransportFailureCode::AllTransportsFailed,
                TransportStage::TunnelStartup,
            ),
            TransportError::Netstack(_) => (
                TransportFailureCode::Internal,
                TransportStage::TunnelStartup,
            ),
            TransportError::SocksListener { .. } | TransportError::HttpProxyListener { .. } => (
                TransportFailureCode::ProxyPortInUse,
                TransportStage::TunnelStartup,
            ),
            TransportError::Socks5(_) | TransportError::HttpProxy(_) => (
                TransportFailureCode::Internal,
                TransportStage::TunnelStartup,
            ),
            TransportError::Dns(_) => (
                TransportFailureCode::PhysicalDnsUnavailable,
                TransportStage::EndpointResolution,
            ),
            TransportError::TunnelClosed => if h3 {
                (TransportFailureCode::H3ConnectionClosed, TransportStage::PacketReceive)
            } else {
                (TransportFailureCode::H2StreamClosed, TransportStage::PacketReceive)
            },
            TransportError::SendQueueFull => (
                TransportFailureCode::SendQueueFull,
                TransportStage::PacketSend,
            ),
            TransportError::SendTimeout => (
                TransportFailureCode::PacketSendTimeout,
                TransportStage::PacketSend,
            ),
            TransportError::Driver(_) | TransportError::Http2(_) => (
                TransportFailureCode::H2StreamClosed,
                TransportStage::PacketReceive,
            ),
            TransportError::CapsuleTooLarge | TransportError::InvalidVarint
            | TransportError::Protocol(_) | TransportError::Http(_) => (
                TransportFailureCode::ConnectIpRejected,
                TransportStage::PeerSettings,
            ),
            TransportError::Io(_) => if h3 {
                (TransportFailureCode::H3UdpUnreachable, TransportStage::SocketConnect)
            } else {
                (TransportFailureCode::H2TcpConnectFailed, TransportStage::SocketConnect)
            },
        }
    }

    /// Converts an internal transport error to the stable, export-safe failure
    /// used for retry and fallback decisions. The path is recorded only when
    /// both the transport and the family are known.
    pub fn failure(&self, transport: Option<Transport>, family: Option<AddressFamily>) -> (failure:
        TransportFailure)
        ensures
            (failure.code, failure.stage) == self.spec_code_stage(transport),
            failure.retryable == code_is_retryable(failure.code),
            failure.fallback_allowed == code_allows_fallback(failure.code),
            failure.transport == (if transport is Some && family is Some {
                transport
            } else {
                None
            }),
            failure.family == (if transport is Some && family is Some {
                family
            } else {
                None
            }),
    {
        let h3 = match transport {
            Some(Transport::Http3) => true,
            _ => false,
        };
        let (code, stage) = match self {
            TransportError::InvalidIdentity | TransportError::InvalidPrivateKey
            | TransportError::InvalidEndpointPin => (
                TransportFailureCode::IdentityInvalid,
                TransportStage::TunnelStartup,
            ),
            TransportError::EndpointTimeout(_) => if h3 {
                (TransportFailureCode::H3HandshakeTimeout, TransportStage::QuicHandshake)
            } else {
                (TransportFailureCode::H2TcpConnectFailed, TransportStage::SocketConnect)
            },
            TransportError::EndpointFamilyUnavailable(AddressFamily::Ipv4) => (
                TransportFailureCode::PhysicalIpv4Unavailable,
                TransportStage::EndpointResolution,
            ),
            TransportError::EndpointFamilyUnavailable(AddressFamily::Ipv6) => (
                TransportFailureCode::PhysicalIpv6Unavailable,
                TransportStage::EndpointResolution,
            ),
            TransportError::UnderlyingNetworkChanged => (
                TransportFailureCode::PhysicalNetworkChanged,
                TransportStage::SocketConnect,
            ),
            TransportError::EndpointPinMismatch | TransportError::EndpointPinRefresh(_) => (
                TransportFailureCode::EndpointPinMismatch,
                TransportStage::TlsHandshake,
            ),
            TransportError::EndpointAssignmentChanged => (
                TransportFailureCode::AddressAssignmentInvalid,
                TransportStage::AddressAssignment,
            ),
            TransportError::TlsHandshake(_) | TransportError::AlpnMismatch
            | TransportError::Tls(_) => if h3 {
                (TransportFailureCode::H3ProtocolError, TransportStage::QuicHandshake)
            } else {
                (TransportFailureCode::H2TlsFailed, TransportStage::TlsHandshake)
            },
            TransportError::SocketProtection(_) => (
                TransportFailureCode::SocketProtectionFailed,
                TransportStage::SocketProtection,
            ),
            TransportError::ConnectTimeout => if h3 {
                (TransportFailureCode::H3HandshakeTimeout, TransportStage::MasqueConnect)
            } else {
                (TransportFailureCode::H2ConnectRejected, TransportStage::MasqueConnect)
            },
            TransportError::ConnectRejected(status) => {
                let code = status_code_as_u16(status);
                if code == 401 || code == 403 {
                    (TransportFailureCode::AuthenticationFailed, TransportStage::MasqueConnect)
                } else {
                    (TransportFailureCode::H2ConnectRejected, TransportStage::MasqueConnect)
                }
            },
            TransportError::Http3(_) | TransportError::Http3ProtocolViolation(_) => (
                TransportFailureCode::H3ProtocolError,
                TransportStage::QuicHandshake,
            ),
            TransportError::Http3ConnectRejected(status) => if *status == 401 || *status == 403 {
                (TransportFailureCode::AuthenticationFailed, TransportStage::MasqueConnect)
            } else {
                (TransportFailureCode::H3ProtocolError, TransportStage::MasqueConnect)
            },
            TransportError::Http3DatagramUnavailable => (
                TransportFailureCode::H3DatagramUnavailable,
                TransportStage::PeerSettings,
            ),
            TransportError::PmtuRevalidationExhausted => (
                TransportFailureCode::PmtuRevalidationExhausted,
                TransportStage::PacketSend,
            ),
            TransportError::Http3DatagramTooLarge { .. }
            | TransportError::Ipv6MinimumMtuUnavailable(_)
            | TransportError::MalformedIpPacket => (
                TransportFailureCode::PacketSendFailed,
                TransportStage::PacketSend,
            ),
            TransportError::UnsupportedOperatingMode => (
                TransportFailureCode::ConfigurationInvalid,
                TransportStage::TunnelStartup,
            ),
            TransportError::AllEndpointsFailed(_) => if h3 {
                (TransportFailureCode::H3UdpUnreachable, TransportStage::SocketConnect)
            } else {
                (TransportFailureCode::H2TcpConnectFailed, TransportStage::SocketConnect)
            },
            TransportError::AllTransportsFailed { .. } => (
                TransportFailureCode::AllTransportsFailed,
                TransportStage::TunnelStartup,
            ),
            TransportError::Netstack(_) => (
                TransportFailureCode::Internal,
                TransportStage::TunnelStartup,
            ),
            TransportError::SocksListener { .. } | TransportError::HttpProxyListener { .. } => (
                TransportFailureCode::ProxyPortInUse,
                TransportStage::TunnelStartup,
            ),
            TransportError::Socks5(_) | TransportError::HttpProxy(_) => (
                TransportFailureCode::Internal,
                TransportStage::TunnelStartup,
            ),
            TransportError::Dns(_) => (
                TransportFailureCode::PhysicalDnsUnavailable,
                TransportStage::EndpointResolution,
            ),
            TransportError::TunnelClosed => if h3 {
                (TransportFailureCode::H3ConnectionClosed, TransportStage::PacketReceive)
            } else {
                (TransportFailureCode::H2StreamClosed, TransportStage::PacketReceive)
            },
            TransportError::SendQueueFull => (
                TransportFailureCode::SendQueueFull,
                TransportStage::PacketSend,
            ),
            TransportError::SendTimeout => (
                TransportFailureCode::PacketSendTimeout,
                TransportStage::PacketSend,
            ),
            TransportError::Driver(_) | TransportError::Http2(_) => (
                TransportFailureCode::H2StreamClosed,
                TransportStage::PacketReceive,
            ),
            TransportError::CapsuleTooLarge | TransportError::InvalidVarint
            | TransportError::Protocol(_) | TransportError::Http(_) => (
                TransportFailureCode::ConnectIpRejected,
                TransportStage::PeerSettings,
            ),
            TransportError::Io(_) => if h3 {
                (TransportFailureCode::H3UdpUnreachable, TransportStage::SocketConnect)
            } else {
                (TransportFailureCode::H2TcpConnectFailed, TransportStage::SocketConnect)
            },
        };
        let failure = TransportFailure::new(code, stage);
        match (transport, family) {
            (Some(transport), Some(family)) => failure.on_path(transport, family),
            _ => failure,
        }
    }

    /// Both structured causes of an exhausted HTTP/3 and HTTP/2 attempt.
    pub fn exhausted_transport_failures(&self) -> (causes: Option<(&TransportFailure, &TransportFailure)>)
        ensures
            match self {
                TransportError::AllTransportsFailed { h3, h2 } => causes == Some((&**h3, &**h2)),
                _ => causes is None,
            },
    {
        match self {
            TransportError::AllTransportsFailed { h3, h2 } => Some((&**h3, &**h2)),
            _ => None,
        }
    }
}

} // verus!
