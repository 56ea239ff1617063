//! Verified transport logic for the CONNECT-IP tunnel: wire codecs, packet
//! validation, NAT rewriting, failure classification and fault scripting.

pub mod clock;
pub mod feature_flags;

pub use feature_flags::{ENCRYPTED_DIRECT_DNS_ENABLED, NetworkFeatureFlags, production_network_features};
pub mod failure;

pub use failure::{AddressFamily, Transport, TransportFailure, TransportFailureCode, TransportStage};
pub mod net;
pub mod error;
pub mod varint;
pub mod packet;
pub mod buffers;
pub mod capsule;
pub mod http_datagram;
pub mod control_queue;
pub mod dns;
pub mod doh_media_type;
pub mod direct_dns;
pub mod dns_resolution;
pub mod dns_stream_pool;
pub mod geo_route;
pub mod diagnostic_probe;
pub mod direct_nat;
pub mod nat_table;
pub mod direct_router;
pub mod fault_injection;
pub mod h2_control;
pub mod h3_limits;
pub mod datagram_pool;
pub mod wire_queue;
pub mod h3_migration;
pub mod h3_connect;
pub mod h2_receive;

pub use error::TransportError;
