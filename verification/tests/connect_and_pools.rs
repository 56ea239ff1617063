use usque_transport::direct_dns::{
    dot_connection_after_exchange, dot_reply_length, DirectDnsError,
    after_successful_query, body_fits, connection_reusable, doh_connection_expired, doh_slot_action,
    dot_connection_expired, DohSlotAction, PooledConnection, SharedConnection,
};
use usque_transport::dns_stream_pool::{answer_still_current, exchange_step, ExchangeStep, IdleDnsPool, IdleStream, MAX_IDLE};
use usque_transport::h3_connect::{
    utf8_valid,
    connect_headers, connect_response, response_status, startup_error, HeaderField, StartupFailure, StartupOutcome,
};
use usque_transport::h2_control::{
    alpn_acceptable, h2_connect_status, protected_socket_check, protection_error, setup_generation_check,
    tls_handshake_error,
};
use usque_transport::net::{IpAddress, SocketAddress};
use usque_transport::TransportError;

fn find<'a>(headers: &'a [HeaderField], name: &[u8]) -> Option<&'a [u8]> {
    headers.iter().find(|header| header.name == name).map(|header| header.value.as_slice())
}

fn status(value: &[u8]) -> Vec<HeaderField> {
    vec![
        HeaderField { name: b"server".to_vec(), value: b"x".to_vec() },
        HeaderField { name: b":status".to_vec(), value: value.to_vec() },
    ]
}

#[test]
fn connect_headers_match_the_cloudflare_oracle() {
    let headers = connect_headers();
    assert_eq!(find(&headers, b":method"), Some(b"CONNECT".as_slice()));
    assert_eq!(find(&headers, b":authority"), Some(b"cloudflareaccess.com".as_slice()));
    assert_eq!(find(&headers, b":protocol"), Some(b"cf-connect-ip".as_slice()));
    assert_eq!(find(&headers, b"capsule-protocol"), Some(b"?1".as_slice()));
    assert_eq!(find(&headers, b"user-agent"), Some(b"".as_slice()));
    assert_eq!(find(&headers, b":path"), Some(b"/".as_slice()));
    assert_eq!(headers.len(), 7);
}

#[test]
fn response_status_is_read_from_the_first_status_header() {
    assert_eq!(response_status(&status(b"200")).unwrap(), Some(200));
    assert_eq!(response_status(&status(b"+204")).unwrap(), Some(204));
    assert_eq!(response_status(&[]).unwrap(), None);
    assert!(matches!(response_status(&status(b"2x0")), Err(TransportError::Http3(_))));
    assert!(matches!(response_status(&status(b"70000")), Err(TransportError::Http3(_))));
    assert!(matches!(response_status(&status(&[0xff, 0x32])), Err(TransportError::Http3(_))));
}

#[test]
fn connect_responses_accept_2xx_and_reject_other_final_statuses() {
    assert_eq!(connect_response(Some(200), false).unwrap(), true);
    assert_eq!(connect_response(Some(100), false).unwrap(), false);
    assert_eq!(connect_response(None, true).unwrap(), true);
    assert!(matches!(connect_response(Some(403), false), Err(TransportError::Http3ConnectRejected(403))));
    assert!(matches!(connect_response(None, false), Err(TransportError::Http3(_))));
}

#[test]
fn pooled_encrypted_connections_are_reused_only_within_bounds() {
    let endpoint = IpAddress::V4(0x7f00_0002);
    let connection = PooledConnection { generation: 4, endpoint, queries: 10, idle_nanos: 1_000 };
    assert!(connection_reusable(connection, 4, &[], None));
    assert!(!connection_reusable(connection, 5, &[], None));
    assert!(!connection_reusable(connection, 4, &[], Some(endpoint)));
    assert!(!connection_reusable(PooledConnection { queries: 1_000, ..connection }, 4, &[], None));
    assert!(!connection_reusable(PooledConnection { idle_nanos: 60_000_000_000, ..connection }, 4, &[], None));
    let two = [IpAddress::V4(1), IpAddress::V4(2)];
    assert!(!connection_reusable(connection, 4, &two, None));
    assert_eq!(after_successful_query(998), (999, true));
    assert_eq!(after_successful_query(999), (1_000, false));
    assert!(body_fits(65_000, 535));
    assert!(!body_fits(65_000, 536));
}

fn idle(server: SocketAddress, stream: u32) -> IdleStream<u32> {
    IdleStream { session_generation: Some(1), server, stream, used: std::time::Instant::now(), generation: Some(2) }
}

#[test]
fn idle_dns_streams_are_bounded_and_reused_per_server() {
    let first = SocketAddress::new(IpAddress::V4(0x0101_0101), 53);
    let second = SocketAddress::new(IpAddress::V4(0x0808_0808), 53);
    let mut pool: IdleDnsPool<u32> = IdleDnsPool::new();
    assert!(pool.park(idle(first, 1)));
    assert!(pool.park(idle(first, 2)));
    assert!(!pool.park(idle(first, 3)));
    assert!(pool.park(idle(second, 4)));
    assert_eq!(pool.take_for(second, Some(2), Some(1)), Some(4));
    assert_eq!(pool.len(), 2);
    assert!(pool.take_for(second, Some(2), Some(1)).is_none());
    assert_eq!(pool.len(), 0);
    for index in 0..MAX_IDLE as u32 {
        let server = SocketAddress::new(IpAddress::V4(index), 53);
        assert!(pool.park(idle(server, index)));
    }
    assert!(!pool.park(idle(first, 99)));
    pool.prune(Some(3), Some(1));
    assert_eq!(pool.len(), 0);
    assert!(pool.park(idle(first, 5)));
    assert_eq!(pool.take_for(first, Some(2), Some(9)), None);
    pool.clear();
    assert_eq!(pool.len(), 0);
}

#[test]
fn idle_dns_streams_expire_at_the_given_time() {
    let server = SocketAddress::new(IpAddress::V4(0x0101_0101), 53);
    let start = std::time::Instant::now();
    let mut pool: IdleDnsPool<u32> = IdleDnsPool::new();
    assert!(pool.park(IdleStream { session_generation: Some(1), server, stream: 7, used: start, generation: Some(2) }));
    let soon = start + std::time::Duration::from_secs(29);
    assert_eq!(pool.take_for_at(soon, server, Some(2), Some(1)), Some(7));
    assert!(pool.park(IdleStream { session_generation: Some(1), server, stream: 8, used: start, generation: Some(2) }));
    let late = start + std::time::Duration::from_secs(30);
    assert_eq!(pool.take_for_at(late, server, Some(2), Some(1)), None);
    assert_eq!(pool.len(), 0);
}

#[test]
fn doh_slots_reserve_usable_connections_and_never_replace_busy_ones() {
    let endpoint = IpAddress::V4(0x0101_0101);
    let other = IpAddress::V4(0x0101_0102);
    let connection = PooledConnection { generation: 4, endpoint, queries: 10, idle_nanos: 1_000 };
    let shared = SharedConnection { connection, active: 0, closed: false, permit_available: true };

    assert_eq!(doh_slot_action(None, 4, &[], None), DohSlotAction::Replace);
    assert_eq!(doh_slot_action(Some(shared), 4, &[], None), DohSlotAction::Reserve);
    assert_eq!(
        doh_slot_action(Some(SharedConnection { permit_available: false, ..shared }), 4, &[], None),
        DohSlotAction::Skip
    );
    assert_eq!(doh_slot_action(Some(shared), 5, &[], None), DohSlotAction::Replace);
    assert_eq!(doh_slot_action(Some(SharedConnection { active: 2, ..shared }), 5, &[], None), DohSlotAction::Skip);
    assert_eq!(doh_slot_action(Some(SharedConnection { closed: true, ..shared }), 4, &[], None), DohSlotAction::Replace);
    assert_eq!(doh_slot_action(Some(shared), 4, &[], Some(endpoint)), DohSlotAction::Replace);
    assert_eq!(doh_slot_action(Some(shared), 4, &[other, IpAddress::V6(1)], None), DohSlotAction::Replace);
    assert_eq!(doh_slot_action(Some(shared), 4, &[other, endpoint], None), DohSlotAction::Reserve);
}

#[test]
fn idle_sweeps_drop_stale_connections_but_keep_busy_doh_ones() {
    let endpoint = IpAddress::V4(0x0101_0101);
    let connection = PooledConnection { generation: 4, endpoint, queries: 10, idle_nanos: 1_000 };
    let shared = SharedConnection { connection, active: 0, closed: false, permit_available: true };
    let idle = PooledConnection { idle_nanos: 60_000_000_000, ..connection };

    assert!(!doh_connection_expired(shared, 4, false));
    assert!(doh_connection_expired(shared, 4, true));
    assert!(doh_connection_expired(shared, 3, false));
    assert!(doh_connection_expired(SharedConnection { closed: true, ..shared }, 4, false));
    assert!(doh_connection_expired(SharedConnection { connection: idle, ..shared }, 4, false));
    assert!(!doh_connection_expired(SharedConnection { connection: idle, active: 1, ..shared }, 4, false));

    assert!(!dot_connection_expired(connection, 4, false));
    assert!(dot_connection_expired(connection, 4, true));
    assert!(dot_connection_expired(idle, 4, false));
    assert!(dot_connection_expired(PooledConnection { queries: 1_000, ..connection }, 4, false));
}

#[test]
fn a_rejected_pin_overrides_every_startup_failure() {
    let endpoint = SocketAddress::new(IpAddress::V4(0x7f00_0001), 443);
    assert!(matches!(
        startup_error(StartupOutcome::Failed(StartupFailure::ConnectRejected(403)), true, endpoint),
        TransportError::EndpointPinMismatch
    ));
    assert!(matches!(startup_error(StartupOutcome::TimedOut, true, endpoint), TransportError::EndpointPinMismatch));
    assert!(matches!(
        startup_error(StartupOutcome::Failed(StartupFailure::ConnectRejected(403)), false, endpoint),
        TransportError::Http3ConnectRejected(403)
    ));
    assert!(matches!(
        startup_error(StartupOutcome::Failed(StartupFailure::PmtuRevalidationExhausted), false, endpoint),
        TransportError::PmtuRevalidationExhausted
    ));
    assert!(matches!(
        startup_error(StartupOutcome::Failed(StartupFailure::ProtocolViolation("bad".to_owned())), false, endpoint),
        TransportError::Http3ProtocolViolation(message) if message == "bad"
    ));
    assert!(matches!(
        startup_error(StartupOutcome::TimedOut, false, endpoint),
        TransportError::EndpointTimeout(address) if address == endpoint
    ));
    assert!(matches!(startup_error(StartupOutcome::DriverEnded(Ok(())), false, endpoint), TransportError::Http3(_)));
    assert!(matches!(
        startup_error(StartupOutcome::DriverEnded(Err(TransportError::TunnelClosed)), false, endpoint),
        TransportError::TunnelClosed
    ));
}

#[test]
fn h2_setup_judges_pin_alpn_and_connect_status() {
    assert!(matches!(tls_handshake_error(true, false, "bad cert".to_owned()), TransportError::EndpointPinMismatch));
    assert!(matches!(
        tls_handshake_error(true, true, "reset".to_owned()),
        TransportError::TlsHandshake(message) if message == "reset"
    ));
    assert!(matches!(
        tls_handshake_error(false, false, "refused".to_owned()),
        TransportError::TlsHandshake(message) if message == "refused"
    ));

    assert!(alpn_acceptable(None));
    assert!(alpn_acceptable(Some(b"h2")));
    assert!(!alpn_acceptable(Some(b"http/1.1")));
    assert!(!alpn_acceptable(Some(b"h3")));

    assert!(h2_connect_status(http::StatusCode::OK).is_ok());
    assert!(matches!(
        h2_connect_status(http::StatusCode::FORBIDDEN),
        Err(TransportError::ConnectRejected(status)) if status == http::StatusCode::FORBIDDEN
    ));
    assert!(h2_connect_status(http::StatusCode::NO_CONTENT).is_err());
}

#[test]
fn dot_replies_of_length_zero_are_invalid_and_failed_exchanges_drop_the_connection() {
    assert_eq!(dot_reply_length(0), Err(DirectDnsError::InvalidResponse));
    assert_eq!(dot_reply_length(1), Ok(1));
    assert_eq!(dot_reply_length(u16::MAX), Ok(65_535));

    assert_eq!(dot_connection_after_exchange(false, 3), None);
    assert_eq!(dot_connection_after_exchange(true, 3), Some(4));
    assert_eq!(dot_connection_after_exchange(true, 998), Some(999));
    assert_eq!(dot_connection_after_exchange(true, 999), None);
}

#[test]
fn stream_queries_redial_once_and_answer_only_on_the_current_session() {
    assert_eq!(exchange_step(true, true), ExchangeStep::Answered);
    assert_eq!(exchange_step(false, true), ExchangeStep::Redial);
    assert_eq!(exchange_step(false, false), ExchangeStep::GiveUp);

    assert!(answer_still_current(Some(3), Some(3), Some(7), Some(7)));
    assert!(answer_still_current(None, None, None, None));
    assert!(!answer_still_current(Some(3), Some(4), Some(7), Some(7)));
    assert!(!answer_still_current(Some(3), Some(3), Some(7), Some(8)));
    assert!(!answer_still_current(Some(3), None, Some(7), Some(7)));
}

#[test]
fn h2_setup_fails_when_the_network_generation_moves() {
    assert!(setup_generation_check(4, Some(4)).is_ok());
    assert!(setup_generation_check(0, None).is_ok());
    assert!(matches!(setup_generation_check(4, Some(5)), Err(TransportError::UnderlyingNetworkChanged)));
    assert!(protected_socket_check(4, Some(4), Some(4)).is_ok());
    assert!(matches!(protected_socket_check(4, Some(4), Some(3)), Err(TransportError::UnderlyingNetworkChanged)));
    assert!(matches!(protected_socket_check(4, Some(4), None), Err(TransportError::UnderlyingNetworkChanged)));
    assert!(matches!(protected_socket_check(4, None, Some(4)), Err(TransportError::UnderlyingNetworkChanged)));
    assert!(matches!(protection_error(true, "stale".to_owned()), TransportError::UnderlyingNetworkChanged));
    assert!(matches!(
        protection_error(false, "denied".to_owned()),
        TransportError::SocketProtection(message) if message == "denied"
    ));
}

#[test]
fn utf8_validation_agrees_with_std() {
    let cases: Vec<&[u8]> = vec![
        b"",
        b"200",
        &[0xc3, 0xa9],
        &[0xe2, 0x82, 0xac],
        &[0xf0, 0x9f, 0x98, 0x80],
        &[0xf4, 0x8f, 0xbf, 0xbf],
        &[0xc0, 0x80],
        &[0xe0, 0x80, 0x80],
        &[0xed, 0xa0, 0x80],
        &[0xf4, 0x90, 0x80, 0x80],
        &[0xf8, 0x80, 0x80, 0x80],
        &[0x80],
        &[0xe2, 0x82],
        &[0x32, 0xff, 0x30],
    ];
    for case in cases {
        assert_eq!(utf8_valid(case), std::str::from_utf8(case).is_ok(), "{case:?}");
    }
    assert!(utf8_valid(&[0xc3, 0xa9]));
    assert!(!utf8_valid(&[0xed, 0xa0, 0x80]));
}
