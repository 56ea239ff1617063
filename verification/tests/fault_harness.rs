use std::time::Duration;

use usque_transport::error::TransportError;
use usque_transport::failure::{AddressFamily, Transport, TransportFailure, TransportFailureCode, TransportStage};
use usque_transport::h3_connect::StartupFailure;
use usque_transport::fault_injection::{FaultHarness, FaultKind, FaultScript, ScheduledFault};

fn harness(events: Vec<ScheduledFault>) -> FaultHarness {
    FaultHarness::new(FaultScript::new(0x5eed, events).unwrap(), 2).unwrap()
}

fn at_zero(fault: FaultKind) -> FaultHarness {
    let mut harness = harness(vec![ScheduledFault { at: Duration::ZERO, fault }]);
    harness.advance_to(Duration::ZERO);
    harness
}

#[test]
fn udp_blackhole_is_typed_and_allows_h2_fallback() {
    let mut harness = at_zero(FaultKind::DropAllUdp);
    let failure = harness.h3_connect().expect_err("H3 must fail");
    assert_eq!(failure.code, TransportFailureCode::H3UdpUnreachable);
    assert!(failure.fallback_allowed);
    assert_eq!(failure.stage, TransportStage::QuicHandshake);
    harness.h2_connect().expect("H2 remains available");
}

#[test]
fn endpoint_pin_mismatch_never_allows_transport_fallback() {
    let mut harness = at_zero(FaultKind::EndpointPinMismatch);
    let failure = harness.h3_connect().expect_err("pin must fail");
    assert_eq!(failure.code, TransportFailureCode::EndpointPinMismatch);
    assert!(!failure.fallback_allowed);
    assert_eq!(failure.stage, TransportStage::TlsHandshake);
}

#[test]
fn stalled_h3_handshake_times_out_and_remains_fallback_eligible() {
    let mut harness = at_zero(FaultKind::StallQuicHandshake);
    let failure = harness.h3_connect().expect_err("handshake must time out");
    assert_eq!(failure.code, TransportFailureCode::H3HandshakeTimeout);
    assert_eq!(failure.stage, TransportStage::QuicHandshake);
    assert!(failure.retryable && failure.fallback_allowed);
}

#[test]
fn unavailable_h3_datagrams_fall_back_to_h2() {
    let mut harness = at_zero(FaultKind::DisableH3Datagrams);
    assert_eq!(harness.h3_connect().unwrap_err().code, TransportFailureCode::H3DatagramUnavailable);
    harness.h2_connect().expect("H2 remains available");
}

#[test]
fn h2_stream_close_reconnects_on_the_next_bounded_attempt() {
    let mut harness = at_zero(FaultKind::ForceH2StreamReset);
    assert_eq!(harness.h2_connect().unwrap_err().code, TransportFailureCode::H2StreamClosed);
    harness.h2_connect().expect("one reconnect is healthy");
}

#[test]
fn transient_dns_failure_recovers_within_the_scripted_retry_bound() {
    let mut harness = at_zero(FaultKind::FailDnsAttempts(2));
    for _ in 0..2 {
        assert_eq!(harness.resolve_endpoint().unwrap_err().code, TransportFailureCode::PhysicalDnsUnavailable);
    }
    harness.resolve_endpoint().expect("the third resolution attempt recovers");
}

#[test]
fn withdrawn_ipv6_selects_ipv4_without_reusing_the_old_family() {
    let harness = at_zero(FaultKind::RemoveIpv6);
    assert_eq!(harness.select_endpoint_family(AddressFamily::Ipv6).unwrap(), AddressFamily::Ipv4);
}

#[test]
fn both_families_withdrawn_fail_with_the_preferred_family() {
    let mut harness = harness(vec![
        ScheduledFault { at: Duration::ZERO, fault: FaultKind::RemoveIpv4 },
        ScheduledFault { at: Duration::ZERO, fault: FaultKind::RemoveIpv6 },
    ]);
    harness.advance_to(Duration::ZERO);
    assert_eq!(
        harness.select_endpoint_family(AddressFamily::Ipv4).unwrap_err().code,
        TransportFailureCode::PhysicalIpv4Unavailable
    );
    assert_eq!(
        harness.select_endpoint_family(AddressFamily::Ipv6).unwrap_err().code,
        TransportFailureCode::PhysicalIpv6Unavailable
    );
}

#[test]
fn network_change_uses_only_the_latest_generation() {
    let mut harness = harness(vec![
        ScheduledFault { at: Duration::from_millis(10), fault: FaultKind::NetworkChange(4) },
        ScheduledFault { at: Duration::from_millis(20), fault: FaultKind::NetworkChange(7) },
    ]);
    harness.advance_to(Duration::from_millis(20));
    assert_eq!(harness.network_generation(), 7);
    assert!(!harness.path_accepts_packets(4));
    assert!(harness.path_accepts_packets(7));
}

#[test]
fn faults_fire_in_time_order_whatever_the_script_order() {
    let mut harness = harness(vec![
        ScheduledFault { at: Duration::from_millis(20), fault: FaultKind::NetworkChange(3) },
        ScheduledFault { at: Duration::from_millis(10), fault: FaultKind::NetworkChange(9) },
    ]);
    harness.advance_to(Duration::from_millis(5));
    assert_eq!(harness.network_generation(), 0);
    harness.advance_to(Duration::from_millis(10));
    assert_eq!(harness.network_generation(), 9);
    harness.advance_to(Duration::from_millis(30));
    assert_eq!(harness.network_generation(), 9);
}

#[test]
fn send_queue_saturation_waits_without_dropping_or_failing() {
    let mut harness = harness(Vec::new());
    harness.send_packet().unwrap();
    harness.send_packet().unwrap();
    harness.send_packet().unwrap();
    assert_eq!(harness.send_queue_high_watermark(), 2);
    assert_eq!(harness.send_queue_waits(), 1);
    assert_eq!(harness.send_queue_drops(), 0);
    harness.complete_send();
    assert_eq!(harness.send_queue_depth(), 2);
    assert_eq!(harness.send_queue_waits(), 0);
    harness.complete_send();
    harness.complete_send();
    assert_eq!(harness.send_queue_depth(), 0);
}

#[test]
fn burst_beyond_1024_packets_remains_recoverable() {
    let script = FaultScript::new(0x5eed, Vec::new()).unwrap();
    let mut harness = FaultHarness::new(script, 1_024).unwrap();
    for _ in 0..=1_024 {
        harness.send_packet().unwrap();
    }
    assert_eq!(harness.send_queue_depth(), 1_024);
    assert_eq!(harness.send_queue_waits(), 1);
    assert_eq!(harness.send_queue_drops(), 0);

    for _ in 0..=1_024 {
        harness.complete_send();
    }
    assert_eq!(harness.send_queue_depth(), 0);
    assert_eq!(harness.send_queue_waits(), 0);
}

#[test]
fn stalled_reads_and_writes_have_stable_codes() {
    let mut harness = harness(vec![
        ScheduledFault { at: Duration::ZERO, fault: FaultKind::StallReads },
        ScheduledFault { at: Duration::ZERO, fault: FaultKind::StallWrites },
    ]);
    harness.advance_to(Duration::ZERO);
    assert_eq!(harness.receive_packet().unwrap_err().code, TransportFailureCode::PacketReceiveStalled);
    assert_eq!(harness.send_packet().unwrap_err().code, TransportFailureCode::PacketSendTimeout);
}

#[test]
fn blackhole_starts_after_the_scripted_packet_count() {
    let mut harness = at_zero(FaultKind::BlackholeAfter(1));
    harness.send_packet().unwrap();
    assert_eq!(harness.send_packet().unwrap_err().code, TransportFailureCode::PacketReceiveStalled);
}

#[test]
fn disconnected_agent_ipc_is_typed_for_fail_closed_recovery() {
    let harness = at_zero(FaultKind::DisconnectAgentIpc);
    let failure = harness.agent_ipc().unwrap_err();
    assert_eq!(failure.code, TransportFailureCode::AgentUnreachable);
    assert!(!failure.fallback_allowed);
    assert_eq!(failure.stage, TransportStage::PlatformRecovery);
}

#[test]
fn platform_faults_have_stable_codes() {
    let harness = at_zero(FaultKind::TerminateVpnProcess);
    assert_eq!(harness.vpn_process().unwrap_err().code, TransportFailureCode::VpnServiceUnavailable);
    assert!(harness.dns_apply().is_ok());
    let harness = at_zero(FaultKind::FailDnsApply);
    assert_eq!(harness.dns_apply().unwrap_err().code, TransportFailureCode::DnsApplyFailed);
    let harness = at_zero(FaultKind::FailRouteApply);
    assert_eq!(harness.route_apply().unwrap_err().code, TransportFailureCode::RouteApplyFailed);
}

#[test]
fn failed_h3_recovery_probe_leaves_the_h2_data_path_selected() {
    let mut harness = at_zero(FaultKind::DropAllUdp);
    let (active, probe) = harness.recovery_probe_preserves_active_path(Transport::Http2);
    assert_eq!(active, Transport::Http2);
    assert_eq!(probe.unwrap_err().code, TransportFailureCode::H3UdpUnreachable);
}

#[test]
fn first_h3_handshake_failure_recovers_on_retry() {
    let mut harness = at_zero(FaultKind::FailFirstH3Handshake);
    assert_eq!(harness.h3_connect().unwrap_err().code, TransportFailureCode::H3HandshakeTimeout);
    assert!(harness.h3_connect().is_ok());
}

#[test]
fn scripts_have_a_hard_event_limit_and_retain_the_seed() {
    assert!(FaultScript::new(
        1,
        vec![ScheduledFault { at: Duration::ZERO, fault: FaultKind::DropAllUdp }; FaultScript::MAX_EVENTS + 1]
    )
    .is_err());
    assert_eq!(FaultScript::new(42, Vec::new()).unwrap().seed(), 42);
}

#[test]
fn harness_refuses_a_zero_capacity_queue() {
    assert!(FaultHarness::new(FaultScript::new(3, Vec::new()).unwrap(), 0).is_err());
    let harness = FaultHarness::new(FaultScript::new(3, Vec::new()).unwrap(), 1).unwrap();
    assert_eq!(harness.seed(), 3);
}

#[test]
fn advancing_twice_is_advancing_once_to_the_later_time() {
    let events = vec![
        ScheduledFault { at: Duration::from_millis(10), fault: FaultKind::NetworkChange(3) },
        ScheduledFault { at: Duration::from_millis(20), fault: FaultKind::NetworkChange(5) },
        ScheduledFault { at: Duration::from_millis(30), fault: FaultKind::NetworkChange(9) },
    ];
    let mut twice = harness(events.clone());
    twice.advance_to(Duration::from_millis(15));
    assert_eq!(twice.network_generation(), 3);
    twice.advance_to(Duration::from_millis(25));
    let mut once = harness(events);
    once.advance_to(Duration::from_millis(25));
    assert_eq!(twice.network_generation(), 5);
    assert_eq!(once.network_generation(), 5);

    twice.advance_to(Duration::from_millis(5));
    assert_eq!(twice.network_generation(), 5);
}

#[test]
fn a_send_and_its_completion_leave_the_queue_as_it_was() {
    let mut queue = harness(Vec::new());
    queue.send_packet().unwrap();
    let depth = queue.send_queue_depth();
    let waits = queue.send_queue_waits();
    queue.send_packet().unwrap();
    queue.complete_send();
    assert_eq!(queue.send_queue_depth(), depth);
    assert_eq!(queue.send_queue_waits(), waits);

    queue.send_packet().unwrap();
    assert_eq!(queue.send_queue_depth(), 2);
    queue.send_packet().unwrap();
    assert_eq!(queue.send_queue_waits(), 1);
    queue.send_packet().unwrap();
    queue.complete_send();
    assert_eq!(queue.send_queue_depth(), 2);
    assert_eq!(queue.send_queue_waits(), 1);
}

#[test]
fn failure_flags_follow_the_code() {
    let timeout = TransportFailure::new(TransportFailureCode::H3HandshakeTimeout, TransportStage::QuicHandshake);
    assert!(timeout.retryable && timeout.fallback_allowed);
    let goaway = TransportFailure::new(TransportFailureCode::H2GoAway, TransportStage::MasqueConnect);
    assert!(goaway.retryable && !goaway.fallback_allowed);
    let rejected = TransportFailure::new(TransportFailureCode::AuthenticationFailed, TransportStage::MasqueConnect);
    assert!(!rejected.retryable && !rejected.fallback_allowed);
    let protocol = TransportFailure::new(TransportFailureCode::H3ProtocolError, TransportStage::QuicHandshake);
    assert!(!protocol.retryable && protocol.fallback_allowed);
    let placed = timeout.on_path(Transport::Http3, AddressFamily::Ipv6);
    assert_eq!(placed.transport, Some(Transport::Http3));
    assert_eq!(placed.family, Some(AddressFamily::Ipv6));
    assert!(placed.retryable && placed.fallback_allowed);
}

#[test]
fn aggregate_transport_failure_preserves_both_structured_causes() {
    let h3 = TransportFailure::new(TransportFailureCode::H3HandshakeTimeout, TransportStage::QuicHandshake);
    let h2 = TransportFailure::new(TransportFailureCode::H2TlsFailed, TransportStage::TlsHandshake);
    let error = TransportError::AllTransportsFailed { h3: Box::new(h3.clone()), h2: Box::new(h2.clone()) };

    let aggregate = error.failure(None, None);
    assert_eq!(aggregate.code, TransportFailureCode::AllTransportsFailed);
    assert!(!aggregate.fallback_allowed);
    let (recorded_h3, recorded_h2) =
        error.exhausted_transport_failures().expect("aggregate failure keeps both transport causes");
    assert_eq!(recorded_h3, &h3);
    assert_eq!(recorded_h2, &h2);
}

#[test]
fn startup_preserves_the_typed_pmtu_exhaustion_failure() {
    let error = StartupFailure::from_transport_error(&TransportError::PmtuRevalidationExhausted, String::new())
        .into_transport_error();
    assert!(matches!(error, TransportError::PmtuRevalidationExhausted));
    let failure = error.failure(Some(Transport::Http3), None);
    assert_eq!(failure.code, TransportFailureCode::PmtuRevalidationExhausted);
    assert!(failure.fallback_allowed);
}

#[test]
fn untyped_startup_errors_are_carried_as_text() {
    let failure = StartupFailure::from_transport_error(&TransportError::TunnelClosed, "tunnel closed".to_owned());
    assert!(matches!(failure, StartupFailure::Other(ref text) if text == "tunnel closed"));
    let failure = StartupFailure::from_transport_error(&TransportError::Http3ConnectRejected(403), String::new());
    assert!(matches!(failure.into_transport_error(), TransportError::Http3ConnectRejected(403)));
}
