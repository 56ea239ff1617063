use usque_transport::h2_control::{duration_ewma, H2FlowControlConfig, H2RttEstimator};
use usque_transport::h3_limits::{
    effective_connect_ip_payload, inbound_queue_overflow, record_inbound_queue_drops, usize_to_u64,
    DATAGRAM_RECV_QUEUE_CAPACITY, INBOUND_PACKET_CAPACITY, INCOMING_BATCH_CHANNEL_CAPACITY,
    MAX_PACKET_BATCH_PACKETS,
};
use usque_transport::h3_migration::{
    migration_step, AttemptState, MigrationEvent, MigrationPhase, MigrationState,
    admit_command, cid_issue_refused, invalid_attempt_reason, migration_availability_reason, migration_enabled, migration_reply,
    preparation_reason, probe_failure_reason, provisioning_reason, start_reason, starting_generation,
    CidAvailability, CommandAdmission, H3MigrationResult, MigrationReasonCode, PreparationOutcome, ProbeError,
};
use usque_transport::NetworkFeatureFlags;

const MILLISECOND: u128 = 1_000_000;
const SECOND: u128 = 1_000_000_000;

#[test]
fn every_feature_combination_preserves_explicit_h2_window_rollback() {
    for bits in 0..32 {
        let features = NetworkFeatureFlags {
            h2_tuned_flow_control: bits & 1 != 0,
            network_quality_metrics: bits & 2 != 0,
            udp_batch_io: bits & 4 != 0,
            automatic_pmtu: bits & 8 != 0,
            quic_migration: bits & 16 != 0,
        };
        let config = H2FlowControlConfig::for_features(features);
        assert_eq!(
            config.stream_receive_window,
            if features.h2_tuned_flow_control { 4 * 1024 * 1024 } else { 65_535 }
        );
        assert_eq!(
            config.connection_receive_window,
            if features.h2_tuned_flow_control { 8 * 1024 * 1024 } else { 65_535 }
        );
    }
    assert_eq!(H2FlowControlConfig::default().stream_receive_window, 4 * 1024 * 1024);
}

#[test]
fn h2_rtt_ewma_and_adaptive_timeout_are_bounded() {
    let mut estimator = H2RttEstimator::new();
    assert_eq!(estimator.timeout(), 5 * SECOND);

    let first = estimator.observe(100 * MILLISECOND);
    assert_eq!(first.smoothed, 100 * MILLISECOND);
    assert_eq!(first.minimum, 100 * MILLISECOND);
    assert_eq!(first.variance, 0);
    assert_eq!(estimator.timeout(), 2 * SECOND);

    let second = estimator.observe(180 * MILLISECOND);
    assert_eq!(second.smoothed, 110 * MILLISECOND);
    assert_eq!(second.minimum, 100 * MILLISECOND);
    assert_eq!(second.variance, 10 * MILLISECOND);

    estimator.smoothed = Some(SECOND);
    assert_eq!(estimator.timeout(), 3 * SECOND);
    estimator.smoothed = Some(4 * SECOND);
    assert_eq!(estimator.timeout(), 10 * SECOND);
}

#[test]
fn ewma_weights_history_seven_to_one() {
    assert_eq!(duration_ewma(800, 0), 700);
    assert_eq!(duration_ewma(0, 800), 100);
    assert_eq!(duration_ewma(7, 0), 6);
}

#[test]
fn cid_readiness_does_not_claim_platform_migration_support() {
    for availability in [CidAvailability::Ready, CidAvailability::PeerUnavailable, CidAvailability::LocalUnavailable] {
        assert_eq!(migration_availability_reason(availability, false), Some(MigrationReasonCode::Unsupported));
    }
    assert_eq!(migration_availability_reason(CidAvailability::Ready, true), None);
    assert_eq!(
        migration_availability_reason(CidAvailability::PeerUnavailable, true),
        Some(MigrationReasonCode::PeerCidUnavailable)
    );
}

#[test]
fn inbound_queue_overflow_counts_only_payloads_beyond_the_bound() {
    assert_eq!(inbound_queue_overflow(0, DATAGRAM_RECV_QUEUE_CAPACITY), 0);
    assert_eq!(inbound_queue_overflow(DATAGRAM_RECV_QUEUE_CAPACITY - 1, 1), 0);
    assert_eq!(inbound_queue_overflow(DATAGRAM_RECV_QUEUE_CAPACITY - 1, 3), 2);
    assert_eq!(inbound_queue_overflow(DATAGRAM_RECV_QUEUE_CAPACITY, 4), 4);
}

#[test]
fn inbound_batch_storage_is_bounded_to_1024_packets() {
    let application_channel = INCOMING_BATCH_CHANNEL_CAPACITY * MAX_PACKET_BATCH_PACKETS;
    assert_eq!(
        application_channel
            + MAX_PACKET_BATCH_PACKETS
            + MAX_PACKET_BATCH_PACKETS
            + DATAGRAM_RECV_QUEUE_CAPACITY,
        INBOUND_PACKET_CAPACITY
    );
}

#[test]
fn effective_payload_uses_profile_and_real_writable_bounds() {
    assert_eq!(effective_connect_ip_payload(1_400, 1_452, 2), 1_400);
    assert_eq!(effective_connect_ip_payload(9_000, 1_452, 2), 1_450);
    assert_eq!(effective_connect_ip_payload(1_280, 1, 2), 0);
}

#[test]
fn drop_counters_saturate() {
    let mut total = u64::MAX - 1;
    record_inbound_queue_drops(5, &mut total);
    assert_eq!(total, u64::MAX);
    let mut total = 3;
    record_inbound_queue_drops(4, &mut total);
    assert_eq!(total, 7);
    assert_eq!(usize_to_u64(42), 42);
}

#[test]
fn migration_requests_are_admitted_only_for_newer_generations() {
    assert_eq!(admit_command(true, 9, 1, None), CommandAdmission::Ignore);
    assert_eq!(admit_command(false, 1, 1, None), CommandAdmission::Stale);
    assert_eq!(admit_command(false, 4, 1, Some(5)), CommandAdmission::Stale);
    assert_eq!(admit_command(false, 5, 1, Some(5)), CommandAdmission::Start);
}

#[test]
fn migration_attempts_stop_for_stable_reasons() {
    assert_eq!(invalid_attempt_reason(true, true, Some(3), 3, false), Some(MigrationReasonCode::PathValidationTimeout));
    assert_eq!(invalid_attempt_reason(false, false, Some(3), 3, false), Some(MigrationReasonCode::Superseded));
    assert_eq!(invalid_attempt_reason(false, true, Some(4), 3, false), Some(MigrationReasonCode::Superseded));
    assert_eq!(
        invalid_attempt_reason(false, true, Some(4), 3, true),
        Some(MigrationReasonCode::GenerationChangedDuringSetup)
    );
    assert_eq!(
        invalid_attempt_reason(false, true, None, 3, false),
        Some(MigrationReasonCode::GenerationChangedDuringSetup)
    );
    assert_eq!(invalid_attempt_reason(false, true, Some(3), 3, false), None);
    assert_eq!(start_reason(false, Some(1), None, true, None), Some(MigrationReasonCode::Unsupported));
    assert_eq!(start_reason(true, Some(1), Some(false), true, None), Some(MigrationReasonCode::FamilyUnavailable));
    assert_eq!(start_reason(true, Some(1), Some(true), false, None), Some(MigrationReasonCode::ConnectionClosed));
    assert_eq!(start_reason(true, Some(1), None, true, None), None);
    assert_eq!(provisioning_reason(None), Some(MigrationReasonCode::LocalCidUnavailable));
    assert_eq!(provisioning_reason(Some(CidAvailability::Ready)), None);
    assert_eq!(
        preparation_reason(PreparationOutcome::SocketFailed, None),
        Some(MigrationReasonCode::SocketProtectFailed)
    );
    assert_eq!(
        preparation_reason(PreparationOutcome::StaleGeneration, None),
        Some(MigrationReasonCode::GenerationChangedDuringSetup)
    );
    assert_eq!(
        preparation_reason(PreparationOutcome::Ready, Some(MigrationReasonCode::Superseded)),
        Some(MigrationReasonCode::Superseded)
    );
}

#[test]
fn out_of_identifiers_has_a_stable_peer_or_local_reason() {
    assert_eq!(probe_failure_reason(ProbeError::OutOfIdentifiers, 0), MigrationReasonCode::PeerCidUnavailable);
    assert_eq!(probe_failure_reason(ProbeError::OutOfIdentifiers, 1), MigrationReasonCode::LocalCidUnavailable);
    assert_eq!(probe_failure_reason(ProbeError::IdLimit, 0), MigrationReasonCode::LocalCidUnavailable);
    assert_eq!(probe_failure_reason(ProbeError::Other, 0), MigrationReasonCode::PathProbeRejected);
}

#[test]
fn unsupported_generation_never_enables_migration_but_zero_is_valid() {
    assert!(!migration_enabled(true, None));
    assert!(migration_enabled(true, Some(0)));
    assert!(!migration_enabled(false, Some(0)));
    assert_eq!(starting_generation(None), 0);
    assert_eq!(starting_generation(Some(6)), 6);
    assert_eq!(migration_reply(false, true, false, None), H3MigrationResult::Failed(MigrationReasonCode::Unsupported));
    assert_eq!(
        migration_reply(true, false, false, None),
        H3MigrationResult::Failed(MigrationReasonCode::ConnectionClosed)
    );
    assert_eq!(
        migration_reply(true, true, true, None),
        H3MigrationResult::Failed(MigrationReasonCode::PathValidationTimeout)
    );
    assert_eq!(
        migration_reply(true, true, false, Some(H3MigrationResult::Promoted { network_generation: 4 })),
        H3MigrationResult::Promoted { network_generation: 4 }
    );
}

#[test]
fn cid_capacity_errors_map_to_the_stable_local_unavailable_reason() {
    assert_eq!(cid_issue_refused(ProbeError::OutOfIdentifiers).unwrap(), CidAvailability::LocalUnavailable);
    assert_eq!(cid_issue_refused(ProbeError::IdLimit).unwrap(), CidAvailability::LocalUnavailable);
}

#[test]
fn out_of_identifiers_has_a_stable_peer_or_local_fallback_reason() {
    assert_eq!(probe_failure_reason(ProbeError::OutOfIdentifiers, 0), MigrationReasonCode::PeerCidUnavailable);
    assert_eq!(probe_failure_reason(ProbeError::OutOfIdentifiers, 1), MigrationReasonCode::LocalCidUnavailable);
    assert_eq!(probe_failure_reason(ProbeError::Other, 1), MigrationReasonCode::PathProbeRejected);
}

#[test]
fn a_migration_attempt_moves_through_its_phases_and_ends_once() {
    let idle = MigrationState { pending: None, highest: 4, retiring: true };
    let stale = migration_step(idle, MigrationEvent::Request { target: 4, reply_closed: false, current: Some(4) });
    assert_eq!(stale.answered, Some(H3MigrationResult::StaleRequest));
    assert_eq!(stale.state, idle);
    let gone = migration_step(idle, MigrationEvent::Request { target: 5, reply_closed: true, current: Some(5) });
    assert_eq!(gone.state, idle);
    assert_eq!(gone.answered, None);

    let started = migration_step(idle, MigrationEvent::Request { target: 5, reply_closed: false, current: Some(5) });
    assert_eq!(started.ended, None);
    assert_eq!(
        started.state,
        MigrationState {
            pending: Some(AttemptState { target: 5, phase: MigrationPhase::PreparingSocket }),
            highest: 5,
            retiring: false,
        }
    );
    let early = migration_step(started.state, MigrationEvent::Promoted { network_generation: 5 });
    assert_eq!(early.state, started.state);
    assert_eq!(early.ended, None);
    let probing = migration_step(started.state, MigrationEvent::Prepared);
    assert_eq!(probing.state.pending.unwrap().phase, MigrationPhase::Probing);
    let validated = migration_step(probing.state, MigrationEvent::Validated);
    assert_eq!(validated.state.pending.unwrap().phase, MigrationPhase::Validated);
    let promoted = migration_step(validated.state, MigrationEvent::Promoted { network_generation: 5 });
    assert_eq!(promoted.ended, Some(H3MigrationResult::Promoted { network_generation: 5 }));
    assert_eq!(promoted.state, MigrationState { pending: None, highest: 5, retiring: true });
    let done = migration_step(promoted.state, MigrationEvent::RetiringDone);
    assert!(!done.state.retiring);
}

#[test]
fn a_newer_request_supersedes_and_an_abort_reports_its_reason() {
    let first = MigrationState {
        pending: Some(AttemptState { target: 6, phase: MigrationPhase::Probing }),
        highest: 6,
        retiring: false,
    };
    let next = migration_step(first, MigrationEvent::Request { target: 7, reply_closed: false, current: None });
    assert_eq!(next.ended, Some(H3MigrationResult::Failed(MigrationReasonCode::Superseded)));
    assert_eq!(next.state.pending, Some(AttemptState { target: 7, phase: MigrationPhase::PreparingSocket }));
    let aborted = migration_step(next.state, MigrationEvent::Aborted(MigrationReasonCode::SocketProtectFailed));
    assert_eq!(aborted.ended, Some(H3MigrationResult::Failed(MigrationReasonCode::SocketProtectFailed)));
    assert_eq!(aborted.state.pending, None);
    assert_eq!(aborted.state.highest, 7);
    let nothing = migration_step(aborted.state, MigrationEvent::Aborted(MigrationReasonCode::Superseded));
    assert_eq!(nothing.ended, None);
}
