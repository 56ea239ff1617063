use usque_transport::control_queue::{encode_address_assign, queue_control_capsule, record_control_write, refusal_prefixes, reject_address_request, IpPrefix, PendingControlCapsule, MAX_PENDING_CONTROL_CAPSULES};
use usque_transport::diagnostic_probe::{
    handshake_result, handshake_round, socket_prepare_failure,
    attempt_budget, candidate_run_result, dns_probe_result, h3_probe_endpoints, no_candidates_result, probe_candidates,
    saturating_milliseconds, IpPolicy, NetworkProbeResult,
};
use usque_transport::direct_dns::DirectDnsError;
use usque_transport::h3_migration::{
    cid_availability, cid_issue_refused, highest_after_command, cid_maintenance_step, receive_failure_action, verify_active_binding,
    CidAvailability, CidMaintenanceStep, PathBinding, PathReport, ProbeError, ReceiveFailureAction,
    CID_GENERATION_ATTEMPT_LIMIT,
    cycle_deadline, drain_step, next_wakeup, tick_waits, AttemptSchedule, DrainOutcome, DrainStep, MigrationPhase,
};
use usque_transport::net::{IpAddress, SocketAddress};
use usque_transport::wire_queue::{
    complete_wire_sends, may_generate, PendingWireDatagram,
    batch_packet_action, recycle_wire_buffer, send_batch_len, take_wire_buffer, BatchPacketAction, WireDatagramInfo,
    MAX_PENDING_WIRE_DATAGRAMS,
};
use usque_transport::TransportError;

fn v4() -> SocketAddress {
    SocketAddress::new(IpAddress::V4(0x0a00_0001), 443)
}

fn v6() -> SocketAddress {
    SocketAddress::new(IpAddress::V6(1), 443)
}

#[test]
fn diagnostic_family_order_matches_normal_policy_and_never_expands_forced_families() {
    for (policy, families) in [
        (IpPolicy::Auto, vec![false, true]),
        (IpPolicy::PreferIpv6, vec![false, true]),
        (IpPolicy::PreferIpv4, vec![true, false]),
        (IpPolicy::Ipv4Only, vec![true]),
        (IpPolicy::Ipv6Only, vec![false]),
    ] {
        assert_eq!(
            h3_probe_endpoints(policy, v4(), v6()).iter().map(SocketAddress::is_ipv4).collect::<Vec<_>>(),
            families
        );
    }
}

#[test]
fn probe_candidates_skip_unavailable_families_and_stop_at_two() {
    let endpoints = [v6(), v4(), v4()];
    assert_eq!(probe_candidates(&endpoints, &[false, false, false]), vec![v6(), v4()]);
    assert_eq!(probe_candidates(&endpoints, &[true, false, false]), vec![v4()]);
    assert!(probe_candidates(&[], &[]).is_empty());
    assert_eq!(no_candidates_result(true), NetworkProbeResult::Cancelled);
    assert_eq!(no_candidates_result(false), NetworkProbeResult::Failed);
}

#[test]
fn dns_probe_results_are_allowlisted() {
    assert_eq!(dns_probe_result(true, true, true, Ok(()), 5), NetworkProbeResult::Cancelled);
    assert_eq!(dns_probe_result(false, true, true, Ok(()), 5), NetworkProbeResult::NetworkChanged);
    assert_eq!(dns_probe_result(false, false, false, Ok(()), 5), NetworkProbeResult::Failed);
    assert_eq!(dns_probe_result(false, false, true, Ok(()), 5), NetworkProbeResult::Passed { milliseconds: 5 });
    assert_eq!(dns_probe_result(false, false, true, Err(DirectDnsError::Busy), 5), NetworkProbeResult::TimedOut);
    assert_eq!(dns_probe_result(false, false, true, Err(DirectDnsError::TlsFailed), 5), NetworkProbeResult::Failed);
}

#[test]
fn serial_candidates_add_up_failures_and_timeouts() {
    let failed = NetworkProbeResult::Failed;
    let timed_out = NetworkProbeResult::TimedOut;
    let passed = NetworkProbeResult::Passed { milliseconds: 1 };
    assert_eq!(candidate_run_result(&[failed, passed], 9), NetworkProbeResult::Passed { milliseconds: 9 });
    assert_eq!(candidate_run_result(&[timed_out, failed], 9), timed_out);
    assert_eq!(candidate_run_result(&[failed, failed], 9), failed);
    assert_eq!(
        candidate_run_result(&[NetworkProbeResult::NetworkChanged, passed], 9),
        NetworkProbeResult::NetworkChanged
    );
    assert_eq!(candidate_run_result(&[], 9), failed);
    assert_eq!(attempt_budget(3_800, 2), 1_900);
    assert_eq!(saturating_milliseconds(u128::MAX), u64::MAX);
}

#[test]
fn migration_wakeups_and_drain_steps() {
    let probing = AttemptSchedule { deadline: 1_000_000_000, phase: MigrationPhase::Probing, next_probe_at: 5 };
    assert_eq!(next_wakeup(0, Some(probing), None), 5);
    let preparing = AttemptSchedule { phase: MigrationPhase::PreparingSocket, ..probing };
    assert_eq!(next_wakeup(0, Some(preparing), None), 20_000_000);
    assert_eq!(next_wakeup(0, Some(preparing), Some(7)), 7);
    assert_eq!(next_wakeup(0, None, None), 86_400_000_000_000);
    let late = AttemptSchedule { deadline: 3, ..preparing };
    assert_eq!(next_wakeup(0, Some(late), None), 3);
    assert!(tick_waits(MigrationPhase::PreparingSocket, 10, 0, false));
    assert!(tick_waits(MigrationPhase::Probing, 10, 11, false));
    assert!(!tick_waits(MigrationPhase::Probing, 10, 10, false));
    assert_eq!(drain_step(DrainOutcome::Drained(3), 8), DrainStep::Proceed { candidate_budget: 5 });
    assert_eq!(drain_step(DrainOutcome::Drained(9), 8), DrainStep::Proceed { candidate_budget: 0 });
    assert_eq!(drain_step(DrainOutcome::TimedOut, 8), DrainStep::Defer);
    assert_eq!(drain_step(DrainOutcome::MessageTooLarge, 8), DrainStep::ShrinkPathMtu);
    assert_eq!(cycle_deadline(10, 5, 12), 12);
    assert_eq!(cycle_deadline(10, 5, 20), 15);
}

#[test]
fn address_requests_are_refused_with_unspecified_prefixes() {
    let requested = [
        IpPrefix { request_id: 1, address: IpAddress::V4(0x0a00_0001), prefix_len: 24 },
        IpPrefix { request_id: 2, address: IpAddress::V6(5), prefix_len: 64 },
    ];
    assert_eq!(
        refusal_prefixes(&requested),
        vec![
            IpPrefix { request_id: 1, address: IpAddress::V4(0), prefix_len: 32 },
            IpPrefix { request_id: 2, address: IpAddress::V6(0), prefix_len: 128 },
        ]
    );
}

#[test]
fn address_request_rejections_have_item_and_byte_bounds() {
    let mut queue = Vec::new();
    for _ in 0..MAX_PENDING_CONTROL_CAPSULES {
        queue_control_capsule(&mut queue, vec![0_u8; 8]).unwrap();
    }
    assert!(matches!(queue_control_capsule(&mut queue, vec![0_u8; 8]), Err(TransportError::SendQueueFull)));
    let mut queue = vec![PendingControlCapsule { bytes: vec![0_u8; 262_000], offset: 0 }];
    assert!(matches!(queue_control_capsule(&mut queue, vec![0_u8; 200]), Err(TransportError::SendQueueFull)));
    queue[0].offset = 1_000;
    assert!(queue_control_capsule(&mut queue, vec![0_u8; 200]).is_ok());
    assert_eq!(queue.len(), 2);
}

#[test]
fn udp_send_batches_stop_at_path_pacing_and_quantum() {
    let datagram = WireDatagramInfo { length: 100, due: true, source: v4(), destination: v4() };
    let other_path = WireDatagramInfo { destination: v6(), ..datagram };
    let not_due = WireDatagramInfo { due: false, ..datagram };
    assert_eq!(send_batch_len(&[datagram, datagram, datagram], 250, 8), 2);
    assert_eq!(send_batch_len(&[datagram, datagram, datagram], 1_000, 2), 2);
    assert_eq!(send_batch_len(&[datagram, other_path, datagram], 1_000, 8), 1);
    assert_eq!(send_batch_len(&[not_due, datagram], 1_000, 8), 0);
    assert_eq!(send_batch_len(&[], 1_000, 8), 0);
}

#[test]
fn wire_datagram_buffers_are_reused_with_a_fixed_bound() {
    let mut free = Vec::new();
    let first = take_wire_buffer(&mut free, 1_452);
    assert_eq!(first.len(), 1_452);
    assert!(first.iter().all(|byte| *byte == 0));
    recycle_wire_buffer(&mut free, first);
    assert_eq!(free.len(), 1);
    let second = take_wire_buffer(&mut free, 1_452);
    assert!(free.is_empty());
    assert_eq!(second.len(), 1_452);
    for _ in 0..MAX_PENDING_WIRE_DATAGRAMS + 3 {
        recycle_wire_buffer(&mut free, vec![1_u8; 4]);
    }
    assert_eq!(free.len(), MAX_PENDING_WIRE_DATAGRAMS);
    assert!(free.iter().all(Vec::is_empty));
}

#[test]
fn oversized_ipv6_packets_wait_only_for_a_probing_floor() {
    assert_eq!(batch_packet_action(1_200, 1_200, true, false, Some(0x60)), BatchPacketAction::Queue);
    assert_eq!(batch_packet_action(1_280, 1_200, true, false, Some(0x60)), BatchPacketAction::Rotate);
    assert_eq!(batch_packet_action(1_280, 1_200, true, true, Some(0x60)), BatchPacketAction::Oversized);
    assert_eq!(batch_packet_action(1_280, 1_200, false, false, Some(0x60)), BatchPacketAction::Oversized);
    assert_eq!(batch_packet_action(1_400, 1_300, true, false, Some(0x60)), BatchPacketAction::Oversized);
    assert_eq!(batch_packet_action(1_280, 1_200, true, false, Some(0x45)), BatchPacketAction::Oversized);
}

#[test]
fn partial_control_writes_advance_and_a_finished_capsule_leaves_the_queue() {
    let mut queue = Vec::new();
    queue_control_capsule(&mut queue, vec![1, 2, 3, 4, 5]).unwrap();
    queue_control_capsule(&mut queue, vec![9, 9]).unwrap();

    assert!(!record_control_write(&mut queue, 0));
    assert_eq!(queue.len(), 2);
    assert_eq!(queue[0].offset, 0);

    assert!(!record_control_write(&mut queue, 2));
    assert_eq!(queue.len(), 2);
    assert_eq!(queue[0].offset, 2);
    assert_eq!(queue[0].bytes, vec![1, 2, 3, 4, 5]);

    assert!(record_control_write(&mut queue, 3));
    assert_eq!(queue.len(), 1);
    assert_eq!(queue[0].bytes, vec![9, 9]);
    assert_eq!(queue[0].offset, 0);

    assert!(record_control_write(&mut queue, 2));
    assert!(queue.is_empty());
}

#[test]
fn connection_id_maintenance_issues_until_the_spare_target_and_gives_up_after_the_limit() {
    assert_eq!(cid_maintenance_step(1, 10, 0), CidMaintenanceStep::Issue);
    assert_eq!(cid_maintenance_step(3, 10, 2), CidMaintenanceStep::Issue);
    assert_eq!(cid_maintenance_step(4, 10, 3), CidMaintenanceStep::Classify);
    assert_eq!(cid_maintenance_step(1, 0, 0), CidMaintenanceStep::Classify);
    assert_eq!(cid_maintenance_step(1, 10, CID_GENERATION_ATTEMPT_LIMIT), CidMaintenanceStep::GiveUp);
    assert_eq!(cid_maintenance_step(1, 10, CID_GENERATION_ATTEMPT_LIMIT - 1), CidMaintenanceStep::Issue);

    assert_eq!(cid_availability(0, 4), CidAvailability::PeerUnavailable);
    assert_eq!(cid_availability(2, 1), CidAvailability::LocalUnavailable);
    assert_eq!(cid_availability(2, 2), CidAvailability::Ready);

    assert_eq!(cid_issue_refused(ProbeError::IdLimit), Some(CidAvailability::LocalUnavailable));
    assert_eq!(cid_issue_refused(ProbeError::OutOfIdentifiers), Some(CidAvailability::LocalUnavailable));
    assert_eq!(cid_issue_refused(ProbeError::Other), None);
}

fn wire_datagram(marker: u8) -> PendingWireDatagram {
    PendingWireDatagram {
        bytes: vec![marker; 3],
        info: WireDatagramInfo { length: 3, due: true, source: v4(), destination: v4() },
    }
}

#[test]
fn completed_wire_sends_leave_in_order_and_return_buffers_within_the_bound() {
    let mut pending = vec![wire_datagram(1), wire_datagram(2), wire_datagram(3)];
    let mut free = Vec::new();
    complete_wire_sends(&mut pending, &mut free, 2);
    assert_eq!(pending.len(), 1);
    assert_eq!(pending[0].bytes, vec![3, 3, 3]);
    assert_eq!(free.len(), 2);
    assert!(free.iter().all(|buffer| buffer.is_empty()));

    let mut full: Vec<Vec<u8>> = (0..MAX_PENDING_WIRE_DATAGRAMS - 1).map(|_| Vec::new()).collect();
    let mut pending = vec![wire_datagram(4), wire_datagram(5)];
    complete_wire_sends(&mut pending, &mut full, 2);
    assert!(pending.is_empty());
    assert_eq!(full.len(), MAX_PENDING_WIRE_DATAGRAMS);
}

#[test]
fn generation_stops_at_the_pending_bound_and_the_send_quantum() {
    assert!(may_generate(0, 0, 1_350, 13_500));
    assert!(may_generate(0, 12_150, 1_350, 13_500));
    assert!(!may_generate(0, 12_151, 1_350, 13_500));
    assert!(!may_generate(MAX_PENDING_WIRE_DATAGRAMS, 0, 1_350, 13_500));
    assert!(may_generate(MAX_PENDING_WIRE_DATAGRAMS - 1, 0, 1_350, 13_500));
    assert!(may_generate(0, usize::MAX, 1, usize::MAX));
}

#[test]
fn partial_batch_completion_pops_only_zero_one_or_n_sent_items() {
    let from = SocketAddress::new(IpAddress::V4(0x7f00_0001), 10_000);
    let to = SocketAddress::new(IpAddress::V4(0x7f00_0001), 20_000);
    let mut pending = Vec::new();
    for marker in 1..=3 {
        pending.push(PendingWireDatagram {
            bytes: vec![marker; 100],
            info: WireDatagramInfo { length: 100, due: true, source: from, destination: to },
        });
    }
    let mut free = Vec::new();

    complete_wire_sends(&mut pending, &mut free, 0);
    assert_eq!(pending.len(), 3);
    assert_eq!(pending.first().unwrap().bytes[0], 1);

    complete_wire_sends(&mut pending, &mut free, 1);
    assert_eq!(pending.len(), 2);
    assert_eq!(pending.first().unwrap().bytes[0], 2);

    complete_wire_sends(&mut pending, &mut free, 2);
    assert!(pending.is_empty());
    assert_eq!(free.len(), 3);
}

#[test]
fn receive_failures_abort_the_candidate_or_release_the_retiring_path() {
    assert_eq!(receive_failure_action(3, Some(3), Some(3)), ReceiveFailureAction::AbortCandidate);
    assert_eq!(receive_failure_action(2, Some(3), Some(2)), ReceiveFailureAction::ClearRetiring);
    assert_eq!(receive_failure_action(1, Some(3), Some(2)), ReceiveFailureAction::NotMigration);
    assert_eq!(receive_failure_action(1, None, None), ReceiveFailureAction::NotMigration);
}

#[test]
fn the_active_quic_path_must_match_the_socket_binding() {
    let local = SocketAddress::new(IpAddress::V4(0x7f00_0001), 10_000);
    let peer = SocketAddress::new(IpAddress::V4(0x7f00_0001), 20_000);
    let other = SocketAddress::new(IpAddress::V4(0x7f00_0001), 10_001);
    let binding = PathBinding { local, peer };
    let active = PathReport { active: true, local, peer };
    let standby = PathReport { active: false, local, peer };
    let moved = PathReport { active: true, local: other, peer };

    assert!(verify_active_binding(Some(binding), &[standby, active]).is_ok());
    assert!(matches!(verify_active_binding(Some(binding), &[standby, moved]), Err(TransportError::Http3(_))));
    assert!(matches!(verify_active_binding(None, &[active]), Err(TransportError::Http3(_))));
}

#[test]
fn the_highest_generation_rises_only_with_a_started_attempt() {
    assert_eq!(highest_after_command(false, 7, 5, Some(6)), 7);
    assert_eq!(highest_after_command(true, 7, 5, Some(6)), 5);
    assert_eq!(highest_after_command(false, 5, 5, None), 5);
    assert_eq!(highest_after_command(false, 6, 5, Some(7)), 5);
}

#[test]
fn address_requests_are_answered_with_an_unspecified_address_assign() {
    let requested = [
        IpPrefix { request_id: 7, address: IpAddress::V4(0x0a00_0002), prefix_len: 24 },
        IpPrefix { request_id: 8, address: IpAddress::V6(5), prefix_len: 64 },
    ];
    let mut queue = Vec::new();
    reject_address_request(&mut queue, &requested).unwrap();
    assert_eq!(queue.len(), 1);
    let mut expected = vec![0x01, 26, 7, 4, 0, 0, 0, 0, 32, 8, 6];
    expected.extend_from_slice(&[0; 16]);
    expected.push(128);
    assert_eq!(queue[0].bytes, expected);
    assert_eq!(queue[0].offset, 0);

    let unencodable = [IpPrefix { request_id: u64::MAX, address: IpAddress::V4(0), prefix_len: 32 }];
    assert!(matches!(encode_address_assign(&unencodable), Err(TransportError::InvalidVarint)));
    assert!(matches!(reject_address_request(&mut queue, &unencodable), Err(TransportError::InvalidVarint)));
    assert_eq!(queue.len(), 1);

    for _ in 1..MAX_PENDING_CONTROL_CAPSULES {
        reject_address_request(&mut queue, &requested).unwrap();
    }
    assert!(matches!(reject_address_request(&mut queue, &requested), Err(TransportError::SendQueueFull)));
    assert_eq!(queue.len(), MAX_PENDING_CONTROL_CAPSULES);
}

#[test]
fn migration_handles_are_offered_only_with_reported_generations() {
    let endpoint = SocketAddress::new(IpAddress::V4(0x7f00_0001), 443);
    let (sender, _receiver) = tokio::sync::mpsc::channel(usque_transport::h3_migration::H3_CONTROL_CAPACITY);
    let handle = usque_transport::h3_migration::H3MigrationHandle::new(sender.clone(), endpoint, Some(0), true);
    assert!(handle.enabled());
    assert_eq!(handle.initial_generation(), 0);
    assert_eq!(handle.endpoint(), endpoint);
    let unreported = usque_transport::h3_migration::H3MigrationHandle::new(sender.clone(), endpoint, None, true);
    assert!(!unreported.enabled());
    assert_eq!(unreported.initial_generation(), 0);
    let off = usque_transport::h3_migration::H3MigrationHandle::new(sender, endpoint, Some(4), false);
    assert!(!off.enabled());
    assert_eq!(off.initial_generation(), 4);
}

#[test]
fn handshake_rounds_stop_on_network_change_before_failure() {
    assert_eq!(handshake_round(3, Some(3), Some(3), false, false, false), None);
    assert_eq!(handshake_round(3, Some(4), Some(3), true, true, false), Some(NetworkProbeResult::NetworkChanged));
    assert_eq!(handshake_round(0, None, Some(0), false, false, false), None);
    assert_eq!(handshake_round(3, Some(3), None, false, false, false), Some(NetworkProbeResult::NetworkChanged));
    assert_eq!(handshake_round(3, Some(3), Some(3), true, false, false), Some(NetworkProbeResult::Failed));
    assert_eq!(handshake_round(3, Some(3), Some(3), false, false, true), Some(NetworkProbeResult::Failed));
    assert_eq!(socket_prepare_failure(true), NetworkProbeResult::NetworkChanged);
    assert_eq!(socket_prepare_failure(false), NetworkProbeResult::Failed);
}

#[test]
fn handshake_results_let_cancellation_and_timeout_win() {
    let passed = NetworkProbeResult::Passed { milliseconds: 12 };
    assert_eq!(handshake_result(true, true, Ok(passed)), NetworkProbeResult::Cancelled);
    assert_eq!(handshake_result(false, true, Ok(passed)), NetworkProbeResult::TimedOut);
    assert_eq!(handshake_result(false, false, Ok(passed)), passed);
    assert_eq!(handshake_result(false, false, Err(NetworkProbeResult::NetworkChanged)), NetworkProbeResult::NetworkChanged);
}
