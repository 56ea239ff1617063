use tokio_util::sync::CancellationToken;
use usque_transport::direct_nat::{read_u16, NatPacket, GATEWAY_IPV4};
use usque_transport::direct_router::{
    classify_outgoing, complete_outgoing, flow_of, gateway_start_plan, plan_direct, plan_direct_at, split_dns_enabled, is_split_dns_server_packet, mapping_for, mapping_for_at, route_incoming, route_incoming_at, OutgoingAction,
};
use usque_transport::nat_table::{FlowKey, NatTable, FIRST_DYNAMIC_PORT, MAX_DIRECT_UDP_FLOWS};
use usque_transport::net::{IpAddress, SocketAddress};
use usque_transport::geo_route::GeoRoute;
use usque_transport::TransportError;

const CLIENT_IPV4: u32 = 0x0a00_0002;
const LOCALHOST: u32 = 0x7f00_0001;

fn udp_flow(source_port: u16) -> FlowKey {
    FlowKey {
        protocol: 17,
        client: SocketAddress::new(IpAddress::V4(CLIENT_IPV4), source_port),
        remote: SocketAddress::new(IpAddress::V4(LOCALHOST), 53),
    }
}

fn udp_packet(destination: u32, destination_port: u16) -> Vec<u8> {
    let mut packet = vec![0_u8; 28];
    packet[0] = 0x45;
    packet[2..4].copy_from_slice(&28_u16.to_be_bytes());
    packet[9] = 17;
    packet[12..16].copy_from_slice(&CLIENT_IPV4.to_be_bytes());
    packet[16..20].copy_from_slice(&destination.to_be_bytes());
    packet[20..22].copy_from_slice(&50_009_u16.to_be_bytes());
    packet[22..24].copy_from_slice(&destination_port.to_be_bytes());
    packet[24..26].copy_from_slice(&8_u16.to_be_bytes());
    packet
}

#[test]
fn network_change_cancels_and_replaces_a_direct_mapping() {
    let flow = udp_flow(50_003);
    let cancellation = CancellationToken::new();
    let mut table = NatTable::default();
    let first = table.reserve(flow, Some(1), &cancellation).unwrap();
    assert_eq!(table.existing(&flow, Some(1)).map(|mapping| mapping.id), Some(first.id));
    assert!(table.existing(&flow, Some(2)).is_none());
    assert!(first.cancel.is_cancelled());

    let second = table.reserve(flow, Some(2), &cancellation).unwrap();
    assert_ne!(second.id, first.id);
    assert_eq!(second.network_generation, Some(2));
}

#[test]
fn a_live_mapping_is_found_again_and_an_idle_one_is_swept() {
    let flow = udp_flow(50_004);
    let cancellation = CancellationToken::new();
    let start = std::time::Instant::now();
    let mut table = NatTable::new_at(start);
    let first = table.reserve_at(start, start, flow, Some(1), &cancellation).unwrap();
    let minute = start + std::time::Duration::from_secs(60);
    assert_eq!(table.existing_at(minute, minute, &flow, Some(1)).map(|mapping| mapping.id), Some(first.id));
    assert!(!first.cancel.is_cancelled());
    let idle = minute + std::time::Duration::from_secs(300);
    assert!(table.existing_at(idle, idle, &flow, Some(1)).is_none());
    assert!(first.cancel.is_cancelled());
    assert_eq!(table.len(), 0);
}

#[test]
fn mapping_for_at_reuses_the_live_mapping() {
    let flow = udp_flow(50_005);
    let cancellation = CancellationToken::new();
    let start = std::time::Instant::now();
    let mut table = NatTable::new_at(start);
    let (first, fresh) = mapping_for_at(&mut table, start, start, start, start, flow, None, &cancellation).unwrap();
    assert!(fresh);
    let later = start + std::time::Duration::from_secs(45);
    let (again, fresh_again) = mapping_for_at(&mut table, later, later, later, later, flow, None, &cancellation).unwrap();
    assert!(!fresh_again);
    assert_eq!(again.id, first.id);
    let packet = udp_packet(LOCALHOST, 53);
    let parsed = NatPacket::parse(&packet).unwrap();
    assert!(plan_direct_at(&mut table, later, later, later, later, &parsed, GeoRoute::Tunnel, None, &cancellation)
        .is_none());
    let (planned, planned_fresh) =
        plan_direct_at(&mut table, later, later, later, later, &parsed, GeoRoute::Direct, None, &cancellation).unwrap();
    assert!(planned_fresh);
    assert_ne!(planned.id, first.id);
    assert_eq!(table.len(), 2);
}

#[test]
fn udp_flow_table_has_a_memory_bound() {
    let cancellation = CancellationToken::new();
    let mut table = NatTable::default();
    for index in 0..MAX_DIRECT_UDP_FLOWS {
        let source_port = 10_000 + u16::try_from(index).unwrap();
        assert!(table.reserve(udp_flow(source_port), Some(1), &cancellation).is_some());
    }
    let overflow = udp_flow(20_000);
    assert!(table.reserve(overflow, Some(1), &cancellation).is_none());
    assert_eq!(table.udp_flows(), MAX_DIRECT_UDP_FLOWS);
}

#[test]
fn gateway_ports_are_handed_out_in_order_and_released() {
    let cancellation = CancellationToken::new();
    let mut table = NatTable::new();
    let first = table.reserve(udp_flow(1), None, &cancellation).unwrap();
    let second = table.reserve(udp_flow(2), None, &cancellation).unwrap();
    assert_eq!(first.gateway, SocketAddress::new(IpAddress::V4(GATEWAY_IPV4), FIRST_DYNAMIC_PORT));
    assert_eq!(second.gateway.port, FIRST_DYNAMIC_PORT + 1);
    assert_eq!((first.id, second.id), (1, 2));
    table.remove_if(&udp_flow(1), second.id);
    assert_eq!(table.len(), 2);
    table.remove(&udp_flow(1));
    assert_eq!(table.len(), 1);
    assert_eq!(table.udp_flows(), 1);
    assert!(first.cancel.is_cancelled());
    assert!(!second.cancel.is_cancelled());
    table.cancel_all();
    assert_eq!(table.len(), 0);
    assert!(second.cancel.is_cancelled());
}

#[test]
fn reverse_lookup_finds_the_flow_behind_a_gateway_socket() {
    let cancellation = CancellationToken::new();
    let mut table = NatTable::new();
    let flow = udp_flow(40_000);
    let mapping = table.reserve(flow, None, &cancellation).unwrap();
    let mut reply = vec![0_u8; 28];
    reply[0] = 0x45;
    reply[9] = 17;
    reply[12..16].copy_from_slice(&GATEWAY_IPV4.to_be_bytes());
    reply[16..20].copy_from_slice(&CLIENT_IPV4.to_be_bytes());
    reply[20..22].copy_from_slice(&mapping.gateway.port.to_be_bytes());
    reply[22..24].copy_from_slice(&40_000_u16.to_be_bytes());
    let parsed = NatPacket::parse(&reply).unwrap();
    assert_eq!(table.reverse(&parsed), Some(flow));
    reply[22..24].copy_from_slice(&40_001_u16.to_be_bytes());
    let other = NatPacket::parse(&reply).unwrap();
    assert_eq!(table.reverse(&other), None);
}

#[test]
fn outgoing_packets_are_classified_before_any_nat_work() {
    let listener = (IpAddress::V4(0x0a00_0035), IpAddress::V6(0xfd00_0000_0000_0000_0000_0000_0000_0053));
    let dns = udp_packet(0x0a00_0035, 53);
    assert!(matches!(classify_outgoing(&dns, false, Some(listener), true), OutgoingAction::LocalDns));
    assert!(matches!(classify_outgoing(&dns, true, Some(listener), false), OutgoingAction::LocalDns));
    assert!(matches!(classify_outgoing(&dns, false, None, true), OutgoingAction::ConsultRoute(_)));
    let web = udp_packet(LOCALHOST, 443);
    assert!(matches!(classify_outgoing(&web, true, Some(listener), true), OutgoingAction::Tunnel));
    assert!(matches!(classify_outgoing(&web, false, Some(listener), false), OutgoingAction::Tunnel));
    assert!(matches!(classify_outgoing(&web[..10], false, None, true), OutgoingAction::Tunnel));
    let mut answer = udp_packet(CLIENT_IPV4, 50_000);
    answer[12..16].copy_from_slice(&0x0a00_0035_u32.to_be_bytes());
    answer[20..22].copy_from_slice(&53_u16.to_be_bytes());
    assert!(is_split_dns_server_packet(&answer, listener));
    assert!(!is_split_dns_server_packet(&web, listener));
}

#[test]
fn a_failed_translation_releases_only_a_fresh_mapping() {
    let cancellation = CancellationToken::new();
    let mut table = NatTable::new();
    let mut packet = udp_packet(LOCALHOST, 53);
    let parsed = NatPacket::parse(&packet).unwrap();
    let flow = flow_of(&parsed);
    let (mapping, fresh) = mapping_for(&mut table, flow, Some(3), &cancellation).unwrap();
    assert!(fresh);
    let (again, fresh_again) = mapping_for(&mut table, flow, Some(3), &cancellation).unwrap();
    assert!(!fresh_again);
    assert_eq!(again.id, mapping.id);

    let original = packet.clone();
    assert!(!complete_outgoing(&mut table, &mut packet, &parsed, &mapping, true, false));
    assert_eq!(packet, original);
    assert_eq!(table.len(), 0);

    let (mapping, _) = mapping_for(&mut table, flow, Some(3), &cancellation).unwrap();
    assert!(complete_outgoing(&mut table, &mut packet, &parsed, &mapping, true, true));
    assert_eq!(read_u16(&packet, 22), Some(mapping.gateway.port));
    assert_eq!(table.len(), 1);
}

#[test]
fn a_new_network_generation_replaces_the_mapping_with_a_fresh_one() {
    let cancellation = CancellationToken::new();
    let mut table = NatTable::new();
    let packet = udp_packet(LOCALHOST, 53);
    let parsed = NatPacket::parse(&packet).unwrap();
    let flow = flow_of(&parsed);
    let (first, fresh) = mapping_for(&mut table, flow, Some(3), &cancellation).unwrap();
    assert!(fresh);
    let (second, fresh_again) = mapping_for(&mut table, flow, Some(4), &cancellation).unwrap();
    assert!(fresh_again);
    assert_ne!(second.id, first.id);
    assert_eq!(second.network_generation, Some(4));
    assert_eq!(table.len(), 1);
}

fn reply_packet(source: u32, source_port: u16, destination: u32, destination_port: u16) -> Vec<u8> {
    let mut packet = vec![0_u8; 28];
    packet[0] = 0x45;
    packet[2..4].copy_from_slice(&28_u16.to_be_bytes());
    packet[9] = 17;
    packet[12..16].copy_from_slice(&source.to_be_bytes());
    packet[16..20].copy_from_slice(&destination.to_be_bytes());
    packet[20..22].copy_from_slice(&source_port.to_be_bytes());
    packet[22..24].copy_from_slice(&destination_port.to_be_bytes());
    packet[24..26].copy_from_slice(&8_u16.to_be_bytes());
    packet
}

#[test]
fn replies_of_a_known_flow_come_back_from_the_remote_endpoint() {
    let flow = udp_flow(50_009);
    let cancellation = CancellationToken::new();
    let mut table = NatTable::default();
    let mapping = table.reserve(flow, Some(1), &cancellation).unwrap();
    let IpAddress::V4(gateway) = mapping.gateway.ip else {
        panic!("an IPv4 flow uses the IPv4 gateway address");
    };

    let mut reply = reply_packet(gateway, mapping.gateway.port, CLIENT_IPV4, 50_009);
    assert!(route_incoming(&mut table, &mut reply));
    assert_eq!(&reply[12..16], &LOCALHOST.to_be_bytes());
    assert_eq!(read_u16(&reply, 20), Some(53));
    assert_eq!(&reply[16..20], &CLIENT_IPV4.to_be_bytes());

    let mut stranger = reply_packet(gateway, mapping.gateway.port.wrapping_add(1), CLIENT_IPV4, 50_009);
    let before = stranger.clone();
    assert!(!route_incoming(&mut table, &mut stranger));
    assert_eq!(stranger, before);

    let mut garbage = vec![0x10_u8, 1, 2];
    assert!(!route_incoming(&mut table, &mut garbage));
    assert_eq!(garbage, vec![0x10, 1, 2]);
}

#[test]
fn replies_stop_routing_once_the_flow_is_idle() {
    let flow = udp_flow(50_009);
    let cancellation = CancellationToken::new();
    let start = std::time::Instant::now();
    let mut table = NatTable::new_at(start);
    let mapping = table.reserve_at(start, start, flow, Some(1), &cancellation).unwrap();
    let IpAddress::V4(gateway) = mapping.gateway.ip else {
        panic!("an IPv4 flow uses the IPv4 gateway address");
    };
    let soon = start + std::time::Duration::from_secs(120);
    let mut reply = reply_packet(gateway, mapping.gateway.port, CLIENT_IPV4, 50_009);
    assert!(route_incoming_at(&mut table, soon, soon, &mut reply));
    assert_eq!(&reply[12..16], &LOCALHOST.to_be_bytes());
    let idle = soon + std::time::Duration::from_secs(300);
    let mut late = reply_packet(gateway, mapping.gateway.port, CLIENT_IPV4, 50_009);
    let before = late.clone();
    assert!(!route_incoming_at(&mut table, idle, idle, &mut late));
    assert_eq!(late, before);
    assert!(mapping.cancel.is_cancelled());
}

#[test]
fn the_gateway_refuses_split_dns_without_a_safe_tun_bypass() {
    assert!(split_dns_enabled(true, true, true));
    assert!(!split_dns_enabled(true, false, true));
    assert!(matches!(
        gateway_start_plan(true, false, true),
        Err(TransportError::Dns(message)) if message == "platform cannot safely bypass the TUN for Split DNS"
    ));
    assert_eq!(gateway_start_plan(true, true, true).unwrap(), true);
    assert_eq!(gateway_start_plan(false, true, true).unwrap(), true);
    assert_eq!(gateway_start_plan(false, true, false).unwrap(), false);
    assert_eq!(gateway_start_plan(false, false, true).unwrap(), false);
}

#[test]
fn only_direct_routes_get_a_mapping_and_the_packet_moves_to_its_gateway() {
    let cancellation = CancellationToken::new();
    let mut table = NatTable::default();
    let mut packet = udp_packet(LOCALHOST, 53);
    let parsed = NatPacket::parse(&packet).unwrap();

    assert!(plan_direct(&mut table, &parsed, GeoRoute::Tunnel, Some(1), &cancellation).is_none());
    assert_eq!(table.len(), 0);

    let (mapping, fresh) = plan_direct(&mut table, &parsed, GeoRoute::Direct, Some(1), &cancellation).unwrap();
    assert!(fresh);
    assert!(complete_outgoing(&mut table, &mut packet, &parsed, &mapping, fresh, true));
    assert_eq!(&packet[16..20], &GATEWAY_IPV4.to_be_bytes());
    assert_eq!(read_u16(&packet, 22), Some(mapping.gateway.port));

    let (again, fresh_again) = plan_direct(&mut table, &parsed, GeoRoute::Direct, Some(1), &cancellation).unwrap();
    assert!(!fresh_again);
    assert_eq!(again.id, mapping.id);
}
