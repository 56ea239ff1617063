use usque_transport::direct_nat::{
    gateway_ip, ip_bytes, read_u16, rewrite_destination, rewrite_source, update_checksum, NatPacket,
    GATEWAY_IPV4, GATEWAY_IPV6,
};
use usque_transport::net::{IpAddress, SocketAddress};

const CLIENT_IPV4: [u8; 4] = [10, 0, 0, 2];
const CLIENT_IPV6: u128 = 0xfd00_0000_0000_0000_0000_0000_0000_0002;
const LOCALHOST_V4: u32 = 0x7f00_0001;
const LOCALHOST_V6: u128 = 1;

fn udp_ipv4_packet() -> Vec<u8> {
    let mut packet = vec![0_u8; 28];
    packet[0] = 0x45;
    packet[2..4].copy_from_slice(&28_u16.to_be_bytes());
    packet[9] = 17;
    packet[12..16].copy_from_slice(&CLIENT_IPV4);
    packet[16..20].copy_from_slice(&LOCALHOST_V4.to_be_bytes());
    packet[20..22].copy_from_slice(&50_007_u16.to_be_bytes());
    packet[22..24].copy_from_slice(&53_u16.to_be_bytes());
    packet[24..26].copy_from_slice(&8_u16.to_be_bytes());
    packet
}

/// The Internet checksum of `data` (RFC 1071).
fn ones_complement_sum(data: &[u8]) -> u16 {
    let mut sum: u32 = 0;
    for chunk in data.chunks(2) {
        let word = if chunk.len() == 2 { u16::from_be_bytes([chunk[0], chunk[1]]) } else { u16::from(chunk[0]) << 8 };
        sum += u32::from(word);
    }
    while sum >> 16 != 0 {
        sum = (sum & 0xffff) + (sum >> 16);
    }
    !(sum as u16)
}

#[test]
fn nat_parser_keeps_options_extensions_and_fragments_tunneled() {
    let mut ipv4_options = vec![0u8; 44];
    ipv4_options[0] = 0x46;
    ipv4_options[9] = 6;
    assert!(NatPacket::parse(&ipv4_options).is_none());

    let mut ipv4_fragment = vec![0u8; 28];
    ipv4_fragment[0] = 0x45;
    ipv4_fragment[6..8].copy_from_slice(&0x2000u16.to_be_bytes());
    ipv4_fragment[9] = 17;
    assert!(NatPacket::parse(&ipv4_fragment).is_none());

    let mut ipv6_extension = vec![0u8; 68];
    ipv6_extension[0] = 0x60;
    ipv6_extension[6] = 60;
    ipv6_extension[40] = 17;
    assert!(NatPacket::parse(&ipv6_extension).is_none());

    let mut plain_ipv6_tcp = vec![0u8; 60];
    plain_ipv6_tcp[0] = 0x60;
    plain_ipv6_tcp[6] = 6;
    assert!(NatPacket::parse(&plain_ipv6_tcp).is_some());
}

#[test]
fn nat_parser_reads_addresses_ports_and_checksum_offsets() {
    let packet = udp_ipv4_packet();
    let parsed = NatPacket::parse(&packet).unwrap();
    assert_eq!(parsed.version, 4);
    assert_eq!(parsed.protocol, 17);
    assert_eq!(parsed.source, IpAddress::V4(u32::from_be_bytes(CLIENT_IPV4)));
    assert_eq!(parsed.destination, IpAddress::V4(LOCALHOST_V4));
    assert_eq!(parsed.source_port, 50_007);
    assert_eq!(parsed.destination_port, 53);
    assert_eq!(parsed.transport_offset, 20);
    assert_eq!(parsed.checksum_offset, 26);
    assert!(parsed.checksum_optional);
    let mut dont_fragment = packet.clone();
    dont_fragment[6] = 0x40;
    assert!(NatPacket::parse(&dont_fragment).is_some());
    assert!(NatPacket::parse(&packet[..27]).is_none());
    let mut icmp = packet;
    icmp[9] = 1;
    assert!(NatPacket::parse(&icmp).is_none());
}

#[test]
fn udp_checksum_zero_is_encoded_as_all_ones_after_nat() {
    let old_ip = IpAddress::V6(LOCALHOST_V6);
    let new_ip = IpAddress::V6(GATEWAY_IPV6);
    let old_port = 53;
    let new_port = 60_000;
    let old_bytes = ip_bytes(old_ip);
    let new_bytes = ip_bytes(new_ip);
    let initial_checksum = (1..=u16::MAX)
        .find(|candidate| {
            let mut updated = *candidate;
            for (old, new) in old_bytes.chunks_exact(2).zip(new_bytes.chunks_exact(2)) {
                updated = update_checksum(
                    updated,
                    u16::from_be_bytes([old[0], old[1]]),
                    u16::from_be_bytes([new[0], new[1]]),
                );
            }
            update_checksum(updated, old_port, new_port) == 0
        })
        .expect("checksum yielding positive zero");

    let mut packet = vec![0u8; 48];
    packet[0] = 0x60;
    packet[4..6].copy_from_slice(&8u16.to_be_bytes());
    packet[6] = 17;
    packet[8..24].copy_from_slice(&CLIENT_IPV6.to_be_bytes());
    packet[24..40].copy_from_slice(&LOCALHOST_V6.to_be_bytes());
    packet[40..42].copy_from_slice(&50_006u16.to_be_bytes());
    packet[42..44].copy_from_slice(&old_port.to_be_bytes());
    packet[44..46].copy_from_slice(&8u16.to_be_bytes());
    packet[46..48].copy_from_slice(&initial_checksum.to_be_bytes());
    let parsed = NatPacket::parse(&packet).expect("IPv6 UDP packet");

    assert!(rewrite_destination(&mut packet, &parsed, SocketAddress::new(new_ip, new_port)));
    assert_eq!(read_u16(&packet, parsed.checksum_offset), Some(u16::MAX));
}

#[test]
fn failed_nat_rewrite_never_mutates_the_packet() {
    let mut packet = udp_ipv4_packet();
    let parsed = NatPacket::parse(&packet).expect("valid UDP packet");

    let original = packet.clone();
    assert!(!rewrite_destination(
        &mut packet,
        &parsed,
        SocketAddress::new(IpAddress::V6(GATEWAY_IPV6), 60_000),
    ));
    assert_eq!(packet, original);

    for truncated_length in 0..original.len() {
        let mut truncated = original[..truncated_length].to_vec();
        let before = truncated.clone();
        assert!(!rewrite_destination(
            &mut truncated,
            &parsed,
            SocketAddress::new(IpAddress::V4(GATEWAY_IPV4), 60_000),
        ));
        assert_eq!(truncated, before);
    }
}

#[test]
fn rewrite_keeps_ipv4_header_and_udp_checksums_valid() {
    let mut packet = udp_ipv4_packet();
    let header_checksum = ones_complement_sum(&packet[..20]);
    packet[10..12].copy_from_slice(&header_checksum.to_be_bytes());
    let mut pseudo = Vec::new();
    pseudo.extend_from_slice(&packet[12..20]);
    pseudo.extend_from_slice(&[0, 17, 0, 8]);
    pseudo.extend_from_slice(&packet[20..28]);
    let udp_checksum = ones_complement_sum(&pseudo);
    packet[26..28].copy_from_slice(&udp_checksum.to_be_bytes());

    let parsed = NatPacket::parse(&packet).unwrap();
    let gateway = SocketAddress::new(gateway_ip(false), 60_001);
    assert!(rewrite_destination(&mut packet, &parsed, gateway));

    assert_eq!(&packet[16..20], &GATEWAY_IPV4.to_be_bytes());
    assert_eq!(read_u16(&packet, 22), Some(60_001));
    assert_eq!(ones_complement_sum(&packet[..20]), 0);
    let mut pseudo = Vec::new();
    pseudo.extend_from_slice(&packet[12..20]);
    pseudo.extend_from_slice(&[0, 17, 0, 8]);
    pseudo.extend_from_slice(&packet[20..28]);
    assert_eq!(ones_complement_sum(&pseudo), 0);

    let reparsed = NatPacket::parse(&packet).unwrap();
    assert_eq!(reparsed.destination, IpAddress::V4(GATEWAY_IPV4));
    assert_eq!(reparsed.destination_port, 60_001);
}

#[test]
fn absent_ipv4_udp_checksum_stays_absent() {
    let mut packet = udp_ipv4_packet();
    let parsed = NatPacket::parse(&packet).unwrap();
    let remote = SocketAddress::new(IpAddress::V4(0x0808_0808), 443);
    assert!(rewrite_source(&mut packet, &parsed, remote));
    assert_eq!(read_u16(&packet, 26), Some(0));
    assert_eq!(&packet[12..16], &[8, 8, 8, 8]);
    assert_eq!(read_u16(&packet, 20), Some(443));
}

#[test]
fn checksum_update_follows_rfc_1624() {
    assert_eq!(update_checksum(0xdd2f, 0x5555, 0x3285), 0x0000);
    assert_eq!(update_checksum(0x1234, 0xabcd, 0xabcd), 0x1234);
    assert_eq!(update_checksum(0xffff, 0, 0), 0x0000);
    assert_eq!(ip_bytes(IpAddress::V4(GATEWAY_IPV4)), vec![198, 18, 0, 1]);
    assert_eq!(gateway_ip(true), IpAddress::V6(GATEWAY_IPV6));
}
