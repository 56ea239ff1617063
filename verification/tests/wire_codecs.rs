use bytes::{Bytes, BytesMut};
use usque_transport::capsule::{
    decode_capsule, encode_datagram_batch, encode_datagram_capsule, encode_varint, DATAGRAM_CAPSULE_TYPE,
};
use usque_transport::dns::{decode_response, encode_query, skip_name, validate_name, TYPE_A, TYPE_AAAA};
use usque_transport::datagram_pool::{DatagramEncodePool, HTTP_DATAGRAM_BUFFER_CAPACITY};
use usque_transport::h2_receive::{drain_datagram_capsules, H2_PACKET_QUEUE_CAPACITY};
use usque_transport::http_datagram::{
    decode_http_datagram_bytes, encode_http_datagram, encode_http_datagram_into, DEFAULT_CONTEXT_ID,
};
use usque_transport::net::IpAddress;
use usque_transport::packet::{validate_ip_packet, MAX_CAPSULE_BYTES};
use usque_transport::varint::{decode_varint, encode_varint as encode_quic_varint, encoded_varint_len};
use usque_transport::TransportError;

fn ipv4_packet() -> [u8; 20] {
    [0x45, 0, 0, 20, 0, 0, 0, 0, 64, 17, 0, 0, 1, 1, 1, 1, 8, 8, 8, 8]
}

#[test]
fn encodes_bounded_dns_query() {
    let query = encode_query(0x1234, "example.com", TYPE_A).unwrap();
    assert_eq!(&query[..2], &[0x12, 0x34]);
    assert!(query.windows(7).any(|value| value == b"example"));
    assert_eq!(&query[query.len() - 4..], &[0, 1, 0, 1]);
}

#[test]
fn decodes_a_response_with_compressed_answer_name() {
    let mut response = encode_query(0x1234, "example.com", TYPE_A).unwrap();
    response[2..4].copy_from_slice(&0x8180u16.to_be_bytes());
    response[6..8].copy_from_slice(&1u16.to_be_bytes());
    response.extend_from_slice(&[0xc0, 0x0c, 0, 1, 0, 1, 0, 0, 0, 60, 0, 4, 203, 0, 113, 9]);
    assert_eq!(
        decode_response(&response, 0x1234, TYPE_A).unwrap(),
        vec![IpAddress::V4(u32::from_be_bytes([203, 0, 113, 9]))]
    );
}

#[test]
fn dns_query_has_the_exact_wire_layout() {
    let query = encode_query(0xabcd, "a.bc", TYPE_AAAA).unwrap();
    assert_eq!(
        query,
        vec![
            0xab, 0xcd, 0x01, 0x00, 0, 1, 0, 0, 0, 0, 0, 0, 1, b'a', 2, b'b', b'c', 0, 0, 28, 0, 1
        ]
    );
}

#[test]
fn dns_names_are_bounded_and_well_formed() {
    assert!(validate_name("example.com").is_ok());
    assert!(validate_name("").is_err());
    assert!(validate_name("a..b").is_err());
    assert!(validate_name(&"a".repeat(64)).is_err());
    assert!(validate_name(&"a".repeat(63)).is_ok());
    assert!(validate_name("exa mple.com").is_err());
    assert!(encode_query(1, "bad..name", TYPE_A).is_err());
}

#[test]
fn dns_response_with_a_foreign_transaction_id_is_refused() {
    let mut response = encode_query(0x1234, "example.com", TYPE_A).unwrap();
    response[2..4].copy_from_slice(&0x8180u16.to_be_bytes());
    response[6..8].copy_from_slice(&1u16.to_be_bytes());
    response.extend_from_slice(&[0xc0, 0x0c, 0, 1, 0, 1, 0, 0, 0, 60, 0, 4, 203, 0, 113, 9]);
    assert!(decode_response(&response, 0x4321, TYPE_A).is_err());
    assert!(decode_response(&response[..5], 0x1234, TYPE_A).is_err());
}

#[test]
fn dns_aaaa_answers_decode_to_ipv6() {
    let mut response = encode_query(7, "example.com", TYPE_AAAA).unwrap();
    response[2..4].copy_from_slice(&0x8180u16.to_be_bytes());
    response[6..8].copy_from_slice(&1u16.to_be_bytes());
    response.extend_from_slice(&[0xc0, 0x0c, 0, 28, 0, 1, 0, 0, 0, 60, 0, 16]);
    let address: [u8; 16] = [0x20, 0x01, 0x0d, 0xb8, 0, 0, 0, 0, 0, 0, 0, 0, 0, 0, 0, 1];
    response.extend_from_slice(&address);
    assert_eq!(
        decode_response(&response, 7, TYPE_AAAA).unwrap(),
        vec![IpAddress::V6(u128::from_be_bytes(address))]
    );
}

#[test]
fn capsule_codec_handles_fragmentation_and_coalescing() {
    let packet_v4 = [0x45, 0, 0, 20, 0, 0, 0, 0, 64, 17, 0, 0, 1, 1, 1, 1, 8, 8, 8, 8];
    let packet_v6 = {
        let mut packet = [0u8; 40];
        packet[0] = 0x60;
        packet
    };
    let mut encoded = BytesMut::new();
    encode_varint(0, &mut encoded).unwrap();
    encode_varint(packet_v4.len() as u64, &mut encoded).unwrap();
    encoded.extend_from_slice(&packet_v4);
    encode_varint(0, &mut encoded).unwrap();
    encode_varint(packet_v6.len() as u64, &mut encoded).unwrap();
    encoded.extend_from_slice(&packet_v6);

    assert_eq!(decode_capsule(&encoded[..1]).unwrap(), None);
    let (_, first, consumed) = decode_capsule(&encoded).unwrap().unwrap();
    assert_eq!(first.as_ref(), packet_v4);
    let (_, second, _) = decode_capsule(&encoded[consumed..]).unwrap().unwrap();
    assert_eq!(second.as_ref(), packet_v6);
}

#[test]
fn h2_batch_preserves_packet_order_and_capsule_wire_format() {
    let mut ipv4 = vec![0u8; 20];
    ipv4[0] = 0x45;
    ipv4[2..4].copy_from_slice(&20_u16.to_be_bytes());
    ipv4[8] = 64;
    ipv4[9] = 17;
    let mut ipv6 = vec![0u8; 40];
    ipv6[0] = 0x60;
    ipv6[7] = 64;

    let batch = vec![Bytes::from(ipv4.clone()), Bytes::from(ipv6.clone())];
    let (encoded, accepted_bytes) = encode_datagram_batch(&batch).unwrap();
    assert_eq!(accepted_bytes, ipv4.len() + ipv6.len());

    let (first_type, first, consumed) = decode_capsule(&encoded).unwrap().unwrap();
    assert_eq!(first_type, DATAGRAM_CAPSULE_TYPE);
    assert_eq!(first.as_ref(), ipv4);
    let (second_type, second, final_consumed) = decode_capsule(&encoded[consumed..]).unwrap().unwrap();
    assert_eq!(second_type, DATAGRAM_CAPSULE_TYPE);
    assert_eq!(second.as_ref(), ipv6);
    assert_eq!(consumed + final_consumed, encoded.len());
}

#[test]
fn datagram_capsule_has_type_length_and_packet() {
    let packet = ipv4_packet();
    let capsule = encode_datagram_capsule(&packet).unwrap();
    let mut expected = vec![0, 20];
    expected.extend_from_slice(&packet);
    assert_eq!(capsule.as_ref(), expected.as_slice());
    let batch = vec![Bytes::from(packet.to_vec()), Bytes::from_static(&[0x45, 0, 0])];
    assert!(matches!(encode_datagram_batch(&batch), Err(TransportError::MalformedIpPacket)));
}

#[test]
fn varint_round_trips_boundaries() {
    for value in [
        0,
        63,
        64,
        16_383,
        16_384,
        1_073_741_823,
        1_073_741_824,
        4_611_686_018_427_387_903,
    ] {
        let mut encoded = BytesMut::new();
        encode_varint(value, &mut encoded).unwrap();
        assert_eq!(decode_varint(&encoded).unwrap(), Some((value, encoded.len())));
    }
}

#[test]
fn quic_varint_round_trips_boundaries() {
    for value in [
        0,
        63,
        64,
        16_383,
        16_384,
        1_073_741_823,
        1_073_741_824,
        4_611_686_018_427_387_903,
    ] {
        let mut encoded = Vec::new();
        usque_transport::varint::encode_varint(value, &mut encoded).unwrap();
        assert_eq!(decode_varint(&encoded).unwrap(), Some((value, encoded.len())));
    }
}

#[test]
fn varint_lengths_and_limit() {
    assert_eq!(encoded_varint_len(63).unwrap(), 1);
    assert_eq!(encoded_varint_len(64).unwrap(), 2);
    assert_eq!(encoded_varint_len(16_384).unwrap(), 4);
    assert_eq!(encoded_varint_len(1_073_741_824).unwrap(), 8);
    assert!(encoded_varint_len(4_611_686_018_427_387_904).is_err());
    let mut encoded = Vec::new();
    assert!(usque_transport::varint::encode_varint(u64::MAX, &mut encoded).is_err());
    assert!(encoded.is_empty());
    assert_eq!(decode_varint(&[0x40]).unwrap(), None);
    assert_eq!(decode_varint(&[0x40, 0x25]).unwrap(), Some((37, 2)));
}

#[test]
fn rejects_oversized_capsules_before_allocation() {
    let mut encoded = BytesMut::new();
    encode_varint(0, &mut encoded).unwrap();
    encode_varint((MAX_CAPSULE_BYTES + 1) as u64, &mut encoded).unwrap();
    assert!(matches!(decode_capsule(&encoded), Err(TransportError::CapsuleTooLarge)));
}

#[test]
fn packet_validation_accepts_icmp_and_rejects_length_mismatch() {
    let mut ipv4_icmp = [0u8; 28];
    ipv4_icmp[0] = 0x45;
    ipv4_icmp[2..4].copy_from_slice(&28_u16.to_be_bytes());
    ipv4_icmp[8] = 64;
    ipv4_icmp[9] = 1;
    assert!(validate_ip_packet(&ipv4_icmp).is_ok());
    ipv4_icmp[3] -= 1;
    assert!(matches!(validate_ip_packet(&ipv4_icmp), Err(TransportError::MalformedIpPacket)));

    let mut ipv6_icmp = [0u8; 48];
    ipv6_icmp[0] = 0x60;
    ipv6_icmp[4..6].copy_from_slice(&8u16.to_be_bytes());
    ipv6_icmp[6] = 58;
    ipv6_icmp[7] = 64;
    assert!(validate_ip_packet(&ipv6_icmp).is_ok());
}

#[test]
fn http_datagram_contains_quarter_stream_and_context_ids() {
    let packet = ipv4_packet();
    let mut encoded = Vec::new();
    encode_http_datagram_into(8, &packet, 1_500, &mut encoded).unwrap();
    assert_eq!(decode_varint(&encoded).unwrap(), Some((2, 1)));
    assert_eq!(decode_varint(&encoded[1..]).unwrap(), Some((0, 1)));
    let received = Bytes::from(encoded.clone());
    assert_eq!(decode_http_datagram_bytes(8, received.clone()).unwrap().unwrap().as_ref(), packet);
    assert!(decode_http_datagram_bytes(4, received).unwrap().is_none());
}

#[test]
fn http_datagram_refuses_invalid_packets_and_small_buffers() {
    let packet = ipv4_packet();
    let mut encoded = Vec::new();
    assert!(encode_http_datagram_into(8, &packet[..10], 1_500, &mut encoded).is_err());
    assert!(encode_http_datagram_into(8, &packet, 21, &mut encoded).is_err());
    assert!(encoded.is_empty());
    assert!(matches!(
        decode_http_datagram_bytes(8, Bytes::from_static(&[0x40])),
        Err(TransportError::MalformedIpPacket)
    ));
}

fn ipv4_packet_with_length(length: usize) -> Vec<u8> {
    assert!((20..=u16::MAX as usize).contains(&length));
    let mut packet = vec![0_u8; length];
    packet[0] = 0x45;
    packet[2..4].copy_from_slice(&(length as u16).to_be_bytes());
    packet[8] = 64;
    packet[9] = 17;
    packet[12..16].copy_from_slice(&[1, 1, 1, 1]);
    packet[16..20].copy_from_slice(&[8, 8, 8, 8]);
    packet
}

fn encode_for_test(stream_id: u64, packet: &[u8]) -> Vec<u8> {
    let mut pool = DatagramEncodePool::new();
    encode_http_datagram(&mut pool, stream_id, packet).unwrap().expect("test encode pool has capacity")
}

fn raw_capsule(capsule_type: u64, payload: &[u8]) -> Vec<u8> {
    let mut encoded = BytesMut::new();
    encode_varint(capsule_type, &mut encoded).unwrap();
    encode_varint(payload.len() as u64, &mut encoded).unwrap();
    encoded.extend_from_slice(payload);
    encoded.to_vec()
}

#[test]
fn streaming_capsule_take_is_transactional_until_a_frame_is_complete() {
    let first = raw_capsule(42, b"first");
    let second = raw_capsule(43, b"second");
    let split = first.len() - 1;
    let mut buffer = first[..split].to_vec();
    let incomplete = buffer.clone();
    let mut packets = Vec::new();

    assert!(drain_datagram_capsules(&mut buffer, &mut packets).unwrap().is_none());
    assert_eq!(buffer, incomplete);

    buffer.extend_from_slice(&first[split..]);
    buffer.extend_from_slice(&second);
    assert!(matches!(
        drain_datagram_capsules(&mut buffer, &mut packets).unwrap(),
        Some((42, payload)) if payload == Bytes::from_static(b"first")
    ));
    assert!(matches!(
        drain_datagram_capsules(&mut buffer, &mut packets).unwrap(),
        Some((43, payload)) if payload == Bytes::from_static(b"second")
    ));
    assert!(buffer.is_empty());
}

#[test]
fn drained_datagram_capsules_return_the_sent_packets_in_order() {
    let first = ipv4_packet_with_length(20);
    let second = ipv4_packet_with_length(60);
    let (encoded, _) =
        encode_datagram_batch(&[Bytes::from(first.clone()), Bytes::from(second.clone())]).unwrap();
    let mut buffer = encoded.to_vec();
    let mut packets = Vec::new();
    assert!(drain_datagram_capsules(&mut buffer, &mut packets).unwrap().is_none());
    assert_eq!(packets, vec![Bytes::from(first), Bytes::from(second)]);
    assert!(buffer.is_empty());
}

#[test]
fn unknown_capsule_between_datagrams_stops_the_drain_without_desync() {
    let packet = ipv4_packet_with_length(20);
    let mut buffer = raw_capsule(DATAGRAM_CAPSULE_TYPE, &packet);
    buffer.extend_from_slice(&raw_capsule(0x1234, b"control"));
    buffer.extend_from_slice(&raw_capsule(DATAGRAM_CAPSULE_TYPE, &packet));
    let mut packets = Vec::new();

    let stop = drain_datagram_capsules(&mut buffer, &mut packets).unwrap();
    assert!(matches!(stop, Some((0x1234, payload)) if payload == Bytes::from_static(b"control")));
    assert_eq!(packets.len(), 1);
    assert!(drain_datagram_capsules(&mut buffer, &mut packets).unwrap().is_none());
    assert_eq!(packets.len(), 2);
    assert_eq!(packets[1].as_ref(), packet.as_slice());
    assert!(buffer.is_empty());
}

#[test]
fn packet_queue_stops_at_its_bound_without_consuming_the_tail() {
    let packet = ipv4_packet_with_length(20);
    let capsule = raw_capsule(DATAGRAM_CAPSULE_TYPE, &packet);
    let mut buffer = Vec::new();
    for _ in 0..=H2_PACKET_QUEUE_CAPACITY {
        buffer.extend_from_slice(&capsule);
    }
    let mut packets = Vec::new();
    assert!(drain_datagram_capsules(&mut buffer, &mut packets).unwrap().is_none());
    assert_eq!(packets.len(), H2_PACKET_QUEUE_CAPACITY);
    assert_eq!(buffer, capsule);
}

#[test]
fn complete_malformed_datagram_capsule_is_consumed_as_a_terminal_error() {
    let mut buffer = raw_capsule(DATAGRAM_CAPSULE_TYPE, &[0x45, 0, 0]);
    buffer.extend_from_slice(&[0, 1]);
    let mut packets = Vec::new();
    assert!(matches!(
        drain_datagram_capsules(&mut buffer, &mut packets),
        Err(TransportError::MalformedIpPacket)
    ));
    assert_eq!(buffer, vec![0, 1]);
    assert!(packets.is_empty());

    let mut oversized = BytesMut::new();
    encode_varint(DATAGRAM_CAPSULE_TYPE, &mut oversized).unwrap();
    encode_varint(MAX_CAPSULE_BYTES as u64 + 1, &mut oversized).unwrap();
    let mut buffer = oversized.to_vec();
    assert!(matches!(drain_datagram_capsules(&mut buffer, &mut packets), Err(TransportError::CapsuleTooLarge)));
    assert_eq!(buffer, oversized.to_vec());
}

#[test]
fn http_datagram_encoding_matches_protocol_composition() {
    let packet = ipv4_packet();
    for quarter_stream_id in [0, 63, 64, 16_383, 16_384, 1_073_741_823, 1_073_741_824, (1_u64 << 60) - 1] {
        let stream_id = quarter_stream_id * 4;
        let mut payload = Vec::new();
        encode_quic_varint(DEFAULT_CONTEXT_ID, &mut payload).unwrap();
        payload.extend_from_slice(&packet);
        let mut reference = Vec::with_capacity(payload.len() + 8);
        encode_quic_varint(quarter_stream_id, &mut reference).unwrap();
        reference.extend_from_slice(&payload);

        assert_eq!(encode_for_test(stream_id, &packet), reference);
    }
}

#[test]
fn owned_http_datagram_decode_reuses_the_receive_allocation() {
    let packet = ipv4_packet();
    let encoded = encode_for_test(8, &packet);
    let received = Bytes::from(encoded.to_vec());
    let allocation = received.as_ptr() as usize;
    let (_, stream_prefix) = decode_varint(&received).unwrap().unwrap();
    let (_, context_prefix) = decode_varint(&received[stream_prefix..]).unwrap().unwrap();
    let expected_payload = allocation + stream_prefix + context_prefix;

    let decoded = decode_http_datagram_bytes(8, received).unwrap().unwrap();
    assert_eq!(decoded.as_ptr() as usize, expected_payload);
    assert_eq!(decoded.as_ref(), packet);
}

#[test]
fn encode_pool_handles_maximum_empty_and_oversized_packets() {
    let mut pool = DatagramEncodePool::new();
    assert!(encode_http_datagram(&mut pool, 0, &[]).is_err());

    let maximum = ipv4_packet_with_length(HTTP_DATAGRAM_BUFFER_CAPACITY - 2);
    let encoded = encode_http_datagram(&mut pool, 0, &maximum).unwrap().expect("pool has one buffer");
    assert_eq!(encoded.len(), HTTP_DATAGRAM_BUFFER_CAPACITY);
    drop(encoded);

    let oversized = ipv4_packet_with_length(HTTP_DATAGRAM_BUFFER_CAPACITY - 1);
    assert!(encode_http_datagram(&mut pool, 0, &oversized).is_err());
}

#[test]
fn invalid_dns_names_carry_the_fixed_text_and_skipping_past_the_end_fails() {
    assert!(matches!(validate_name("bad..name"), Err(TransportError::Dns(message)) if message == "invalid DNS name"));
    assert!(matches!(encode_query(1, "", TYPE_A), Err(TransportError::Dns(message)) if message == "invalid DNS name"));
    let packet = [3_u8, b'a', b'b', b'c', 0];
    assert_eq!(skip_name(&packet, 0).unwrap(), 5);
    assert!(skip_name(&packet, 5).is_err());
    assert!(skip_name(&packet, 99).is_err());
}
