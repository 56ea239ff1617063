//! Structural validation of the raw IP packets carried in CONNECT-IP
//! datagrams.

use vstd::prelude::*;

use crate::error::TransportError;

verus! {

/// The largest packet a CONNECT-IP capsule or datagram carries.
pub const MAX_CAPSULE_BYTES: usize = 65_535;

/// The big-endian 16-bit value at `offset`.
pub open spec fn be16(bytes: Seq<u8>, offset: int) -> int {
    bytes[offset] as int * 256 + bytes[offset + 1] as int
}

/// An IPv4 packet whose header length is at least 20 bytes, fits in the
/// packet, and whose total-length field is exactly the packet length.
pub open spec fn spec_valid_ipv4_packet(packet: Seq<u8>) -> bool {
    let header_length = (packet[0] % 16) as int * 4;
    &&& packet.len() >= 20
    &&& header_length >= 20
    &&& header_length <= packet.len()
    &&& be16(packet, 2) >= header_length
    &&& be16(packet, 2) == packet.len()
}

/// An IPv6 packet whose payload-length field accounts for every byte after
/// the fixed 40-byte header.
pub open spec fn spec_valid_ipv6_packet(packet: Seq<u8>) -> bool {
    &&& packet.len() >= 40
    &&& 40 + be16(packet, 4) == packet.len()
}

/// A non-empty packet of at most `MAX_CAPSULE_BYTES` bytes that is a
/// consistent IPv4 or IPv6 packet according to its version nibble.
pub open spec fn spec_valid_ip_packet(packet: Seq<u8>) -> bool {
    &&& packet.len() >= 1
    &&& packet.len() <= MAX_CAPSULE_BYTES
    &&& if packet[0] / 16 == 4 {
        spec_valid_ipv4_packet(packet)
    } else if packet[0] / 16 == 6 {
        spec_valid_ipv6_packet(packet)
    } else {
        false
    }
}

/// Law: an IPv6 packet is accepted exactly when its length is 40 to 65535
/// bytes and the big-endian payload-length field in bytes 4 and 5 counts
/// every byte after the 40-byte header.
pub proof fn lemma_ipv6_validity(packet: Seq<u8>)
    requires
        packet.len() >= 1,
        packet[0] / 16 == 6,
    ensures
        spec_valid_ip_packet(packet) <==> (40 <= packet.len() <= 65535 && packet[4] as int * 256
            + packet[5] as int == packet.len() - 40),
{
}

/// Law: every IPv6 header that announces `payload.len()` bytes of payload,
/// followed by exactly that payload, is accepted, for every payload length
/// up to 65495.
pub proof fn lemma_ipv6_packet_with_its_payload_is_valid(header: Seq<u8>, payload: Seq<u8>)
    requires
        header.len() == 40,
        header[0] / 16 == 6,
        payload.len() <= 65495,
        header[4] as int == payload.len() / 256,
        header[5] as int == payload.len() % 256,
    ensures
        spec_valid_ip_packet(header + payload),
{
    let packet = header + payload;
    assert(packet[0] == header[0] && packet[4] == header[4] && packet[5] == header[5]);
}

/// Law: an IPv4 packet is accepted exactly when its header length (the low
/// nibble of byte 0, in 32-bit words) is at least 20 bytes and within the
/// packet, and its big-endian total-length field in bytes 2 and 3 is the
/// packet's length, of at most 65535 bytes.
pub proof fn lemma_ipv4_validity(packet: Seq<u8>)
    requires
        packet.len() >= 1,
        packet[0] / 16 == 4,
    ensures
        spec_valid_ip_packet(packet) <==> (20 <= packet.len() <= 65535 && 20 <= (packet[0] % 16) as int * 4
            <= packet.len() && packet[2] as int * 256 + packet[3] as int == packet.len()),
{
}

/// Accepts exactly the packets described by `spec_valid_ip_packet`; every
/// other input is `MalformedIpPacket`.
pub fn validate_ip_packet(packet: &[u8]) -> (result: Result<(), TransportError>)
    ensures
        result is Ok <==> spec_valid_ip_packet(packet@),
        result is Err ==> (result matches Err(TransportError::MalformedIpPacket)),
{
    if packet.len() == 0 {
        return Err(TransportError::MalformedIpPacket);
    }
    let first = packet[0];
    if packet.len() > MAX_CAPSULE_BYTES {
        return Err(TransportError::MalformedIpPacket);
    }
    let version = first >> 4u8;
    assert(version == first / 16) by (bit_vector)
        requires
            version == first >> 4u8,
    ;
    if version == 4 {
        if packet.len() < 20 {
            return Err(TransportError::MalformedIpPacket);
        }
        let low = first & 0x0f;
        assert(low == first % 16) by (bit_vector)
            requires
                low == first & 0x0f,
        ;
        let header_length = (low as usize) * 4;
        let total_length = (packet[2] as usize) * 256 + (packet[3] as usize);
        if header_length < 20 || header_length > packet.len() || total_length < header_length
            || total_length != packet.len() {
            return Err(TransportError::MalformedIpPacket);
        }
        Ok(())
    } else if version == 6 {
        if packet.len() < 40 {
            return Err(TransportError::MalformedIpPacket);
        }
        let payload_length = (packet[4] as usize) * 256 + (packet[5] as usize);
        if 40 + payload_length != packet.len() {
            return Err(TransportError::MalformedIpPacket);
        }
        Ok(())
    } else {
        Err(TransportError::MalformedIpPacket)
    }
}

} // verus!
