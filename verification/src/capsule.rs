//! HTTP Capsule Protocol framing for CONNECT-IP over HTTP/2: each capsule is
//! a varint type, a varint payload length and the payload. IP packets travel
//! as DATAGRAM capsules (type 0).

use vstd::prelude::*;

use bytes::{Bytes, BytesMut};

use crate::buffers::{
    bytes_as_slice, bytes_copy_from_slice, bytes_mut_extend, bytes_mut_freeze,
    bytes_mut_view, bytes_mut_with_capacity, bytes_view,
};
use crate::error::TransportError;
use crate::packet::{MAX_CAPSULE_BYTES, spec_valid_ip_packet, validate_ip_packet};
use crate::varint::{
    MAX_VARINT, decode_varint, lemma_varint_round_trip, spec_decode_varint, spec_varint_bytes,
    spec_varint_len,
};

verus! {

/// The capsule type of an HTTP DATAGRAM capsule.
pub const DATAGRAM_CAPSULE_TYPE: u64 = 0;

/// The wire form of one capsule.
pub open spec fn spec_capsule_bytes(capsule_type: u64, payload: Seq<u8>) -> Seq<u8> {
    spec_varint_bytes(capsule_type) + spec_varint_bytes(payload.len() as u64) + payload
}

/// The DATAGRAM capsules of `packets`, in order.
pub open spec fn spec_datagram_capsules(packets: Seq<Seq<u8>>) -> Seq<u8>
    decreases packets.len(),
{
    if packets.len() == 0 {
        Seq::empty()
    } else {
        spec_datagram_capsules(packets.drop_last()) + spec_capsule_bytes(
            DATAGRAM_CAPSULE_TYPE,
            packets.last(),
        )
    }
}

/// The total number of bytes in `packets`.
pub open spec fn spec_total_len(packets: Seq<Seq<u8>>) -> int
    decreases packets.len(),
{
    if packets.len() == 0 {
        0
    } else {
        spec_total_len(packets.drop_last()) + packets.last().len()
    }
}

/// The bytes of each packet in a batch.
pub open spec fn batch_view(batch: Seq<Bytes>) -> Seq<Seq<u8>> {
    batch.map_values(|packet: Bytes| bytes_view(packet))
}

/// The type, header length and payload length announced at the start of
/// `buffer`, once both varints are complete.
pub open spec fn spec_capsule_header(buffer: Seq<u8>) -> Option<(u64, int, int)> {
    match spec_decode_varint(buffer) {
        None => None,
        Some((capsule_type, type_length)) => match spec_decode_varint(
            buffer.subrange(type_length as int, buffer.len() as int),
        ) {
            None => None,
            Some((payload_length, length_length)) => Some(
                (capsule_type, type_length + length_length, payload_length as int),
            ),
        },
    }
}

/// Appends the canonical varint encoding of `value` to an HTTP/2 send buffer.
pub fn encode_varint(value: u64, target: &mut BytesMut) -> (result: Result<(), TransportError>)
    requires
        bytes_mut_view(*old(target)).len() + 8 <= isize::MAX,
    ensures
        value <= MAX_VARINT ==> result is Ok && bytes_mut_view(*final(target)) == bytes_mut_view(
            *old(target),
        ) + spec_varint_bytes(value),
        value > MAX_VARINT ==> (result matches Err(TransportError::InvalidVarint)),
        value > MAX_VARINT ==> bytes_mut_view(*final(target)) == bytes_mut_view(*old(target)),
{
    let mut encoded: Vec<u8> = Vec::new();
    crate::varint::encode_varint(value, &mut encoded)?;
    assert(encoded@.len() <= 8);
    bytes_mut_extend(target, encoded.as_slice());
    Ok(())
}

/// Appends one DATAGRAM capsule carrying `packet`.
pub fn encode_datagram_capsule_into(packet: &[u8], encoded: &mut BytesMut) -> (result: Result<
    (),
    TransportError,
>)
    requires
        bytes_mut_view(*old(encoded)).len() + packet@.len() + 16 <= isize::MAX,
    ensures
        packet@.len() <= MAX_VARINT ==> result is Ok && bytes_mut_view(*final(encoded))
            == bytes_mut_view(*old(encoded)) + spec_capsule_bytes(DATAGRAM_CAPSULE_TYPE, packet@),
        packet@.len() > MAX_VARINT ==> (result matches Err(TransportError::InvalidVarint)),
{
    encode_varint(DATAGRAM_CAPSULE_TYPE, encoded)?;
    encode_varint(packet.len() as u64, encoded)?;
    bytes_mut_extend(encoded, packet);
    assert(bytes_mut_view(*encoded) =~= bytes_mut_view(*old(encoded)) + spec_capsule_bytes(
        DATAGRAM_CAPSULE_TYPE,
        packet@,
    ));
    Ok(())
}

/// One DATAGRAM capsule carrying `packet`, in a buffer of its own.
pub fn encode_datagram_capsule(packet: &[u8]) -> (result: Result<Bytes, TransportError>)
    requires
        packet@.len() + 16 <= isize::MAX,
    ensures
        packet@.len() <= MAX_VARINT ==> (result matches Ok(capsule) && bytes_view(capsule)
            == spec_capsule_bytes(DATAGRAM_CAPSULE_TYPE, packet@)),
        packet@.len() > MAX_VARINT ==> (result matches Err(TransportError::InvalidVarint)),
{
    let mut encoded = bytes_mut_with_capacity(packet.len() + 16);
    encode_datagram_capsule_into(packet, &mut encoded)?;
    Ok(bytes_mut_freeze(encoded))
}

/// Encodes a batch of IP packets as consecutive DATAGRAM capsules, in order,
/// together with the number of packet bytes accepted. Any packet that is not
/// a valid IP packet rejects the whole batch.
pub fn encode_datagram_batch(batch: &[Bytes]) -> (result: Result<(Bytes, usize), TransportError>)
    requires
        spec_total_len(batch_view(batch@)) + 16 * batch@.len() <= isize::MAX,
    ensures
        result is Ok <==> forall|index: int|
            0 <= index < batch@.len() ==> spec_valid_ip_packet(#[trigger] bytes_view(batch@[index])),
        result is Err ==> (result matches Err(TransportError::MalformedIpPacket)),
        result matches Ok((encoded, accepted_bytes)) ==> bytes_view(encoded)
            == spec_datagram_capsules(batch_view(batch@)) && accepted_bytes == spec_total_len(
            batch_view(batch@),
        ),
{
    let ghost packets = batch_view(batch@);
    let mut accepted_bytes: usize = 0;
    let mut index: usize = 0;
    while index < batch.len()
        invariant
            index <= batch@.len(),
            packets == batch_view(batch@),
            spec_total_len(packets) + 16 * batch@.len() <= isize::MAX,
            accepted_bytes == spec_total_len(packets.take(index as int)),
        decreases batch@.len() - index,
    {
        proof {
            lemma_total_len_prefix(packets, index as int + 1);
            assert(packets.take(index as int + 1).drop_last() =~= packets.take(index as int));
        }
        let packet = bytes_as_slice(&batch[index]);
        accepted_bytes = accepted_bytes + packet.len();
        index += 1;
    }
    assert(packets.take(batch@.len() as int) =~= packets);
    let mut encoded = bytes_mut_with_capacity(accepted_bytes + 16 * batch.len());
    let mut index: usize = 0;
    while index < batch.len()
        invariant
            index <= batch@.len(),
            packets == batch_view(batch@),
            spec_total_len(packets) + 16 * batch@.len() <= isize::MAX,
            forall|earlier: int|
                0 <= earlier < index ==> spec_valid_ip_packet(#[trigger] packets[earlier]),
            bytes_mut_view(encoded) == spec_datagram_capsules(packets.take(index as int)),
        decreases batch@.len() - index,
    {
        let packet = bytes_as_slice(&batch[index]);
        let valid = validate_ip_packet(packet);
        if valid.is_err() {
            return Err(TransportError::MalformedIpPacket);
        }
        proof {
            lemma_capsules_len_bound(packets, index as int);
        }
        let result = encode_datagram_capsule_into(packet, &mut encoded);
        assert(result is Ok);
        proof {
            assert(packets.take(index as int + 1).drop_last() =~= packets.take(index as int));
        }
        index += 1;
    }
    assert(packets.take(batch@.len() as int) =~= packets);
    assert forall|index: int| 0 <= index < batch@.len() implies spec_valid_ip_packet(
        #[trigger] bytes_view(batch@[index]),
    ) by {
        assert(packets[index] == bytes_view(batch@[index]));
    }
    Ok((bytes_mut_freeze(encoded), accepted_bytes))
}

/// The total length of a prefix never exceeds the total length.
proof fn lemma_total_len_prefix(packets: Seq<Seq<u8>>, count: int)
    requires
        0 <= count <= packets.len(),
    ensures
        spec_total_len(packets.take(count)) <= spec_total_len(packets),
        spec_total_len(packets.take(count)) >= 0,
    decreases packets.len(),
{
    if packets.len() == 0 {
        assert(packets.take(count) =~= packets);
    } else if count == packets.len() {
        assert(packets.take(count) =~= packets);
        lemma_total_len_prefix(packets.drop_last(), count - 1);
    } else {
        assert(packets.take(count) =~= packets.drop_last().take(count));
        lemma_total_len_prefix(packets.drop_last(), count);
    }
}

/// While every packet so far is a valid IP packet, the capsules of the first
/// `count` packets stay within their packet bytes plus sixteen per packet.
proof fn lemma_capsules_len_bound(packets: Seq<Seq<u8>>, count: int)
    requires
        0 <= count < packets.len(),
        forall|earlier: int| 0 <= earlier <= count ==> spec_valid_ip_packet(#[trigger] packets[earlier]),
    ensures
        spec_datagram_capsules(packets.take(count)).len() + packets[count].len() + 16
            <= spec_total_len(packets) + 16 * packets.len(),
    decreases count,
{
    lemma_capsules_len_prefix(packets, count);
    lemma_total_len_prefix(packets, count + 1);
    assert(packets.take(count + 1).drop_last() =~= packets.take(count));
}

/// The capsules of the first `count` valid packets take at most their bytes
/// plus sixteen per packet.
proof fn lemma_capsules_len_prefix(packets: Seq<Seq<u8>>, count: int)
    requires
        0 <= count <= packets.len(),
        forall|earlier: int| 0 <= earlier < count ==> spec_valid_ip_packet(#[trigger] packets[earlier]),
    ensures
        spec_datagram_capsules(packets.take(count)).len() <= spec_total_len(packets.take(count))
            + 16 * count,
    decreases count,
{
    if count > 0 {
        let prefix = packets.take(count);
        assert(prefix.drop_last() =~= packets.take(count - 1));
        lemma_capsules_len_prefix(packets, count - 1);
        assert(spec_valid_ip_packet(packets[count - 1]));
        assert(spec_varint_len(prefix.last().len() as u64) <= 8);
    }
}

/// Reads one capsule from the start of `buffer`: its type, a copy of its
/// payload and the number of bytes it occupies. `None` while more bytes are
/// needed; a payload above `MAX_CAPSULE_BYTES` is rejected before any copy.
pub fn decode_capsule(buffer: &[u8]) -> (result: Result<Option<(u64, Bytes, usize)>, TransportError>)
    ensures
        spec_capsule_header(buffer@) is None ==> result == Ok::<
            Option<(u64, Bytes, usize)>,
            TransportError,
        >(None),
        spec_capsule_header(buffer@) matches Some((capsule_type, header_length, payload_length))
            ==> {
            &&& payload_length > MAX_CAPSULE_BYTES ==> (result matches Err(
                TransportError::CapsuleTooLarge,
            ))
            &&& payload_length <= MAX_CAPSULE_BYTES && header_length + payload_length
                > buffer@.len() ==> result == Ok::<Option<(u64, Bytes, usize)>, TransportError>(
                None,
            )
            &&& payload_length <= MAX_CAPSULE_BYTES && header_length + payload_length
                <= buffer@.len() ==> (result matches Ok(Some((decoded_type, payload, total)))
                && decoded_type == capsule_type && total == header_length + payload_length
                && bytes_view(payload) == buffer@.subrange(header_length, total as int))
        },
{
    let Some((capsule_type, type_length)) = decode_varint(buffer)? else {
        return Ok(None);
    };
    let rest = slice_from(buffer, type_length);
    let Some((payload_length, length_length)) = decode_varint(rest)? else {
        return Ok(None);
    };
    if payload_length > MAX_CAPSULE_BYTES as u64 {
        return Err(TransportError::CapsuleTooLarge);
    }
    let payload_length = payload_length as usize;
    let header_length = type_length + length_length;
    let total_length = header_length + payload_length;
    if buffer.len() < total_length {
        return Ok(None);
    }
    let payload = bytes_copy_from_slice(slice_range(buffer, header_length, total_length));
    Ok(Some((capsule_type, payload, total_length)))
}

/// `buffer[start..]`.
fn slice_from(buffer: &[u8], start: usize) -> (rest: &[u8])
    requires
        start <= buffer@.len(),
    ensures
        rest@ == buffer@.subrange(start as int, buffer@.len() as int),
{
    slice_range(buffer, start, buffer.len())
}

/// `buffer[start..end]`.
fn slice_range(buffer: &[u8], start: usize, end: usize) -> (part: &[u8])
    requires
        start <= end <= buffer@.len(),
    ensures
        part@ == buffer@.subrange(start as int, end as int),
{
    vstd::slice::slice_subrange(buffer, start, end)
}

/// A DATAGRAM capsule decodes back to its packet, whatever follows it.
pub proof fn lemma_datagram_capsule_round_trip(packet: Seq<u8>, rest: Seq<u8>)
    requires
        packet.len() <= MAX_CAPSULE_BYTES,
    ensures
        spec_capsule_header(spec_capsule_bytes(DATAGRAM_CAPSULE_TYPE, packet) + rest) == Some(
            (
                DATAGRAM_CAPSULE_TYPE,
                1 + spec_varint_len(packet.len() as u64),
                packet.len() as int,
            ),
        ),
        (spec_capsule_bytes(DATAGRAM_CAPSULE_TYPE, packet) + rest).subrange(
            1 + spec_varint_len(packet.len() as u64),
            spec_capsule_bytes(DATAGRAM_CAPSULE_TYPE, packet).len() as int,
        ) == packet,
        spec_capsule_bytes(DATAGRAM_CAPSULE_TYPE, packet).len() == 1 + spec_varint_len(
            packet.len() as u64,
        ) + packet.len(),
{
    let type_bytes = spec_varint_bytes(DATAGRAM_CAPSULE_TYPE);
    let length_bytes = spec_varint_bytes(packet.len() as u64);
    let wire = spec_capsule_bytes(DATAGRAM_CAPSULE_TYPE, packet) + rest;
    assert(type_bytes.len() == 1);
    assert(wire =~= type_bytes + (length_bytes + packet + rest));
    lemma_varint_round_trip(DATAGRAM_CAPSULE_TYPE, length_bytes + packet + rest);
    assert(wire.subrange(1, wire.len() as int) =~= length_bytes + (packet + rest));
    lemma_varint_round_trip(packet.len() as u64, packet + rest);
    assert(wire.subrange(1 + length_bytes.len() as int, (1 + length_bytes.len() + packet.len()) as int)
        =~= packet);
}

} // verus!
