//! HTTP Datagrams for CONNECT-IP over HTTP/3 (RFC 9297, RFC 9484): a
//! quarter-stream-id varint, a context-id varint and the IP packet.

use vstd::prelude::*;

use bytes::Bytes;

use crate::buffers::{bytes_as_slice, bytes_slice, bytes_view};
use crate::datagram_pool::{DatagramEncodePool, HTTP_DATAGRAM_BUFFER_CAPACITY, HTTP_DATAGRAM_ENCODE_POOL_LIMIT};
use crate::error::TransportError;
use crate::packet::{spec_valid_ip_packet, validate_ip_packet};
use crate::varint::{
    MAX_VARINT, decode_varint, encode_varint, encoded_varint_len, lemma_varint_round_trip,
    spec_decode_varint, spec_varint_bytes, spec_varint_len,
};

verus! {

/// The context id of plain IP packets.
pub const DEFAULT_CONTEXT_ID: u64 = 0;

/// The wire form of an HTTP Datagram carrying `packet` on `stream_id`.
pub open spec fn spec_http_datagram_bytes(stream_id: u64, packet: Seq<u8>) -> Seq<u8> {
    spec_varint_bytes(stream_id / 4) + spec_varint_bytes(DEFAULT_CONTEXT_ID) + packet
}

/// How a received HTTP Datagram is handled.
pub enum DatagramDisposition {
    /// The datagram is malformed: no quarter stream id or no context id.
    Malformed,
    /// The datagram belongs to another request stream or another context.
    Ignored,
    /// The IP packet bytes the datagram carries.
    Packet(Seq<u8>),
}

/// What a received datagram carries for `request_stream_id`.
pub open spec fn spec_http_datagram_disposition(request_stream_id: u64, datagram: Seq<u8>)
    -> DatagramDisposition {
    match spec_decode_varint(datagram) {
        None => DatagramDisposition::Malformed,
        Some((quarter_stream_id, stream_length)) => if quarter_stream_id != request_stream_id / 4 {
            DatagramDisposition::Ignored
        } else {
            let payload = datagram.subrange(stream_length as int, datagram.len() as int);
            match spec_decode_varint(payload) {
                None => DatagramDisposition::Malformed,
                Some((context_id, context_length)) => if context_id != DEFAULT_CONTEXT_ID {
                    DatagramDisposition::Ignored
                } else {
                    DatagramDisposition::Packet(
                        payload.subrange(context_length as int, payload.len() as int),
                    )
                },
            }
        },
    }
}

/// Appends the HTTP Datagram for `packet` on `stream_id` to `target`. The
/// packet must be a valid IP packet and the datagram must fit in `capacity`
/// bytes; otherwise nothing is written.
pub fn encode_http_datagram_into(
    stream_id: u64,
    packet: &[u8],
    capacity: usize,
    target: &mut Vec<u8>,
) -> (result: Result<(), TransportError>)
    ensures
        !spec_valid_ip_packet(packet@) ==> (result matches Err(TransportError::MalformedIpPacket)),
        spec_valid_ip_packet(packet@) && spec_varint_len(stream_id / 4) + 1 + packet@.len()
            > capacity ==> (result matches Err(TransportError::Http3(_))),
        spec_valid_ip_packet(packet@) && spec_varint_len(stream_id / 4) + 1 + packet@.len()
            <= capacity ==> result is Ok && final(target)@ == old(target)@
            + spec_http_datagram_bytes(stream_id, packet@),
        result is Err ==> final(target)@ == old(target)@,
{
    validate_ip_packet(packet)?;
    let quarter_stream_id = stream_id / 4;
    assert(quarter_stream_id <= MAX_VARINT);
    let stream_length = encoded_varint_len(quarter_stream_id)?;
    let context_length = encoded_varint_len(DEFAULT_CONTEXT_ID)?;
    let required = stream_length + context_length + packet.len();
    if required > capacity {
        return Err(TransportError::Http3(
            "HTTP Datagram exceeded the bounded encode buffer".to_string(),
        ));
    }
    let result = encode_varint(quarter_stream_id, target);
    assert(result is Ok);
    let result = encode_varint(DEFAULT_CONTEXT_ID, target);
    assert(result is Ok);
    target.extend_from_slice(packet);
    assert(target@ =~= old(target)@ + spec_http_datagram_bytes(stream_id, packet@));
    Ok(())
}

/// Encodes the HTTP Datagram for `packet` on `stream_id` into a buffer of
/// the encode pool. An invalid packet is refused before the pool is
/// touched; with every buffer in use the result is `Ok(None)`; a datagram
/// larger than a pool buffer is refused and its buffer goes back. Only a
/// successful encoding keeps a buffer out of the pool.
pub fn encode_http_datagram(pool: &mut DatagramEncodePool, stream_id: u64, packet: &[u8]) -> (result: Result<
    Option<Vec<u8>>,
    TransportError,
>)
    requires
        old(pool).well_formed(),
    ensures
        final(pool).well_formed(),
        !spec_valid_ip_packet(packet@) ==> (result matches Err(TransportError::MalformedIpPacket))
            && *final(pool) == *old(pool),
        spec_valid_ip_packet(packet@) ==> {
            let exhausted = old(pool).free_view() == 0 && old(pool).allocated_view()
                >= HTTP_DATAGRAM_ENCODE_POOL_LIMIT;
            let fits = spec_varint_len(stream_id / 4) + 1 + packet@.len() <= HTTP_DATAGRAM_BUFFER_CAPACITY;
            &&& exhausted ==> (result matches Ok(None))
            &&& !exhausted && !fits ==> (result matches Err(TransportError::Http3(_)))
            &&& !exhausted && fits ==> (result matches Ok(Some(encoded)) && encoded@
                == spec_http_datagram_bytes(stream_id, packet@))
        },
        result matches Ok(Some(_)) ==> final(pool).allocated_view() - final(pool).free_view() == old(
            pool,
        ).allocated_view() - old(pool).free_view() + 1,
        !(result matches Ok(Some(_))) ==> final(pool).allocated_view() - final(pool).free_view() == old(
            pool,
        ).allocated_view() - old(pool).free_view(),
{
    validate_ip_packet(packet)?;
    proof {
        pool.lemma_pool_is_bounded();
    }
    let mut encoded = match pool.take() {
        Some(buffer) => buffer,
        None => return Ok(None),
    };
    match encode_http_datagram_into(stream_id, packet, HTTP_DATAGRAM_BUFFER_CAPACITY, &mut encoded) {
        Ok(()) => {
            assert(encoded@ =~= spec_http_datagram_bytes(stream_id, packet@));
            Ok(Some(encoded))
        },
        Err(error) => {
            pool.recycle(encoded);
            Err(error)
        },
    }
}

/// Returns the IP packet a received HTTP Datagram carries for
/// `request_stream_id`, as a view into the received buffer. Datagrams for
/// other streams or contexts are `None`; a malformed datagram or an invalid
/// IP packet is `MalformedIpPacket`.
pub fn decode_http_datagram_bytes(request_stream_id: u64, datagram: Bytes) -> (result: Result<
    Option<Bytes>,
    TransportError,
>)
    ensures
        match spec_http_datagram_disposition(request_stream_id, bytes_view(datagram)) {
            DatagramDisposition::Malformed => (result matches Err(
                TransportError::MalformedIpPacket,
            )),
            DatagramDisposition::Ignored => result == Ok::<Option<Bytes>, TransportError>(None),
            DatagramDisposition::Packet(packet) => if spec_valid_ip_packet(packet) {
                result matches Ok(Some(decoded)) && bytes_view(decoded) == packet
            } else {
                result matches Err(TransportError::MalformedIpPacket)
            },
        },
{
    let bytes = bytes_as_slice(&datagram);
    let Some((quarter_stream_id, stream_length)) = decode_varint(bytes)? else {
        return Err(TransportError::MalformedIpPacket);
    };
    if quarter_stream_id != request_stream_id / 4 {
        return Ok(None);
    }
    let payload = vstd::slice::slice_subrange(bytes, stream_length, bytes.len());
    let Some((context_id, context_length)) = decode_varint(payload)? else {
        return Err(TransportError::MalformedIpPacket);
    };
    if context_id != DEFAULT_CONTEXT_ID {
        return Ok(None);
    }
    let start = stream_length + context_length;
    let packet = bytes_slice(&datagram, start, bytes.len());
    assert(bytes_view(packet) =~= payload@.subrange(context_length as int, payload@.len() as int));
    validate_ip_packet(bytes_as_slice(&packet))?;
    Ok(Some(packet))
}

/// An encoded HTTP Datagram decodes back to its packet on the same stream.
pub proof fn lemma_http_datagram_round_trip(stream_id: u64, packet: Seq<u8>)
    ensures
        spec_http_datagram_disposition(stream_id, spec_http_datagram_bytes(stream_id, packet))
            == DatagramDisposition::Packet(packet),
{
    let stream_bytes = spec_varint_bytes(stream_id / 4);
    let context_bytes = spec_varint_bytes(DEFAULT_CONTEXT_ID);
    let wire = spec_http_datagram_bytes(stream_id, packet);
    assert(stream_id / 4 <= MAX_VARINT);
    assert(wire =~= stream_bytes + (context_bytes + packet));
    lemma_varint_round_trip(stream_id / 4, context_bytes + packet);
    let payload = wire.subrange(stream_bytes.len() as int, wire.len() as int);
    assert(payload =~= context_bytes + packet);
    lemma_varint_round_trip(DEFAULT_CONTEXT_ID, packet);
    assert(payload.subrange(1, payload.len() as int) =~= packet);
}

} // verus!
