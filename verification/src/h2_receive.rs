//! The receive side of a CONNECT-IP tunnel over HTTP/2: complete capsules
//! are taken from the front of the stream's receive buffer; DATAGRAM
//! capsules become queued IP packets, and the first capsule of another
//! type goes to the control plane.

use vstd::prelude::*;

use bytes::Bytes;

use crate::buffers::{bytes_as_slice, bytes_view};
use crate::capsule::{
    batch_view, decode_capsule, lemma_datagram_capsule_round_trip, spec_capsule_bytes, spec_capsule_header,
    spec_datagram_capsules, DATAGRAM_CAPSULE_TYPE,
};
use crate::error::TransportError;
use crate::packet::{spec_valid_ip_packet, validate_ip_packet, MAX_CAPSULE_BYTES};

verus! {

/// The most received IP packets queued for the reader.
pub const H2_PACKET_QUEUE_CAPACITY: usize = 1_024;

/// What one drain of the receive buffer comes to: how it stopped, the
/// packets it queued and the bytes left. It stops with `Ok(None)` when the
/// queue has no room or no complete capsule is buffered, with the type and
/// payload of the first capsule of another type, or with the error that
/// ended it. A capsule is taken off the buffer once complete, before its
/// packet is checked.
pub open spec fn spec_drain_capsules(buffer: Seq<u8>, room: nat) -> (
    Result<Option<(u64, Seq<u8>)>, TransportError>,
    Seq<Seq<u8>>,
    Seq<u8>,
)
    decreases buffer.len(),
{
    if room == 0 {
        (Ok(None), Seq::empty(), buffer)
    } else {
        match spec_capsule_header(buffer) {
            None => (Ok(None), Seq::empty(), buffer),
            Some((capsule_type, header_length, payload_length)) => {
                if payload_length > MAX_CAPSULE_BYTES {
                    (Err(TransportError::CapsuleTooLarge), Seq::empty(), buffer)
                } else if header_length + payload_length > buffer.len() {
                    (Ok(None), Seq::empty(), buffer)
                } else {
                    let end = header_length + payload_length;
                    let payload = buffer.subrange(header_length, end);
                    let rest = buffer.subrange(end, buffer.len() as int);
                    if capsule_type != DATAGRAM_CAPSULE_TYPE {
                        (Ok(Some((capsule_type, payload))), Seq::empty(), rest)
                    } else if !spec_valid_ip_packet(payload) {
                        (Err(TransportError::MalformedIpPacket), Seq::empty(), rest)
                    } else {
                        let (stop, packets, left) = spec_drain_capsules(rest, (room - 1) as nat);
                        (stop, seq![payload] + packets, left)
                    }
                }
            },
        }
    }
}

/// The room left in a packet queue holding `queued` packets.
pub open spec fn queue_room(queued: nat) -> nat {
    if queued >= H2_PACKET_QUEUE_CAPACITY {
        0
    } else {
        (H2_PACKET_QUEUE_CAPACITY - queued) as nat
    }
}

/// A drain's result with `drained` packets queued before it.
pub open spec fn after_drained(
    drained: Seq<Seq<u8>>,
    outcome: (Result<Option<(u64, Seq<u8>)>, TransportError>, Seq<Seq<u8>>, Seq<u8>),
) -> (Result<Option<(u64, Seq<u8>)>, TransportError>, Seq<Seq<u8>>, Seq<u8>) {
    (outcome.0, drained + outcome.1, outcome.2)
}

/// The stop a drain returned is the one described.
pub open spec fn stop_matches(
    stop: Result<Option<(u64, Bytes)>, TransportError>,
    expected: Result<Option<(u64, Seq<u8>)>, TransportError>,
) -> bool {
    match expected {
        Ok(None) => stop matches Ok(None),
        Ok(Some((capsule_type, payload))) => stop matches Ok(Some((got_type, got))) && got_type
            == capsule_type && bytes_view(got) == payload,
        Err(error) => stop == Err::<Option<(u64, Bytes)>, TransportError>(error),
    }
}

/// Keeps the bytes of `buffer` from `start` on.
fn retain_from(buffer: &mut Vec<u8>, start: usize)
    requires
        start <= old(buffer)@.len(),
    ensures
        final(buffer)@ == old(buffer)@.subrange(start as int, old(buffer)@.len() as int),
{
    let mut kept: Vec<u8> = Vec::new();
    let mut index: usize = start;
    while index < buffer.len()
        invariant
            start <= index <= buffer@.len(),
            kept@ == buffer@.subrange(start as int, index as int),
        decreases buffer@.len() - index,
    {
        kept.push(buffer[index]);
        index = index + 1;
        assert(kept@ =~= buffer@.subrange(start as int, index as int));
    }
    *buffer = kept;
}

/// Takes complete capsules off the front of the receive buffer while the
/// packet queue has room: each DATAGRAM capsule's packet is checked and
/// queued. Returns at the first capsule of another type, for the control
/// plane, or when no complete capsule is left; an oversized capsule or a
/// malformed packet ends the drain with its error.
pub fn drain_datagram_capsules(buffer: &mut Vec<u8>, packets: &mut Vec<Bytes>) -> (stop: Result<
    Option<(u64, Bytes)>,
    TransportError,
>)
    ensures
        stop_matches(stop, spec_drain_capsules(old(buffer)@, queue_room(old(packets)@.len())).0),
        batch_view(final(packets)@) == batch_view(old(packets)@) + spec_drain_capsules(
            old(buffer)@,
            queue_room(old(packets)@.len()),
        ).1,
        final(buffer)@ == spec_drain_capsules(old(buffer)@, queue_room(old(packets)@.len())).2,
{
    let ghost initial = buffer@;
    let ghost queued = packets@;
    let ghost room = queue_room(packets@.len());
    let ghost mut drained: Seq<Seq<u8>> = Seq::empty();
    let mut consumed: usize = 0;
    assert(initial.subrange(0, initial.len() as int) =~= initial);
    assert(after_drained(drained, spec_drain_capsules(initial, room)) =~= spec_drain_capsules(
        initial,
        room,
    ));
    loop
        invariant
            initial == old(buffer)@,
            queued == old(packets)@,
            buffer@ == initial,
            consumed <= initial.len(),
            packets@.len() == queued.len() + drained.len(),
            drained.len() <= room,
            room == queue_room(queued.len()),
            queue_room(packets@.len()) == room - drained.len(),
            batch_view(packets@) == batch_view(queued) + drained,
            spec_drain_capsules(initial, room) == after_drained(
                drained,
                spec_drain_capsules(
                    initial.subrange(consumed as int, initial.len() as int),
                    (room - drained.len()) as nat,
                ),
            ),
        decreases initial.len() - consumed,
    {
        let ghost rest = initial.subrange(consumed as int, initial.len() as int);
        assert(drained + Seq::<Seq<u8>>::empty() =~= drained);
        if packets.len() >= H2_PACKET_QUEUE_CAPACITY {
            assert(room - drained.len() == 0);
            assert(spec_drain_capsules(rest, 0) == (
                Ok::<Option<(u64, Seq<u8>)>, TransportError>(None),
                Seq::<Seq<u8>>::empty(),
                rest,
            ));
            assert(spec_drain_capsules(initial, room).0 == Ok::<Option<(u64, Seq<u8>)>, TransportError>(None));
            assert(spec_drain_capsules(initial, room).1 == drained);
            assert(spec_drain_capsules(initial, room).2 == rest);
            retain_from(buffer, consumed);
            return Ok(None);
        }
        let unread = vstd::slice::slice_subrange(buffer.as_slice(), consumed, buffer.len());
        assert(unread@ == rest);
        match decode_capsule(unread) {
            Err(error) => {
                retain_from(buffer, consumed);
                return Err(error);
            },
            Ok(None) => {
                retain_from(buffer, consumed);
                return Ok(None);
            },
            Ok(Some((capsule_type, payload, total))) => {
                let ghost next = initial.subrange(consumed + total, initial.len() as int);
                assert(rest.subrange(total as int, rest.len() as int) =~= next);
                consumed = consumed + total;
                if capsule_type != DATAGRAM_CAPSULE_TYPE {
                    retain_from(buffer, consumed);
                    return Ok(Some((capsule_type, payload)));
                }
                match validate_ip_packet(bytes_as_slice(&payload)) {
                    Err(error) => {
                        retain_from(buffer, consumed);
                        return Err(error);
                    },
                    Ok(()) => {
                        let ghost before = packets@;
                        packets.push(payload);
                        proof {
                            let packet = bytes_view(payload);
                            let later = spec_drain_capsules(next, (room - drained.len() - 1) as nat);
                            assert(batch_view(packets@) =~= batch_view(before).push(packet));
                            assert(drained.push(packet) + later.1 =~= drained + (seq![packet] + later.1));
                            drained = drained.push(packet);
                            assert(batch_view(packets@) =~= batch_view(queued) + drained);
                        }
                    },
                }
            },
        }
    }
}

/// The DATAGRAM capsules of a nonempty packet list are those of its first
/// packet followed by those of the rest.
proof fn lemma_capsules_front(packets: Seq<Seq<u8>>)
    requires
        packets.len() > 0,
    ensures
        spec_datagram_capsules(packets) == spec_capsule_bytes(DATAGRAM_CAPSULE_TYPE, packets[0])
            + spec_datagram_capsules(packets.drop_first()),
    decreases packets.len(),
{
    if packets.len() == 1 {
        assert(packets.drop_last().len() == 0);
        assert(packets.drop_first().len() == 0);
        assert(spec_datagram_capsules(packets.drop_last()) =~= Seq::<u8>::empty());
        assert(spec_datagram_capsules(packets.drop_first()) =~= Seq::<u8>::empty());
        assert(packets.last() == packets[0]);
        assert(spec_datagram_capsules(packets) =~= spec_capsule_bytes(DATAGRAM_CAPSULE_TYPE, packets[0]));
        assert(spec_datagram_capsules(packets) =~= spec_capsule_bytes(DATAGRAM_CAPSULE_TYPE, packets[0])
            + spec_datagram_capsules(packets.drop_first()));
    } else {
        let earlier = packets.drop_last();
        lemma_capsules_front(earlier);
        assert(earlier.drop_first() =~= packets.drop_first().drop_last());
        assert(packets.drop_first().last() == packets.last());
        assert(earlier[0] == packets[0]);
        assert(spec_datagram_capsules(packets) =~= spec_capsule_bytes(DATAGRAM_CAPSULE_TYPE, packets[0])
            + spec_datagram_capsules(packets.drop_first()));
    }
}

/// Law: an HTTP/2 receiver gets back exactly the IP packets its peer sent
/// as DATAGRAM capsules, in order. With room for all of them, draining
/// their capsules queues every packet, consumes every byte and stops for
/// want of more.
pub proof fn lemma_drain_returns_sent_packets(packets: Seq<Seq<u8>>, room: nat)
    requires
        forall|i: int| 0 <= i < packets.len() ==> spec_valid_ip_packet(#[trigger] packets[i]),
        packets.len() <= room,
    ensures
        spec_drain_capsules(spec_datagram_capsules(packets), room) == (
            Ok::<Option<(u64, Seq<u8>)>, TransportError>(None),
            packets,
            Seq::<u8>::empty(),
        ),
    decreases packets.len(),
{
    if packets.len() == 0 {
        assert(spec_datagram_capsules(packets) =~= Seq::<u8>::empty());
        assert(packets =~= Seq::<Seq<u8>>::empty());
    } else {
        let first = packets[0];
        let later = packets.drop_first();
        let tail = spec_datagram_capsules(later);
        let wire = spec_capsule_bytes(DATAGRAM_CAPSULE_TYPE, first) + tail;
        lemma_capsules_front(packets);
        assert(spec_valid_ip_packet(first));
        lemma_datagram_capsule_round_trip(first, tail);
        let end = spec_capsule_bytes(DATAGRAM_CAPSULE_TYPE, first).len() as int;
        assert(wire.subrange(end, wire.len() as int) =~= tail);
        assert forall|i: int| 0 <= i < later.len() implies spec_valid_ip_packet(#[trigger] later[i]) by {
            assert(later[i] == packets[i + 1]);
        }
        lemma_drain_returns_sent_packets(later, (room - 1) as nat);
        assert(seq![first] + later =~= packets);
    }
}

} // verus!
