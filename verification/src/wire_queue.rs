//! The HTTP/3 actor's outgoing wire datagrams: which due datagrams go out
//! in one UDP batch, how wire buffers are reused within a fixed bound, and
//! what becomes of an IP packet too large for the current datagram limit.

use vstd::prelude::*;

use crate::net::SocketAddress;

verus! {

/// The most wire datagrams pending, and the most spare wire buffers kept.
pub const MAX_PENDING_WIRE_DATAGRAMS: usize = 64;

/// The IPv6 minimum link MTU, which an IPv6 tunnel must carry.
pub const IPV6_MINIMUM_INNER_MTU: usize = 1_280;

/// What the send step needs of one generated wire datagram.
#[derive(Debug, Clone, Copy, PartialEq, Eq, Structural)]
pub struct WireDatagramInfo {
    pub length: usize,
    /// Its pacing time has come.
    pub due: bool,
    pub source: SocketAddress,
    pub destination: SocketAddress,
}

/// The datagram can join a batch led by `first` that already holds `bytes`.
pub open spec fn joins_batch(datagram: WireDatagramInfo, first: WireDatagramInfo, bytes: int, send_quantum: usize) -> bool {
    &&& datagram.due
    &&& datagram.source == first.source
    &&& datagram.destination == first.destination
    &&& bytes + datagram.length <= send_quantum
}

/// The number of leading datagrams, from `index` on, that go out in one
/// batch after `bytes` already in it.
pub open spec fn batch_from(
    pending: Seq<WireDatagramInfo>,
    index: int,
    bytes: int,
    send_quantum: usize,
    limit: usize,
) -> nat
    decreases pending.len() - index,
{
    if index < 0 || index >= pending.len() || index >= limit || !joins_batch(
        pending[index],
        pending[0],
        bytes,
        send_quantum,
    ) {
        0
    } else {
        1 + batch_from(pending, index + 1, bytes + pending[index].length, send_quantum, limit)
    }
}

/// How many leading pending datagrams one UDP batch sends: due ones on the
/// first datagram's path, at most `limit` of them, together within the
/// send quantum.
pub fn send_batch_len(pending: &[WireDatagramInfo], send_quantum: usize, limit: usize) -> (count: usize)
    ensures
        count == batch_from(pending@, 0, 0, send_quantum, limit),
        count <= limit,
        count <= pending@.len(),
{
    if pending.len() == 0 {
        return 0;
    }
    let first = pending[0];
    let mut bytes: usize = 0;
    let mut count: usize = 0;
    while count < pending.len() && count < limit
        invariant
            count <= pending@.len(),
            count <= limit,
            pending@.len() > 0,
            first == pending@[0],
            bytes <= send_quantum,
            batch_from(pending@, 0, 0, send_quantum, limit) == count + batch_from(
                pending@,
                count as int,
                bytes as int,
                send_quantum,
                limit,
            ),
        decreases pending@.len() - count,
    {
        let datagram = pending[count];
        if !datagram.due || datagram.source != first.source || datagram.destination
            != first.destination || datagram.length > send_quantum - bytes {
            return count;
        }
        bytes = bytes + datagram.length;
        count = count + 1;
    }
    count
}

/// A wire buffer of `capacity` zero bytes, reusing a spare buffer when
/// one is kept.
pub fn take_wire_buffer(free_buffers: &mut Vec<Vec<u8>>, capacity: usize) -> (bytes: Vec<u8>)
    ensures
        bytes@.len() == capacity,
        forall|i: int| 0 <= i < capacity ==> #[trigger] bytes@[i] == 0,
        final(free_buffers)@ == if old(free_buffers)@.len() > 0 {
            old(free_buffers)@.drop_last()
        } else {
            old(free_buffers)@
        },
{
    let mut bytes = match free_buffers.pop() {
        Some(bytes) => bytes,
        None => Vec::with_capacity(capacity),
    };
    bytes.clear();
    bytes.resize(capacity, 0);
    bytes
}

/// Keeps an emptied wire buffer for reuse while fewer than the bound are
/// kept; otherwise it is released.
pub fn recycle_wire_buffer(free_buffers: &mut Vec<Vec<u8>>, bytes: Vec<u8>)
    ensures
        old(free_buffers)@.len() < MAX_PENDING_WIRE_DATAGRAMS ==> final(free_buffers)@.len()
            == old(free_buffers)@.len() + 1 && final(free_buffers)@.last()@.len() == 0
            && final(free_buffers)@.drop_last() == old(free_buffers)@,
        old(free_buffers)@.len() >= MAX_PENDING_WIRE_DATAGRAMS ==> final(free_buffers)@ == old(
            free_buffers,
        )@,
{
    let mut bytes = bytes;
    bytes.clear();
    if free_buffers.len() < MAX_PENDING_WIRE_DATAGRAMS {
        let ghost before = free_buffers@;
        free_buffers.push(bytes);
        assert(free_buffers@.drop_last() =~= before);
    }
}

/// A generated wire datagram waiting for its UDP send.
pub struct PendingWireDatagram {
    pub bytes: Vec<u8>,
    pub info: WireDatagramInfo,
}

/// Whether one more wire datagram may be generated in this pass: fewer
/// than the bound are pending, and another datagram of full capacity
/// still fits, with the bytes generated so far, in the send quantum (a
/// sum past `usize::MAX` counts as `usize::MAX`).
pub fn may_generate(pending_len: usize, generated_bytes: usize, wire_payload_capacity: usize, send_quantum: usize)
    -> (may: bool)
    ensures
        may == (pending_len < MAX_PENDING_WIRE_DATAGRAMS && (if generated_bytes + wire_payload_capacity > usize::MAX {
            usize::MAX as int
        } else {
            generated_bytes + wire_payload_capacity
        }) <= send_quantum),
{
    pending_len < MAX_PENDING_WIRE_DATAGRAMS && generated_bytes.saturating_add(wire_payload_capacity) <= send_quantum
}

/// The number of spare buffers after `returned` buffers came back to a
/// store that held `kept`: each is kept while fewer than the bound are.
pub open spec fn spare_after(kept: nat, returned: nat) -> nat {
    if kept >= MAX_PENDING_WIRE_DATAGRAMS {
        kept
    } else if kept + returned > MAX_PENDING_WIRE_DATAGRAMS {
        MAX_PENDING_WIRE_DATAGRAMS as nat
    } else {
        kept + returned
    }
}

/// Completes the first `sent` pending datagrams, which a UDP batch sent:
/// they leave the queue in order and their buffers return to the spare
/// store within its bound. Completing all of them discards the queue.
pub fn complete_wire_sends(pending: &mut Vec<PendingWireDatagram>, free_buffers: &mut Vec<Vec<u8>>, sent: usize)
    requires
        sent <= old(pending)@.len(),
    ensures
        final(pending)@ == old(pending)@.skip(sent as int),
        final(free_buffers)@.len() == spare_after(old(free_buffers)@.len(), sent as nat),
        final(free_buffers)@.take(old(free_buffers)@.len() as int) == old(free_buffers)@,
        forall|i: int|
            old(free_buffers)@.len() <= i < final(free_buffers)@.len() ==> (#[trigger] final(free_buffers)@[i])@.len()
                == 0,
{
    let ghost start = pending@;
    let ghost kept = free_buffers@;
    let mut done: usize = 0;
    while done < sent
        invariant
            done <= sent,
            sent <= start.len(),
            pending@ == start.skip(done as int),
            free_buffers@.len() == spare_after(kept.len(), done as nat),
            free_buffers@.take(kept.len() as int) == kept,
            forall|i: int| kept.len() <= i < free_buffers@.len() ==> (#[trigger] free_buffers@[i])@.len() == 0,
        decreases sent - done,
    {
        let ghost before = free_buffers@;
        let datagram = pending.remove(0);
        assert(pending@ =~= start.skip(done + 1));
        recycle_wire_buffer(free_buffers, datagram.bytes);
        done = done + 1;
        proof {
            if before.len() < MAX_PENDING_WIRE_DATAGRAMS {
                assert(free_buffers@.drop_last() == before);
                assert(free_buffers@.take(kept.len() as int) =~= before.take(kept.len() as int));
                assert forall|i: int| kept.len() <= i < free_buffers@.len() implies (
                #[trigger] free_buffers@[i])@.len() == 0 by {
                    if i < before.len() {
                        assert(free_buffers@[i] == before[i]);
                    }
                }
            }
        }
    }
}

/// What happens to the next IP packet of an outgoing batch.
#[derive(Debug, Clone, Copy, PartialEq, Eq, Structural)]
pub enum BatchPacketAction {
    /// It fits and is queued as a DATAGRAM.
    Queue,
    /// It is an IPv6 packet waiting for path MTU discovery to confirm the
    /// IPv6 minimum; it moves behind the smaller packets.
    Rotate,
    /// It is too large and is handed back for a Packet Too Big answer.
    Oversized,
}

/// The action for an IP packet of `packet_len` bytes whose first byte is
/// `first_byte`, when a datagram can carry `maximum_packet_size` bytes.
/// Only a probing floor below the IPv6 minimum, with automatic PMTU on and
/// no path MTU known yet, makes an IPv6 packet wait.
pub fn batch_packet_action(
    packet_len: usize,
    maximum_packet_size: usize,
    automatic_pmtu: bool,
    pmtu_known: bool,
    first_byte: Option<u8>,
) -> (action: BatchPacketAction)
    ensures
        action == if packet_len <= maximum_packet_size {
            BatchPacketAction::Queue
        } else if automatic_pmtu && !pmtu_known && maximum_packet_size < IPV6_MINIMUM_INNER_MTU
            && (first_byte matches Some(byte) && byte / 16 == 6) {
            BatchPacketAction::Rotate
        } else {
            BatchPacketAction::Oversized
        },
{
    if packet_len <= maximum_packet_size {
        return BatchPacketAction::Queue;
    }
    let ipv6 = match first_byte {
        Some(byte) => byte / 16 == 6,
        None => false,
    };
    if automatic_pmtu && !pmtu_known && maximum_packet_size < IPV6_MINIMUM_INNER_MTU && ipv6 {
        BatchPacketAction::Rotate
    } else {
        BatchPacketAction::Oversized
    }
}

} // verus!
