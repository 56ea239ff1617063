//! Queue bounds and payload sizing of the HTTP/3 data plane.

use vstd::prelude::*;

verus! {

/// The most packets one batch carries between the TUN and a transport.
pub const MAX_PACKET_BATCH_PACKETS: usize = 64;

/// The QUIC DATAGRAM send queue bound.
pub const DATAGRAM_SEND_QUEUE_CAPACITY: usize = 1_024;

/// The QUIC DATAGRAM receive queue bound: one batch.
pub const DATAGRAM_RECV_QUEUE_CAPACITY: usize = MAX_PACKET_BATCH_PACKETS;

/// The most inbound packets held anywhere between QUIC and the application.
pub const INBOUND_PACKET_CAPACITY: usize = 1_024;

/// Batches held outside the application channel: the receive half's
/// pending batch, the actor's pending batch and the QUIC receive queue.
pub const INBOUND_RESERVED_BATCHES: usize = 3;

/// The application channel's capacity in batches.
pub const INCOMING_BATCH_CHANNEL_CAPACITY: usize = INBOUND_PACKET_CAPACITY / MAX_PACKET_BATCH_PACKETS
    - INBOUND_RESERVED_BATCHES;

/// Law: every place that holds inbound packets together holds exactly the
/// inbound bound: the application channel's batches, the receive half's and
/// the actor's pending batch, and the QUIC receive queue.
pub proof fn lemma_inbound_storage_is_bounded()
    ensures
        INCOMING_BATCH_CHANNEL_CAPACITY * MAX_PACKET_BATCH_PACKETS + MAX_PACKET_BATCH_PACKETS
            + MAX_PACKET_BATCH_PACKETS + DATAGRAM_RECV_QUEUE_CAPACITY == INBOUND_PACKET_CAPACITY,
{
}

/// The IP payload a CONNECT-IP datagram can carry: the profile's inner MTU,
/// but no more than QUIC can write after the HTTP Datagram prefix.
pub fn effective_connect_ip_payload(
    profile_inner_mtu: usize,
    datagram_writable_len: usize,
    context_overhead: usize,
) -> (payload: usize)
    ensures
        payload == if datagram_writable_len < context_overhead {
            0
        } else if profile_inner_mtu < datagram_writable_len - context_overhead {
            profile_inner_mtu as int
        } else {
            datagram_writable_len - context_overhead
        },
{
    let writable = datagram_writable_len.saturating_sub(context_overhead);
    if profile_inner_mtu < writable {
        profile_inner_mtu
    } else {
        writable
    }
}

/// How many of `received` new payloads find no room in a receive queue that
/// already holds `queued_before`.
pub open spec fn spec_inbound_queue_overflow(queued_before: usize, received: usize) -> int {
    if queued_before >= DATAGRAM_RECV_QUEUE_CAPACITY {
        received as int
    } else if received <= DATAGRAM_RECV_QUEUE_CAPACITY - queued_before {
        0
    } else {
        received - (DATAGRAM_RECV_QUEUE_CAPACITY - queued_before)
    }
}

/// Counts the new payloads that a saturated receive queue dropped.
pub fn inbound_queue_overflow(queued_before: usize, received: usize) -> (dropped: usize)
    ensures
        dropped == spec_inbound_queue_overflow(queued_before, received),
{
    received.saturating_sub(DATAGRAM_RECV_QUEUE_CAPACITY.saturating_sub(queued_before))
}

/// Law: a queue with room for every new payload drops none, and otherwise
/// exactly the payloads beyond the bound are dropped.
pub proof fn lemma_overflow_counts_only_payloads_beyond_the_bound(queued_before: usize, received: usize)
    requires
        queued_before <= DATAGRAM_RECV_QUEUE_CAPACITY,
    ensures
        queued_before + received <= DATAGRAM_RECV_QUEUE_CAPACITY ==> spec_inbound_queue_overflow(
            queued_before,
            received,
        ) == 0,
        queued_before + received > DATAGRAM_RECV_QUEUE_CAPACITY ==> spec_inbound_queue_overflow(
            queued_before,
            received,
        ) == queued_before + received - DATAGRAM_RECV_QUEUE_CAPACITY,
{
}

/// A count as `u64`, held at `u64::MAX`.
pub fn usize_to_u64(value: usize) -> (converted: u64)
    ensures
        converted == if value > u64::MAX {
            u64::MAX
        } else {
            value as u64
        },
{
    if value as u128 > u64::MAX as u128 {
        u64::MAX
    } else {
        value as u64
    }
}

/// Adds `dropped` payloads to the running drop total, held at `u64::MAX`.
pub fn record_inbound_queue_drops(dropped: usize, total: &mut u64)
    ensures
        *final(total) == if *old(total) + dropped > u64::MAX {
            u64::MAX as int
        } else {
            *old(total) + dropped
        },
{
    let mut counted: usize = 0;
    while counted < dropped
        invariant
            counted <= dropped,
            *total == if *old(total) + counted > u64::MAX {
                u64::MAX as int
            } else {
                *old(total) + counted
            },
        decreases dropped - counted,
    {
        *total = total.saturating_add(1);
        counted = counted + 1;
    }
}

} // verus!
