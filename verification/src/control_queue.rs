//! The CONNECT-IP control plane's outgoing queue: ADDRESS_REQUEST capsules
//! are answered with an ADDRESS_ASSIGN that assigns nothing, and the queue
//! of such answers is bounded in count and in bytes.

use vstd::prelude::*;

use crate::direct_nat::{ip_bytes, ip_octets};
use crate::error::TransportError;
use crate::net::IpAddress;
use crate::varint::{encode_varint, spec_varint_bytes, MAX_VARINT};

verus! {

/// The most control capsules waiting to be sent.
pub const MAX_PENDING_CONTROL_CAPSULES: usize = 64;

/// The most control bytes waiting to be sent.
pub const MAX_PENDING_CONTROL_BYTES: usize = 262_144;

/// One address of an ADDRESS_REQUEST or ADDRESS_ASSIGN capsule.
#[derive(Debug, Clone, Copy, PartialEq, Eq, Structural)]
pub struct IpPrefix {
    pub request_id: u64,
    pub address: IpAddress,
    pub prefix_len: u8,
}

/// The refusal of one requested address: the unspecified address of its
/// family, as a full-length prefix, under the same request id.
pub open spec fn spec_refusal(requested: IpPrefix) -> IpPrefix {
    match requested.address {
        IpAddress::V4(_) => IpPrefix { request_id: requested.request_id, address: IpAddress::V4(0), prefix_len: 32 },
        IpAddress::V6(_) => IpPrefix { request_id: requested.request_id, address: IpAddress::V6(0), prefix_len: 128 },
    }
}

/// The addresses of the ADDRESS_ASSIGN that refuses an ADDRESS_REQUEST.
pub fn refusal_prefixes(requested: &[IpPrefix]) -> (refused: Vec<IpPrefix>)
    ensures
        refused@ == requested@.map_values(|prefix: IpPrefix| spec_refusal(prefix)),
{
    let mut refused: Vec<IpPrefix> = Vec::new();
    let mut index: usize = 0;
    while index < requested.len()
        invariant
            index <= requested@.len(),
            refused@ == requested@.take(index as int).map_values(|prefix: IpPrefix| spec_refusal(prefix)),
        decreases requested@.len() - index,
    {
        let prefix = requested[index];
        let refusal = match prefix.address {
            IpAddress::V4(_) => IpPrefix { request_id: prefix.request_id, address: IpAddress::V4(0), prefix_len: 32 },
            IpAddress::V6(_) => IpPrefix { request_id: prefix.request_id, address: IpAddress::V6(0), prefix_len: 128 },
        };
        refused.push(refusal);
        index = index + 1;
        assert(refused@ =~= requested@.take(index as int).map_values(|prefix: IpPrefix| spec_refusal(prefix)));
    }
    assert(requested@.take(requested@.len() as int) =~= requested@);
    refused
}

/// The capsule type of ADDRESS_ASSIGN (RFC 9484).
pub const ADDRESS_ASSIGN_CAPSULE_TYPE: u64 = 1;

/// The IP version byte of an address.
pub open spec fn ip_version(address: IpAddress) -> u8 {
    match address {
        IpAddress::V4(_) => 4,
        IpAddress::V6(_) => 6,
    }
}

/// The wire form of one assigned address: request id, IP version, the
/// address in network order, prefix length.
pub open spec fn spec_assigned_entry(prefix: IpPrefix) -> Seq<u8> {
    spec_varint_bytes(prefix.request_id) + seq![ip_version(prefix.address)] + ip_octets(prefix.address) + seq![
        prefix.prefix_len,
    ]
}

/// The entries of an ADDRESS_ASSIGN payload, in order.
pub open spec fn spec_address_assign_payload(prefixes: Seq<IpPrefix>) -> Seq<u8>
    decreases prefixes.len(),
{
    if prefixes.len() == 0 {
        Seq::empty()
    } else {
        spec_address_assign_payload(prefixes.drop_last()) + spec_assigned_entry(prefixes.last())
    }
}

/// Every request id fits a varint.
pub open spec fn ids_encodable(prefixes: Seq<IpPrefix>) -> bool {
    forall|index: int| 0 <= index < prefixes.len() ==> #[trigger] prefixes[index].request_id <= MAX_VARINT
}

/// The ADDRESS_ASSIGN capsule carrying `prefixes`, when it can be encoded:
/// every request id and the payload length fit a varint.
pub open spec fn spec_address_assign(prefixes: Seq<IpPrefix>) -> Option<Seq<u8>> {
    let payload = spec_address_assign_payload(prefixes);
    if ids_encodable(prefixes) && payload.len() <= MAX_VARINT {
        Some(spec_varint_bytes(ADDRESS_ASSIGN_CAPSULE_TYPE) + spec_varint_bytes(payload.len() as u64) + payload)
    } else {
        None
    }
}

/// Encodes an ADDRESS_ASSIGN capsule; a request id or payload length that
/// does not fit a varint is an invalid varint.
pub fn encode_address_assign(prefixes: &[IpPrefix]) -> (result: Result<Vec<u8>, TransportError>)
    ensures
        match spec_address_assign(prefixes@) {
            Some(capsule) => result matches Ok(encoded) && encoded@ == capsule,
            None => result matches Err(TransportError::InvalidVarint),
        },
{
    let mut payload: Vec<u8> = Vec::new();
    let mut index: usize = 0;
    while index < prefixes.len()
        invariant
            index <= prefixes@.len(),
            payload@ == spec_address_assign_payload(prefixes@.take(index as int)),
            ids_encodable(prefixes@.take(index as int)),
        decreases prefixes@.len() - index,
    {
        let prefix = prefixes[index];
        assert(prefixes@.take(index + 1).drop_last() =~= prefixes@.take(index as int));
        if prefix.request_id > MAX_VARINT {
            assert(!ids_encodable(prefixes@)) by {
                assert(prefixes@[index as int].request_id > MAX_VARINT);
            }
            return Err(TransportError::InvalidVarint);
        }
        let ghost before = payload@;
        let written = encode_varint(prefix.request_id, &mut payload);
        assert(written is Ok);
        let version: u8 = match prefix.address {
            IpAddress::V4(_) => 4,
            IpAddress::V6(_) => 6,
        };
        payload.push(version);
        let address = ip_bytes(prefix.address);
        payload.extend_from_slice(address.as_slice());
        payload.push(prefix.prefix_len);
        assert(payload@ =~= before + spec_assigned_entry(prefix));
        index = index + 1;
        assert(ids_encodable(prefixes@.take(index as int))) by {
            assert forall|k: int| 0 <= k < index implies #[trigger] prefixes@.take(index as int)[k].request_id
                <= MAX_VARINT by {
                if k < index - 1 {
                    assert(prefixes@.take(index as int)[k] == prefixes@.take(index - 1)[k]);
                }
            }
        }
    }
    assert(prefixes@.take(prefixes@.len() as int) =~= prefixes@);
    let mut capsule: Vec<u8> = Vec::new();
    let written = encode_varint(ADDRESS_ASSIGN_CAPSULE_TYPE, &mut capsule);
    assert(written is Ok);
    let length = payload.len() as u64;
    match encode_varint(length, &mut capsule) {
        Ok(()) => {},
        Err(error) => return Err(error),
    }
    capsule.extend_from_slice(payload.as_slice());
    Ok(capsule)
}

/// An encoded control capsule and how much of it was already sent.
pub struct PendingControlCapsule {
    pub bytes: Vec<u8>,
    pub offset: usize,
}

/// The bytes of a queued capsule not yet sent.
pub open spec fn unsent(item: PendingControlCapsule) -> int {
    if item.offset >= item.bytes@.len() { 0 } else { item.bytes@.len() - item.offset }
}

/// The unsent bytes of the queue, held at `usize::MAX`.
pub open spec fn pending_bytes(queue: Seq<PendingControlCapsule>) -> int
    decreases queue.len(),
{
    if queue.len() == 0 {
        0
    } else {
        let earlier = pending_bytes(queue.drop_last());
        let total = earlier + unsent(queue.last());
        if total > usize::MAX { usize::MAX as int } else { total }
    }
}

fn count_pending_bytes(queue: &Vec<PendingControlCapsule>) -> (total: usize)
    ensures
        total == pending_bytes(queue@),
{
    let mut total: usize = 0;
    let mut index: usize = 0;
    while index < queue.len()
        invariant
            index <= queue@.len(),
            total == pending_bytes(queue@.take(index as int)),
        decreases queue@.len() - index,
    {
        let item = &queue[index];
        let remaining = item.bytes.len().saturating_sub(item.offset);
        proof {
            let prefix = queue@.take(index + 1);
            assert(prefix.drop_last() =~= queue@.take(index as int));
            assert(prefix.last() == queue@[index as int]);
        }
        total = total.saturating_add(remaining);
        index = index + 1;
    }
    assert(queue@.take(queue@.len() as int) =~= queue@);
    total
}

/// Queues an encoded control capsule, unless the queue already holds the
/// most capsules or the capsule would take its unsent bytes past the byte
/// bound; then the send queue is full and nothing changes.
pub fn queue_control_capsule(queue: &mut Vec<PendingControlCapsule>, capsule: Vec<u8>) -> (result: Result<(), TransportError>)
    ensures
        ({
            let full = old(queue)@.len() >= MAX_PENDING_CONTROL_CAPSULES || pending_bytes(old(queue)@)
                + capsule@.len() > MAX_PENDING_CONTROL_BYTES;
            &&& full ==> (result matches Err(TransportError::SendQueueFull)) && final(queue)@ == old(queue)@
            &&& !full ==> result is Ok && final(queue)@.len() == old(queue)@.len() + 1
                && final(queue)@.drop_last() == old(queue)@ && final(queue)@.last().bytes@ == capsule@
                && final(queue)@.last().offset == 0
        }),
{
    let pending = count_pending_bytes(queue);
    if queue.len() >= MAX_PENDING_CONTROL_CAPSULES || pending.saturating_add(capsule.len())
        > MAX_PENDING_CONTROL_BYTES {
        return Err(TransportError::SendQueueFull);
    }
    let ghost before = queue@;
    queue.push(PendingControlCapsule { bytes: capsule, offset: 0 });
    assert(queue@.drop_last() =~= before);
    Ok(())
}

/// The unsent bytes of the whole queue, without a ceiling.
pub open spec fn total_unsent(queue: Seq<PendingControlCapsule>) -> int
    decreases queue.len(),
{
    if queue.len() == 0 {
        0
    } else {
        unsent(queue[0]) + total_unsent(queue.drop_first())
    }
}

/// Records that `written` bytes of the front capsule were sent. The offset
/// advances; a capsule sent to its end leaves the queue, and the result
/// says so. Nothing written leaves the queue as it was. A send writes at
/// most the unsent part of the capsule.
pub fn record_control_write(queue: &mut Vec<PendingControlCapsule>, written: usize) -> (finished: bool)
    requires
        old(queue)@.len() > 0,
        old(queue)@[0].offset <= old(queue)@[0].bytes@.len(),
        written <= old(queue)@[0].bytes@.len() - old(queue)@[0].offset,
    ensures
        ({
            let front = old(queue)@[0];
            let sent = front.offset + written;
            &&& written == 0 ==> !finished && final(queue)@ == old(queue)@
            &&& written > 0 && sent == front.bytes@.len() ==> finished && final(queue)@
                == old(queue)@.drop_first()
            &&& written > 0 && sent < front.bytes@.len() ==> !finished && final(queue)@.len()
                == old(queue)@.len() && final(queue)@.drop_first() == old(queue)@.drop_first()
                && final(queue)@[0].bytes@ == front.bytes@ && final(queue)@[0].offset == sent
        }),
        total_unsent(final(queue)@) == total_unsent(old(queue)@) - written,
{
    if written == 0 {
        return false;
    }
    let ghost before = queue@;
    let mut front = queue.remove(0);
    assert(queue@ =~= before.drop_first());
    assert(front.offset + written <= front.bytes.len());
    front.offset = front.offset + written;
    if front.offset == front.bytes.len() {
        true
    } else {
        queue.insert(0, front);
        assert(queue@.drop_first() =~= before.drop_first());
        false
    }
}

/// Answers an ADDRESS_REQUEST for `requested`: queues one ADDRESS_ASSIGN
/// that gives, under each request id, the unspecified address of the
/// requested family as a full-length prefix. Nothing is assigned. A request
/// id that does not fit a varint is an invalid varint; a full queue refuses
/// the answer; either way the queue is left as it was.
pub fn reject_address_request(queue: &mut Vec<PendingControlCapsule>, requested: &[IpPrefix]) -> (result: Result<
    (),
    TransportError,
>)
    ensures
        ({
            let refused = requested@.map_values(|prefix: IpPrefix| spec_refusal(prefix));
            match spec_address_assign(refused) {
                None => (result matches Err(TransportError::InvalidVarint)) && final(queue)@ == old(queue)@,
                Some(capsule) => {
                    let full = old(queue)@.len() >= MAX_PENDING_CONTROL_CAPSULES || pending_bytes(old(queue)@)
                        + capsule.len() > MAX_PENDING_CONTROL_BYTES;
                    &&& full ==> (result matches Err(TransportError::SendQueueFull)) && final(queue)@ == old(
                        queue,
                    )@
                    &&& !full ==> result is Ok && final(queue)@.drop_last() == old(queue)@
                        && final(queue)@.last().bytes@ == capsule && final(queue)@.last().offset == 0
                        && final(queue)@.len() == old(queue)@.len() + 1
                },
            }
        }),
{
    let refused = refusal_prefixes(requested);
    let capsule = match encode_address_assign(refused.as_slice()) {
        Ok(capsule) => capsule,
        Err(error) => return Err(error),
    };
    queue_control_capsule(queue, capsule)
}

/// Law: a queue within its bounds stays within them after queueing.
pub proof fn lemma_queue_stays_bounded(before: Seq<PendingControlCapsule>, added: PendingControlCapsule)
    requires
        before.len() < MAX_PENDING_CONTROL_CAPSULES,
        pending_bytes(before) + unsent(added) <= MAX_PENDING_CONTROL_BYTES,
    ensures
        before.push(added).len() <= MAX_PENDING_CONTROL_CAPSULES,
        pending_bytes(before.push(added)) <= MAX_PENDING_CONTROL_BYTES,
{
    assert(before.push(added).drop_last() =~= before);
}

} // verus!
