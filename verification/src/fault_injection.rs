//! Deterministic transport fault orchestration for tests: a bounded script of
//! timed faults and a harness that answers transport operations as the
//! faults that are due dictate. The harness never touches real sockets or
//! platform network state.

use vstd::prelude::*;

use std::time::Duration;

use crate::clock::{duration_as_nanos, duration_nanos};
use crate::failure::{
    unattributed, AddressFamily, Transport, TransportFailure, TransportFailureCode, TransportStage,
};

verus! {

/// A source of elapsed time for the transport.
pub trait TransportClock: Send + Sync {
    fn elapsed(&self) -> Duration;
}

/// A source of the current physical network generation.
pub trait NetworkGenerationSource: Send + Sync {
    fn generation(&self) -> u64;
}

/// A scripted fault.
#[derive(Debug, Clone, Copy, PartialEq, Eq)]
pub enum FaultKind {
    DropAllUdp,
    DelayPackets(Duration),
    ReorderDatagrams,
    DuplicateDatagrams,
    BlackholeAfter(u64),
    NetworkChange(u64),
    RemoveIpv4,
    RemoveIpv6,
    StallReads,
    StallWrites,
    FailSocketProtect,
    FailDnsAttempts(u8),
    FailFirstH3Handshake,
    StallQuicHandshake,
    DisableH3Datagrams,
    FailDnsApply,
    FailRouteApply,
    FillSendQueue,
    ForceH2GoAway,
    ForceH2StreamReset,
    DisconnectAgentIpc,
    TerminateVpnProcess,
    EndpointPinMismatch,
}

/// A fault that becomes active once the script's time reaches `at`.
#[derive(Debug, Clone, Copy, PartialEq, Eq)]
pub struct ScheduledFault {
    pub at: Duration,
    pub fault: FaultKind,
}

/// When a scheduled fault is due, in nanoseconds.
pub open spec fn due_at(event: ScheduledFault) -> u128 {
    duration_nanos(event.at)
}

/// The number of leading events of `events` that are due by `now`; for a
/// script in time order, the place where an event due at `now` goes after
/// every event due no later.
pub open spec fn due_prefix(events: Seq<ScheduledFault>, now: u128) -> nat
    decreases events.len(),
{
    if events.len() == 0 {
        0
    } else if due_at(events[0]) > now {
        0
    } else {
        1 + due_prefix(events.drop_first(), now)
    }
}

/// Events in non-decreasing order of their due time.
pub open spec fn in_time_order(events: Seq<ScheduledFault>) -> bool {
    forall|i: int, j: int| 0 <= i < j < events.len() ==> due_at(events[i]) <= due_at(events[j])
}

/// `events` stably sorted by due time: each event, in input order, goes
/// after every earlier event that is due no later than it.
pub open spec fn sorted_by_due_time(events: Seq<ScheduledFault>) -> Seq<ScheduledFault>
    decreases events.len(),
{
    if events.len() == 0 {
        Seq::empty()
    } else {
        let sorted = sorted_by_due_time(events.drop_last());
        sorted.insert(due_prefix(sorted, due_at(events.last())) as int, events.last())
    }
}

/// In a time-ordered sequence the due prefix is exactly the events due no
/// later than `now`.
proof fn lemma_due_prefix_splits(events: Seq<ScheduledFault>, now: u128)
    requires
        in_time_order(events),
    ensures
        due_prefix(events, now) <= events.len(),
        forall|i: int| 0 <= i < due_prefix(events, now) ==> due_at(#[trigger] events[i]) <= now,
        forall|i: int| due_prefix(events, now) <= i < events.len() ==> due_at(#[trigger] events[i]) > now,
    decreases events.len(),
{
    if events.len() > 0 && due_at(events[0]) <= now {
        let rest = events.drop_first();
        lemma_due_prefix_splits(rest, now);
        assert forall|i: int| 0 <= i < due_prefix(events, now) implies due_at(#[trigger] events[i]) <= now by {
            if i > 0 {
                assert(events[i] == rest[i - 1]);
            }
        }
        assert forall|i: int| due_prefix(events, now) <= i < events.len() implies due_at(#[trigger] events[i]) > now by {
            assert(events[i] == rest[i - 1]);
        }
    }
}

/// Law: sorting a script by due time puts it in time order and keeps every
/// event, each as often as it was given.
pub proof fn lemma_sorted_script_is_ordered_permutation(events: Seq<ScheduledFault>)
    ensures
        in_time_order(sorted_by_due_time(events)),
        sorted_by_due_time(events).to_multiset() == events.to_multiset(),
        sorted_by_due_time(events).len() == events.len(),
    decreases events.len(),
{
    broadcast use vstd::seq_lib::to_multiset_insert, vstd::seq_lib::to_multiset_build;

    if events.len() > 0 {
        let rest = events.drop_last();
        let last = events.last();
        lemma_sorted_script_is_ordered_permutation(rest);
        let sorted = sorted_by_due_time(rest);
        let place = due_prefix(sorted, due_at(last)) as int;
        lemma_due_prefix_splits(sorted, due_at(last));
        let result = sorted.insert(place, last);
        assert forall|i: int, j: int| 0 <= i < j < result.len() implies due_at(result[i]) <= due_at(
            result[j],
        ) by {
            if j < place {
            } else if j == place {
                assert(result[i] == sorted[i]);
            } else if i < place {
                assert(result[j] == sorted[j - 1]);
            } else if i == place {
                assert(result[j] == sorted[j - 1]);
            } else {
                assert(result[i] == sorted[i - 1]);
                assert(result[j] == sorted[j - 1]);
            }
        }
        assert(events =~= rest.push(last));
        assert(events.to_multiset() == rest.to_multiset().insert(last));
        assert(result.to_multiset() == sorted.to_multiset().insert(last));
    } else {
        assert(events =~= Seq::<ScheduledFault>::empty());
        assert(sorted_by_due_time(events) =~= Seq::<ScheduledFault>::empty());
    }
}

/// A bounded, time-ordered script of faults with the seed it was made with.
#[derive(Debug)]
pub struct FaultScript {
    seed: u64,
    events: Vec<ScheduledFault>,
}

impl FaultScript {
    /// The most events a script may hold.
    pub const MAX_EVENTS: usize = 256;

    /// The seed the script was made with.
    pub closed spec fn spec_seed(&self) -> u64 {
        self.seed
    }

    /// The script's events in the order they become due.
    pub closed spec fn spec_events(&self) -> Seq<ScheduledFault> {
        self.events@
    }

    /// A script of at most `MAX_EVENTS` events, stably sorted by due time;
    /// a longer list is refused.
    pub fn new(seed: u64, events: Vec<ScheduledFault>) -> (script: Result<Self, &'static str>)
        ensures
            script is Err <==> events@.len() > Self::MAX_EVENTS,
            script matches Err(message) ==> message@ == "fault script exceeds the bounded event capacity"@,
            script matches Ok(made) ==> made.spec_seed() == seed && made.spec_events()
                == sorted_by_due_time(events@),
    {
        if events.len() > Self::MAX_EVENTS {
            return Err("fault script exceeds the bounded event capacity");
        }
        let mut sorted: Vec<ScheduledFault> = Vec::new();
        let mut index: usize = 0;
        while index < events.len()
            invariant
                index <= events@.len(),
                sorted@ == sorted_by_due_time(events@.subrange(0, index as int)),
            decreases events@.len() - index,
        {
            let event = events[index];
            let due = duration_as_nanos(&event.at);
            let mut place: usize = 0;
            assert(sorted@.skip(0) =~= sorted@);
            proof {
                lemma_sorted_script_is_ordered_permutation(events@.subrange(0, index as int));
            }
            while place < sorted.len() && duration_as_nanos(&sorted[place].at) <= due
                invariant
                    place <= sorted@.len(),
                    due == due_at(event),
                    due_prefix(sorted@, due) == place + due_prefix(sorted@.skip(place as int), due),
                decreases sorted@.len() - place,
            {
                assert(sorted@.skip(place as int).drop_first() =~= sorted@.skip(place + 1));
                place = place + 1;
            }
            proof {
                if place < sorted@.len() {
                    assert(sorted@.skip(place as int)[0] == sorted@[place as int]);
                } else {
                    assert(sorted@.skip(place as int).len() == 0);
                }
                let prefix = events@.subrange(0, index + 1);
                assert(prefix.drop_last() =~= events@.subrange(0, index as int));
                assert(prefix.last() == event);
            }
            sorted.insert(place, event);
            index = index + 1;
        }
        assert(events@.subrange(0, events@.len() as int) =~= events@);
        proof {
            lemma_sorted_script_is_ordered_permutation(events@);
        }
        Ok(FaultScript { seed, events: sorted })
    }

    /// The seed the script was made with.
    pub fn seed(&self) -> (seed: u64)
        ensures
            seed == self.spec_seed(),
    {
        self.seed
    }

    /// A script's events are always in time order.
    #[verifier::type_invariant]
    closed spec fn events_in_time_order(&self) -> bool {
        in_time_order(self.events@)
    }
}


/// A fault that is either active or not, with no parameter.
pub open spec fn is_flag_fault(fault: FaultKind) -> bool {
    !(fault is DelayPackets || fault is BlackholeAfter || fault is NetworkChange
        || fault is FailDnsAttempts)
}

/// Whether `candidate` is the parameterless fault `wanted`.
fn same_flag(candidate: &FaultKind, wanted: &FaultKind) -> (same: bool)
    requires
        is_flag_fault(*wanted),
    ensures
        same == (*candidate == *wanted),
{
    match (candidate, wanted) {
        (FaultKind::DropAllUdp, FaultKind::DropAllUdp) => true,
        (FaultKind::ReorderDatagrams, FaultKind::ReorderDatagrams) => true,
        (FaultKind::DuplicateDatagrams, FaultKind::DuplicateDatagrams) => true,
        (FaultKind::RemoveIpv4, FaultKind::RemoveIpv4) => true,
        (FaultKind::RemoveIpv6, FaultKind::RemoveIpv6) => true,
        (FaultKind::StallReads, FaultKind::StallReads) => true,
        (FaultKind::StallWrites, FaultKind::StallWrites) => true,
        (FaultKind::FailSocketProtect, FaultKind::FailSocketProtect) => true,
        (FaultKind::FailFirstH3Handshake, FaultKind::FailFirstH3Handshake) => true,
        (FaultKind::StallQuicHandshake, FaultKind::StallQuicHandshake) => true,
        (FaultKind::DisableH3Datagrams, FaultKind::DisableH3Datagrams) => true,
        (FaultKind::FailDnsApply, FaultKind::FailDnsApply) => true,
        (FaultKind::FailRouteApply, FaultKind::FailRouteApply) => true,
        (FaultKind::FillSendQueue, FaultKind::FillSendQueue) => true,
        (FaultKind::ForceH2GoAway, FaultKind::ForceH2GoAway) => true,
        (FaultKind::ForceH2StreamReset, FaultKind::ForceH2StreamReset) => true,
        (FaultKind::DisconnectAgentIpc, FaultKind::DisconnectAgentIpc) => true,
        (FaultKind::TerminateVpnProcess, FaultKind::TerminateVpnProcess) => true,
        (FaultKind::EndpointPinMismatch, FaultKind::EndpointPinMismatch) => true,
        _ => false,
    }
}

/// Whether the parameterless fault `wanted` is among `active`.
fn has_fault(active: &Vec<FaultKind>, wanted: FaultKind) -> (found: bool)
    requires
        is_flag_fault(wanted),
    ensures
        found == active@.contains(wanted),
{
    let mut index: usize = 0;
    while index < active.len()
        invariant
            index <= active@.len(),
            is_flag_fault(wanted),
            forall|i: int| 0 <= i < index ==> active@[i] != wanted,
        decreases active@.len() - index,
    {
        if same_flag(&active[index], &wanted) {
            return true;
        }
        index = index + 1;
    }
    false
}

/// Some active `BlackholeAfter` limit has been passed by `packets_seen`.
pub open spec fn spec_blackholed(active: Seq<FaultKind>, packets_seen: u64) -> bool {
    exists|i: int|
        0 <= i < active.len() && (#[trigger] active[i] matches FaultKind::BlackholeAfter(limit)
            && packets_seen > limit)
}

fn blackholed(active: &Vec<FaultKind>, packets_seen: u64) -> (found: bool)
    ensures
        found == spec_blackholed(active@, packets_seen),
{
    let mut index: usize = 0;
    while index < active.len()
        invariant
            index <= active@.len(),
            forall|i: int|
                0 <= i < index ==> !(#[trigger] active@[i] matches FaultKind::BlackholeAfter(limit)
                    && packets_seen > limit),
        decreases active@.len() - index,
    {
        if let FaultKind::BlackholeAfter(limit) = active[index] {
            if packets_seen > limit {
                return true;
            }
        }
        index = index + 1;
    }
    false
}

/// The network generation after `fired` events: the largest of `generation`
/// and every `NetworkChange` among them.
pub open spec fn fired_generation(generation: u64, fired: Seq<ScheduledFault>) -> u64
    decreases fired.len(),
{
    if fired.len() == 0 {
        generation
    } else {
        let earlier = fired_generation(generation, fired.drop_last());
        match fired.last().fault {
            FaultKind::NetworkChange(changed) => if changed > earlier {
                changed
            } else {
                earlier
            },
            _ => earlier,
        }
    }
}

/// The DNS failures still owed after `fired` events: the largest of
/// `remaining` and every `FailDnsAttempts` among them.
pub open spec fn fired_dns_failures(remaining: u8, fired: Seq<ScheduledFault>) -> u8
    decreases fired.len(),
{
    if fired.len() == 0 {
        remaining
    } else {
        let earlier = fired_dns_failures(remaining, fired.drop_last());
        match fired.last().fault {
            FaultKind::FailDnsAttempts(attempts) => if attempts > earlier {
                attempts
            } else {
                earlier
            },
            _ => earlier,
        }
    }
}

/// Law: after a network change only the latest generation counts. The
/// generation never goes back, covers every change that fired, and is the
/// starting one or one of the fired changes.
pub proof fn lemma_fired_generation_is_latest(generation: u64, fired: Seq<ScheduledFault>)
    ensures
        fired_generation(generation, fired) >= generation,
        forall|i: int|
            0 <= i < fired.len() ==> (#[trigger] fired[i].fault matches FaultKind::NetworkChange(changed)
                ==> fired_generation(generation, fired) >= changed),
        fired_generation(generation, fired) == generation || exists|i: int|
            0 <= i < fired.len() && #[trigger] fired[i].fault == FaultKind::NetworkChange(
                fired_generation(generation, fired),
            ),
    decreases fired.len(),
{
    if fired.len() > 0 {
        let earlier = fired.drop_last();
        lemma_fired_generation_is_latest(generation, earlier);
        assert forall|i: int|
            0 <= i < fired.len() implies (#[trigger] fired[i].fault matches FaultKind::NetworkChange(
            changed) ==> fired_generation(generation, fired) >= changed) by {
            if i < fired.len() - 1 {
                assert(fired[i] == earlier[i]);
            }
        }
        if fired_generation(generation, fired) != generation {
            if fired_generation(generation, fired) == fired_generation(generation, earlier) {
                let i = choose|i: int|
                    0 <= i < earlier.len() && #[trigger] earlier[i].fault == FaultKind::NetworkChange(
                        fired_generation(generation, earlier),
                    );
                assert(fired[i] == earlier[i]);
            } else {
                assert(fired[fired.len() - 1].fault == FaultKind::NetworkChange(
                    fired_generation(generation, fired),
                ));
            }
        }
    }
}

/// What a harness holds: the faults not yet due, the faults in force, and
/// its counters.
pub struct FaultHarnessView {
    pub pending: Seq<ScheduledFault>,
    pub active: Seq<FaultKind>,
    pub seed: u64,
    pub packets_seen: u64,
    pub h3_attempts: u32,
    pub h2_attempts: u32,
    pub dns_failures_remaining: u8,
    pub network_generation: u64,
    pub send_queue_capacity: usize,
    pub send_queue_depth: usize,
    pub send_queue_high_watermark: usize,
    pub send_queue_waits: u64,
    pub send_queue_drops: u64,
}

impl FaultHarnessView {
    /// What every harness keeps: pending faults stay in time order, the send
    /// queue never exceeds its non-zero capacity, the high watermark covers
    /// the current depth, nothing is ever dropped, and senders wait only
    /// while the queue is full or a fault keeps it full.
    pub open spec fn consistent(self) -> bool {
        &&& in_time_order(self.pending)
        &&& self.send_queue_capacity > 0
        &&& self.send_queue_depth <= self.send_queue_high_watermark
        &&& self.send_queue_high_watermark <= self.send_queue_capacity
        &&& self.send_queue_drops == 0
        &&& self.send_queue_waits > 0 ==> (self.send_queue_depth == self.send_queue_capacity
            || self.active.contains(FaultKind::FillSendQueue))
    }
}

/// A deterministic stand-in for the network and platform that answers each
/// transport operation as the due faults dictate.
#[derive(Debug)]
pub struct FaultHarness {
    pending: Vec<ScheduledFault>,
    next_pending: usize,
    active: Vec<FaultKind>,
    seed: u64,
    packets_seen: u64,
    h3_attempts: u32,
    h2_attempts: u32,
    dns_failures_remaining: u8,
    network_generation: u64,
    send_queue_capacity: usize,
    send_queue_depth: usize,
    send_queue_high_watermark: usize,
    send_queue_waits: u64,
    send_queue_drops: u64,
}

impl View for FaultHarness {
    type V = FaultHarnessView;

    closed spec fn view(&self) -> FaultHarnessView {
        FaultHarnessView {
            pending: self.pending@.skip(self.next_pending as int),
            active: self.active@,
            seed: self.seed,
            packets_seen: self.packets_seen,
            h3_attempts: self.h3_attempts,
            h2_attempts: self.h2_attempts,
            dns_failures_remaining: self.dns_failures_remaining,
            network_generation: self.network_generation,
            send_queue_capacity: self.send_queue_capacity,
            send_queue_depth: self.send_queue_depth,
            send_queue_high_watermark: self.send_queue_high_watermark,
            send_queue_waits: self.send_queue_waits,
            send_queue_drops: self.send_queue_drops,
        }
    }
}

/// A failure not yet attributed to a path.
pub open spec fn fresh_failure(code: TransportFailureCode, stage: TransportStage) -> TransportFailure {
    unattributed(code, stage)
}

/// The answer to an H3 connection attempt, given the faults in force and the
/// attempt's number.
pub open spec fn spec_h3_outcome(active: Seq<FaultKind>, attempt: u32) -> Result<(), TransportFailure> {
    if active.contains(FaultKind::EndpointPinMismatch) {
        Err(fresh_failure(TransportFailureCode::EndpointPinMismatch, TransportStage::TlsHandshake))
    } else if active.contains(FaultKind::DropAllUdp) {
        Err(fresh_failure(TransportFailureCode::H3UdpUnreachable, TransportStage::QuicHandshake))
    } else if active.contains(FaultKind::StallQuicHandshake) || (active.contains(
        FaultKind::FailFirstH3Handshake,
    ) && attempt == 1) {
        Err(fresh_failure(TransportFailureCode::H3HandshakeTimeout, TransportStage::QuicHandshake))
    } else if active.contains(FaultKind::DisableH3Datagrams) {
        Err(fresh_failure(TransportFailureCode::H3DatagramUnavailable, TransportStage::PeerSettings))
    } else if active.contains(FaultKind::FailSocketProtect) {
        Err(
            fresh_failure(
                TransportFailureCode::SocketProtectionFailed,
                TransportStage::SocketProtection,
            ),
        )
    } else {
        Ok(())
    }
}

/// The answer to an H2 connection attempt, given the faults in force and the
/// attempt's number.
pub open spec fn spec_h2_outcome(active: Seq<FaultKind>, attempt: u32) -> Result<(), TransportFailure> {
    if active.contains(FaultKind::ForceH2GoAway) && attempt == 1 {
        Err(fresh_failure(TransportFailureCode::H2GoAway, TransportStage::MasqueConnect))
    } else if active.contains(FaultKind::ForceH2StreamReset) && attempt == 1 {
        Err(fresh_failure(TransportFailureCode::H2StreamClosed, TransportStage::PacketReceive))
    } else {
        Ok(())
    }
}

/// The family an endpoint is resolved in: the preferred one while it is
/// available, else the other one, else the preferred family's failure.
pub open spec fn spec_endpoint_family(active: Seq<FaultKind>, preferred: AddressFamily) -> Result<
    AddressFamily,
    TransportFailure,
> {
    let ipv4 = !active.contains(FaultKind::RemoveIpv4);
    let ipv6 = !active.contains(FaultKind::RemoveIpv6);
    match preferred {
        AddressFamily::Ipv6 => if ipv6 {
            Ok(AddressFamily::Ipv6)
        } else if ipv4 {
            Ok(AddressFamily::Ipv4)
        } else {
            Err(
                fresh_failure(
                    TransportFailureCode::PhysicalIpv6Unavailable,
                    TransportStage::EndpointResolution,
                ),
            )
        },
        AddressFamily::Ipv4 => if ipv4 {
            Ok(AddressFamily::Ipv4)
        } else if ipv6 {
            Ok(AddressFamily::Ipv6)
        } else {
            Err(
                fresh_failure(
                    TransportFailureCode::PhysicalIpv4Unavailable,
                    TransportStage::EndpointResolution,
                ),
            )
        },
    }
}

/// `fault` in force fails the operation with `code` at `stage`.
pub open spec fn spec_fails_when(
    active: Seq<FaultKind>,
    fault: FaultKind,
    code: TransportFailureCode,
    stage: TransportStage,
) -> Result<(), TransportFailure> {
    if active.contains(fault) {
        Err(fresh_failure(code, stage))
    } else {
        Ok(())
    }
}

/// `value + 1`, held at the type's maximum.
pub open spec fn saturating_increment_u32(value: u32) -> u32 {
    if value == u32::MAX { value } else { (value + 1) as u32 }
}

pub open spec fn saturating_increment_u64(value: u64) -> u64 {
    if value == u64::MAX { value } else { (value + 1) as u64 }
}

/// The state after one packet is offered to the send queue, and the answer.
pub open spec fn spec_send_packet(state: FaultHarnessView) -> (FaultHarnessView, Result<(), TransportFailure>) {
    let seen = saturating_increment_u64(state.packets_seen);
    let counted = FaultHarnessView { packets_seen: seen, ..state };
    if spec_blackholed(state.active, seen) {
        (
            counted,
            Err(fresh_failure(TransportFailureCode::PacketReceiveStalled, TransportStage::PacketReceive)),
        )
    } else if state.active.contains(FaultKind::StallWrites) {
        (counted, Err(fresh_failure(TransportFailureCode::PacketSendTimeout, TransportStage::PacketSend)))
    } else if state.active.contains(FaultKind::FillSendQueue) || state.send_queue_depth
        == state.send_queue_capacity {
        (
            FaultHarnessView {
                send_queue_waits: saturating_increment_u64(state.send_queue_waits),
                ..counted
            },
            Ok(()),
        )
    } else {
        let depth = (state.send_queue_depth + 1) as usize;
        (
            FaultHarnessView {
                send_queue_depth: depth,
                send_queue_high_watermark: if depth > state.send_queue_high_watermark {
                    depth
                } else {
                    state.send_queue_high_watermark
                },
                ..counted
            },
            Ok(()),
        )
    }
}

/// The state after one queued send completes: a waiting sender is released
/// first, else the queue shrinks by one.
pub open spec fn spec_complete_send(state: FaultHarnessView) -> FaultHarnessView {
    if state.send_queue_waits != 0 {
        FaultHarnessView { send_queue_waits: (state.send_queue_waits - 1) as u64, ..state }
    } else {
        FaultHarnessView {
            send_queue_depth: if state.send_queue_depth == 0 {
                0
            } else {
                (state.send_queue_depth - 1) as usize
            },
            ..state
        }
    }
}

/// The harness after every pending fault due by `now` came into force.
pub open spec fn spec_advanced(state: FaultHarnessView, now: u128) -> FaultHarnessView {
    let due = due_prefix(state.pending, now);
    let fired = state.pending.take(due as int);
    FaultHarnessView {
        pending: state.pending.skip(due as int),
        active: state.active + fired.map_values(|event: ScheduledFault| event.fault),
        network_generation: fired_generation(state.network_generation, fired),
        dns_failures_remaining: fired_dns_failures(state.dns_failures_remaining, fired),
        ..state
    }
}

/// The leading due events never outnumber the events, and more time makes
/// no fewer of them due.
proof fn lemma_due_prefix_monotone(events: Seq<ScheduledFault>, earlier: u128, later: u128)
    requires
        earlier <= later,
    ensures
        due_prefix(events, earlier) <= due_prefix(events, later) <= events.len(),
    decreases events.len(),
{
    if events.len() > 0 {
        lemma_due_prefix_monotone(events.drop_first(), earlier, later);
    }
}

/// Dropping leading due events leaves the rest of the due prefix; the event
/// after the due prefix is not yet due.
proof fn lemma_due_prefix_skip(events: Seq<ScheduledFault>, skipped: int, now: u128)
    requires
        0 <= skipped <= due_prefix(events, now),
    ensures
        due_prefix(events.skip(skipped), now) == due_prefix(events, now) - skipped,
        due_prefix(events, now) < events.len() ==> due_at(events[due_prefix(events, now) as int]) > now,
    decreases events.len(),
{
    lemma_due_prefix_monotone(events, now, now);
    if events.len() > 0 {
        if due_at(events[0]) <= now {
            let rest = events.drop_first();
            if skipped > 0 {
                lemma_due_prefix_skip(rest, skipped - 1, now);
                assert(events.skip(skipped) =~= rest.skip(skipped - 1));
            } else {
                assert(events.skip(0) =~= events);
                lemma_due_prefix_skip(rest, 0, now);
            }
            lemma_due_prefix_skip(rest, 0, now);
            if due_prefix(events, now) < events.len() {
                assert(events[due_prefix(events, now) as int] == rest[due_prefix(rest, now) as int]);
            }
        } else {
            assert(events.skip(0) =~= events);
        }
    }
}

/// Firing events in two batches gives the generation of firing them all.
proof fn lemma_fired_generation_append(generation: u64, first: Seq<ScheduledFault>, second: Seq<ScheduledFault>)
    ensures
        fired_generation(fired_generation(generation, first), second) == fired_generation(generation, first + second),
    decreases second.len(),
{
    if second.len() == 0 {
        assert(first + second =~= first);
    } else {
        lemma_fired_generation_append(generation, first, second.drop_last());
        assert((first + second).drop_last() =~= first + second.drop_last());
    }
}

/// Firing events in two batches gives the DNS failure budget of firing
/// them all.
proof fn lemma_fired_dns_failures_append(remaining: u8, first: Seq<ScheduledFault>, second: Seq<ScheduledFault>)
    ensures
        fired_dns_failures(fired_dns_failures(remaining, first), second) == fired_dns_failures(
            remaining,
            first + second,
        ),
    decreases second.len(),
{
    if second.len() == 0 {
        assert(first + second =~= first);
    } else {
        lemma_fired_dns_failures_append(remaining, first, second.drop_last());
        assert((first + second).drop_last() =~= first + second.drop_last());
    }
}

/// Law: advancing the clock twice is advancing it once to the later time.
/// Advancing to an earlier time than before brings nothing new into force.
pub proof fn lemma_advancing_twice(state: FaultHarnessView, first: u128, second: u128)
    ensures
        spec_advanced(spec_advanced(state, first), second) == spec_advanced(
            state,
            if first >= second { first } else { second },
        ),
{
    let pending = state.pending;
    let d1 = due_prefix(pending, first);
    let once = spec_advanced(state, first);
    lemma_due_prefix_skip(pending, 0, first);
    assert(pending.skip(0) =~= pending);
    if first >= second {
        lemma_due_prefix_monotone(pending, second, first);
        let rest = pending.skip(d1 as int);
        if rest.len() > 0 {
            assert(rest[0] == pending[d1 as int]);
        }
        assert(due_prefix(rest, second) == 0);
        let none = rest.take(0);
        assert(none =~= Seq::<ScheduledFault>::empty());
        assert(rest.skip(0) =~= rest);
        assert(once.active + none.map_values(|event: ScheduledFault| event.fault) =~= once.active);
        assert(spec_advanced(once, second) =~= once);
    } else {
        lemma_due_prefix_monotone(pending, first, second);
        let d2 = due_prefix(pending, second);
        lemma_due_prefix_skip(pending, d1 as int, second);
        let rest = pending.skip(d1 as int);
        let extra = (d2 - d1) as int;
        let fired_first = pending.take(d1 as int);
        let fired_more = rest.take(extra);
        assert(fired_first + fired_more =~= pending.take(d2 as int));
        assert(rest.skip(extra) =~= pending.skip(d2 as int));
        lemma_fired_generation_append(state.network_generation, fired_first, fired_more);
        lemma_fired_dns_failures_append(state.dns_failures_remaining, fired_first, fired_more);
        assert(state.active + fired_first.map_values(|event: ScheduledFault| event.fault)
            + fired_more.map_values(|event: ScheduledFault| event.fault) =~= state.active + pending.take(
            d2 as int,
        ).map_values(|event: ScheduledFault| event.fault));
        assert(spec_advanced(once, second) =~= spec_advanced(state, second));
    }
}

/// Law: a packet the send queue accepts, followed by one completed send,
/// leaves the queue depth and the waiting senders as they were, in a
/// consistent harness whose waiting count has room to grow.
pub proof fn lemma_send_then_complete_restores(state: FaultHarnessView)
    requires
        state.consistent(),
        spec_send_packet(state).1 is Ok,
        state.send_queue_waits < u64::MAX,
    ensures
        spec_complete_send(spec_send_packet(state).0).send_queue_depth == state.send_queue_depth,
        spec_complete_send(spec_send_packet(state).0).send_queue_waits == state.send_queue_waits,
{
}

impl FaultHarness {
    /// The harness's own bookkeeping holds and its view is consistent.
    pub closed spec fn well_formed(&self) -> bool {
        &&& self.next_pending <= self.pending@.len()
        &&& self@.consistent()
    }

    /// Law: every well-formed harness is consistent.
    pub proof fn lemma_well_formed_is_consistent(&self)
        requires
            self.well_formed(),
        ensures
            self@.consistent(),
    {
    }

    /// A harness for `script` with a send queue of `send_queue_capacity`
    /// packets; a zero capacity is refused.
    pub fn new(script: FaultScript, send_queue_capacity: usize) -> (harness: Result<Self, &'static str>)
        ensures
            harness is Err <==> send_queue_capacity == 0,
            harness matches Err(message) ==> message@ == "send queue capacity must be non-zero"@,
            harness matches Ok(made) ==> {
                &&& made.well_formed()
                &&& made@ == (FaultHarnessView {
                    pending: script.spec_events(),
                    active: Seq::empty(),
                    seed: script.spec_seed(),
                    packets_seen: 0,
                    h3_attempts: 0,
                    h2_attempts: 0,
                    dns_failures_remaining: 0,
                    network_generation: 0,
                    send_queue_capacity,
                    send_queue_depth: 0,
                    send_queue_high_watermark: 0,
                    send_queue_waits: 0,
                    send_queue_drops: 0,
                })
            },
    {
        if send_queue_capacity == 0 {
            return Err("send queue capacity must be non-zero");
        }
        proof {
            use_type_invariant(&script);
        }
        let harness = FaultHarness {
            pending: script.events,
            next_pending: 0,
            active: Vec::new(),
            seed: script.seed,
            packets_seen: 0,
            h3_attempts: 0,
            h2_attempts: 0,
            dns_failures_remaining: 0,
            network_generation: 0,
            send_queue_capacity,
            send_queue_depth: 0,
            send_queue_high_watermark: 0,
            send_queue_waits: 0,
            send_queue_drops: 0,
        };
        assert(harness.pending@.skip(0) =~= harness.pending@);
        Ok(harness)
    }

    /// The seed of the script the harness runs.
    pub fn seed(&self) -> (seed: u64)
        ensures
            seed == self@.seed,
    {
        self.seed
    }

    /// Brings every pending fault that is due by `elapsed` into force, in
    /// time order; network changes and DNS failure budgets only ever grow.
    pub fn advance_to(&mut self, elapsed: Duration)
        requires
            old(self).well_formed(),
        ensures
            final(self).well_formed(),
            final(self)@ == spec_advanced(old(self)@, duration_nanos(elapsed)),
            ({
                let due = due_prefix(old(self)@.pending, duration_nanos(elapsed));
                let fired = old(self)@.pending.take(due as int);
                final(self)@ == FaultHarnessView {
                    pending: old(self)@.pending.skip(due as int),
                    active: old(self)@.active + fired.map_values(|event: ScheduledFault| event.fault),
                    network_generation: fired_generation(old(self)@.network_generation, fired),
                    dns_failures_remaining: fired_dns_failures(
                        old(self)@.dns_failures_remaining,
                        fired,
                    ),
                    ..old(self)@
                }
            }),
            forall|i: int|
                0 <= i < final(self)@.pending.len() ==> due_at(#[trigger] final(self)@.pending[i])
                    > duration_nanos(elapsed),
    {
        let now = duration_as_nanos(&elapsed);
        let ghost start = self.next_pending as int;
        let ghost initial = self@;
        let ghost initial_active = self.active@;
        proof {
            lemma_due_prefix_splits(initial.pending, now);
        }
        while self.next_pending < self.pending.len() && duration_as_nanos(
            &self.pending[self.next_pending].at,
        ) <= now
            invariant
                0 <= start <= self.next_pending <= self.pending@.len(),
                initial.pending == self.pending@.skip(start),
                in_time_order(initial.pending),
                now == duration_nanos(elapsed),
                self.next_pending - start <= due_prefix(initial.pending, now),
                forall|i: int| 0 <= i < due_prefix(initial.pending, now) ==> due_at(
                    #[trigger] initial.pending[i],
                ) <= now,
                forall|i: int|
                    due_prefix(initial.pending, now) <= i < initial.pending.len() ==> due_at(
                        #[trigger] initial.pending[i],
                    ) > now,
                self.active@ == initial_active + initial.pending.take(self.next_pending - start).map_values(
                    |event: ScheduledFault| event.fault,
                ),
                self.network_generation == fired_generation(
                    initial.network_generation,
                    initial.pending.take(self.next_pending - start),
                ),
                self.dns_failures_remaining == fired_dns_failures(
                    initial.dns_failures_remaining,
                    initial.pending.take(self.next_pending - start),
                ),
                self.seed == initial.seed,
                self.packets_seen == initial.packets_seen,
                self.h3_attempts == initial.h3_attempts,
                self.h2_attempts == initial.h2_attempts,
                self.send_queue_capacity == initial.send_queue_capacity,
                self.send_queue_depth == initial.send_queue_depth,
                self.send_queue_high_watermark == initial.send_queue_high_watermark,
                self.send_queue_waits == initial.send_queue_waits,
                self.send_queue_drops == initial.send_queue_drops,
            decreases self.pending@.len() - self.next_pending,
        {
            let event = self.pending[self.next_pending];
            let ghost count = self.next_pending - start;
            proof {
                assert(initial.pending.len() == self.pending@.len() - start);
                assert(self.pending@.skip(start)[count] == self.pending@[start + count]);
                assert(initial.pending[count] == event);
                let taken = initial.pending.take(count + 1);
                assert(taken.drop_last() =~= initial.pending.take(count));
                assert(taken.last() == event);
            }
            match event.fault {
                FaultKind::NetworkChange(generation) => {
                    if generation > self.network_generation {
                        self.network_generation = generation;
                    }
                },
                FaultKind::FailDnsAttempts(attempts) => {
                    if attempts > self.dns_failures_remaining {
                        self.dns_failures_remaining = attempts;
                    }
                },
                _ => {},
            }
            self.active.push(event.fault);
            self.next_pending = self.next_pending + 1;
            proof {
                assert(initial.pending.take(count + 1).map_values(|event: ScheduledFault| event.fault)
                    =~= initial.pending.take(count).map_values(|event: ScheduledFault| event.fault).push(
                    event.fault,
                ));
            }
        }
        proof {
            let count = self.next_pending - start;
            if count < due_prefix(initial.pending, now) {
                assert(self.next_pending < self.pending@.len());
                assert(initial.pending[count] == self.pending@[self.next_pending as int]);
            }
            assert(self.pending@.skip(self.next_pending as int) =~= initial.pending.skip(count));
            if initial_active.contains(FaultKind::FillSendQueue) {
                let k = choose|k: int| 0 <= k < initial_active.len() && initial_active[k]
                    == FaultKind::FillSendQueue;
                assert(self.active@[k] == initial_active[k]);
            }
        }
    }

    /// One H3 connection attempt: counted, then answered by the faults in
    /// force.
    pub fn h3_connect(&mut self) -> (result: Result<(), TransportFailure>)
        requires
            old(self).well_formed(),
        ensures
            final(self).well_formed(),
            final(self)@ == (FaultHarnessView {
                h3_attempts: saturating_increment_u32(old(self)@.h3_attempts),
                ..old(self)@
            }),
            result == spec_h3_outcome(old(self)@.active, final(self)@.h3_attempts),
    {
        self.h3_attempts = self.h3_attempts.saturating_add(1);
        if has_fault(&self.active, FaultKind::EndpointPinMismatch) {
            return Err(
                TransportFailure::new(
                    TransportFailureCode::EndpointPinMismatch,
                    TransportStage::TlsHandshake,
                ),
            );
        }
        if has_fault(&self.active, FaultKind::DropAllUdp) {
            return Err(
                TransportFailure::new(
                    TransportFailureCode::H3UdpUnreachable,
                    TransportStage::QuicHandshake,
                ),
            );
        }
        if has_fault(&self.active, FaultKind::StallQuicHandshake) || (has_fault(
            &self.active,
            FaultKind::FailFirstH3Handshake,
        ) && self.h3_attempts == 1) {
            return Err(
                TransportFailure::new(
                    TransportFailureCode::H3HandshakeTimeout,
                    TransportStage::QuicHandshake,
                ),
            );
        }
        if has_fault(&self.active, FaultKind::DisableH3Datagrams) {
            return Err(
                TransportFailure::new(
                    TransportFailureCode::H3DatagramUnavailable,
                    TransportStage::PeerSettings,
                ),
            );
        }
        if has_fault(&self.active, FaultKind::FailSocketProtect) {
            return Err(
                TransportFailure::new(
                    TransportFailureCode::SocketProtectionFailed,
                    TransportStage::SocketProtection,
                ),
            );
        }
        Ok(())
    }

    /// One H2 connection attempt: counted, then answered by the faults in
    /// force; forced GOAWAY and stream resets hit only the first attempt.
    pub fn h2_connect(&mut self) -> (result: Result<(), TransportFailure>)
        requires
            old(self).well_formed(),
        ensures
            final(self).well_formed(),
            final(self)@ == (FaultHarnessView {
                h2_attempts: saturating_increment_u32(old(self)@.h2_attempts),
                ..old(self)@
            }),
            result == spec_h2_outcome(old(self)@.active, final(self)@.h2_attempts),
    {
        self.h2_attempts = self.h2_attempts.saturating_add(1);
        if has_fault(&self.active, FaultKind::ForceH2GoAway) && self.h2_attempts == 1 {
            return Err(
                TransportFailure::new(TransportFailureCode::H2GoAway, TransportStage::MasqueConnect),
            );
        }
        if has_fault(&self.active, FaultKind::ForceH2StreamReset) && self.h2_attempts == 1 {
            return Err(
                TransportFailure::new(
                    TransportFailureCode::H2StreamClosed,
                    TransportStage::PacketReceive,
                ),
            );
        }
        Ok(())
    }

    /// One endpoint resolution: fails, using up one owed DNS failure, while
    /// any is owed.
    pub fn resolve_endpoint(&mut self) -> (result: Result<(), TransportFailure>)
        requires
            old(self).well_formed(),
        ensures
            final(self).well_formed(),
            old(self)@.dns_failures_remaining > 0 ==> {
                &&& final(self)@ == (FaultHarnessView {
                    dns_failures_remaining: (old(self)@.dns_failures_remaining - 1) as u8,
                    ..old(self)@
                })
                &&& result == Err::<(), TransportFailure>(
                    fresh_failure(
                        TransportFailureCode::PhysicalDnsUnavailable,
                        TransportStage::EndpointResolution,
                    ),
                )
            },
            old(self)@.dns_failures_remaining == 0 ==> final(self)@ == old(self)@ && result is Ok,
    {
        if self.dns_failures_remaining > 0 {
            self.dns_failures_remaining = self.dns_failures_remaining - 1;
            return Err(
                TransportFailure::new(
                    TransportFailureCode::PhysicalDnsUnavailable,
                    TransportStage::EndpointResolution,
                ),
            );
        }
        Ok(())
    }

    /// The address family an endpoint resolves in.
    pub fn select_endpoint_family(&self, preferred: AddressFamily) -> (result: Result<
        AddressFamily,
        TransportFailure,
    >)
        ensures
            result == spec_endpoint_family(self@.active, preferred),
    {
        let ipv4_available = !has_fault(&self.active, FaultKind::RemoveIpv4);
        let ipv6_available = !has_fault(&self.active, FaultKind::RemoveIpv6);
        match preferred {
            AddressFamily::Ipv6 => {
                if ipv6_available {
                    Ok(AddressFamily::Ipv6)
                } else if ipv4_available {
                    Ok(AddressFamily::Ipv4)
                } else {
                    Err(
                        TransportFailure::new(
                            TransportFailureCode::PhysicalIpv6Unavailable,
                            TransportStage::EndpointResolution,
                        ),
                    )
                }
            },
            AddressFamily::Ipv4 => {
                if ipv4_available {
                    Ok(AddressFamily::Ipv4)
                } else if ipv6_available {
                    Ok(AddressFamily::Ipv6)
                } else {
                    Err(
                        TransportFailure::new(
                            TransportFailureCode::PhysicalIpv4Unavailable,
                            TransportStage::EndpointResolution,
                        ),
                    )
                }
            },
        }
    }

    /// Only packets of the current network generation are accepted.
    pub fn path_accepts_packets(&self, generation: u64) -> (accepted: bool)
        ensures
            accepted == (generation == self@.network_generation),
    {
        generation == self.network_generation
    }

    /// The agent's IPC channel, unless it was disconnected.
    pub fn agent_ipc(&self) -> (result: Result<(), TransportFailure>)
        ensures
            result == spec_fails_when(
                self@.active,
                FaultKind::DisconnectAgentIpc,
                TransportFailureCode::AgentUnreachable,
                TransportStage::PlatformRecovery,
            ),
    {
        if has_fault(&self.active, FaultKind::DisconnectAgentIpc) {
            return Err(
                TransportFailure::new(
                    TransportFailureCode::AgentUnreachable,
                    TransportStage::PlatformRecovery,
                ),
            );
        }
        Ok(())
    }

    /// The VPN service process, unless it was terminated.
    pub fn vpn_process(&self) -> (result: Result<(), TransportFailure>)
        ensures
            result == spec_fails_when(
                self@.active,
                FaultKind::TerminateVpnProcess,
                TransportFailureCode::VpnServiceUnavailable,
                TransportStage::PlatformRecovery,
            ),
    {
        if has_fault(&self.active, FaultKind::TerminateVpnProcess) {
            return Err(
                TransportFailure::new(
                    TransportFailureCode::VpnServiceUnavailable,
                    TransportStage::PlatformRecovery,
                ),
            );
        }
        Ok(())
    }

    /// Probes H3 for recovery while `active` keeps carrying data: the active
    /// transport comes back unchanged, whatever the probe's answer.
    pub fn recovery_probe_preserves_active_path(&mut self, active: Transport) -> (outcome: (
        Transport,
        Result<(), TransportFailure>,
    ))
        requires
            old(self).well_formed(),
        ensures
            final(self).well_formed(),
            final(self)@ == (FaultHarnessView {
                h3_attempts: saturating_increment_u32(old(self)@.h3_attempts),
                ..old(self)@
            }),
            outcome.0 == active,
            outcome.1 == spec_h3_outcome(old(self)@.active, final(self)@.h3_attempts),
    {
        let probe = self.h3_connect();
        (active, probe)
    }

    /// Offers one packet to the send queue. A full queue makes the sender
    /// wait; it never drops the packet or fails.
    pub fn send_packet(&mut self) -> (result: Result<(), TransportFailure>)
        requires
            old(self).well_formed(),
        ensures
            final(self).well_formed(),
            (final(self)@, result) == spec_send_packet(old(self)@),
    {
        self.packets_seen = self.packets_seen.saturating_add(1);
        if blackholed(&self.active, self.packets_seen) {
            return Err(
                TransportFailure::new(
                    TransportFailureCode::PacketReceiveStalled,
                    TransportStage::PacketReceive,
                ),
            );
        }
        if has_fault(&self.active, FaultKind::StallWrites) {
            return Err(
                TransportFailure::new(
                    TransportFailureCode::PacketSendTimeout,
                    TransportStage::PacketSend,
                ),
            );
        }
        if has_fault(&self.active, FaultKind::FillSendQueue) || self.send_queue_depth
            == self.send_queue_capacity {
            self.send_queue_waits = self.send_queue_waits.saturating_add(1);
            return Ok(());
        }
        self.send_queue_depth = self.send_queue_depth + 1;
        if self.send_queue_depth > self.send_queue_high_watermark {
            self.send_queue_high_watermark = self.send_queue_depth;
        }
        Ok(())
    }

    /// One queued send completes.
    pub fn complete_send(&mut self)
        requires
            old(self).well_formed(),
        ensures
            final(self).well_formed(),
            final(self)@ == spec_complete_send(old(self)@),
    {
        if self.send_queue_waits != 0 {
            self.send_queue_waits = self.send_queue_waits - 1;
        } else {
            self.send_queue_depth = self.send_queue_depth.saturating_sub(1);
        }
    }

    /// One packet read, unless reads are stalled.
    pub fn receive_packet(&self) -> (result: Result<(), TransportFailure>)
        ensures
            result == spec_fails_when(
                self@.active,
                FaultKind::StallReads,
                TransportFailureCode::PacketReceiveStalled,
                TransportStage::PacketReceive,
            ),
    {
        if has_fault(&self.active, FaultKind::StallReads) {
            return Err(
                TransportFailure::new(
                    TransportFailureCode::PacketReceiveStalled,
                    TransportStage::PacketReceive,
                ),
            );
        }
        Ok(())
    }

    /// Applying DNS settings, unless that is made to fail.
    pub fn dns_apply(&self) -> (result: Result<(), TransportFailure>)
        ensures
            result == spec_fails_when(
                self@.active,
                FaultKind::FailDnsApply,
                TransportFailureCode::DnsApplyFailed,
                TransportStage::DnsApply,
            ),
    {
        if has_fault(&self.active, FaultKind::FailDnsApply) {
            return Err(
                TransportFailure::new(TransportFailureCode::DnsApplyFailed, TransportStage::DnsApply),
            );
        }
        Ok(())
    }

    /// Applying routes, unless that is made to fail.
    pub fn route_apply(&self) -> (result: Result<(), TransportFailure>)
        ensures
            result == spec_fails_when(
                self@.active,
                FaultKind::FailRouteApply,
                TransportFailureCode::RouteApplyFailed,
                TransportStage::RouteApply,
            ),
    {
        if has_fault(&self.active, FaultKind::FailRouteApply) {
            return Err(
                TransportFailure::new(
                    TransportFailureCode::RouteApplyFailed,
                    TransportStage::RouteApply,
                ),
            );
        }
        Ok(())
    }

    pub fn network_generation(&self) -> (generation: u64)
        ensures
            generation == self@.network_generation,
    {
        self.network_generation
    }

    pub fn send_queue_high_watermark(&self) -> (watermark: usize)
        ensures
            watermark == self@.send_queue_high_watermark,
    {
        self.send_queue_high_watermark
    }

    pub fn send_queue_drops(&self) -> (drops: u64)
        ensures
            drops == self@.send_queue_drops,
    {
        self.send_queue_drops
    }

    pub fn send_queue_waits(&self) -> (waits: u64)
        ensures
            waits == self@.send_queue_waits,
    {
        self.send_queue_waits
    }

    pub fn send_queue_depth(&self) -> (depth: usize)
        ensures
            depth == self@.send_queue_depth,
    {
        self.send_queue_depth
    }
}

} // verus!
