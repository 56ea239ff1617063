//! The flow table of the userspace NAT: one mapping per client flow, each
//! with its own gateway port, bounded in size and swept when idle.
//!
//! The reverse direction and the port reservations are read off the
//! mappings themselves, so they can never disagree with them.

use vstd::prelude::*;

use std::time::Instant;

use tokio_util::sync::CancellationToken;

use crate::clock::{elapsed_nanos, instant_now, nanos_between};
use crate::direct_nat::{gateway_ip, NatPacket, PROTOCOL_UDP};
use crate::net::{IpAddress, SocketAddress};

verus! {

#[verifier::external_type_specification]
#[verifier::external_body]
pub struct ExCancellationToken(CancellationToken);

/// Calls `CancellationToken::child_token`: a token cancelled with its
/// parent. Cancellation state is shared between tasks, so nothing is stated.
#[verifier::external_body]
fn child_token(parent: &CancellationToken) -> CancellationToken {
    parent.child_token()
}

/// Calls `CancellationToken::cancel`, which cancels the token and its
/// children; nothing is stated of the shared state.
#[verifier::external_body]
fn cancel_token(token: &CancellationToken) {
    token.cancel()
}

/// Calls `CancellationToken::clone`: a handle on the same token.
#[verifier::external_body]
fn clone_token(token: &CancellationToken) -> CancellationToken {
    token.clone()
}

/// The first gateway port handed out.
pub const FIRST_DYNAMIC_PORT: u16 = 49_152;
/// The last gateway port handed out.
pub const LAST_DYNAMIC_PORT: u16 = 65_534;
/// How many gateway ports there are.
pub const DYNAMIC_PORT_COUNT: u16 = 16_383;
/// The most flows the table holds.
pub const MAX_DIRECT_FLOWS: usize = 4_096;
/// The most UDP flows the table holds.
pub const MAX_DIRECT_UDP_FLOWS: usize = 256;
/// A mapping idle this long is swept.
pub const FLOW_IDLE_TIMEOUT_NANOS: u128 = 300_000_000_000;
/// The table is swept at most this often.
pub const SWEEP_INTERVAL_NANOS: u128 = 30_000_000_000;

/// A client flow: protocol, client socket and remote socket.
#[derive(Clone, Copy, Debug, PartialEq, Eq, Hash, Structural)]
pub struct FlowKey {
    pub protocol: u8,
    pub client: SocketAddress,
    pub remote: SocketAddress,
}

/// The gateway side of one flow.
pub struct NatMapping {
    pub id: u64,
    pub gateway: SocketAddress,
    pub network_generation: Option<u64>,
    pub cancel: CancellationToken,
    pub last_seen: Instant,
}

/// What the table knows of one flow's mapping.
pub struct NatEntryView {
    pub flow: FlowKey,
    pub id: u64,
    pub gateway: SocketAddress,
    pub network_generation: Option<u64>,
    pub last_seen: Instant,
}

/// What the table holds. `cancelled` records, in order, every mapping the
/// table took out and whose work it cancelled: a record of the calls to
/// `CancellationToken::cancel` the table made, not of a token's state.
pub struct NatTableView {
    pub entries: Seq<NatEntryView>,
    pub udp_flows: usize,
    pub next_port: u16,
    pub next_id: u64,
    pub last_sweep: Instant,
    pub cancelled: Seq<NatEntryView>,
}

struct NatEntry {
    flow: FlowKey,
    mapping: NatMapping,
}

impl NatEntry {
    spec fn view(&self) -> NatEntryView {
        NatEntryView {
            flow: self.flow,
            id: self.mapping.id,
            gateway: self.mapping.gateway,
            network_generation: self.mapping.network_generation,
            last_seen: self.mapping.last_seen,
        }
    }
}

/// A copy of the mapping's fields with a handle on the same token.
fn copy_mapping(mapping: &NatMapping) -> (copy: NatMapping)
    ensures
        copy.id == mapping.id,
        copy.gateway == mapping.gateway,
        copy.network_generation == mapping.network_generation,
        copy.last_seen == mapping.last_seen,
{
    NatMapping {
        id: mapping.id,
        gateway: mapping.gateway,
        network_generation: mapping.network_generation,
        cancel: clone_token(&mapping.cancel),
        last_seen: mapping.last_seen,
    }
}

/// The userspace NAT's flow table.
pub struct NatTable {
    entries: Vec<NatEntry>,
    udp_flows: usize,
    next_port: u16,
    next_id: u64,
    last_sweep: Instant,
    cancelled: Ghost<Seq<NatEntryView>>,
}

/// The number of UDP flows among `entries`.
pub open spec fn udp_count(entries: Seq<NatEntryView>) -> nat
    decreases entries.len(),
{
    if entries.len() == 0 {
        0
    } else {
        udp_count(entries.drop_last()) + if entries.last().flow.protocol == PROTOCOL_UDP {
            1nat
        } else {
            0
        }
    }
}

/// Where `flow` is in the table, if it is.
pub open spec fn flow_index(entries: Seq<NatEntryView>, flow: FlowKey) -> Option<int> {
    if exists|i: int| 0 <= i < entries.len() && #[trigger] entries[i].flow == flow {
        Some(choose|i: int| 0 <= i < entries.len() && #[trigger] entries[i].flow == flow)
    } else {
        None
    }
}

/// A gateway port of the given protocol and family is taken.
pub open spec fn port_taken(entries: Seq<NatEntryView>, protocol: u8, ipv6: bool, port: u16) -> bool {
    exists|i: int|
        0 <= i < entries.len() && #[trigger] entries[i].flow.protocol == protocol && (
        entries[i].gateway.ip is V6) == ipv6 && entries[i].gateway.port == port
}

/// The `offset`-th gateway port counted cyclically from `start`.
pub open spec fn port_at(start: u16, offset: int) -> u16 {
    (FIRST_DYNAMIC_PORT + (start - FIRST_DYNAMIC_PORT + offset) % (DYNAMIC_PORT_COUNT as int)) as u16
}

/// The first free offset from `offset` on when counting gateway ports
/// cyclically from `start`, if a full cycle finds one.
pub open spec fn first_free_offset(
    entries: Seq<NatEntryView>,
    protocol: u8,
    ipv6: bool,
    start: u16,
    offset: nat,
) -> Option<nat>
    decreases DYNAMIC_PORT_COUNT - offset,
{
    if offset >= DYNAMIC_PORT_COUNT {
        None
    } else if !port_taken(entries, protocol, ipv6, port_at(start, offset as int)) {
        Some(offset)
    } else {
        first_free_offset(entries, protocol, ipv6, start, offset + 1)
    }
}

/// The table after a mapping is taken out: its entry is gone, its work is
/// cancelled and a UDP flow is no longer counted.
pub open spec fn without_entry(state: NatTableView, index: int) -> NatTableView {
    NatTableView {
        entries: state.entries.remove(index),
        cancelled: state.cancelled.push(state.entries[index]),
        udp_flows: if state.entries[index].flow.protocol == PROTOCOL_UDP {
            (state.udp_flows - 1) as usize
        } else {
            state.udp_flows
        },
        ..state
    }
}

/// A mapping seen less than the idle timeout before `now`.
pub open spec fn fresh_at(now: Instant) -> spec_fn(NatEntryView) -> bool {
    |entry: NatEntryView| elapsed_nanos(now, entry.last_seen) < FLOW_IDLE_TIMEOUT_NANOS
}

/// A mapping seen the idle timeout or longer before `now`.
pub open spec fn stale_at(now: Instant) -> spec_fn(NatEntryView) -> bool {
    |entry: NatEntryView| elapsed_nanos(now, entry.last_seen) >= FLOW_IDLE_TIMEOUT_NANOS
}

/// The table after a sweep at `now`: unchanged if the last sweep is recent,
/// otherwise stamped with `now` and without every mapping idle for the
/// idle timeout, whose work is cancelled in table order.
pub open spec fn swept(state: NatTableView, now: Instant) -> NatTableView {
    if elapsed_nanos(now, state.last_sweep) < SWEEP_INTERVAL_NANOS {
        state
    } else {
        let kept = state.entries.filter(fresh_at(now));
        NatTableView {
            entries: kept,
            udp_flows: udp_count(kept) as usize,
            last_sweep: now,
            cancelled: state.cancelled + state.entries.filter(stale_at(now)),
            ..state
        }
    }
}

/// The facts of a mapping handed out: id, gateway, generation, last seen.
pub open spec fn mapping_facts(mapping: Option<NatMapping>) -> Option<(u64, SocketAddress, Option<u64>, Instant)> {
    match mapping {
        Some(found) => Some((found.id, found.gateway, found.network_generation, found.last_seen)),
        None => None,
    }
}

/// The table and the answer after looking up `flow` at `seen` in a swept
/// table: a mapping of another generation is removed; a kept one is
/// stamped as seen and handed out.
pub open spec fn spec_existing(
    state: NatTableView,
    flow: FlowKey,
    network_generation: Option<u64>,
    seen: Instant,
) -> (NatTableView, Option<(u64, SocketAddress, Option<u64>, Instant)>) {
    match flow_index(state.entries, flow) {
        None => (state, None),
        Some(index) => {
            let entry = state.entries[index];
            if entry.network_generation != network_generation {
                (without_entry(state, index), None)
            } else {
                (
                    NatTableView {
                        entries: state.entries.update(index, NatEntryView { last_seen: seen, ..entry }),
                        ..state
                    },
                    Some((entry.id, entry.gateway, entry.network_generation, seen)),
                )
            }
        },
    }
}

/// The gateway address of the given family.
pub open spec fn spec_gateway_ip(ipv6: bool) -> IpAddress {
    if ipv6 {
        IpAddress::V6(crate::direct_nat::GATEWAY_IPV6)
    } else {
        IpAddress::V4(crate::direct_nat::GATEWAY_IPV4)
    }
}

/// The table and the answer after reserving a mapping for `flow`, first
/// seen at `seen`, in a swept table.
pub open spec fn spec_reserve(
    state: NatTableView,
    flow: FlowKey,
    network_generation: Option<u64>,
    seen: Instant,
) -> (NatTableView, Option<(u64, SocketAddress, Option<u64>, Instant)>) {
    let ipv6 = flow.client.ip is V6;
    if state.entries.len() >= MAX_DIRECT_FLOWS || (flow.protocol == PROTOCOL_UDP && state.udp_flows
        >= MAX_DIRECT_UDP_FLOWS) {
        (state, None)
    } else {
        match first_free_offset(state.entries, flow.protocol, ipv6, state.next_port, 0) {
            None => (state, None),
            Some(offset) => {
                let gateway = SocketAddress {
                    ip: spec_gateway_ip(ipv6),
                    port: port_at(state.next_port, offset as int),
                };
                let entry = NatEntryView {
                    flow,
                    id: state.next_id,
                    gateway,
                    network_generation,
                    last_seen: seen,
                };
                (
                    NatTableView {
                        entries: state.entries.push(entry),
                        udp_flows: if flow.protocol == PROTOCOL_UDP {
                            (state.udp_flows + 1) as usize
                        } else {
                            state.udp_flows
                        },
                        next_port: port_at(state.next_port, offset + 1int),
                        next_id: if state.next_id == u64::MAX {
                            1
                        } else {
                            (state.next_id + 1) as u64
                        },
                        ..state
                    },
                    Some((state.next_id, gateway, network_generation, seen)),
                )
            },
        }
    }
}

/// The entry's gateway socket sent `packet` to the entry's client.
pub open spec fn reverse_matches(entry: NatEntryView, packet: NatPacket) -> bool {
    &&& entry.flow.protocol == packet.protocol
    &&& entry.gateway == (SocketAddress { ip: packet.source, port: packet.source_port })
    &&& entry.flow.client == (SocketAddress { ip: packet.destination, port: packet.destination_port })
}

/// The first entry that `packet` comes back through, if any.
pub open spec fn reverse_index(entries: Seq<NatEntryView>, packet: NatPacket) -> Option<int> {
    if exists|i: int| 0 <= i < entries.len() && #[trigger] reverse_matches(entries[i], packet) {
        Some(
            choose|i: int|
                0 <= i < entries.len() && #[trigger] reverse_matches(entries[i], packet) && forall|j: int|
                    0 <= j < i ==> !reverse_matches(#[trigger] entries[j], packet),
        )
    } else {
        None
    }
}

/// The table and the answer after `packet` comes back at `seen` through a
/// swept table: the first matching mapping is stamped as seen.
pub open spec fn spec_reverse(state: NatTableView, packet: NatPacket, seen: Instant) -> (NatTableView, Option<FlowKey>) {
    match reverse_index(state.entries, packet) {
        None => (state, None),
        Some(index) => (
            NatTableView {
                entries: state.entries.update(index, NatEntryView { last_seen: seen, ..state.entries[index] }),
                ..state
            },
            Some(state.entries[index].flow),
        ),
    }
}

proof fn lemma_reverse_index_is(entries: Seq<NatEntryView>, packet: NatPacket, index: int)
    requires
        0 <= index < entries.len(),
        reverse_matches(entries[index], packet),
        forall|j: int| 0 <= j < index ==> !reverse_matches(#[trigger] entries[j], packet),
    ensures
        reverse_index(entries, packet) == Some(index),
{
    let chosen = choose|i: int|
        0 <= i < entries.len() && #[trigger] reverse_matches(entries[i], packet) && forall|j: int|
            0 <= j < i ==> !reverse_matches(#[trigger] entries[j], packet);
    assert(0 <= chosen < entries.len() && reverse_matches(entries[chosen], packet) && forall|j: int|
        0 <= j < chosen ==> !reverse_matches(#[trigger] entries[j], packet));
    if chosen < index {
    } else if chosen > index {
        assert(!reverse_matches(entries[index], packet));
    }
}

/// A sweep only takes flows out.
proof fn lemma_sweep_keeps_flow_absent(state: NatTableView, now: Instant, flow: FlowKey)
    requires
        flow_index(state.entries, flow) is None,
    ensures
        flow_index(swept(state, now).entries, flow) is None,
{
    broadcast use vstd::seq_lib::group_filter_ensures;

    let after = swept(state, now).entries;
    if exists|i: int| 0 <= i < after.len() && #[trigger] after[i].flow == flow {
        let i = choose|i: int| 0 <= i < after.len() && #[trigger] after[i].flow == flow;
        if elapsed_nanos(now, state.last_sweep) >= SWEEP_INTERVAL_NANOS {
            let keep = fresh_at(now);
            assert(after == state.entries.filter(keep));
            assert(after.contains(after[i]));
            state.entries.lemma_filter_contains_rev(keep, after[i]);
            let k = choose|k: int| 0 <= k < state.entries.len() && state.entries[k] == after[i];
            assert(state.entries[k].flow == flow);
        } else {
            assert(state.entries[i].flow == flow);
        }
    }
}

/// Removing one entry takes its UDP flow out of the count.
proof fn lemma_udp_count_remove(entries: Seq<NatEntryView>, index: int)
    requires
        0 <= index < entries.len(),
    ensures
        udp_count(entries.remove(index)) + (if entries[index].flow.protocol == PROTOCOL_UDP {
            1nat
        } else {
            0
        }) == udp_count(entries),
    decreases entries.len(),
{
    if index < entries.len() - 1 {
        let shorter = entries.drop_last();
        lemma_udp_count_remove(shorter, index);
        assert(entries.remove(index).drop_last() =~= shorter.remove(index));
        assert(entries.remove(index).last() == entries.last());
    } else {
        assert(entries.remove(index) =~= entries.drop_last());
    }
}

/// Restamping an entry keeps the UDP count.
proof fn lemma_udp_count_update(entries: Seq<NatEntryView>, index: int, entry: NatEntryView)
    requires
        0 <= index < entries.len(),
        entry.flow == entries[index].flow,
    ensures
        udp_count(entries.update(index, entry)) == udp_count(entries),
    decreases entries.len(),
{
    let updated = entries.update(index, entry);
    if index < entries.len() - 1 {
        lemma_udp_count_update(entries.drop_last(), index, entry);
        assert(updated.drop_last() =~= entries.drop_last().update(index, entry));
    } else {
        assert(updated.drop_last() =~= entries.drop_last());
    }
}

/// Restamping an entry when it was seen keeps the table consistent.
proof fn lemma_restamp_consistent(state: NatTableView, index: int, seen: Instant)
    requires
        NatTable::consistent(state),
        0 <= index < state.entries.len(),
    ensures
        NatTable::consistent(
            NatTableView {
                entries: state.entries.update(index, NatEntryView { last_seen: seen, ..state.entries[index] }),
                ..state
            },
        ),
{
    let entry = NatEntryView { last_seen: seen, ..state.entries[index] };
    lemma_udp_count_update(state.entries, index, entry);
    let updated = state.entries.update(index, entry);
    assert forall|i: int, j: int| 0 <= i < j < updated.len() implies #[trigger] updated[i].flow
        != #[trigger] updated[j].flow by {
        assert(state.entries[i].flow != state.entries[j].flow);
    }
}

/// The UDP count never exceeds the number of entries.
proof fn lemma_udp_count_bound(entries: Seq<NatEntryView>)
    ensures
        udp_count(entries) <= entries.len(),
    decreases entries.len(),
{
    if entries.len() > 0 {
        lemma_udp_count_bound(entries.drop_last());
    }
}

impl NatTable {
    pub closed spec fn view(&self) -> NatTableView {
        NatTableView {
            entries: self.entries@.map_values(|entry: NatEntry| entry.view()),
            udp_flows: self.udp_flows,
            next_port: self.next_port,
            next_id: self.next_id,
            last_sweep: self.last_sweep,
            cancelled: self.cancelled@,
        }
    }

    /// The table's invariant: each flow appears once, the UDP count is exact,
    /// both bounds hold, the next port is a gateway port and ids are never 0.
    pub open spec fn consistent(state: NatTableView) -> bool {
        &&& forall|i: int, j: int|
            0 <= i < j < state.entries.len() ==> #[trigger] state.entries[i].flow
                != #[trigger] state.entries[j].flow
        &&& state.udp_flows == udp_count(state.entries)
        &&& state.entries.len() <= MAX_DIRECT_FLOWS
        &&& state.udp_flows <= MAX_DIRECT_UDP_FLOWS
        &&& FIRST_DYNAMIC_PORT <= state.next_port <= LAST_DYNAMIC_PORT
        &&& state.next_id >= 1
    }

    pub open spec fn well_formed(&self) -> bool {
        Self::consistent(self.view())
    }

    /// Law: a well-formed table is consistent; in particular it never holds
    /// more than `MAX_DIRECT_FLOWS` flows or `MAX_DIRECT_UDP_FLOWS` UDP flows.
    pub proof fn lemma_well_formed_is_consistent(&self)
        requires
            self.well_formed(),
        ensures
            Self::consistent(self.view()),
            self.view().entries.len() <= MAX_DIRECT_FLOWS,
            self.view().udp_flows <= MAX_DIRECT_UDP_FLOWS,
    {
    }

    /// An empty table whose first port is `FIRST_DYNAMIC_PORT`, whose first
    /// id is 1 and whose last sweep is `now`.
    pub fn new_at(now: Instant) -> (table: Self)
        ensures
            table.well_formed(),
            table.view() == (NatTableView {
                entries: Seq::empty(),
                udp_flows: 0,
                next_port: FIRST_DYNAMIC_PORT,
                next_id: 1,
                last_sweep: now,
                cancelled: Seq::empty(),
            }),
    {
        let table = NatTable {
            entries: Vec::new(),
            udp_flows: 0,
            next_port: FIRST_DYNAMIC_PORT,
            next_id: 1,
            last_sweep: now,
            cancelled: Ghost(Seq::empty()),
        };
        assert(table.view().entries =~= Seq::<NatEntryView>::empty());
        table
    }

    /// An empty table, as `new_at` makes it at the current time.
    pub fn new() -> (table: Self)
        ensures
            table.well_formed(),
            exists|now: Instant|
                table.view() == (NatTableView {
                    entries: Seq::empty(),
                    udp_flows: 0,
                    next_port: FIRST_DYNAMIC_PORT,
                    next_id: 1,
                    last_sweep: now,
                    cancelled: Seq::empty(),
                }),
    {
        Self::new_at(instant_now())
    }

    /// The number of UDP flows held.
    pub fn udp_flows(&self) -> (count: usize)
        ensures
            count == self.view().udp_flows,
    {
        self.udp_flows
    }

    /// The number of flows held.
    pub fn len(&self) -> (count: usize)
        ensures
            count == self.view().entries.len(),
    {
        self.entries.len()
    }

    fn find(&self, flow: &FlowKey) -> (index: Option<usize>)
        requires
            self.well_formed(),
        ensures
            match index {
                Some(i) => i < self.view().entries.len() && self.view().entries[i as int].flow == *flow
                    && flow_index(self.view().entries, *flow) == Some(i as int),
                None => flow_index(self.view().entries, *flow) is None,
            },
    {
        let ghost entries = self.view().entries;
        let mut index: usize = 0;
        while index < self.entries.len()
            invariant
                index <= self.entries@.len(),
                self.well_formed(),
                entries == self.view().entries,
                entries.len() == self.entries@.len(),
                forall|i: int| 0 <= i < index ==> entries[i].flow != *flow,
            decreases self.entries@.len() - index,
        {
            assert(entries[index as int] == self.entries@[index as int].view());
            if self.entries[index].flow == *flow {
                proof {
                    let chosen = choose|i: int| 0 <= i < entries.len() && #[trigger] entries[i].flow == *flow;
                    assert(entries[index as int].flow == *flow);
                    if chosen < index {
                        assert(entries[chosen].flow != entries[index as int].flow);
                    } else if chosen > index {
                        assert(entries[index as int].flow != entries[chosen].flow);
                    }
                }
                return Some(index);
            }
            index = index + 1;
        }
        None
    }

    /// Takes the mapping at `index` out and cancels its flow's work.
    fn remove_at(&mut self, index: usize)
        requires
            old(self).well_formed(),
            index < old(self).view().entries.len(),
        ensures
            final(self).well_formed(),
            final(self).view() == without_entry(old(self).view(), index as int),
    {
        let ghost before = self.view();
        proof {
            lemma_udp_count_remove(before.entries, index as int);
        }
        let entry = self.entries.remove(index);
        cancel_token(&entry.mapping.cancel);
        self.cancelled = Ghost(self.cancelled@.push(entry.view()));
        if entry.flow.protocol == PROTOCOL_UDP {
            self.udp_flows = self.udp_flows - 1;
        }
        assert(self.view().entries =~= before.entries.remove(index as int));
    }

    /// Removes `flow`'s mapping, if any, cancelling its work.
    pub fn remove(&mut self, flow: &FlowKey)
        requires
            old(self).well_formed(),
        ensures
            final(self).well_formed(),
            final(self).view() == match flow_index(old(self).view().entries, *flow) {
                Some(index) => without_entry(old(self).view(), index),
                None => old(self).view(),
            },
    {
        match self.find(flow) {
            Some(index) => self.remove_at(index),
            None => {},
        }
    }

    /// Removes `flow`'s mapping only while it is still mapping `id`.
    pub fn remove_if(&mut self, flow: &FlowKey, id: u64)
        requires
            old(self).well_formed(),
        ensures
            final(self).well_formed(),
            final(self).view() == match flow_index(old(self).view().entries, *flow) {
                Some(index) => if old(self).view().entries[index].id == id {
                    without_entry(old(self).view(), index)
                } else {
                    old(self).view()
                },
                None => old(self).view(),
            },
    {
        match self.find(flow) {
            Some(index) => {
                if self.entries[index].mapping.id == id {
                    self.remove_at(index);
                }
            },
            None => {},
        }
    }

    /// Whether a gateway port of the protocol and family is taken.
    fn port_in_use(&self, protocol: u8, ipv6: bool, port: u16) -> (taken: bool)
        ensures
            taken == port_taken(self.view().entries, protocol, ipv6, port),
    {
        let ghost entries = self.view().entries;
        let mut index: usize = 0;
        while index < self.entries.len()
            invariant
                index <= self.entries@.len(),
                entries == self.view().entries,
                entries.len() == self.entries@.len(),
                forall|i: int|
                    0 <= i < index ==> !(#[trigger] entries[i].flow.protocol == protocol && (
                    entries[i].gateway.ip is V6) == ipv6 && entries[i].gateway.port == port),
            decreases self.entries@.len() - index,
        {
            assert(entries[index as int] == self.entries@[index as int].view());
            let entry = &self.entries[index];
            if entry.flow.protocol == protocol && entry.mapping.gateway.ip.is_ipv6() == ipv6
                && entry.mapping.gateway.port == port {
                assert(entries[index as int].flow.protocol == protocol && (entries[index as int].gateway.ip is V6)
                    == ipv6 && entries[index as int].gateway.port == port);
                return true;
            }
            index = index + 1;
        }
        false
    }

    /// Hands out the next free gateway port of the protocol and family,
    /// searching one full cycle from the last port handed out.
    fn allocate_port(&mut self, protocol: u8, ipv6: bool) -> (port: Option<u16>)
        requires
            old(self).well_formed(),
        ensures
            final(self).well_formed(),
            match first_free_offset(
                old(self).view().entries,
                protocol,
                ipv6,
                old(self).view().next_port,
                0,
            ) {
                Some(offset) => {
                    &&& port == Some(port_at(old(self).view().next_port, offset as int))
                    &&& final(self).view() == (NatTableView {
                        next_port: port_at(old(self).view().next_port, offset + 1int),
                        ..old(self).view()
                    })
                },
                None => port is None && final(self).view() == old(self).view(),
            },
    {
        let ghost start = self.next_port;
        let ghost before = self.view();
        let mut tried: u16 = 0;
        while tried < DYNAMIC_PORT_COUNT
            invariant
                tried <= DYNAMIC_PORT_COUNT,
                before == old(self).view(),
                start == old(self).view().next_port,
                FIRST_DYNAMIC_PORT <= start <= LAST_DYNAMIC_PORT,
                self.next_port == port_at(start, tried as int),
                self.view() == (NatTableView { next_port: self.next_port, ..before }),
                Self::consistent(before),
                first_free_offset(before.entries, protocol, ipv6, start, 0) == first_free_offset(
                    before.entries,
                    protocol,
                    ipv6,
                    start,
                    tried as nat,
                ),
            decreases DYNAMIC_PORT_COUNT - tried,
        {
            let candidate = self.next_port;
            proof {
                lemma_next_port(start, tried as int);
            }
            self.next_port = if self.next_port == LAST_DYNAMIC_PORT {
                FIRST_DYNAMIC_PORT
            } else {
                self.next_port + 1
            };
            assert(self.view().entries =~= before.entries);
            tried = tried + 1;
            if !self.port_in_use(protocol, ipv6, candidate) {
                assert(first_free_offset(before.entries, protocol, ipv6, start, (tried - 1) as nat) == Some(
                    (tried - 1) as nat,
                ));
                assert(self.view() == (NatTableView { next_port: port_at(start, tried as int), ..before }));
                return Some(candidate);
            }
        }
        proof {
            lemma_full_cycle(start);
        }
        None
    }

    /// Sweeps idle mappings if the last sweep is at least a sweep interval
    /// before `now`.
    fn sweep_at(&mut self, now: Instant)
        requires
            old(self).well_formed(),
        ensures
            final(self).well_formed(),
            final(self).view() == swept(old(self).view(), now),
    {
        if nanos_between(&now, &self.last_sweep) < SWEEP_INTERVAL_NANOS {
            return;
        }
        let ghost before = self.view();
        let ghost keep = fresh_at(now);
        let ghost drop = stale_at(now);
        let ghost mut log: Seq<NatEntryView> = before.cancelled;
        let mut kept: Vec<NatEntry> = Vec::new();
        let mut kept_udp: usize = 0;
        let mut index: usize = 0;
        while index < self.entries.len()
            invariant
                index <= self.entries@.len(),
                before == self.view(),
                keep == fresh_at(now),
                drop == stale_at(now),
                log == before.cancelled + before.entries.take(index as int).filter(drop),
                Self::consistent(before),
                kept@.map_values(|entry: NatEntry| entry.view()) == before.entries.take(
                    index as int,
                ).filter(keep),
                kept_udp == udp_count(kept@.map_values(|entry: NatEntry| entry.view())),
                kept_udp <= index,
            decreases self.entries@.len() - index,
        {
            let ghost prefix = before.entries.take(index + 1);
            assert(prefix.drop_last() =~= before.entries.take(index as int));
            assert(prefix.last() == self.entries@[index as int].view());
            proof {
                reveal(Seq::filter);
            }
            let stale = nanos_between(&now, &self.entries[index].mapping.last_seen)
                >= FLOW_IDLE_TIMEOUT_NANOS;
            if stale {
                cancel_token(&self.entries[index].mapping.cancel);
                proof {
                    log = log.push(prefix.last());
                    assert(before.entries.take(index + 1).filter(drop) =~= before.entries.take(
                        index as int,
                    ).filter(drop).push(prefix.last()));
                    assert(log =~= before.cancelled + before.entries.take(index + 1).filter(drop));
                }
            } else {
                let entry = &self.entries[index];
                let flow = entry.flow;
                let copy = NatEntry { flow, mapping: copy_mapping(&entry.mapping) };
                let ghost copy_view = copy.view();
                let ghost old_kept = kept@.map_values(|entry: NatEntry| entry.view());
                kept.push(copy);
                assert(kept@.map_values(|entry: NatEntry| entry.view()) =~= old_kept.push(copy_view));
                assert(old_kept.push(copy_view).drop_last() =~= old_kept);
                if flow.protocol == PROTOCOL_UDP {
                    kept_udp = kept_udp + 1;
                }
                assert(before.entries.take(index + 1).filter(drop) =~= before.entries.take(
                    index as int,
                ).filter(drop));
            }
            index = index + 1;
        }
        assert(before.entries.take(before.entries.len() as int) =~= before.entries);
        proof {
            let kept_view = kept@.map_values(|entry: NatEntry| entry.view());
            broadcast use vstd::seq_lib::group_filter_ensures;
            lemma_filter_keeps_distinct(before.entries, keep);
            lemma_udp_count_bound(kept_view);
            lemma_udp_count_filter(before.entries, keep);
        }
        self.entries = kept;
        self.udp_flows = kept_udp;
        self.last_sweep = now;
        self.cancelled = Ghost(log);
    }

    /// The mapping of `flow` for the current network generation, with the
    /// table swept at `now` and a kept mapping stamped as seen at `seen`. A
    /// mapping made for another generation is removed, and its work
    /// cancelled.
    pub fn existing_at(&mut self, now: Instant, seen: Instant, flow: &FlowKey, network_generation: Option<u64>) -> (mapping: Option<
        NatMapping,
    >)
        requires
            old(self).well_formed(),
        ensures
            final(self).well_formed(),
            (final(self).view(), mapping_facts(mapping)) == spec_existing(
                swept(old(self).view(), now),
                *flow,
                network_generation,
                seen,
            ),
    {
        self.sweep_at(now);
        let ghost state = self.view();
        let index = match self.find(flow) {
            Some(index) => index,
            None => {
                assert(spec_existing(state, *flow, network_generation, seen) == (self.view(), mapping_facts(None)));
                return None;
            },
        };
        if self.entries[index].mapping.network_generation != network_generation {
            self.remove_at(index);
            assert(spec_existing(state, *flow, network_generation, seen) == (self.view(), mapping_facts(None)));
            return None;
        }
        self.entries[index].mapping.last_seen = seen;
        assert(self.view().entries =~= state.entries.update(
            index as int,
            NatEntryView { last_seen: seen, ..state.entries[index as int] },
        ));
        proof {
            lemma_restamp_consistent(state, index as int, seen);
        }
        let found = copy_mapping(&self.entries[index].mapping);
        assert(spec_existing(state, *flow, network_generation, seen) == (self.view(), mapping_facts(Some(found))));
        Some(found)
    }

    /// The mapping of `flow` for the current network generation, as
    /// `existing_at` finds it at the current time.
    pub fn existing(&mut self, flow: &FlowKey, network_generation: Option<u64>) -> (mapping: Option<
        NatMapping,
    >)
        requires
            old(self).well_formed(),
        ensures
            final(self).well_formed(),
            exists|now: Instant, seen: Instant|
                #[trigger] spec_existing(swept(old(self).view(), now), *flow, network_generation, seen)
                    == (final(self).view(), mapping_facts(mapping)),
    {
        let now = instant_now();
        let seen = instant_now();
        let mapping = self.existing_at(now, seen, flow, network_generation);
        assert(spec_existing(swept(old(self).view(), now), *flow, network_generation, seen) == (
            self.view(),
            mapping_facts(mapping),
        ));
        mapping
    }

    /// Reserves a gateway port and a mapping, first seen at `seen`, for a
    /// flow that has none, in the table swept at `now`; unless the table is
    /// full, the UDP bound is reached, or no port of the flow's protocol and
    /// family is free.
    pub fn reserve_at(
        &mut self,
        now: Instant,
        seen: Instant,
        flow: FlowKey,
        network_generation: Option<u64>,
        parent: &CancellationToken,
    ) -> (mapping: Option<NatMapping>)
        requires
            old(self).well_formed(),
            flow_index(old(self).view().entries, flow) is None,
        ensures
            final(self).well_formed(),
            (final(self).view(), mapping_facts(mapping)) == spec_reserve(
                swept(old(self).view(), now),
                flow,
                network_generation,
                seen,
            ),
    {
        self.sweep_at(now);
        let ghost state = self.view();
        proof {
            lemma_udp_count_bound(state.entries);
            lemma_sweep_keeps_flow_absent(old(self).view(), now, flow);
        }
        if self.entries.len() >= MAX_DIRECT_FLOWS || (flow.protocol == PROTOCOL_UDP
            && self.udp_flows >= MAX_DIRECT_UDP_FLOWS) {
            assert(spec_reserve(state, flow, network_generation, seen) == (self.view(), mapping_facts(None)));
            return None;
        }
        let ipv6 = flow.client.ip.is_ipv6();
        let port = match self.allocate_port(flow.protocol, ipv6) {
            Some(port) => port,
            None => {
                assert(spec_reserve(state, flow, network_generation, seen) == (self.view(), mapping_facts(None)));
                return None;
            },
        };
        let gateway = SocketAddress { ip: gateway_ip(ipv6), port };
        let id = self.next_id;
        self.next_id = if self.next_id == u64::MAX {
            1
        } else {
            self.next_id + 1
        };
        let mapping = NatMapping {
            id,
            gateway,
            network_generation,
            cancel: child_token(parent),
            last_seen: seen,
        };
        let copy = copy_mapping(&mapping);
        let ghost before_push = self.view();
        self.entries.push(NatEntry { flow, mapping });
        if flow.protocol == PROTOCOL_UDP {
            self.udp_flows = self.udp_flows + 1;
        }
        proof {
            let entries = self.view().entries;
            assert(entries.drop_last() =~= before_push.entries);
            assert(entries =~= before_push.entries.push(entries.last()));
            assert forall|i: int, j: int| 0 <= i < j < entries.len() implies #[trigger] entries[i].flow
                != #[trigger] entries[j].flow by {
                if j == entries.len() - 1 {
                    if entries[i].flow == flow {
                        assert(before_push.entries[i].flow == flow);
                    }
                }
            }
        }
        assert(spec_reserve(state, flow, network_generation, seen) == (self.view(), mapping_facts(Some(copy))));
        Some(copy)
    }

    /// Reserves a mapping for a flow that has none, as `reserve_at` does at
    /// the current time.
    pub fn reserve(&mut self, flow: FlowKey, network_generation: Option<u64>, parent: &CancellationToken) -> (mapping: Option<NatMapping>)
        requires
            old(self).well_formed(),
            flow_index(old(self).view().entries, flow) is None,
        ensures
            final(self).well_formed(),
            exists|now: Instant, seen: Instant|
                #[trigger] spec_reserve(swept(old(self).view(), now), flow, network_generation, seen)
                    == (final(self).view(), mapping_facts(mapping)),
    {
        let now = instant_now();
        let seen = instant_now();
        let mapping = self.reserve_at(now, seen, flow, network_generation, parent);
        assert(spec_reserve(swept(old(self).view(), now), flow, network_generation, seen) == (
            self.view(),
            mapping_facts(mapping),
        ));
        mapping
    }

    /// The flow whose gateway socket sent `packet` back to its client, as
    /// `reverse_at` finds it at the current time.
    pub fn reverse(&mut self, packet: &NatPacket) -> (flow: Option<FlowKey>)
        requires
            old(self).well_formed(),
        ensures
            final(self).well_formed(),
            exists|now: Instant, seen: Instant|
                #[trigger] spec_reverse(swept(old(self).view(), now), *packet, seen) == (final(self).view(), flow),
    {
        let now = instant_now();
        let seen = instant_now();
        let flow = self.reverse_at(now, seen, packet);
        assert(spec_reverse(swept(old(self).view(), now), *packet, seen) == (self.view(), flow));
        flow
    }

    /// The flow whose gateway socket sent `packet` back to its client, if
    /// any, in the table swept at `now`; its mapping is stamped as seen at
    /// `seen`.
    pub fn reverse_at(&mut self, now: Instant, seen: Instant, packet: &NatPacket) -> (flow: Option<FlowKey>)
        requires
            old(self).well_formed(),
        ensures
            final(self).well_formed(),
            (final(self).view(), flow) == spec_reverse(swept(old(self).view(), now), *packet, seen),
    {
        self.sweep_at(now);
        let ghost state = self.view();
        let gateway = SocketAddress { ip: packet.source, port: packet.source_port };
        let client = SocketAddress { ip: packet.destination, port: packet.destination_port };
        let mut index: usize = 0;
        while index < self.entries.len()
            invariant
                index <= self.entries@.len(),
                state == self.view(),
                state == swept(old(self).view(), now),
                Self::consistent(state),
                gateway == (SocketAddress { ip: packet.source, port: packet.source_port }),
                client == (SocketAddress { ip: packet.destination, port: packet.destination_port }),
                forall|i: int|
                    0 <= i < index ==> !reverse_matches(#[trigger] state.entries[i], *packet),
            decreases self.entries@.len() - index,
        {
            assert(state.entries[index as int] == self.entries@[index as int].view());
            if self.entries[index].flow.protocol == packet.protocol && self.entries[index].mapping.gateway
                == gateway && self.entries[index].flow.client == client {
                let found = self.entries[index].flow;
                self.entries[index].mapping.last_seen = seen;
                assert(self.view().entries =~= state.entries.update(
                    index as int,
                    NatEntryView { last_seen: seen, ..state.entries[index as int] },
                ));
                proof {
                    lemma_reverse_index_is(state.entries, *packet, index as int);
                    lemma_restamp_consistent(state, index as int, seen);
                }
                assert(spec_reverse(state, *packet, seen) == (self.view(), Some(found)));
                return Some(found);
            }
            index = index + 1;
        }
        assert(spec_reverse(state, *packet, seen) == (self.view(), None::<FlowKey>));
        None
    }

    /// Cancels every mapping's work and empties the table.
    pub fn cancel_all(&mut self)
        requires
            old(self).well_formed(),
        ensures
            final(self).well_formed(),
            final(self).view() == (NatTableView {
                entries: Seq::empty(),
                udp_flows: 0,
                cancelled: old(self).view().cancelled + old(self).view().entries,
                ..old(self).view()
            }),
    {
        let ghost before = self.view();
        let mut index: usize = 0;
        while index < self.entries.len()
            invariant
                index <= self.entries@.len(),
                self.entries@ == old(self).entries@,
                self.udp_flows == old(self).udp_flows,
                self.next_port == old(self).next_port,
                self.next_id == old(self).next_id,
                self.last_sweep == old(self).last_sweep,
                before == old(self).view(),
                self.cancelled@ == before.cancelled + before.entries.take(index as int),
            decreases self.entries@.len() - index,
        {
            cancel_token(&self.entries[index].mapping.cancel);
            let ghost logged = self.entries@[index as int].view();
            self.cancelled = Ghost(self.cancelled@.push(logged));
            assert(before.entries.take(index + 1) =~= before.entries.take(index as int).push(logged));
            index = index + 1;
        }
        assert(before.entries.take(before.entries.len() as int) =~= before.entries);
        self.entries.clear();
        self.udp_flows = 0;
        assert(self.view().entries =~= Seq::<NatEntryView>::empty());
    }
}

/// Counting one more port from the cyclic position `offset` steps the port
/// forward, wrapping from the last gateway port to the first.
proof fn lemma_next_port(start: u16, offset: int)
    requires
        FIRST_DYNAMIC_PORT <= start <= LAST_DYNAMIC_PORT,
        0 <= offset,
    ensures
        port_at(start, offset + 1) == if port_at(start, offset) == LAST_DYNAMIC_PORT {
            FIRST_DYNAMIC_PORT
        } else {
            (port_at(start, offset) + 1) as u16
        },
        FIRST_DYNAMIC_PORT <= port_at(start, offset) <= LAST_DYNAMIC_PORT,
{
    let base = start - FIRST_DYNAMIC_PORT;
    let count = DYNAMIC_PORT_COUNT as int;
    let r = (base + offset) % count;
    let next = (base + offset + 1) % count;
    assert(0 <= r < count);
    assert(next == if r == count - 1 { 0 } else { r + 1 }) by (nonlinear_arith)
        requires
            r == (base + offset) % count,
            next == (base + offset + 1) % count,
            count == 16383,
            base + offset >= 0,
    {
        vstd::arithmetic::div_mod::lemma_mod_add_multiples_vanish(base + offset + 1, count);
        vstd::arithmetic::div_mod::lemma_fundamental_div_mod(base + offset, count);
        vstd::arithmetic::div_mod::lemma_fundamental_div_mod(base + offset + 1, count);
    }
}

/// After a full cycle the port counter is back where it started.
proof fn lemma_full_cycle(start: u16)
    requires
        FIRST_DYNAMIC_PORT <= start <= LAST_DYNAMIC_PORT,
    ensures
        port_at(start, DYNAMIC_PORT_COUNT as int) == start,
{
    let base = start - FIRST_DYNAMIC_PORT;
    assert((base + 16383) % 16383 == base) by (nonlinear_arith)
        requires
            0 <= base < 16383,
    {
        vstd::arithmetic::div_mod::lemma_mod_add_multiples_vanish(base, 16383);
        vstd::arithmetic::div_mod::lemma_small_mod(base as nat, 16383);
    }
}

/// Filtering keeps distinct flows distinct.
proof fn lemma_filter_keeps_distinct(entries: Seq<NatEntryView>, keep: spec_fn(NatEntryView) -> bool)
    requires
        forall|i: int, j: int|
            0 <= i < j < entries.len() ==> #[trigger] entries[i].flow != #[trigger] entries[j].flow,
    ensures
        forall|i: int, j: int|
            0 <= i < j < entries.filter(keep).len() ==> #[trigger] entries.filter(keep)[i].flow
                != #[trigger] entries.filter(keep)[j].flow,
        entries.filter(keep).len() <= entries.len(),
    decreases entries.len(),
{
    reveal(Seq::filter);
    if entries.len() > 0 {
        let shorter = entries.drop_last();
        lemma_filter_keeps_distinct(shorter, keep);
        let filtered = entries.filter(keep);
        let earlier = shorter.filter(keep);
        if keep(entries.last()) {
            assert(filtered =~= earlier.push(entries.last()));
            assert forall|i: int, j: int|
                0 <= i < j < filtered.len() implies #[trigger] filtered[i].flow
                    != #[trigger] filtered[j].flow by {
                if j == filtered.len() - 1 {
                    assert(filtered[i] == earlier[i]);
                    assert(earlier.contains(earlier[i]));
                    shorter.lemma_filter_contains_rev(keep, earlier[i]);
                    let k = choose|k: int| 0 <= k < shorter.len() && shorter[k] == earlier[i];
                    assert(entries[k] == shorter[k]);
                    assert(entries[k].flow != entries[entries.len() - 1].flow);
                } else {
                    assert(filtered[i] == earlier[i]);
                    assert(filtered[j] == earlier[j]);
                }
            }
        } else {
            assert(filtered =~= earlier);
        }
    }
}

/// The UDP count of a filtered table counts the kept UDP flows.
proof fn lemma_udp_count_filter(entries: Seq<NatEntryView>, keep: spec_fn(NatEntryView) -> bool)
    ensures
        udp_count(entries.filter(keep)) <= udp_count(entries),
    decreases entries.len(),
{
    reveal(Seq::filter);
    if entries.len() > 0 {
        lemma_udp_count_filter(entries.drop_last(), keep);
        if keep(entries.last()) {
            assert(entries.filter(keep) =~= entries.drop_last().filter(keep).push(entries.last()));
            assert(entries.filter(keep).drop_last() =~= entries.drop_last().filter(keep));
        } else {
            assert(entries.filter(keep) =~= entries.drop_last().filter(keep));
        }
    }
}


/// In a consistent table a flow's index is the entry that holds it.
pub proof fn lemma_flow_index_is(state: NatTableView, index: int)
    requires
        NatTable::consistent(state),
        0 <= index < state.entries.len(),
    ensures
        flow_index(state.entries, state.entries[index].flow) == Some(index),
{
    let flow = state.entries[index].flow;
    assert(state.entries[index].flow == flow);
    let chosen = choose|i: int| 0 <= i < state.entries.len() && #[trigger] state.entries[i].flow == flow;
    if chosen < index {
        assert(state.entries[chosen].flow != state.entries[index].flow);
    } else if chosen > index {
        assert(state.entries[index].flow != state.entries[chosen].flow);
    }
}

/// A sweep keeps a consistent table consistent.
pub proof fn lemma_swept_consistent(state: NatTableView, now: Instant)
    requires
        NatTable::consistent(state),
    ensures
        NatTable::consistent(swept(state, now)),
{
    if elapsed_nanos(now, state.last_sweep) >= SWEEP_INTERVAL_NANOS {
        broadcast use vstd::seq_lib::group_filter_ensures;

        lemma_filter_keeps_distinct(state.entries, fresh_at(now));
        lemma_udp_count_filter(state.entries, fresh_at(now));
    }
}

/// Taking an entry out of a consistent table leaves no other entry of its
/// flow.
proof fn lemma_removed_flow_is_gone(state: NatTableView, index: int)
    requires
        NatTable::consistent(state),
        0 <= index < state.entries.len(),
    ensures
        flow_index(state.entries.remove(index), state.entries[index].flow) is None,
{
    let flow = state.entries[index].flow;
    let after = state.entries.remove(index);
    if exists|i: int| 0 <= i < after.len() && #[trigger] after[i].flow == flow {
        let i = choose|i: int| 0 <= i < after.len() && #[trigger] after[i].flow == flow;
        if i < index {
            assert(after[i] == state.entries[i]);
            assert(state.entries[i].flow != state.entries[index].flow);
        } else {
            assert(after[i] == state.entries[i + 1]);
            assert(state.entries[index].flow != state.entries[i + 1].flow);
        }
    }
}

/// What a lookup leaves behind: the flow is mapped exactly when a mapping
/// came back, and by that mapping.
pub proof fn lemma_existing_result(
    before: NatTableView,
    after: NatTableView,
    flow: FlowKey,
    network_generation: Option<u64>,
    facts: Option<(u64, SocketAddress, Option<u64>, Instant)>,
)
    requires
        NatTable::consistent(before),
        NatTable::consistent(after),
        exists|now: Instant, seen: Instant|
            #[trigger] spec_existing(swept(before, now), flow, network_generation, seen) == (after, facts),
    ensures
        facts matches Some((id, gateway, generation, _)) ==> flow_index(after.entries, flow) matches Some(
            index,
        ) && after.entries[index].id == id && after.entries[index].gateway == gateway && generation
            == network_generation,
        facts is None ==> flow_index(after.entries, flow) is None,
{
    let (now, seen) = choose|now: Instant, seen: Instant|
        #[trigger] spec_existing(swept(before, now), flow, network_generation, seen) == (after, facts);
    let state = swept(before, now);
    lemma_swept_consistent(before, now);
    match flow_index(state.entries, flow) {
        None => {},
        Some(index) => {
            assert(state.entries[index].flow == flow);
            if state.entries[index].network_generation != network_generation {
                lemma_removed_flow_is_gone(state, index);
            } else {
                assert(after.entries[index].flow == flow);
                lemma_flow_index_is(after, index);
            }
        },
    }
}

/// What a reservation leaves behind for a flow that had no mapping: the
/// flow is mapped exactly when a mapping came back, and by that mapping.
pub proof fn lemma_reserve_result(
    before: NatTableView,
    after: NatTableView,
    flow: FlowKey,
    network_generation: Option<u64>,
    facts: Option<(u64, SocketAddress, Option<u64>, Instant)>,
)
    requires
        NatTable::consistent(before),
        NatTable::consistent(after),
        flow_index(before.entries, flow) is None,
        exists|now: Instant, seen: Instant|
            #[trigger] spec_reserve(swept(before, now), flow, network_generation, seen) == (after, facts),
    ensures
        facts matches Some((id, gateway, generation, _)) ==> flow_index(after.entries, flow) matches Some(
            index,
        ) && after.entries[index].id == id && after.entries[index].gateway == gateway && generation
            == network_generation,
        facts is None ==> flow_index(after.entries, flow) is None,
{
    let (now, seen) = choose|now: Instant, seen: Instant|
        #[trigger] spec_reserve(swept(before, now), flow, network_generation, seen) == (after, facts);
    let state = swept(before, now);
    lemma_sweep_keeps_flow_absent(before, now, flow);
    if facts is Some {
        let last = after.entries.len() - 1;
        assert(after.entries[last].flow == flow);
        lemma_flow_index_is(after, last);
    }
}

/// Law: a mapping never leaves the table silently. Every mapping a sweep
/// drops has its work cancelled, and so does the mapping taken out of the
/// table.
pub proof fn lemma_dropped_mappings_are_cancelled(state: NatTableView, now: Instant, index: int)
    requires
        0 <= index < state.entries.len(),
    ensures
        !swept(state, now).entries.contains(state.entries[index]) ==> swept(state, now).cancelled.contains(
            state.entries[index],
        ),
        without_entry(state, index).cancelled.contains(state.entries[index]),
{
    let entry = state.entries[index];
    let after = without_entry(state, index);
    assert(after.cancelled[after.cancelled.len() - 1] == entry);
    if elapsed_nanos(now, state.last_sweep) >= SWEEP_INTERVAL_NANOS {
        broadcast use vstd::seq_lib::group_filter_ensures;

        if !fresh_at(now)(entry) {
            let dropped = state.entries.filter(stale_at(now));
            assert(stale_at(now)(entry));
            assert(dropped.contains(entry));
            let k = choose|k: int| 0 <= k < dropped.len() && dropped[k] == entry;
            let log = state.cancelled + dropped;
            assert(log[state.cancelled.len() + k] == entry);
        }
    }
}

/// Law: a mapping still live is found again. After a reservation for a
/// flow that had no mapping hands one out, first seen at `seen`, a lookup
/// of the flow in the same network generation swept at any `later` time
/// less than the idle timeout after `seen` hands out that same mapping.
pub proof fn lemma_live_mapping_is_found_again(
    state: NatTableView,
    flow: FlowKey,
    network_generation: Option<u64>,
    now: Instant,
    seen: Instant,
    later: Instant,
    again: Instant,
)
    requires
        flow_index(state.entries, flow) is None,
        spec_reserve(swept(state, now), flow, network_generation, seen).1 is Some,
        elapsed_nanos(later, seen) < FLOW_IDLE_TIMEOUT_NANOS,
    ensures
        ({
            let reserved = spec_reserve(swept(state, now), flow, network_generation, seen);
            let found = spec_existing(swept(reserved.0, later), flow, network_generation, again).1;
            &&& found is Some
            &&& (found->0).0 == (reserved.1->0).0
            &&& (found->0).1 == (reserved.1->0).1
            &&& (found->0).2 == network_generation
        }),
{
    broadcast use vstd::seq_lib::group_filter_ensures;

    let current = swept(state, now);
    lemma_sweep_keeps_flow_absent(state, now, flow);
    let reserved = spec_reserve(current, flow, network_generation, seen);
    let after = reserved.0;
    let last = after.entries.len() - 1;
    let entry = after.entries[last];
    assert(after.entries == current.entries.push(entry));
    assert(entry.flow == flow && entry.network_generation == network_generation);
    assert(entry.id == (reserved.1->0).0 && entry.gateway == (reserved.1->0).1);
    // Only the new entry holds the flow.
    assert forall|k: int| 0 <= k < after.entries.len() && #[trigger] after.entries[k].flow == flow implies k
        == last by {
        if k < last {
            assert(current.entries[k].flow == flow);
        }
    }
    let swept_after = swept(after, later);
    if elapsed_nanos(later, after.last_sweep) >= SWEEP_INTERVAL_NANOS {
        let keep = fresh_at(later);
        let kept = after.entries.filter(keep);
        assert(keep(entry));
        after.entries.lemma_filter_contains(keep, last);
        assert(kept.contains(entry));
        let i = choose|i: int| 0 <= i < kept.len() && kept[i] == entry;
        assert(kept[i].flow == flow);
        let j = flow_index(kept, flow)->0;
        assert(kept[j].flow == flow);
        assert(kept.contains(kept[j]));
        after.entries.lemma_filter_contains_rev(keep, kept[j]);
        let k = choose|k: int| 0 <= k < after.entries.len() && after.entries[k] == kept[j];
        assert(after.entries[k].flow == flow);
        assert(kept[j] == entry);
    } else {
        assert(after.entries[last].flow == flow);
        let j = flow_index(after.entries, flow)->0;
        assert(after.entries[j].flow == flow);
    }
}

/// A reservation for `flow` finds room: fewer flows than the bound, fewer
/// UDP flows than their bound for a UDP flow, and a free gateway port of
/// the flow's protocol and family.
pub open spec fn has_room(state: NatTableView, flow: FlowKey) -> bool {
    &&& state.entries.len() < MAX_DIRECT_FLOWS
    &&& (flow.protocol == PROTOCOL_UDP ==> state.udp_flows < MAX_DIRECT_UDP_FLOWS)
    &&& first_free_offset(state.entries, flow.protocol, flow.client.ip is V6, state.next_port, 0) is Some
}

/// Every gateway port taken in `fewer` is taken in `more`.
pub open spec fn ports_within(fewer: Seq<NatEntryView>, more: Seq<NatEntryView>) -> bool {
    forall|protocol: u8, ipv6: bool, port: u16|
        #[trigger] port_taken(fewer, protocol, ipv6, port) ==> port_taken(more, protocol, ipv6, port)
}

/// A port free among more entries is free among fewer, so the search for
/// one still succeeds.
proof fn lemma_free_offset_survives(
    fewer: Seq<NatEntryView>,
    more: Seq<NatEntryView>,
    protocol: u8,
    ipv6: bool,
    start: u16,
    offset: nat,
)
    requires
        ports_within(fewer, more),
        first_free_offset(more, protocol, ipv6, start, offset) is Some,
    ensures
        first_free_offset(fewer, protocol, ipv6, start, offset) is Some,
    decreases DYNAMIC_PORT_COUNT - offset,
{
    if offset < DYNAMIC_PORT_COUNT && port_taken(fewer, protocol, ipv6, port_at(start, offset as int)) {
        assert(port_taken(more, protocol, ipv6, port_at(start, offset as int)));
        lemma_free_offset_survives(fewer, more, protocol, ipv6, start, offset + 1);
    }
}

/// A sweep only takes mappings out, so room for a flow stays.
proof fn lemma_room_survives_sweep(state: NatTableView, now: Instant, flow: FlowKey)
    requires
        NatTable::consistent(state),
        has_room(state, flow),
    ensures
        has_room(swept(state, now), flow),
{
    if elapsed_nanos(now, state.last_sweep) >= SWEEP_INTERVAL_NANOS {
        broadcast use vstd::seq_lib::group_filter_ensures;

        let keep = fresh_at(now);
        let kept = state.entries.filter(keep);
        lemma_udp_count_filter(state.entries, keep);
        assert forall|protocol: u8, ipv6: bool, port: u16|
            #[trigger] port_taken(kept, protocol, ipv6, port) implies port_taken(
            state.entries,
            protocol,
            ipv6,
            port,
        ) by {
            let i = choose|i: int|
                0 <= i < kept.len() && #[trigger] kept[i].flow.protocol == protocol && (kept[i].gateway.ip is V6)
                    == ipv6 && kept[i].gateway.port == port;
            assert(kept.contains(kept[i]));
            state.entries.lemma_filter_contains_rev(keep, kept[i]);
            let k = choose|k: int| 0 <= k < state.entries.len() && state.entries[k] == kept[i];
            assert(state.entries[k].flow.protocol == protocol);
        }
        lemma_free_offset_survives(kept, state.entries, flow.protocol, flow.client.ip is V6, state.next_port, 0);
    }
}

/// Taking a mapping out keeps room for a flow.
proof fn lemma_room_survives_removal(state: NatTableView, index: int, flow: FlowKey)
    requires
        NatTable::consistent(state),
        0 <= index < state.entries.len(),
        has_room(state, flow),
    ensures
        has_room(without_entry(state, index), flow),
{
    lemma_udp_count_remove(state.entries, index);
    let after = state.entries.remove(index);
    assert forall|protocol: u8, ipv6: bool, port: u16|
        #[trigger] port_taken(after, protocol, ipv6, port) implies port_taken(state.entries, protocol, ipv6, port) by {
        let i = choose|i: int|
            0 <= i < after.len() && #[trigger] after[i].flow.protocol == protocol && (after[i].gateway.ip is V6)
                == ipv6 && after[i].gateway.port == port;
        if i < index {
            assert(state.entries[i] == after[i]);
            assert(state.entries[i].flow.protocol == protocol);
        } else {
            assert(state.entries[i + 1] == after[i]);
            assert(state.entries[i + 1].flow.protocol == protocol);
        }
    }
    lemma_free_offset_survives(after, state.entries, flow.protocol, flow.client.ip is V6, state.next_port, 0);
}

/// A lookup that hands out nothing leaves room for a flow that had it.
pub proof fn lemma_room_survives_lookup(
    state: NatTableView,
    flow: FlowKey,
    network_generation: Option<u64>,
    now: Instant,
    seen: Instant,
)
    requires
        NatTable::consistent(state),
        has_room(state, flow),
        spec_existing(swept(state, now), flow, network_generation, seen).1 is None,
    ensures
        has_room(spec_existing(swept(state, now), flow, network_generation, seen).0, flow),
{
    lemma_room_survives_sweep(state, now, flow);
    lemma_swept_consistent(state, now);
    let current = swept(state, now);
    match flow_index(current.entries, flow) {
        None => {},
        Some(index) => {
            assert(current.entries[index].flow == flow);
            lemma_room_survives_removal(current, index, flow);
        },
    }
}

/// A reservation in a table with room for the flow hands out a mapping.
pub proof fn lemma_reserve_with_room(
    state: NatTableView,
    flow: FlowKey,
    network_generation: Option<u64>,
    now: Instant,
    seen: Instant,
)
    requires
        NatTable::consistent(state),
        has_room(state, flow),
    ensures
        spec_reserve(swept(state, now), flow, network_generation, seen).1 is Some,
{
    lemma_room_survives_sweep(state, now, flow);
}

/// The offset `first_free_offset` finds names a port that is not taken.
proof fn lemma_first_free_is_free(entries: Seq<NatEntryView>, protocol: u8, ipv6: bool, start: u16, offset: nat)
    requires
        first_free_offset(entries, protocol, ipv6, start, offset) is Some,
    ensures
        !port_taken(
            entries,
            protocol,
            ipv6,
            port_at(start, first_free_offset(entries, protocol, ipv6, start, offset)->0 as int),
        ),
    decreases DYNAMIC_PORT_COUNT - offset,
{
    if offset < DYNAMIC_PORT_COUNT && port_taken(entries, protocol, ipv6, port_at(start, offset as int)) {
        lemma_first_free_is_free(entries, protocol, ipv6, start, offset + 1);
    }
}

/// Law: a reply comes back to the flow it answers. Right after a mapping
/// was reserved for `flow`, a packet of the flow's protocol sent by the
/// mapping's gateway socket to the flow's client maps back to `flow`, and
/// to no other flow: no earlier mapping of that protocol and family uses
/// the gateway port.
pub proof fn lemma_reply_reaches_reserved_flow(
    state: NatTableView,
    flow: FlowKey,
    network_generation: Option<u64>,
    seen: Instant,
    reply: NatPacket,
    replied: Instant,
)
    requires
        spec_reserve(state, flow, network_generation, seen).1 matches Some((_, gateway, _, _)) && reply.protocol
            == flow.protocol && reply.source == gateway.ip && reply.source_port == gateway.port
            && reply.destination == flow.client.ip && reply.destination_port == flow.client.port,
    ensures
        spec_reverse(spec_reserve(state, flow, network_generation, seen).0, reply, replied).1 == Some(flow),
{
    let ipv6 = flow.client.ip is V6;
    let offset = first_free_offset(state.entries, flow.protocol, ipv6, state.next_port, 0)->0;
    lemma_first_free_is_free(state.entries, flow.protocol, ipv6, state.next_port, 0);
    let after = spec_reserve(state, flow, network_generation, seen).0;
    let last = state.entries.len() as int;
    assert(after.entries[last].flow == flow);
    assert(reverse_matches(after.entries[last], reply));
    assert forall|j: int| 0 <= j < last implies !reverse_matches(#[trigger] after.entries[j], reply) by {
        assert(after.entries[j] == state.entries[j]);
        if reverse_matches(after.entries[j], reply) {
            assert(state.entries[j].flow.protocol == flow.protocol && (state.entries[j].gateway.ip is V6) == ipv6
                && state.entries[j].gateway.port == port_at(state.next_port, offset as int));
        }
    }
    lemma_reverse_index_is(after.entries, reply, last);
}

/// Right after a reservation, only the new mapping answers a reply from its
/// gateway socket to its client.
proof fn lemma_only_new_mapping_answers(
    state: NatTableView,
    flow: FlowKey,
    network_generation: Option<u64>,
    seen: Instant,
    reply: NatPacket,
)
    requires
        spec_reserve(state, flow, network_generation, seen).1 matches Some((_, gateway, _, _)) && reply.protocol
            == flow.protocol && reply.source == gateway.ip && reply.source_port == gateway.port
            && reply.destination == flow.client.ip && reply.destination_port == flow.client.port,
    ensures
        ({
            let after = spec_reserve(state, flow, network_generation, seen).0;
            &&& after.entries.len() == state.entries.len() + 1
            &&& after.entries[state.entries.len() as int].flow == flow
            &&& reverse_matches(after.entries[state.entries.len() as int], reply)
            &&& forall|k: int|
                0 <= k < after.entries.len() && #[trigger] reverse_matches(after.entries[k], reply) ==> k
                    == state.entries.len()
        }),
{
    let ipv6 = flow.client.ip is V6;
    let offset = first_free_offset(state.entries, flow.protocol, ipv6, state.next_port, 0)->0;
    lemma_first_free_is_free(state.entries, flow.protocol, ipv6, state.next_port, 0);
    let after = spec_reserve(state, flow, network_generation, seen).0;
    let last = state.entries.len() as int;
    assert forall|k: int| 0 <= k < after.entries.len() && #[trigger] reverse_matches(after.entries[k], reply)
        implies k == last by {
        if k < last {
            assert(after.entries[k] == state.entries[k]);
            assert(state.entries[k].flow.protocol == flow.protocol && (state.entries[k].gateway.ip is V6) == ipv6
                && state.entries[k].gateway.port == port_at(state.next_port, offset as int));
        }
    }
}

/// Law: a reply reaches its flow while the flow is live. A packet the
/// reserved gateway socket sends back to the flow's client maps back to
/// the flow in the table swept at any `later` time less than the idle
/// timeout after the reservation was first seen.
pub proof fn lemma_reply_reaches_live_flow(
    state: NatTableView,
    flow: FlowKey,
    network_generation: Option<u64>,
    seen: Instant,
    reply: NatPacket,
    later: Instant,
    replied: Instant,
)
    requires
        spec_reserve(state, flow, network_generation, seen).1 matches Some((_, gateway, _, _)) && reply.protocol
            == flow.protocol && reply.source == gateway.ip && reply.source_port == gateway.port
            && reply.destination == flow.client.ip && reply.destination_port == flow.client.port,
        elapsed_nanos(later, seen) < FLOW_IDLE_TIMEOUT_NANOS,
    ensures
        spec_reverse(swept(spec_reserve(state, flow, network_generation, seen).0, later), reply, replied).1
            == Some(flow),
{
    lemma_reply_reaches_reserved_flow(state, flow, network_generation, seen, reply, replied);
    lemma_only_new_mapping_answers(state, flow, network_generation, seen, reply);
    let after = spec_reserve(state, flow, network_generation, seen).0;
    let last = state.entries.len() as int;
    let entry = after.entries[last];
    assert(entry.last_seen == seen);
    lemma_swept_finds_only_match(after, last, reply, later);
}

/// When only the entry at `index` answers `reply` and it is fresh at `now`,
/// a sweep at `now` keeps it and it is the one the reply maps back to.
/// Some entry answers `reply`, so a first one does.
proof fn lemma_some_match_is_found(entries: Seq<NatEntryView>, reply: NatPacket, index: int)
    requires
        0 <= index < entries.len(),
        reverse_matches(entries[index], reply),
    ensures
        reverse_index(entries, reply) matches Some(m) && 0 <= m < entries.len() && reverse_matches(entries[m], reply),
    decreases index,
{
    if exists|j: int| 0 <= j < index && #[trigger] reverse_matches(entries[j], reply) {
        let j = choose|j: int| 0 <= j < index && #[trigger] reverse_matches(entries[j], reply);
        lemma_some_match_is_found(entries, reply, j);
    } else {
        lemma_reverse_index_is(entries, reply, index);
    }
}

proof fn lemma_swept_finds_only_match(state: NatTableView, index: int, reply: NatPacket, now: Instant)
    requires
        0 <= index < state.entries.len(),
        reverse_matches(state.entries[index], reply),
        fresh_at(now)(state.entries[index]),
        forall|k: int|
            0 <= k < state.entries.len() && #[trigger] reverse_matches(state.entries[k], reply) ==> k == index,
    ensures
        reverse_index(swept(state, now).entries, reply) matches Some(m) && swept(state, now).entries[m]
            == state.entries[index],
{
    let entry = state.entries[index];
    if elapsed_nanos(now, state.last_sweep) >= SWEEP_INTERVAL_NANOS {
        let keep = fresh_at(now);
        let kept = state.entries.filter(keep);
        assert(swept(state, now).entries == kept);
        state.entries.lemma_filter_contains(keep, index);
        let i = choose|i: int| 0 <= i < kept.len() && kept[i] == entry;
        assert(reverse_matches(kept[i], reply));
        lemma_some_match_is_found(kept, reply, i);
        let m = reverse_index(kept, reply)->0;
        assert(kept.contains(kept[m]));
        state.entries.lemma_filter_contains_rev(keep, kept[m]);
        let k = choose|k: int| 0 <= k < state.entries.len() && state.entries[k] == kept[m];
        assert(reverse_matches(state.entries[k], reply));
    } else {
        lemma_some_match_is_found(state.entries, reply, index);
    }
}

impl Default for NatTable {
    /// An empty table, as `NatTable::new` makes it.
    fn default() -> (table: Self)
        ensures
            table.well_formed(),
            table.view().entries.len() == 0,
            table.view().udp_flows == 0,
            table.view().next_port == FIRST_DYNAMIC_PORT,
            table.view().next_id == 1,
    {
        NatTable::new()
    }
}

} // verus!
