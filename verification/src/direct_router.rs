//! The decisions of the userspace gateway for one packet leaving the TUN:
//! whether it stays on the tunnel, goes to the local DNS listener or is
//! translated onto a direct flow. The gateway performs the socket and
//! channel work between these steps.

use vstd::prelude::*;

use std::time::Instant;

use tokio_util::sync::CancellationToken;

use crate::direct_nat::{
    rewrite_destination, rewrite_source, spec_nat_parse, spec_rewrite_applies, spec_rewritten, NatPacket, PROTOCOL_TCP,
    PROTOCOL_UDP,
};
use crate::nat_table::{
    flow_index, has_room, lemma_existing_result, lemma_reserve_result, lemma_reserve_with_room,
    lemma_room_survives_lookup, mapping_facts, spec_existing, spec_reserve, spec_reverse, swept, FlowKey, NatMapping,
    NatTable, NatTableView,
};
use crate::clock::instant_now;
use crate::error::TransportError;
use crate::geo_route::GeoRoute;
use crate::net::{IpAddress, SocketAddress};

verus! {

/// The DNS port.
pub const DNS_PORT: u16 = 53;

/// What happens next to a packet leaving the TUN.
pub enum OutgoingAction {
    /// The packet stays on the tunnel, unchanged.
    Tunnel,
    /// The packet goes to the local split-DNS listener.
    LocalDns,
    /// The destination's GEO route decides; the parsed headers come along.
    ConsultRoute(NatPacket),
}

/// The packet is a DNS query to one of the split-DNS listener addresses.
pub open spec fn spec_is_split_dns_client(parsed: NatPacket, listener: (IpAddress, IpAddress)) -> bool {
    &&& parsed.destination_port == DNS_PORT
    &&& (parsed.destination == listener.0 || parsed.destination == listener.1)
}

/// Whether the packet is a DNS query to the split-DNS listener.
pub fn is_split_dns_client_packet(parsed: &NatPacket, listener: (IpAddress, IpAddress)) -> (query: bool)
    ensures
        query == spec_is_split_dns_client(*parsed, listener),
{
    parsed.destination_port == DNS_PORT && (parsed.destination == listener.0 || parsed.destination
        == listener.1)
}

/// Whether a packet coming from the gateway side is an answer of the
/// split-DNS listener.
pub fn is_split_dns_server_packet(packet: &[u8], listener: (IpAddress, IpAddress)) -> (answer: bool)
    ensures
        answer == match spec_nat_parse(packet@) {
            Some(parsed) => parsed.source_port == DNS_PORT && (parsed.source == listener.0
                || parsed.source == listener.1),
            None => false,
        },
{
    match NatPacket::parse(packet) {
        Some(parsed) => parsed.source_port == DNS_PORT && (parsed.source == listener.0
            || parsed.source == listener.1),
        None => false,
    }
}

/// The first decision for a packet leaving the TUN. Anything the NAT cannot
/// parse, or whose addresses mix families, stays on the tunnel. When the
/// gateway's workers failed, only split-DNS queries are kept off the tunnel;
/// a gateway without its channels passes everything to the tunnel.
pub open spec fn spec_classify_outgoing(
    packet: Seq<u8>,
    worker_failed: bool,
    split_dns: Option<(IpAddress, IpAddress)>,
    channels_ready: bool,
) -> OutgoingAction {
    match spec_nat_parse(packet) {
        None => OutgoingAction::Tunnel,
        Some(parsed) => {
            let split_dns_client = match split_dns {
                Some(listener) => spec_is_split_dns_client(parsed, listener),
                None => false,
            };
            if !(parsed.protocol == PROTOCOL_TCP || parsed.protocol == PROTOCOL_UDP) || (
            parsed.source is V4) != (parsed.destination is V4) {
                OutgoingAction::Tunnel
            } else if worker_failed {
                if split_dns_client {
                    OutgoingAction::LocalDns
                } else {
                    OutgoingAction::Tunnel
                }
            } else if !channels_ready {
                OutgoingAction::Tunnel
            } else if split_dns_client {
                OutgoingAction::LocalDns
            } else {
                OutgoingAction::ConsultRoute(parsed)
            }
        },
    }
}

/// Law: split DNS only takes DNS queries to its listener off the route. A
/// TCP or UDP packet whose addresses share a family, leaving a gateway whose
/// workers run and whose channels are ready, goes to the GEO route decision
/// with its parsed headers unless it is a query to the listener's port 53 at
/// one of the listener's addresses, and it is classified the same with split
/// DNS on or off.
pub proof fn lemma_split_dns_diverts_only_its_queries(
    packet: Seq<u8>,
    listener: (IpAddress, IpAddress),
    worker_failed: bool,
    channels_ready: bool,
)
    ensures
        spec_nat_parse(packet) matches Some(parsed) ==> {
            let query = parsed.destination_port == 53 && (parsed.destination == listener.0 || parsed.destination
                == listener.1);
            &&& !query ==> spec_classify_outgoing(packet, worker_failed, Some(listener), channels_ready)
                == spec_classify_outgoing(packet, worker_failed, None, channels_ready)
            &&& (parsed.protocol == 6 || parsed.protocol == 17) && (parsed.source is V4) == (
            parsed.destination is V4) && !worker_failed && channels_ready ==> {
                &&& spec_classify_outgoing(packet, false, None, true) == OutgoingAction::ConsultRoute(parsed)
                &&& spec_classify_outgoing(packet, false, Some(listener), true) == if query {
                    OutgoingAction::LocalDns
                } else {
                    OutgoingAction::ConsultRoute(parsed)
                }
            }
        },
{
}

/// Law: what never leaves the tunnel. A packet the NAT cannot parse, one
/// that is neither TCP nor UDP, and one whose addresses mix families stay
/// on the tunnel; a gateway whose workers failed or whose channels are not
/// ready never sends a packet to the GEO route, and a failed gateway still
/// answers exactly the split-DNS queries locally.
pub proof fn lemma_what_stays_on_the_tunnel(
    packet: Seq<u8>,
    worker_failed: bool,
    split_dns: Option<(IpAddress, IpAddress)>,
    channels_ready: bool,
)
    ensures
        spec_nat_parse(packet) is None ==> spec_classify_outgoing(packet, worker_failed, split_dns, channels_ready)
            == OutgoingAction::Tunnel,
        spec_nat_parse(packet) matches Some(parsed) ==> {
            let query = split_dns matches Some(listener) && parsed.destination_port == 53 && (parsed.destination
                == listener.0 || parsed.destination == listener.1);
            let result = spec_classify_outgoing(packet, worker_failed, split_dns, channels_ready);
            &&& !(parsed.protocol == 6 || parsed.protocol == 17) ==> result == OutgoingAction::Tunnel
            &&& (parsed.source is V4) != (parsed.destination is V4) ==> result == OutgoingAction::Tunnel
            &&& (worker_failed || !channels_ready) ==> !(result is ConsultRoute)
            &&& worker_failed && (parsed.protocol == 6 || parsed.protocol == 17) && (parsed.source is V4) == (
            parsed.destination is V4) ==> result == if query {
                OutgoingAction::LocalDns
            } else {
                OutgoingAction::Tunnel
            }
        },
{
}

pub fn classify_outgoing(
    packet: &[u8],
    worker_failed: bool,
    split_dns: Option<(IpAddress, IpAddress)>,
    channels_ready: bool,
) -> (action: OutgoingAction)
    ensures
        action == spec_classify_outgoing(packet@, worker_failed, split_dns, channels_ready),
{
    let parsed = match NatPacket::parse(packet) {
        Some(parsed) => parsed,
        None => return OutgoingAction::Tunnel,
    };
    if !(parsed.protocol == PROTOCOL_TCP || parsed.protocol == PROTOCOL_UDP)
        || parsed.source.is_ipv4() != parsed.destination.is_ipv4() {
        return OutgoingAction::Tunnel;
    }
    let split_dns_client = match split_dns {
        Some(listener) => is_split_dns_client_packet(&parsed, listener),
        None => false,
    };
    if worker_failed {
        return if split_dns_client {
            OutgoingAction::LocalDns
        } else {
            OutgoingAction::Tunnel
        };
    }
    if !channels_ready {
        return OutgoingAction::Tunnel;
    }
    if split_dns_client {
        return OutgoingAction::LocalDns;
    }
    OutgoingAction::ConsultRoute(parsed)
}

/// The flow a parsed packet belongs to.
pub fn flow_of(parsed: &NatPacket) -> (flow: FlowKey)
    ensures
        flow == (FlowKey {
            protocol: parsed.protocol,
            client: SocketAddress { ip: parsed.source, port: parsed.source_port },
            remote: SocketAddress { ip: parsed.destination, port: parsed.destination_port },
        }),
{
    FlowKey {
        protocol: parsed.protocol,
        client: SocketAddress { ip: parsed.source, port: parsed.source_port },
        remote: SocketAddress { ip: parsed.destination, port: parsed.destination_port },
    }
}

/// The facts of a mapping handed out for a direct flow, and whether it was
/// freshly reserved.
pub open spec fn found_facts(found: Option<(NatMapping, bool)>) -> Option<
    ((u64, SocketAddress, Option<u64>, Instant), bool),
> {
    match found {
        Some((mapping, fresh)) => Some(
            ((mapping.id, mapping.gateway, mapping.network_generation, mapping.last_seen), fresh),
        ),
        None => None,
    }
}

/// The table and the answer after finding the mapping of a direct flow:
/// the lookup at `seen` in the table swept at `now` hands out the current
/// mapping (not fresh); when it hands out nothing, a reservation at
/// `reserved_at` in the table it left, swept at `later`, hands out a fresh
/// one or nothing.
pub open spec fn spec_mapping_for(
    state: NatTableView,
    flow: FlowKey,
    network_generation: Option<u64>,
    now: Instant,
    seen: Instant,
    later: Instant,
    reserved_at: Instant,
) -> (NatTableView, Option<((u64, SocketAddress, Option<u64>, Instant), bool)>) {
    let lookup = spec_existing(swept(state, now), flow, network_generation, seen);
    match lookup.1 {
        Some(facts) => (lookup.0, Some((facts, false))),
        None => {
            let reservation = spec_reserve(swept(lookup.0, later), flow, network_generation, reserved_at);
            (
                reservation.0,
                match reservation.1 {
                    Some(facts) => Some((facts, true)),
                    None => None,
                },
            )
        },
    }
}

/// The mapping a direct flow uses, looked up in the table swept at `now`
/// and stamped at `seen`: the current one, or else a fresh reservation
/// (marked `true`) in the table swept again at `later`, first seen at
/// `reserved_at`. Afterwards the flow is mapped exactly when a mapping comes
/// back, and it is that mapping; a table with room for the flow always
/// hands one out.
pub fn mapping_for_at(
    table: &mut NatTable,
    now: Instant,
    seen: Instant,
    later: Instant,
    reserved_at: Instant,
    flow: FlowKey,
    network_generation: Option<u64>,
    parent: &CancellationToken,
) -> (found: Option<(NatMapping, bool)>)
    requires
        old(table).well_formed(),
    ensures
        final(table).well_formed(),
        (final(table).view(), found_facts(found)) == spec_mapping_for(
            old(table).view(),
            flow,
            network_generation,
            now,
            seen,
            later,
            reserved_at,
        ),
        has_room(old(table).view(), flow) ==> found is Some,
        match found {
            Some((mapping, _)) => flow_index(final(table).view().entries, flow) matches Some(index)
                && final(table).view().entries[index].id == mapping.id
                && final(table).view().entries[index].gateway == mapping.gateway
                && mapping.network_generation == network_generation,
            None => flow_index(final(table).view().entries, flow) is None,
        },
{
    let ghost before = table.view();
    match table.existing_at(now, seen, &flow, network_generation) {
        Some(mapping) => {
            proof {
                table.lemma_well_formed_is_consistent();
                assert(spec_existing(swept(before, now), flow, network_generation, seen) == (
                    table.view(),
                    mapping_facts(Some(mapping)),
                ));
                lemma_existing_result(
                    before,
                    table.view(),
                    flow,
                    network_generation,
                    mapping_facts(Some(mapping)),
                );
            }
            Some((mapping, false))
        },
        None => {
            let ghost mid = table.view();
            proof {
                table.lemma_well_formed_is_consistent();
                assert(spec_existing(swept(before, now), flow, network_generation, seen) == (
                    mid,
                    mapping_facts(None),
                ));
                lemma_existing_result(before, mid, flow, network_generation, mapping_facts(None));
            }
            let reserved = table.reserve_at(later, reserved_at, flow, network_generation, parent);
            let found = match reserved {
                Some(mapping) => Some((mapping, true)),
                None => None,
            };
            proof {
                table.lemma_well_formed_is_consistent();
                assert(spec_reserve(swept(mid, later), flow, network_generation, reserved_at) == (
                    table.view(),
                    mapping_facts(reserved),
                ));
                lemma_reserve_result(mid, table.view(), flow, network_generation, mapping_facts(reserved));
                if has_room(before, flow) {
                    lemma_room_survives_lookup(before, flow, network_generation, now, seen);
                    lemma_reserve_with_room(mid, flow, network_generation, later, reserved_at);
                }
            }
            found
        },
    }
}

/// The mapping a direct flow uses, as `mapping_for_at` finds it at the
/// current time.
pub fn mapping_for(
    table: &mut NatTable,
    flow: FlowKey,
    network_generation: Option<u64>,
    parent: &CancellationToken,
) -> (found: Option<(NatMapping, bool)>)
    requires
        old(table).well_formed(),
    ensures
        final(table).well_formed(),
        exists|now: Instant, seen: Instant, later: Instant, reserved_at: Instant|
            #[trigger] spec_mapping_for(old(table).view(), flow, network_generation, now, seen, later, reserved_at)
                == (final(table).view(), found_facts(found)),
        has_room(old(table).view(), flow) ==> found is Some,
        match found {
            Some((mapping, _)) => flow_index(final(table).view().entries, flow) matches Some(index)
                && final(table).view().entries[index].id == mapping.id
                && final(table).view().entries[index].gateway == mapping.gateway
                && mapping.network_generation == network_generation,
            None => flow_index(final(table).view().entries, flow) is None,
        },
{
    let now = instant_now();
    let seen = instant_now();
    let later = instant_now();
    let reserved_at = instant_now();
    let found = mapping_for_at(table, now, seen, later, reserved_at, flow, network_generation, parent);
    assert(spec_mapping_for(old(table).view(), flow, network_generation, now, seen, later, reserved_at) == (
        table.view(),
        found_facts(found),
    ));
    found
}

/// The mapping for a packet the classification handed to the GEO route, at
/// the given instants: none when the destination's route is not direct,
/// which leaves the table as it was; otherwise what `mapping_for_at` finds
/// for the packet's flow.
pub fn plan_direct_at(
    table: &mut NatTable,
    now: Instant,
    seen: Instant,
    later: Instant,
    reserved_at: Instant,
    parsed: &NatPacket,
    route: GeoRoute,
    network_generation: Option<u64>,
    parent: &CancellationToken,
) -> (found: Option<(NatMapping, bool)>)
    requires
        old(table).well_formed(),
    ensures
        final(table).well_formed(),
        route != GeoRoute::Direct ==> found is None && final(table).view() == old(table).view(),
        route == GeoRoute::Direct ==> (final(table).view(), found_facts(found)) == spec_mapping_for(
            old(table).view(),
            flow_key_of(*parsed),
            network_generation,
            now,
            seen,
            later,
            reserved_at,
        ),
        route == GeoRoute::Direct && has_room(old(table).view(), flow_key_of(*parsed)) ==> found is Some,
{
    if route != GeoRoute::Direct {
        return None;
    }
    let flow = flow_of(parsed);
    mapping_for_at(table, now, seen, later, reserved_at, flow, network_generation, parent)
}

/// The mapping for a packet the classification handed to the GEO route:
/// none when the destination's route is not direct, which leaves the
/// table as it was; otherwise the flow's current mapping or a fresh
/// reservation, as `mapping_for` finds it. The caller sets up the gateway
/// socket of a fresh reservation and then finishes with
/// `complete_outgoing`.
pub fn plan_direct(
    table: &mut NatTable,
    parsed: &NatPacket,
    route: GeoRoute,
    network_generation: Option<u64>,
    parent: &CancellationToken,
) -> (found: Option<(NatMapping, bool)>)
    requires
        old(table).well_formed(),
    ensures
        final(table).well_formed(),
        route != GeoRoute::Direct ==> found is None && final(table).view() == old(table).view(),
        route == GeoRoute::Direct ==> exists|now: Instant, seen: Instant, later: Instant, reserved_at: Instant|
            #[trigger] spec_mapping_for(
                old(table).view(),
                flow_key_of(*parsed),
                network_generation,
                now,
                seen,
                later,
                reserved_at,
            ) == (final(table).view(), found_facts(found)),
        route == GeoRoute::Direct && has_room(old(table).view(), flow_key_of(*parsed)) ==> found is Some,
        route == GeoRoute::Direct ==> match found {
            Some((mapping, _)) => flow_index(final(table).view().entries, flow_key_of(*parsed)) matches Some(
                index,
            ) && final(table).view().entries[index].id == mapping.id && final(table).view().entries[index].gateway
                == mapping.gateway && mapping.network_generation == network_generation,
            None => flow_index(final(table).view().entries, flow_key_of(*parsed)) is None,
        },
{
    if route != GeoRoute::Direct {
        return None;
    }
    let flow = flow_of(parsed);
    mapping_for(table, flow, network_generation, parent)
}

/// Finishes a direct flow's packet once its gateway socket was set up, or
/// failed to be: the packet is translated onto the gateway socket. A failed
/// setup, or a translation that does not apply, sends the packet back to
/// the tunnel unchanged and releases a mapping reserved for it.
pub fn complete_outgoing(
    table: &mut NatTable,
    packet: &mut [u8],
    parsed: &NatPacket,
    mapping: &NatMapping,
    newly_reserved: bool,
    setup_succeeded: bool,
) -> (direct: bool)
    requires
        old(table).well_formed(),
        parsed.transport_offset <= usize::MAX - 4,
        parsed.checksum_offset <= usize::MAX - 2,
    ensures
        final(table).well_formed(),
        direct == (setup_succeeded && spec_rewrite_applies(
            old(packet)@,
            *parsed,
            parsed.destination,
            mapping.gateway.ip,
            false,
        )),
        !direct ==> final(packet)@ == old(packet)@,
        direct ==> final(packet)@ == spec_rewritten(
            old(packet)@,
            *parsed,
            parsed.destination,
            mapping.gateway.ip,
            parsed.destination_port,
            mapping.gateway.port,
            false,
        ),
        direct ==> final(table).view() == old(table).view(),
        !direct && !newly_reserved && setup_succeeded ==> final(table).view() == old(table).view(),
        !direct && (newly_reserved || !setup_succeeded) ==> final(table).view() == match flow_index(
            old(table).view().entries,
            flow_key_of(*parsed),
        ) {
            Some(index) => if old(table).view().entries[index].id == mapping.id {
                crate::nat_table::without_entry(old(table).view(), index)
            } else {
                old(table).view()
            },
            None => old(table).view(),
        },
{
    let flow = flow_of(parsed);
    if !setup_succeeded {
        table.remove_if(&flow, mapping.id);
        return false;
    }
    if !rewrite_destination(packet, parsed, mapping.gateway) {
        if newly_reserved {
            table.remove_if(&flow, mapping.id);
        }
        return false;
    }
    true
}

/// What becomes of a reply packet once its flow is known: without a flow
/// it stays as it was and is not routed; with one, its source becomes the
/// flow's remote endpoint when that translation applies.
pub open spec fn incoming_outcome(
    before: Seq<u8>,
    after: Seq<u8>,
    parsed: NatPacket,
    flow: Option<FlowKey>,
    routed: bool,
) -> bool {
    match flow {
        None => !routed && after == before,
        Some(key) => {
            &&& routed == spec_rewrite_applies(before, parsed, parsed.source, key.remote.ip, true)
            &&& routed ==> after == spec_rewritten(
                before,
                parsed,
                parsed.source,
                key.remote.ip,
                parsed.source_port,
                key.remote.port,
                true,
            )
            &&& !routed ==> after == before
        },
    }
}

/// Routes a packet that a direct flow's gateway socket sent back toward the
/// TUN, with the table swept at `now` and the flow stamped at `seen`: a TCP
/// or UDP packet of a known flow gets the flow's remote endpoint as its
/// source, so the client sees the reply come from where it sent to. A
/// packet that does not parse leaves the table alone; every packet that is
/// not routed stays as it was.
pub fn route_incoming_at(table: &mut NatTable, now: Instant, seen: Instant, packet: &mut [u8]) -> (routed: bool)
    requires
        old(table).well_formed(),
    ensures
        final(table).well_formed(),
        match spec_nat_parse(old(packet)@) {
            None => !routed && final(packet)@ == old(packet)@ && final(table).view() == old(table).view(),
            Some(parsed) => {
                &&& spec_reverse(swept(old(table).view(), now), parsed, seen).0 == final(table).view()
                &&& incoming_outcome(
                    old(packet)@,
                    final(packet)@,
                    parsed,
                    spec_reverse(swept(old(table).view(), now), parsed, seen).1,
                    routed,
                )
            },
        },
{
    let parsed = match NatPacket::parse(packet) {
        Some(parsed) => parsed,
        None => return false,
    };
    let flow = table.reverse_at(now, seen, &parsed);
    let routed = match flow {
        None => false,
        Some(key) => rewrite_source(packet, &parsed, key.remote),
    };
    assert(incoming_outcome(old(packet)@, packet@, parsed, flow, routed));
    routed
}

/// Routes a packet that a direct flow's gateway socket sent back toward the
/// TUN, as `route_incoming_at` does at the current time.
pub fn route_incoming(table: &mut NatTable, packet: &mut [u8]) -> (routed: bool)
    requires
        old(table).well_formed(),
    ensures
        final(table).well_formed(),
        match spec_nat_parse(old(packet)@) {
            None => !routed && final(packet)@ == old(packet)@ && final(table).view() == old(table).view(),
            Some(parsed) => exists|now: Instant, seen: Instant|
                #[trigger] spec_reverse(swept(old(table).view(), now), parsed, seen).0 == final(table).view()
                    && incoming_outcome(
                    old(packet)@,
                    final(packet)@,
                    parsed,
                    spec_reverse(swept(old(table).view(), now), parsed, seen).1,
                    routed,
                ),
        },
{
    let now = instant_now();
    let seen = instant_now();
    let routed = route_incoming_at(table, now, seen, packet);
    proof {
        if let Some(parsed) = spec_nat_parse(old(packet)@) {
            assert(spec_reverse(swept(old(table).view(), now), parsed, seen).0 == table.view());
        }
    }
    routed
}

/// Split DNS runs when the tunnel frontend is on, GEO countries are
/// configured and the GEO policy can route directly.
pub fn split_dns_enabled(tunnel_frontend: bool, countries_configured: bool, policy_enabled: bool) -> (enabled: bool)
    ensures
        enabled == (tunnel_frontend && countries_configured && policy_enabled),
{
    tunnel_frontend && countries_configured && policy_enabled
}

/// How the direct gateway starts. Split DNS on a platform that cannot
/// safely bypass the TUN is refused; otherwise the gateway runs its
/// userspace stack (`true`) only when the platform can bypass the TUN and
/// the GEO policy can route directly, and stays inert (`false`) else.
pub fn gateway_start_plan(split_dns: bool, tun_direct_available: bool, policy_enabled: bool) -> (plan: Result<
    bool,
    TransportError,
>)
    ensures
        split_dns && !tun_direct_available ==> (plan matches Err(TransportError::Dns(message)) && message@
            == "platform cannot safely bypass the TUN for Split DNS"@),
        !(split_dns && !tun_direct_available) ==> plan == Ok::<bool, TransportError>(
            tun_direct_available && (policy_enabled || split_dns),
        ),
{
    if split_dns && !tun_direct_available {
        return Err(TransportError::Dns(String::from_str("platform cannot safely bypass the TUN for Split DNS")));
    }
    Ok(tun_direct_available && (policy_enabled || split_dns))
}

/// The flow key of a parsed packet.
pub open spec fn flow_key_of(parsed: NatPacket) -> FlowKey {
    FlowKey {
        protocol: parsed.protocol,
        client: SocketAddress { ip: parsed.source, port: parsed.source_port },
        remote: SocketAddress { ip: parsed.destination, port: parsed.destination_port },
    }
}

} // verus!
