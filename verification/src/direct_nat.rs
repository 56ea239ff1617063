//! Endpoint-only userspace NAT for directly routed TUN flows: parsing the
//! IPv4/IPv6 and TCP/UDP headers it may rewrite, and checksum-preserving
//! address and port rewriting (RFC 1624 incremental updates).

use vstd::prelude::*;

use crate::net::{IpAddress, SocketAddress, be_u128, be_u32, read_ipv4, read_ipv6};

verus! {

/// The IPv4 address of the userspace gateway, 198.18.0.1.
pub const GATEWAY_IPV4: u32 = 0xc612_0001;
/// The IPv6 address of the userspace gateway, fd00::1.
pub const GATEWAY_IPV6: u128 = 0xfd00_0000_0000_0000_0000_0000_0000_0001;

pub const PROTOCOL_TCP: u8 = 6;
pub const PROTOCOL_UDP: u8 = 17;

/// The big-endian 16-bit field at `offset`.
pub open spec fn be16_at(packet: Seq<u8>, offset: int) -> u16 {
    (packet[offset] as int * 256 + packet[offset + 1] as int) as u16
}

/// Reads a big-endian 16-bit field when both bytes are present.
pub fn read_u16(packet: &[u8], offset: usize) -> (value: Option<u16>)
    requires
        offset < usize::MAX,
    ensures
        offset + 2 <= packet@.len() ==> value == Some(be16_at(packet@, offset as int)),
        offset + 2 > packet@.len() ==> value is None,
{
    if offset >= packet.len() || offset + 1 >= packet.len() {
        return None;
    }
    Some((packet[offset] as u16) * 256 + (packet[offset + 1] as u16))
}

/// `packet` with the big-endian `value` written at `offset`.
pub open spec fn put_be16(packet: Seq<u8>, offset: int, value: u16) -> Seq<u8> {
    packet.update(offset, (value >> 8u16) as u8).update(offset + 1, value as u8)
}

/// Writes a big-endian 16-bit field when both bytes are present.
pub fn write_u16(packet: &mut [u8], offset: usize, value: u16)
    requires
        offset < usize::MAX - 1,
    ensures
        offset + 2 <= old(packet)@.len() ==> final(packet)@ == put_be16(
            old(packet)@,
            offset as int,
            value,
        ),
        offset + 2 > old(packet)@.len() ==> final(packet)@ == old(packet)@,
{
    if offset + 2 <= packet.len() {
        packet[offset] = (value >> 8u16) as u8;
        packet[offset + 1] = value as u8;
    }
}

/// The header facts the NAT needs about a TCP or UDP packet.
#[derive(Clone, Copy, Debug)]
pub struct NatPacket {
    pub version: u8,
    pub protocol: u8,
    pub source: IpAddress,
    pub destination: IpAddress,
    pub source_port: u16,
    pub destination_port: u16,
    pub transport_offset: usize,
    pub checksum_offset: usize,
    pub checksum_optional: bool,
}

/// Any flag or fragment-offset bit other than "don't fragment" is set.
pub open spec fn spec_has_fragment_bits(flags_offset: u16) -> bool {
    flags_offset & 0xbfff != 0
}

/// The header facts of an IPv4 packet with a bare 20-byte header that is not
/// a fragment: version, protocol, source, destination and header length.
pub open spec fn spec_parse_ipv4(packet: Seq<u8>) -> Option<(u8, u8, IpAddress, IpAddress, usize)> {
    if packet.len() < 20 || packet[0] % 16 != 5 || spec_has_fragment_bits(be16_at(packet, 6)) {
        None
    } else {
        Some(
            (
                4u8,
                packet[9],
                IpAddress::V4(be_u32(packet.subrange(12, 16))),
                IpAddress::V4(be_u32(packet.subrange(16, 20))),
                20usize,
            ),
        )
    }
}

/// The header facts of an IPv6 packet whose next header is TCP or UDP
/// directly, with no extension header.
pub open spec fn spec_parse_ipv6(packet: Seq<u8>) -> Option<(u8, u8, IpAddress, IpAddress, usize)> {
    if packet.len() < 40 || !(packet[6] == PROTOCOL_TCP || packet[6] == PROTOCOL_UDP) {
        None
    } else {
        Some(
            (
                6u8,
                packet[6],
                IpAddress::V6(be_u128(packet.subrange(8, 24))),
                IpAddress::V6(be_u128(packet.subrange(24, 40))),
                40usize,
            ),
        )
    }
}

fn parse_ipv4(packet: &[u8]) -> (header: Option<(u8, u8, IpAddress, IpAddress, usize)>)
    ensures
        header == spec_parse_ipv4(packet@),
{
    if packet.len() < 20 {
        return None;
    }
    let first = packet[0];
    let header_words = first & 0x0f;
    assert(header_words == first % 16) by (bit_vector)
        requires
            header_words == first & 0x0f,
    ;
    if header_words != 5 {
        return None;
    }
    let flags_offset = match read_u16(packet, 6) {
        Some(value) => value,
        None => return None,
    };
    if flags_offset & 0xbfff != 0 {
        return None;
    }
    let source = IpAddress::V4(read_ipv4(packet, 12));
    let destination = IpAddress::V4(read_ipv4(packet, 16));
    Some((4, packet[9], source, destination, 20))
}

fn parse_ipv6(packet: &[u8]) -> (header: Option<(u8, u8, IpAddress, IpAddress, usize)>)
    ensures
        header == spec_parse_ipv6(packet@),
{
    if packet.len() < 40 {
        return None;
    }
    let protocol = packet[6];
    if protocol != PROTOCOL_TCP && protocol != PROTOCOL_UDP {
        return None;
    }
    let source = IpAddress::V6(read_ipv6(packet, 8));
    let destination = IpAddress::V6(read_ipv6(packet, 24));
    Some((6, protocol, source, destination, 40))
}

/// What `NatPacket::parse` finds in `packet`: a TCP or UDP packet over a bare
/// IPv4 or IPv6 header, long enough for its transport header.
pub open spec fn spec_nat_parse(packet: Seq<u8>) -> Option<NatPacket> {
    let header = if packet.len() == 0 {
        None
    } else if packet[0] / 16 == 4 {
        spec_parse_ipv4(packet)
    } else if packet[0] / 16 == 6 {
        spec_parse_ipv6(packet)
    } else {
        None
    };
    match header {
        None => None,
        Some((version, protocol, source, destination, offset)) => {
            if protocol != PROTOCOL_TCP && protocol != PROTOCOL_UDP {
                None
            } else {
                let tcp = protocol == PROTOCOL_TCP;
                let minimum: int = if tcp { 20 } else { 8 };
                if packet.len() < offset + minimum {
                    None
                } else {
                    Some(
                        NatPacket {
                            version,
                            protocol,
                            source,
                            destination,
                            source_port: be16_at(packet, offset as int),
                            destination_port: be16_at(packet, offset + 2),
                            transport_offset: offset,
                            checksum_offset: (if tcp { offset + 16 } else { offset + 6 }) as usize,
                            checksum_optional: !tcp && version == 4,
                        },
                    )
                }
            }
        },
    }
}

impl NatPacket {
    /// Parses the headers the NAT rewrites; every other packet (options,
    /// fragments, extension headers, other protocols, truncation) is `None`
    /// and stays on the tunnel unchanged.
    pub fn parse(packet: &[u8]) -> (parsed: Option<NatPacket>)
        ensures
            parsed == spec_nat_parse(packet@),
    {
        if packet.len() == 0 {
            return None;
        }
        let first = packet[0];
        let version_nibble = first >> 4u8;
        assert(version_nibble == first / 16) by (bit_vector)
            requires
                version_nibble == first >> 4u8,
        ;
        let header = if version_nibble == 4 {
            parse_ipv4(packet)
        } else if version_nibble == 6 {
            parse_ipv6(packet)
        } else {
            None
        };
        let (version, protocol, source, destination, offset) = match header {
            Some(header) => header,
            None => return None,
        };
        let (checksum_offset, checksum_optional, minimum) = if protocol == PROTOCOL_TCP {
            (offset + 16, false, 20usize)
        } else if protocol == PROTOCOL_UDP {
            (offset + 6, version == 4, 8usize)
        } else {
            return None;
        };
        if packet.len() < offset + minimum {
            return None;
        }
        let source_port = match read_u16(packet, offset) {
            Some(port) => port,
            None => return None,
        };
        let destination_port = match read_u16(packet, offset + 2) {
            Some(port) => port,
            None => return None,
        };
        Some(
            NatPacket {
                version,
                protocol,
                source,
                destination,
                source_port,
                destination_port,
                transport_offset: offset,
                checksum_offset,
                checksum_optional,
            },
        )
    }
}


/// Adds the carries of a one's-complement sum back into its low 16 bits
/// until none is left.
pub open spec fn fold_carries(sum: nat) -> nat
    decreases sum,
{
    if sum < 0x10000 {
        sum
    } else {
        fold_carries(sum % 0x10000 + sum / 0x10000)
    }
}

/// RFC 1624 eqn. 3: the checksum after one 16-bit word of the covered data
/// changes from `old` to `new`, `HC' = ~(~HC + ~m + m')`.
pub open spec fn spec_update_checksum(checksum: u16, old: u16, new: u16) -> u16 {
    !(fold_carries(((!checksum) as int + (!old) as int + new as int) as nat) as u16)
}

/// Incrementally updates an Internet checksum for one changed 16-bit word.
pub fn update_checksum(checksum: u16, old: u16, new: u16) -> (updated: u16)
    ensures
        updated == spec_update_checksum(checksum, old, new),
{
    let mut sum: u32 = (!checksum) as u32 + (!old) as u32 + new as u32;
    let ghost initial: nat = sum as nat;
    while sum >> 16u32 != 0
        invariant
            sum < 0x30000,
            fold_carries(sum as nat) == fold_carries(initial),
        decreases sum,
    {
        let low = sum & 0xffff;
        let high = sum >> 16u32;
        assert(low == sum % 0x10000 && high == sum / 0x10000 && sum >= 0x10000) by (bit_vector)
            requires
                low == sum & 0xffff,
                high == sum >> 16u32,
                sum >> 16u32 != 0,
        ;
        sum = low + high;
    }
    assert(sum < 0x10000) by (bit_vector)
        requires
            sum >> 16u32 == 0,
    ;
    !(sum as u16)
}

/// Folding the carries keeps a sum's value modulo `0xffff` and ends below
/// `0x10000`.
proof fn lemma_fold_carries_modulo(sum: nat)
    ensures
        fold_carries(sum) < 0x10000,
        fold_carries(sum) % 0xffff == sum % 0xffff,
    decreases sum,
{
    if sum >= 0x10000 {
        let low = sum % 0x10000;
        let high = sum / 0x10000;
        assert(sum == high * 0x10000 + low) by (nonlinear_arith)
            requires
                low == sum % 0x10000,
                high == sum / 0x10000,
        ;
        assert((high * 0x10000 + low) % 0xffff == (low + high) % 0xffff) by (nonlinear_arith)
            requires
                high >= 0,
                low >= 0,
        {
            assert(high * 0x10000 + low == high * 0xffff + (low + high));
            vstd::arithmetic::div_mod::lemma_mod_multiples_vanish(high as int, (low + high) as int, 0xffff);
        }
        assert(low + high < sum) by (nonlinear_arith)
            requires
                sum >= 0x10000,
                low == sum % 0x10000,
                high == sum / 0x10000,
        ;
        lemma_fold_carries_modulo((low + high) as nat);
    }
}

/// Law (RFC 1624): an incremental update compensates exactly for the
/// changed word. The updated checksum plus the new word equals the old
/// checksum plus the old word in one's-complement arithmetic, that is
/// modulo `0xffff`, so a checksum that verified before still verifies.
pub proof fn lemma_update_checksum_compensates(checksum: u16, old: u16, new: u16)
    ensures
        (spec_update_checksum(checksum, old, new) + new) % 0xffff == (checksum + old) % 0xffff,
{
    let not_checksum = !checksum;
    let not_old = !old;
    assert(not_checksum == 0xffff - checksum) by (bit_vector)
        requires
            not_checksum == !checksum,
    ;
    assert(not_old == 0xffff - old) by (bit_vector)
        requires
            not_old == !old,
    ;
    let sum: nat = (not_checksum as int + not_old as int + new as int) as nat;
    lemma_fold_carries_modulo(sum);
    let folded = fold_carries(sum);
    let folded16 = folded as u16;
    assert(folded16 == folded);
    let updated = !folded16;
    assert(updated == 0xffff - folded16) by (bit_vector)
        requires
            updated == !folded16,
    ;
    assert(spec_update_checksum(checksum, old, new) == updated);
    assert(((0xffff - folded) + new) % 0xffff == (checksum + old) % 0xffff) by (nonlinear_arith)
        requires
            folded % 0xffff == sum % 0xffff,
            sum == (0xffff - checksum) + (0xffff - old) + new,
            folded < 0x10000,
            checksum < 0x10000,
            old < 0x10000,
            new < 0x10000,
    {
        let k = folded / 0xffff;
        let j = sum / 0xffff;
        assert(folded == k * 0xffff + folded % 0xffff);
        assert(sum == j * 0xffff + sum % 0xffff);
        assert((0xffff - folded) + new == 0xffff * (j - k - 1) + (checksum + old));
        vstd::arithmetic::div_mod::lemma_mod_multiples_vanish(j - k - 1, (checksum + old) as int, 0xffff);
    }
}

/// The sum of the first `words` big-endian 16-bit words of `bytes`.
pub open spec fn word_sum(bytes: Seq<u8>, words: nat) -> int
    decreases words,
{
    if words == 0 {
        0
    } else {
        word_sum(bytes, (words - 1) as nat) + be16_at(bytes, 2 * (words - 1))
    }
}

/// Law: updating a checksum word by word for a changed field compensates
/// for the whole field: the result plus the new field's words equals the
/// old checksum plus the old field's words, modulo `0xffff`.
pub proof fn lemma_field_update_compensates(checksum: u16, old: Seq<u8>, new: Seq<u8>, words: nat)
    ensures
        (fold_checksum_words(checksum, old, new, words) + word_sum(new, words)) % 0xffff == (checksum
            + word_sum(old, words)) % 0xffff,
    decreases words,
{
    if words > 0 {
        let earlier = (words - 1) as nat;
        lemma_field_update_compensates(checksum, old, new, earlier);
        let before = fold_checksum_words(checksum, old, new, earlier);
        let old_word = be16_at(old, 2 * earlier as int);
        let new_word = be16_at(new, 2 * earlier as int);
        lemma_update_checksum_compensates(before, old_word, new_word);
        let after = spec_update_checksum(before, old_word, new_word);
        let a = word_sum(new, earlier);
        let b = word_sum(old, earlier);
        assert((after + a + new_word) % 0xffff == (checksum + b + old_word) % 0xffff) by {
            vstd::arithmetic::div_mod::lemma_add_mod_noop((after + new_word) as int, a, 0xffff);
            vstd::arithmetic::div_mod::lemma_add_mod_noop((before + old_word) as int, a, 0xffff);
            vstd::arithmetic::div_mod::lemma_add_mod_noop((before + a) as int, old_word as int, 0xffff);
            vstd::arithmetic::div_mod::lemma_add_mod_noop((checksum + b) as int, old_word as int, 0xffff);
        }
    }
}

/// Adding the same amount keeps two values congruent modulo `0xffff`.
proof fn lemma_congruent_add(a: int, b: int, c: int)
    requires
        a % 0xffff == b % 0xffff,
    ensures
        (a + c) % 0xffff == (b + c) % 0xffff,
{
    vstd::arithmetic::div_mod::lemma_add_mod_noop(a, c, 0xffff);
    vstd::arithmetic::div_mod::lemma_add_mod_noop(b, c, 0xffff);
}

/// A 16-bit field written with `put_be16` reads back as written; fields
/// that do not overlap it read as before.
proof fn lemma_put_be16_reads(packet: Seq<u8>, offset: int, value: u16, other: int)
    requires
        0 <= offset,
        offset + 2 <= packet.len(),
        0 <= other,
        other + 2 <= packet.len(),
    ensures
        be16_at(put_be16(packet, offset, value), offset) == value,
        other + 2 <= offset || offset + 2 <= other ==> be16_at(put_be16(packet, offset, value), other)
            == be16_at(packet, other),
        put_be16(packet, offset, value).len() == packet.len(),
{
    let high = (value >> 8u16) as u8;
    let low = value as u8;
    assert(high as u16 * 256 + low as u16 == value) by (bit_vector)
        requires
            high == (value >> 8u16) as u8,
            low == value as u8,
    ;
    let written = put_be16(packet, offset, value);
    assert(written[offset] == high && written[offset + 1] == low);
}

/// Fields that do not overlap the overwritten range read as before.
proof fn lemma_overwrite_keeps(packet: Seq<u8>, offset: int, bytes: Seq<u8>, other: int)
    requires
        0 <= other,
        other + 2 <= packet.len(),
        other + 2 <= offset || offset + bytes.len() <= other,
    ensures
        be16_at(overwrite(packet, offset, bytes), other) == be16_at(packet, other),
        overwrite(packet, offset, bytes).len() == packet.len(),
{
}

/// Law: a NAT rewrite keeps every checksum that verified still verifying.
/// The transport checksum (unless it is an absent IPv4 UDP checksum,
/// which stays absent) and the IPv4 header checksum change by exactly what
/// the replaced address and port words remove and add: each checksum plus
/// the new words equals the old checksum plus the old words, modulo
/// `0xffff`, so the one's-complement sum over the covered data is kept.
pub proof fn lemma_rewrite_keeps_checksums(
    packet: Seq<u8>,
    parsed: NatPacket,
    old_ip: IpAddress,
    new_ip: IpAddress,
    old_port: u16,
    new_port: u16,
    source: bool,
)
    requires
        spec_nat_parse(packet) == Some(parsed),
        spec_rewrite_applies(packet, parsed, old_ip, new_ip, source),
    ensures
        ({
            let after = spec_rewritten(packet, parsed, old_ip, new_ip, old_port, new_port, source);
            let words = (address_field(parsed.version, source).1 / 2) as nat;
            let checksum = parsed.checksum_offset as int;
            let absent = parsed.checksum_optional && be16_at(packet, checksum) == 0;
            &&& after.len() == packet.len()
            &&& !absent ==> (be16_at(after, checksum) + word_sum(ip_octets(new_ip), words) + new_port) % 0xffff
                == (be16_at(packet, checksum) + word_sum(ip_octets(old_ip), words) + old_port) % 0xffff
            &&& absent ==> be16_at(after, checksum) == 0
            &&& parsed.version == 4 ==> (be16_at(after, 10) + word_sum(ip_octets(new_ip), words)) % 0xffff == (
            be16_at(packet, 10) + word_sum(ip_octets(old_ip), words)) % 0xffff
        }),
{
    let (offset, length) = address_field(parsed.version, source);
    let old_octets = ip_octets(old_ip);
    let new_octets = ip_octets(new_ip);
    let words = (length / 2) as nat;
    let checksum = parsed.checksum_offset as int;
    let transport = be16_at(packet, checksum);
    let keeps_checksum = !(parsed.checksum_optional && transport == 0);
    let folded = fold_checksum_words(transport, old_octets, new_octets, words);
    let updated = spec_update_checksum(folded, old_port, new_port);
    let encoded = if parsed.protocol == PROTOCOL_UDP && updated == 0 {
        0xffffu16
    } else {
        updated
    };
    let with_transport = if keeps_checksum {
        put_be16(packet, checksum, encoded)
    } else {
        packet
    };
    let header = fold_checksum_words(be16_at(packet, 10), old_octets, new_octets, words);
    let with_header = if parsed.version == 4 {
        put_be16(with_transport, 10, header)
    } else {
        with_transport
    };
    let port = port_field(parsed, source);
    let replaced = overwrite(with_header, offset, new_octets);
    let after = put_be16(replaced, port, new_port);
    assert(after == spec_rewritten(packet, parsed, old_ip, new_ip, old_port, new_port, source));
    assert(parsed.transport_offset == 20 || parsed.transport_offset == 40);
    assert(parsed.version == 4 ==> parsed.transport_offset == 20);
    if keeps_checksum {
        lemma_put_be16_reads(packet, checksum, encoded, 10);
    }
    if parsed.version == 4 {
        lemma_put_be16_reads(with_transport, 10, header, checksum);
    }
    lemma_overwrite_keeps(with_header, offset, new_octets, checksum);
    lemma_put_be16_reads(replaced, port, new_port, checksum);
    assert(be16_at(after, checksum) == be16_at(with_transport, checksum));
    if keeps_checksum {
        lemma_update_checksum_compensates(folded, old_port, new_port);
        lemma_field_update_compensates(transport, old_octets, new_octets, words);
        assert(encoded % 0xffff == updated % 0xffff);
        lemma_congruent_add(encoded as int, updated as int, new_port as int);
        lemma_congruent_add(
            (encoded + new_port) as int,
            (folded + old_port) as int,
            word_sum(new_octets, words),
        );
        lemma_congruent_add(
            (folded + word_sum(new_octets, words)) as int,
            (transport + word_sum(old_octets, words)) as int,
            old_port as int,
        );
    }
    if parsed.version == 4 {
        lemma_put_be16_reads(with_transport, 10, header, 10);
        lemma_overwrite_keeps(with_header, offset, new_octets, 10);
        lemma_put_be16_reads(replaced, port, new_port, 10);
        lemma_field_update_compensates(be16_at(packet, 10), old_octets, new_octets, words);
    }
}

/// The network-order bytes of an address: four for IPv4, sixteen for IPv6.
pub open spec fn ip_octets(ip: IpAddress) -> Seq<u8> {
    match ip {
        IpAddress::V4(value) => Seq::new(4, |i: int| (value >> ((24 - 8 * i) as u32)) as u8),
        IpAddress::V6(value) => Seq::new(16, |i: int| (value >> ((120 - 8 * i) as u128)) as u8),
    }
}

/// The network-order bytes of `ip`.
pub fn ip_bytes(ip: IpAddress) -> (bytes: Vec<u8>)
    ensures
        bytes@ == ip_octets(ip),
{
    let mut bytes: Vec<u8> = Vec::new();
    match ip {
        IpAddress::V4(value) => {
            let mut index: u32 = 0;
            while index < 4
                invariant
                    index <= 4,
                    bytes@.len() == index,
                    forall|i: int| 0 <= i < index ==> bytes@[i] == ip_octets(ip)[i],
                    ip == IpAddress::V4(value),
                decreases 4 - index,
            {
                let shift: u32 = 24 - 8 * index;
                bytes.push((value >> shift) as u8);
                index = index + 1;
            }
        },
        IpAddress::V6(value) => {
            let mut index: u128 = 0;
            while index < 16
                invariant
                    index <= 16,
                    bytes@.len() == index,
                    forall|i: int| 0 <= i < index ==> bytes@[i] == ip_octets(ip)[i],
                    ip == IpAddress::V6(value),
                decreases 16 - index,
            {
                let shift: u128 = 120 - 8 * index;
                bytes.push((value >> shift) as u8);
                index = index + 1;
            }
        },
    }
    assert(bytes@ =~= ip_octets(ip));
    bytes
}

/// The address the userspace gateway uses for the given family.
pub fn gateway_ip(ipv6: bool) -> (ip: IpAddress)
    ensures
        ip == (if ipv6 {
            IpAddress::V6(GATEWAY_IPV6)
        } else {
            IpAddress::V4(GATEWAY_IPV4)
        }),
{
    if ipv6 {
        IpAddress::V6(GATEWAY_IPV6)
    } else {
        IpAddress::V4(GATEWAY_IPV4)
    }
}

/// The checksum after every 16-bit word of `old` in the first `words` words
/// changed to the corresponding word of `new`, first word first.
pub open spec fn fold_checksum_words(checksum: u16, old: Seq<u8>, new: Seq<u8>, words: nat) -> u16
    decreases words,
{
    if words == 0 {
        checksum
    } else {
        spec_update_checksum(
            fold_checksum_words(checksum, old, new, (words - 1) as nat),
            be16_at(old, 2 * (words - 1)),
            be16_at(new, 2 * (words - 1)),
        )
    }
}

/// The offset and length of the address field that a rewrite replaces.
pub open spec fn address_field(version: u8, source: bool) -> (int, int) {
    if version == 4 {
        if source { (12, 4) } else { (16, 4) }
    } else {
        if source { (8, 16) } else { (24, 16) }
    }
}

/// The offset of the port field that a rewrite replaces.
pub open spec fn port_field(parsed: NatPacket, source: bool) -> int {
    parsed.transport_offset + if source { 0int } else { 2int }
}

/// `packet` with `bytes` written from `offset` on.
pub open spec fn overwrite(packet: Seq<u8>, offset: int, bytes: Seq<u8>) -> Seq<u8> {
    Seq::new(
        packet.len(),
        |i: int|
            if offset <= i < offset + bytes.len() {
                bytes[i - offset]
            } else {
                packet[i]
            },
    )
}

/// A rewrite succeeds when both addresses share a family that matches the
/// packet's IP version and every field it reads or writes is in the packet.
pub open spec fn spec_rewrite_applies(
    packet: Seq<u8>,
    parsed: NatPacket,
    old_ip: IpAddress,
    new_ip: IpAddress,
    source: bool,
) -> bool {
    let (offset, length) = address_field(parsed.version, source);
    &&& (old_ip is V4) == (new_ip is V4)
    &&& parsed.version == 4 || parsed.version == 6
    &&& offset + length <= packet.len()
    &&& port_field(parsed, source) + 2 <= packet.len()
    &&& parsed.checksum_offset + 2 <= packet.len()
    &&& ip_octets(old_ip).len() == length
    &&& ip_octets(new_ip).len() == length
}

/// The packet after a successful rewrite: the transport checksum (unless it
/// is an absent IPv4 UDP checksum) and, for IPv4, the header checksum are
/// updated incrementally for the address and port change, a UDP checksum
/// that comes out as zero is sent as all ones, then the address and the port
/// are replaced.
pub open spec fn spec_rewritten(
    packet: Seq<u8>,
    parsed: NatPacket,
    old_ip: IpAddress,
    new_ip: IpAddress,
    old_port: u16,
    new_port: u16,
    source: bool,
) -> Seq<u8> {
    let (offset, length) = address_field(parsed.version, source);
    let old_octets = ip_octets(old_ip);
    let new_octets = ip_octets(new_ip);
    let words = (length / 2) as nat;
    let transport = be16_at(packet, parsed.checksum_offset as int);
    let keeps_checksum = !(parsed.checksum_optional && transport == 0);
    let updated = spec_update_checksum(
        fold_checksum_words(transport, old_octets, new_octets, words),
        old_port,
        new_port,
    );
    let encoded = if parsed.protocol == PROTOCOL_UDP && updated == 0 {
        0xffffu16
    } else {
        updated
    };
    let with_transport = if keeps_checksum {
        put_be16(packet, parsed.checksum_offset as int, encoded)
    } else {
        packet
    };
    let with_header = if parsed.version == 4 {
        put_be16(
            with_transport,
            10,
            fold_checksum_words(be16_at(packet, 10), old_octets, new_octets, words),
        )
    } else {
        with_transport
    };
    put_be16(overwrite(with_header, offset, new_octets), port_field(parsed, source), new_port)
}

/// Rewrites one endpoint of a parsed TCP or UDP packet. Every check comes
/// before the first write, so a `false` result leaves the packet exactly as
/// it was and the packet can fall back to the tunnel.
pub fn rewrite_endpoint(
    packet: &mut [u8],
    parsed: &NatPacket,
    old_ip: IpAddress,
    new_ip: IpAddress,
    old_port: u16,
    new_port: u16,
    source: bool,
) -> (rewritten: bool)
    requires
        parsed.transport_offset <= usize::MAX - 4,
        parsed.checksum_offset <= usize::MAX - 2,
    ensures
        rewritten == spec_rewrite_applies(old(packet)@, *parsed, old_ip, new_ip, source),
        rewritten ==> final(packet)@ == spec_rewritten(
            old(packet)@,
            *parsed,
            old_ip,
            new_ip,
            old_port,
            new_port,
            source,
        ),
        !rewritten ==> final(packet)@ == old(packet)@,
{
    if old_ip.is_ipv4() != new_ip.is_ipv4() {
        return false;
    }
    let (address_offset, address_length): (usize, usize) = if parsed.version == 4 {
        if source { (12, 4) } else { (16, 4) }
    } else if parsed.version == 6 {
        if source { (8, 16) } else { (24, 16) }
    } else {
        return false;
    };
    let port_offset = parsed.transport_offset + if source { 0 } else { 2 };
    if address_offset + address_length > packet.len() || port_offset + 2 > packet.len()
        || parsed.checksum_offset + 2 > packet.len() {
        return false;
    }
    let old_bytes = ip_bytes(old_ip);
    let new_bytes = ip_bytes(new_ip);
    if old_bytes.len() != address_length || new_bytes.len() != address_length {
        return false;
    }
    let ghost initial = packet@;
    let transport_checksum = (packet[parsed.checksum_offset] as u16) * 256 + (
    packet[parsed.checksum_offset + 1] as u16);
    let keeps_checksum = !(parsed.checksum_optional && transport_checksum == 0);
    let header_checksum: u16 = if parsed.version == 4 {
        (packet[10] as u16) * 256 + (packet[11] as u16)
    } else {
        0
    };
    let mut updated_transport = transport_checksum;
    let mut updated_header = header_checksum;
    let words = address_length / 2;
    let mut word: usize = 0;
    while word < words
        invariant
            word <= words,
            words * 2 == address_length,
            old_bytes@.len() == address_length,
            new_bytes@.len() == address_length,
            updated_transport == fold_checksum_words(
                transport_checksum,
                old_bytes@,
                new_bytes@,
                word as nat,
            ),
            updated_header == fold_checksum_words(
                header_checksum,
                old_bytes@,
                new_bytes@,
                word as nat,
            ),
        decreases words - word,
    {
        let old_word = (old_bytes[2 * word] as u16) * 256 + (old_bytes[2 * word + 1] as u16);
        let new_word = (new_bytes[2 * word] as u16) * 256 + (new_bytes[2 * word + 1] as u16);
        updated_transport = update_checksum(updated_transport, old_word, new_word);
        updated_header = update_checksum(updated_header, old_word, new_word);
        word = word + 1;
    }
    if keeps_checksum {
        let mut encoded = update_checksum(updated_transport, old_port, new_port);
        if parsed.protocol == PROTOCOL_UDP && encoded == 0 {
            encoded = 0xffff;
        }
        write_u16(packet, parsed.checksum_offset, encoded);
    }
    if parsed.version == 4 {
        write_u16(packet, 10, updated_header);
    }
    let ghost with_header = packet@;
    let mut index: usize = 0;
    while index < address_length
        invariant
            index <= address_length,
            address_offset + address_length <= packet.len(),
            new_bytes@.len() == address_length,
            packet@ == overwrite(with_header, address_offset as int, new_bytes@.subrange(0, index as int)),
        decreases address_length - index,
    {
        packet[address_offset + index] = new_bytes[index];
        index = index + 1;
        assert(packet@ =~= overwrite(with_header, address_offset as int, new_bytes@.subrange(0, index as int)));
    }
    assert(new_bytes@.subrange(0, address_length as int) =~= new_bytes@);
    write_u16(packet, port_offset, new_port);
    proof {
        assert(initial == old(packet)@);
    }
    true
}

/// Points the destination of a client packet at the gateway socket.
pub fn rewrite_destination(packet: &mut [u8], parsed: &NatPacket, gateway: SocketAddress) -> (rewritten: bool)
    requires
        parsed.transport_offset <= usize::MAX - 4,
        parsed.checksum_offset <= usize::MAX - 2,
    ensures
        rewritten == spec_rewrite_applies(old(packet)@, *parsed, parsed.destination, gateway.ip, false),
        rewritten ==> final(packet)@ == spec_rewritten(
            old(packet)@,
            *parsed,
            parsed.destination,
            gateway.ip,
            parsed.destination_port,
            gateway.port,
            false,
        ),
        !rewritten ==> final(packet)@ == old(packet)@,
{
    rewrite_endpoint(
        packet,
        parsed,
        parsed.destination,
        gateway.ip,
        parsed.destination_port,
        gateway.port,
        false,
    )
}

/// Restores the remote endpoint as the source of a packet coming back from
/// the gateway.
pub fn rewrite_source(packet: &mut [u8], parsed: &NatPacket, remote: SocketAddress) -> (rewritten: bool)
    requires
        parsed.transport_offset <= usize::MAX - 4,
        parsed.checksum_offset <= usize::MAX - 2,
    ensures
        rewritten == spec_rewrite_applies(old(packet)@, *parsed, parsed.source, remote.ip, true),
        rewritten ==> final(packet)@ == spec_rewritten(
            old(packet)@,
            *parsed,
            parsed.source,
            remote.ip,
            parsed.source_port,
            remote.port,
            true,
        ),
        !rewritten ==> final(packet)@ == old(packet)@,
{
    rewrite_endpoint(packet, parsed, parsed.source, remote.ip, parsed.source_port, remote.port, true)
}

} // verus!
