//! Plain DNS over UDP for the proxy resolver: query encoding, response
//! decoding, and the final shaping of resolved address lists.

use vstd::prelude::*;
use vstd::string::StringSliceAdditionalSpecFns;

use crate::error::TransportError;
use crate::net::{IpAddress, be_u128, be_u32, read_ipv4, read_ipv6};

verus! {

pub const DNS_PORT: u16 = 53;
pub const MAX_DNS_PACKET: usize = 4096;
pub const MAX_RESULTS: usize = 32;
pub const TYPE_A: u16 = 1;
pub const TYPE_AAAA: u16 = 28;
pub const CLASS_IN: u16 = 1;

/// A byte allowed inside a DNS label: an ASCII letter or digit, `-` or `_`.
pub open spec fn spec_label_byte(byte: u8) -> bool {
    (48 <= byte <= 57) || (65 <= byte <= 90) || (97 <= byte <= 122) || byte == 45 || byte == 95
}

/// The index of the first `.` at or after `start`, or the length.
pub open spec fn label_end(name: Seq<u8>, start: int) -> int
    decreases name.len() - start,
{
    if start >= name.len() {
        name.len() as int
    } else if name[start] == 46 {
        start
    } else {
        label_end(name, start + 1)
    }
}

/// `start` begins a label: it is the first byte or follows a dot.
pub open spec fn label_start(name: Seq<u8>, start: int) -> bool {
    0 <= start <= name.len() && (start == 0 || name[start - 1] == 46)
}

/// A dotted host name of 1 to 253 bytes whose labels are 1 to 63 label bytes
/// (so no label is empty and there is no trailing dot).
pub open spec fn spec_valid_dns_name(name: Seq<u8>) -> bool {
    &&& 1 <= name.len() <= 253
    &&& forall|index: int|
        0 <= index < name.len() ==> (#[trigger] name[index] == 46 || spec_label_byte(name[index]))
    &&& forall|start: int|
        #[trigger] label_start(name, start) ==> 1 <= label_end(name, start) - start <= 63
}

proof fn lemma_label_end_bounds(name: Seq<u8>, start: int)
    requires
        0 <= start <= name.len(),
    ensures
        start <= label_end(name, start) <= name.len(),
    decreases name.len() - start,
{
    if start < name.len() && name[start] != 46 {
        lemma_label_end_bounds(name, start + 1);
    }
}

/// Accepts exactly the names described by `spec_valid_dns_name`.
pub fn validate_name(name: &str) -> (result: Result<(), TransportError>)
    ensures
        result is Ok <==> spec_valid_dns_name(name.spec_bytes()),
        result is Err ==> (result matches Err(TransportError::Dns(message)) && message@
            == "invalid DNS name"@),
{
    broadcast use vstd::string::to_string_from_display_ensures_for_str;

    let bytes = name.as_bytes();
    let ghost b = bytes@;
    let length = bytes.len();
    if length == 0 || length > 253 {
        return Err(TransportError::Dns("invalid DNS name".to_string()));
    }
    let mut start: usize = 0;
    let mut index: usize = 0;
    while index < length
        invariant
            b == bytes@,
            b == name.spec_bytes(),
            length == b.len(),
            1 <= length <= 253,
            start <= index <= length,
            label_start(b, start as int),
            index - start <= 63,
            forall|k: int| start <= k < index ==> #[trigger] b[k] != 46,
            forall|k: int| 0 <= k < index ==> (#[trigger] b[k] == 46 || spec_label_byte(b[k])),
            label_end(b, start as int) == label_end(b, index as int),
            forall|s: int|
                #[trigger] label_start(b, s) && s < start ==> 1 <= label_end(b, s) - s <= 63,
        decreases length - index,
    {
        let byte = bytes[index];
        if byte == 46 {
            if index == start {
                assert(label_end(b, index as int) == index);
                assert(label_start(b, start as int));
                assert(!spec_valid_dns_name(b));
                return Err(TransportError::Dns("invalid DNS name".to_string()));
            }
            assert(label_end(b, index as int) == index);
            assert forall|s: int| #[trigger] label_start(b, s) && s < index + 1 implies 1
                <= label_end(b, s) - s <= 63 by {
                if s > start {
                    assert(b[s - 1] != 46);
                }
            }
            start = index + 1;
            index = index + 1;
        } else {
            let allowed = (48 <= byte && byte <= 57) || (65 <= byte && byte <= 90) || (97 <= byte
                && byte <= 122) || byte == 45 || byte == 95;
            if !allowed {
                assert(!(b[index as int] == 46 || spec_label_byte(b[index as int])));
                assert(!spec_valid_dns_name(b));
                return Err(TransportError::Dns("invalid DNS name".to_string()));
            }
            if index - start >= 63 {
                proof {
                    lemma_label_end_bounds(b, index as int + 1);
                    assert(label_end(b, index as int) == label_end(b, index as int + 1));
                    assert(label_start(b, start as int));
                    assert(!spec_valid_dns_name(b));
                }
                return Err(TransportError::Dns("invalid DNS name".to_string()));
            }
            index = index + 1;
        }
    }
    if start == length {
        assert(label_start(b, start as int));
        return Err(TransportError::Dns("invalid DNS name".to_string()));
    }
    assert forall|s: int| #[trigger] label_start(b, s) implies 1 <= label_end(b, s) - s <= 63 by {
        if s > start {
            assert(b[s - 1] != 46);
        }
    }
    Ok(())
}

/// The big-endian bytes of a 16-bit field.
pub open spec fn be16_bytes(value: u16) -> Seq<u8> {
    seq![(value >> 8u16) as u8, value as u8]
}

/// Byte `index` of the label-length encoding of a dotted name: the length of
/// the label that starts there, or the name byte before it.
pub open spec fn qname_byte(name: Seq<u8>, index: int) -> u8 {
    if label_start(name, index) {
        (label_end(name, index) - index) as u8
    } else {
        name[index - 1]
    }
}

/// The label-length form of a dotted name without its terminating zero:
/// every label preceded by its length.
pub open spec fn spec_qname_labels(name: Seq<u8>) -> Seq<u8> {
    Seq::new((name.len() + 1) as nat, |index: int| qname_byte(name, index))
}

/// A standard recursive query for one question of `query_type` in class IN.
pub open spec fn spec_query_bytes(transaction_id: u16, name: Seq<u8>, query_type: u16) -> Seq<u8> {
    be16_bytes(transaction_id) + be16_bytes(0x0100) + be16_bytes(1) + be16_bytes(0) + be16_bytes(0)
        + be16_bytes(0) + spec_qname_labels(name) + seq![0u8] + be16_bytes(query_type) + be16_bytes(
        CLASS_IN,
    )
}

fn push_be16(packet: &mut Vec<u8>, value: u16)
    ensures
        final(packet)@ == old(packet)@ + be16_bytes(value),
{
    packet.push((value >> 8u16) as u8);
    packet.push(value as u8);
    assert(packet@ =~= old(packet)@ + be16_bytes(value));
}

/// Encodes a recursive query for `name`, which must be a valid DNS name.
pub fn encode_query(transaction_id: u16, name: &str, query_type: u16) -> (result: Result<
    Vec<u8>,
    TransportError,
>)
    ensures
        spec_valid_dns_name(name.spec_bytes()) ==> (result matches Ok(packet) && packet@
            == spec_query_bytes(transaction_id, name.spec_bytes(), query_type)),
        !spec_valid_dns_name(name.spec_bytes()) ==> (result matches Err(TransportError::Dns(message))
            && message@ == "invalid DNS name"@),
{
    validate_name(name)?;
    let bytes = name.as_bytes();
    let ghost b = bytes@;
    let length = bytes.len();
    let mut packet: Vec<u8> = Vec::with_capacity(length + 18);
    push_be16(&mut packet, transaction_id);
    push_be16(&mut packet, 0x0100);
    push_be16(&mut packet, 1);
    push_be16(&mut packet, 0);
    push_be16(&mut packet, 0);
    push_be16(&mut packet, 0);
    let ghost header = packet@;
    let ghost labels = spec_qname_labels(b);
    let mut start: usize = 0;
    while start <= length
        invariant
            b == bytes@,
            b == name.spec_bytes(),
            spec_valid_dns_name(b),
            length == b.len(),
            labels == spec_qname_labels(b),
            start <= length + 1,
            start <= length ==> label_start(b, start as int) && packet@ == header + labels.take(
                start as int,
            ),
            start == length + 1 ==> packet@ == header + labels,
        decreases length + 1 - start,
    {
        let mut end = start;
        while end < length && bytes[end] != 46
            invariant
                b == bytes@,
                length == b.len(),
                start <= end <= length,
                forall|k: int| start <= k < end ==> #[trigger] b[k] != 46,
                label_end(b, start as int) == label_end(b, end as int),
            decreases length - end,
        {
            end = end + 1;
        }
        assert(label_end(b, end as int) == end);
        assert(label_start(b, start as int));
        assert(labels[start as int] == (end - start) as u8);
        packet.push((end - start) as u8);
        let label = vstd::slice::slice_subrange(bytes, start, end);
        packet.extend_from_slice(label);
        assert forall|j: int| start < j <= end implies #[trigger] labels[j] == b[j - 1] by {
            assert(b[j - 1] != 46);
            assert(!label_start(b, j));
        }
        assert(packet@ =~= header + labels.take(end as int + 1));
        if end == length {
            assert(labels.take(end as int + 1) =~= labels);
            start = length + 1;
        } else {
            start = end + 1;
        }
    }
    packet.push(0);
    push_be16(&mut packet, query_type);
    push_be16(&mut packet, CLASS_IN);
    assert(packet@ =~= spec_query_bytes(transaction_id, b, query_type));
    Ok(packet)
}

/// The big-endian 16-bit field at `offset`.
pub open spec fn u16_at(packet: Seq<u8>, offset: int) -> u16 {
    (packet[offset] as int * 256 + packet[offset + 1] as int) as u16
}

/// Reads a big-endian 16-bit field; `Dns` when it is not within the packet.
pub fn read_u16(packet: &[u8], offset: usize) -> (result: Result<u16, TransportError>)
    requires
        offset + 2 <= usize::MAX,
    ensures
        offset + 2 <= packet@.len() ==> result == Ok::<u16, TransportError>(
            u16_at(packet@, offset as int),
        ),
        offset + 2 > packet@.len() ==> (result matches Err(TransportError::Dns(_))),
{
    if offset + 2 > packet.len() {
        return Err(TransportError::Dns("truncated DNS field".to_string()));
    }
    Ok((packet[offset] as u16) * 256 + (packet[offset + 1] as u16))
}

/// Where the name at `offset` ends: a compression pointer ends the name
/// after its two bytes; at most 127 labels are followed. `None` when the
/// name is truncated or uses a reserved label encoding.
pub open spec fn spec_skip_name(packet: Seq<u8>, offset: int, labels: int) -> Option<int>
    decreases packet.len() - offset,
{
    if offset < 0 || offset >= packet.len() {
        None
    } else {
        let length = packet[offset];
        if length >= 192 {
            if offset + 2 > packet.len() {
                None
            } else {
                Some(offset + 2)
            }
        } else if length >= 64 {
            None
        } else if length == 0 {
            Some(offset + 1)
        } else if offset + 1 + length > packet.len() {
            None
        } else if labels + 1 > 127 {
            None
        } else {
            spec_skip_name(packet, offset + 1 + length, labels + 1)
        }
    }
}

proof fn lemma_skip_name_bound(packet: Seq<u8>, offset: int, labels: int)
    ensures
        spec_skip_name(packet, offset, labels) matches Some(end) ==> offset < end <= packet.len(),
    decreases packet.len() - offset,
{
    if 0 <= offset < packet.len() {
        let length = packet[offset];
        if length > 0 && length < 64 && offset + 1 + length <= packet.len() {
            lemma_skip_name_bound(packet, offset + 1 + length, labels + 1);
        }
    }
}

/// Skips the encoded name at `offset`. An offset at or past the end of the
/// packet has no name there and is an error.
pub fn skip_name(packet: &[u8], start: usize) -> (result: Result<usize, TransportError>)
    ensures
        start >= packet@.len() ==> result is Err,
        match spec_skip_name(packet@, start as int, 0) {
            None => result matches Err(TransportError::Dns(_)),
            Some(end) => result == Ok::<usize, TransportError>(end as usize),
        },
        result matches Ok(end) ==> start < end <= packet@.len() && spec_skip_name(
            packet@,
            start as int,
            0,
        ) == Some(end as int),
        result is Err <==> spec_skip_name(packet@, start as int, 0) is None,
{
    proof {
        lemma_skip_name_bound(packet@, start as int, 0);
    }
    if start >= packet.len() {
        return Err(TransportError::Dns("truncated DNS name".to_string()));
    }
    let mut offset = start;
    let mut labels: usize = 0;
    loop
        invariant
            start <= offset <= packet@.len(),
            labels <= 127,
            spec_skip_name(packet@, start as int, 0) == spec_skip_name(
                packet@,
                offset as int,
                labels as int,
            ),
        decreases packet@.len() - offset,
    {
        if offset >= packet.len() {
            return Err(TransportError::Dns("truncated DNS name".to_string()));
        }
        let length = packet[offset];
        let tag = length & 0xc0;
        assert(tag == 0xc0 <==> length >= 192) by (bit_vector)
            requires
                tag == length & 0xc0,
        ;
        assert(tag != 0 <==> length >= 64) by (bit_vector)
            requires
                tag == length & 0xc0,
        ;
        if tag == 0xc0 {
            if packet.len() - offset < 2 {
                return Err(TransportError::Dns("truncated DNS compression pointer".to_string()));
            }
            return Ok(offset + 2);
        }
        if tag != 0 {
            return Err(TransportError::Dns("invalid DNS label encoding".to_string()));
        }
        offset = offset + 1;
        if length == 0 {
            return Ok(offset);
        }
        if length as usize > packet.len() - offset {
            return Err(TransportError::Dns("truncated DNS label".to_string()));
        }
        offset = offset + length as usize;
        labels = labels + 1;
        if labels > 127 {
            return Err(TransportError::Dns("too many DNS labels".to_string()));
        }
    }
}

/// Where `count` questions starting at `offset` end.
pub open spec fn spec_skip_questions(packet: Seq<u8>, offset: int, count: nat) -> Option<int>
    decreases count,
{
    if count == 0 {
        Some(offset)
    } else {
        match spec_skip_name(packet, offset, 0) {
            None => None,
            Some(end) => if end + 4 > packet.len() {
                None
            } else {
                spec_skip_questions(packet, end + 4, (count - 1) as nat)
            },
        }
    }
}

/// The address an answer record contributes: an A record of four bytes or an
/// AAAA record of sixteen bytes of the expected type in class IN.
pub open spec fn spec_record_address(
    packet: Seq<u8>,
    data_start: int,
    record_type: u16,
    class: u16,
    data_length: int,
    expected_type: u16,
) -> Seq<IpAddress> {
    if class == CLASS_IN && record_type == expected_type {
        if record_type == TYPE_A && data_length == 4 {
            seq![IpAddress::V4(be_u32(packet.subrange(data_start, data_start + 4)))]
        } else if record_type == TYPE_AAAA && data_length == 16 {
            seq![IpAddress::V6(be_u128(packet.subrange(data_start, data_start + 16)))]
        } else {
            Seq::empty()
        }
    } else {
        Seq::empty()
    }
}

/// The addresses of `count` answer records starting at `offset`, in order.
pub open spec fn spec_answers(packet: Seq<u8>, offset: int, count: nat, expected_type: u16) -> Option<
    Seq<IpAddress>,
>
    decreases count,
{
    if count == 0 {
        Some(Seq::empty())
    } else {
        match spec_skip_name(packet, offset, 0) {
            None => None,
            Some(record) => if record + 10 > packet.len() {
                None
            } else {
                let data_length = u16_at(packet, record + 8) as int;
                let end = record + 10 + data_length;
                if end > packet.len() {
                    None
                } else {
                    match spec_answers(packet, end, (count - 1) as nat, expected_type) {
                        None => None,
                        Some(rest) => Some(
                            spec_record_address(
                                packet,
                                record + 10,
                                u16_at(packet, record),
                                u16_at(packet, record + 2),
                                data_length,
                                expected_type,
                            ) + rest,
                        ),
                    }
                }
            },
        }
    }
}

/// The addresses of `expected_type` a response to query `transaction_id`
/// carries, or `None` when the response is malformed, mismatched, not a
/// response, truncated, or reports an error code.
pub open spec fn spec_decode_response(packet: Seq<u8>, transaction_id: u16, expected_type: u16) -> Option<
    Seq<IpAddress>,
> {
    if packet.len() < 12 || packet.len() > MAX_DNS_PACKET {
        None
    } else if u16_at(packet, 0) != transaction_id {
        None
    } else {
        let flags = u16_at(packet, 2);
        if flags < 0x8000 || (flags / 0x200) % 2 == 1 || flags % 16 != 0 {
            None
        } else {
            match spec_skip_questions(packet, 12, u16_at(packet, 4) as nat) {
                None => None,
                Some(answers) => spec_answers(packet, answers, u16_at(packet, 6) as nat, expected_type),
            }
        }
    }
}

/// An answer record as a resolver writes it: its owner name is a
/// compression pointer to the question's name, then its type, class, TTL
/// and data.
pub struct AnswerRecord {
    pub record_type: u16,
    pub class: u16,
    pub ttl: u32,
    pub data: Seq<u8>,
}

/// The wire form of one answer record.
pub open spec fn record_bytes(record: AnswerRecord) -> Seq<u8> {
    seq![0xc0u8, 0x0cu8] + be16_bytes(record.record_type) + be16_bytes(record.class) + be16_bytes(
        (record.ttl >> 16u32) as u16,
    ) + be16_bytes(record.ttl as u16) + be16_bytes(record.data.len() as u16) + record.data
}

/// The wire form of an answer section: its records one after another.
pub open spec fn answer_section(records: Seq<AnswerRecord>) -> Seq<u8>
    decreases records.len(),
{
    if records.len() == 0 {
        Seq::empty()
    } else {
        record_bytes(records[0]) + answer_section(records.drop_first())
    }
}

/// The address one record gives for a query of `expected_type`: an IN
/// record of that type whose data is a 4-byte IPv4 (type A) or 16-byte IPv6
/// (type AAAA) address; every other record gives none.
pub open spec fn address_of_record(record: AnswerRecord, expected_type: u16) -> Seq<IpAddress> {
    if record.class != CLASS_IN || record.record_type != expected_type {
        Seq::empty()
    } else if expected_type == TYPE_A && record.data.len() == 4 {
        seq![IpAddress::V4(be_u32(record.data))]
    } else if expected_type == TYPE_AAAA && record.data.len() == 16 {
        seq![IpAddress::V6(be_u128(record.data))]
    } else {
        Seq::empty()
    }
}

/// The addresses every record of a list gives, in the list's order.
pub open spec fn addresses_of_records(records: Seq<AnswerRecord>, expected_type: u16) -> Seq<IpAddress>
    decreases records.len(),
{
    if records.len() == 0 {
        Seq::empty()
    } else {
        address_of_record(records[0], expected_type) + addresses_of_records(records.drop_first(), expected_type)
    }
}

/// A successful response (QR, RD and RA set, no error) to a query for
/// `name` and `query_type`, carrying `records` as its whole answer section.
pub open spec fn response_bytes(transaction_id: u16, name: Seq<u8>, query_type: u16, records: Seq<AnswerRecord>) -> Seq<u8> {
    be16_bytes(transaction_id) + be16_bytes(0x8180) + be16_bytes(1) + be16_bytes(records.len() as u16)
        + be16_bytes(0) + be16_bytes(0) + spec_qname_labels(name) + seq![0u8] + be16_bytes(query_type)
        + be16_bytes(CLASS_IN) + answer_section(records)
}

proof fn lemma_be16_reads_back(packet: Seq<u8>, offset: int, value: u16)
    requires
        0 <= offset,
        offset + 2 <= packet.len(),
        packet[offset] == be16_bytes(value)[0],
        packet[offset + 1] == be16_bytes(value)[1],
    ensures
        u16_at(packet, offset) == value,
{
    let high = (value >> 8u16) as u8;
    let low = value as u8;
    assert(high as int * 256 + low as int == value as int) by (bit_vector)
        requires
            high == (value >> 8u16) as u8,
            low == value as u8,
    ;
}

/// The answer section's length.
proof fn lemma_answer_section_len(records: Seq<AnswerRecord>)
    ensures
        answer_section(records).len() >= 0,
        records.len() > 0 ==> answer_section(records).len() == record_bytes(records[0]).len() + answer_section(
            records.drop_first(),
        ).len(),
    decreases records.len(),
{
}

/// Walking the answers laid out by `answer_section` gives every record's
/// address, in order.
proof fn lemma_answers_read_every_record(
    packet: Seq<u8>,
    offset: int,
    records: Seq<AnswerRecord>,
    expected_type: u16,
)
    requires
        0 <= offset,
        offset + answer_section(records).len() <= packet.len(),
        packet.subrange(offset, offset + answer_section(records).len()) == answer_section(records),
        forall|i: int| 0 <= i < records.len() ==> (#[trigger] records[i]).data.len() <= 65535,
    ensures
        spec_answers(packet, offset, records.len(), expected_type) == Some(
            addresses_of_records(records, expected_type),
        ),
    decreases records.len(),
{
    if records.len() > 0 {
        let record = records[0];
        let bytes = record_bytes(record);
        let rest = records.drop_first();
        let section = answer_section(records);
        assert(section == bytes + answer_section(rest));
        let data_length = record.data.len();
        assert(bytes.len() == 12 + data_length);
        assert forall|k: int| 0 <= k < section.len() implies packet[offset + k] == #[trigger] section[k] by {
            assert(packet.subrange(offset, offset + section.len())[k] == packet[offset + k]);
        }
        assert(packet[offset] == section[0]);
        assert(section[0] == 0xc0u8);
        let start = offset + 2;
        assert(spec_skip_name(packet, offset, 0) == Some(start));
        assert(packet[start] == section[2] && packet[start + 1] == section[3]);
        lemma_be16_reads_back(packet, start, record.record_type);
        assert(packet[start + 2] == section[4] && packet[start + 3] == section[5]);
        lemma_be16_reads_back(packet, start + 2, record.class);
        assert(packet[start + 8] == section[10] && packet[start + 9] == section[11]);
        lemma_be16_reads_back(packet, start + 8, data_length as u16);
        assert(records[0].data.len() <= 65535);
        let end = start + 10 + data_length;
        assert(packet.subrange(start + 10, end) =~= record.data) by {
            assert forall|k: int| 0 <= k < data_length implies packet.subrange(start + 10, end)[k]
                == record.data[k] by {
                assert(packet[start + 10 + k] == section[12 + k]);
                assert(section[12 + k] == bytes[12 + k]);
            }
        }
        assert forall|i: int| 0 <= i < rest.len() implies (#[trigger] rest[i]).data.len() <= 65535 by {
            assert(rest[i] == records[i + 1]);
        }
        let tail = answer_section(rest);
        assert(packet.subrange(end, end + tail.len()) =~= tail) by {
            assert forall|k: int| 0 <= k < tail.len() implies packet.subrange(end, end + tail.len())[k]
                == tail[k] by {
                assert(packet[end + k] == section[bytes.len() + k]);
            }
        }
        lemma_answers_read_every_record(packet, end, rest, expected_type);
        assert(spec_record_address(packet, start + 10, record.record_type, record.class, data_length as int, expected_type)
            == address_of_record(record, expected_type));
    }
}

/// A valid name's label-length form, followed by its terminating zero,
/// is skipped as one name.
proof fn lemma_skip_question_name(packet: Seq<u8>, base: int, name: Seq<u8>, start: int, labels: int)
    requires
        spec_valid_dns_name(name),
        0 <= base,
        base + name.len() + 2 <= packet.len(),
        forall|k: int| 0 <= k <= name.len() ==> packet[base + k] == #[trigger] qname_byte(name, k),
        packet[base + name.len() + 1] == 0,
        0 <= start < name.len(),
        label_start(name, start),
        0 <= labels,
        labels * 2 <= start,
    ensures
        spec_skip_name(packet, base + start, labels) == Some(base + name.len() + 2),
    decreases name.len() - start,
{
    let end = label_end(name, start);
    assert(label_start(name, start));
    lemma_label_end_bounds(name, start);
    assert(1 <= end - start <= 63);
    assert(packet[base + start] == qname_byte(name, start));
    assert(packet[base + start] as int == end - start);
    assert(labels + 1 <= 127);
    let next = base + start + 1 + (end - start);
    assert(spec_skip_name(packet, base + start, labels) == spec_skip_name(packet, next, labels + 1));
    if end == name.len() {
        assert(next == base + name.len() + 1);
        assert(packet[next] == 0);
    } else {
        assert(name[end] == 46) by {
            lemma_label_end_is_dot(name, start);
        }
        assert(label_start(name, end + 1));
        if end + 1 == name.len() {
            assert(label_start(name, name.len() as int));
            assert(label_end(name, name.len() as int) == name.len());
        }
        lemma_skip_question_name(packet, base, name, end + 1, labels + 1);
    }
}

proof fn lemma_label_end_is_dot(name: Seq<u8>, start: int)
    requires
        0 <= start <= name.len(),
        label_end(name, start) < name.len(),
    ensures
        name[label_end(name, start)] == 46,
    decreases name.len() - start,
{
    if start < name.len() && name[start] != 46 {
        lemma_label_end_is_dot(name, start + 1);
    }
}

/// Law: decoding reads every answer. A successful response to a query for
/// a valid name, whose answer section holds `records` (and whose answer
/// count says so), decodes to the address of every record of the expected
/// type in class IN, in the records' order, whatever records come before,
/// between or after them.
pub proof fn lemma_decode_reads_every_answer(
    transaction_id: u16,
    name: Seq<u8>,
    query_type: u16,
    records: Seq<AnswerRecord>,
    expected_type: u16,
)
    requires
        spec_valid_dns_name(name),
        records.len() <= 65535,
        forall|i: int| 0 <= i < records.len() ==> (#[trigger] records[i]).data.len() <= 65535,
        response_bytes(transaction_id, name, query_type, records).len() <= MAX_DNS_PACKET,
    ensures
        spec_decode_response(response_bytes(transaction_id, name, query_type, records), transaction_id, expected_type)
            == Some(addresses_of_records(records, expected_type)),
{
    let packet = response_bytes(transaction_id, name, query_type, records);
    let labels = spec_qname_labels(name);
    let section = answer_section(records);
    let question_end: int = 12 + name.len() as int + 2;
    let answers: int = question_end + 4;
    assert(packet.len() == answers + section.len());
    lemma_be16_reads_back(packet, 0, transaction_id);
    lemma_be16_reads_back(packet, 2, 0x8180);
    lemma_be16_reads_back(packet, 4, 1);
    lemma_be16_reads_back(packet, 6, records.len() as u16);
    assert(u16_at(packet, 2) == 0x8180);
    assert forall|k: int| 0 <= k <= name.len() implies packet[12 + k] == #[trigger] qname_byte(name, k) by {
        assert(packet[12 + k] == labels[k]);
    }
    assert(packet[12 + name.len() as int + 1] == 0);
    assert(label_start(name, 0));
    lemma_skip_question_name(packet, 12, name, 0, 0);
    assert(spec_skip_questions(packet, answers, 0) == Some(answers));
    assert(spec_skip_questions(packet, 12, 1) == Some(answers));
    assert(packet.subrange(answers, answers + section.len()) =~= section);
    lemma_answers_read_every_record(packet, answers, records, expected_type);
}

/// Law: what decoding refuses. A packet shorter than the 12-byte header or
/// longer than `MAX_DNS_PACKET`, one whose ID is not the query's, one that
/// is not a response (QR, the top bit of byte 2, clear), one that is
/// truncated (TC, bit 1 of byte 2) and one that reports an error (a
/// nonzero RCODE, the low nibble of byte 3) all decode to nothing.
pub proof fn lemma_decode_refuses(packet: Seq<u8>, transaction_id: u16, expected_type: u16)
    ensures
        packet.len() < 12 || packet.len() > MAX_DNS_PACKET ==> spec_decode_response(
            packet,
            transaction_id,
            expected_type,
        ) is None,
        12 <= packet.len() && packet[0] as int * 256 + packet[1] as int != transaction_id ==> spec_decode_response(
            packet,
            transaction_id,
            expected_type,
        ) is None,
        12 <= packet.len() && packet[2] < 0x80 ==> spec_decode_response(packet, transaction_id, expected_type)
            is None,
        12 <= packet.len() && (packet[2] / 2) % 2 == 1 ==> spec_decode_response(
            packet,
            transaction_id,
            expected_type,
        ) is None,
        12 <= packet.len() && packet[3] % 16 != 0 ==> spec_decode_response(packet, transaction_id, expected_type)
            is None,
{
    if 12 <= packet.len() {
        let flags = u16_at(packet, 2);
        assert(flags as int == packet[2] as int * 256 + packet[3] as int);
        assert(u16_at(packet, 0) as int == packet[0] as int * 256 + packet[1] as int);
        assert((flags / 0x200) % 2 == (packet[2] / 2) % 2) by (nonlinear_arith)
            requires
                flags as int == packet[2] as int * 256 + packet[3] as int,
                packet[3] < 256,
        ;
        assert(flags % 16 == packet[3] % 16) by (nonlinear_arith)
            requires
                flags as int == packet[2] as int * 256 + packet[3] as int,
        ;
    }
}

/// Law: only the QR, TC and RCODE bits of the flags matter. Two packets
/// that differ only in their flags, both of which mark a complete response
/// without error, decode alike.
pub proof fn lemma_other_flag_bits_do_not_matter(
    packet: Seq<u8>,
    other: Seq<u8>,
    transaction_id: u16,
    expected_type: u16,
)
    requires
        packet.len() == other.len(),
        packet.len() >= 12,
        forall|k: int| 0 <= k < packet.len() && k != 2 && k != 3 ==> packet[k] == other[k],
        packet[2] >= 0x80 && (packet[2] / 2) % 2 == 0 && packet[3] % 16 == 0,
        other[2] >= 0x80 && (other[2] / 2) % 2 == 0 && other[3] % 16 == 0,
    ensures
        spec_decode_response(packet, transaction_id, expected_type) == spec_decode_response(
            other,
            transaction_id,
            expected_type,
        ),
{
    lemma_decode_refuses(packet, transaction_id, expected_type);
    lemma_decode_refuses(other, transaction_id, expected_type);
    let flags = u16_at(packet, 2);
    let other_flags = u16_at(other, 2);
    assert(flags as int == packet[2] as int * 256 + packet[3] as int);
    assert(other_flags as int == other[2] as int * 256 + other[3] as int);
    assert((flags / 0x200) % 2 == (packet[2] / 2) % 2 && flags % 16 == packet[3] % 16) by (nonlinear_arith)
        requires
            flags as int == packet[2] as int * 256 + packet[3] as int,
            packet[3] < 256,
    ;
    assert((other_flags / 0x200) % 2 == (other[2] / 2) % 2 && other_flags % 16 == other[3] % 16) by (nonlinear_arith)
        requires
            other_flags as int == other[2] as int * 256 + other[3] as int,
            other[3] < 256,
    ;
    assert(u16_at(packet, 0) == u16_at(other, 0));
    assert(u16_at(packet, 4) == u16_at(other, 4));
    assert(u16_at(packet, 6) == u16_at(other, 6));
    lemma_questions_agree(packet, other, 12, u16_at(packet, 4) as nat);
    match spec_skip_questions(packet, 12, u16_at(packet, 4) as nat) {
        None => {},
        Some(answers) => {
            lemma_answers_agree(packet, other, answers, u16_at(packet, 6) as nat, expected_type);
        },
    }
}

proof fn lemma_names_agree(packet: Seq<u8>, other: Seq<u8>, offset: int, labels: int)
    requires
        packet.len() == other.len(),
        forall|k: int| 0 <= k < packet.len() && k != 2 && k != 3 ==> packet[k] == other[k],
        offset >= 12,
    ensures
        spec_skip_name(packet, offset, labels) == spec_skip_name(other, offset, labels),
        spec_skip_name(packet, offset, labels) matches Some(end) ==> end > offset,
    decreases packet.len() - offset,
{
    if 0 <= offset < packet.len() {
        assert(packet[offset] == other[offset]);
        let length = packet[offset];
        if length > 0 && length < 64 && offset + 1 + length <= packet.len() && labels + 1 <= 127 {
            lemma_names_agree(packet, other, offset + 1 + length, labels + 1);
        }
    }
}

proof fn lemma_questions_agree(packet: Seq<u8>, other: Seq<u8>, offset: int, count: nat)
    requires
        packet.len() == other.len(),
        forall|k: int| 0 <= k < packet.len() && k != 2 && k != 3 ==> packet[k] == other[k],
        offset >= 12,
    ensures
        spec_skip_questions(packet, offset, count) == spec_skip_questions(other, offset, count),
        spec_skip_questions(packet, offset, count) matches Some(end) ==> end >= offset,
    decreases count,
{
    if count > 0 {
        lemma_names_agree(packet, other, offset, 0);
        match spec_skip_name(packet, offset, 0) {
            None => {},
            Some(end) => {
                if end + 4 <= packet.len() {
                    lemma_questions_agree(packet, other, end + 4, (count - 1) as nat);
                }
            },
        }
    }
}

proof fn lemma_answers_agree(packet: Seq<u8>, other: Seq<u8>, offset: int, count: nat, expected_type: u16)
    requires
        packet.len() == other.len(),
        forall|k: int| 0 <= k < packet.len() && k != 2 && k != 3 ==> packet[k] == other[k],
        offset >= 12,
    ensures
        spec_answers(packet, offset, count, expected_type) == spec_answers(other, offset, count, expected_type),
    decreases count,
{
    if count > 0 {
        lemma_names_agree(packet, other, offset, 0);
        match spec_skip_name(packet, offset, 0) {
            None => {},
            Some(record) => {
                if record + 10 <= packet.len() {
                    assert(packet[record] == other[record] && packet[record + 1] == other[record + 1]);
                    assert(packet[record + 2] == other[record + 2] && packet[record + 3] == other[record + 3]);
                    assert(packet[record + 8] == other[record + 8] && packet[record + 9] == other[record + 9]);
                    let data_length = u16_at(packet, record + 8) as int;
                    let end = record + 10 + data_length;
                    if end <= packet.len() {
                        assert(packet.subrange(record + 10, end) =~= other.subrange(record + 10, end));
                        if data_length == 4 {
                            assert(packet.subrange(record + 10, record + 14) =~= other.subrange(record + 10, record + 14));
                        }
                        if data_length == 16 {
                            assert(packet.subrange(record + 10, record + 26) =~= other.subrange(record + 10, record + 26));
                        }
                        lemma_answers_agree(packet, other, end, (count - 1) as nat, expected_type);
                    }
                }
            },
        }
    }
}

/// Decodes the addresses of `expected_type` from a response to the query
/// with `transaction_id`.
pub fn decode_response(packet: &[u8], transaction_id: u16, expected_type: u16) -> (result: Result<
    Vec<IpAddress>,
    TransportError,
>)
    ensures
        match spec_decode_response(packet@, transaction_id, expected_type) {
            None => result matches Err(TransportError::Dns(_)),
            Some(addresses) => result matches Ok(decoded) && decoded@ == addresses,
        },
{
    if packet.len() < 12 || packet.len() > MAX_DNS_PACKET {
        return Err(TransportError::Dns("malformed DNS response".to_string()));
    }
    if read_u16(packet, 0)? != transaction_id {
        return Err(TransportError::Dns("DNS transaction ID mismatch".to_string()));
    }
    let flags = read_u16(packet, 2)?;
    let response_bit = flags & 0x8000;
    let truncated_bit = flags & 0x0200;
    let rcode = flags & 0x000f;
    assert(response_bit == 0 <==> flags < 0x8000) by (bit_vector)
        requires
            response_bit == flags & 0x8000,
    ;
    assert(truncated_bit != 0 <==> (flags / 0x200) % 2 == 1) by (bit_vector)
        requires
            truncated_bit == flags & 0x0200,
    ;
    assert(rcode == flags % 16) by (bit_vector)
        requires
            rcode == flags & 0x000f,
    ;
    if response_bit == 0 {
        return Err(TransportError::Dns("not a DNS response".to_string()));
    }
    if truncated_bit != 0 {
        return Err(TransportError::Dns("truncated DNS response".to_string()));
    }
    if rcode != 0 {
        return Err(TransportError::Dns("DNS rcode".to_string()));
    }
    let question_count = read_u16(packet, 4)? as usize;
    let answer_count = read_u16(packet, 6)? as usize;
    assert(spec_decode_response(packet@, transaction_id, expected_type) == match spec_skip_questions(
        packet@,
        12,
        question_count as nat,
    ) {
        None => None,
        Some(answers) => spec_answers(packet@, answers, answer_count as nat, expected_type),
    });
    let mut offset: usize = 12;
    let mut index: usize = 0;
    while index < question_count
        invariant
            12 <= packet@.len() <= MAX_DNS_PACKET,
            spec_decode_response(packet@, transaction_id, expected_type) == match spec_skip_questions(
                packet@,
                12,
                question_count as nat,
            ) {
                None => None,
                Some(answers) => spec_answers(packet@, answers, answer_count as nat, expected_type),
            },
            index <= question_count,
            offset <= packet@.len(),
            spec_skip_questions(packet@, 12, question_count as nat) == spec_skip_questions(
                packet@,
                offset as int,
                (question_count - index) as nat,
            ),
        decreases question_count - index,
    {
        let name_end = skip_name(packet, offset);
        if name_end.is_err() {
            assert(spec_skip_questions(packet@, offset as int, (question_count - index) as nat)
                is None);
            return Err(TransportError::Dns("truncated DNS name".to_string()));
        }
        offset = name_end.unwrap();
        if offset + 4 > packet.len() {
            return Err(TransportError::Dns("truncated DNS question".to_string()));
        }
        offset = offset + 4;
        index = index + 1;
    }
    let ghost answers_start = offset as int;
    let mut addresses: Vec<IpAddress> = Vec::new();
    let mut index: usize = 0;
    assert(spec_skip_questions(packet@, offset as int, 0) == Some(offset as int));
    while index < answer_count
        invariant
            12 <= packet@.len() <= MAX_DNS_PACKET,
            spec_decode_response(packet@, transaction_id, expected_type) == spec_answers(
                packet@,
                answers_start,
                answer_count as nat,
                expected_type,
            ),
            index <= answer_count,
            offset <= packet@.len(),
            match spec_answers(packet@, offset as int, (answer_count - index) as nat, expected_type) {
                None => spec_answers(packet@, answers_start, answer_count as nat, expected_type)
                    is None,
                Some(rest) => spec_answers(packet@, answers_start, answer_count as nat, expected_type)
                    == Some(addresses@ + rest),
            },
        decreases answer_count - index,
    {
        let name_end = skip_name(packet, offset);
        if name_end.is_err() {
            assert(spec_answers(packet@, offset as int, (answer_count - index) as nat, expected_type)
                is None);
            return Err(TransportError::Dns("truncated DNS name".to_string()));
        }
        let ghost record_start = offset as int;
        offset = name_end.unwrap();
        if offset + 10 > packet.len() {
            assert(spec_answers(packet@, record_start, (answer_count - index) as nat, expected_type)
                is None);
            return Err(TransportError::Dns("truncated DNS answer".to_string()));
        }
        let record_type = read_u16(packet, offset)?;
        let class = read_u16(packet, offset + 2)?;
        let data_length = read_u16(packet, offset + 8)? as usize;
        let ghost record = offset as int;
        offset = offset + 10;
        if offset + data_length > packet.len() {
            assert(spec_answers(packet@, record_start, (answer_count - index) as nat, expected_type)
                is None);
            return Err(TransportError::Dns("truncated DNS record data".to_string()));
        }
        let end = offset + data_length;
        let ghost before = addresses@;
        let ghost item = spec_record_address(
            packet@,
            offset as int,
            record_type,
            class,
            data_length as int,
            expected_type,
        );
        if class == CLASS_IN && record_type == expected_type {
            if record_type == TYPE_A && data_length == 4 {
                addresses.push(IpAddress::V4(read_ipv4(packet, offset)));
            } else if record_type == TYPE_AAAA && data_length == 16 {
                addresses.push(IpAddress::V6(read_ipv6(packet, offset)));
            }
        }
        assert(addresses@ =~= before + item);
        proof {
            match spec_answers(packet@, end as int, (answer_count - index - 1) as nat, expected_type) {
                None => {},
                Some(rest) => {
                    assert(before + (item + rest) =~= addresses@ + rest);
                },
            }
        }
        offset = end;
        index = index + 1;
    }
    assert(addresses@ + Seq::<IpAddress>::empty() =~= addresses@);
    Ok(addresses)
}

} // verus!
