//! QUIC variable-length integers (RFC 9000, section 16): the two most
//! significant bits of the first byte give the encoded length (1, 2, 4 or 8
//! bytes); the remaining bits hold the value in network byte order.

use vstd::prelude::*;

use crate::error::TransportError;

verus! {

/// The largest value a QUIC variable-length integer can hold, `2^62 - 1`.
pub const MAX_VARINT: u64 = 4_611_686_018_427_387_903;

/// The encoded length of `value`; meaningful when `value <= MAX_VARINT`.
pub open spec fn spec_varint_len(value: u64) -> int {
    if value <= 63 {
        1
    } else if value <= 16_383 {
        2
    } else if value <= 1_073_741_823 {
        4
    } else {
        8
    }
}

/// The two-bit length prefix for an encoding of `len` bytes.
pub open spec fn varint_prefix(len: int) -> u8 {
    if len == 1 {
        0
    } else if len == 2 {
        1
    } else if len == 4 {
        2
    } else {
        3
    }
}

/// Byte `index` of the `len`-byte big-endian encoding of `value`, with the
/// length prefix in the two high bits of the first byte.
pub open spec fn varint_byte(value: u64, len: int, index: int) -> u8 {
    let byte = (value >> ((8 * (len - 1 - index)) as u64)) as u8;
    if index == 0 {
        byte | (varint_prefix(len) << 6u8)
    } else {
        byte
    }
}

/// The canonical encoding of `value`.
pub open spec fn spec_varint_bytes(value: u64) -> Seq<u8> {
    Seq::new(spec_varint_len(value) as nat, |index: int| varint_byte(value, spec_varint_len(value), index))
}

/// The encoded length announced by a first byte.
pub open spec fn varint_len_from_first(first: u8) -> int {
    if first >> 6u8 == 0 {
        1
    } else if first >> 6u8 == 1 {
        2
    } else if first >> 6u8 == 2 {
        4
    } else {
        8
    }
}

/// Big-endian accumulation of `bytes` after an initial value `acc`.
pub open spec fn be_fold(acc: u64, bytes: Seq<u8>) -> u64
    decreases bytes.len(),
{
    if bytes.len() == 0 {
        acc
    } else {
        (be_fold(acc, bytes.drop_last()) << 8u64) | (bytes.last() as u64)
    }
}

/// The varint at the start of `buffer` and its length, or `None` when the
/// buffer is empty or shorter than the announced length.
pub open spec fn spec_decode_varint(buffer: Seq<u8>) -> Option<(u64, usize)> {
    if buffer.len() == 0 {
        None
    } else {
        let len = varint_len_from_first(buffer[0]);
        if buffer.len() < len {
            None
        } else {
            Some((be_fold((buffer[0] & 0x3f) as u64, buffer.subrange(1, len)), len as usize))
        }
    }
}

/// Decoding the canonical encoding of any value up to `MAX_VARINT` gives back
/// the value and the encoded length, whatever bytes follow it.
pub proof fn lemma_varint_round_trip(value: u64, rest: Seq<u8>)
    requires
        value <= MAX_VARINT,
    ensures
        spec_decode_varint(spec_varint_bytes(value) + rest) == Some(
            (value, spec_varint_len(value) as usize),
        ),
{
    let len = spec_varint_len(value);
    let encoded = spec_varint_bytes(value);
    let buffer = encoded + rest;
    assert(buffer.subrange(1, len) =~= encoded.subrange(1, len));
    let b0 = varint_byte(value, len, 0);
    assert(buffer[0] == b0);
    reveal_with_fuel(be_fold, 8);
    if len == 1 {
        assert(b0 == ((value >> 0u64) as u8) | (0u8 << 6u8));
        assert(varint_len_from_first(b0) == 1 && ((b0 & 0x3f) as u64) == value) by (bit_vector)
            requires
                b0 == ((value >> 0u64) as u8) | (0u8 << 6u8),
                value <= 63,
        ;
        assert(encoded.subrange(1, 1) =~= Seq::<u8>::empty());
    } else if len == 2 {
        let b1 = varint_byte(value, 2, 1);
        assert(b0 == ((value >> 8u64) as u8) | (1u8 << 6u8));
        assert(b1 == (value >> 0u64) as u8);
        let tail = encoded.subrange(1, 2);
        assert(tail.drop_last() =~= Seq::<u8>::empty());
        assert(tail.last() == b1);
        assert(varint_len_from_first(b0) == 2 && ((((b0 & 0x3f) as u64) << 8u64) | (b1 as u64))
            == value) by (bit_vector)
            requires
                b0 == ((value >> 8u64) as u8) | (1u8 << 6u8),
                b1 == (value >> 0u64) as u8,
                63 < value <= 16_383,
        ;
    } else if len == 4 {
        let b1 = varint_byte(value, 4, 1);
        let b2 = varint_byte(value, 4, 2);
        let b3 = varint_byte(value, 4, 3);
        assert(b0 == ((value >> 24u64) as u8) | (2u8 << 6u8));
        assert(b1 == (value >> 16u64) as u8);
        assert(b2 == (value >> 8u64) as u8);
        assert(b3 == (value >> 0u64) as u8);
        let tail = encoded.subrange(1, 4);
        assert(tail.drop_last().drop_last().drop_last() =~= Seq::<u8>::empty());
        assert(tail.drop_last().drop_last().last() == b1);
        assert(tail.drop_last().last() == b2);
        assert(tail.last() == b3);
        let acc = (b0 & 0x3f) as u64;
        let v1 = (acc << 8u64) | (b1 as u64);
        let v2 = (v1 << 8u64) | (b2 as u64);
        let v3 = (v2 << 8u64) | (b3 as u64);
        assert(be_fold(acc, tail) == v3);
        assert(varint_len_from_first(b0) == 4 && v3 == value) by (bit_vector)
            requires
                acc == (b0 & 0x3f) as u64,
                v1 == (acc << 8u64) | (b1 as u64),
                v2 == (v1 << 8u64) | (b2 as u64),
                v3 == (v2 << 8u64) | (b3 as u64),
                b0 == ((value >> 24u64) as u8) | (2u8 << 6u8),
                b1 == (value >> 16u64) as u8,
                b2 == (value >> 8u64) as u8,
                b3 == (value >> 0u64) as u8,
                16_383 < value <= 1_073_741_823,
        ;
    } else {
        let b1 = varint_byte(value, 8, 1);
        let b2 = varint_byte(value, 8, 2);
        let b3 = varint_byte(value, 8, 3);
        let b4 = varint_byte(value, 8, 4);
        let b5 = varint_byte(value, 8, 5);
        let b6 = varint_byte(value, 8, 6);
        let b7 = varint_byte(value, 8, 7);
        assert(b0 == ((value >> 56u64) as u8) | (3u8 << 6u8));
        assert(b1 == (value >> 48u64) as u8);
        assert(b2 == (value >> 40u64) as u8);
        assert(b3 == (value >> 32u64) as u8);
        assert(b4 == (value >> 24u64) as u8);
        assert(b5 == (value >> 16u64) as u8);
        assert(b6 == (value >> 8u64) as u8);
        assert(b7 == (value >> 0u64) as u8);
        let t7 = encoded.subrange(1, 8);
        let t6 = t7.drop_last();
        let t5 = t6.drop_last();
        let t4 = t5.drop_last();
        let t3 = t4.drop_last();
        let t2 = t3.drop_last();
        let t1 = t2.drop_last();
        assert(t1.drop_last() =~= Seq::<u8>::empty());
        assert(t1.last() == b1 && t2.last() == b2 && t3.last() == b3 && t4.last() == b4);
        assert(t5.last() == b5 && t6.last() == b6 && t7.last() == b7);
        let acc = (b0 & 0x3f) as u64;
        let v1 = (acc << 8u64) | (b1 as u64);
        let v2 = (v1 << 8u64) | (b2 as u64);
        let v3 = (v2 << 8u64) | (b3 as u64);
        let v4 = (v3 << 8u64) | (b4 as u64);
        let v5 = (v4 << 8u64) | (b5 as u64);
        let v6 = (v5 << 8u64) | (b6 as u64);
        let v7 = (v6 << 8u64) | (b7 as u64);
        assert(be_fold(acc, t1) == v1);
        assert(be_fold(acc, t7) == v7);
        assert(varint_len_from_first(b0) == 8 && v7 == value) by (bit_vector)
            requires
                b0 == ((value >> 56u64) as u8) | (3u8 << 6u8),
                b1 == (value >> 48u64) as u8,
                b2 == (value >> 40u64) as u8,
                b3 == (value >> 32u64) as u8,
                b4 == (value >> 24u64) as u8,
                b5 == (value >> 16u64) as u8,
                b6 == (value >> 8u64) as u8,
                b7 == (value >> 0u64) as u8,
                acc == (b0 & 0x3f) as u64,
                v1 == (acc << 8u64) | (b1 as u64),
                v2 == (v1 << 8u64) | (b2 as u64),
                v3 == (v2 << 8u64) | (b3 as u64),
                v4 == (v3 << 8u64) | (b4 as u64),
                v5 == (v4 << 8u64) | (b5 as u64),
                v6 == (v5 << 8u64) | (b6 as u64),
                v7 == (v6 << 8u64) | (b7 as u64),
                1_073_741_823 < value <= 4_611_686_018_427_387_903,
        ;
    }
}

/// The number of bytes `value` occupies on the wire.
pub fn encoded_varint_len(value: u64) -> (result: Result<usize, TransportError>)
    ensures
        value <= MAX_VARINT ==> result == Ok::<usize, TransportError>(
            spec_varint_len(value) as usize,
        ),
        value > MAX_VARINT ==> result matches Err(TransportError::InvalidVarint),
{
    if value <= 63 {
        Ok(1)
    } else if value <= 16_383 {
        Ok(2)
    } else if value <= 1_073_741_823 {
        Ok(4)
    } else if value <= MAX_VARINT {
        Ok(8)
    } else {
        Err(TransportError::InvalidVarint)
    }
}

/// Appends the canonical encoding of `value` to `target`.
pub fn encode_varint(value: u64, target: &mut Vec<u8>) -> (result: Result<(), TransportError>)
    ensures
        value <= MAX_VARINT ==> result is Ok && final(target)@ == old(target)@ + spec_varint_bytes(
            value,
        ),
        value > MAX_VARINT ==> (result matches Err(TransportError::InvalidVarint)),
        value > MAX_VARINT ==> final(target)@ == old(target)@,
{
    let length = encoded_varint_len(value)?;
    let prefix: u8 = if length == 1 {
        0
    } else if length == 2 {
        1
    } else if length == 4 {
        2
    } else {
        3
    };
    let ghost start = target@;
    let ghost encoding = spec_varint_bytes(value);
    let mut index: usize = 0;
    while index < length
        invariant
            length == spec_varint_len(value),
            prefix == varint_prefix(length as int),
            index <= length,
            encoding == spec_varint_bytes(value),
            target@ == start + encoding.take(index as int),
        decreases length - index,
    {
        let shift = (8 * (length - 1 - index)) as u64;
        let mut byte = (value >> shift) as u8;
        if index == 0 {
            byte = byte | (prefix << 6u8);
        }
        assert(byte == encoding[index as int]);
        target.push(byte);
        assert(encoding.take(index as int + 1) =~= encoding.take(index as int).push(byte));
        index += 1;
    }
    assert(encoding.take(length as int) =~= encoding);
    Ok(())
}

/// Reads the varint at the start of `buffer`: `None` when more bytes are needed.
pub fn decode_varint(buffer: &[u8]) -> (result: Result<Option<(u64, usize)>, TransportError>)
    ensures
        result == Ok::<Option<(u64, usize)>, TransportError>(spec_decode_varint(buffer@)),
{
    if buffer.len() == 0 {
        return Ok(None);
    }
    let first = buffer[0];
    let tag = first >> 6u8;
    assert(tag < 4) by (bit_vector)
        requires
            tag == first >> 6u8,
    ;
    let length: usize = 1usize << (tag as usize);
    assert(length == varint_len_from_first(first)) by (bit_vector)
        requires
            tag == first >> 6u8,
            length == 1usize << (tag as usize),
            tag < 4,
    ;
    if buffer.len() < length {
        return Ok(None);
    }
    let ghost acc = (first & 0x3f) as u64;
    let mut value: u64 = (first & 0x3f) as u64;
    let mut index: usize = 1;
    assert(buffer@.subrange(1, 1) =~= Seq::<u8>::empty());
    while index < length
        invariant
            1 <= index <= length <= buffer.len(),
            acc == (first & 0x3f) as u64,
            first == buffer@[0],
            value == be_fold(acc, buffer@.subrange(1, index as int)),
        decreases length - index,
    {
        assert(buffer@.subrange(1, index as int + 1).drop_last() =~= buffer@.subrange(
            1,
            index as int,
        ));
        value = (value << 8u64) | (buffer[index] as u64);
        index += 1;
    }
    Ok(Some((value, length)))
}

} // verus!
