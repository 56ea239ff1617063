//! The CONNECT-IP request of the HTTP/3 transport and how its response
//! headers are read.

use vstd::prelude::*;

use crate::direct_dns::{all_digits, decimal_value, lemma_decimal_value_monotone};
use crate::error::TransportError;
use crate::net::SocketAddress;

verus! {

/// An HTTP header as raw name and value bytes.
pub struct HeaderField {
    pub name: Vec<u8>,
    pub value: Vec<u8>,
}

/// `:authority` of the CONNECT-IP request.
pub open spec fn connect_authority() -> Seq<u8> {
    seq![99u8, 108, 111, 117, 100, 102, 108, 97, 114, 101, 97, 99, 99, 101, 115, 115, 46, 99, 111, 109]
}

/// The request headers, as name and value views.
pub open spec fn spec_connect_headers() -> Seq<(Seq<u8>, Seq<u8>)> {
    seq![
        (seq![58u8, 109, 101, 116, 104, 111, 100], seq![67u8, 79, 78, 78, 69, 67, 84]),
        (seq![58u8, 115, 99, 104, 101, 109, 101], seq![104u8, 116, 116, 112, 115]),
        (seq![58u8, 97, 117, 116, 104, 111, 114, 105, 116, 121], connect_authority()),
        (seq![58u8, 112, 97, 116, 104], seq![47u8]),
        (seq![58u8, 112, 114, 111, 116, 111, 99, 111, 108], seq![99u8, 102, 45, 99, 111, 110, 110, 101, 99, 116, 45, 105, 112]),
        (seq![117u8, 115, 101, 114, 45, 97, 103, 101, 110, 116], Seq::<u8>::empty()),
        (seq![99u8, 97, 112, 115, 117, 108, 101, 45, 112, 114, 111, 116, 111, 99, 111, 108], seq![63u8, 49]),
    ]
}

/// The views of a header list.
pub open spec fn header_views(headers: Seq<HeaderField>) -> Seq<(Seq<u8>, Seq<u8>)> {
    headers.map_values(|field: HeaderField| (field.name@, field.value@))
}

fn field(name: &[u8], value: &[u8]) -> (header: HeaderField)
    ensures
        header.name@ == name@,
        header.value@ == value@,
{
    let mut name_bytes: Vec<u8> = Vec::new();
    name_bytes.extend_from_slice(name);
    let mut value_bytes: Vec<u8> = Vec::new();
    value_bytes.extend_from_slice(value);
    HeaderField { name: name_bytes, value: value_bytes }
}

/// The CONNECT-IP request headers: `CONNECT https://cloudflareaccess.com/`
/// with protocol `cf-connect-ip`, an empty user agent, and the capsule
/// protocol enabled.
pub fn connect_headers() -> (headers: Vec<HeaderField>)
    ensures
        header_views(headers@) == spec_connect_headers(),
{
    let method: [u8; 7] = [58, 109, 101, 116, 104, 111, 100];
    let connect: [u8; 7] = [67, 79, 78, 78, 69, 67, 84];
    let scheme: [u8; 7] = [58, 115, 99, 104, 101, 109, 101];
    let https: [u8; 5] = [104, 116, 116, 112, 115];
    let authority: [u8; 10] = [58, 97, 117, 116, 104, 111, 114, 105, 116, 121];
    let host: [u8; 20] = [99, 108, 111, 117, 100, 102, 108, 97, 114, 101, 97, 99, 99, 101, 115, 115, 46, 99, 111, 109];
    let path: [u8; 5] = [58, 112, 97, 116, 104];
    let root: [u8; 1] = [47];
    let protocol: [u8; 9] = [58, 112, 114, 111, 116, 111, 99, 111, 108];
    let connect_ip: [u8; 13] = [99, 102, 45, 99, 111, 110, 110, 101, 99, 116, 45, 105, 112];
    let user_agent: [u8; 10] = [117, 115, 101, 114, 45, 97, 103, 101, 110, 116];
    let empty: [u8; 0] = [];
    let capsule_protocol: [u8; 16] = [99, 97, 112, 115, 117, 108, 101, 45, 112, 114, 111, 116, 111, 99, 111, 108];
    let enabled: [u8; 2] = [63, 49];
    assert(method@ =~= seq![58u8, 109, 101, 116, 104, 111, 100]);
    assert(connect@ =~= seq![67u8, 79, 78, 78, 69, 67, 84]);
    assert(scheme@ =~= seq![58u8, 115, 99, 104, 101, 109, 101]);
    assert(https@ =~= seq![104u8, 116, 116, 112, 115]);
    assert(authority@ =~= seq![58u8, 97, 117, 116, 104, 111, 114, 105, 116, 121]);
    assert(host@ =~= connect_authority());
    assert(path@ =~= seq![58u8, 112, 97, 116, 104]);
    assert(root@ =~= seq![47u8]);
    assert(protocol@ =~= seq![58u8, 112, 114, 111, 116, 111, 99, 111, 108]);
    assert(connect_ip@ =~= seq![99u8, 102, 45, 99, 111, 110, 110, 101, 99, 116, 45, 105, 112]);
    assert(user_agent@ =~= seq![117u8, 115, 101, 114, 45, 97, 103, 101, 110, 116]);
    assert(empty@ =~= Seq::<u8>::empty());
    assert(capsule_protocol@ =~= seq![99u8, 97, 112, 115, 117, 108, 101, 45, 112, 114, 111, 116, 111, 99, 111, 108]);
    assert(enabled@ =~= seq![63u8, 49]);
    let mut headers: Vec<HeaderField> = Vec::new();
    headers.push(field(&method, &connect));
    headers.push(field(&scheme, &https));
    headers.push(field(&authority, &host));
    headers.push(field(&path, &root));
    headers.push(field(&protocol, &connect_ip));
    headers.push(field(&user_agent, &empty));
    headers.push(field(&capsule_protocol, &enabled));
    assert(header_views(headers@) =~= spec_connect_headers());
    headers
}

/// The width of the UTF-8 scalar that starts at `start`, or 0 when the
/// bytes there do not start with a well-formed one (a bad leading or
/// continuation byte, a truncated sequence, an overlong encoding, a
/// surrogate or a value past U+10FFFF).
fn first_scalar_width(bytes: &[u8], start: usize) -> (width: usize)
    requires
        start < bytes@.len(),
    ensures
        ({
            let rest = bytes@.subrange(start as int, bytes@.len() as int);
            &&& (width > 0 <==> vstd::utf8::valid_first_scalar(rest))
            &&& width > 0 ==> width == vstd::utf8::length_of_first_scalar(rest)
        }),
{
    let ghost rest = bytes@.subrange(start as int, bytes@.len() as int);
    let left = bytes.len() - start;
    let b0 = bytes[start];
    assert(rest[0] == b0);
    if b0 <= 0x7f {
        let codepoint: u32 = (b0 & 0x7f) as u32;
        if 0xD800 <= codepoint && codepoint <= 0xDFFF {
            return 0;
        }
        return 1;
    }
    if 0xc0 <= b0 && b0 <= 0xdf {
        if left < 2 {
            return 0;
        }
        let b1 = bytes[start + 1];
        assert(rest[1] == b1);
        if !(0x80 <= b1 && b1 <= 0xbf) {
            return 0;
        }
        let codepoint: u32 = (((b0 & 0x1f) as u32) << 6) | ((b1 & 0x3f) as u32);
        if codepoint < 0x80 || (0xD800 <= codepoint && codepoint <= 0xDFFF) {
            return 0;
        }
        return 2;
    }
    if 0xe0 <= b0 && b0 <= 0xef {
        if left < 3 {
            return 0;
        }
        let b1 = bytes[start + 1];
        let b2 = bytes[start + 2];
        assert(rest[1] == b1 && rest[2] == b2);
        if !(0x80 <= b1 && b1 <= 0xbf) || !(0x80 <= b2 && b2 <= 0xbf) {
            return 0;
        }
        let codepoint: u32 = (((b0 & 0x0f) as u32) << 12) | (((b1 & 0x3f) as u32) << 6) | ((b2 & 0x3f) as u32);
        if codepoint < 0x800 || (0xD800 <= codepoint && codepoint <= 0xDFFF) {
            return 0;
        }
        return 3;
    }
    if 0xf0 <= b0 && b0 <= 0xf7 {
        if left < 4 {
            return 0;
        }
        let b1 = bytes[start + 1];
        let b2 = bytes[start + 2];
        let b3 = bytes[start + 3];
        assert(rest[1] == b1 && rest[2] == b2 && rest[3] == b3);
        if !(0x80 <= b1 && b1 <= 0xbf) || !(0x80 <= b2 && b2 <= 0xbf) || !(0x80 <= b3 && b3 <= 0xbf) {
            return 0;
        }
        let codepoint: u32 = (((b0 & 0x07) as u32) << 18) | (((b1 & 0x3f) as u32) << 12) | (((b2 & 0x3f) as u32)
            << 6) | ((b3 & 0x3f) as u32);
        if codepoint < 0x10000 || codepoint > 0x10ffff || (0xD800 <= codepoint && codepoint <= 0xDFFF) {
            return 0;
        }
        return 4;
    }
    0
}

/// The bytes are well-formed UTF-8, as `std::str::from_utf8` accepts them.
pub fn utf8_valid(bytes: &[u8]) -> (valid: bool)
    ensures
        valid == vstd::utf8::valid_utf8(bytes@),
{
    let mut index: usize = 0;
    assert(bytes@.subrange(0, bytes@.len() as int) =~= bytes@);
    while index < bytes.len()
        invariant
            index <= bytes@.len(),
            vstd::utf8::valid_utf8(bytes@) == vstd::utf8::valid_utf8(
                bytes@.subrange(index as int, bytes@.len() as int),
            ),
        decreases bytes@.len() - index,
    {
        let ghost rest = bytes@.subrange(index as int, bytes@.len() as int);
        let width = first_scalar_width(bytes, index);
        if width == 0 {
            return false;
        }
        assert(vstd::utf8::pop_first_scalar(rest) =~= bytes@.subrange(index + width, bytes@.len() as int));
        index = index + width;
    }
    assert(bytes@.subrange(index as int, bytes@.len() as int).len() == 0);
    true
}

/// `:status`.
pub open spec fn status_name() -> Seq<u8> {
    seq![58u8, 115, 116, 97, 116, 117, 115]
}

/// The number a `:status` value states, as `str::parse::<u16>` reads it:
/// an optional `+` and at least one digit, at most `u16::MAX`.
pub open spec fn spec_parse_u16(value: Seq<u8>) -> Option<u16> {
    let digits = if value.len() > 0 && value[0] == 43 { value.drop_first() } else { value };
    if digits.len() == 0 || !all_digits(digits) || decimal_value(digits) > u16::MAX {
        None
    } else {
        Some(decimal_value(digits) as u16)
    }
}

fn parse_u16(value: &[u8]) -> (parsed: Option<u16>)
    ensures
        parsed == spec_parse_u16(value@),
{
    let start: usize = if value.len() > 0 && value[0] == 43 {
        1
    } else {
        0
    };
    let ghost digits = value@.skip(start as int);
    assert(digits =~= if value@.len() > 0 && value@[0] == 43 {
        value@.drop_first()
    } else {
        value@
    });
    if start == value.len() {
        return None;
    }
    let mut total: u32 = 0;
    let mut position = start;
    while position < value.len()
        invariant
            start <= position <= value@.len(),
            start < value@.len(),
            digits == value@.skip(start as int),
            digits =~= if value@.len() > 0 && value@[0] == 43 {
                value@.drop_first()
            } else {
                value@
            },
            all_digits(value@.subrange(start as int, position as int)),
            total == decimal_value(value@.subrange(start as int, position as int)),
            total <= u16::MAX,
        decreases value@.len() - position,
    {
        let byte = value[position];
        if byte < 48 || byte > 57 {
            assert(digits[position - start] == byte);
            return None;
        }
        let ghost prefix = value@.subrange(start as int, position + 1);
        assert(prefix.drop_last() =~= value@.subrange(start as int, position as int));
        let next = total * 10 + (byte - 48) as u32;
        if next > 65_535 {
            proof {
                if all_digits(digits) {
                    lemma_decimal_value_monotone(digits, (position + 1 - start) as nat);
                    assert(digits.take((position + 1 - start) as int) =~= prefix);
                }
            }
            return None;
        }
        total = next;
        position = position + 1;
    }
    assert(value@.subrange(start as int, value@.len() as int) =~= digits);
    Some(total as u16)
}

/// The first `:status` header's value, if any.
pub open spec fn first_status(headers: Seq<(Seq<u8>, Seq<u8>)>) -> Option<Seq<u8>>
    decreases headers.len(),
{
    if headers.len() == 0 {
        None
    } else if headers[0].0 == status_name() {
        Some(headers[0].1)
    } else {
        first_status(headers.drop_first())
    }
}

/// The response status: absent without a `:status` header, an HTTP/3
/// error when its value is not UTF-8 or not a number, its number otherwise.
pub open spec fn spec_response_status(headers: Seq<(Seq<u8>, Seq<u8>)>) -> Result<Option<u16>, ()> {
    match first_status(headers) {
        None => Ok(None),
        Some(value) => if !vstd::utf8::valid_utf8(value) {
            Err(())
        } else {
            match spec_parse_u16(value) {
                Some(status) => Ok(Some(status)),
                None => Err(()),
            }
        },
    }
}

fn is_status_name(name: &[u8]) -> (status: bool)
    ensures
        status == (name@ == status_name()),
{
    let expected: [u8; 7] = [58, 115, 116, 97, 116, 117, 115];
    assert(expected@ =~= status_name());
    if name.len() != 7 {
        return false;
    }
    let mut index: usize = 0;
    while index < 7
        invariant
            index <= 7,
            name@.len() == 7,
            expected@ == status_name(),
            forall|i: int| 0 <= i < index ==> name@[i] == expected@[i],
        decreases 7 - index,
    {
        if name[index] != expected[index] {
            return false;
        }
        index = index + 1;
    }
    assert(name@ =~= status_name());
    true
}

/// Reads the `:status` of a response header block.
pub fn response_status(headers: &[HeaderField]) -> (status: Result<Option<u16>, TransportError>)
    ensures
        match spec_response_status(header_views(headers@)) {
            Ok(value) => status == Ok::<Option<u16>, TransportError>(value),
            Err(()) => status matches Err(TransportError::Http3(_)),
        },
{
    let ghost views = header_views(headers@);
    let mut index: usize = 0;
    assert(views.skip(0) =~= views);
    while index < headers.len()
        invariant
            index <= headers@.len(),
            views == header_views(headers@),
            first_status(views) == first_status(views.skip(index as int)),
        decreases headers@.len() - index,
    {
        let ghost rest = views.skip(index as int);
        assert(rest[0] == (headers@[index as int].name@, headers@[index as int].value@));
        assert(rest.drop_first() =~= views.skip(index + 1));
        if is_status_name(headers[index].name.as_slice()) {
            let value = headers[index].value.as_slice();
            if !utf8_valid(value) {
                return Err(TransportError::Http3(String::from_str("response :status is not UTF-8")));
            }
            return match parse_u16(value) {
                Some(code) => Ok(Some(code)),
                None => Err(TransportError::Http3(String::from_str("response :status is not numeric"))),
            };
        }
        index = index + 1;
    }
    assert(views.skip(index as int).len() == 0);
    Ok(None)
}

/// What one response header block does to the CONNECT-IP request: a 2xx
/// status accepts it, any other final status rejects it, an interim status
/// changes nothing, and a block without a status is an error unless the
/// request was already accepted.
pub open spec fn spec_connect_response(status: Option<u16>, accepted: bool) -> Result<bool, Option<u16>> {
    match status {
        Some(code) => if 200 <= code < 300 {
            Ok(true)
        } else if code >= 200 {
            Err(Some(code))
        } else {
            Ok(accepted)
        },
        None => if accepted {
            Ok(true)
        } else {
            Err(None)
        },
    }
}

pub fn connect_response(status: Option<u16>, accepted: bool) -> (result: Result<bool, TransportError>)
    ensures
        match spec_connect_response(status, accepted) {
            Ok(now_accepted) => result == Ok::<bool, TransportError>(now_accepted),
            Err(Some(code)) => result matches Err(TransportError::Http3ConnectRejected(rejected))
                && rejected == code,
            Err(None) => result matches Err(TransportError::Http3(_)),
        },
{
    match status {
        Some(code) => {
            if 200 <= code && code < 300 {
                Ok(true)
            } else if code >= 200 {
                Err(TransportError::Http3ConnectRejected(code))
            } else {
                Ok(accepted)
            }
        },
        None => {
            if accepted {
                Ok(true)
            } else {
                Err(TransportError::Http3(String::from_str("CONNECT-IP response omitted :status")))
            }
        },
    }
}

/// Why the HTTP/3 actor gave up before the tunnel became ready.
#[derive(Debug)]
pub enum StartupFailure {
    ConnectRejected(u16),
    DatagramUnavailable,
    PmtuRevalidationExhausted,
    ProtocolViolation(String),
    Other(String),
}

/// The startup failure an actor error is reported as: the typed HTTP/3
/// rejections, missing datagram support and path MTU exhaustion keep their
/// own variant; any other error is carried as its displayed text.
pub open spec fn startup_failure_of(error: TransportError, description: String) -> StartupFailure {
    match error {
        TransportError::Http3ConnectRejected(status) => StartupFailure::ConnectRejected(status),
        TransportError::Http3DatagramUnavailable => StartupFailure::DatagramUnavailable,
        TransportError::PmtuRevalidationExhausted => StartupFailure::PmtuRevalidationExhausted,
        TransportError::Http3ProtocolViolation(message) => StartupFailure::ProtocolViolation(message),
        _ => StartupFailure::Other(description),
    }
}

/// The transport error a startup failure is reported as.
pub open spec fn reported_error(failure: StartupFailure) -> TransportError {
    match failure {
        StartupFailure::ConnectRejected(status) => TransportError::Http3ConnectRejected(status),
        StartupFailure::DatagramUnavailable => TransportError::Http3DatagramUnavailable,
        StartupFailure::PmtuRevalidationExhausted => TransportError::PmtuRevalidationExhausted,
        StartupFailure::ProtocolViolation(message) => TransportError::Http3ProtocolViolation(message),
        StartupFailure::Other(message) => TransportError::Http3(message),
    }
}

/// Whether an actor error keeps its own startup failure variant.
pub open spec fn is_typed_startup_error(error: TransportError) -> bool {
    ||| error is Http3ConnectRejected
    ||| error is Http3DatagramUnavailable
    ||| error is PmtuRevalidationExhausted
    ||| error is Http3ProtocolViolation
}

/// Law: a typed startup error survives being reported through the startup
/// channel unchanged, whatever description comes with it.
pub proof fn lemma_typed_startup_error_survives(error: TransportError, description: String)
    requires
        is_typed_startup_error(error),
    ensures
        reported_error(startup_failure_of(error, description)) == error,
{
}

impl StartupFailure {
    /// The startup failure an actor error is reported as; `description` is
    /// the error's displayed text, kept only for an untyped error.
    pub fn from_transport_error(error: &TransportError, description: String) -> (failure: Self)
        ensures
            failure == startup_failure_of(*error, description),
    {
        match error {
            TransportError::Http3ConnectRejected(status) => StartupFailure::ConnectRejected(*status),
            TransportError::Http3DatagramUnavailable => StartupFailure::DatagramUnavailable,
            TransportError::PmtuRevalidationExhausted => StartupFailure::PmtuRevalidationExhausted,
            TransportError::Http3ProtocolViolation(message) => StartupFailure::ProtocolViolation(message.clone()),
            _ => StartupFailure::Other(description),
        }
    }

    /// The transport error a startup failure is reported as.
    pub fn into_transport_error(self) -> (error: TransportError)
        ensures
            error == reported_error(self),
    {
        match self {
            StartupFailure::ConnectRejected(status) => TransportError::Http3ConnectRejected(status),
            StartupFailure::DatagramUnavailable => TransportError::Http3DatagramUnavailable,
            StartupFailure::PmtuRevalidationExhausted => TransportError::PmtuRevalidationExhausted,
            StartupFailure::ProtocolViolation(message) => TransportError::Http3ProtocolViolation(message),
            StartupFailure::Other(message) => TransportError::Http3(message),
        }
    }
}

/// How waiting for the HTTP/3 actor's startup report ended, short of
/// success.
#[derive(Debug)]
pub enum StartupOutcome {
    /// The actor reported a failure.
    Failed(StartupFailure),
    /// The actor ended without a report, with its own result.
    DriverEnded(Result<(), TransportError>),
    /// The connect deadline passed.
    TimedOut,
}

/// The error a failed HTTP/3 startup reports. A rejected endpoint pin
/// overrides every other cause; otherwise the actor's failure or error
/// stands, an actor that ended cleanly without becoming ready is an HTTP/3
/// error, and a timeout names the endpoint.
pub fn startup_error(outcome: StartupOutcome, pin_rejected: bool, endpoint: SocketAddress) -> (error: TransportError)
    ensures
        pin_rejected ==> error == TransportError::EndpointPinMismatch,
        !pin_rejected ==> match outcome {
            StartupOutcome::Failed(failure) => error == reported_error(failure),
            StartupOutcome::DriverEnded(Ok(())) => error is Http3,
            StartupOutcome::DriverEnded(Err(driver_error)) => error == driver_error,
            StartupOutcome::TimedOut => error == TransportError::EndpointTimeout(endpoint),
        },
{
    if pin_rejected {
        return TransportError::EndpointPinMismatch;
    }
    match outcome {
        StartupOutcome::Failed(failure) => failure.into_transport_error(),
        StartupOutcome::DriverEnded(Ok(())) => TransportError::Http3(
            String::from_str("connection ended before CONNECT-IP became ready"),
        ),
        StartupOutcome::DriverEnded(Err(driver_error)) => driver_error,
        StartupOutcome::TimedOut => TransportError::EndpointTimeout(endpoint),
    }
}

} // verus!
