//! The `Content-Type` grammar a DNS-over-HTTPS answer must match:
//! `application/dns-message`, in any letter case, optionally followed by
//! `;`-separated `token=value` parameters whose values are tokens or quoted
//! strings (RFC 9110 section 8.3), with optional whitespace around them.

use vstd::prelude::*;

verus! {

/// The longest header value considered.
pub const MAX_MEDIA_TYPE_BYTES: usize = 1_024;

/// Optional whitespace: space or horizontal tab.
pub open spec fn is_ows(byte: u8) -> bool {
    byte == 32 || byte == 9
}

/// An RFC 9110 `tchar`: a letter, a digit or one of ``!#$%&'*+-.^_`|~``.
pub open spec fn spec_is_http_token(byte: u8) -> bool {
    ||| 48 <= byte <= 57
    ||| 65 <= byte <= 90
    ||| 97 <= byte <= 122
    ||| byte == 33 || byte == 35 || byte == 36 || byte == 37 || byte == 38 || byte == 39
    ||| byte == 42 || byte == 43 || byte == 45 || byte == 46 || byte == 94 || byte == 95
    ||| byte == 96 || byte == 124 || byte == 126
}

/// A byte allowed inside a quoted string or after its backslash: horizontal
/// tab or a printable ASCII character.
pub open spec fn is_quoted_text(byte: u8) -> bool {
    byte == 9 || 32 <= byte <= 126
}

/// The byte in lower case, for ASCII letters.
pub open spec fn ascii_lower(byte: u8) -> u8 {
    if 65 <= byte <= 90 { (byte + 32) as u8 } else { byte }
}

/// `application/dns-message`.
pub open spec fn dns_message_type() -> Seq<u8> {
    seq![97u8, 112, 112, 108, 105, 99, 97, 116, 105, 111, 110, 47, 100, 110, 115, 45, 109, 101, 115, 115, 97, 103, 101]
}

/// The end of the whitespace run starting at `start`.
pub open spec fn ows_end(value: Seq<u8>, start: int) -> int
    decreases value.len() - start,
{
    if 0 <= start < value.len() && is_ows(value[start]) {
        ows_end(value, start + 1)
    } else {
        start
    }
}

/// The end of the token run starting at `start`.
pub open spec fn token_end(value: Seq<u8>, start: int) -> int
    decreases value.len() - start,
{
    if 0 <= start < value.len() && spec_is_http_token(value[start]) {
        token_end(value, start + 1)
    } else {
        start
    }
}

/// The end of the media type starting at `start`: the run of bytes up to a
/// `;` or whitespace.
pub open spec fn media_type_end(value: Seq<u8>, start: int) -> int
    decreases value.len() - start,
{
    if 0 <= start < value.len() && value[start] != 59 && !is_ows(value[start]) {
        media_type_end(value, start + 1)
    } else {
        start
    }
}

/// The position after the closing quote of a quoted string whose content
/// starts at `start`, or `None` when the string is not properly closed.
pub open spec fn quoted_end(value: Seq<u8>, start: int) -> Option<int>
    decreases value.len() - start,
{
    if start < 0 || start >= value.len() {
        None
    } else if value[start] == 34 {
        Some(start + 1)
    } else if value[start] == 92 {
        if start + 1 < value.len() && is_quoted_text(value[start + 1]) {
            quoted_end(value, start + 2)
        } else {
            None
        }
    } else if is_quoted_text(value[start]) {
        quoted_end(value, start + 1)
    } else {
        None
    }
}

pub proof fn lemma_ows_end_bounds(value: Seq<u8>, start: int)
    requires
        0 <= start <= value.len(),
    ensures
        start <= ows_end(value, start) <= value.len(),
    decreases value.len() - start,
{
    if start < value.len() && is_ows(value[start]) {
        lemma_ows_end_bounds(value, start + 1);
    }
}

pub proof fn lemma_token_end_bounds(value: Seq<u8>, start: int)
    requires
        0 <= start <= value.len(),
    ensures
        start <= token_end(value, start) <= value.len(),
    decreases value.len() - start,
{
    if start < value.len() && spec_is_http_token(value[start]) {
        lemma_token_end_bounds(value, start + 1);
    }
}

pub proof fn lemma_quoted_end_advances(value: Seq<u8>, start: int)
    ensures
        quoted_end(value, start) matches Some(end) ==> start < end <= value.len(),
    decreases value.len() - start,
{
    if 0 <= start < value.len() && value[start] != 34 {
        if value[start] == 92 {
            if start + 1 < value.len() {
                lemma_quoted_end_advances(value, start + 2);
            }
        } else {
            lemma_quoted_end_advances(value, start + 1);
        }
    }
}

/// The parameter list from `start` on is well formed: each parameter is
/// `; name=value` with optional whitespace around the `;`, a token name, and
/// a token or quoted-string value; only whitespace may follow the last one.
pub open spec fn parameters_valid(value: Seq<u8>, start: int) -> bool
    decreases value.len() - start,
{
    if start < 0 || start > value.len() {
        false
    } else {
        let semicolon = ows_end(value, start);
        if semicolon >= value.len() {
            true
        } else if value[semicolon] != 59 {
            false
        } else {
            let name = ows_end(value, semicolon + 1);
            let equals = token_end(value, name);
            if equals == name || equals >= value.len() || value[equals] != 61 {
                false
            } else {
                let parameter = equals + 1;
                proof {
                    lemma_ows_end_bounds(value, start);
                    lemma_ows_end_bounds(value, semicolon + 1);
                    lemma_token_end_bounds(value, name);
                }
                if parameter < value.len() && value[parameter] == 34 {
                    match quoted_end(value, parameter + 1) {
                        None => false,
                        Some(end) => {
                            proof {
                                lemma_quoted_end_advances(value, parameter + 1);
                            }
                            parameters_valid(value, end)
                        },
                    }
                } else {
                    let end = token_end(value, parameter);
                    proof {
                        lemma_token_end_bounds(value, parameter);
                    }
                    if end == parameter {
                        false
                    } else {
                        parameters_valid(value, end)
                    }
                }
            }
        }
    }
}

/// The media type starting at `start` and ending at `end` is
/// `application/dns-message` in some letter case.
pub open spec fn is_dns_message_type(value: Seq<u8>, start: int, end: int) -> bool {
    &&& end - start == dns_message_type().len()
    &&& forall|k: int| 0 <= k < end - start ==> ascii_lower(#[trigger] value[start + k]) == dns_message_type()[k]
}

/// A `Content-Type` value that declares a DNS message: at most
/// `MAX_MEDIA_TYPE_BYTES` ASCII bytes, the DNS message media type after
/// optional whitespace, then well-formed parameters.
pub open spec fn spec_valid_dns_media_type(value: Seq<u8>) -> bool {
    let start = ows_end(value, 0);
    let end = media_type_end(value, start);
    &&& value.len() <= MAX_MEDIA_TYPE_BYTES
    &&& forall|i: int| 0 <= i < value.len() ==> #[trigger] value[i] < 128
    &&& is_dns_message_type(value, start, end)
    &&& parameters_valid(value, end)
}

/// Whether `byte` is an RFC 9110 token character.
pub fn is_http_token(byte: u8) -> (token: bool)
    ensures
        token == spec_is_http_token(byte),
{
    (48 <= byte && byte <= 57) || (65 <= byte && byte <= 90) || (97 <= byte && byte <= 122)
        || byte == 33 || byte == 35 || byte == 36 || byte == 37 || byte == 38 || byte == 39
        || byte == 42 || byte == 43 || byte == 45 || byte == 46 || byte == 94 || byte == 95
        || byte == 96 || byte == 124 || byte == 126
}

/// Moves `cursor` past any spaces and tabs.
pub fn skip_ows(value: &[u8], cursor: &mut usize)
    ensures
        *final(cursor) == ows_end(value@, *old(cursor) as int),
{
    while *cursor < value.len() && (value[*cursor] == 32 || value[*cursor] == 9)
        invariant
            ows_end(value@, *cursor as int) == ows_end(value@, *old(cursor) as int),
        decreases value@.len() - *cursor,
    {
        *cursor = *cursor + 1;
    }
}

fn skip_token(value: &[u8], cursor: &mut usize)
    ensures
        *final(cursor) == token_end(value@, *old(cursor) as int),
{
    while *cursor < value.len() && is_http_token(value[*cursor])
        invariant
            token_end(value@, *cursor as int) == token_end(value@, *old(cursor) as int),
        decreases value@.len() - *cursor,
    {
        *cursor = *cursor + 1;
    }
}

/// The position after the closing quote of the quoted string whose content
/// starts at `start`.
fn skip_quoted(value: &[u8], start: usize) -> (end: Option<usize>)
    requires
        start <= value@.len(),
    ensures
        match quoted_end(value@, start as int) {
            Some(position) => end == Some(position as usize),
            None => end is None,
        },
{
    let mut cursor = start;
    while cursor < value.len()
        invariant
            quoted_end(value@, cursor as int) == quoted_end(value@, start as int),
            cursor <= value@.len() + 1,
        decreases value@.len() - cursor,
    {
        let byte = value[cursor];
        if byte == 34 {
            return Some(cursor + 1);
        } else if byte == 92 {
            if cursor + 1 < value.len() && (value[cursor + 1] == 9 || (32 <= value[cursor + 1]
                && value[cursor + 1] <= 126)) {
                cursor = cursor + 2;
            } else {
                return None;
            }
        } else if byte == 9 || (32 <= byte && byte <= 126) {
            cursor = cursor + 1;
        } else {
            return None;
        }
    }
    None
}

/// Whether a `Content-Type` value declares a DNS message.
pub fn valid_dns_media_type(value: &[u8]) -> (valid: bool)
    ensures
        valid == spec_valid_dns_media_type(value@),
{
    if value.len() > MAX_MEDIA_TYPE_BYTES {
        return false;
    }
    let mut index: usize = 0;
    while index < value.len()
        invariant
            index <= value@.len(),
            forall|i: int| 0 <= i < index ==> #[trigger] value@[i] < 128,
        decreases value@.len() - index,
    {
        if value[index] >= 128 {
            return false;
        }
        index = index + 1;
    }
    let mut cursor: usize = 0;
    skip_ows(value, &mut cursor);
    proof {
        lemma_ows_end_bounds(value@, 0);
    }
    let start = cursor;
    while cursor < value.len() && value[cursor] != 59 && value[cursor] != 32 && value[cursor] != 9
        invariant
            start <= cursor <= value@.len(),
            media_type_end(value@, cursor as int) == media_type_end(value@, start as int),
        decreases value@.len() - cursor,
    {
        cursor = cursor + 1;
    }
    let expected: [u8; 23] = [
        97,
        112,
        112,
        108,
        105,
        99,
        97,
        116,
        105,
        111,
        110,
        47,
        100,
        110,
        115,
        45,
        109,
        101,
        115,
        115,
        97,
        103,
        101,
    ];
    assert(expected@ =~= dns_message_type());
    assert(cursor == media_type_end(value@, start as int));
    if cursor - start != 23 {
        return false;
    }
    let mut offset: usize = 0;
    while offset < 23
        invariant
            offset <= 23,
            value@.len() <= MAX_MEDIA_TYPE_BYTES,
            forall|i: int| 0 <= i < value@.len() ==> #[trigger] value@[i] < 128,
            start == ows_end(value@, 0),
            cursor == media_type_end(value@, start as int),
            cursor - start == 23,
            cursor <= value@.len(),
            expected@ == dns_message_type(),
            forall|k: int| 0 <= k < offset ==> ascii_lower(#[trigger] value@[start + k]) == dns_message_type()[k],
        decreases 23 - offset,
    {
        let byte = value[start + offset];
        let lower = if 65 <= byte && byte <= 90 {
            byte + 32
        } else {
            byte
        };
        if lower != expected[offset] {
            return false;
        }
        offset = offset + 1;
    }
    let ghost type_end = cursor as int;
    assert(is_dns_message_type(value@, start as int, type_end));
    loop
        invariant
            cursor <= value@.len(),
            value@.len() <= MAX_MEDIA_TYPE_BYTES,
            forall|i: int| 0 <= i < value@.len() ==> #[trigger] value@[i] < 128,
            start == ows_end(value@, 0),
            type_end == media_type_end(value@, start as int),
            is_dns_message_type(value@, start as int, type_end),
            parameters_valid(value@, cursor as int) == parameters_valid(value@, type_end),
        decreases value@.len() - cursor,
    {
        let previous = cursor;
        skip_ows(value, &mut cursor);
        proof {
            lemma_ows_end_bounds(value@, previous as int);
        }
        if cursor == value.len() {
            return true;
        }
        if value[cursor] != 59 {
            return false;
        }
        cursor = cursor + 1;
        let after_semicolon = cursor;
        skip_ows(value, &mut cursor);
        proof {
            lemma_ows_end_bounds(value@, after_semicolon as int);
        }
        let name = cursor;
        skip_token(value, &mut cursor);
        proof {
            lemma_token_end_bounds(value@, name as int);
        }
        if cursor == name || cursor >= value.len() || value[cursor] != 61 {
            return false;
        }
        cursor = cursor + 1;
        if cursor < value.len() && value[cursor] == 34 {
            match skip_quoted(value, cursor + 1) {
                Some(end) => {
                    proof {
                        lemma_quoted_end_advances(value@, cursor + 1);
                    }
                    cursor = end;
                },
                None => return false,
            }
        } else {
            let parameter = cursor;
            skip_token(value, &mut cursor);
            proof {
                lemma_token_end_bounds(value@, parameter as int);
            }
            if cursor == parameter {
                return false;
            }
        }
    }
}

} // verus!
