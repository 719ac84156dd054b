//! The message codec: byte-exact encoding of frontend messages and
//! decoding of backend frames.
//!
//! Frame layout: `[optional 1-byte tag][4-byte big-endian length][payload]`,
//! where the length field counts the payload plus its own four bytes.
//! Strings travel as UTF-8 followed by a null terminator; 16- and 32-bit
//! integers are big-endian.  Decoding is a pure function of the triple
//! `(tag, length, payload)`, stated by `spec_decode`; encoding is stated
//! by `spec_encode`.

use vstd::prelude::*;

use crate::messages::{BackendMessage, BackendMessageModel, ErrorField, FrontendMessage,
    ReadMessageError, ReadyForQueryStatus};
use vstd::slice::{slice_subrange, slice_to_vec};
use vstd::string::StringSliceAdditionalSpecFns;
use vstd::string::StrSliceExecFns;
use vstd::utf8::{decode_utf8, encode_utf8, valid_utf8};

verus! {

/// Tag byte of a `PasswordMessage` frame (ASCII `p`).
pub const TAG_PASSWORD: u8 = 112;

/// Tag byte of a `SimpleQuery` frame (ASCII `Q`).
pub const TAG_QUERY: u8 = 81;

/// Tag byte of an authentication frame (ASCII `R`).
pub const TAG_AUTHENTICATION: u8 = 82;

/// Tag byte of an `ErrorResponse` frame (ASCII `E`).
pub const TAG_ERROR_RESPONSE: u8 = 69;

/// Tag byte of a `BackendKeyData` frame (ASCII `K`).
pub const TAG_BACKEND_KEY_DATA: u8 = 75;

/// Tag byte of a `ReadyForQuery` frame (ASCII `Z`).
pub const TAG_READY_FOR_QUERY: u8 = 90;

/// Tag byte of a `ParameterStatus` frame (ASCII `S`).
pub const TAG_PARAMETER_STATUS: u8 = 83;

/// The two bytes of `n` in big-endian order.
pub open spec fn spec_be16(n: u16) -> Seq<u8> {
    seq![(n / 0x100) as u8, (n % 0x100) as u8]
}

/// The four bytes of `n` in big-endian order.
pub open spec fn spec_be32(n: u32) -> Seq<u8> {
    seq![
        (n / 0x1000000) as u8,
        ((n / 0x10000) % 0x100) as u8,
        ((n / 0x100) % 0x100) as u8,
        (n % 0x100) as u8,
    ]
}

/// The value of four big-endian bytes.
pub open spec fn spec_be32_val(s: Seq<u8>) -> u32
    recommends
        s.len() == 4,
{
    (s[0] * 0x1000000 + s[1] * 0x10000 + s[2] * 0x100 + s[3]) as u32
}

/// Reading back the four big-endian bytes of `n` gives `n`.
pub proof fn lemma_be32_roundtrip(n: u32)
    ensures
        spec_be32_val(spec_be32(n)) == n,
{
    assert((n / 0x1000000) * 0x1000000 + ((n / 0x10000) % 0x100) * 0x10000 + ((n / 0x100)
        % 0x100) * 0x100 + n % 0x100 == n) by (nonlinear_arith);
}

/// A string as it travels on the wire: its UTF-8 bytes plus a null
/// terminator.
pub open spec fn spec_cstr(s: Seq<char>) -> Seq<u8> {
    encode_utf8(s) + seq![0u8]
}

/// The payload of `RequestSSL`: the two magic negotiation values and an
/// empty terminator field.
pub open spec fn spec_ssl_request_payload() -> Seq<u8> {
    spec_be16(1234) + spec_be16(5679) + seq![0u8]
}

/// The payload of `StartupMessage`: protocol version 3.0, the `user` and
/// `database` parameter pairs, and the final empty terminator field.
pub open spec fn spec_startup_payload(user: Seq<char>, database: Seq<char>) -> Seq<u8> {
    spec_be16(3) + spec_be16(0) + spec_cstr("user"@) + spec_cstr(user) + spec_cstr("database"@)
        + spec_cstr(database) + seq![0u8]
}

/// The payload of `PasswordMessage`.
pub open spec fn spec_password_payload(password: Seq<char>) -> Seq<u8> {
    spec_cstr(password) + seq![0u8]
}

/// The payload of `SimpleQuery`.
pub open spec fn spec_query_payload(query: Seq<char>) -> Seq<u8> {
    spec_cstr(query)
}

/// The tag byte of a frontend message; the startup-phase messages have
/// none.
pub open spec fn spec_tag(m: FrontendMessage) -> Option<u8> {
    match m {
        FrontendMessage::RequestSSL => None,
        FrontendMessage::StartupMessage { .. } => None,
        FrontendMessage::PasswordMessage { .. } => Some(TAG_PASSWORD),
        FrontendMessage::SimpleQuery { .. } => Some(TAG_QUERY),
    }
}

/// The payload of a frontend message.
pub open spec fn spec_payload(m: FrontendMessage) -> Seq<u8> {
    match m {
        FrontendMessage::RequestSSL => spec_ssl_request_payload(),
        FrontendMessage::StartupMessage { user, database } => spec_startup_payload(
            user@,
            database@,
        ),
        FrontendMessage::PasswordMessage { password } => spec_password_payload(password@),
        FrontendMessage::SimpleQuery { query } => spec_query_payload(query@),
    }
}

/// A whole frame: the optional tag, the length field (payload length plus
/// four), then the payload.
pub open spec fn spec_frame(tag: Option<u8>, payload: Seq<u8>) -> Seq<u8>
    recommends
        payload.len() + 4 <= u32::MAX,
{
    (match tag {
        Some(t) => seq![t],
        None => Seq::<u8>::empty(),
    }) + spec_be32((payload.len() + 4) as u32) + payload
}

/// The encoding of a frontend message.
pub open spec fn spec_encode(m: FrontendMessage) -> Seq<u8> {
    spec_frame(spec_tag(m), spec_payload(m))
}

/// The pieces of `b` between its null bytes, in order.  A sequence with
/// no null byte is one piece; every null byte ends a piece, and the bytes
/// after the last null (possibly none) are the final piece.
pub open spec fn spec_split_nulls(b: Seq<u8>) -> Seq<Seq<u8>>
    decreases b.len(),
{
    if b.len() == 0 {
        seq![b]
    } else if b[0] == 0 {
        seq![Seq::<u8>::empty()] + spec_split_nulls(b.drop_first())
    } else {
        let rest = spec_split_nulls(b.drop_first());
        seq![seq![b[0]] + rest[0]] + rest.drop_first()
    }
}

/// Splitting never yields an empty list of pieces.
pub proof fn lemma_split_nulls_len(b: Seq<u8>)
    ensures
        spec_split_nulls(b).len() >= 1,
    decreases b.len(),
{
    if b.len() > 0 {
        lemma_split_nulls_len(b.drop_first());
    }
}

/// The index of the first null byte of `b`, if any.
pub open spec fn spec_find_null(b: Seq<u8>) -> Option<int>
    decreases b.len(),
{
    if b.len() == 0 {
        None
    } else if b[0] == 0 {
        Some(0)
    } else {
        match spec_find_null(b.drop_first()) {
            Some(i) => Some(i + 1),
            None => None,
        }
    }
}

/// What `spec_find_null` returns: the index of a null byte with none
/// before it, or nothing when `b` has no null byte.
pub proof fn lemma_find_null_props(b: Seq<u8>)
    ensures
        match spec_find_null(b) {
            Some(i) => 0 <= i < b.len() && b[i] == 0 && forall|j: int| 0 <= j < i ==> b[j] != 0,
            None => forall|j: int| 0 <= j < b.len() ==> b[j] != 0,
        },
    decreases b.len(),
{
    if b.len() > 0 && b[0] != 0 {
        lemma_find_null_props(b.drop_first());
        let rest = b.drop_first();
        assert(forall|j: int| 1 <= j < b.len() ==> b[j] == rest[j - 1]);
        match spec_find_null(rest) {
            Some(i) => {
                assert(b[i + 1] == rest[i]);
                assert forall|j: int| 0 <= j < i + 1 implies b[j] != 0 by {
                    if j > 0 {
                        assert(rest[j - 1] != 0);
                    }
                }
            },
            None => {
                assert forall|j: int| 0 <= j < b.len() implies b[j] != 0 by {
                    if j > 0 {
                        assert(rest[j - 1] != 0);
                    }
                }
            },
        }
    }
}

/// A null byte at `i` with none before it is what `spec_find_null` finds.
pub proof fn lemma_find_null_unique(b: Seq<u8>, i: int)
    requires
        0 <= i < b.len(),
        b[i] == 0,
        forall|j: int| 0 <= j < i ==> b[j] != 0,
    ensures
        spec_find_null(b) == Some(i),
    decreases b.len(),
{
    if b[0] != 0 {
        lemma_find_null_unique(b.drop_first(), i - 1);
    }
}

/// Whether every piece is valid UTF-8.
pub open spec fn spec_records_valid(rs: Seq<Seq<u8>>) -> bool {
    forall|i: int| 0 <= i < rs.len() ==> valid_utf8(#[trigger] rs[i])
}

/// Each piece decoded from UTF-8.
pub open spec fn spec_decoded_records(rs: Seq<Seq<u8>>) -> Seq<Seq<char>> {
    rs.map_values(|r: Seq<u8>| decode_utf8(r))
}

/// The `ErrorField` selected by a record's first character.
pub open spec fn spec_error_field(c: char) -> ErrorField {
    if c == 'S' {
        ErrorField::LocalizedSeverity
    } else if c == 'V' {
        ErrorField::Severity
    } else if c == 'C' {
        ErrorField::Code
    } else if c == 'M' {
        ErrorField::Message
    } else if c == 'D' {
        ErrorField::Detail
    } else if c == 'H' {
        ErrorField::Hint
    } else if c == 'P' {
        ErrorField::Position
    } else if c == 'p' {
        ErrorField::InternalPosition
    } else if c == 'q' {
        ErrorField::InternalQuery
    } else if c == 'W' {
        ErrorField::Where
    } else if c == 's' {
        ErrorField::SchemaName
    } else if c == 't' {
        ErrorField::TableName
    } else if c == 'c' {
        ErrorField::ColumnName
    } else if c == 'd' {
        ErrorField::DataTypeName
    } else if c == 'n' {
        ErrorField::ConstraintName
    } else if c == 'F' {
        ErrorField::File
    } else if c == 'L' {
        ErrorField::Line
    } else if c == 'R' {
        ErrorField::Routine
    } else {
        ErrorField::Unknown(c)
    }
}

/// An error record: the first character selects the field, the remainder
/// is the value.  An empty record degrades to `Unknown('\0')` with an
/// empty value.
pub open spec fn spec_error_record(cs: Seq<char>) -> (ErrorField, Seq<char>) {
    if cs.len() == 0 {
        (ErrorField::Unknown('\0'), cs)
    } else {
        (spec_error_field(cs[0]), cs.drop_first())
    }
}

/// The decoding of one backend frame, as a pure function of the tag byte,
/// the length field and the payload.  An unrecognized tag decodes to
/// `Unknown`; a recognized tag whose payload does not fit its shape is a
/// parse error.
pub open spec fn spec_decode(tag: u8, length: u32, payload: Seq<u8>) -> Result<
    BackendMessageModel,
    ReadMessageError,
> {
    let n = payload.len() as int;
    if tag == TAG_AUTHENTICATION && length == 8 && payload == seq![0u8, 0u8, 0u8, 3u8] {
        Ok(BackendMessageModel::AuthenticationCleartextPassword)
    } else if tag == TAG_AUTHENTICATION && length == 8 && n >= 4 && payload.take(4) == seq![
        0u8,
        0u8,
        0u8,
        0u8,
    ] {
        Ok(BackendMessageModel::AuthenticationOk)
    } else if tag == TAG_AUTHENTICATION && n >= 4 && payload.take(4) == seq![0u8, 0u8, 0u8, 10u8] {
        if n >= 6 {
            let rs = spec_split_nulls(payload.subrange(4, n - 2));
            if spec_records_valid(rs) {
                Ok(BackendMessageModel::AuthenticationSasl { mechanisms: spec_decoded_records(rs) })
            } else {
                Err(ReadMessageError::ParseError)
            }
        } else {
            Err(ReadMessageError::ParseError)
        }
    } else if tag == TAG_ERROR_RESPONSE {
        if n >= 2 {
            let rs = spec_split_nulls(payload.take(n - 2));
            if spec_records_valid(rs) {
                Ok(BackendMessageModel::ErrorResponse {
                    fields: spec_decoded_records(rs).map_values(
                        |cs: Seq<char>| spec_error_record(cs),
                    ),
                })
            } else {
                Err(ReadMessageError::ParseError)
            }
        } else {
            Err(ReadMessageError::ParseError)
        }
    } else if tag == TAG_BACKEND_KEY_DATA && length == 12 {
        if n == 8 {
            Ok(BackendMessageModel::BackendKeyData {
                process_id: spec_be32_val(payload.take(4)),
                secret_key: spec_be32_val(payload.skip(4)) as i32,
            })
        } else {
            Err(ReadMessageError::ParseError)
        }
    } else if tag == TAG_READY_FOR_QUERY && length == 5 {
        if n >= 1 && payload[0] == 73 {
            Ok(BackendMessageModel::ReadyForQuery { status: ReadyForQueryStatus::Idle })
        } else if n >= 1 && payload[0] == 84 {
            Ok(BackendMessageModel::ReadyForQuery { status: ReadyForQueryStatus::Transaction })
        } else if n >= 1 && payload[0] == 69 {
            Ok(
                BackendMessageModel::ReadyForQuery {
                    status: ReadyForQueryStatus::FailedTransaction,
                },
            )
        } else {
            Err(ReadMessageError::ParseError)
        }
    } else if tag == TAG_PARAMETER_STATUS {
        match spec_find_null(payload) {
            Some(i) => {
                if i < n - 1 {
                    let name_b = payload.take(i);
                    let value_b = payload.subrange(i + 1, n - 1);
                    if valid_utf8(name_b) && valid_utf8(value_b) {
                        Ok(BackendMessageModel::ParameterStatus {
                            name: decode_utf8(name_b),
                            value: decode_utf8(value_b),
                        })
                    } else {
                        Err(ReadMessageError::ParseError)
                    }
                } else {
                    Err(ReadMessageError::ParseError)
                }
            },
            None => Err(ReadMessageError::ParseError),
        }
    } else {
        Ok(BackendMessageModel::Unknown { prefix: tag as char, payload })
    }
}

/// Appends the two big-endian bytes of `n`.
fn push_be16(out: &mut Vec<u8>, n: u16)
    ensures
        final(out)@ == old(out)@ + spec_be16(n),
{
    out.push((n / 0x100) as u8);
    out.push((n % 0x100) as u8);
    assert(final(out)@ =~= old(out)@ + spec_be16(n));
}

/// Appends the four big-endian bytes of `n`.
fn push_be32(out: &mut Vec<u8>, n: u32)
    ensures
        final(out)@ == old(out)@ + spec_be32(n),
{
    out.push((n / 0x1000000) as u8);
    out.push(((n / 0x10000) % 0x100) as u8);
    out.push(((n / 0x100) % 0x100) as u8);
    out.push((n % 0x100) as u8);
    assert(final(out)@ =~= old(out)@ + spec_be32(n));
}

/// Appends a null-terminated string.
fn push_cstr(out: &mut Vec<u8>, s: &str)
    ensures
        final(out)@ == old(out)@ + spec_cstr(s@),
{
    let mut b = slice_to_vec(s.as_bytes());
    out.append(&mut b);
    out.push(0);
    assert(final(out)@ =~= old(out)@ + spec_cstr(s@));
}

/// Frames a payload: the optional tag byte, then the length field, then
/// the payload itself.
fn frame_bytes(tag: Option<u8>, payload: Vec<u8>) -> (r: Vec<u8>)
    requires
        payload@.len() + 4 <= u32::MAX,
    ensures
        r@ == spec_frame(tag, payload@),
{
    let mut out: Vec<u8> = Vec::new();
    if let Some(t) = tag {
        out.push(t);
    }
    let lf: u32 = (payload.len() + 4) as u32;
    push_be32(&mut out, lf);
    let mut p = payload;
    out.append(&mut p);
    assert(out@ =~= spec_frame(tag, payload@));
    out
}

/// Appending a null byte ends the piece in progress.
proof fn lemma_split_nulls_push_null(b: Seq<u8>)
    ensures
        spec_split_nulls(b.push(0u8)) == spec_split_nulls(b).push(Seq::<u8>::empty()),
    decreases b.len(),
{
    lemma_split_nulls_len(b);
    if b.len() == 0 {
        assert(b.push(0u8).drop_first() =~= b);
        assert(spec_split_nulls(b.push(0u8)) =~~= spec_split_nulls(b).push(Seq::<u8>::empty()));
    } else {
        let c = b.push(0u8);
        assert(c.drop_first() =~= b.drop_first().push(0u8));
        lemma_split_nulls_push_null(b.drop_first());
        lemma_split_nulls_len(b.drop_first());
        assert(spec_split_nulls(c) =~~= spec_split_nulls(b).push(Seq::<u8>::empty()));
    }
}

/// Appending a non-null byte extends the piece in progress.
proof fn lemma_split_nulls_push_byte(b: Seq<u8>, x: u8)
    requires
        x != 0,
    ensures
        ({
            let r = spec_split_nulls(b);
            spec_split_nulls(b.push(x)) == r.update(r.len() - 1, r.last().push(x))
        }),
    decreases b.len(),
{
    lemma_split_nulls_len(b);
    if b.len() == 0 {
        let r = spec_split_nulls(b);
        assert(b.push(x).drop_first() =~= b);
        assert(spec_split_nulls(b.push(x)) =~~= r.update(r.len() - 1, r.last().push(x)));
    } else {
        let c = b.push(x);
        let r = spec_split_nulls(b);
        assert(c.drop_first() =~= b.drop_first().push(x));
        lemma_split_nulls_push_byte(b.drop_first(), x);
        lemma_split_nulls_len(b.drop_first());
        assert(spec_split_nulls(c) =~~= r.update(r.len() - 1, r.last().push(x)));
    }
}

/// Splits a byte region at its null bytes.
fn split_nulls(b: &[u8]) -> (r: Vec<Vec<u8>>)
    ensures
        r.deep_view() == spec_split_nulls(b@),
{
    let mut pieces: Vec<Vec<u8>> = Vec::new();
    let mut cur: Vec<u8> = Vec::new();
    proof {
        assert(spec_split_nulls(b@.take(0)) =~~= pieces.deep_view().push(cur@));
    }
    let mut i: usize = 0;
    while i < b.len()
        invariant
            0 <= i <= b@.len(),
            spec_split_nulls(b@.take(i as int)) == pieces.deep_view().push(cur@),
        decreases b@.len() - i,
    {
        let ghost prev_pieces = pieces.deep_view();
        let ghost prev_cur = cur@;
        let x = b[i];
        proof {
            assert(b@.take(i + 1) =~= b@.take(i as int).push(b@[i as int]));
        }
        if x == 0 {
            proof {
                lemma_split_nulls_push_null(b@.take(i as int));
            }
            pieces.push(cur);
            cur = Vec::new();
            proof {
                assert(pieces.deep_view().push(cur@) =~~= spec_split_nulls(b@.take(i + 1)));
            }
        } else {
            proof {
                lemma_split_nulls_push_byte(b@.take(i as int), x);
                lemma_split_nulls_len(b@.take(i as int));
            }
            cur.push(x);
            proof {
                assert(prev_pieces.push(prev_cur).update(
                    prev_pieces.push(prev_cur).len() - 1,
                    prev_pieces.push(prev_cur).last().push(x),
                ) =~~= pieces.deep_view().push(cur@));
            }
        }
        i = i + 1;
    }
    proof {
        assert(b@.take(i as int) =~= b@);
    }
    pieces.push(cur);
    proof {
        assert(pieces.deep_view() =~~= spec_split_nulls(b@));
    }
    pieces
}

/// Relies on str::from_utf8: it succeeds exactly on the byte sequences
/// that `valid_utf8` admits, and yields the characters that `decode_utf8`
/// gives (vstd's model of UTF-8, the same one it uses to specify
/// `str::as_bytes`).
#[verifier::external_body]
fn utf8_to_string(b: &[u8]) -> (r: Option<String>)
    ensures
        r is Some <==> valid_utf8(b@),
        r matches Some(s) ==> s@ == decode_utf8(b@),
{
    match core::str::from_utf8(b) {
        Ok(s) => Some(s.to_owned()),
        Err(_) => None,
    }
}

/// Decodes every piece from UTF-8, or reports the first piece that is not
/// valid UTF-8 by returning nothing.
fn decode_records(records: &Vec<Vec<u8>>) -> (r: Option<Vec<String>>)
    ensures
        r is Some <==> spec_records_valid(records.deep_view()),
        r matches Some(v) ==> v.deep_view() == spec_decoded_records(records.deep_view()),
{
    let mut out: Vec<String> = Vec::new();
    let mut i: usize = 0;
    let n: usize = records.len();
    while i < n
        invariant
            0 <= i <= records@.len(),
            n == records@.len(),
            out@.len() == i,
            forall|j: int| 0 <= j < i ==> valid_utf8(#[trigger] records.deep_view()[j]),
            forall|j: int|
                0 <= j < i ==> out.deep_view()[j] == decode_utf8(records.deep_view()[j]),
        decreases n - i,
    {
        proof {
            assert(records.deep_view()[i as int] == records@[i as int]@);
        }
        let ghost prev_out = out.deep_view();
        match utf8_to_string(records[i].as_slice()) {
            Some(s) => {
                let ghost sv = s@;
                out.push(s);
                proof {
                    assert forall|j: int| 0 <= j < i + 1 implies out.deep_view()[j] == decode_utf8(
                        records.deep_view()[j],
                    ) by {
                        if j < i {
                            assert(out.deep_view()[j] == prev_out[j]);
                        } else {
                            assert(out.deep_view()[j] == sv);
                        }
                    }
                }
            },
            None => {
                proof {
                    assert(!valid_utf8(records.deep_view()[i as int]));
                }
                return None;
            },
        }
        i = i + 1;
    }
    proof {
        assert(out.deep_view() =~~= spec_decoded_records(records.deep_view()));
    }
    Some(out)
}

/// The `ErrorField` selected by a record's first character.
fn error_field_of(c: char) -> (r: ErrorField)
    ensures
        r == spec_error_field(c),
{
    if c == 'S' {
        ErrorField::LocalizedSeverity
    } else if c == 'V' {
        ErrorField::Severity
    } else if c == 'C' {
        ErrorField::Code
    } else if c == 'M' {
        ErrorField::Message
    } else if c == 'D' {
        ErrorField::Detail
    } else if c == 'H' {
        ErrorField::Hint
    } else if c == 'P' {
        ErrorField::Position
    } else if c == 'p' {
        ErrorField::InternalPosition
    } else if c == 'q' {
        ErrorField::InternalQuery
    } else if c == 'W' {
        ErrorField::Where
    } else if c == 's' {
        ErrorField::SchemaName
    } else if c == 't' {
        ErrorField::TableName
    } else if c == 'c' {
        ErrorField::ColumnName
    } else if c == 'd' {
        ErrorField::DataTypeName
    } else if c == 'n' {
        ErrorField::ConstraintName
    } else if c == 'F' {
        ErrorField::File
    } else if c == 'L' {
        ErrorField::Line
    } else if c == 'R' {
        ErrorField::Routine
    } else {
        ErrorField::Unknown(c)
    }
}

/// One error record, from its decoded characters.
fn error_record_of(s: String) -> (r: (ErrorField, String))
    ensures
        (r.0, r.1@) == spec_error_record(s@),
{
    let len: usize = s.as_str().unicode_len();
    if len == 0 {
        (ErrorField::Unknown('\0'), s)
    } else {
        let c = s.as_str().get_char(0);
        let rest = s.as_str().substring_char(1, len).to_owned();
        proof {
            assert(s@.subrange(1, s@.len() as int) =~= s@.drop_first());
        }
        (error_field_of(c), rest)
    }
}

/// All error records of a response, in record order.
fn error_fields_of(records: Vec<String>) -> (r: Vec<(ErrorField, String)>)
    ensures
        r@.map_values(|p: (ErrorField, String)| (p.0, p.1@)) == records.deep_view().map_values(
            |cs: Seq<char>| spec_error_record(cs),
        ),
{
    let mut out: Vec<(ErrorField, String)> = Vec::new();
    let mut i: usize = 0;
    let n: usize = records.len();
    while i < n
        invariant
            0 <= i <= records@.len(),
            n == records@.len(),
            out@.len() == i,
            forall|j: int|
                0 <= j < i ==> ((#[trigger] out@[j]).0, out@[j].1@) == spec_error_record(
                    records.deep_view()[j],
                ),
        decreases n - i,
    {
        proof {
            assert(records.deep_view()[i as int] == records@[i as int]@);
        }
        let s = records[i].clone();
        let rec = error_record_of(s);
        out.push(rec);
        i = i + 1;
    }
    proof {
        assert(out@.map_values(|p: (ErrorField, String)| (p.0, p.1@)) =~~= records.deep_view()
            .map_values(|cs: Seq<char>| spec_error_record(cs)));
    }
    out
}

/// The index of the first null byte, if any.
fn find_null(b: &[u8]) -> (r: Option<usize>)
    ensures
        match r {
            Some(i) => spec_find_null(b@) == Some(i as int),
            None => spec_find_null(b@) is None,
        },
{
    let mut i: usize = 0;
    while i < b.len()
        invariant
            0 <= i <= b@.len(),
            forall|j: int| 0 <= j < i ==> b@[j] != 0,
        decreases b@.len() - i,
    {
        if b[i] == 0 {
            proof {
                lemma_find_null_unique(b@, i as int);
            }
            return Some(i);
        }
        i = i + 1;
    }
    proof {
        lemma_find_null_props(b@);
    }
    None
}

/// The value of the four big-endian bytes at `off`.
fn read_be32(b: &[u8], off: usize) -> (r: u32)
    requires
        off + 4 <= b@.len(),
    ensures
        r == spec_be32_val(b@.subrange(off as int, off as int + 4)),
{
    let x0: u32 = b[off] as u32;
    let x1: u32 = b[off + 1] as u32;
    let x2: u32 = b[off + 2] as u32;
    let x3: u32 = b[off + 3] as u32;
    proof {
        let s = b@.subrange(off as int, off as int + 4);
        assert(s[0] == b@[off as int]);
        assert(s[1] == b@[off as int + 1]);
        assert(s[2] == b@[off as int + 2]);
        assert(s[3] == b@[off as int + 3]);
    }
    x0 * 0x1000000 + x1 * 0x10000 + x2 * 0x100 + x3
}

/// The byte count of a frame's payload: the length field minus the four
/// bytes of the field itself.  A length field below four cannot frame a
/// payload and is a parse error.
pub fn body_length(length: u32) -> (r: Result<u32, ReadMessageError>)
    ensures
        length >= 4 ==> r == Ok::<u32, ReadMessageError>((length - 4) as u32),
        length < 4 ==> r == Err::<u32, ReadMessageError>(ReadMessageError::ParseError),
{
    if length >= 4 {
        Ok(length - 4)
    } else {
        Err(ReadMessageError::ParseError)
    }
}

/// Decodes one backend frame from its tag byte, length field and payload.
/// The result is exactly `spec_decode` of the triple; the payload must be
/// the `length - 4` bytes that the frame carried.
pub fn decode_message(tag: u8, length: u32, payload: &[u8]) -> (r: Result<
    BackendMessage,
    ReadMessageError,
>)
    requires
        payload@.len() + 4 == length,
    ensures
        ({
            let s = spec_decode(tag, length, payload@);
            match r {
                Ok(m) => s == Ok::<BackendMessageModel, ReadMessageError>(m@),
                Err(e) => s == Err::<BackendMessageModel, ReadMessageError>(e),
            }
        }),
{
    let n: usize = payload.len();
    if tag == TAG_AUTHENTICATION && length == 8 && n == 4 && payload[0] == 0 && payload[1] == 0
        && payload[2] == 0 && payload[3] == 3 {
        proof {
            assert(payload@ =~= seq![0u8, 0u8, 0u8, 3u8]);
        }
        Ok(BackendMessage::AuthenticationCleartextPassword)
    } else if tag == TAG_AUTHENTICATION && length == 8 && n == 4 && payload[0] == 0 && payload[1]
        == 0 && payload[2] == 0 && payload[3] == 0 {
        proof {
            assert(payload@.take(4) =~= seq![0u8, 0u8, 0u8, 0u8]);
        }
        Ok(BackendMessage::AuthenticationOk)
    } else if tag == TAG_AUTHENTICATION && n >= 4 && payload[0] == 0 && payload[1] == 0
        && payload[2] == 0 && payload[3] == 10 {
        proof {
            assert(payload@.take(4) =~= seq![0u8, 0u8, 0u8, 10u8]);
        }
        if n >= 6 {
            let region = slice_subrange(payload, 4, n - 2);
            let records = split_nulls(region);
            match decode_records(&records) {
                Some(mechanisms) => Ok(BackendMessage::AuthenticationSasl { mechanisms }),
                None => Err(ReadMessageError::ParseError),
            }
        } else {
            Err(ReadMessageError::ParseError)
        }
    } else if tag == TAG_ERROR_RESPONSE {
        if n >= 2 {
            let region = slice_subrange(payload, 0, n - 2);
            proof {
                assert(region@ =~= payload@.take(n - 2));
            }
            let records = split_nulls(region);
            match decode_records(&records) {
                Some(strings) => {
                    let fields = error_fields_of(strings);
                    Ok(BackendMessage::ErrorResponse(fields))
                },
                None => Err(ReadMessageError::ParseError),
            }
        } else {
            Err(ReadMessageError::ParseError)
        }
    } else if tag == TAG_BACKEND_KEY_DATA && length == 12 {
        let process_id = read_be32(payload, 0);
        let sk = read_be32(payload, 4);
        let secret_key: i32 = #[verifier::truncate] (sk as i32);
        proof {
            assert(payload@.take(4) =~= payload@.subrange(0, 4));
            assert(payload@.skip(4) =~= payload@.subrange(4, 8));
        }
        Ok(BackendMessage::BackendKeyData { process_id, secret_key })
    } else if tag == TAG_READY_FOR_QUERY && length == 5 {
        let s = payload[0];
        if s == 73 {
            Ok(BackendMessage::ReadyForQuery { status: ReadyForQueryStatus::Idle })
        } else if s == 84 {
            Ok(BackendMessage::ReadyForQuery { status: ReadyForQueryStatus::Transaction })
        } else if s == 69 {
            Ok(BackendMessage::ReadyForQuery { status: ReadyForQueryStatus::FailedTransaction })
        } else {
            Err(ReadMessageError::ParseError)
        }
    } else if tag == TAG_PARAMETER_STATUS {
        match find_null(payload) {
            Some(i) => {
                proof {
                    lemma_find_null_props(payload@);
                }
                if i < n - 1 {
                    let name_b = slice_subrange(payload, 0, i);
                    let value_b = slice_subrange(payload, i + 1, n - 1);
                    proof {
                        assert(name_b@ =~= payload@.take(i as int));
                    }
                    match utf8_to_string(name_b) {
                        Some(name) => match utf8_to_string(value_b) {
                            Some(value) => Ok(
                                BackendMessage::ParameterStatus { name, value },
                            ),
                            None => Err(ReadMessageError::ParseError),
                        },
                        None => Err(ReadMessageError::ParseError),
                    }
                } else {
                    Err(ReadMessageError::ParseError)
                }
            },
            None => Err(ReadMessageError::ParseError),
        }
    } else {
        let prefix = tag as char;
        let pv = slice_to_vec(payload);
        proof {
            if payload@.len() >= 4 {
                assert(payload@.take(4)[0] == payload@[0]);
                assert(payload@.take(4)[1] == payload@[1]);
                assert(payload@.take(4)[2] == payload@[2]);
                assert(payload@.take(4)[3] == payload@[3]);
            }
            if payload@ == seq![0u8, 0u8, 0u8, 3u8] {
                assert(payload@[3] == 3u8);
            }
        }
        Ok(BackendMessage::Unknown { prefix, payload: pv })
    }
}

impl FrontendMessage {
    /// The wire bytes of this message.  The payload must leave its byte
    /// count plus four representable in the 4-byte length field.
    pub fn to_bytes(self) -> (r: Vec<u8>)
        requires
            spec_payload(self).len() + 4 <= u32::MAX,
        ensures
            r@ == spec_encode(self),
    {
        match self {
            FrontendMessage::RequestSSL => {
                let mut p: Vec<u8> = Vec::new();
                push_be16(&mut p, 1234);
                push_be16(&mut p, 5679);
                p.push(0);
                assert(p@ =~= spec_ssl_request_payload());
                frame_bytes(None, p)
            },
            FrontendMessage::StartupMessage { user, database } => {
                let mut p: Vec<u8> = Vec::new();
                push_be16(&mut p, 3);
                push_be16(&mut p, 0);
                push_cstr(&mut p, "user");
                push_cstr(&mut p, user.as_str());
                push_cstr(&mut p, "database");
                push_cstr(&mut p, database.as_str());
                p.push(0);
                assert(p@ =~= spec_startup_payload(user@, database@));
                frame_bytes(None, p)
            },
            FrontendMessage::PasswordMessage { password } => {
                let mut p: Vec<u8> = Vec::new();
                push_cstr(&mut p, password.as_str());
                p.push(0);
                assert(p@ =~= spec_password_payload(password@));
                frame_bytes(Some(TAG_PASSWORD), p)
            },
            FrontendMessage::SimpleQuery { query } => {
                let mut p: Vec<u8> = Vec::new();
                push_cstr(&mut p, query.as_str());
                assert(p@ =~= spec_query_payload(query@));
                frame_bytes(Some(TAG_QUERY), p)
            },
        }
    }
}

} // verus!
