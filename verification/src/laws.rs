//! The codec's general laws, each proved once and for all inputs: the
//! startup frame's round trip, the length invariant of every encoding,
//! unknown-tag safety, the status-byte mapping, and that malformed UTF-8
//! in a string field is a parse error.

use vstd::prelude::*;

use crate::codec::{spec_be32, spec_be32_val, spec_decode, spec_encode, spec_find_null,
    spec_frame, spec_payload, spec_records_valid, spec_split_nulls, spec_startup_payload, spec_tag,
    lemma_be32_roundtrip, lemma_split_nulls_len, TAG_AUTHENTICATION, TAG_BACKEND_KEY_DATA,
    TAG_ERROR_RESPONSE, TAG_PARAMETER_STATUS, TAG_READY_FOR_QUERY};
use crate::messages::{BackendMessageModel, FrontendMessage, ReadMessageError,
    ReadyForQueryStatus};
use vstd::utf8::{char_is_scalar, decode_utf8, encode_scalar, encode_utf8, encode_utf8_decode_utf8,
    has_width_1_encoding, has_width_2_encoding, has_width_3_encoding, is_scalar,
    leading_byte_width_1, leading_byte_width_2, leading_byte_width_3, leading_byte_width_4,
    last_continuation_byte, second_last_continuation_byte, third_last_continuation_byte,
    valid_utf8};

verus! {

/// The UTF-8 encoding of a non-null scalar has no null byte.
proof fn lemma_encode_scalar_no_null(v: u32)
    requires
        is_scalar(v),
        v != 0,
    ensures
        forall|i: int| 0 <= i < encode_scalar(v).len() ==> encode_scalar(v)[i] != 0,
{
    if has_width_1_encoding(v) {
        assert((v & 0x7F) != 0 && (v & 0x7F) < 0x100) by (bit_vector)
            requires
                v <= 0x7F && v != 0,
        ;
        assert(encode_scalar(v)[0] == leading_byte_width_1(v));
    } else if has_width_2_encoding(v) {
        let x: u8 = ((v >> 6) & 0x1F) as u8;
        let y: u8 = (v & 0x3F) as u8;
        assert((0xC0u8 | x) != 0) by (bit_vector);
        assert((0x80u8 | y) != 0) by (bit_vector);
        assert(encode_scalar(v)[0] == leading_byte_width_2(v));
        assert(encode_scalar(v)[1] == last_continuation_byte(v));
    } else if has_width_3_encoding(v) {
        let x: u8 = ((v >> 12) & 0x0F) as u8;
        let y: u8 = ((v >> 6) & 0x3F) as u8;
        let z: u8 = (v & 0x3F) as u8;
        assert((0xE0u8 | x) != 0) by (bit_vector);
        assert((0x80u8 | y) != 0) by (bit_vector);
        assert((0x80u8 | z) != 0) by (bit_vector);
        assert(encode_scalar(v)[0] == leading_byte_width_3(v));
        assert(encode_scalar(v)[1] == second_last_continuation_byte(v));
        assert(encode_scalar(v)[2] == last_continuation_byte(v));
    } else {
        let w: u8 = ((v >> 18) & 0x7) as u8;
        let x: u8 = ((v >> 12) & 0x3F) as u8;
        let y: u8 = ((v >> 6) & 0x3F) as u8;
        let z: u8 = (v & 0x3F) as u8;
        assert((0xF0u8 | w) != 0) by (bit_vector);
        assert((0x80u8 | x) != 0) by (bit_vector);
        assert((0x80u8 | y) != 0) by (bit_vector);
        assert((0x80u8 | z) != 0) by (bit_vector);
        assert(encode_scalar(v)[0] == leading_byte_width_4(v));
        assert(encode_scalar(v)[1] == third_last_continuation_byte(v));
        assert(encode_scalar(v)[2] == second_last_continuation_byte(v));
        assert(encode_scalar(v)[3] == last_continuation_byte(v));
    }
}

/// The UTF-8 encoding of a string without null characters has no null
/// byte.
pub proof fn lemma_encode_utf8_no_null(s: Seq<char>)
    requires
        !s.contains('\0'),
    ensures
        !encode_utf8(s).contains(0u8),
    decreases s.len(),
{
    if s.len() > 0 {
        char_is_scalar(s[0]);
        assert(s[0] != '\0');
        assert(s[0] as u32 != 0) by {
            if s[0] as u32 == 0 {
                vstd::utf8::char_u32_cast(s[0], 0u32);
                assert(s[0] == (0u32 as char));
            }
        }
        lemma_encode_scalar_no_null(s[0] as u32);
        assert(!s.drop_first().contains('\0')) by {
            if s.drop_first().contains('\0') {
                let j = choose|j: int|
                    0 <= j < s.drop_first().len() && s.drop_first()[j] == '\0';
                assert(s[j + 1] == '\0');
                assert(s.contains('\0'));
            }
        }
        lemma_encode_utf8_no_null(s.drop_first());
        let head = encode_scalar(s[0] as u32);
        let tail = encode_utf8(s.drop_first());
        assert(!(head + tail).contains(0u8)) by {
            if (head + tail).contains(0u8) {
                let i = choose|i: int| 0 <= i < (head + tail).len() && (head + tail)[i] == 0u8;
                if i < head.len() {
                    assert(head[i] == 0u8);
                } else {
                    assert(tail[i - head.len()] == 0u8);
                    assert(tail.contains(0u8));
                }
            }
        }
    }
}

/// Splitting `a ++ [0] ++ b` at null bytes, where `a` has none, yields
/// `a` and then the pieces of `b`.
pub proof fn lemma_split_nulls_chunk(a: Seq<u8>, b: Seq<u8>)
    requires
        !a.contains(0u8),
    ensures
        spec_split_nulls(a + seq![0u8] + b) == seq![a] + spec_split_nulls(b),
    decreases a.len(),
{
    if a.len() == 0 {
        assert((a + seq![0u8] + b)[0] == 0u8);
        assert((a + seq![0u8] + b).drop_first() =~= b);
        assert(spec_split_nulls(a + seq![0u8] + b) =~~= seq![a] + spec_split_nulls(b));
    } else {
        let s = a + seq![0u8] + b;
        assert(s[0] == a[0]);
        assert(a[0] != 0u8) by {
            if a[0] == 0u8 {
                assert(a.contains(0u8));
            }
        }
        assert(s.drop_first() =~= a.drop_first() + seq![0u8] + b);
        assert(!a.drop_first().contains(0u8)) by {
            if a.drop_first().contains(0u8) {
                let j = choose|j: int|
                    0 <= j < a.drop_first().len() && a.drop_first()[j] == 0u8;
                assert(a[j + 1] == 0u8);
                assert(a.contains(0u8));
            }
        }
        lemma_split_nulls_chunk(a.drop_first(), b);
        lemma_split_nulls_len(b);
        assert(spec_split_nulls(s) =~~= seq![a] + spec_split_nulls(b));
    }
}

/// A string literal of plain letters contains no null character.
proof fn lemma_keyword_no_null(s: Seq<char>)
    requires
        forall|i: int| 0 <= i < s.len() ==> s[i] != '\0',
    ensures
        !s.contains('\0'),
{
}

/// Round trip of the startup frame: for a `user` and `database` without
/// null characters, the encoding carries no tag, its length field counts
/// the payload plus four, the payload follows it exactly, and splitting
/// the parameter region at null bytes recovers the `user` key, the user,
/// the `database` key, the database, and the two empty terminator pieces
/// — with each value's bytes decoding back to the characters they came
/// from.
pub proof fn lemma_startup_roundtrip(user: Seq<char>, database: Seq<char>)
    requires
        !user.contains('\0'),
        !database.contains('\0'),
    ensures
        ({
            let p = spec_startup_payload(user, database);
            let e = spec_frame(None, p);
            &&& e.len() == p.len() + 4
            &&& e.skip(4) == p
            &&& p.len() + 4 <= u32::MAX ==> spec_be32_val(e.take(4)) == p.len() + 4
            &&& spec_split_nulls(p.skip(4)) == seq![
                encode_utf8("user"@),
                encode_utf8(user),
                encode_utf8("database"@),
                encode_utf8(database),
                Seq::<u8>::empty(),
                Seq::<u8>::empty(),
            ]
            &&& decode_utf8(encode_utf8(user)) == user
            &&& decode_utf8(encode_utf8(database)) == database
        }),
{
    let p = spec_startup_payload(user, database);
    let e = spec_frame(None, p);
    lemma_be32_roundtrip((p.len() + 4) as u32);
    assert(e.skip(4) =~= p);
    assert(e.take(4) =~= spec_be32((p.len() + 4) as u32));

    reveal_strlit("user");
    reveal_strlit("database");
    let ku = "user"@;
    let kd = "database"@;
    lemma_keyword_no_null(ku);
    lemma_keyword_no_null(kd);
    lemma_encode_utf8_no_null(ku);
    lemma_encode_utf8_no_null(kd);
    lemma_encode_utf8_no_null(user);
    lemma_encode_utf8_no_null(database);

    let a = encode_utf8(ku);
    let u = encode_utf8(user);
    let b = encode_utf8(kd);
    let d = encode_utf8(database);
    let t4 = seq![0u8];
    let t3 = d + seq![0u8] + t4;
    let t2 = b + seq![0u8] + t3;
    let t1 = u + seq![0u8] + t2;
    assert(p.skip(4) =~= a + seq![0u8] + t1);
    lemma_split_nulls_chunk(a, t1);
    lemma_split_nulls_chunk(u, t2);
    lemma_split_nulls_chunk(b, t3);
    lemma_split_nulls_chunk(d, t4);
    assert(spec_split_nulls(t4) =~~= seq![Seq::<u8>::empty(), Seq::<u8>::empty()]) by {
        assert(t4[0] == 0u8);
        assert(t4.drop_first() =~= Seq::<u8>::empty());
        assert(spec_split_nulls(Seq::<u8>::empty()) == seq![Seq::<u8>::empty()]);
        assert(spec_split_nulls(t4) == seq![Seq::<u8>::empty()] + spec_split_nulls(
            Seq::<u8>::empty(),
        ));
    }
    assert(spec_split_nulls(p.skip(4)) =~~= seq![
        a,
        u,
        b,
        d,
        Seq::<u8>::empty(),
        Seq::<u8>::empty(),
    ]);

    encode_utf8_decode_utf8(user);
    encode_utf8_decode_utf8(database);
}

/// Length invariant of every encoding: after the optional tag byte, the
/// length field counts the payload plus its own four bytes, and exactly
/// the payload follows it.
pub proof fn lemma_encoded_length(m: FrontendMessage)
    ensures
        ({
            let p = spec_payload(m);
            let e = spec_encode(m);
            let off: int = if spec_tag(m) is Some {
                1
            } else {
                0
            };
            &&& e.len() == off + 4 + p.len()
            &&& e.skip(off + 4) == p
            &&& p.len() + 4 <= u32::MAX ==> spec_be32_val(e.subrange(off, off + 4)) == p.len() + 4
        }),
{
    let p = spec_payload(m);
    let e = spec_encode(m);
    let off: int = if spec_tag(m) is Some {
        1
    } else {
        0
    };
    lemma_be32_roundtrip((p.len() + 4) as u32);
    assert(e.skip(off + 4) =~= p);
    assert(e.subrange(off, off + 4) =~= spec_be32((p.len() + 4) as u32));
}

/// Unknown-tag safety: a tag the client does not handle decodes to
/// `Unknown` with the raw tag and payload, for any length and payload.
pub proof fn lemma_unknown_tag_safe(tag: u8, length: u32, payload: Seq<u8>)
    requires
        tag != TAG_AUTHENTICATION,
        tag != TAG_ERROR_RESPONSE,
        tag != TAG_BACKEND_KEY_DATA,
        tag != TAG_READY_FOR_QUERY,
        tag != TAG_PARAMETER_STATUS,
    ensures
        spec_decode(tag, length, payload) == Ok::<BackendMessageModel, ReadMessageError>(
            BackendMessageModel::Unknown { prefix: tag as char, payload },
        ),
{
}

/// The status mapping of `ReadyForQuery`: `I` is idle, `T` in a
/// transaction, `E` in a failed transaction, and any other status byte is
/// a parse error.
pub proof fn lemma_status_mapping(b: u8)
    ensures
        b == 73 ==> spec_decode(TAG_READY_FOR_QUERY, 5, seq![b]) == Ok::<
            BackendMessageModel,
            ReadMessageError,
        >(BackendMessageModel::ReadyForQuery { status: ReadyForQueryStatus::Idle }),
        b == 84 ==> spec_decode(TAG_READY_FOR_QUERY, 5, seq![b]) == Ok::<
            BackendMessageModel,
            ReadMessageError,
        >(BackendMessageModel::ReadyForQuery { status: ReadyForQueryStatus::Transaction }),
        b == 69 ==> spec_decode(TAG_READY_FOR_QUERY, 5, seq![b]) == Ok::<
            BackendMessageModel,
            ReadMessageError,
        >(BackendMessageModel::ReadyForQuery { status: ReadyForQueryStatus::FailedTransaction }),
        b != 73 && b != 84 && b != 69 ==> spec_decode(TAG_READY_FOR_QUERY, 5, seq![b]) == Err::<
            BackendMessageModel,
            ReadMessageError,
        >(ReadMessageError::ParseError),
{
}

/// Malformed UTF-8 in an error response is a parse error, never a panic
/// or a silently wrong value.
pub proof fn lemma_malformed_utf8_error_response(length: u32, payload: Seq<u8>)
    requires
        payload.len() >= 2,
        !spec_records_valid(spec_split_nulls(payload.take(payload.len() - 2))),
    ensures
        spec_decode(TAG_ERROR_RESPONSE, length, payload) == Err::<
            BackendMessageModel,
            ReadMessageError,
        >(ReadMessageError::ParseError),
{
}

/// Malformed UTF-8 in a SASL mechanism list is a parse error.
pub proof fn lemma_malformed_utf8_sasl(length: u32, payload: Seq<u8>)
    requires
        payload.len() >= 6,
        payload.take(4) == seq![0u8, 0u8, 0u8, 10u8],
        !spec_records_valid(spec_split_nulls(payload.subrange(4, payload.len() - 2))),
    ensures
        spec_decode(TAG_AUTHENTICATION, length, payload) == Err::<
            BackendMessageModel,
            ReadMessageError,
        >(ReadMessageError::ParseError),
{
    assert(payload.take(4)[3] == payload[3]);
    assert(payload[3] == 10u8);
}

/// Malformed UTF-8 in either field of a parameter status is a parse
/// error.
pub proof fn lemma_malformed_utf8_parameter_status(length: u32, payload: Seq<u8>, i: int)
    requires
        spec_find_null(payload) == Some(i),
        i < payload.len() - 1,
        !valid_utf8(payload.take(i)) || !valid_utf8(
            payload.subrange(i + 1, payload.len() - 1),
        ),
    ensures
        spec_decode(TAG_PARAMETER_STATUS, length, payload) == Err::<
            BackendMessageModel,
            ReadMessageError,
        >(ReadMessageError::ParseError),
{
}

} // verus!
