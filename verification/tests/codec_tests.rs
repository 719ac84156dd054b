use pgclient::codec::{body_length, decode_message};
use pgclient::messages::{BackendMessage, ErrorField, FrontendMessage, ReadMessageError,
    ReadyForQueryStatus};

fn be32(b: &[u8]) -> u32 {
    ((b[0] as u32) << 24) | ((b[1] as u32) << 16) | ((b[2] as u32) << 8) | (b[3] as u32)
}

#[test]
fn encode_ssl_request() {
    let bytes = FrontendMessage::RequestSSL.to_bytes();
    assert_eq!(bytes, vec![0, 0, 0, 9, 4, 210, 22, 47, 0]);
}

#[test]
fn encode_startup_message() {
    let bytes = FrontendMessage::StartupMessage {
        user: "u".to_string(),
        database: "d".to_string(),
    }
    .to_bytes();
    let mut expected: Vec<u8> = vec![0, 0, 0, 27, 0, 3, 0, 0];
    expected.extend(b"user\0u\0database\0d\0\0");
    assert_eq!(bytes, expected);
}

#[test]
fn encode_password_message() {
    let bytes = FrontendMessage::PasswordMessage { password: "secret".to_string() }.to_bytes();
    let mut expected: Vec<u8> = vec![112, 0, 0, 0, 12];
    expected.extend(b"secret\0\0");
    assert_eq!(bytes, expected);
}

#[test]
fn encode_simple_query() {
    let bytes = FrontendMessage::SimpleQuery { query: "SELECT 1;".to_string() }.to_bytes();
    let mut expected: Vec<u8> = vec![81, 0, 0, 0, 14];
    expected.extend(b"SELECT 1;\0");
    assert_eq!(bytes, expected);
}

#[test]
fn encode_startup_non_ascii_user() {
    // A non-ASCII user name travels as its UTF-8 bytes.
    let bytes = FrontendMessage::StartupMessage {
        user: "\u{e9}".to_string(),
        database: "d".to_string(),
    }
    .to_bytes();
    let needle = [b'u', b's', b'e', b'r', 0, 0xC3, 0xA9, 0];
    assert!(bytes.windows(needle.len()).any(|w| w == needle));
}

#[test]
fn encoded_length_field_counts_payload_plus_four() {
    // The length invariant, checked on one message of each shape.
    let untagged = [
        FrontendMessage::RequestSSL.to_bytes(),
        FrontendMessage::StartupMessage {
            user: "alice".to_string(),
            database: "db".to_string(),
        }
        .to_bytes(),
    ];
    for bytes in untagged.iter() {
        assert_eq!(be32(&bytes[0..4]) as usize, bytes.len());
    }
    let tagged = [
        FrontendMessage::PasswordMessage { password: "pw".to_string() }.to_bytes(),
        FrontendMessage::SimpleQuery { query: "SELECT 1;".to_string() }.to_bytes(),
    ];
    for bytes in tagged.iter() {
        assert_eq!(be32(&bytes[1..5]) as usize, bytes.len() - 1);
    }
}

#[test]
fn startup_frame_round_trip() {
    // Splitting the encoded parameter region at null bytes recovers the
    // field boundaries: key, value, key, value, and the two terminators.
    let bytes = FrontendMessage::StartupMessage {
        user: "alice".to_string(),
        database: "mydb".to_string(),
    }
    .to_bytes();
    assert_eq!(be32(&bytes[0..4]) as usize, bytes.len());
    let region = &bytes[8..];
    let pieces: Vec<&[u8]> = region.split(|&b| b == 0).collect();
    let expected: Vec<&[u8]> = vec![b"user", b"alice", b"database", b"mydb", b"", b""];
    assert_eq!(pieces, expected);
}

#[test]
fn decode_authentication_ok() {
    let r = decode_message(82, 8, &[0, 0, 0, 0]);
    assert_eq!(r, Ok(BackendMessage::AuthenticationOk));
}

#[test]
fn decode_authentication_cleartext_password() {
    let r = decode_message(82, 8, &[0, 0, 0, 3]);
    assert_eq!(r, Ok(BackendMessage::AuthenticationCleartextPassword));
}

#[test]
fn decode_authentication_sasl() {
    let mut payload: Vec<u8> = vec![0, 0, 0, 10];
    payload.extend(b"SCRAM-SHA-256\0SCRAM-SHA-256-PLUS");
    payload.extend(&[0, 0]);
    let r = decode_message(82, payload.len() as u32 + 4, &payload);
    assert_eq!(
        r,
        Ok(BackendMessage::AuthenticationSasl {
            mechanisms: vec!["SCRAM-SHA-256".to_string(), "SCRAM-SHA-256-PLUS".to_string()],
        })
    );
}

#[test]
fn decode_error_response_fields() {
    let payload = b"Sfatal\0Ccode\0\0";
    let r = decode_message(69, payload.len() as u32 + 4, payload);
    assert_eq!(
        r,
        Ok(BackendMessage::ErrorResponse(vec![
            (ErrorField::LocalizedSeverity, "fatal".to_string()),
            (ErrorField::Code, "code".to_string()),
        ]))
    );
}

#[test]
fn decode_error_response_unknown_code() {
    // An unrecognized field code degrades to Unknown, not a failure.
    let payload = b"Xwhat\0\0";
    let r = decode_message(69, payload.len() as u32 + 4, payload);
    assert_eq!(
        r,
        Ok(BackendMessage::ErrorResponse(vec![(ErrorField::Unknown('X'), "what".to_string())]))
    );
}

#[test]
fn decode_error_response_empty_record() {
    let payload = &[0u8, 0u8];
    let r = decode_message(69, payload.len() as u32 + 4, payload);
    assert_eq!(
        r,
        Ok(BackendMessage::ErrorResponse(vec![(ErrorField::Unknown('\0'), String::new())]))
    );
}

#[test]
fn decode_backend_key_data() {
    let payload = &[0, 0, 4, 210, 255, 255, 255, 255];
    let r = decode_message(75, 12, payload);
    assert_eq!(r, Ok(BackendMessage::BackendKeyData { process_id: 1234, secret_key: -1 }));
}

#[test]
fn decode_ready_for_query_statuses() {
    let idle = decode_message(90, 5, &[73]);
    assert_eq!(idle, Ok(BackendMessage::ReadyForQuery { status: ReadyForQueryStatus::Idle }));
    let tx = decode_message(90, 5, &[84]);
    assert_eq!(tx, Ok(BackendMessage::ReadyForQuery { status: ReadyForQueryStatus::Transaction }));
    let failed = decode_message(90, 5, &[69]);
    assert_eq!(
        failed,
        Ok(BackendMessage::ReadyForQuery { status: ReadyForQueryStatus::FailedTransaction })
    );
}

#[test]
fn decode_ready_for_query_bad_status() {
    let r = decode_message(90, 5, &[88]);
    assert_eq!(r, Err(ReadMessageError::ParseError));
}

#[test]
fn decode_parameter_status() {
    let payload = b"server_version\x0016.2\0";
    let r = decode_message(83, payload.len() as u32 + 4, payload);
    assert_eq!(
        r,
        Ok(BackendMessage::ParameterStatus {
            name: "server_version".to_string(),
            value: "16.2".to_string(),
        })
    );
}

#[test]
fn decode_parameter_status_missing_null() {
    let payload = b"no-null-here";
    let r = decode_message(83, payload.len() as u32 + 4, payload);
    assert_eq!(r, Err(ReadMessageError::ParseError));
}

#[test]
fn decode_parameter_status_null_at_end() {
    let payload = &[65u8, 0u8];
    let r = decode_message(83, payload.len() as u32 + 4, payload);
    assert_eq!(r, Err(ReadMessageError::ParseError));
}

#[test]
fn decode_unknown_tag_preserves_payload() {
    // 78 is ASCII N (a notice), a tag the client does not handle.
    let payload = &[1u8, 2u8, 0xFF, 4u8];
    let r = decode_message(78, 8, payload);
    assert_eq!(r, Ok(BackendMessage::Unknown { prefix: 'N', payload: payload.to_vec() }));
}

#[test]
fn decode_parameter_status_value_keeps_inner_nulls() {
    // Only the first null ends the name; the value keeps any null bytes
    // before its own trailing terminator.
    let payload = b"a\0b\0c\0";
    let r = decode_message(83, payload.len() as u32 + 4, payload);
    assert_eq!(
        r,
        Ok(BackendMessage::ParameterStatus {
            name: "a".to_string(),
            value: "b\0c".to_string(),
        })
    );
}

#[test]
fn decode_key_data_with_wrong_length_is_unknown() {
    // Tag K dispatches only at length 12; any other length falls through.
    let payload = &[1u8, 2u8, 3u8, 4u8, 5u8];
    let r = decode_message(75, 9, payload);
    assert_eq!(r, Ok(BackendMessage::Unknown { prefix: 'K', payload: payload.to_vec() }));
}

#[test]
fn decode_unrecognized_auth_code_is_unknown() {
    // Tag R with an authentication code the client does not know.
    let payload = &[0u8, 0u8, 0u8, 5u8];
    let r = decode_message(82, 8, payload);
    assert_eq!(r, Ok(BackendMessage::Unknown { prefix: 'R', payload: payload.to_vec() }));
}

#[test]
fn decode_malformed_utf8_parameter_status() {
    let payload = &[0xFFu8, 0u8, 65u8, 0u8];
    let r = decode_message(83, payload.len() as u32 + 4, payload);
    assert_eq!(r, Err(ReadMessageError::ParseError));
}

#[test]
fn decode_malformed_utf8_error_response() {
    let payload = &[0xC3u8, 0x28u8, 0u8, 0u8];
    let r = decode_message(69, payload.len() as u32 + 4, payload);
    assert_eq!(r, Err(ReadMessageError::ParseError));
}

#[test]
fn decode_malformed_utf8_sasl() {
    let payload = &[0u8, 0u8, 0u8, 10u8, 0xFEu8, 0xFEu8, 0u8, 0u8];
    let r = decode_message(82, payload.len() as u32 + 4, payload);
    assert_eq!(r, Err(ReadMessageError::ParseError));
}

#[test]
fn decode_is_a_function_of_the_triple() {
    let payload = b"Sfatal\0Ccode\0\0";
    let first = decode_message(69, payload.len() as u32 + 4, payload);
    let second = decode_message(69, payload.len() as u32 + 4, payload);
    assert_eq!(first, second);
}

#[test]
fn body_length_checks_header() {
    assert_eq!(body_length(3), Err(ReadMessageError::ParseError));
    assert_eq!(body_length(4), Ok(0));
    assert_eq!(body_length(12), Ok(8));
}
