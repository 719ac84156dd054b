use pgclient::codec::decode_message;
use pgclient::driver::{driver_step, ssl_ack_accepted, DriverAction};
use pgclient::messages::{BackendMessage, FrontendMessage, ReadyForQueryStatus};

#[test]
fn ssl_ack_byte() {
    assert!(ssl_ack_accepted(b'S'));
    assert!(!ssl_ack_accepted(b'N'));
    assert!(!ssl_ack_accepted(0));
}

#[test]
fn step_password_challenge() {
    let (sent, action) = driver_step(false, &BackendMessage::AuthenticationCleartextPassword);
    assert!(!sent);
    assert_eq!(action, DriverAction::SendPassword);
}

#[test]
fn step_first_idle_sends_query() {
    let msg = BackendMessage::ReadyForQuery { status: ReadyForQueryStatus::Idle };
    let (sent, action) = driver_step(false, &msg);
    assert!(sent);
    assert_eq!(action, DriverAction::SendQuery);
}

#[test]
fn step_second_idle_finishes() {
    let msg = BackendMessage::ReadyForQuery { status: ReadyForQueryStatus::Idle };
    let (sent, action) = driver_step(true, &msg);
    assert!(sent);
    assert_eq!(action, DriverAction::Finish);
}

#[test]
fn step_inert_messages_continue() {
    let inert = [
        BackendMessage::AuthenticationOk,
        BackendMessage::AuthenticationSasl { mechanisms: vec!["SCRAM-SHA-256".to_string()] },
        BackendMessage::BackendKeyData { process_id: 7, secret_key: 9 },
        BackendMessage::ReadyForQuery { status: ReadyForQueryStatus::Transaction },
        BackendMessage::ReadyForQuery { status: ReadyForQueryStatus::FailedTransaction },
        BackendMessage::ParameterStatus { name: "a".to_string(), value: "b".to_string() },
        BackendMessage::Unknown { prefix: 'N', payload: vec![1, 2, 3] },
        BackendMessage::ErrorResponse(vec![]),
    ];
    for msg in inert.iter() {
        let (sent, action) = driver_step(false, msg);
        assert!(!sent);
        assert_eq!(action, DriverAction::Continue);
    }
}

/// One reply of the mock server: the frames it sends after each client
/// message, as raw `(tag, payload)` pairs.
fn mock_reply(client_msg: &FrontendMessage) -> Vec<(u8, Vec<u8>)> {
    match client_msg {
        FrontendMessage::RequestSSL => vec![],
        FrontendMessage::StartupMessage { .. } => vec![(82, vec![0, 0, 0, 3])],
        FrontendMessage::PasswordMessage { .. } => {
            vec![(82, vec![0, 0, 0, 0]), (90, vec![73])]
        }
        FrontendMessage::SimpleQuery { .. } => vec![(90, vec![73])],
    }
}

#[test]
fn full_session_against_mock_server() {
    // The mock server acks the SSL request, challenges the startup with a
    // cleartext-password request, then acknowledges the password and goes
    // idle, and goes idle again after the query.  The driver must send
    // exactly RequestSSL, StartupMessage, PasswordMessage, SimpleQuery in
    // that order and terminate successfully.
    let mut sent: Vec<FrontendMessage> = Vec::new();
    let mut inbox: Vec<(u8, Vec<u8>)> = Vec::new();

    let request_ssl = FrontendMessage::RequestSSL;
    inbox.extend(mock_reply(&request_ssl));
    sent.push(request_ssl);
    let ack = b'S';
    assert!(ssl_ack_accepted(ack));

    let startup = FrontendMessage::StartupMessage {
        user: "alice".to_string(),
        database: "mydb".to_string(),
    };
    inbox.extend(mock_reply(&startup));
    sent.push(startup);

    let mut query_sent = false;
    let mut finished = false;
    while !finished {
        assert!(!inbox.is_empty(), "driver kept reading after the mock server went quiet");
        let (tag, payload) = inbox.remove(0);
        let msg = decode_message(tag, payload.len() as u32 + 4, &payload)
            .expect("mock server sent an undecodable frame");
        let (now_sent, action) = driver_step(query_sent, &msg);
        query_sent = now_sent;
        match action {
            DriverAction::SendPassword => {
                let pw = FrontendMessage::PasswordMessage { password: "pw".to_string() };
                inbox.extend(mock_reply(&pw));
                sent.push(pw);
            }
            DriverAction::SendQuery => {
                let q = FrontendMessage::SimpleQuery {
                    query: "SELECT * FROM my_table LIMIT 3;".to_string(),
                };
                inbox.extend(mock_reply(&q));
                sent.push(q);
            }
            DriverAction::Finish => {
                finished = true;
            }
            DriverAction::Continue => {}
        }
    }

    let expected = vec![
        FrontendMessage::RequestSSL,
        FrontendMessage::StartupMessage {
            user: "alice".to_string(),
            database: "mydb".to_string(),
        },
        FrontendMessage::PasswordMessage { password: "pw".to_string() },
        FrontendMessage::SimpleQuery { query: "SELECT * FROM my_table LIMIT 3;".to_string() },
    ];
    assert_eq!(sent, expected);
}
