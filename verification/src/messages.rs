//! The message and error types of the protocol, and their mathematical
//! models.
//!
//! Exec types hold `String` and `Vec` values; each backend message has a
//! model (`BackendMessageModel`) over `Seq`, which the codec's contracts
//! speak about.

use vstd::prelude::*;

verus! {

/// Connection parameters for one session.  Loading them (from the
/// environment or elsewhere) is the caller's business; the library only
/// consumes the plain values.
pub struct Config {
    pub host: String,
    pub port: u16,
    pub user: String,
    pub database: String,
    pub password: String,
}

/// A message sent from client to server.  `RequestSSL` and
/// `StartupMessage` belong to the untagged startup phase; the other two
/// carry a one-byte tag.
#[derive(Debug, PartialEq)]
pub enum FrontendMessage {
    RequestSSL,
    StartupMessage { user: String, database: String },
    PasswordMessage { password: String },
    SimpleQuery { query: String },
}

/// The transaction status byte of a `ReadyForQuery` message.
#[derive(Debug, Clone, Copy, PartialEq, Eq)]
pub enum ReadyForQueryStatus {
    Idle,
    Transaction,
    FailedTransaction,
}

/// The known single-character field codes of an `ErrorResponse` record.
/// An unrecognized code degrades to `Unknown` and never fails the parse.
#[derive(Debug, Clone, Copy, PartialEq, Eq, Hash)]
pub enum ErrorField {
    LocalizedSeverity,
    Severity,
    Code,
    Message,
    Detail,
    Hint,
    Position,
    InternalPosition,
    InternalQuery,
    Where,
    SchemaName,
    TableName,
    ColumnName,
    DataTypeName,
    ConstraintName,
    File,
    Line,
    Routine,
    Unknown(char),
}

/// A message decoded from a tagged server frame.  `Unknown` preserves
/// frames whose tag the client does not handle.
#[derive(Debug, PartialEq)]
pub enum BackendMessage {
    AuthenticationOk,
    AuthenticationCleartextPassword,
    AuthenticationSasl { mechanisms: Vec<String> },
    ErrorResponse(Vec<(ErrorField, String)>),
    BackendKeyData { process_id: u32, secret_key: i32 },
    ReadyForQuery { status: ReadyForQueryStatus },
    ParameterStatus { name: String, value: String },
    Unknown { prefix: char, payload: Vec<u8> },
}

/// The failure modes of reading one backend message: a transport failure,
/// or a frame whose bytes do not parse.  The decoder itself only ever
/// reports `ParseError`; `IoError` is for the caller that reads the bytes.
#[derive(Debug, Clone, Copy, PartialEq, Eq)]
pub enum ReadMessageError {
    IoError,
    ParseError,
}

/// The mathematical model of a backend message: the same shape as
/// `BackendMessage`, with every `String` a `Seq<char>` and every `Vec` a
/// `Seq`.
pub enum BackendMessageModel {
    AuthenticationOk,
    AuthenticationCleartextPassword,
    AuthenticationSasl { mechanisms: Seq<Seq<char>> },
    ErrorResponse { fields: Seq<(ErrorField, Seq<char>)> },
    BackendKeyData { process_id: u32, secret_key: i32 },
    ReadyForQuery { status: ReadyForQueryStatus },
    ParameterStatus { name: Seq<char>, value: Seq<char> },
    Unknown { prefix: char, payload: Seq<u8> },
}

impl View for BackendMessage {
    type V = BackendMessageModel;

    open spec fn view(&self) -> BackendMessageModel {
        match self {
            BackendMessage::AuthenticationOk => BackendMessageModel::AuthenticationOk,
            BackendMessage::AuthenticationCleartextPassword => BackendMessageModel::AuthenticationCleartextPassword,
            BackendMessage::AuthenticationSasl { mechanisms } => BackendMessageModel::AuthenticationSasl {
                mechanisms: mechanisms.deep_view(),
            },
            BackendMessage::ErrorResponse(fields) => BackendMessageModel::ErrorResponse {
                fields: fields@.map_values(|p: (ErrorField, String)| (p.0, p.1@)),
            },
            BackendMessage::BackendKeyData { process_id, secret_key } => BackendMessageModel::BackendKeyData {
                process_id: *process_id,
                secret_key: *secret_key,
            },
            BackendMessage::ReadyForQuery { status } => BackendMessageModel::ReadyForQuery { status: *status },
            BackendMessage::ParameterStatus { name, value } => BackendMessageModel::ParameterStatus {
                name: name@,
                value: value@,
            },
            BackendMessage::Unknown { prefix, payload } => BackendMessageModel::Unknown {
                prefix: *prefix,
                payload: payload@,
            },
        }
    }
}

} // verus!
