//! The connection driver's decision logic.
//!
//! A session sends the SSL request, checks the one-byte ack, upgrades the
//! transport, sends the startup message, and then loops: decode one
//! backend message, take one step.  The stepping itself is pure — from
//! the "query already sent" flag and the decoded message it yields the
//! new flag and one action for the caller, which owns the stream and
//! performs the action.

use vstd::prelude::*;

use crate::messages::{BackendMessage, BackendMessageModel, ReadyForQueryStatus};

verus! {

/// The ack byte with which the server accepts the SSL request (ASCII `S`).
pub const SSL_ACK: u8 = 83;

/// What the driver does after reading one backend message.
#[derive(Debug, Clone, Copy, PartialEq, Eq)]
pub enum DriverAction {
    /// Answer a cleartext-password challenge with the password message.
    SendPassword,
    /// The server is idle for the first time: send the query.
    SendQuery,
    /// The server is idle again after the query: the session is complete.
    Finish,
    /// The message carries nothing to act on: keep reading.
    Continue,
}

/// One step of the login/query state machine: from the "query already
/// sent" flag and one backend message to the new flag and the action.
/// Only a cleartext-password challenge and an idle `ReadyForQuery` drive
/// the session; every other message is observed and skipped.
pub open spec fn spec_step(query_sent: bool, m: BackendMessageModel) -> (bool, DriverAction) {
    match m {
        BackendMessageModel::AuthenticationCleartextPassword => (
            query_sent,
            DriverAction::SendPassword,
        ),
        BackendMessageModel::ReadyForQuery { status: ReadyForQueryStatus::Idle } => if !query_sent {
            (true, DriverAction::SendQuery)
        } else {
            (query_sent, DriverAction::Finish)
        },
        _ => (query_sent, DriverAction::Continue),
    }
}

/// Executes one step of the state machine; exactly `spec_step`.
pub fn driver_step(query_sent: bool, msg: &BackendMessage) -> (r: (bool, DriverAction))
    ensures
        r == spec_step(query_sent, msg@),
{
    match msg {
        BackendMessage::AuthenticationCleartextPassword => (query_sent, DriverAction::SendPassword),
        BackendMessage::ReadyForQuery { status: ReadyForQueryStatus::Idle } => if !query_sent {
            (true, DriverAction::SendQuery)
        } else {
            (query_sent, DriverAction::Finish)
        },
        _ => (query_sent, DriverAction::Continue),
    }
}

/// Whether the server's one-byte reply to the SSL request accepts the
/// upgrade.  Any byte but the ack is a protocol violation and fatal.
pub fn ssl_ack_accepted(b: u8) -> (r: bool)
    ensures
        r == (b == SSL_ACK),
{
    b == SSL_ACK
}

} // verus!
