//! The per-connection pump's decisions: what to do with each inbound frame.
//!
//! The pump itself lives with the socket: it waits on the socket and on the
//! connection's mailbox, performs the sends, and tears the connection down.
//! What it decides — how a frame is classified, what is relayed, and what is
//! answered on the connection's own mailbox — is here.

use vstd::prelude::*;

use crate::wire::{
    spec_up_json, ClientClientMessage, ClientDownMessage, ClientUpMessage, ServerClientMessage,
};
use crate::registry::SendError;
use crate::Id;

verus! {

/// One inbound event from a connection's socket.
pub enum PumpEvent {
    /// A text frame, as raw bytes.
    Text(Vec<u8>),
    /// A binary, ping, pong or other non-text frame.
    NonText,
    /// The transport reported an error for this frame; the channel stays
    /// open and the next read will observe any closure.
    TransportError,
}

/// What the pump does with one inbound frame.
pub enum PumpAction {
    /// Enqueue a server-originated message into this connection's own
    /// mailbox.
    Reply(ServerClientMessage),
    /// Hand the decoded message to the relay, addressed to `to`.
    Relay { to: Id, msg: ClientClientMessage },
}

/// The reason text `error while receiving websocket message`.
pub open spec fn spec_details_recv_error() -> Seq<u8> {
    seq![0x65u8, 0x72u8, 0x72u8, 0x6fu8, 0x72u8, 0x20u8, 0x77u8, 0x68u8, 0x69u8, 0x6cu8, 0x65u8, 0x20u8, 0x72u8, 0x65u8, 0x63u8, 0x65u8, 0x69u8, 0x76u8, 0x69u8, 0x6eu8, 0x67u8, 0x20u8, 0x77u8, 0x65u8, 0x62u8, 0x73u8, 0x6fu8, 0x63u8, 0x6bu8, 0x65u8, 0x74u8, 0x20u8, 0x6du8, 0x65u8, 0x73u8, 0x73u8, 0x61u8, 0x67u8, 0x65u8]
}

/// Build the reason text `error while receiving websocket message`.
fn details_recv_error() -> (r: Vec<u8>)
    ensures
        r@ == spec_details_recv_error(),
{
    let mut v: Vec<u8> = Vec::new();
    v.push(0x65);
    v.push(0x72);
    v.push(0x72);
    v.push(0x6f);
    v.push(0x72);
    v.push(0x20);
    v.push(0x77);
    v.push(0x68);
    v.push(0x69);
    v.push(0x6c);
    v.push(0x65);
    v.push(0x20);
    v.push(0x72);
    v.push(0x65);
    v.push(0x63);
    v.push(0x65);
    v.push(0x69);
    v.push(0x76);
    v.push(0x69);
    v.push(0x6e);
    v.push(0x67);
    v.push(0x20);
    v.push(0x77);
    v.push(0x65);
    v.push(0x62);
    v.push(0x73);
    v.push(0x6f);
    v.push(0x63);
    v.push(0x6b);
    v.push(0x65);
    v.push(0x74);
    v.push(0x20);
    v.push(0x6d);
    v.push(0x65);
    v.push(0x73);
    v.push(0x73);
    v.push(0x61);
    v.push(0x67);
    v.push(0x65);
    assert(v@ =~= spec_details_recv_error());
    v
}

/// The reason text `unsupported message type, only text messages are supported`.
pub open spec fn spec_details_unsupported() -> Seq<u8> {
    seq![0x75u8, 0x6eu8, 0x73u8, 0x75u8, 0x70u8, 0x70u8, 0x6fu8, 0x72u8, 0x74u8, 0x65u8, 0x64u8, 0x20u8, 0x6du8, 0x65u8, 0x73u8, 0x73u8, 0x61u8, 0x67u8, 0x65u8, 0x20u8, 0x74u8, 0x79u8, 0x70u8, 0x65u8, 0x2cu8, 0x20u8, 0x6fu8, 0x6eu8, 0x6cu8, 0x79u8, 0x20u8, 0x74u8, 0x65u8, 0x78u8, 0x74u8, 0x20u8, 0x6du8, 0x65u8, 0x73u8, 0x73u8, 0x61u8, 0x67u8, 0x65u8, 0x73u8, 0x20u8, 0x61u8, 0x72u8, 0x65u8, 0x20u8, 0x73u8, 0x75u8, 0x70u8, 0x70u8, 0x6fu8, 0x72u8, 0x74u8, 0x65u8, 0x64u8]
}

/// Build the reason text `unsupported message type, only text messages are supported`.
fn details_unsupported() -> (r: Vec<u8>)
    ensures
        r@ == spec_details_unsupported(),
{
    let mut v: Vec<u8> = Vec::new();
    v.push(0x75);
    v.push(0x6e);
    v.push(0x73);
    v.push(0x75);
    v.push(0x70);
    v.push(0x70);
    v.push(0x6f);
    v.push(0x72);
    v.push(0x74);
    v.push(0x65);
    v.push(0x64);
    v.push(0x20);
    v.push(0x6d);
    v.push(0x65);
    v.push(0x73);
    v.push(0x73);
    v.push(0x61);
    v.push(0x67);
    v.push(0x65);
    v.push(0x20);
    v.push(0x74);
    v.push(0x79);
    v.push(0x70);
    v.push(0x65);
    v.push(0x2c);
    v.push(0x20);
    v.push(0x6f);
    v.push(0x6e);
    v.push(0x6c);
    v.push(0x79);
    v.push(0x20);
    v.push(0x74);
    v.push(0x65);
    v.push(0x78);
    v.push(0x74);
    v.push(0x20);
    v.push(0x6d);
    v.push(0x65);
    v.push(0x73);
    v.push(0x73);
    v.push(0x61);
    v.push(0x67);
    v.push(0x65);
    v.push(0x73);
    v.push(0x20);
    v.push(0x61);
    v.push(0x72);
    v.push(0x65);
    v.push(0x20);
    v.push(0x73);
    v.push(0x75);
    v.push(0x70);
    v.push(0x70);
    v.push(0x6f);
    v.push(0x72);
    v.push(0x74);
    v.push(0x65);
    v.push(0x64);
    assert(v@ =~= spec_details_unsupported());
    v
}

/// The reason text `could not deserialize message`.
pub open spec fn spec_details_undecodable() -> Seq<u8> {
    seq![0x63u8, 0x6fu8, 0x75u8, 0x6cu8, 0x64u8, 0x20u8, 0x6eu8, 0x6fu8, 0x74u8, 0x20u8, 0x64u8, 0x65u8, 0x73u8, 0x65u8, 0x72u8, 0x69u8, 0x61u8, 0x6cu8, 0x69u8, 0x7au8, 0x65u8, 0x20u8, 0x6du8, 0x65u8, 0x73u8, 0x73u8, 0x61u8, 0x67u8, 0x65u8]
}

/// Build the reason text `could not deserialize message`.
fn details_undecodable() -> (r: Vec<u8>)
    ensures
        r@ == spec_details_undecodable(),
{
    let mut v: Vec<u8> = Vec::new();
    v.push(0x63);
    v.push(0x6f);
    v.push(0x75);
    v.push(0x6c);
    v.push(0x64);
    v.push(0x20);
    v.push(0x6e);
    v.push(0x6f);
    v.push(0x74);
    v.push(0x20);
    v.push(0x64);
    v.push(0x65);
    v.push(0x73);
    v.push(0x65);
    v.push(0x72);
    v.push(0x69);
    v.push(0x61);
    v.push(0x6c);
    v.push(0x69);
    v.push(0x7a);
    v.push(0x65);
    v.push(0x20);
    v.push(0x6d);
    v.push(0x65);
    v.push(0x73);
    v.push(0x73);
    v.push(0x61);
    v.push(0x67);
    v.push(0x65);
    assert(v@ =~= spec_details_undecodable());
    v
}


/// Classify one inbound frame. Transport and decode problems are answered
/// with an `error` message on the connection's own mailbox and are never
/// fatal; exactly the well-formed messages are relayed.
pub fn handle_frame(event: PumpEvent) -> (r: PumpAction)
    ensures
        event matches PumpEvent::Text(b) ==> match r {
            PumpAction::Relay { to, msg } => b@ == spec_up_json(ClientUpMessage { to, msg }),
            PumpAction::Reply(e) => (forall|m: ClientUpMessage| b@ != #[trigger] spec_up_json(m))
                && (e matches ServerClientMessage::Error { details }
                && details@ == spec_details_undecodable()),
        },
        event is NonText ==> (r matches PumpAction::Reply(
            ServerClientMessage::Error { details },
        ) && details@ == spec_details_unsupported()),
        event is TransportError ==> (r matches PumpAction::Reply(
            ServerClientMessage::Error { details },
        ) && details@ == spec_details_recv_error()),
{
    match event {
        PumpEvent::Text(b) => match ClientUpMessage::deserialize(b.as_slice()) {
            Some(m) => PumpAction::Relay { to: m.to, msg: m.msg },
            None => PumpAction::Reply(
                ServerClientMessage::Error { details: details_undecodable() },
            ),
        },
        PumpEvent::NonText => PumpAction::Reply(
            ServerClientMessage::Error { details: details_unsupported() },
        ),
        PumpEvent::TransportError => PumpAction::Reply(
            ServerClientMessage::Error { details: details_recv_error() },
        ),
    }
}

/// What to tell the sender when a relay failed: an unknown destination is
/// answered with `no_such_id` on the sender's own mailbox; a mailbox that
/// closed between lookup and delivery is only logged.
pub fn relay_failure_reply(e: SendError) -> (r: Option<ServerClientMessage>)
    ensures
        e matches SendError::NoSuchId(id) ==> r == Some(ServerClientMessage::NoSuchId { id }),
        e is DeliveryFailed ==> r is None,
{
    match e {
        SendError::NoSuchId(id) => Some(ServerClientMessage::NoSuchId { id }),
        SendError::DeliveryFailed => None,
    }
}

/// The greeting a connection preloads into its own mailbox before its loop:
/// the first server-originated message every client observes.
pub fn connected_message(id: Id) -> (r: ClientDownMessage)
    ensures
        r == (ClientDownMessage::FromServer { msg: ServerClientMessage::Connected { id } }),
{
    ClientDownMessage::FromServer { msg: ServerClientMessage::Connected { id } }
}

} // verus!
