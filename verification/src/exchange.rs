//! The client's exchange engine: the per-peer state machines that drive the
//! ping protocol (request, decision, ping, acknowledgment) through the relay.
//!
//! The engine is pure decision logic: it takes a parsed inbound message or a
//! user action, updates the exchange state, and hands back at most one
//! message to send and an event to report. The caller owns the socket.

use vstd::hash_map::HashMapWithView;
use vstd::prelude::*;

use crate::crypto::{
    spec_decrypted_info, spec_envelope_authentic, spec_is_encryption_of, x25519_public,
    x25519_shared, EphemeralSecret, PingInfo, PublicKey, SharedKey,
};
use crate::wire::{ClientClientMessage, ClientDownMessage, ClientUpMessage, ServerClientMessage};
use crate::Id;

verus! {

/// An incoming exchange with one peer: waiting on this user's decision, or
/// on the encrypted ping itself.
#[derive(Clone, Copy)]
pub enum IncomingExchange {
    Deciding(PublicKey),
    AwaitingPing(SharedKey),
}

/// The one outgoing exchange: none, waiting for the remote decision, or
/// waiting for the remote acknowledgment. At most one exists at any time.
pub enum OutgoingExchange {
    Idle,
    AwaitingDecision(Id, PingInfo, EphemeralSecret),
    AwaitingAck(Id),
}

impl OutgoingExchange {
    /// Whether no outgoing exchange is underway.
    pub fn is_none(&self) -> (r: bool)
        ensures
            r == (self is Idle),
    {
        match self {
            OutgoingExchange::Idle => true,
            _ => false,
        }
    }
}

/// A user decision that does not fit the exchange's current state; nothing
/// changes.
#[derive(Debug, Clone, Copy, PartialEq, Eq, Structural)]
pub enum ProtocolError {
    /// No ongoing exchange with that peer.
    NoExchange,
    /// The exchange with that peer is not awaiting a decision.
    NotDeciding,
}

/// What an inbound message meant, for the caller to report.
pub enum ExchangeEvent {
    /// A peer asks to send a ping: answer with `accept_ping` or `reject_ping`.
    PromptDecision { from: Id },
    /// The outgoing ping was encrypted and is in the reply.
    PingSent { to: Id },
    /// The peer's ping, decrypted; the acknowledgment is in the reply.
    PingDelivered { from: Id, info: PingInfo },
    /// The peer's ping did not decrypt; the exchange is dropped.
    DecryptFailed { from: Id },
    /// The peer rejected the outgoing ping.
    Rejected { by: Id },
    /// The peer acknowledged the outgoing ping.
    Acknowledged { by: Id },
    /// The server reported an unknown destination; the outgoing ping stops.
    Stopped { id: Id },
    /// A message that does not fit the current state; nothing changed.
    Unexpected { from: Id },
    /// Nothing to report.
    Nothing,
}

/// What handling one inbound message produced: at most one message to send
/// back through the relay, and the event to report.
pub struct HandleOutcome {
    pub reply: Option<ClientUpMessage>,
    pub event: ExchangeEvent,
}

/// One client's exchange state: the single outgoing exchange and the
/// incoming exchange per peer ID.
pub struct Connection {
    outgoing: OutgoingExchange,
    incoming: HashMapWithView<u16, IncomingExchange>,
}

/// The exchange state is untouched.
pub open spec fn spec_unchanged(
    pre_out: OutgoingExchange,
    pre_in: Map<u16, IncomingExchange>,
    post_out: OutgoingExchange,
    post_in: Map<u16, IncomingExchange>,
) -> bool {
    post_out == pre_out && post_in == pre_in
}

/// Nothing sent, the message reported as unexpected, nothing changed.
pub open spec fn spec_ignored(
    pre_out: OutgoingExchange,
    pre_in: Map<u16, IncomingExchange>,
    from: Id,
    post_out: OutgoingExchange,
    post_in: Map<u16, IncomingExchange>,
    r: HandleOutcome,
) -> bool {
    &&& spec_unchanged(pre_out, pre_in, post_out, post_in)
    &&& r.reply is None
    &&& r.event == (ExchangeEvent::Unexpected { from })
}

/// The transition table of the exchange engine: how one inbound message
/// moves the state from (`pre_out`, `pre_in`) to (`post_out`, `post_in`) and
/// what is sent and reported.
pub open spec fn spec_transition(
    pre_out: OutgoingExchange,
    pre_in: Map<u16, IncomingExchange>,
    msg: ClientDownMessage,
    post_out: OutgoingExchange,
    post_in: Map<u16, IncomingExchange>,
    r: HandleOutcome,
) -> bool {
    match msg {
        ClientDownMessage::FromClient { from, msg: cm } => match cm {
            ClientClientMessage::PingRequest { key } => {
                &&& post_in == pre_in.insert(from.0, IncomingExchange::Deciding(key))
                &&& post_out == pre_out
                &&& r.reply is None
                &&& r.event == (ExchangeEvent::PromptDecision { from })
            },
            ClientClientMessage::AcceptPing { key } => match pre_out {
                OutgoingExchange::AwaitingDecision(id, info, sec) => if id == from {
                    &&& post_out == OutgoingExchange::AwaitingAck(id)
                    &&& post_in == pre_in
                    &&& r.reply matches Some(um) && um.to == from && (
                    um.msg matches ClientClientMessage::Ping { info: env }
                        && spec_is_encryption_of(env@, x25519_shared(sec@, key@), info))
                    &&& r.event == (ExchangeEvent::PingSent { to: from })
                } else {
                    spec_ignored(pre_out, pre_in, from, post_out, post_in, r)
                },
                _ => spec_ignored(pre_out, pre_in, from, post_out, post_in, r),
            },
            ClientClientMessage::RejectPing => match pre_out {
                OutgoingExchange::AwaitingDecision(id, info, sec) => if id == from {
                    &&& post_out is Idle
                    &&& post_in == pre_in
                    &&& r.reply is None
                    &&& r.event == (ExchangeEvent::Rejected { by: from })
                } else {
                    spec_ignored(pre_out, pre_in, from, post_out, post_in, r)
                },
                _ => spec_ignored(pre_out, pre_in, from, post_out, post_in, r),
            },
            ClientClientMessage::PingAck => match pre_out {
                OutgoingExchange::AwaitingAck(id) => if id == from {
                    &&& post_out is Idle
                    &&& post_in == pre_in
                    &&& r.reply is None
                    &&& r.event == (ExchangeEvent::Acknowledged { by: from })
                } else {
                    spec_ignored(pre_out, pre_in, from, post_out, post_in, r)
                },
                _ => spec_ignored(pre_out, pre_in, from, post_out, post_in, r),
            },
            ClientClientMessage::Ping { info: env } => if pre_in.contains_key(from.0) {
                match pre_in[from.0] {
                    IncomingExchange::AwaitingPing(k) => {
                        &&& post_in == pre_in.remove(from.0)
                        &&& post_out == pre_out
                        &&& if spec_envelope_authentic(env@, k@) {
                            r.reply matches Some(um) && um.to == from && um.msg is PingAck
                                && r.event == (ExchangeEvent::PingDelivered {
                                from,
                                info: spec_decrypted_info(env@, k@),
                            })
                        } else {
                            r.reply is None && r.event == (ExchangeEvent::DecryptFailed { from })
                        }
                    },
                    IncomingExchange::Deciding(_) => spec_ignored(
                        pre_out,
                        pre_in,
                        from,
                        post_out,
                        post_in,
                        r,
                    ),
                }
            } else {
                spec_ignored(pre_out, pre_in, from, post_out, post_in, r)
            },
        },
        ClientDownMessage::FromServer { msg: sm } => match sm {
            ServerClientMessage::NoSuchId { id } => if pre_out is Idle {
                &&& spec_unchanged(pre_out, pre_in, post_out, post_in)
                &&& r.reply is None
                &&& r.event is Nothing
            } else {
                &&& post_out is Idle
                &&& post_in == pre_in
                &&& r.reply is None
                &&& r.event == (ExchangeEvent::Stopped { id })
            },
            _ => {
                &&& spec_unchanged(pre_out, pre_in, post_out, post_in)
                &&& r.reply is None
                &&& r.event is Nothing
            },
        },
    }
}

impl Connection {
    /// The outgoing exchange.
    pub closed spec fn spec_outgoing(&self) -> OutgoingExchange {
        self.outgoing
    }

    /// The incoming exchanges by peer ID.
    pub closed spec fn spec_incoming(&self) -> Map<u16, IncomingExchange> {
        self.incoming@
    }

    /// A fresh connection: no exchange underway.
    pub fn new() -> (r: Self)
        ensures
            r.spec_outgoing() is Idle,
            r.spec_incoming() == Map::<u16, IncomingExchange>::empty(),
    {
        Connection { outgoing: OutgoingExchange::Idle, incoming: HashMapWithView::new() }
    }

    /// Begin the outgoing exchange: generate a fresh ephemeral secret,
    /// remember the ping for the peer, and build the request carrying this
    /// side's public key.
    pub fn start_ping(&mut self, to: Id, info: PingInfo) -> (r: ClientUpMessage)
        ensures
            final(self).spec_incoming() == old(self).spec_incoming(),
            match final(self).spec_outgoing() {
                OutgoingExchange::AwaitingDecision(id, i, sec) => {
                    &&& id == to
                    &&& i == info
                    &&& r.to == to
                    &&& r.msg matches ClientClientMessage::PingRequest { key } && key@
                        == x25519_public(sec@)
                },
                _ => false,
            },
    {
        let secret = EphemeralSecret::random();
        let key = secret.public_key();
        self.outgoing = OutgoingExchange::AwaitingDecision(to, info, secret);
        ClientUpMessage { to, msg: ClientClientMessage::PingRequest { key } }
    }

    /// Whether no outgoing exchange is underway.
    pub fn outgoing_is_none(&self) -> (r: bool)
        ensures
            r == (self.spec_outgoing() is Idle),
    {
        self.outgoing.is_none()
    }

    /// Give up the outgoing exchange (the caller could not send its request
    /// or its ping).
    pub fn abort_outgoing(&mut self)
        ensures
            final(self).spec_outgoing() is Idle,
            final(self).spec_incoming() == old(self).spec_incoming(),
    {
        self.outgoing = OutgoingExchange::Idle;
    }

    /// Accept the incoming ping request from `from`: generate a fresh
    /// secret, derive the shared key from the peer's offered public key, and
    /// build the acceptance carrying this side's public key. Succeeds
    /// exactly when that peer's exchange awaits a decision.
    pub fn accept_ping(&mut self, from: Id) -> (r: Result<ClientUpMessage, ProtocolError>)
        ensures
            final(self).spec_outgoing() == old(self).spec_outgoing(),
            (r is Ok) == (old(self).spec_incoming().contains_key(from.0) && old(
                self,
            ).spec_incoming()[from.0] is Deciding),
            r is Err ==> final(self).spec_incoming() == old(self).spec_incoming(),
            r matches Ok(msg) ==> match (
                old(self).spec_incoming()[from.0],
                final(self).spec_incoming()[from.0],
            ) {
                (IncomingExchange::Deciding(peer), IncomingExchange::AwaitingPing(k)) => {
                    &&& final(self).spec_incoming() == old(self).spec_incoming().insert(
                        from.0,
                        IncomingExchange::AwaitingPing(k),
                    )
                    &&& msg.to == from
                    &&& exists|sec: Seq<u8>|
                        k@ == x25519_shared(sec, peer@) && (
                        msg.msg matches ClientClientMessage::AcceptPing { key } && key@
                            == x25519_public(sec))
                },
                _ => false,
            },
    {
        let cur: Option<IncomingExchange> = match self.incoming.get(&from.0) {
            Some(x) => Some(*x),
            None => None,
        };
        match cur {
            Some(IncomingExchange::Deciding(peer)) => {
                let secret = EphemeralSecret::random();
                let key = secret.public_key();
                let ghost sec = secret@;
                let shared = secret.diffie_hellman(&peer);
                self.incoming.insert(from.0, IncomingExchange::AwaitingPing(shared));
                Ok(ClientUpMessage { to: from, msg: ClientClientMessage::AcceptPing { key } })
            },
            Some(IncomingExchange::AwaitingPing(_)) => Err(ProtocolError::NotDeciding),
            None => Err(ProtocolError::NoExchange),
        }
    }

    /// Reject the incoming ping request from `from` and drop the exchange.
    /// Succeeds exactly when that peer's exchange awaits a decision.
    pub fn reject_ping(&mut self, from: Id) -> (r: Result<ClientUpMessage, ProtocolError>)
        ensures
            final(self).spec_outgoing() == old(self).spec_outgoing(),
            (r is Ok) == (old(self).spec_incoming().contains_key(from.0) && old(
                self,
            ).spec_incoming()[from.0] is Deciding),
            r is Err ==> final(self).spec_incoming() == old(self).spec_incoming(),
            r matches Ok(msg) ==> final(self).spec_incoming() == old(self).spec_incoming().remove(
                from.0,
            ) && msg == (ClientUpMessage { to: from, msg: ClientClientMessage::RejectPing }),
    {
        let cur: Option<IncomingExchange> = match self.incoming.get(&from.0) {
            Some(x) => Some(*x),
            None => None,
        };
        match cur {
            Some(IncomingExchange::Deciding(_)) => {
                let _ = self.incoming.remove(&from.0);
                Ok(ClientUpMessage { to: from, msg: ClientClientMessage::RejectPing })
            },
            Some(IncomingExchange::AwaitingPing(_)) => Err(ProtocolError::NotDeciding),
            None => Err(ProtocolError::NoExchange),
        }
    }

    /// Handle one parsed downstream message according to the transition
    /// table: messages that fit the state advance it; everything else is
    /// reported as unexpected and changes nothing.
    pub fn handle_down(&mut self, msg: ClientDownMessage) -> (r: HandleOutcome)
        ensures
            spec_transition(
                old(self).spec_outgoing(),
                old(self).spec_incoming(),
                msg,
                final(self).spec_outgoing(),
                final(self).spec_incoming(),
                r,
            ),
    {
        match msg {
            ClientDownMessage::FromClient { from, msg: cm } => match cm {
                ClientClientMessage::PingRequest { key } => {
                    self.incoming.insert(from.0, IncomingExchange::Deciding(key));
                    HandleOutcome {
                        reply: None,
                        event: ExchangeEvent::PromptDecision { from },
                    }
                },
                ClientClientMessage::AcceptPing { key } => {
                    let matches_peer = match &self.outgoing {
                        OutgoingExchange::AwaitingDecision(id, _, _) => id.0 == from.0,
                        _ => false,
                    };
                    if matches_peer {
                        let mut prev = OutgoingExchange::AwaitingAck(from);
                        core::mem::swap(&mut self.outgoing, &mut prev);
                        match prev {
                            OutgoingExchange::AwaitingDecision(id, info, sec) => {
                                proof {
                                    assert(id == from);
                                }
                                let shared = sec.diffie_hellman(&key);
                                let env = match info.encrypt(shared) {
                                    Ok(env) => env,
                                    Err(_) => {
                                        // encryption of a fixed-size record cannot fail
                                        proof {
                                            assert(false);
                                        }
                                        return HandleOutcome {
                                            reply: None,
                                            event: ExchangeEvent::Unexpected { from },
                                        };
                                    },
                                };
                                HandleOutcome {
                                    reply: Some(
                                        ClientUpMessage {
                                            to: from,
                                            msg: ClientClientMessage::Ping { info: env },
                                        },
                                    ),
                                    event: ExchangeEvent::PingSent { to: from },
                                }
                            },
                            _ => {
                                proof {
                                    assert(false);
                                }
                                HandleOutcome { reply: None, event: ExchangeEvent::Nothing }
                            },
                        }
                    } else {
                        HandleOutcome { reply: None, event: ExchangeEvent::Unexpected { from } }
                    }
                },
                ClientClientMessage::RejectPing => {
                    let matches_peer = match &self.outgoing {
                        OutgoingExchange::AwaitingDecision(id, _, _) => id.0 == from.0,
                        _ => false,
                    };
                    if matches_peer {
                        self.outgoing = OutgoingExchange::Idle;
                        HandleOutcome { reply: None, event: ExchangeEvent::Rejected { by: from } }
                    } else {
                        HandleOutcome { reply: None, event: ExchangeEvent::Unexpected { from } }
                    }
                },
                ClientClientMessage::PingAck => {
                    let matches_peer = match &self.outgoing {
                        OutgoingExchange::AwaitingAck(id) => id.0 == from.0,
                        _ => false,
                    };
                    if matches_peer {
                        self.outgoing = OutgoingExchange::Idle;
                        HandleOutcome {
                            reply: None,
                            event: ExchangeEvent::Acknowledged { by: from },
                        }
                    } else {
                        HandleOutcome { reply: None, event: ExchangeEvent::Unexpected { from } }
                    }
                },
                ClientClientMessage::Ping { info: env } => {
                    let cur: Option<IncomingExchange> = match self.incoming.get(&from.0) {
                        Some(x) => Some(*x),
                        None => None,
                    };
                    match cur {
                        Some(IncomingExchange::AwaitingPing(k)) => {
                            let _ = self.incoming.remove(&from.0);
                            match PingInfo::decrypt(env, k) {
                                Ok(info) => HandleOutcome {
                                    reply: Some(
                                        ClientUpMessage {
                                            to: from,
                                            msg: ClientClientMessage::PingAck,
                                        },
                                    ),
                                    event: ExchangeEvent::PingDelivered { from, info },
                                },
                                Err(_) => HandleOutcome {
                                    reply: None,
                                    event: ExchangeEvent::DecryptFailed { from },
                                },
                            }
                        },
                        Some(IncomingExchange::Deciding(_)) => HandleOutcome {
                            reply: None,
                            event: ExchangeEvent::Unexpected { from },
                        },
                        None => HandleOutcome {
                            reply: None,
                            event: ExchangeEvent::Unexpected { from },
                        },
                    }
                },
            },
            ClientDownMessage::FromServer { msg: sm } => match sm {
                ServerClientMessage::NoSuchId { id } => {
                    if self.outgoing.is_none() {
                        HandleOutcome { reply: None, event: ExchangeEvent::Nothing }
                    } else {
                        self.outgoing = OutgoingExchange::Idle;
                        HandleOutcome { reply: None, event: ExchangeEvent::Stopped { id } }
                    }
                },
                _ => HandleOutcome { reply: None, event: ExchangeEvent::Nothing },
            },
        }
    }
}

} // verus!
