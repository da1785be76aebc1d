//! The cryptographic envelope, the registry, and whole-exchange scenarios.

use pinger::crypto::{
    CryptoError, Degrees, EncryptedPingInfo, EphemeralSecret, Meters, PingInfo, SharedKey,
    Timestamp,
};
use pinger::exchange::{Connection, ExchangeEvent, OutgoingExchange, ProtocolError};
use pinger::pump::{handle_frame, relay_failure_reply, PumpAction, PumpEvent};
use pinger::registry::{Registry, SendError, ServiceUnavailable, MAILBOX_CAPACITY};
use pinger::wire::{ClientClientMessage, ClientDownMessage, ClientUpMessage, ServerClientMessage};
use pinger::Id;

fn sample_ping_info() -> PingInfo {
    PingInfo {
        ts: Timestamp(0x1234567890),
        lat: Degrees(1.2f64.to_bits()),
        lon: Degrees(3.4f64.to_bits()),
        alt: Meters(5.6f32.to_bits()),
        err: Meters(7.8f32.to_bits()),
    }
}

fn keypair() -> (EphemeralSecret, pinger::crypto::PublicKey) {
    let secret = EphemeralSecret::random();
    let public = secret.public_key();
    (secret, public)
}

#[test]
fn encrypt_then_decrypt_returns_the_ping_info() {
    let (sa, pa) = keypair();
    let (sb, pb) = keypair();
    let ka = sa.diffie_hellman(&pb);
    let kb = sb.diffie_hellman(&pa);
    let info = sample_ping_info();
    let env = info.encrypt(ka).unwrap();
    assert_eq!(PingInfo::decrypt(env, kb).unwrap(), info);
}

#[test]
fn decrypt_with_the_wrong_key_fails() {
    let (sa, _) = keypair();
    let (_, pb) = keypair();
    let ka = sa.diffie_hellman(&pb);
    let other = SharedKey::from_bytes([0x5a; 32]);
    assert_ne!(ka.to_bytes(), other.to_bytes());
    let env = sample_ping_info().encrypt(ka).unwrap();
    assert_eq!(PingInfo::decrypt(env, other), Err(CryptoError));
}

#[test]
fn decrypt_without_the_magic_fails() {
    let (sa, pa) = keypair();
    let (sb, pb) = keypair();
    let ka = sa.diffie_hellman(&pb);
    let kb = sb.diffie_hellman(&pa);
    let env = sample_ping_info().encrypt(ka).unwrap();
    let mut bytes = env.to_bytes();
    bytes[0] = b'G';
    assert_eq!(
        PingInfo::decrypt(EncryptedPingInfo::from_bytes(bytes), kb),
        Err(CryptoError)
    );
}

#[test]
fn tampering_with_ciphertext_or_tag_fails() {
    let (sa, pa) = keypair();
    let (sb, pb) = keypair();
    let ka = sa.diffie_hellman(&pb);
    let kb = sb.diffie_hellman(&pa);
    let env = sample_ping_info().encrypt(ka).unwrap();
    // flip every bit of the ciphertext (16..48) and the tag (48..64) in turn
    for byte in 16..64 {
        for bit in 0..8 {
            let mut bytes = env.to_bytes();
            bytes[byte] ^= 1u8 << bit;
            assert_eq!(
                PingInfo::decrypt(EncryptedPingInfo::from_bytes(bytes), kb),
                Err(CryptoError)
            );
        }
    }
}

#[test]
fn diffie_hellman_commutes() {
    let (sa, pa) = keypair();
    let (sb, pb) = keypair();
    assert_eq!(
        sa.diffie_hellman(&pb).to_bytes(),
        sb.diffie_hellman(&pa).to_bytes()
    );
}

#[test]
fn ping_info_record_round_trips() {
    let info = sample_ping_info();
    let record = info.encode();
    assert_eq!(record.len(), 32);
    assert_eq!(PingInfo::decode(&record), info);
    // the timestamp sits first, big-endian
    assert_eq!(&record[..8], &[0, 0, 0, 0x12, 0x34, 0x56, 0x78, 0x90]);
}

#[test]
fn registry_assigns_routes_and_drops() {
    assert_eq!(MAILBOX_CAPACITY, 2);
    let mut registry: Registry<u32> = Registry::new();
    // unknown destination
    assert_eq!(
        registry.send(Id(999), Id(10), ClientClientMessage::PingAck).unwrap_err(),
        SendError::NoSuchId(Id(999))
    );
    // a fresh id in [10, 999], routed to
    let a = registry.add_connection(7).unwrap();
    assert!((10..=999).contains(&a.0));
    let b = registry.add_connection(8).unwrap();
    assert!((10..=999).contains(&b.0));
    assert_ne!(a, b);
    let (mailbox, envelope) = registry.send(b, a, ClientClientMessage::RejectPing).unwrap();
    assert_eq!(*mailbox, 8);
    assert_eq!(
        envelope,
        ClientDownMessage::FromClient {
            from: a,
            msg: ClientClientMessage::RejectPing
        }
    );
    // dropped ids stay unknown until reassigned
    registry.drop_connection(b);
    assert_eq!(
        registry.send(b, a, ClientClientMessage::PingAck).unwrap_err(),
        SendError::NoSuchId(b)
    );
    registry.drop_connection(b);
    assert_eq!(
        registry.send(b, a, ClientClientMessage::PingAck).unwrap_err(),
        SendError::NoSuchId(b)
    );
}

#[test]
fn saturated_id_pool_is_service_unavailable() {
    let mut registry: Registry<u32> = Registry::new();
    // fill the whole ID space [10, 999]; with few free IDs left a burst of
    // draws may collide 100 times, which is a (correct) transient failure
    let mut live: usize = 0;
    let mut attempts: usize = 0;
    while live < 990 {
        attempts += 1;
        assert!(attempts < 1_000_000, "could not fill the ID space");
        if let Ok(id) = registry.add_connection(0) {
            assert!((10..=999).contains(&id.0));
            live += 1;
        }
    }
    // every ID is taken: every draw collides and the handshake always fails
    for _ in 0..10 {
        assert_eq!(registry.add_connection(0).unwrap_err(), ServiceUnavailable);
    }
    // dropping one makes exactly that ID assignable again
    registry.drop_connection(Id(500));
    let mut attempts: usize = 0;
    loop {
        attempts += 1;
        assert!(attempts < 1_000_000, "could not reassign the freed ID");
        if let Ok(id) = registry.add_connection(0) {
            assert_eq!(id, Id(500));
            break;
        }
    }
}

#[test]
fn pump_answers_bad_frames_and_relays_good_ones() {
    // scenario: the literal text `not json` draws the deserialization error
    match handle_frame(PumpEvent::Text(b"not json".to_vec())) {
        PumpAction::Reply(ServerClientMessage::Error { details }) => {
            assert_eq!(details, b"could not deserialize message".to_vec());
        }
        _ => panic!("expected an error reply"),
    }
    match handle_frame(PumpEvent::NonText) {
        PumpAction::Reply(ServerClientMessage::Error { details }) => {
            assert_eq!(
                details,
                b"unsupported message type, only text messages are supported".to_vec()
            );
        }
        _ => panic!("expected an error reply"),
    }
    match handle_frame(PumpEvent::TransportError) {
        PumpAction::Reply(ServerClientMessage::Error { details }) => {
            assert_eq!(details, b"error while receiving websocket message".to_vec());
        }
        _ => panic!("expected an error reply"),
    }
    let m = ClientUpMessage {
        to: Id(732),
        msg: ClientClientMessage::PingAck,
    };
    match handle_frame(PumpEvent::Text(m.serialize())) {
        PumpAction::Relay { to, msg } => {
            assert_eq!(to, Id(732));
            assert_eq!(msg, ClientClientMessage::PingAck);
        }
        _ => panic!("expected a relay"),
    }
    assert_eq!(
        relay_failure_reply(SendError::NoSuchId(Id(999))),
        Some(ServerClientMessage::NoSuchId { id: Id(999) })
    );
    assert_eq!(relay_failure_reply(SendError::DeliveryFailed), None);

    // the greeting every pump preloads before its loop
    assert_eq!(
        String::from_utf8(pinger::pump::connected_message(Id(410)).serialize()).unwrap(),
        r#"{"msg":"connected","id":410}"#
    );
}

/// Push an upstream message through the wire and deliver it to the peer's
/// engine as a relayed downstream message.
fn relay(up: &ClientUpMessage, from: Id, peer: &mut Connection) -> pinger::exchange::HandleOutcome {
    let parsed = ClientUpMessage::deserialize(&up.serialize()).expect("canonical form parses");
    let down = ClientDownMessage::FromClient {
        from,
        msg: parsed.msg,
    };
    let down = ClientDownMessage::deserialize(&down.serialize()).expect("canonical form parses");
    peer.handle_down(down)
}

#[test]
fn scenario_happy_path() {
    let a_id = Id(410);
    let b_id = Id(732);
    let mut a = Connection::new();
    let mut b = Connection::new();
    let info = sample_ping_info();

    // A requests a ping to B
    let request = a.start_ping(b_id, info);
    assert_eq!(request.to, b_id);
    assert!(!a.outgoing_is_none());

    // B is prompted and accepts
    let outcome = relay(&request, a_id, &mut b);
    assert!(matches!(outcome.event, ExchangeEvent::PromptDecision { from } if from == a_id));
    assert!(outcome.reply.is_none());
    let acceptance = b.accept_ping(a_id).unwrap();
    assert_eq!(acceptance.to, a_id);

    // A encrypts and sends the ping
    let outcome = relay(&acceptance, b_id, &mut a);
    assert!(matches!(outcome.event, ExchangeEvent::PingSent { to } if to == b_id));
    let ping = outcome.reply.expect("the ping follows the acceptance");
    assert_eq!(ping.to, b_id);

    // B decrypts the ping and acknowledges
    let outcome = relay(&ping, a_id, &mut b);
    match outcome.event {
        ExchangeEvent::PingDelivered { from, info: delivered } => {
            assert_eq!(from, a_id);
            assert_eq!(delivered, info);
        }
        _ => panic!("expected the ping to be delivered"),
    }
    let ack = outcome.reply.expect("the acknowledgment follows the ping");
    assert_eq!(ack.to, a_id);
    assert_eq!(ack.msg, ClientClientMessage::PingAck);

    // A's outgoing exchange completes
    let outcome = relay(&ack, b_id, &mut a);
    assert!(matches!(outcome.event, ExchangeEvent::Acknowledged { by } if by == b_id));
    assert!(a.outgoing_is_none());
}

#[test]
fn scenario_rejection() {
    let a_id = Id(410);
    let b_id = Id(732);
    let mut a = Connection::new();
    let mut b = Connection::new();

    let request = a.start_ping(b_id, sample_ping_info());
    let _ = relay(&request, a_id, &mut b);
    let rejection = b.reject_ping(a_id).unwrap();
    assert_eq!(rejection.to, a_id);
    assert_eq!(rejection.msg, ClientClientMessage::RejectPing);

    let outcome = relay(&rejection, b_id, &mut a);
    assert!(matches!(outcome.event, ExchangeEvent::Rejected { by } if by == b_id));
    assert!(outcome.reply.is_none());
    assert!(a.outgoing_is_none());

    // B cannot decide twice
    assert_eq!(b.reject_ping(a_id).unwrap_err(), ProtocolError::NoExchange);
}

#[test]
fn outgoing_exchange_state_queries() {
    assert!(OutgoingExchange::Idle.is_none());
    assert!(!OutgoingExchange::AwaitingAck(Id(42)).is_none());

    let mut a = Connection::new();
    assert!(a.outgoing_is_none());
    let _ = a.start_ping(Id(732), sample_ping_info());
    assert!(!a.outgoing_is_none());
    // the request could not be sent: give the exchange up
    a.abort_outgoing();
    assert!(a.outgoing_is_none());
}

#[test]
fn accepting_without_a_request_fails() {
    let mut b = Connection::new();
    assert_eq!(b.accept_ping(Id(410)).unwrap_err(), ProtocolError::NoExchange);
    // after accepting once, the exchange awaits the ping, not a decision
    let request = Connection::new().start_ping(Id(732), sample_ping_info());
    let _ = relay(&request, Id(410), &mut b);
    let _ = b.accept_ping(Id(410)).unwrap();
    assert_eq!(b.accept_ping(Id(410)).unwrap_err(), ProtocolError::NotDeciding);
    assert_eq!(b.reject_ping(Id(410)).unwrap_err(), ProtocolError::NotDeciding);
}

#[test]
fn scenario_unknown_destination() {
    let mut registry: Registry<u32> = Registry::new();
    let a = registry.add_connection(7).unwrap();

    let mut a_conn = Connection::new();
    let request = a_conn.start_ping(Id(999), sample_ping_info());

    // the relay reports the unknown id back to the sender
    let err = registry.send(request.to, a, request.msg).unwrap_err();
    assert_eq!(err, SendError::NoSuchId(Id(999)));
    let reply = relay_failure_reply(err).expect("unknown ids are surfaced");
    let down = ClientDownMessage::FromServer { msg: reply };
    let down = ClientDownMessage::deserialize(&down.serialize()).unwrap();
    assert_eq!(
        String::from_utf8(down.serialize()).unwrap(),
        r#"{"msg":"no_such_id","id":999}"#
    );

    // the sender's outgoing exchange stops
    let outcome = a_conn.handle_down(down);
    assert!(matches!(outcome.event, ExchangeEvent::Stopped { id } if id == Id(999)));
    assert!(a_conn.outgoing_is_none());
}

#[test]
fn scenario_unexpected_messages_change_nothing() {
    let a_id = Id(410);
    let b_id = Id(732);
    let stranger = Id(55);
    let mut a = Connection::new();

    // an acceptance with no outgoing exchange
    let (_, pk) = keypair();
    let outcome = a.handle_down(ClientDownMessage::FromClient {
        from: stranger,
        msg: ClientClientMessage::AcceptPing { key: pk },
    });
    assert!(matches!(outcome.event, ExchangeEvent::Unexpected { from } if from == stranger));
    assert!(outcome.reply.is_none());

    // an acceptance from the wrong peer
    let _ = a.start_ping(b_id, sample_ping_info());
    let outcome = a.handle_down(ClientDownMessage::FromClient {
        from: stranger,
        msg: ClientClientMessage::AcceptPing { key: pk },
    });
    assert!(matches!(outcome.event, ExchangeEvent::Unexpected { from } if from == stranger));
    assert!(!a.outgoing_is_none());

    // a ping with no incoming exchange
    let shared = EphemeralSecret::random().diffie_hellman(&pk);
    let env = sample_ping_info().encrypt(shared).unwrap();
    let outcome = a.handle_down(ClientDownMessage::FromClient {
        from: a_id,
        msg: ClientClientMessage::Ping { info: env },
    });
    assert!(matches!(outcome.event, ExchangeEvent::Unexpected { from } if from == a_id));
    assert!(outcome.reply.is_none());
}

#[test]
fn scenario_undecryptable_ping_is_dropped() {
    let a_id = Id(410);
    let b_id = Id(732);
    let mut a = Connection::new();
    let mut b = Connection::new();

    let request = a.start_ping(b_id, sample_ping_info());
    let _ = relay(&request, a_id, &mut b);
    let _acceptance = b.accept_ping(a_id).unwrap();

    // a ping encrypted under an unrelated key does not decrypt at B
    let (_, stray_pk) = keypair();
    let stray_key = EphemeralSecret::random().diffie_hellman(&stray_pk);
    let env = sample_ping_info().encrypt(stray_key).unwrap();
    let outcome = b.handle_down(ClientDownMessage::FromClient {
        from: a_id,
        msg: ClientClientMessage::Ping { info: env },
    });
    assert!(matches!(outcome.event, ExchangeEvent::DecryptFailed { from } if from == a_id));
    assert!(outcome.reply.is_none());

    // the exchange is dropped either way: a second ping is unexpected
    let outcome = b.handle_down(ClientDownMessage::FromClient {
        from: a_id,
        msg: ClientClientMessage::Ping { info: env },
    });
    assert!(matches!(outcome.event, ExchangeEvent::Unexpected { from } if from == a_id));
}
