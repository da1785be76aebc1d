//! The exact JSON wire forms of every message, matched against the protocol.

use base64::engine::general_purpose::URL_SAFE_NO_PAD;
use base64::Engine;
use pinger::crypto::{Degrees, EncryptedPingInfo, EphemeralSecret, Meters, PingInfo, Timestamp};
use pinger::wire::{ClientClientMessage, ClientDownMessage, ClientUpMessage, ServerClientMessage};
use pinger::Id;
use regex::Regex;

fn wire(v: Vec<u8>) -> String {
    String::from_utf8(v).expect("wire form is UTF-8")
}

fn quoted_b64(bytes: &[u8]) -> String {
    format!("\"{}\"", URL_SAFE_NO_PAD.encode(bytes))
}

fn sample_ping_info() -> PingInfo {
    PingInfo {
        ts: Timestamp(0x1234567890),
        lat: Degrees(1.2f64.to_bits()),
        lon: Degrees(3.4f64.to_bits()),
        alt: Meters(5.6f32.to_bits()),
        err: Meters(7.8f32.to_bits()),
    }
}

#[test]
fn ser_down() {
    let alices_secret = EphemeralSecret::random();
    let bobs_secret = EphemeralSecret::random();
    let alices_public_key = alices_secret.public_key();
    let bobs_public_key = bobs_secret.public_key();
    let apk_str = quoted_b64(&alices_public_key.0);
    let bpk_str = quoted_b64(&bobs_public_key.0);
    let alices_shared_secret = alices_secret.diffie_hellman(&bobs_public_key);
    let bobs_shared_secret = bobs_secret.diffie_hellman(&alices_public_key);

    assert_eq!(
        alices_shared_secret.to_bytes(),
        bobs_shared_secret.to_bytes()
    );

    let ping_info = sample_ping_info();

    let info = ping_info.encrypt(alices_shared_secret).unwrap();
    let info_str = quoted_b64(&info.to_bytes());

    assert_eq!(
        ping_info,
        PingInfo::decrypt(info, bobs_shared_secret).unwrap()
    );

    assert!(Regex::new(r#""[A-Za-z0-9\-_]{86}""#).unwrap().is_match(&info_str));
    assert!(Regex::new(r#""[A-Za-z0-9\-_]{43}""#).unwrap().is_match(&apk_str));
    assert!(Regex::new(r#""[A-Za-z0-9\-_]{43}""#).unwrap().is_match(&bpk_str));

    assert_eq!(
        wire(
            ClientDownMessage::FromServer {
                msg: ServerClientMessage::Connected { id: Id(42) }
            }
            .serialize()
        ),
        r#"{"msg":"connected","id":42}"#
    );

    assert_eq!(
        wire(
            ClientDownMessage::FromServer {
                msg: ServerClientMessage::Error {
                    details: b"error details".to_vec()
                }
            }
            .serialize()
        ),
        r#"{"msg":"error","details":"error details"}"#
    );

    assert_eq!(
        wire(
            ClientDownMessage::FromServer {
                msg: ServerClientMessage::NoSuchId { id: Id(42) }
            }
            .serialize()
        ),
        r#"{"msg":"no_such_id","id":42}"#
    );

    assert_eq!(
        wire(
            ClientDownMessage::FromClient {
                from: Id(42),
                msg: ClientClientMessage::PingAck
            }
            .serialize()
        ),
        r#"{"from":42,"msg":"ping_ack"}"#
    );

    assert_eq!(
        wire(
            ClientDownMessage::FromClient {
                from: Id(42),
                msg: ClientClientMessage::Ping { info }
            }
            .serialize()
        ),
        format!(r#"{{"from":42,"msg":"ping","info":{}}}"#, info_str)
    );

    assert_eq!(
        wire(
            ClientDownMessage::FromClient {
                from: Id(42),
                msg: ClientClientMessage::AcceptPing {
                    key: alices_public_key
                }
            }
            .serialize()
        ),
        format!(r#"{{"from":42,"msg":"accept_ping","key":{apk_str}}}"#)
    );

    assert_eq!(
        wire(
            ClientDownMessage::FromClient {
                from: Id(42),
                msg: ClientClientMessage::PingRequest {
                    key: bobs_public_key
                }
            }
            .serialize()
        ),
        format!(r#"{{"from":42,"msg":"ping_request","key":{bpk_str}}}"#)
    );

    assert_eq!(
        wire(
            ClientDownMessage::FromClient {
                from: Id(42),
                msg: ClientClientMessage::RejectPing
            }
            .serialize()
        ),
        r#"{"from":42,"msg":"reject_ping"}"#
    );
}

#[test]
fn ser_up() {
    let alices_secret = EphemeralSecret::random();
    let bobs_secret = EphemeralSecret::random();
    let alices_public_key = alices_secret.public_key();
    let bobs_public_key = bobs_secret.public_key();
    let apk_str = quoted_b64(&alices_public_key.0);
    let bpk_str = quoted_b64(&bobs_public_key.0);
    let alices_shared_secret = alices_secret.diffie_hellman(&bobs_public_key);
    let bobs_shared_secret = bobs_secret.diffie_hellman(&alices_public_key);

    assert_eq!(
        alices_shared_secret.to_bytes(),
        bobs_shared_secret.to_bytes()
    );

    let ping_info = sample_ping_info();

    let info = ping_info.encrypt(alices_shared_secret).unwrap();
    let info_str = quoted_b64(&info.to_bytes());

    assert_eq!(
        ping_info,
        PingInfo::decrypt(info, bobs_shared_secret).unwrap()
    );

    assert!(Regex::new(r#""[A-Za-z0-9\-_]{86}""#).unwrap().is_match(&info_str));

    assert_eq!(
        wire(
            ClientUpMessage {
                to: Id(42),
                msg: ClientClientMessage::RejectPing
            }
            .serialize()
        ),
        r#"{"to":42,"msg":"reject_ping"}"#
    );

    assert_eq!(
        wire(
            ClientUpMessage {
                to: Id(42),
                msg: ClientClientMessage::AcceptPing {
                    key: alices_public_key
                }
            }
            .serialize()
        ),
        format!(r#"{{"to":42,"msg":"accept_ping","key":{apk_str}}}"#)
    );

    assert_eq!(
        wire(
            ClientUpMessage {
                to: Id(42),
                msg: ClientClientMessage::Ping { info }
            }
            .serialize()
        ),
        format!(r#"{{"to":42,"msg":"ping","info":{info_str}}}"#)
    );

    assert_eq!(
        wire(
            ClientUpMessage {
                to: Id(42),
                msg: ClientClientMessage::PingAck
            }
            .serialize()
        ),
        r#"{"to":42,"msg":"ping_ack"}"#
    );

    assert_eq!(
        wire(
            ClientUpMessage {
                to: Id(42),
                msg: ClientClientMessage::PingRequest {
                    key: bobs_public_key
                }
            }
            .serialize()
        ),
        format!(r#"{{"to":42,"msg":"ping_request","key":{bpk_str}}}"#)
    );
}

#[test]
fn up_messages_round_trip() {
    let key = EphemeralSecret::random().public_key();
    let shared = EphemeralSecret::random().diffie_hellman(&key);
    let info = sample_ping_info().encrypt(shared).unwrap();
    let cases = vec![
        ClientClientMessage::PingRequest { key },
        ClientClientMessage::AcceptPing { key },
        ClientClientMessage::RejectPing,
        ClientClientMessage::Ping { info },
        ClientClientMessage::PingAck,
    ];
    for msg in cases {
        let m = ClientUpMessage { to: Id(999), msg };
        let bytes = m.serialize();
        assert_eq!(ClientUpMessage::deserialize(&bytes), Some(m));
    }
}

#[test]
fn down_messages_round_trip() {
    let key = EphemeralSecret::random().public_key();
    let shared = EphemeralSecret::random().diffie_hellman(&key);
    let info = sample_ping_info().encrypt(shared).unwrap();
    let cases = vec![
        ClientDownMessage::FromClient {
            from: Id(10),
            msg: ClientClientMessage::PingRequest { key },
        },
        ClientDownMessage::FromClient {
            from: Id(65535),
            msg: ClientClientMessage::Ping { info },
        },
        ClientDownMessage::FromClient {
            from: Id(0),
            msg: ClientClientMessage::RejectPing,
        },
        ClientDownMessage::FromServer {
            msg: ServerClientMessage::Connected { id: Id(410) },
        },
        ClientDownMessage::FromServer {
            msg: ServerClientMessage::NoSuchId { id: Id(999) },
        },
        ClientDownMessage::FromServer {
            msg: ServerClientMessage::Error {
                details: b"error details".to_vec(),
            },
        },
    ];
    for m in cases {
        let bytes = m.serialize();
        assert_eq!(ClientDownMessage::deserialize(&bytes), Some(m));
    }
}

#[test]
fn error_details_escape_round_trip() {
    let details = b"a \"quoted\" \\ backslash\nnewline\ttab\x01control".to_vec();
    let m = ClientDownMessage::FromServer {
        msg: ServerClientMessage::Error { details },
    };
    let bytes = m.serialize();
    let text = wire(bytes.clone());
    assert_eq!(
        text,
        "{\"msg\":\"error\",\"details\":\"a \\\"quoted\\\" \\\\ backslash\\nnewline\\ttab\\u0001control\"}"
    );
    assert_eq!(ClientDownMessage::deserialize(&bytes), Some(m));
}

#[test]
fn parsers_reject_malformed_input() {
    let bad: Vec<&[u8]> = vec![
        b"not json",
        b"",
        b"{\"to\":42}",
        b"{\"to\":042,\"msg\":\"ping_ack\"}",
        b"{\"to\":65536,\"msg\":\"ping_ack\"}",
        b"{\"to\":42,\"msg\":\"ping_ack\"} ",
        b"{\"to\":42,\"msg\":\"nonsense\"}",
        b"{\"to\":42,\"msg\":\"ping_request\",\"key\":\"tooshort\"}",
    ];
    for b in bad {
        assert_eq!(ClientUpMessage::deserialize(b), None);
    }
    let bad_down: Vec<&[u8]> = vec![
        b"not json",
        b"{\"msg\":\"connected\"}",
        b"{\"msg\":\"connected\",\"id\":1e3}",
        b"{\"from\":42,\"msg\":\"ping_ack\"",
    ];
    for b in bad_down {
        assert_eq!(ClientDownMessage::deserialize(b), None);
    }
}

#[test]
fn key_and_envelope_wire_lengths() {
    // a public key's wire form is exactly 43 URL-safe characters, an
    // envelope's exactly 86, and both round-trip losslessly
    let secret = EphemeralSecret::random();
    let key = secret.public_key();
    let encoded_key = URL_SAFE_NO_PAD.encode(key.0);
    assert_eq!(encoded_key.len(), 43);
    assert_eq!(
        URL_SAFE_NO_PAD.decode(&encoded_key).unwrap(),
        key.0.to_vec()
    );

    let shared = EphemeralSecret::random().diffie_hellman(&key);
    let env = sample_ping_info().encrypt(shared).unwrap();
    let encoded_env = URL_SAFE_NO_PAD.encode(env.to_bytes());
    assert_eq!(encoded_env.len(), 86);
    assert_eq!(
        URL_SAFE_NO_PAD.decode(&encoded_env).unwrap(),
        env.to_bytes().to_vec()
    );
    let _ = EncryptedPingInfo::from_bytes(env.to_bytes());
}
