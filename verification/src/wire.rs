//! The JSON wire codec: the exact messages that flow on the channel.
//!
//! Every message is one JSON object in the canonical form the reference
//! implementation emits: fixed field order, no whitespace, binary fields as
//! URL-safe unpadded base64. The serializers produce exactly that form and
//! the parsers accept exactly that form, so serializing and parsing are
//! mutual inverses by contract.

use vstd::prelude::*;

use crate::Id;
use crate::b64::{b64_decode, b64_encode, lemma_b64url_injective, lemma_b64url_len, spec_b64url};
use crate::crypto::{push_bytes, vec_to_array32, vec_to_array64, EncryptedPingInfo, PublicKey};

verus! {

broadcast use vstd::array::group_array_axioms;

/// A message the server itself sends to a client.
#[derive(Clone, Debug, PartialEq, Eq)]
pub enum ServerClientMessage {
    /// The ID assigned to this connection.
    Connected { id: Id },
    /// A relayed message named a destination that is not connected.
    NoSuchId { id: Id },
    /// A frame could not be handled; the channel stays open.
    Error { details: Vec<u8> },
}

/// A message one client sends another through the relay.
#[derive(Clone, Copy, Debug, PartialEq, Eq)]
pub enum ClientClientMessage {
    /// Ask to send a ping, offering the sender's public key.
    PingRequest { key: PublicKey },
    /// Accept a requested ping, answering with the receiver's public key.
    AcceptPing { key: PublicKey },
    /// Reject a requested ping.
    RejectPing,
    /// The encrypted ping itself.
    Ping { info: EncryptedPingInfo },
    /// Acknowledge a received ping.
    PingAck,
}

/// A message sent by a client to the server, to be relayed to another client.
#[derive(Clone, Copy, Debug, PartialEq, Eq)]
pub struct ClientUpMessage {
    pub to: Id,
    pub msg: ClientClientMessage,
}

/// A message sent by the server to a client, either relayed on behalf of
/// another client (it carries `from`) or server-originated (it does not).
#[derive(Clone, Debug, PartialEq, Eq)]
pub enum ClientDownMessage {
    FromClient { from: Id, msg: ClientClientMessage },
    FromServer { msg: ServerClientMessage },
}

/// The wire bytes `{"to":`.
pub open spec fn spec_lit_obj_to() -> Seq<u8> {
    seq![0x7bu8, 0x22u8, 0x74u8, 0x6fu8, 0x22u8, 0x3au8]
}

/// Build the wire bytes `{"to":`.
fn lit_obj_to() -> (r: Vec<u8>)
    ensures
        r@ == spec_lit_obj_to(),
{
    let mut v: Vec<u8> = Vec::new();
    v.push(0x7b);
    v.push(0x22);
    v.push(0x74);
    v.push(0x6f);
    v.push(0x22);
    v.push(0x3a);
    assert(v@ =~= spec_lit_obj_to());
    v
}

/// The wire bytes `{"from":`.
pub open spec fn spec_lit_obj_from() -> Seq<u8> {
    seq![0x7bu8, 0x22u8, 0x66u8, 0x72u8, 0x6fu8, 0x6du8, 0x22u8, 0x3au8]
}

/// Build the wire bytes `{"from":`.
fn lit_obj_from() -> (r: Vec<u8>)
    ensures
        r@ == spec_lit_obj_from(),
{
    let mut v: Vec<u8> = Vec::new();
    v.push(0x7b);
    v.push(0x22);
    v.push(0x66);
    v.push(0x72);
    v.push(0x6f);
    v.push(0x6d);
    v.push(0x22);
    v.push(0x3a);
    assert(v@ =~= spec_lit_obj_from());
    v
}

/// The wire bytes `,"msg":"ping_request","key":"`.
pub open spec fn spec_lit_frag_ping_request() -> Seq<u8> {
    seq![0x2cu8, 0x22u8, 0x6du8, 0x73u8, 0x67u8, 0x22u8, 0x3au8, 0x22u8, 0x70u8, 0x69u8, 0x6eu8, 0x67u8, 0x5fu8, 0x72u8, 0x65u8, 0x71u8, 0x75u8, 0x65u8, 0x73u8, 0x74u8, 0x22u8, 0x2cu8, 0x22u8, 0x6bu8, 0x65u8, 0x79u8, 0x22u8, 0x3au8, 0x22u8]
}

/// Build the wire bytes `,"msg":"ping_request","key":"`.
fn lit_frag_ping_request() -> (r: Vec<u8>)
    ensures
        r@ == spec_lit_frag_ping_request(),
{
    let mut v: Vec<u8> = Vec::new();
    v.push(0x2c);
    v.push(0x22);
    v.push(0x6d);
    v.push(0x73);
    v.push(0x67);
    v.push(0x22);
    v.push(0x3a);
    v.push(0x22);
    v.push(0x70);
    v.push(0x69);
    v.push(0x6e);
    v.push(0x67);
    v.push(0x5f);
    v.push(0x72);
    v.push(0x65);
    v.push(0x71);
    v.push(0x75);
    v.push(0x65);
    v.push(0x73);
    v.push(0x74);
    v.push(0x22);
    v.push(0x2c);
    v.push(0x22);
    v.push(0x6b);
    v.push(0x65);
    v.push(0x79);
    v.push(0x22);
    v.push(0x3a);
    v.push(0x22);
    assert(v@ =~= spec_lit_frag_ping_request());
    v
}

/// The wire bytes `,"msg":"accept_ping","key":"`.
pub open spec fn spec_lit_frag_accept_ping() -> Seq<u8> {
    seq![0x2cu8, 0x22u8, 0x6du8, 0x73u8, 0x67u8, 0x22u8, 0x3au8, 0x22u8, 0x61u8, 0x63u8, 0x63u8, 0x65u8, 0x70u8, 0x74u8, 0x5fu8, 0x70u8, 0x69u8, 0x6eu8, 0x67u8, 0x22u8, 0x2cu8, 0x22u8, 0x6bu8, 0x65u8, 0x79u8, 0x22u8, 0x3au8, 0x22u8]
}

/// Build the wire bytes `,"msg":"accept_ping","key":"`.
fn lit_frag_accept_ping() -> (r: Vec<u8>)
    ensures
        r@ == spec_lit_frag_accept_ping(),
{
    let mut v: Vec<u8> = Vec::new();
    v.push(0x2c);
    v.push(0x22);
    v.push(0x6d);
    v.push(0x73);
    v.push(0x67);
    v.push(0x22);
    v.push(0x3a);
    v.push(0x22);
    v.push(0x61);
    v.push(0x63);
    v.push(0x63);
    v.push(0x65);
    v.push(0x70);
    v.push(0x74);
    v.push(0x5f);
    v.push(0x70);
    v.push(0x69);
    v.push(0x6e);
    v.push(0x67);
    v.push(0x22);
    v.push(0x2c);
    v.push(0x22);
    v.push(0x6b);
    v.push(0x65);
    v.push(0x79);
    v.push(0x22);
    v.push(0x3a);
    v.push(0x22);
    assert(v@ =~= spec_lit_frag_accept_ping());
    v
}

/// The wire bytes `,"msg":"reject_ping"}`.
pub open spec fn spec_lit_frag_reject_ping() -> Seq<u8> {
    seq![0x2cu8, 0x22u8, 0x6du8, 0x73u8, 0x67u8, 0x22u8, 0x3au8, 0x22u8, 0x72u8, 0x65u8, 0x6au8, 0x65u8, 0x63u8, 0x74u8, 0x5fu8, 0x70u8, 0x69u8, 0x6eu8, 0x67u8, 0x22u8, 0x7du8]
}

/// Build the wire bytes `,"msg":"reject_ping"}`.
fn lit_frag_reject_ping() -> (r: Vec<u8>)
    ensures
        r@ == spec_lit_frag_reject_ping(),
{
    let mut v: Vec<u8> = Vec::new();
    v.push(0x2c);
    v.push(0x22);
    v.push(0x6d);
    v.push(0x73);
    v.push(0x67);
    v.push(0x22);
    v.push(0x3a);
    v.push(0x22);
    v.push(0x72);
    v.push(0x65);
    v.push(0x6a);
    v.push(0x65);
    v.push(0x63);
    v.push(0x74);
    v.push(0x5f);
    v.push(0x70);
    v.push(0x69);
    v.push(0x6e);
    v.push(0x67);
    v.push(0x22);
    v.push(0x7d);
    assert(v@ =~= spec_lit_frag_reject_ping());
    v
}

/// The wire bytes `,"msg":"ping","info":"`.
pub open spec fn spec_lit_frag_ping() -> Seq<u8> {
    seq![0x2cu8, 0x22u8, 0x6du8, 0x73u8, 0x67u8, 0x22u8, 0x3au8, 0x22u8, 0x70u8, 0x69u8, 0x6eu8, 0x67u8, 0x22u8, 0x2cu8, 0x22u8, 0x69u8, 0x6eu8, 0x66u8, 0x6fu8, 0x22u8, 0x3au8, 0x22u8]
}

/// Build the wire bytes `,"msg":"ping","info":"`.
fn lit_frag_ping() -> (r: Vec<u8>)
    ensures
        r@ == spec_lit_frag_ping(),
{
    let mut v: Vec<u8> = Vec::new();
    v.push(0x2c);
    v.push(0x22);
    v.push(0x6d);
    v.push(0x73);
    v.push(0x67);
    v.push(0x22);
    v.push(0x3a);
    v.push(0x22);
    v.push(0x70);
    v.push(0x69);
    v.push(0x6e);
    v.push(0x67);
    v.push(0x22);
    v.push(0x2c);
    v.push(0x22);
    v.push(0x69);
    v.push(0x6e);
    v.push(0x66);
    v.push(0x6f);
    v.push(0x22);
    v.push(0x3a);
    v.push(0x22);
    assert(v@ =~= spec_lit_frag_ping());
    v
}

/// The wire bytes `,"msg":"ping_ack"}`.
pub open spec fn spec_lit_frag_ping_ack() -> Seq<u8> {
    seq![0x2cu8, 0x22u8, 0x6du8, 0x73u8, 0x67u8, 0x22u8, 0x3au8, 0x22u8, 0x70u8, 0x69u8, 0x6eu8, 0x67u8, 0x5fu8, 0x61u8, 0x63u8, 0x6bu8, 0x22u8, 0x7du8]
}

/// Build the wire bytes `,"msg":"ping_ack"}`.
fn lit_frag_ping_ack() -> (r: Vec<u8>)
    ensures
        r@ == spec_lit_frag_ping_ack(),
{
    let mut v: Vec<u8> = Vec::new();
    v.push(0x2c);
    v.push(0x22);
    v.push(0x6d);
    v.push(0x73);
    v.push(0x67);
    v.push(0x22);
    v.push(0x3a);
    v.push(0x22);
    v.push(0x70);
    v.push(0x69);
    v.push(0x6e);
    v.push(0x67);
    v.push(0x5f);
    v.push(0x61);
    v.push(0x63);
    v.push(0x6b);
    v.push(0x22);
    v.push(0x7d);
    assert(v@ =~= spec_lit_frag_ping_ack());
    v
}

/// The wire bytes `{"msg":"connected","id":`.
pub open spec fn spec_lit_srv_connected() -> Seq<u8> {
    seq![0x7bu8, 0x22u8, 0x6du8, 0x73u8, 0x67u8, 0x22u8, 0x3au8, 0x22u8, 0x63u8, 0x6fu8, 0x6eu8, 0x6eu8, 0x65u8, 0x63u8, 0x74u8, 0x65u8, 0x64u8, 0x22u8, 0x2cu8, 0x22u8, 0x69u8, 0x64u8, 0x22u8, 0x3au8]
}

/// Build the wire bytes `{"msg":"connected","id":`.
fn lit_srv_connected() -> (r: Vec<u8>)
    ensures
        r@ == spec_lit_srv_connected(),
{
    let mut v: Vec<u8> = Vec::new();
    v.push(0x7b);
    v.push(0x22);
    v.push(0x6d);
    v.push(0x73);
    v.push(0x67);
    v.push(0x22);
    v.push(0x3a);
    v.push(0x22);
    v.push(0x63);
    v.push(0x6f);
    v.push(0x6e);
    v.push(0x6e);
    v.push(0x65);
    v.push(0x63);
    v.push(0x74);
    v.push(0x65);
    v.push(0x64);
    v.push(0x22);
    v.push(0x2c);
    v.push(0x22);
    v.push(0x69);
    v.push(0x64);
    v.push(0x22);
    v.push(0x3a);
    assert(v@ =~= spec_lit_srv_connected());
    v
}

/// The wire bytes `{"msg":"no_such_id","id":`.
pub open spec fn spec_lit_srv_no_such_id() -> Seq<u8> {
    seq![0x7bu8, 0x22u8, 0x6du8, 0x73u8, 0x67u8, 0x22u8, 0x3au8, 0x22u8, 0x6eu8, 0x6fu8, 0x5fu8, 0x73u8, 0x75u8, 0x63u8, 0x68u8, 0x5fu8, 0x69u8, 0x64u8, 0x22u8, 0x2cu8, 0x22u8, 0x69u8, 0x64u8, 0x22u8, 0x3au8]
}

/// Build the wire bytes `{"msg":"no_such_id","id":`.
fn lit_srv_no_such_id() -> (r: Vec<u8>)
    ensures
        r@ == spec_lit_srv_no_such_id(),
{
    let mut v: Vec<u8> = Vec::new();
    v.push(0x7b);
    v.push(0x22);
    v.push(0x6d);
    v.push(0x73);
    v.push(0x67);
    v.push(0x22);
    v.push(0x3a);
    v.push(0x22);
    v.push(0x6e);
    v.push(0x6f);
    v.push(0x5f);
    v.push(0x73);
    v.push(0x75);
    v.push(0x63);
    v.push(0x68);
    v.push(0x5f);
    v.push(0x69);
    v.push(0x64);
    v.push(0x22);
    v.push(0x2c);
    v.push(0x22);
    v.push(0x69);
    v.push(0x64);
    v.push(0x22);
    v.push(0x3a);
    assert(v@ =~= spec_lit_srv_no_such_id());
    v
}

/// The wire bytes `{"msg":"error","details":"`.
pub open spec fn spec_lit_srv_error() -> Seq<u8> {
    seq![0x7bu8, 0x22u8, 0x6du8, 0x73u8, 0x67u8, 0x22u8, 0x3au8, 0x22u8, 0x65u8, 0x72u8, 0x72u8, 0x6fu8, 0x72u8, 0x22u8, 0x2cu8, 0x22u8, 0x64u8, 0x65u8, 0x74u8, 0x61u8, 0x69u8, 0x6cu8, 0x73u8, 0x22u8, 0x3au8, 0x22u8]
}

/// Build the wire bytes `{"msg":"error","details":"`.
fn lit_srv_error() -> (r: Vec<u8>)
    ensures
        r@ == spec_lit_srv_error(),
{
    let mut v: Vec<u8> = Vec::new();
    v.push(0x7b);
    v.push(0x22);
    v.push(0x6d);
    v.push(0x73);
    v.push(0x67);
    v.push(0x22);
    v.push(0x3a);
    v.push(0x22);
    v.push(0x65);
    v.push(0x72);
    v.push(0x72);
    v.push(0x6f);
    v.push(0x72);
    v.push(0x22);
    v.push(0x2c);
    v.push(0x22);
    v.push(0x64);
    v.push(0x65);
    v.push(0x74);
    v.push(0x61);
    v.push(0x69);
    v.push(0x6c);
    v.push(0x73);
    v.push(0x22);
    v.push(0x3a);
    v.push(0x22);
    assert(v@ =~= spec_lit_srv_error());
    v
}

/// The wire bytes `"}`.
pub open spec fn spec_lit_close_str() -> Seq<u8> {
    seq![0x22u8, 0x7du8]
}

/// Build the wire bytes `"}`.
fn lit_close_str() -> (r: Vec<u8>)
    ensures
        r@ == spec_lit_close_str(),
{
    let mut v: Vec<u8> = Vec::new();
    v.push(0x22);
    v.push(0x7d);
    assert(v@ =~= spec_lit_close_str());
    v
}

/// An ASCII decimal digit.
pub open spec fn spec_is_digit(b: u8) -> bool {
    0x30 <= b <= 0x39
}

/// The canonical decimal digits of `n`: no sign, no leading zeros.
pub open spec fn spec_dec(n: nat) -> Seq<u8>
    decreases n,
{
    if n < 10 {
        seq![(0x30 + n) as u8]
    } else {
        spec_dec(n / 10) + seq![(0x30 + n % 10) as u8]
    }
}

/// Decimal digit strings are nonempty and all digits.
pub proof fn lemma_dec_digits(n: nat)
    ensures
        spec_dec(n).len() >= 1,
        forall|i: int| 0 <= i < spec_dec(n).len() ==> spec_is_digit(#[trigger] spec_dec(n)[i]),
    decreases n,
{
    if n >= 10 {
        lemma_dec_digits(n / 10);
    }
}

/// A positive number's digits do not start with zero.
pub proof fn lemma_dec_no_leading_zero(n: nat)
    ensures
        n >= 1 ==> spec_dec(n)[0] != 0x30,
    decreases n,
{
    if n >= 10 {
        lemma_dec_no_leading_zero(n / 10);
        lemma_dec_digits(n / 10);
    }
}

/// The canonical digits of a number determine it.
pub proof fn lemma_dec_injective(a: nat, b: nat)
    requires
        spec_dec(a) == spec_dec(b),
    ensures
        a == b,
    decreases a,
{
    lemma_dec_digits(a);
    lemma_dec_digits(b);
    if a < 10 && b < 10 {
        assert(spec_dec(a)[0] == (0x30 + a) as u8);
        assert(spec_dec(b)[0] == (0x30 + b) as u8);
        assert((0x30 + a) as u8 == 0x30 + a);
        assert((0x30 + b) as u8 == 0x30 + b);
    } else if a < 10 {
        lemma_dec_digits(b / 10);
        assert(spec_dec(b).len() >= 2);
    } else if b < 10 {
        lemma_dec_digits(a / 10);
        assert(spec_dec(a).len() >= 2);
    } else {
        let la = spec_dec(a).len() as int;
        assert(a % 10 < 10 && b % 10 < 10);
        assert(spec_dec(a)[la - 1] == (0x30 + a % 10) as u8);
        assert(spec_dec(b)[la - 1] == (0x30 + b % 10) as u8);
        assert((0x30 + a % 10) as u8 == 0x30 + a % 10);
        assert((0x30 + b % 10) as u8 == 0x30 + b % 10);
        assert(a % 10 == b % 10);
        assert(spec_dec(a).subrange(0, la - 1) =~= spec_dec(a / 10));
        assert(spec_dec(b).subrange(0, la - 1) =~= spec_dec(b / 10));
        lemma_dec_injective(a / 10, b / 10);
        vstd::arithmetic::div_mod::lemma_fundamental_div_mod(a as int, 10);
        vstd::arithmetic::div_mod::lemma_fundamental_div_mod(b as int, 10);
        assert(a == 10 * (a / 10) + a % 10);
        assert(b == 10 * (b / 10) + b % 10);
    }
}

/// Numbers below 100000 have at most five digits.
pub proof fn lemma_dec_len5(n: nat)
    requires
        n < 100000,
    ensures
        spec_dec(n).len() <= 5,
{
    let n1 = n / 10;
    let n2 = n1 / 10;
    let n3 = n2 / 10;
    let n4 = n3 / 10;
    assert(n1 < 10000);
    assert(n2 < 1000);
    assert(n3 < 100);
    assert(n4 < 10);
    assert(spec_dec(n4).len() == 1);
    assert(spec_dec(n3).len() <= 2);
    assert(spec_dec(n2).len() <= 3);
    assert(spec_dec(n1).len() <= 4);
}

/// Appending one more digit to a positive number's digits.
pub proof fn lemma_dec_snoc(acc: nat, d: nat)
    requires
        1 <= acc,
        d < 10,
    ensures
        spec_dec(acc * 10 + d) == spec_dec(acc) + seq![(0x30 + d) as u8],
{
    assert((acc * 10 + d) / 10 == acc && (acc * 10 + d) % 10 == d) by (nonlinear_arith)
        requires
            1 <= acc,
            0 <= d < 10,
    ;
    assert(acc * 10 + d >= 10) by (nonlinear_arith)
        requires
            1 <= acc,
            0 <= d,
    ;
}

/// Two canonical digit runs at the same start with non-digit terminators end
/// at the same place and carry the same number.
pub proof fn lemma_dec_region(s: Seq<u8>, i: int, x: nat, jx: int, y: nat, jy: int)
    requires
        0 <= i <= jx <= s.len(),
        i <= jy <= s.len(),
        s.subrange(i, jx) == spec_dec(x),
        jx == s.len() || !spec_is_digit(s[jx]),
        s.subrange(i, jy) == spec_dec(y),
        jy == s.len() || !spec_is_digit(s[jy]),
    ensures
        x == y,
        jx == jy,
{
    lemma_dec_digits(x);
    lemma_dec_digits(y);
    if jx < jy {
        assert(s[jx] == spec_dec(y)[jx - i]);
        assert(spec_is_digit(spec_dec(y)[jx - i]));
    } else if jy < jx {
        assert(s[jy] == spec_dec(x)[jy - i]);
        assert(spec_is_digit(spec_dec(x)[jy - i]));
    }
    assert(jx == jy);
    lemma_dec_injective(x, y);
}

/// Append the canonical decimal digits of `x` to `out`.
fn push_dec_u16(out: &mut Vec<u8>, x: u16)
    ensures
        final(out)@ == old(out)@ + spec_dec(x as nat),
    decreases x,
{
    if x < 10 {
        out.push(0x30 + (x as u8));
        assert(out@ =~= old(out)@ + spec_dec(x as nat));
    } else {
        push_dec_u16(out, x / 10);
        out.push(0x30 + ((x % 10) as u8));
        assert(out@ =~= old(out)@ + (spec_dec((x / 10) as nat) + seq![(0x30 + (x % 10) as nat) as u8]));
        assert(spec_dec(x as nat) == spec_dec((x as nat) / 10) + seq![(0x30 + (x as nat) % 10) as u8]);
        assert((x / 10) as nat == (x as nat) / 10);
        assert((x % 10) as nat == (x as nat) % 10);
    }
}


/// The lowercase hex digit for a 4-bit value.
pub open spec fn spec_hex_digit(v: u8) -> u8
    recommends
        v < 16,
{
    if v < 10 {
        (0x30 + v) as u8
    } else {
        (0x61 + (v - 10)) as u8
    }
}

/// The JSON escape of one byte, exactly as the reference encoder writes it:
/// quote and backslash escaped, the five short control escapes, `\u00xx` for
/// the remaining control bytes, every other byte unchanged.
pub open spec fn spec_esc_byte(b: u8) -> Seq<u8> {
    if b == 0x22 {
        seq![0x5cu8, 0x22u8]
    } else if b == 0x5c {
        seq![0x5cu8, 0x5cu8]
    } else if b == 0x08 {
        seq![0x5cu8, 0x62u8]
    } else if b == 0x09 {
        seq![0x5cu8, 0x74u8]
    } else if b == 0x0a {
        seq![0x5cu8, 0x6eu8]
    } else if b == 0x0c {
        seq![0x5cu8, 0x66u8]
    } else if b == 0x0d {
        seq![0x5cu8, 0x72u8]
    } else if b < 0x20 {
        seq![0x5cu8, 0x75u8, 0x30u8, 0x30u8, spec_hex_digit(b >> 4), spec_hex_digit(b & 15)]
    } else {
        seq![b]
    }
}

/// The JSON escape of a byte string.
pub open spec fn spec_escape(s: Seq<u8>) -> Seq<u8>
    decreases s.len(),
{
    if s.len() == 0 {
        Seq::empty()
    } else {
        spec_esc_byte(s[0]) + spec_escape(s.skip(1))
    }
}

/// Escaping one more byte extends the escape of the prefix.
pub proof fn lemma_escape_snoc(s: Seq<u8>, b: u8)
    ensures
        spec_escape(s.push(b)) == spec_escape(s) + spec_esc_byte(b),
    decreases s.len(),
{
    if s.len() == 0 {
        let p = s.push(b);
        assert(p.len() == 1 && p[0] == b);
        assert(p.skip(1) =~= Seq::<u8>::empty());
        assert(spec_escape(p) == spec_esc_byte(b) + spec_escape(p.skip(1)));
        assert(spec_escape(Seq::<u8>::empty()) == Seq::<u8>::empty());
        assert(spec_esc_byte(b) + Seq::<u8>::empty() =~= spec_esc_byte(b));
        assert(spec_escape(s) + spec_esc_byte(b) =~= spec_esc_byte(b));
    } else {
        assert(s.push(b)[0] == s[0]);
        assert(s.push(b).skip(1) =~= s.skip(1).push(b));
        lemma_escape_snoc(s.skip(1), b);
        assert(spec_escape(s.push(b)) =~= spec_escape(s) + spec_esc_byte(b));
    }
}

/// Append the JSON escape of `s` to `out`.
fn push_escaped(out: &mut Vec<u8>, s: &[u8])
    ensures
        final(out)@ == old(out)@ + spec_escape(s@),
{
    let mut i: usize = 0;
    while i < s.len()
        invariant
            i <= s@.len(),
            out@ == old(out)@ + spec_escape(s@.subrange(0, i as int)),
        decreases s@.len() - i,
    {
        let b = *vstd::slice::slice_index_get(s, i);
        let ghost pre = out@;
        if b == 0x22 {
            out.push(0x5c);
            out.push(0x22);
        } else if b == 0x5c {
            out.push(0x5c);
            out.push(0x5c);
        } else if b == 0x08 {
            out.push(0x5c);
            out.push(0x62);
        } else if b == 0x09 {
            out.push(0x5c);
            out.push(0x74);
        } else if b == 0x0a {
            out.push(0x5c);
            out.push(0x6e);
        } else if b == 0x0c {
            out.push(0x5c);
            out.push(0x66);
        } else if b == 0x0d {
            out.push(0x5c);
            out.push(0x72);
        } else if b < 0x20 {
            proof {
                assert(b >> 4 < 10) by (bit_vector)
                    requires
                        b < 0x20,
                ;
                assert(b & 15 < 16) by (bit_vector);
            }
            out.push(0x5c);
            out.push(0x75);
            out.push(0x30);
            out.push(0x30);
            out.push(0x30 + (b >> 4));
            let lo = b & 15;
            if lo < 10 {
                out.push(0x30 + lo);
            } else {
                out.push(0x61 + (lo - 10));
            }
        } else {
            out.push(b);
        }
        assert(out@ =~= pre + spec_esc_byte(b));
        proof {
            lemma_escape_snoc(s@.subrange(0, i as int), b);
            assert(s@.subrange(0, i + 1) =~= s@.subrange(0, i as int).push(b));
        }
        i = i + 1;
    }
    assert(s@.subrange(0, s@.len() as int) =~= s@);
}


/// The wire bytes of a client-to-client message body: the `msg` tag and its
/// fields, as they follow the routing field, closing the object.
pub open spec fn spec_ccm_json(msg: ClientClientMessage) -> Seq<u8> {
    match msg {
        ClientClientMessage::PingRequest { key } => spec_lit_frag_ping_request() + spec_b64url(key@)
            + spec_lit_close_str(),
        ClientClientMessage::AcceptPing { key } => spec_lit_frag_accept_ping() + spec_b64url(key@)
            + spec_lit_close_str(),
        ClientClientMessage::RejectPing => spec_lit_frag_reject_ping(),
        ClientClientMessage::Ping { info } => spec_lit_frag_ping() + spec_b64url(info@)
            + spec_lit_close_str(),
        ClientClientMessage::PingAck => spec_lit_frag_ping_ack(),
    }
}

/// The wire bytes of an upstream message.
pub open spec fn spec_up_json(m: ClientUpMessage) -> Seq<u8> {
    spec_lit_obj_to() + spec_dec(m.to.0 as nat) + spec_ccm_json(m.msg)
}

/// The wire bytes of a downstream message.
pub open spec fn spec_down_json(m: ClientDownMessage) -> Seq<u8> {
    match m {
        ClientDownMessage::FromClient { from, msg } => spec_lit_obj_from() + spec_dec(
            from.0 as nat,
        ) + spec_ccm_json(msg),
        ClientDownMessage::FromServer { msg } => match msg {
            ServerClientMessage::Connected { id } => spec_lit_srv_connected() + spec_dec(
                id.0 as nat,
            ) + seq![0x7du8],
            ServerClientMessage::NoSuchId { id } => spec_lit_srv_no_such_id() + spec_dec(
                id.0 as nat,
            ) + seq![0x7du8],
            ServerClientMessage::Error { details } => spec_lit_srv_error() + spec_escape(details@)
                + spec_lit_close_str(),
        },
    }
}

/// Append the wire bytes of a client-to-client message body to `out`.
fn push_ccm(out: &mut Vec<u8>, msg: &ClientClientMessage)
    ensures
        final(out)@ == old(out)@ + spec_ccm_json(*msg),
{
    match msg {
        ClientClientMessage::PingRequest { key } => {
            push_bytes(out, lit_frag_ping_request().as_slice());
            let b = b64_encode(key.0.as_slice());
            push_bytes(out, b.as_slice());
            push_bytes(out, lit_close_str().as_slice());
            assert(out@ =~= old(out)@ + spec_ccm_json(*msg));
        },
        ClientClientMessage::AcceptPing { key } => {
            push_bytes(out, lit_frag_accept_ping().as_slice());
            let b = b64_encode(key.0.as_slice());
            push_bytes(out, b.as_slice());
            push_bytes(out, lit_close_str().as_slice());
            assert(out@ =~= old(out)@ + spec_ccm_json(*msg));
        },
        ClientClientMessage::RejectPing => {
            push_bytes(out, lit_frag_reject_ping().as_slice());
            assert(out@ =~= old(out)@ + spec_ccm_json(*msg));
        },
        ClientClientMessage::Ping { info } => {
            push_bytes(out, lit_frag_ping().as_slice());
            let bytes = info.to_bytes();
            let b = b64_encode(bytes.as_slice());
            push_bytes(out, b.as_slice());
            push_bytes(out, lit_close_str().as_slice());
            assert(out@ =~= old(out)@ + spec_ccm_json(*msg));
        },
        ClientClientMessage::PingAck => {
            push_bytes(out, lit_frag_ping_ack().as_slice());
            assert(out@ =~= old(out)@ + spec_ccm_json(*msg));
        },
    }
}

impl ClientUpMessage {
    /// Serialize this message to its exact wire bytes.
    pub fn serialize(&self) -> (r: Vec<u8>)
        ensures
            r@ == spec_up_json(*self),
    {
        let mut out: Vec<u8> = Vec::new();
        push_bytes(&mut out, lit_obj_to().as_slice());
        push_dec_u16(&mut out, self.to.0);
        push_ccm(&mut out, &self.msg);
        assert(out@ =~= spec_up_json(*self));
        out
    }
}

impl ClientDownMessage {
    /// Serialize this message to its exact wire bytes.
    pub fn serialize(&self) -> (r: Vec<u8>)
        ensures
            r@ == spec_down_json(*self),
    {
        let mut out: Vec<u8> = Vec::new();
        match self {
            ClientDownMessage::FromClient { from, msg } => {
                push_bytes(&mut out, lit_obj_from().as_slice());
                push_dec_u16(&mut out, from.0);
                push_ccm(&mut out, msg);
                assert(out@ =~= spec_down_json(*self));
            },
            ClientDownMessage::FromServer { msg } => {
                match msg {
                    ServerClientMessage::Connected { id } => {
                        push_bytes(&mut out, lit_srv_connected().as_slice());
                        push_dec_u16(&mut out, id.0);
                        out.push(0x7d);
                        assert(out@ =~= spec_down_json(*self));
                    },
                    ServerClientMessage::NoSuchId { id } => {
                        push_bytes(&mut out, lit_srv_no_such_id().as_slice());
                        push_dec_u16(&mut out, id.0);
                        out.push(0x7d);
                        assert(out@ =~= spec_down_json(*self));
                    },
                    ServerClientMessage::Error { details } => {
                        push_bytes(&mut out, lit_srv_error().as_slice());
                        push_escaped(&mut out, details.as_slice());
                        push_bytes(&mut out, lit_close_str().as_slice());
                        assert(out@ =~= spec_down_json(*self));
                    },
                }
            },
        }
        out
    }
}

/// `s` carries `pat` at offset `i`.
pub open spec fn spec_starts_with(s: Seq<u8>, i: int, pat: Seq<u8>) -> bool {
    &&& 0 <= i
    &&& i + pat.len() <= s.len()
    &&& s.subrange(i, i + pat.len()) == pat
}

/// Compare the bytes of `s` at offset `i` against `pat`.
fn match_bytes(s: &[u8], i: usize, pat: &[u8]) -> (r: bool)
    requires
        i <= s@.len(),
    ensures
        r == spec_starts_with(s@, i as int, pat@),
{
    let n = s.len();
    if n - i < pat.len() {
        return false;
    }
    let mut j: usize = 0;
    while j < pat.len()
        invariant
            n == s@.len(),
            i + pat@.len() <= n,
            j <= pat@.len(),
            forall|k: int| 0 <= k < j ==> s@[i + k] == pat@[k],
        decreases pat@.len() - j,
    {
        if *vstd::slice::slice_index_get(s, i + j) != *vstd::slice::slice_index_get(pat, j) {
            proof {
                assert(s@.subrange(i as int, i + pat@.len())[j as int] == s@[i + j]);
            }
            return false;
        }
        j = j + 1;
    }
    proof {
        assert(s@.subrange(i as int, i + pat@.len()) =~= pat@);
    }
    true
}

/// Powers of ten, to bound how many digits a scan may take.
pub open spec fn spec_pow10(k: nat) -> nat
    decreases k,
{
    if k == 0 {
        1
    } else {
        10 * spec_pow10((k - 1) as nat)
    }
}

/// Powers of ten are positive.
proof fn lemma_pow10_pos(k: nat)
    ensures
        spec_pow10(k) >= 1,
    decreases k,
{
    if k > 0 {
        lemma_pow10_pos((k - 1) as nat);
    }
}

/// Powers of ten grow with the exponent.
proof fn lemma_pow10_mono(a: nat, b: nat)
    requires
        a <= b,
    ensures
        spec_pow10(a) <= spec_pow10(b),
    decreases b,
{
    if a < b {
        lemma_pow10_mono(a, (b - 1) as nat);
        lemma_pow10_pos((b - 1) as nat);
        assert(spec_pow10(b) == 10 * spec_pow10((b - 1) as nat));
    }
}

/// Read a canonical decimal number at offset `i`: at least one digit, no
/// leading zero, at most five digits, value at most 65535, ending before a
/// non-digit. Returns the value and the offset just past the digits; `None`
/// exactly when no canonical `u16` number ends at a non-digit here.
fn parse_dec_u16(s: &[u8], i: usize) -> (r: Option<(u16, usize)>)
    requires
        i <= s@.len(),
    ensures
        r matches Some(p) ==> i < p.1 <= s@.len() && s@.subrange(i as int, p.1 as int) == spec_dec(
            p.0 as nat,
        ) && (p.1 == s@.len() || !spec_is_digit(s@[p.1 as int])),
        r is None ==> forall|x: u16, j: int|
            #![trigger spec_dec(x as nat), s@.subrange(i as int, j)]
            i < j <= s@.len() && (j == s@.len() || !spec_is_digit(s@[j])) ==> s@.subrange(
                i as int,
                j,
            ) != spec_dec(x as nat),
{
    if i == s.len() {
        return None;
    }
    let b0 = *vstd::slice::slice_index_get(s, i);
    if !(0x30 <= b0 && b0 <= 0x39) {
        proof {
            assert forall|x: u16, j: int|
                i < j <= s@.len() && (j == s@.len() || !spec_is_digit(s@[j])) implies s@.subrange(
                i as int,
                j,
            ) != spec_dec(x as nat) by {
                lemma_dec_digits(x as nat);
                if s@.subrange(i as int, j) == spec_dec(x as nat) {
                    assert(s@.subrange(i as int, j)[0] == s@[i as int]);
                }
            }
        }
        return None;
    }
    if b0 == 0x30 {
        if i + 1 < s.len() {
            let b1 = *vstd::slice::slice_index_get(s, i + 1);
            if 0x30 <= b1 && b1 <= 0x39 {
                proof {
                    assert forall|x: u16, j: int|
                        i < j <= s@.len() && (j == s@.len() || !spec_is_digit(s@[j]))
                            implies s@.subrange(i as int, j) != spec_dec(x as nat) by {
                        lemma_dec_digits(x as nat);
                        lemma_dec_no_leading_zero(x as nat);
                        if s@.subrange(i as int, j) == spec_dec(x as nat) {
                            assert(s@.subrange(i as int, j)[0] == s@[i as int]);
                            assert(x == 0);
                            assert(j - i == spec_dec(0).len());
                        }
                    }
                }
                return None;
            }
        }
        proof {
            assert(s@.subrange(i as int, i + 1) =~= spec_dec(0));
        }
        return Some((0, i + 1));
    }
    let mut acc: u32 = (b0 - 0x30) as u32;
    let mut j: usize = i + 1;
    proof {
        assert(s@.subrange(i as int, i + 1) =~= spec_dec(acc as nat));
        assert(spec_pow10(1) == 10) by {
            reveal_with_fuel(spec_pow10, 2);
        }
    }
    while j < s.len() && *vstd::slice::slice_index_get(s, j) >= 0x30
        && *vstd::slice::slice_index_get(s, j) <= 0x39 && j - i < 5
        invariant
            i < j <= s@.len(),
            j - i <= 5,
            1 <= acc,
            acc < spec_pow10((j - i) as nat),
            s@.subrange(i as int, j as int) == spec_dec(acc as nat),
        decreases s@.len() - j,
    {
        let bj = *vstd::slice::slice_index_get(s, j);
        let d = bj - 0x30;
        proof {
            lemma_pow10_mono((j - i) as nat, 4);
            assert(spec_pow10(4) == 10000) by {
                reveal_with_fuel(spec_pow10, 5);
            }
            lemma_dec_snoc(acc as nat, d as nat);
            assert(s@.subrange(i as int, j + 1) =~= s@.subrange(i as int, j as int).push(
                s@[j as int],
            ));
            assert(spec_pow10((j + 1 - i) as nat) == 10 * spec_pow10((j - i) as nat));
        }
        acc = acc * 10 + (d as u32);
        j = j + 1;
    }
    if j < s.len() && {
        let bj = *vstd::slice::slice_index_get(s, j);
        0x30 <= bj && bj <= 0x39
    } {
        // a sixth digit would follow: no u16 has that many
        proof {
            assert forall|x: u16, jw: int|
                i < jw <= s@.len() && (jw == s@.len() || !spec_is_digit(s@[jw]))
                    implies s@.subrange(i as int, jw) != spec_dec(x as nat) by {
                lemma_dec_digits(x as nat);
                lemma_dec_digits(acc as nat);
                if s@.subrange(i as int, jw) == spec_dec(x as nat) {
                    lemma_dec_len5(x as nat);
                    let l = spec_dec(x as nat).len() as int;
                    assert(jw == i + l);
                    if jw < j {
                        assert(s@[jw] == s@.subrange(i as int, j as int)[jw - i]);
                        assert(spec_is_digit(spec_dec(acc as nat)[jw - i]));
                    } else {
                        assert(jw == j);
                        assert(spec_is_digit(s@[j as int]));
                    }
                }
            }
        }
        return None;
    }
    // the digit run ends at j: either the end of input or a non-digit
    if acc > 65535 {
        proof {
            assert forall|x: u16, jw: int|
                i < jw <= s@.len() && (jw == s@.len() || !spec_is_digit(s@[jw]))
                    implies s@.subrange(i as int, jw) != spec_dec(x as nat) by {
                if s@.subrange(i as int, jw) == spec_dec(x as nat) {
                    lemma_dec_region(s@, i as int, x as nat, jw, acc as nat, j as int);
                }
            }
        }
        return None;
    }
    Some((acc as u16, j))
}

/// A byte string that is five consecutive regions is their concatenation.
proof fn lemma_five_regions(
    s: Seq<u8>,
    p1: Seq<u8>,
    p2: Seq<u8>,
    p3: Seq<u8>,
    p4: Seq<u8>,
    p5: Seq<u8>,
)
    requires
        s.len() == p1.len() + p2.len() + p3.len() + p4.len() + p5.len(),
        s.subrange(0, p1.len() as int) == p1,
        s.subrange(p1.len() as int, (p1.len() + p2.len()) as int) == p2,
        s.subrange((p1.len() + p2.len()) as int, (p1.len() + p2.len() + p3.len()) as int) == p3,
        s.subrange(
            (p1.len() + p2.len() + p3.len()) as int,
            (p1.len() + p2.len() + p3.len() + p4.len()) as int,
        ) == p4,
        s.subrange((p1.len() + p2.len() + p3.len() + p4.len()) as int, s.len() as int) == p5,
    ensures
        s == p1 + p2 + p3 + p4 + p5,
{
    assert(s =~= p1 + p2 + p3 + p4 + p5);
}

/// Two patterns that differ at index `d` cannot both stand at the same offset.
proof fn lemma_not_both(s: Seq<u8>, j: int, f1: Seq<u8>, f2: Seq<u8>, d: int)
    requires
        0 <= d < f1.len(),
        d < f2.len(),
        f1[d] != f2[d],
        spec_starts_with(s, j, f1),
    ensures
        !spec_starts_with(s, j, f2),
{
    if spec_starts_with(s, j, f2) {
        assert(s.subrange(j, j + f1.len() as int)[d] == s[j + d]);
        assert(s.subrange(j, j + f2.len() as int)[d] == s[j + d]);
    }
}

/// What the region of a client-to-client message body looks like: exactly the
/// message's own tag fragment stands at its head, and the payload fields lie
/// at fixed offsets after it.
proof fn lemma_ccm_shape(msg: ClientClientMessage, s: Seq<u8>, j: int)
    requires
        0 <= j,
        spec_starts_with(s, j, spec_ccm_json(msg)),
        j + spec_ccm_json(msg).len() == s.len(),
    ensures
        spec_starts_with(s, j, spec_lit_frag_ping_request()) <==> msg is PingRequest,
        spec_starts_with(s, j, spec_lit_frag_accept_ping()) <==> msg is AcceptPing,
        spec_starts_with(s, j, spec_lit_frag_reject_ping()) <==> msg is RejectPing,
        spec_starts_with(s, j, spec_lit_frag_ping()) <==> msg is Ping,
        spec_starts_with(s, j, spec_lit_frag_ping_ack()) <==> msg is PingAck,
        msg matches ClientClientMessage::PingRequest { key } ==> s.len() == j + 74 && s.subrange(
            j + 29,
            j + 72,
        ) == spec_b64url(key@) && spec_starts_with(s, j + 72, spec_lit_close_str()),
        msg matches ClientClientMessage::AcceptPing { key } ==> s.len() == j + 73 && s.subrange(
            j + 28,
            j + 71,
        ) == spec_b64url(key@) && spec_starts_with(s, j + 71, spec_lit_close_str()),
        msg is RejectPing ==> s.len() == j + 21,
        msg matches ClientClientMessage::Ping { info } ==> s.len() == j + 110 && s.subrange(
            j + 22,
            j + 108,
        ) == spec_b64url(info@) && spec_starts_with(s, j + 108, spec_lit_close_str()),
        msg is PingAck ==> s.len() == j + 18,
{
    match msg {
        ClientClientMessage::PingRequest { key } => {
            lemma_b64url_len(key@);
            let f = spec_lit_frag_ping_request();
            let whole = s.subrange(j, j + 74);
            assert(whole == spec_ccm_json(msg));
            assert(forall|k: int| 0 <= k < 74 ==> whole[k] == s[j + k]);
            assert(s.subrange(j, j + 29) =~= f);
            assert forall|k: int| 0 <= k < 43 implies s[j + 29 + k] == spec_b64url(key@)[k] by {
                assert(whole[29 + k] == s[j + 29 + k]);
                assert(spec_ccm_json(msg)[29 + k] == spec_b64url(key@)[k]);
            }
            assert(s.subrange(j + 29, j + 72) =~= spec_b64url(key@));
            assert forall|k: int| 0 <= k < 2 implies s[j + 72 + k] == spec_lit_close_str()[k] by {
                assert(whole[72 + k] == s[j + 72 + k]);
                assert(spec_ccm_json(msg)[72 + k] == spec_lit_close_str()[k]);
            }
            assert(s.subrange(j + 72, j + 74) =~= spec_lit_close_str());
            lemma_not_both(s, j, f, spec_lit_frag_accept_ping(), 8);
            lemma_not_both(s, j, f, spec_lit_frag_reject_ping(), 8);
            lemma_not_both(s, j, f, spec_lit_frag_ping(), 12);
            lemma_not_both(s, j, f, spec_lit_frag_ping_ack(), 13);
        },
        ClientClientMessage::AcceptPing { key } => {
            lemma_b64url_len(key@);
            let f = spec_lit_frag_accept_ping();
            let whole = s.subrange(j, j + 73);
            assert(whole == spec_ccm_json(msg));
            assert(forall|k: int| 0 <= k < 73 ==> whole[k] == s[j + k]);
            assert(s.subrange(j, j + 28) =~= f);
            assert forall|k: int| 0 <= k < 43 implies s[j + 28 + k] == spec_b64url(key@)[k] by {
                assert(whole[28 + k] == s[j + 28 + k]);
                assert(spec_ccm_json(msg)[28 + k] == spec_b64url(key@)[k]);
            }
            assert(s.subrange(j + 28, j + 71) =~= spec_b64url(key@));
            assert forall|k: int| 0 <= k < 2 implies s[j + 71 + k] == spec_lit_close_str()[k] by {
                assert(whole[71 + k] == s[j + 71 + k]);
                assert(spec_ccm_json(msg)[71 + k] == spec_lit_close_str()[k]);
            }
            assert(s.subrange(j + 71, j + 73) =~= spec_lit_close_str());
            lemma_not_both(s, j, f, spec_lit_frag_ping_request(), 8);
            lemma_not_both(s, j, f, spec_lit_frag_reject_ping(), 8);
            lemma_not_both(s, j, f, spec_lit_frag_ping(), 8);
            lemma_not_both(s, j, f, spec_lit_frag_ping_ack(), 8);
        },
        ClientClientMessage::RejectPing => {
            let f = spec_lit_frag_reject_ping();
            assert(s.subrange(j, j + 21) =~= f);
            lemma_not_both(s, j, f, spec_lit_frag_ping_request(), 8);
            lemma_not_both(s, j, f, spec_lit_frag_accept_ping(), 8);
            lemma_not_both(s, j, f, spec_lit_frag_ping(), 8);
            lemma_not_both(s, j, f, spec_lit_frag_ping_ack(), 8);
        },
        ClientClientMessage::Ping { info } => {
            crate::crypto::lemma_encrypted_ping_info_len(info);
            lemma_b64url_len(info@);
            let f = spec_lit_frag_ping();
            let whole = s.subrange(j, j + 110);
            assert(whole == spec_ccm_json(msg));
            assert(forall|k: int| 0 <= k < 110 ==> whole[k] == s[j + k]);
            assert(s.subrange(j, j + 22) =~= f);
            assert forall|k: int| 0 <= k < 86 implies s[j + 22 + k] == spec_b64url(info@)[k] by {
                assert(whole[22 + k] == s[j + 22 + k]);
                assert(spec_ccm_json(msg)[22 + k] == spec_b64url(info@)[k]);
            }
            assert(s.subrange(j + 22, j + 108) =~= spec_b64url(info@));
            assert forall|k: int| 0 <= k < 2 implies s[j + 108 + k] == spec_lit_close_str()[k] by {
                assert(whole[108 + k] == s[j + 108 + k]);
                assert(spec_ccm_json(msg)[108 + k] == spec_lit_close_str()[k]);
            }
            assert(s.subrange(j + 108, j + 110) =~= spec_lit_close_str());
            lemma_not_both(s, j, f, spec_lit_frag_ping_request(), 12);
            lemma_not_both(s, j, f, spec_lit_frag_accept_ping(), 8);
            lemma_not_both(s, j, f, spec_lit_frag_reject_ping(), 8);
            lemma_not_both(s, j, f, spec_lit_frag_ping_ack(), 12);
        },
        ClientClientMessage::PingAck => {
            let f = spec_lit_frag_ping_ack();
            assert(s.subrange(j, j + 18) =~= f);
            lemma_not_both(s, j, f, spec_lit_frag_ping_request(), 13);
            lemma_not_both(s, j, f, spec_lit_frag_accept_ping(), 8);
            lemma_not_both(s, j, f, spec_lit_frag_reject_ping(), 8);
            lemma_not_both(s, j, f, spec_lit_frag_ping(), 12);
        },
    }
}

/// How an upstream wire message decomposes: the routing literal, the
/// destination's digits ended by a non-digit, then the message body.
proof fn lemma_up_shape(m: ClientUpMessage, s: Seq<u8>)
    requires
        s == spec_up_json(m),
    ensures
        spec_starts_with(s, 0, spec_lit_obj_to()),
        6 + spec_dec(m.to.0 as nat).len() + spec_ccm_json(m.msg).len() == s.len(),
        s.subrange(6, 6 + spec_dec(m.to.0 as nat).len() as int) == spec_dec(m.to.0 as nat),
        !spec_is_digit(s[6 + spec_dec(m.to.0 as nat).len() as int]),
        spec_starts_with(s, 6 + spec_dec(m.to.0 as nat).len() as int, spec_ccm_json(m.msg)),
{
    let dl = spec_dec(m.to.0 as nat).len() as int;
    lemma_dec_digits(m.to.0 as nat);
    lemma_ccm_first(m.msg);
    assert(s.subrange(0, 6) =~= spec_lit_obj_to());
    assert(s.subrange(6, 6 + dl) =~= spec_dec(m.to.0 as nat));
    assert(s.subrange(6 + dl, s.len() as int) =~= spec_ccm_json(m.msg));
    assert(s[6 + dl] == spec_ccm_json(m.msg)[0]);
}

/// Every message body region opens with the comma before its tag.
proof fn lemma_ccm_first(msg: ClientClientMessage)
    ensures
        spec_ccm_json(msg).len() >= 18,
        spec_ccm_json(msg)[0] == 0x2c,
{
    match msg {
        ClientClientMessage::PingRequest { key } => {
            lemma_b64url_len(key@);
            assert(spec_ccm_json(msg)[0] == spec_lit_frag_ping_request()[0]);
        },
        ClientClientMessage::AcceptPing { key } => {
            lemma_b64url_len(key@);
            assert(spec_ccm_json(msg)[0] == spec_lit_frag_accept_ping()[0]);
        },
        ClientClientMessage::RejectPing => {},
        ClientClientMessage::Ping { info } => {
            crate::crypto::lemma_encrypted_ping_info_len(info);
            lemma_b64url_len(info@);
            assert(spec_ccm_json(msg)[0] == spec_lit_frag_ping()[0]);
        },
        ClientClientMessage::PingAck => {},
    }
}

/// Where the pieces of an upstream message lie, given where its digit run
/// was found: the destination, the body offset, and the body's shape.
proof fn lemma_up_locate(s: Seq<u8>, m: ClientUpMessage, to: u16, j: int)
    requires
        s == spec_up_json(m),
        6 <= j <= s.len(),
        s.subrange(6, j) == spec_dec(to as nat),
        j == s.len() || !spec_is_digit(s[j]),
    ensures
        m.to.0 == to,
        spec_starts_with(s, j, spec_ccm_json(m.msg)),
        j + spec_ccm_json(m.msg).len() == s.len(),
        spec_starts_with(s, j, spec_lit_frag_ping_request()) <==> m.msg is PingRequest,
        spec_starts_with(s, j, spec_lit_frag_accept_ping()) <==> m.msg is AcceptPing,
        spec_starts_with(s, j, spec_lit_frag_reject_ping()) <==> m.msg is RejectPing,
        spec_starts_with(s, j, spec_lit_frag_ping()) <==> m.msg is Ping,
        spec_starts_with(s, j, spec_lit_frag_ping_ack()) <==> m.msg is PingAck,
        m.msg matches ClientClientMessage::PingRequest { key } ==> s.len() == j + 74 && s.subrange(
            j + 29,
            j + 72,
        ) == spec_b64url(key@),
        m.msg matches ClientClientMessage::AcceptPing { key } ==> s.len() == j + 73 && s.subrange(
            j + 28,
            j + 71,
        ) == spec_b64url(key@),
        m.msg is RejectPing ==> s.len() == j + 21,
        m.msg matches ClientClientMessage::Ping { info } ==> s.len() == j + 110 && s.subrange(
            j + 22,
            j + 108,
        ) == spec_b64url(info@),
        m.msg is PingAck ==> s.len() == j + 18,
{
    lemma_up_shape(m, s);
    lemma_dec_region(
        s,
        6,
        to as nat,
        j,
        m.to.0 as nat,
        6 + spec_dec(m.to.0 as nat).len() as int,
    );
    lemma_ccm_shape(m.msg, s, j);
}

/// Parse a client-to-client message body that must fill `s` from offset `j`
/// to the end. Succeeds exactly on the canonical body of a message, and then
/// returns that message.
#[verifier::rlimit(100)]
fn parse_ccm_tail(s: &[u8], j: usize) -> (r: Option<ClientClientMessage>)
    requires
        j <= s@.len(),
    ensures
        r matches Some(msg) ==> spec_starts_with(s@, j as int, spec_ccm_json(msg)) && j
            + spec_ccm_json(msg).len() == s@.len(),
        forall|msg: ClientClientMessage|
            spec_starts_with(s@, j as int, #[trigger] spec_ccm_json(msg)) && j + spec_ccm_json(
                msg,
            ).len() == s@.len() ==> r == Some(msg),
{
    let frag_pr = lit_frag_ping_request();
    let frag_ac = lit_frag_accept_ping();
    let frag_rj = lit_frag_reject_ping();
    let frag_pg = lit_frag_ping();
    let frag_pa = lit_frag_ping_ack();
    let close = lit_close_str();
    if match_bytes(s, j, frag_pr.as_slice()) {
        if s.len() - j != 74 || !match_bytes(s, j + 72, close.as_slice()) {
            proof {
                assert forall|msg: ClientClientMessage|
                    !(spec_starts_with(s@, j as int, spec_ccm_json(msg)) && j + spec_ccm_json(
                        msg,
                    ).len() == s@.len()) by {
                    if spec_starts_with(s@, j as int, spec_ccm_json(msg)) && j + spec_ccm_json(
                        msg,
                    ).len() == s@.len() {
                        lemma_ccm_shape(msg, s@, j as int);
                    }
                }
            }
            return None;
        }
        match b64_decode(vstd::slice::slice_subrange(s, j + 29, j + 72)) {
            Some(kv) => {
                if kv.len() != 32 {
                    proof {
                        assert forall|msg: ClientClientMessage|
                            !(spec_starts_with(s@, j as int, spec_ccm_json(msg)) && j
                                + spec_ccm_json(msg).len() == s@.len()) by {
                            if spec_starts_with(s@, j as int, spec_ccm_json(msg)) && j
                                + spec_ccm_json(msg).len() == s@.len() {
                                lemma_ccm_shape(msg, s@, j as int);
                                match msg {
                                    ClientClientMessage::PingRequest { key } => {
                                        lemma_b64url_injective(kv@, key@);
                                    },
                                    _ => {},
                                }
                            }
                        }
                    }
                    return None;
                }
                let key = PublicKey(vec_to_array32(&kv));
                let m0 = ClientClientMessage::PingRequest { key };
                proof {
                    lemma_b64url_len(kv@);
                    let tail = s@.subrange(j as int, s@.len() as int);
                    assert(tail.subrange(0, 29) =~= s@.subrange(j as int, j + 29));
                    assert(tail.subrange(29, 72) =~= s@.subrange(j + 29, j + 72));
                    assert(tail.subrange(72, 74) =~= s@.subrange(j + 72, j + 74));
                    assert(tail.subrange(74, 74) =~= Seq::<u8>::empty());
                    lemma_five_regions(
                        tail,
                        spec_lit_frag_ping_request(),
                        spec_b64url(kv@),
                        spec_lit_close_str(),
                        Seq::<u8>::empty(),
                        Seq::<u8>::empty(),
                    );
                    assert(tail =~= spec_ccm_json(m0));
                    assert forall|msg: ClientClientMessage|
                        spec_starts_with(s@, j as int, spec_ccm_json(msg)) && j + spec_ccm_json(
                            msg,
                        ).len() == s@.len() implies msg == m0 by {
                        lemma_ccm_shape(msg, s@, j as int);
                        match msg {
                            ClientClientMessage::PingRequest { key: k2 } => {
                                lemma_b64url_injective(kv@, k2@);
                                assert(key.0 =~= k2.0);
                            },
                            _ => {},
                        }
                    }
                }
                return Some(m0);
            },
            None => {
                proof {
                    assert forall|msg: ClientClientMessage|
                        !(spec_starts_with(s@, j as int, spec_ccm_json(msg)) && j + spec_ccm_json(
                            msg,
                        ).len() == s@.len()) by {
                        if spec_starts_with(s@, j as int, spec_ccm_json(msg)) && j + spec_ccm_json(
                            msg,
                        ).len() == s@.len() {
                            lemma_ccm_shape(msg, s@, j as int);
                        }
                    }
                }
                return None;
            },
        }
    }
    if match_bytes(s, j, frag_ac.as_slice()) {
        if s.len() - j != 73 || !match_bytes(s, j + 71, close.as_slice()) {
            proof {
                assert forall|msg: ClientClientMessage|
                    !(spec_starts_with(s@, j as int, spec_ccm_json(msg)) && j + spec_ccm_json(
                        msg,
                    ).len() == s@.len()) by {
                    if spec_starts_with(s@, j as int, spec_ccm_json(msg)) && j + spec_ccm_json(
                        msg,
                    ).len() == s@.len() {
                        lemma_ccm_shape(msg, s@, j as int);
                    }
                }
            }
            return None;
        }
        match b64_decode(vstd::slice::slice_subrange(s, j + 28, j + 71)) {
            Some(kv) => {
                if kv.len() != 32 {
                    proof {
                        assert forall|msg: ClientClientMessage|
                            !(spec_starts_with(s@, j as int, spec_ccm_json(msg)) && j
                                + spec_ccm_json(msg).len() == s@.len()) by {
                            if spec_starts_with(s@, j as int, spec_ccm_json(msg)) && j
                                + spec_ccm_json(msg).len() == s@.len() {
                                lemma_ccm_shape(msg, s@, j as int);
                                match msg {
                                    ClientClientMessage::AcceptPing { key } => {
                                        lemma_b64url_injective(kv@, key@);
                                    },
                                    _ => {},
                                }
                            }
                        }
                    }
                    return None;
                }
                let key = PublicKey(vec_to_array32(&kv));
                let m0 = ClientClientMessage::AcceptPing { key };
                proof {
                    lemma_b64url_len(kv@);
                    let tail = s@.subrange(j as int, s@.len() as int);
                    assert(tail.subrange(0, 28) =~= s@.subrange(j as int, j + 28));
                    assert(tail.subrange(28, 71) =~= s@.subrange(j + 28, j + 71));
                    assert(tail.subrange(71, 73) =~= s@.subrange(j + 71, j + 73));
                    assert(tail.subrange(73, 73) =~= Seq::<u8>::empty());
                    lemma_five_regions(
                        tail,
                        spec_lit_frag_accept_ping(),
                        spec_b64url(kv@),
                        spec_lit_close_str(),
                        Seq::<u8>::empty(),
                        Seq::<u8>::empty(),
                    );
                    assert(tail =~= spec_ccm_json(m0));
                    assert forall|msg: ClientClientMessage|
                        spec_starts_with(s@, j as int, spec_ccm_json(msg)) && j + spec_ccm_json(
                            msg,
                        ).len() == s@.len() implies msg == m0 by {
                        lemma_ccm_shape(msg, s@, j as int);
                        match msg {
                            ClientClientMessage::AcceptPing { key: k2 } => {
                                lemma_b64url_injective(kv@, k2@);
                                assert(key.0 =~= k2.0);
                            },
                            _ => {},
                        }
                    }
                }
                return Some(m0);
            },
            None => {
                proof {
                    assert forall|msg: ClientClientMessage|
                        !(spec_starts_with(s@, j as int, spec_ccm_json(msg)) && j + spec_ccm_json(
                            msg,
                        ).len() == s@.len()) by {
                        if spec_starts_with(s@, j as int, spec_ccm_json(msg)) && j + spec_ccm_json(
                            msg,
                        ).len() == s@.len() {
                            lemma_ccm_shape(msg, s@, j as int);
                        }
                    }
                }
                return None;
            },
        }
    }
    if match_bytes(s, j, frag_rj.as_slice()) {
        if s.len() - j != 21 {
            proof {
                assert forall|msg: ClientClientMessage|
                    !(spec_starts_with(s@, j as int, spec_ccm_json(msg)) && j + spec_ccm_json(
                        msg,
                    ).len() == s@.len()) by {
                    if spec_starts_with(s@, j as int, spec_ccm_json(msg)) && j + spec_ccm_json(
                        msg,
                    ).len() == s@.len() {
                        lemma_ccm_shape(msg, s@, j as int);
                    }
                }
            }
            return None;
        }
        let m0 = ClientClientMessage::RejectPing;
        proof {
            assert(s@.subrange(j as int, s@.len() as int) == spec_ccm_json(m0));
            assert forall|msg: ClientClientMessage|
                spec_starts_with(s@, j as int, spec_ccm_json(msg)) && j + spec_ccm_json(msg).len()
                    == s@.len() implies msg == m0 by {
                lemma_ccm_shape(msg, s@, j as int);
            }
        }
        return Some(m0);
    }
    if match_bytes(s, j, frag_pg.as_slice()) {
        if s.len() - j != 110 || !match_bytes(s, j + 108, close.as_slice()) {
            proof {
                assert forall|msg: ClientClientMessage|
                    !(spec_starts_with(s@, j as int, spec_ccm_json(msg)) && j + spec_ccm_json(
                        msg,
                    ).len() == s@.len()) by {
                    if spec_starts_with(s@, j as int, spec_ccm_json(msg)) && j + spec_ccm_json(
                        msg,
                    ).len() == s@.len() {
                        lemma_ccm_shape(msg, s@, j as int);
                    }
                }
            }
            return None;
        }
        match b64_decode(vstd::slice::slice_subrange(s, j + 22, j + 108)) {
            Some(ev) => {
                if ev.len() != 64 {
                    proof {
                        assert forall|msg: ClientClientMessage|
                            !(spec_starts_with(s@, j as int, spec_ccm_json(msg)) && j
                                + spec_ccm_json(msg).len() == s@.len()) by {
                            if spec_starts_with(s@, j as int, spec_ccm_json(msg)) && j
                                + spec_ccm_json(msg).len() == s@.len() {
                                lemma_ccm_shape(msg, s@, j as int);
                                match msg {
                                    ClientClientMessage::Ping { info } => {
                                        crate::crypto::lemma_encrypted_ping_info_len(info);
                                        lemma_b64url_injective(ev@, info@);
                                    },
                                    _ => {},
                                }
                            }
                        }
                    }
                    return None;
                }
                let info = EncryptedPingInfo::from_bytes(vec_to_array64(&ev));
                let m0 = ClientClientMessage::Ping { info };
                proof {
                    lemma_b64url_len(ev@);
                    let tail = s@.subrange(j as int, s@.len() as int);
                    assert(tail.subrange(0, 22) =~= s@.subrange(j as int, j + 22));
                    assert(tail.subrange(22, 108) =~= s@.subrange(j + 22, j + 108));
                    assert(tail.subrange(108, 110) =~= s@.subrange(j + 108, j + 110));
                    assert(tail.subrange(110, 110) =~= Seq::<u8>::empty());
                    lemma_five_regions(
                        tail,
                        spec_lit_frag_ping(),
                        spec_b64url(ev@),
                        spec_lit_close_str(),
                        Seq::<u8>::empty(),
                        Seq::<u8>::empty(),
                    );
                    assert(tail =~= spec_ccm_json(m0));
                    assert forall|msg: ClientClientMessage|
                        spec_starts_with(s@, j as int, spec_ccm_json(msg)) && j + spec_ccm_json(
                            msg,
                        ).len() == s@.len() implies msg == m0 by {
                        lemma_ccm_shape(msg, s@, j as int);
                        match msg {
                            ClientClientMessage::Ping { info: i2 } => {
                                lemma_b64url_injective(ev@, i2@);
                                crate::crypto::lemma_encrypted_ping_info_eq(info, i2);
                            },
                            _ => {},
                        }
                    }
                }
                return Some(m0);
            },
            None => {
                proof {
                    assert forall|msg: ClientClientMessage|
                        !(spec_starts_with(s@, j as int, spec_ccm_json(msg)) && j + spec_ccm_json(
                            msg,
                        ).len() == s@.len()) by {
                        if spec_starts_with(s@, j as int, spec_ccm_json(msg)) && j + spec_ccm_json(
                            msg,
                        ).len() == s@.len() {
                            lemma_ccm_shape(msg, s@, j as int);
                        }
                    }
                }
                return None;
            },
        }
    }
    if match_bytes(s, j, frag_pa.as_slice()) {
        if s.len() - j != 18 {
            proof {
                assert forall|msg: ClientClientMessage|
                    !(spec_starts_with(s@, j as int, spec_ccm_json(msg)) && j + spec_ccm_json(
                        msg,
                    ).len() == s@.len()) by {
                    if spec_starts_with(s@, j as int, spec_ccm_json(msg)) && j + spec_ccm_json(
                        msg,
                    ).len() == s@.len() {
                        lemma_ccm_shape(msg, s@, j as int);
                    }
                }
            }
            return None;
        }
        let m0 = ClientClientMessage::PingAck;
        proof {
            assert(s@.subrange(j as int, s@.len() as int) == spec_ccm_json(m0));
            assert forall|msg: ClientClientMessage|
                spec_starts_with(s@, j as int, spec_ccm_json(msg)) && j + spec_ccm_json(msg).len()
                    == s@.len() implies msg == m0 by {
                lemma_ccm_shape(msg, s@, j as int);
            }
        }
        return Some(m0);
    }
    proof {
        assert forall|msg: ClientClientMessage|
            !(spec_starts_with(s@, j as int, spec_ccm_json(msg)) && j + spec_ccm_json(msg).len()
                == s@.len()) by {
            if spec_starts_with(s@, j as int, spec_ccm_json(msg)) && j + spec_ccm_json(msg).len()
                == s@.len() {
                lemma_ccm_shape(msg, s@, j as int);
            }
        }
    }
    None
}

impl ClientUpMessage {
    /// Parse an upstream wire message. Succeeds exactly on the canonical
    /// serialization of a message, and then returns that message.
    pub fn deserialize(s: &[u8]) -> (r: Option<ClientUpMessage>)
        ensures
            r matches Some(m) ==> s@ == spec_up_json(m),
            forall|m: ClientUpMessage| s@ == spec_up_json(m) ==> r == Some(m),
    {
        let lit = lit_obj_to();
        if !match_bytes(s, 0, lit.as_slice()) {
            proof {
                assert forall|m: ClientUpMessage| s@ != spec_up_json(m) by {
                    if s@ == spec_up_json(m) {
                        lemma_up_shape(m, s@);
                    }
                }
            }
            return None;
        }
        let (to, j) = match parse_dec_u16(s, 6) {
            Some(p) => p,
            None => {
                proof {
                    assert forall|m: ClientUpMessage| s@ != spec_up_json(m) by {
                        if s@ == spec_up_json(m) {
                            lemma_up_shape(m, s@);
                            let dl = spec_dec(m.to.0 as nat).len() as int;
                            assert(s@.subrange(6, 6 + dl) == spec_dec(m.to.0 as nat));
                        }
                    }
                }
                return None;
            },
        };
        match parse_ccm_tail(s, j) {
            Some(msg) => {
                let m0 = ClientUpMessage { to: Id(to), msg };
                proof {
                    assert(s@.subrange(j as int, s@.len() as int) == spec_ccm_json(msg));
                    assert(s@ =~= spec_lit_obj_to() + spec_dec(to as nat) + spec_ccm_json(msg));
                    assert forall|m: ClientUpMessage| s@ == spec_up_json(m) implies m == m0 by {
                        lemma_up_locate(s@, m, to, j as int);
                    }
                }
                Some(m0)
            },
            None => {
                proof {
                    assert forall|m: ClientUpMessage| s@ != spec_up_json(m) by {
                        if s@ == spec_up_json(m) {
                            lemma_up_locate(s@, m, to, j as int);
                        }
                    }
                }
                None
            },
        }
    }
}

/// A canonical lowercase hex digit byte.
pub open spec fn spec_is_hex_lower(c: u8) -> bool {
    (0x30 <= c <= 0x39) || (0x61 <= c <= 0x66)
}

/// The value of a canonical lowercase hex digit byte.
pub open spec fn spec_hex_val(c: u8) -> u8
    recommends
        spec_is_hex_lower(c),
{
    if 0x30 <= c <= 0x39 {
        (c - 0x30) as u8
    } else {
        (c - 0x57) as u8
    }
}

/// Decode one string byte at the head of `t` (which must not open with the
/// closing quote): a plain byte, a two-byte escape, or a canonical `\u00xx`
/// escape. `None` when `t` opens with no canonical escape.
pub open spec fn spec_unesc_step(t: Seq<u8>) -> Option<(u8, int)> {
    if t.len() == 0 {
        None
    } else if t[0] == 0x22 {
        None
    } else if t[0] == 0x5c {
        if t.len() < 2 {
            None
        } else if t[1] == 0x22 {
            Some((0x22u8, 2))
        } else if t[1] == 0x5c {
            Some((0x5cu8, 2))
        } else if t[1] == 0x62 {
            Some((0x08u8, 2))
        } else if t[1] == 0x74 {
            Some((0x09u8, 2))
        } else if t[1] == 0x6e {
            Some((0x0au8, 2))
        } else if t[1] == 0x66 {
            Some((0x0cu8, 2))
        } else if t[1] == 0x72 {
            Some((0x0du8, 2))
        } else if t[1] == 0x75 {
            if t.len() < 6 {
                None
            } else if t[2] == 0x30 && t[3] == 0x30 && spec_is_hex_lower(t[4]) && spec_is_hex_lower(
                t[5],
            ) {
                let b = (spec_hex_val(t[4]) * 16 + spec_hex_val(t[5])) as u8;
                if b < 0x20 && b != 0x08 && b != 0x09 && b != 0x0a && b != 0x0c && b != 0x0d {
                    Some((b, 6))
                } else {
                    None
                }
            } else {
                None
            }
        } else {
            None
        }
    } else if t[0] < 0x20 {
        None
    } else {
        Some((t[0], 1))
    }
}

/// Decode a whole string body up to and including its closing quote,
/// returning the decoded bytes and how much of `t` was taken.
pub open spec fn spec_unescape(t: Seq<u8>) -> Option<(Seq<u8>, int)>
    decreases t.len(),
{
    if t.len() == 0 {
        None
    } else if t[0] == 0x22 {
        Some((Seq::empty(), 1))
    } else {
        match spec_unesc_step(t) {
            None => None,
            Some((b, k)) => {
                if 1 <= k <= t.len() {
                    match spec_unescape(t.skip(k)) {
                        None => None,
                        Some((d, j)) => Some((seq![b] + d, k + j)),
                    }
                } else {
                    None
                }
            },
        }
    }
}

/// One decode step takes a positive number of bytes, within bounds, and takes
/// exactly the escape of the byte it yields.
proof fn lemma_unesc_step_sound(t: Seq<u8>)
    requires
        spec_unesc_step(t) is Some,
    ensures
        1 <= spec_unesc_step(t).unwrap().1 <= t.len(),
        t.subrange(0, spec_unesc_step(t).unwrap().1) == spec_esc_byte(spec_unesc_step(t).unwrap().0),
{
    let (b, k) = spec_unesc_step(t).unwrap();
    if t[0] == 0x5c {
        if t[1] == 0x75 {
            let v4 = spec_hex_val(t[4]);
            let v5 = spec_hex_val(t[5]);
            assert(v4 <= 15 && v5 <= 15);
            assert(b == (v4 * 16 + v5) as u8);
            assert(v4 * 16 + v5 < 256);
            assert(b >> 4 == v4 && b & 15 == v5) by (bit_vector)
                requires
                    v4 <= 15,
                    v5 <= 15,
                    b == (v4 * 16 + v5) as u8,
            ;
            assert(spec_hex_digit(v4) == t[4]);
            assert(spec_hex_digit(v5) == t[5]);
            assert(t.subrange(0, 6) =~= spec_esc_byte(b));
        } else {
            assert(t.subrange(0, 2) =~= spec_esc_byte(b));
        }
    } else {
        assert(t.subrange(0, 1) =~= spec_esc_byte(b));
    }
}

/// One decode step inverts the escape of any byte.
proof fn lemma_unesc_step_esc(b: u8, rest: Seq<u8>)
    ensures
        spec_unesc_step(spec_esc_byte(b) + rest) == Some((b, spec_esc_byte(b).len() as int)),
{
    let t = spec_esc_byte(b) + rest;
    if b == 0x22 || b == 0x5c || b == 0x08 || b == 0x09 || b == 0x0a || b == 0x0c || b == 0x0d {
        assert(t[0] == 0x5c && t[1] == spec_esc_byte(b)[1]);
    } else if b < 0x20 {
        let h = spec_hex_digit(b >> 4);
        let l = spec_hex_digit(b & 15);
        assert(b >> 4 < 2 && b & 15 <= 15) by (bit_vector)
            requires
                b < 0x20,
        ;
        assert(t[0] == 0x5c && t[1] == 0x75 && t[2] == 0x30 && t[3] == 0x30 && t[4] == h && t[5]
            == l);
        assert(spec_is_hex_lower(h) && spec_hex_val(h) == b >> 4);
        assert(spec_is_hex_lower(l) && spec_hex_val(l) == b & 15);
        assert((b >> 4) * 16 + (b & 15) == b) by (bit_vector);
    } else {
        assert(t[0] == b);
    }
}

/// Decoding a string body yields back exactly what was escaped: the whole
/// region through the closing quote, and nothing else.
proof fn lemma_unescape_sound(t: Seq<u8>)
    requires
        spec_unescape(t) is Some,
    ensures
        1 <= spec_unescape(t).unwrap().1 <= t.len(),
        t.subrange(0, spec_unescape(t).unwrap().1) == spec_escape(spec_unescape(t).unwrap().0)
            + seq![0x22u8],
    decreases t.len(),
{
    let (d, j) = spec_unescape(t).unwrap();
    if t[0] == 0x22 {
        assert(t.subrange(0, 1) =~= spec_escape(Seq::<u8>::empty()) + seq![0x22u8]);
    } else {
        let (b, k) = spec_unesc_step(t).unwrap();
        lemma_unesc_step_sound(t);
        lemma_unescape_sound(t.skip(k));
        let (d2, j2) = spec_unescape(t.skip(k)).unwrap();
        assert(t.skip(k).subrange(0, j2) == spec_escape(d2) + seq![0x22u8]);
        assert(d == seq![b] + d2 && j == k + j2);
        assert(spec_escape(d) == spec_esc_byte(b) + spec_escape(d2)) by {
            assert(d[0] == b);
            assert(d.skip(1) =~= d2);
        }
        assert forall|x: int| 0 <= x < j implies t.subrange(0, j)[x] == (spec_escape(d)
            + seq![0x22u8])[x] by {
            if x < k {
                assert(t.subrange(0, k)[x] == t[x]);
                assert((spec_escape(d) + seq![0x22u8])[x] == spec_esc_byte(b)[x]);
            } else {
                assert(t.skip(k).subrange(0, j2)[x - k] == t[x]);
                assert((spec_escape(d2) + seq![0x22u8])[x - k] == (spec_escape(d)
                    + seq![0x22u8])[x]);
            }
        }
        assert(t.subrange(0, j) =~= spec_escape(d) + seq![0x22u8]);
    }
}

/// Decoding succeeds on every escaped string followed by its closing quote,
/// and yields that string.
proof fn lemma_unescape_complete(d: Seq<u8>, rest: Seq<u8>)
    ensures
        spec_unescape(spec_escape(d) + seq![0x22u8] + rest) == Some(
            (d, spec_escape(d).len() + 1 as int),
        ),
    decreases d.len(),
{
    let t = spec_escape(d) + seq![0x22u8] + rest;
    if d.len() == 0 {
        assert(t[0] == 0x22);
    } else {
        let b = d[0];
        let e = spec_esc_byte(b);
        assert(spec_escape(d) == e + spec_escape(d.skip(1)));
        assert(t =~= e + (spec_escape(d.skip(1)) + seq![0x22u8] + rest));
        lemma_unesc_step_esc(b, spec_escape(d.skip(1)) + seq![0x22u8] + rest);
        assert(e.len() >= 1);
        assert(t[0] == e[0]);
        assert(t[0] != 0x22) by {
            if b == 0x22 || b == 0x5c || b == 0x08 || b == 0x09 || b == 0x0a || b == 0x0c || b
                == 0x0d {
                assert(e[0] == 0x5c);
            } else if b < 0x20 {
                assert(e[0] == 0x5c);
            } else {
                assert(e[0] == b);
            }
        }
        let k = e.len() as int;
        assert(t.skip(k) =~= spec_escape(d.skip(1)) + seq![0x22u8] + rest);
        lemma_unescape_complete(d.skip(1), rest);
        assert(seq![b] + d.skip(1) =~= d);
    }
}

/// Read a JSON string body starting at `i` through its closing quote.
/// Returns the decoded bytes and the offset just past the quote.
fn parse_json_string(s: &[u8], i: usize) -> (r: Option<(Vec<u8>, usize)>)
    requires
        i <= s@.len(),
    ensures
        r matches Some(p) ==> spec_unescape(s@.skip(i as int)) == Some((p.0@, p.1 - i as int))
            && i < p.1 <= s@.len(),
        r is None ==> spec_unescape(s@.skip(i as int)) is None,
{
    let mut out: Vec<u8> = Vec::new();
    let mut cur: usize = i;
    loop
        invariant
            i <= cur <= s@.len(),
            spec_unescape(s@.skip(i as int)) == match spec_unescape(s@.skip(cur as int)) {
                Some((d2, j2)) => Some::<(Seq<u8>, int)>((out@ + d2, (cur - i) + j2)),
                None => None::<(Seq<u8>, int)>,
            },
        decreases s@.len() - cur,
    {
        let ghost tcur = s@.skip(cur as int);
        if cur == s.len() {
            proof {
                assert(tcur.len() == 0);
            }
            return None;
        }
        let b0 = *vstd::slice::slice_index_get(s, cur);
        proof {
            assert(tcur[0] == s@[cur as int]);
        }
        if b0 == 0x22 {
            proof {
                assert(spec_unescape(tcur) == Some((Seq::<u8>::empty(), 1int)));
                assert(out@ + Seq::<u8>::empty() =~= out@);
            }
            return Some((out, cur + 1));
        }
        // one escaped byte, mirroring one unfolding of the decode
        let step: Option<(u8, usize)> = if b0 == 0x5c {
            if cur + 1 == s.len() {
                None
            } else {
                let b1 = *vstd::slice::slice_index_get(s, cur + 1);
                proof {
                    assert(tcur[1] == s@[cur + 1]);
                }
                if b1 == 0x22 {
                    Some((0x22, 2))
                } else if b1 == 0x5c {
                    Some((0x5c, 2))
                } else if b1 == 0x62 {
                    Some((0x08, 2))
                } else if b1 == 0x74 {
                    Some((0x09, 2))
                } else if b1 == 0x6e {
                    Some((0x0a, 2))
                } else if b1 == 0x66 {
                    Some((0x0c, 2))
                } else if b1 == 0x72 {
                    Some((0x0d, 2))
                } else if b1 == 0x75 {
                    if s.len() - cur < 6 {
                        None
                    } else {
                        let b2 = *vstd::slice::slice_index_get(s, cur + 2);
                        let b3 = *vstd::slice::slice_index_get(s, cur + 3);
                        let b4 = *vstd::slice::slice_index_get(s, cur + 4);
                        let b5 = *vstd::slice::slice_index_get(s, cur + 5);
                        proof {
                            assert(tcur[2] == s@[cur + 2]);
                            assert(tcur[3] == s@[cur + 3]);
                            assert(tcur[4] == s@[cur + 4]);
                            assert(tcur[5] == s@[cur + 5]);
                        }
                        let v4: u8 = if 0x30 <= b4 && b4 <= 0x39 {
                            b4 - 0x30
                        } else if 0x61 <= b4 && b4 <= 0x66 {
                            b4 - 0x57
                        } else {
                            0xff
                        };
                        let v5: u8 = if 0x30 <= b5 && b5 <= 0x39 {
                            b5 - 0x30
                        } else if 0x61 <= b5 && b5 <= 0x66 {
                            b5 - 0x57
                        } else {
                            0xff
                        };
                        if b2 == 0x30 && b3 == 0x30 && v4 != 0xff && v5 != 0xff {
                            let v: u8 = v4 * 16 + v5;
                            if v < 0x20 && v != 0x08 && v != 0x09 && v != 0x0a && v != 0x0c && v
                                != 0x0d {
                                Some((v, 6))
                            } else {
                                None
                            }
                        } else {
                            None
                        }
                    }
                } else {
                    None
                }
            }
        } else if b0 < 0x20 {
            None
        } else {
            Some((b0, 1))
        };
        match step {
            None => {
                proof {
                    assert(spec_unesc_step(tcur) is None);
                }
                return None;
            },
            Some((b, k)) => {
                proof {
                    assert(spec_unesc_step(tcur) == Some((b, k as int)));
                    lemma_unesc_step_sound(tcur);
                    assert(s@.skip(cur + k) =~= tcur.skip(k as int));
                    assert forall|d2: Seq<u8>, j2: int|
                        spec_unescape(s@.skip(cur + k)) == Some((d2, j2)) implies out@.push(b) + d2
                        =~= out@ + (seq![b] + d2) by {}
                }
                out.push(b);
                cur = cur + k;
            },
        }
    }
}

/// How a downstream wire message decomposes: exactly one of the four opening
/// literals stands at its head, and the fields lie after it.
proof fn lemma_down_shape(m: ClientDownMessage, s: Seq<u8>)
    requires
        s == spec_down_json(m),
    ensures
        spec_starts_with(s, 0, spec_lit_obj_from()) <==> m is FromClient,
        spec_starts_with(s, 0, spec_lit_srv_connected()) <==> (m matches ClientDownMessage::FromServer { msg: ServerClientMessage::Connected { .. } }),
        spec_starts_with(s, 0, spec_lit_srv_no_such_id()) <==> (m matches ClientDownMessage::FromServer { msg: ServerClientMessage::NoSuchId { .. } }),
        spec_starts_with(s, 0, spec_lit_srv_error()) <==> (m matches ClientDownMessage::FromServer { msg: ServerClientMessage::Error { .. } }),
        m matches ClientDownMessage::FromClient { from, msg } ==> 8 + spec_dec(from.0 as nat).len()
            + spec_ccm_json(msg).len() == s.len() && s.subrange(
            8,
            8 + spec_dec(from.0 as nat).len() as int,
        ) == spec_dec(from.0 as nat) && !spec_is_digit(s[8 + spec_dec(from.0 as nat).len() as int])
            && spec_starts_with(s, 8 + spec_dec(from.0 as nat).len() as int, spec_ccm_json(msg)),
        m matches ClientDownMessage::FromServer { msg: ServerClientMessage::Connected { id } }
            ==> s.len() == 24 + spec_dec(id.0 as nat).len() + 1 && s.subrange(
            24,
            24 + spec_dec(id.0 as nat).len() as int,
        ) == spec_dec(id.0 as nat) && s[s.len() - 1] == 0x7d,
        m matches ClientDownMessage::FromServer { msg: ServerClientMessage::NoSuchId { id } }
            ==> s.len() == 25 + spec_dec(id.0 as nat).len() + 1 && s.subrange(
            25,
            25 + spec_dec(id.0 as nat).len() as int,
        ) == spec_dec(id.0 as nat) && s[s.len() - 1] == 0x7d,
        m matches ClientDownMessage::FromServer { msg: ServerClientMessage::Error { details } }
            ==> s.len() == 26 + spec_escape(details@).len() + 2 && s.skip(26) == spec_escape(
            details@,
        ) + seq![0x22u8] + seq![0x7du8],
{
    match m {
        ClientDownMessage::FromClient { from, msg } => {
            let dl = spec_dec(from.0 as nat).len() as int;
            lemma_dec_digits(from.0 as nat);
            lemma_ccm_first(msg);
            let f = spec_lit_obj_from();
            assert(s.subrange(0, 8) =~= f);
            assert(s.subrange(8, 8 + dl) =~= spec_dec(from.0 as nat));
            assert(s.subrange(8 + dl, s.len() as int) =~= spec_ccm_json(msg));
            assert(s[8 + dl] == spec_ccm_json(msg)[0]);
            lemma_not_both(s, 0, f, spec_lit_srv_connected(), 2);
            lemma_not_both(s, 0, f, spec_lit_srv_no_such_id(), 2);
            lemma_not_both(s, 0, f, spec_lit_srv_error(), 2);
        },
        ClientDownMessage::FromServer { msg: ServerClientMessage::Connected { id } } => {
            let dl = spec_dec(id.0 as nat).len() as int;
            lemma_dec_digits(id.0 as nat);
            let f = spec_lit_srv_connected();
            assert(s.subrange(0, 24) =~= f);
            assert(s.subrange(24, 24 + dl) =~= spec_dec(id.0 as nat));
            assert(s[s.len() - 1] == seq![0x7du8][0]);
            lemma_not_both(s, 0, f, spec_lit_obj_from(), 2);
            lemma_not_both(s, 0, f, spec_lit_srv_no_such_id(), 8);
            lemma_not_both(s, 0, f, spec_lit_srv_error(), 8);
        },
        ClientDownMessage::FromServer { msg: ServerClientMessage::NoSuchId { id } } => {
            let dl = spec_dec(id.0 as nat).len() as int;
            lemma_dec_digits(id.0 as nat);
            let f = spec_lit_srv_no_such_id();
            assert(s.subrange(0, 25) =~= f);
            assert(s.subrange(25, 25 + dl) =~= spec_dec(id.0 as nat));
            assert(s[s.len() - 1] == seq![0x7du8][0]);
            lemma_not_both(s, 0, f, spec_lit_obj_from(), 2);
            lemma_not_both(s, 0, f, spec_lit_srv_connected(), 8);
            lemma_not_both(s, 0, f, spec_lit_srv_error(), 8);
        },
        ClientDownMessage::FromServer { msg: ServerClientMessage::Error { details } } => {
            let el = spec_escape(details@).len() as int;
            let f = spec_lit_srv_error();
            assert(s.subrange(0, 26) =~= f);
            assert(s.skip(26) =~= spec_escape(details@) + seq![0x22u8] + seq![0x7du8]);
            lemma_not_both(s, 0, f, spec_lit_obj_from(), 2);
            lemma_not_both(s, 0, f, spec_lit_srv_connected(), 8);
            lemma_not_both(s, 0, f, spec_lit_srv_no_such_id(), 8);
        },
    }
}

impl ClientDownMessage {
    /// Parse a downstream wire message. Succeeds exactly on the canonical
    /// serialization of a message, and then returns that message.
    #[verifier::rlimit(100)]
    pub fn deserialize(s: &[u8]) -> (r: Option<ClientDownMessage>)
        ensures
            r matches Some(m) ==> s@ == spec_down_json(m),
            forall|m: ClientDownMessage| s@ == #[trigger] spec_down_json(m) ==> r is Some,
    {
        let lit_from = lit_obj_from();
        let lit_conn = lit_srv_connected();
        let lit_nsid = lit_srv_no_such_id();
        let lit_err = lit_srv_error();
        if match_bytes(s, 0, lit_from.as_slice()) {
            let (from, j) = match parse_dec_u16(s, 8) {
                Some(p) => p,
                None => {
                    proof {
                        assert forall|m: ClientDownMessage| s@ != spec_down_json(m) by {
                            if s@ == spec_down_json(m) {
                                lemma_down_shape(m, s@);
                                match m {
                                    ClientDownMessage::FromClient { from, msg } => {
                                        let dl = spec_dec(from.0 as nat).len() as int;
                                        assert(s@.subrange(8, 8 + dl) == spec_dec(from.0 as nat));
                                    },
                                    _ => {},
                                }
                            }
                        }
                    }
                    return None;
                },
            };
            match parse_ccm_tail(s, j) {
                Some(msg) => {
                    let m0 = ClientDownMessage::FromClient { from: Id(from), msg };
                    proof {
                        assert(s@.subrange(j as int, s@.len() as int) == spec_ccm_json(msg));
                        assert(s@ =~= spec_lit_obj_from() + spec_dec(from as nat) + spec_ccm_json(
                            msg,
                        ));
                    }
                    return Some(m0);
                },
                None => {
                    proof {
                        assert forall|m: ClientDownMessage| s@ != spec_down_json(m) by {
                            if s@ == spec_down_json(m) {
                                lemma_down_shape(m, s@);
                                match m {
                                    ClientDownMessage::FromClient { from: f2, msg: g2 } => {
                                        lemma_dec_region(
                                            s@,
                                            8,
                                            from as nat,
                                            j as int,
                                            f2.0 as nat,
                                            8 + spec_dec(f2.0 as nat).len() as int,
                                        );
                                    },
                                    _ => {},
                                }
                            }
                        }
                    }
                    return None;
                },
            }
        }
        if match_bytes(s, 0, lit_conn.as_slice()) {
            let (id, j) = match parse_dec_u16(s, 24) {
                Some(p) => p,
                None => {
                    proof {
                        assert forall|m: ClientDownMessage| s@ != spec_down_json(m) by {
                            if s@ == spec_down_json(m) {
                                lemma_down_shape(m, s@);
                                match m {
                                    ClientDownMessage::FromServer { msg: ServerClientMessage::Connected { id } } => {
                                        let dl = spec_dec(id.0 as nat).len() as int;
                                        assert(s@.subrange(24, 24 + dl) == spec_dec(id.0 as nat));
                                        assert(!spec_is_digit(s@[24 + dl]));
                                    },
                                    _ => {},
                                }
                            }
                        }
                    }
                    return None;
                },
            };
            if s.len() - j != 1 || !match_bytes(s, j, lit_brace().as_slice()) {
                proof {
                    assert forall|m: ClientDownMessage| s@ != spec_down_json(m) by {
                        if s@ == spec_down_json(m) {
                            lemma_down_shape(m, s@);
                            match m {
                                ClientDownMessage::FromServer { msg: ServerClientMessage::Connected { id: i2 } } => {
                                    lemma_dec_region(
                                        s@,
                                        24,
                                        id as nat,
                                        j as int,
                                        i2.0 as nat,
                                        24 + spec_dec(i2.0 as nat).len() as int,
                                    );
                                    assert(s@.subrange(j as int, j + 1) =~= seq![0x7du8]);
                                },
                                _ => {},
                            }
                        }
                    }
                }
                return None;
            }
            let m0 = ClientDownMessage::FromServer {
                msg: ServerClientMessage::Connected { id: Id(id) },
            };
            proof {
                assert(s@.subrange(j as int, j + 1) == seq![0x7du8]);
                assert(s@ =~= spec_lit_srv_connected() + spec_dec(id as nat) + seq![0x7du8]);
            }
            return Some(m0);
        }
        if match_bytes(s, 0, lit_nsid.as_slice()) {
            let (id, j) = match parse_dec_u16(s, 25) {
                Some(p) => p,
                None => {
                    proof {
                        assert forall|m: ClientDownMessage| s@ != spec_down_json(m) by {
                            if s@ == spec_down_json(m) {
                                lemma_down_shape(m, s@);
                                match m {
                                    ClientDownMessage::FromServer { msg: ServerClientMessage::NoSuchId { id } } => {
                                        let dl = spec_dec(id.0 as nat).len() as int;
                                        assert(s@.subrange(25, 25 + dl) == spec_dec(id.0 as nat));
                                        assert(!spec_is_digit(s@[25 + dl]));
                                    },
                                    _ => {},
                                }
                            }
                        }
                    }
                    return None;
                },
            };
            if s.len() - j != 1 || !match_bytes(s, j, lit_brace().as_slice()) {
                proof {
                    assert forall|m: ClientDownMessage| s@ != spec_down_json(m) by {
                        if s@ == spec_down_json(m) {
                            lemma_down_shape(m, s@);
                            match m {
                                ClientDownMessage::FromServer { msg: ServerClientMessage::NoSuchId { id: i2 } } => {
                                    lemma_dec_region(
                                        s@,
                                        25,
                                        id as nat,
                                        j as int,
                                        i2.0 as nat,
                                        25 + spec_dec(i2.0 as nat).len() as int,
                                    );
                                    assert(s@.subrange(j as int, j + 1) =~= seq![0x7du8]);
                                },
                                _ => {},
                            }
                        }
                    }
                }
                return None;
            }
            let m0 = ClientDownMessage::FromServer {
                msg: ServerClientMessage::NoSuchId { id: Id(id) },
            };
            proof {
                assert(s@.subrange(j as int, j + 1) == seq![0x7du8]);
                assert(s@ =~= spec_lit_srv_no_such_id() + spec_dec(id as nat) + seq![0x7du8]);
            }
            return Some(m0);
        }
        if match_bytes(s, 0, lit_err.as_slice()) {
            match parse_json_string(s, 26) {
                Some((details, j)) => {
                    if s.len() - j != 1 || !match_bytes(s, j, lit_brace().as_slice()) {
                        proof {
                            assert forall|m: ClientDownMessage| s@ != spec_down_json(m) by {
                                if s@ == spec_down_json(m) {
                                    lemma_down_shape(m, s@);
                                    match m {
                                        ClientDownMessage::FromServer { msg: ServerClientMessage::Error { details: d2 } } => {
                                            lemma_unescape_complete(d2@, seq![0x7du8]);
                                            assert(s@.skip(26) =~= spec_escape(d2@) + seq![0x22u8]
                                                + seq![0x7du8]);
                                            assert(s@.subrange(j as int, j + 1) =~= seq![0x7du8]);
                                        },
                                        _ => {},
                                    }
                                }
                            }
                        }
                        return None;
                    }
                    let m0 = ClientDownMessage::FromServer {
                        msg: ServerClientMessage::Error { details },
                    };
                    proof {
                        lemma_unescape_sound(s@.skip(26));
                        let el = spec_escape(details@).len() as int;
                        assert(s@.skip(26).subrange(0, j - 26) == spec_escape(details@)
                            + seq![0x22u8]);
                        assert(j - 26 == el + 1);
                        assert(s@.subrange(j as int, j + 1) =~= seq![0x7du8]);
                        let whole = spec_lit_srv_error() + spec_escape(details@)
                            + spec_lit_close_str();
                        assert(s@.len() == whole.len());
                        assert forall|x: int| 0 <= x < s@.len() implies s@[x] == whole[x] by {
                            if x < 26 {
                                assert(s@.subrange(0, 26)[x] == s@[x]);
                                assert(whole[x] == spec_lit_srv_error()[x]);
                            } else if x < j {
                                assert(s@.skip(26).subrange(0, j - 26)[x - 26] == s@.skip(26)[x
                                    - 26]);
                                assert(s@.skip(26)[x - 26] == s@[x]);
                                assert(s@[x] == (spec_escape(details@) + seq![0x22u8])[x - 26]);
                                if x - 26 < el {
                                    assert(whole[x] == spec_escape(details@)[x - 26]);
                                } else {
                                    assert(whole[x] == spec_lit_close_str()[0]);
                                    assert(spec_lit_close_str()[0] == 0x22);
                                    assert((spec_escape(details@) + seq![0x22u8])[el] == 0x22);
                                }
                            } else {
                                assert(x == j);
                                assert(s@.subrange(j as int, j + 1)[0] == s@[x]);
                                assert(whole[x] == spec_lit_close_str()[1]);
                                assert(spec_lit_close_str()[1] == 0x7d);
                            }
                        }
                        assert(s@ =~= whole);
                    }
                    return Some(m0);
                },
                None => {
                    proof {
                        assert forall|m: ClientDownMessage| s@ != spec_down_json(m) by {
                            if s@ == spec_down_json(m) {
                                lemma_down_shape(m, s@);
                                match m {
                                    ClientDownMessage::FromServer { msg: ServerClientMessage::Error { details: d2 } } => {
                                        lemma_unescape_complete(d2@, seq![0x7du8]);
                                        assert(s@.skip(26) =~= spec_escape(d2@) + seq![0x22u8]
                                            + seq![0x7du8]);
                                    },
                                    _ => {},
                                }
                            }
                        }
                    }
                    return None;
                },
            }
        }
        proof {
            assert forall|m: ClientDownMessage| s@ != spec_down_json(m) by {
                if s@ == spec_down_json(m) {
                    lemma_down_shape(m, s@);
                }
            }
        }
        None
    }
}

/// Build the closing brace of an object.
fn lit_brace() -> (r: Vec<u8>)
    ensures
        r@ == seq![0x7du8],
{
    let mut v: Vec<u8> = Vec::new();
    v.push(0x7d);
    assert(v@ =~= seq![0x7du8]);
    v
}

} // verus!
