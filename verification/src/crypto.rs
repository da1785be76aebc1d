//! The cryptographic envelope for ping payloads and the X25519 key agreement.
//!
//! A `PingInfo` is encoded to a fixed 32-byte record, sealed with
//! ChaCha20-Poly1305 under a single-use shared key, and framed as a 64-byte
//! envelope: the ASCII `PING` magic, a 12-byte nonce, 32 ciphertext bytes and
//! a 16-byte tag.

use vstd::prelude::*;

verus! {

/// An error during a cryptographic operation, opaque on purpose: it never
/// says which step (magic check, tag verification, RNG) failed.
#[derive(Debug, Clone, Copy, PartialEq, Eq, Structural)]
pub struct CryptoError;

/// A timestamp as seconds since the unix epoch.
#[derive(Clone, Copy, Debug, PartialEq, Eq, Structural, PartialOrd, Ord, Hash)]
pub struct Timestamp(pub u64);

/// Degrees of latitude or longitude, held as the bit pattern of an IEEE-754
/// double (big-endian wire order is over these 64 bits).
#[derive(Clone, Copy, Debug, PartialEq, Eq, Structural)]
pub struct Degrees(pub u64);

/// Meters, held as the bit pattern of an IEEE-754 single.
#[derive(Clone, Copy, Debug, PartialEq, Eq, Structural)]
pub struct Meters(pub u32);

/// Information about a ping: a timestamped geographic position.
#[derive(Clone, Copy, Debug, PartialEq, Eq, Structural)]
pub struct PingInfo {
    /// The timestamp of the position data
    pub ts: Timestamp,
    /// The latitude in degrees
    pub lat: Degrees,
    /// The longitude in degrees
    pub lon: Degrees,
    /// The altitude in meters above mean sea level
    pub alt: Meters,
    /// The position error in meters
    pub err: Meters,
}

/// The big-endian bytes of a 64-bit integer.
pub open spec fn spec_u64_be(x: u64) -> Seq<u8> {
    seq![
        (x >> 56) as u8,
        (x >> 48) as u8,
        (x >> 40) as u8,
        (x >> 32) as u8,
        (x >> 24) as u8,
        (x >> 16) as u8,
        (x >> 8) as u8,
        x as u8,
    ]
}

/// The big-endian bytes of a 32-bit integer.
pub open spec fn spec_u32_be(x: u32) -> Seq<u8> {
    seq![(x >> 24) as u8, (x >> 16) as u8, (x >> 8) as u8, x as u8]
}

/// The 64-bit integer read from 8 big-endian bytes.
pub open spec fn spec_u64_from_be(s: Seq<u8>) -> u64
    recommends
        s.len() == 8,
{
    (((s[0] as u64) << 56) | ((s[1] as u64) << 48) | ((s[2] as u64) << 40) | ((s[3] as u64) << 32)
        | ((s[4] as u64) << 24) | ((s[5] as u64) << 16) | ((s[6] as u64) << 8) | (s[7] as u64))
}

/// The 32-bit integer read from 4 big-endian bytes.
pub open spec fn spec_u32_from_be(s: Seq<u8>) -> u32
    recommends
        s.len() == 4,
{
    (((s[0] as u32) << 24) | ((s[1] as u32) << 16) | ((s[2] as u32) << 8) | (s[3] as u32))
}

/// Reading back the big-endian bytes of a 64-bit integer gives the integer.
pub proof fn lemma_u64_be_inverse(x: u64)
    ensures
        spec_u64_from_be(spec_u64_be(x)) == x,
{
    assert((((x >> 56) as u8 as u64) << 56) | (((x >> 48) as u8 as u64) << 48) | (((x
        >> 40) as u8 as u64) << 40) | (((x >> 32) as u8 as u64) << 32) | (((x
        >> 24) as u8 as u64) << 24) | (((x >> 16) as u8 as u64) << 16) | (((x >> 8) as u8 as u64)
        << 8) | (x as u8 as u64) == x) by (bit_vector);
}

/// Reading back the big-endian bytes of a 32-bit integer gives the integer.
pub proof fn lemma_u32_be_inverse(x: u32)
    ensures
        spec_u32_from_be(spec_u32_be(x)) == x,
{
    assert((((x >> 24) as u8 as u32) << 24) | (((x >> 16) as u8 as u32) << 16) | (((x
        >> 8) as u8 as u32) << 8) | (x as u8 as u32) == x) by (bit_vector);
}

/// The 32-byte record layout of a `PingInfo`: the five fields, big-endian,
/// concatenated.
pub open spec fn spec_ping_info_bytes(info: PingInfo) -> Seq<u8> {
    spec_u64_be(info.ts.0) + spec_u64_be(info.lat.0) + spec_u64_be(info.lon.0) + spec_u32_be(
        info.alt.0,
    ) + spec_u32_be(info.err.0)
}

/// The `PingInfo` read from a 32-byte record.
pub open spec fn spec_ping_info_from_bytes(s: Seq<u8>) -> PingInfo
    recommends
        s.len() == 32,
{
    PingInfo {
        ts: Timestamp(spec_u64_from_be(s.subrange(0, 8))),
        lat: Degrees(spec_u64_from_be(s.subrange(8, 16))),
        lon: Degrees(spec_u64_from_be(s.subrange(16, 24))),
        alt: Meters(spec_u32_from_be(s.subrange(24, 28))),
        err: Meters(spec_u32_from_be(s.subrange(28, 32))),
    }
}

/// Decoding the encoded record of a `PingInfo` gives the `PingInfo` back.
pub proof fn lemma_ping_info_bytes_inverse(info: PingInfo)
    ensures
        spec_ping_info_bytes(info).len() == 32,
        spec_ping_info_from_bytes(spec_ping_info_bytes(info)) == info,
{
    let s = spec_ping_info_bytes(info);
    assert(s.subrange(0, 8) =~= spec_u64_be(info.ts.0));
    assert(s.subrange(8, 16) =~= spec_u64_be(info.lat.0));
    assert(s.subrange(16, 24) =~= spec_u64_be(info.lon.0));
    assert(s.subrange(24, 28) =~= spec_u32_be(info.alt.0));
    assert(s.subrange(28, 32) =~= spec_u32_be(info.err.0));
    lemma_u64_be_inverse(info.ts.0);
    lemma_u64_be_inverse(info.lat.0);
    lemma_u64_be_inverse(info.lon.0);
    lemma_u32_be_inverse(info.alt.0);
    lemma_u32_be_inverse(info.err.0);
}

/// Append the big-endian bytes of `x` to `out`.
fn push_u64_be(out: &mut Vec<u8>, x: u64)
    ensures
        final(out)@ == old(out)@ + spec_u64_be(x),
{
    out.push((x >> 56) as u8);
    out.push((x >> 48) as u8);
    out.push((x >> 40) as u8);
    out.push((x >> 32) as u8);
    out.push((x >> 24) as u8);
    out.push((x >> 16) as u8);
    out.push((x >> 8) as u8);
    out.push(x as u8);
    assert(out@ =~= old(out)@ + spec_u64_be(x));
}

/// Append the big-endian bytes of `x` to `out`.
fn push_u32_be(out: &mut Vec<u8>, x: u32)
    ensures
        final(out)@ == old(out)@ + spec_u32_be(x),
{
    out.push((x >> 24) as u8);
    out.push((x >> 16) as u8);
    out.push((x >> 8) as u8);
    out.push(x as u8);
    assert(out@ =~= old(out)@ + spec_u32_be(x));
}

/// Read a big-endian 64-bit integer from `s` at offset `i`.
fn read_u64_be(s: &[u8], i: usize) -> (x: u64)
    requires
        i + 8 <= s@.len(),
    ensures
        x == spec_u64_from_be(s@.subrange(i as int, i + 8)),
{
    let x = ((s[i] as u64) << 56) | ((s[i + 1] as u64) << 48) | ((s[i + 2] as u64) << 40) | ((s[i
        + 3] as u64) << 32) | ((s[i + 4] as u64) << 24) | ((s[i + 5] as u64) << 16) | ((s[i
        + 6] as u64) << 8) | (s[i + 7] as u64);
    proof {
        let sub = s@.subrange(i as int, i + 8);
        assert(sub[0] == s@[i as int]);
        assert(sub[1] == s@[i + 1]);
        assert(sub[2] == s@[i + 2]);
        assert(sub[3] == s@[i + 3]);
        assert(sub[4] == s@[i + 4]);
        assert(sub[5] == s@[i + 5]);
        assert(sub[6] == s@[i + 6]);
        assert(sub[7] == s@[i + 7]);
    }
    x
}

/// Read a big-endian 32-bit integer from `s` at offset `i`.
fn read_u32_be(s: &[u8], i: usize) -> (x: u32)
    requires
        i + 4 <= s@.len(),
    ensures
        x == spec_u32_from_be(s@.subrange(i as int, i + 4)),
{
    let x = ((s[i] as u32) << 24) | ((s[i + 1] as u32) << 16) | ((s[i + 2] as u32) << 8) | (s[i
        + 3] as u32);
    proof {
        let sub = s@.subrange(i as int, i + 4);
        assert(sub[0] == s@[i as int]);
        assert(sub[1] == s@[i + 1]);
        assert(sub[2] == s@[i + 2]);
        assert(sub[3] == s@[i + 3]);
    }
    x
}

/// Append the bytes of `s` to `out`.
pub(crate) fn push_bytes(out: &mut Vec<u8>, s: &[u8])
    ensures
        final(out)@ == old(out)@ + s@,
{
    let mut j: usize = 0;
    while j < s.len()
        invariant
            j <= s@.len(),
            out@ == old(out)@ + s@.subrange(0, j as int),
        decreases s@.len() - j,
    {
        out.push(*vstd::slice::slice_index_get(s, j));
        j = j + 1;
        assert(out@ =~= old(out)@ + s@.subrange(0, j as int));
    }
    assert(out@ =~= old(out)@ + s@);
}

/// Copy a 32-byte vector into a fixed array.
pub(crate) fn vec_to_array32(v: &Vec<u8>) -> (r: [u8; 32])
    requires
        v@.len() == 32,
    ensures
        r@ == v@,
{
    let mut arr = [0u8; 32];
    let mut j: usize = 0;
    while j < 32
        invariant
            v@.len() == 32,
            j <= 32,
            forall|k: int| 0 <= k < j ==> arr@[k] == v@[k],
        decreases 32 - j,
    {
        arr[j] = v[j];
        j = j + 1;
    }
    assert(arr@ =~= v@);
    arr
}

/// Copy a 64-byte vector into a fixed array.
pub(crate) fn vec_to_array64(v: &Vec<u8>) -> (r: [u8; 64])
    requires
        v@.len() == 64,
    ensures
        r@ == v@,
{
    let mut arr = [0u8; 64];
    let mut j: usize = 0;
    while j < 64
        invariant
            v@.len() == 64,
            j <= 64,
            forall|k: int| 0 <= k < j ==> arr@[k] == v@[k],
        decreases 64 - j,
    {
        arr[j] = v[j];
        j = j + 1;
    }
    assert(arr@ =~= v@);
    arr
}

/// The ChaCha20 keystream for a key and nonce, XORed over `data`. Both
/// encryption and decryption of the AEAD apply this same keystream.
pub uninterp spec fn chacha_stream(key: Seq<u8>, nonce: Seq<u8>, data: Seq<u8>) -> Seq<u8>;

/// The Poly1305 tag over a ciphertext (with empty associated data) under the
/// one-time key derived from the AEAD key and nonce.
pub uninterp spec fn poly1305_tag(key: Seq<u8>, nonce: Seq<u8>, ct: Seq<u8>) -> Seq<u8>;

/// The X25519 public key of a 32-byte secret: the clamped scalar times the
/// base point.
pub uninterp spec fn x25519_public(secret: Seq<u8>) -> Seq<u8>;

/// The X25519 shared secret of a 32-byte secret and a 32-byte public key:
/// the clamped scalar times the peer's point.
pub uninterp spec fn x25519_shared(secret: Seq<u8>, public: Seq<u8>) -> Seq<u8>;

/// Relies on `chacha20poly1305::ChaCha20Poly1305::encrypt_inout_detached`:
/// it XORs the ChaCha20 keystream over the 32-byte message (so applying the
/// keystream to the ciphertext restores the message) and returns the
/// Poly1305 tag over the ciphertext; a 32-byte message is far below the only
/// length limit, so it cannot fail.
#[verifier::external_body]
fn aead_encrypt(key: &[u8], nonce: &[u8], pt: &[u8]) -> (r: (Vec<u8>, Vec<u8>))
    requires
        key@.len() == 32,
        nonce@.len() == 12,
        pt@.len() == 32,
    ensures
        r.0@ == chacha_stream(key@, nonce@, pt@),
        r.0@.len() == 32,
        chacha_stream(key@, nonce@, r.0@) == pt@,
        r.1@ == poly1305_tag(key@, nonce@, r.0@),
        r.1@.len() == 16,
{
    let key: [u8; 32] = key.try_into().expect("checked length");
    let nonce: [u8; 12] = nonce.try_into().expect("checked length");
    let cipher = <chacha20poly1305::ChaCha20Poly1305 as chacha20poly1305::KeyInit>::new(&key.into());
    let mut buf: Vec<u8> = pt.to_vec();
    let tag = chacha20poly1305::AeadInOut::encrypt_inout_detached(
        &cipher, &nonce.into(), b"", buf.as_mut_slice().into(),
    ).expect("a 32-byte message is far below the AEAD length limit");
    (buf, tag.to_vec())
}

/// Relies on `chacha20poly1305::ChaCha20Poly1305::decrypt_inout_detached`:
/// it recomputes the Poly1305 tag over the ciphertext (with empty associated
/// data), fails exactly when the given tag differs, and otherwise XORs the
/// same ChaCha20 keystream over the ciphertext.
#[verifier::external_body]
fn aead_decrypt(key: &[u8], nonce: &[u8], ct: &[u8], tag: &[u8]) -> (r: Result<Vec<u8>, CryptoError>)
    requires
        key@.len() == 32,
        nonce@.len() == 12,
        ct@.len() == 32,
        tag@.len() == 16,
    ensures
        (r is Ok) == (tag@ == poly1305_tag(key@, nonce@, ct@)),
        r matches Ok(pt) ==> pt@ == chacha_stream(key@, nonce@, ct@) && pt@.len() == 32,
{
    let key: [u8; 32] = key.try_into().expect("checked length");
    let nonce: [u8; 12] = nonce.try_into().expect("checked length");
    let tag: [u8; 16] = tag.try_into().expect("checked length");
    let cipher = <chacha20poly1305::ChaCha20Poly1305 as chacha20poly1305::KeyInit>::new(&key.into());
    let mut buf: Vec<u8> = ct.to_vec();
    match chacha20poly1305::AeadInOut::decrypt_inout_detached(
        &cipher, &nonce.into(), b"", buf.as_mut_slice().into(), &tag.into(),
    ) {
        Ok(()) => Ok(buf),
        Err(_) => Err(CryptoError),
    }
}

/// Relies on `rand::fill` (thread-local CSPRNG) for a fresh random nonce;
/// nothing is assumed of the value.
#[verifier::external_body]
fn generate_nonce() -> (r: Vec<u8>)
    ensures
        r@.len() == 12,
{
    let mut nonce = [0u8; 12];
    rand::fill(&mut nonce[..]);
    nonce.to_vec()
}

/// Relies on `x25519_dalek::StaticSecret::random` for 32 bytes from the
/// system CSPRNG; nothing is assumed of the value.
#[verifier::external_body]
fn generate_secret_bytes() -> (r: [u8; 32])
{
    x25519_dalek::StaticSecret::random().to_bytes()
}

/// Relies on `x25519_dalek::PublicKey::from(&StaticSecret)`: the public key
/// is a function of the secret bytes alone (clamped base-point multiplication).
#[verifier::external_body]
fn x25519_derive_public(secret: &[u8; 32]) -> (r: [u8; 32])
    ensures
        r@ == x25519_public(secret@),
{
    x25519_dalek::PublicKey::from(&x25519_dalek::StaticSecret::from(*secret)).to_bytes()
}

/// Relies on `x25519_dalek::StaticSecret::diffie_hellman`: the shared secret
/// is a function of the secret bytes and the peer's public bytes alone
/// (clamped scalar multiplication of the peer's point).
#[verifier::external_body]
fn x25519_diffie_hellman(secret: &[u8; 32], public: &[u8; 32]) -> (r: [u8; 32])
    ensures
        r@ == x25519_shared(secret@, public@),
{
    x25519_dalek::StaticSecret::from(*secret)
        .diffie_hellman(&x25519_dalek::PublicKey::from(*public))
        .to_bytes()
}

/// The shared symmetric encryption key, used once per exchange.
#[derive(Clone, Copy)]
pub struct SharedKey([u8; 32]);

impl View for SharedKey {
    type V = Seq<u8>;

    closed spec fn view(&self) -> Seq<u8> {
        self.0@
    }
}

impl SharedKey {
    /// Create a `SharedKey` from the given byte array.
    pub fn from_bytes(bytes: [u8; 32]) -> (r: Self)
        ensures
            r@ == bytes@,
    {
        SharedKey(bytes)
    }

    /// Convert this `SharedKey` into a byte array.
    pub fn to_bytes(self) -> (r: [u8; 32])
        ensures
            r@ == self@,
    {
        self.0
    }
}

/// An X25519 public key: an opaque 32-byte Montgomery-u coordinate.
#[derive(Clone, Copy, Debug, PartialEq, Eq)]
pub struct PublicKey(pub [u8; 32]);

impl View for PublicKey {
    type V = Seq<u8>;

    open spec fn view(&self) -> Seq<u8> {
        self.0@
    }
}

/// An ephemeral X25519 secret, held only in memory by the client that
/// generated it, never transmitted, and destroyed after one key agreement.
pub struct EphemeralSecret([u8; 32]);

impl View for EphemeralSecret {
    type V = Seq<u8>;

    closed spec fn view(&self) -> Seq<u8> {
        self.0@
    }
}

impl EphemeralSecret {
    /// Generate a fresh random ephemeral secret.
    pub fn random() -> (r: Self)
        ensures
            r@.len() == 32,
    {
        EphemeralSecret(generate_secret_bytes())
    }

    /// The public key of this secret.
    pub fn public_key(&self) -> (r: PublicKey)
        ensures
            r@ == x25519_public(self@),
    {
        PublicKey(x25519_derive_public(&self.0))
    }

    /// Perform the key agreement with the peer's public key, consuming this
    /// secret; the result is used directly as the symmetric key.
    pub fn diffie_hellman(self, their_public: &PublicKey) -> (r: SharedKey)
        ensures
            r@ == x25519_shared(self@, their_public@),
    {
        SharedKey(x25519_diffie_hellman(&self.0, &their_public.0))
    }
}

/// The ASCII `PING` magic that opens every envelope.
pub open spec fn spec_magic() -> Seq<u8> {
    seq![0x50u8, 0x49u8, 0x4eu8, 0x47u8]
}

/// Encrypted `PingInfo`: the `PING` magic, the AEAD nonce, the encrypted
/// encoded ping info, and the AEAD tag, in 64 bytes.
#[derive(Clone, Copy, Debug, PartialEq, Eq)]
pub struct EncryptedPingInfo([u8; 64]);

impl View for EncryptedPingInfo {
    type V = Seq<u8>;

    closed spec fn view(&self) -> Seq<u8> {
        self.0@
    }
}

impl EncryptedPingInfo {
    /// Create an `EncryptedPingInfo` from the given byte array.
    pub fn from_bytes(bytes: [u8; 64]) -> (r: Self)
        ensures
            r@ == bytes@,
    {
        EncryptedPingInfo(bytes)
    }

    /// Convert this `EncryptedPingInfo` into a byte array.
    pub fn to_bytes(self) -> (r: [u8; 64])
        ensures
            r@ == self@,
    {
        self.0
    }
}

/// An encrypted ping envelope is 64 bytes.
pub broadcast proof fn lemma_encrypted_ping_info_len(e: EncryptedPingInfo)
    ensures
        #[trigger] e@.len() == 64,
{
}

/// Envelopes with the same bytes are the same envelope.
pub proof fn lemma_encrypted_ping_info_eq(a: EncryptedPingInfo, b: EncryptedPingInfo)
    requires
        a@ == b@,
    ensures
        a == b,
{
    assert(a.0 =~= b.0);
}

/// The envelope carries its magic and a tag that verifies over its
/// ciphertext under `key`: decryption succeeds exactly on such envelopes.
pub open spec fn spec_envelope_authentic(env: Seq<u8>, key: Seq<u8>) -> bool {
    &&& env.len() == 64
    &&& env.subrange(0, 4) == spec_magic()
    &&& env.subrange(48, 64) == poly1305_tag(key, env.subrange(4, 16), env.subrange(16, 48))
}

/// The `PingInfo` that decrypting an authentic envelope yields.
pub open spec fn spec_decrypted_info(env: Seq<u8>, key: Seq<u8>) -> PingInfo {
    spec_ping_info_from_bytes(chacha_stream(key, env.subrange(4, 16), env.subrange(16, 48)))
}

/// The envelope is an encryption of `info` under `key`: its ciphertext is the
/// keystream over the encoded record (and the keystream leads back to the
/// record), and its tag verifies over the ciphertext.
pub open spec fn spec_is_encryption_of(env: Seq<u8>, key: Seq<u8>, info: PingInfo) -> bool {
    &&& env.len() == 64
    &&& env.subrange(0, 4) == spec_magic()
    &&& env.subrange(16, 48) == chacha_stream(key, env.subrange(4, 16), spec_ping_info_bytes(info))
    &&& chacha_stream(key, env.subrange(4, 16), env.subrange(16, 48)) == spec_ping_info_bytes(info)
    &&& env.subrange(48, 64) == poly1305_tag(key, env.subrange(4, 16), env.subrange(16, 48))
}

/// Decrypting an envelope with the key it was encrypted under succeeds and
/// yields the original `PingInfo`.
pub proof fn lemma_decrypt_inverts_encrypt(env: Seq<u8>, key: Seq<u8>, info: PingInfo)
    requires
        spec_is_encryption_of(env, key, info),
    ensures
        spec_envelope_authentic(env, key),
        spec_decrypted_info(env, key) == info,
{
    lemma_ping_info_bytes_inverse(info);
}

/// An envelope that does not open with the `PING` magic never decrypts,
/// whatever the key.
pub proof fn lemma_bad_magic_never_decrypts(env: Seq<u8>, key: Seq<u8>)
    requires
        env.len() == 64,
        env.subrange(0, 4) != spec_magic(),
    ensures
        !spec_envelope_authentic(env, key),
{
}

impl PingInfo {
    /// Encode and encrypt this `PingInfo` using the given shared key.
    ///
    /// The envelope is `PING || nonce || ciphertext || tag`, with a fresh
    /// random nonce.
    pub fn encrypt(self, key: SharedKey) -> (r: Result<EncryptedPingInfo, CryptoError>)
        ensures
            r is Ok,
            r matches Ok(env) ==> spec_is_encryption_of(env@, key@, self),
    {
        let pt = self.encode();
        let nonce = generate_nonce();
        let (ct, tag) = aead_encrypt(key.0.as_slice(), nonce.as_slice(), pt.as_slice());
        let mut env: Vec<u8> = Vec::new();
        env.push(0x50u8);
        env.push(0x49u8);
        env.push(0x4eu8);
        env.push(0x47u8);
        push_bytes(&mut env, nonce.as_slice());
        push_bytes(&mut env, ct.as_slice());
        push_bytes(&mut env, tag.as_slice());
        proof {
            assert(env@.subrange(0, 4) =~= spec_magic());
            assert(env@.subrange(4, 16) =~= nonce@);
            assert(env@.subrange(16, 48) =~= ct@);
            assert(env@.subrange(48, 64) =~= tag@);
        }
        Ok(EncryptedPingInfo(vec_to_array64(&env)))
    }

    /// Decrypt and decode the given encrypted ping info using the given
    /// shared key.
    ///
    /// Fails with `CryptoError` exactly when the magic is missing or the tag
    /// does not verify.
    pub fn decrypt(bytes: EncryptedPingInfo, key: SharedKey) -> (r: Result<Self, CryptoError>)
        ensures
            (r is Ok) == spec_envelope_authentic(bytes@, key@),
            r matches Ok(info) ==> info == spec_decrypted_info(bytes@, key@),
    {
        let env: &[u8] = bytes.0.as_slice();
        if !(env[0] == 0x50u8 && env[1] == 0x49u8 && env[2] == 0x4eu8 && env[3] == 0x47u8) {
            proof {
                let m = spec_magic();
                assert(env@.subrange(0, 4)[0] == env@[0] && env@.subrange(0, 4)[1] == env@[1]
                    && env@.subrange(0, 4)[2] == env@[2] && env@.subrange(0, 4)[3] == env@[3]);
                assert(m[0] == 0x50u8 && m[1] == 0x49u8 && m[2] == 0x4eu8 && m[3] == 0x47u8);
            }
            return Err(CryptoError);
        }
        proof {
            assert(env@.subrange(0, 4) =~= spec_magic());
        }
        let nonce = vstd::slice::slice_subrange(env, 4, 16);
        let ct = vstd::slice::slice_subrange(env, 16, 48);
        let tag = vstd::slice::slice_subrange(env, 48, 64);
        match aead_decrypt(key.0.as_slice(), nonce, ct, tag) {
            Ok(pt) => Ok(PingInfo::decode(pt.as_slice())),
            Err(e) => Err(e),
        }
    }

    /// Encode this `PingInfo` into its 32-byte record.
    pub fn encode(self) -> (r: Vec<u8>)
        ensures
            r@ == spec_ping_info_bytes(self),
            r@.len() == 32,
    {
        let mut out: Vec<u8> = Vec::new();
        push_u64_be(&mut out, self.ts.0);
        push_u64_be(&mut out, self.lat.0);
        push_u64_be(&mut out, self.lon.0);
        push_u32_be(&mut out, self.alt.0);
        push_u32_be(&mut out, self.err.0);
        proof {
            lemma_ping_info_bytes_inverse(self);
        }
        out
    }

    /// Decode a `PingInfo` from its 32-byte record.
    pub fn decode(bytes: &[u8]) -> (r: Self)
        requires
            bytes@.len() == 32,
        ensures
            r == spec_ping_info_from_bytes(bytes@),
    {
        PingInfo {
            ts: Timestamp(read_u64_be(bytes, 0)),
            lat: Degrees(read_u64_be(bytes, 8)),
            lon: Degrees(read_u64_be(bytes, 16)),
            alt: Meters(read_u32_be(bytes, 24)),
            err: Meters(read_u32_be(bytes, 28)),
        }
    }
}

} // verus!
