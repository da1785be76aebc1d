//! URL-safe base64 without padding, the wire form of all binary fields.
//!
//! The exact encoding (RFC 4648, URL-safe alphabet, no `=` padding) is
//! written out as a specification function; the executable encoder and
//! decoder call the `base64` crate against that statement.

use base64::Engine;
use vstd::prelude::*;

verus! {

/// The URL-safe base64 alphabet: the byte for a 6-bit value.
pub open spec fn spec_b64_char(v: u8) -> u8
    recommends
        v < 64,
{
    if v < 26 {
        (0x41 + v) as u8  // 'A'..='Z'

    } else if v < 52 {
        (0x61 + (v - 26)) as u8  // 'a'..='z'

    } else if v < 62 {
        (0x30 + (v - 52)) as u8  // '0'..='9'

    } else if v == 62 {
        0x2d  // '-'

    } else {
        0x5f  // '_'

    }
}

/// URL-safe base64 without padding: each 3-byte group becomes 4 alphabet
/// bytes; a 1- or 2-byte tail becomes 2 or 3, with the spare low bits zero.
pub open spec fn spec_b64url(b: Seq<u8>) -> Seq<u8>
    decreases b.len(),
{
    if b.len() == 0 {
        Seq::empty()
    } else if b.len() == 1 {
        seq![spec_b64_char(b[0] >> 2), spec_b64_char((b[0] & 3) << 4)]
    } else if b.len() == 2 {
        seq![
            spec_b64_char(b[0] >> 2),
            spec_b64_char(((b[0] & 3) << 4) | (b[1] >> 4)),
            spec_b64_char((b[1] & 15) << 2),
        ]
    } else {
        seq![
            spec_b64_char(b[0] >> 2),
            spec_b64_char(((b[0] & 3) << 4) | (b[1] >> 4)),
            spec_b64_char(((b[1] & 15) << 2) | (b[2] >> 6)),
            spec_b64_char(b[2] & 63),
        ] + spec_b64url(b.skip(3))
    }
}

/// The encoding of `n` bytes is `ceil(4n/3)` bytes long: 43 for a 32-byte
/// key, 86 for a 64-byte envelope.
pub proof fn lemma_b64url_len(b: Seq<u8>)
    ensures
        spec_b64url(b).len() == (4 * b.len() + 2) / 3,
    decreases b.len(),
{
    if b.len() >= 3 {
        lemma_b64url_len(b.skip(3));
        assert(4 + (4 * (b.len() - 3) + 2) / 3 == (4 * b.len() + 2) / 3) by (nonlinear_arith);
    }
}

/// Two byte strings whose encodings are equally long are equally long.
proof fn lemma_b64url_len_eq(a: nat, b: nat)
    requires
        (4 * a + 2) / 3 == (4 * b + 2) / 3,
    ensures
        a == b,
{
    let x = (4 * a + 2) as int;
    let y = (4 * b + 2) as int;
    vstd::arithmetic::div_mod::lemma_fundamental_div_mod(x, 3);
    vstd::arithmetic::div_mod::lemma_fundamental_div_mod(y, 3);
    vstd::arithmetic::div_mod::lemma_mod_bound(x, 3);
    vstd::arithmetic::div_mod::lemma_mod_bound(y, 3);
}

/// The 6-bit group values drawn from any two bytes are below 64.
proof fn lemma_b64_vals_bounded(x: u8, y: u8)
    ensures
        x >> 2 < 64,
        (x & 3) << 4 < 64,
        ((x & 3) << 4) | (y >> 4) < 64,
        (x & 15) << 2 < 64,
        ((x & 15) << 2) | (y >> 6) < 64,
        x & 63 < 64,
{
    assert(x >> 2 < 64 && (x & 3) << 4 < 64 && (((x & 3) << 4) | (y >> 4)) < 64 && (x & 15) << 2
        < 64 && (((x & 15) << 2) | (y >> 6)) < 64 && x & 63 < 64) by (bit_vector);
}

/// The alphabet is injective over 6-bit values.
proof fn lemma_b64_char_injective(v1: u8, v2: u8)
    requires
        v1 < 64,
        v2 < 64,
        spec_b64_char(v1) == spec_b64_char(v2),
    ensures
        v1 == v2,
{
}

/// The four alphabet values of a group determine its three bytes.
proof fn lemma_b64_group_injective(a0: u8, a1: u8, a2: u8, b0: u8, b1: u8, b2: u8)
    requires
        a0 >> 2 == b0 >> 2,
        ((a0 & 3) << 4) | (a1 >> 4) == ((b0 & 3) << 4) | (b1 >> 4),
        ((a1 & 15) << 2) | (a2 >> 6) == ((b1 & 15) << 2) | (b2 >> 6),
        a2 & 63 == b2 & 63,
    ensures
        a0 == b0,
        a1 == b1,
        a2 == b2,
{
    assert(a0 >> 2 == b0 >> 2 && ((a0 & 3) << 4) | (a1 >> 4) == ((b0 & 3) << 4) | (b1 >> 4) && ((a1
        & 15) << 2) | (a2 >> 6) == ((b1 & 15) << 2) | (b2 >> 6) && a2 & 63 == b2 & 63 ==> a0 == b0
        && a1 == b1 && a2 == b2) by (bit_vector);
}

/// Encoding is lossless: equal encodings come from equal byte strings.
pub proof fn lemma_b64url_injective(a: Seq<u8>, b: Seq<u8>)
    requires
        spec_b64url(a) == spec_b64url(b),
    ensures
        a == b,
    decreases a.len(),
{
    lemma_b64url_len(a);
    lemma_b64url_len(b);
    lemma_b64url_len_eq(a.len(), b.len());
    let ea = spec_b64url(a);
    let eb = spec_b64url(b);
    if a.len() == 0 {
        assert(a =~= b);
    } else if a.len() == 1 {
        let x0 = a[0];
        let y0 = b[0];
        lemma_b64_vals_bounded(x0, x0);
        lemma_b64_vals_bounded(y0, y0);
        lemma_b64_char_injective(x0 >> 2, y0 >> 2);
        lemma_b64_char_injective((x0 & 3) << 4, (y0 & 3) << 4);
        assert(x0 >> 2 == y0 >> 2 && (x0 & 3) << 4 == (y0 & 3) << 4 ==> x0 == y0) by (bit_vector);
        assert(a =~= b);
    } else if a.len() == 2 {
        let x0 = a[0];
        let x1 = a[1];
        let y0 = b[0];
        let y1 = b[1];
        lemma_b64_vals_bounded(x0, x1);
        lemma_b64_vals_bounded(x1, x1);
        lemma_b64_vals_bounded(y0, y1);
        lemma_b64_vals_bounded(y1, y1);
        lemma_b64_char_injective(x0 >> 2, y0 >> 2);
        lemma_b64_char_injective(((x0 & 3) << 4) | (x1 >> 4), ((y0 & 3) << 4) | (y1 >> 4));
        lemma_b64_char_injective((x1 & 15) << 2, (y1 & 15) << 2);
        assert(x0 >> 2 == y0 >> 2 && ((x0 & 3) << 4) | (x1 >> 4) == ((y0 & 3) << 4) | (y1 >> 4) && (
        x1 & 15) << 2 == (y1 & 15) << 2 ==> x0 == y0 && x1 == y1) by (bit_vector);
        assert(a =~= b);
    } else {
        assert(ea[0] == eb[0] && ea[1] == eb[1] && ea[2] == eb[2] && ea[3] == eb[3]);
        lemma_b64_vals_bounded(a[0], a[1]);
        lemma_b64_vals_bounded(a[1], a[2]);
        lemma_b64_vals_bounded(a[2], a[2]);
        lemma_b64_vals_bounded(b[0], b[1]);
        lemma_b64_vals_bounded(b[1], b[2]);
        lemma_b64_vals_bounded(b[2], b[2]);
        lemma_b64_char_injective(a[0] >> 2, b[0] >> 2);
        lemma_b64_char_injective(((a[0] & 3) << 4) | (a[1] >> 4), ((b[0] & 3) << 4) | (b[1] >> 4));
        lemma_b64_char_injective(((a[1] & 15) << 2) | (a[2] >> 6), ((b[1] & 15) << 2) | (b[2] >> 6));
        lemma_b64_char_injective(a[2] & 63, b[2] & 63);
        lemma_b64_group_injective(a[0], a[1], a[2], b[0], b[1], b[2]);
        assert(spec_b64url(a.skip(3)) =~= ea.skip(4));
        assert(spec_b64url(b.skip(3)) =~= eb.skip(4));
        lemma_b64url_injective(a.skip(3), b.skip(3));
        assert forall|i: int| 0 <= i < a.len() implies a[i] == b[i] by {
            if i >= 3 {
                assert(a[i] == a.skip(3)[i - 3]);
                assert(b[i] == b.skip(3)[i - 3]);
            }
        }
        assert(a =~= b);
    }
}

/// Relies on `base64::engine::general_purpose::URL_SAFE_NO_PAD.encode`:
/// RFC 4648 URL-safe base64 without padding, as `spec_b64url` writes it out.
#[verifier::external_body]
pub(crate) fn b64_encode(bytes: &[u8]) -> (r: Vec<u8>)
    ensures
        r@ == spec_b64url(bytes@),
{
    base64::engine::general_purpose::URL_SAFE_NO_PAD.encode(bytes).into_bytes()
}

/// Relies on `base64::engine::general_purpose::URL_SAFE_NO_PAD.decode`: the
/// engine rejects padding and nonzero trailing bits, so it accepts exactly
/// the canonical encodings and inverts `spec_b64url` on them.
#[verifier::external_body]
pub(crate) fn b64_decode(s: &[u8]) -> (r: Option<Vec<u8>>)
    ensures
        r matches Some(v) ==> s@ == spec_b64url(v@),
        forall|b: Seq<u8>| s@ == spec_b64url(b) ==> r is Some,
{
    base64::engine::general_purpose::URL_SAFE_NO_PAD.decode(s).ok()
}

} // verus!
