//! Trusted bindings to the outside cryptographic and encoding crates.
//!
//! Every function here is believed, not proved: each doc comment names the
//! outside function that the body calls and says what its contract claims.
//! Results that take pages to state are given a name (an uninterpreted
//! spec function of the call's arguments).

use aead::{Aead, KeyInit, Payload};
use elliptic_curve::hash2curve::GroupDigest;
use elliptic_curve::sec1::ToEncodedPoint;
use hkdf::Hkdf;
use hmac::Mac;
use sha3::{Digest, Sha3_256, Sha3_512};
use subtle::ConstantTimeEq;
use vstd::prelude::*;

verus! {

/// XChaCha20-Poly1305 encryption of `msg` under `key`, `nonce` and `aad`:
/// the ciphertext followed by the 16-byte tag.
pub uninterp spec fn xchacha20poly1305_seal(
    key: Seq<u8>,
    nonce: Seq<u8>,
    aad: Seq<u8>,
    msg: Seq<u8>,
) -> Seq<u8>;

/// XChaCha20-Poly1305 decryption of `ct` (ciphertext and tag): the
/// plaintext, or `None` when authentication fails.
pub uninterp spec fn xchacha20poly1305_open(
    key: Seq<u8>,
    nonce: Seq<u8>,
    aad: Seq<u8>,
    ct: Seq<u8>,
) -> Option<Seq<u8>>;

/// HMAC-SHA3-256 of `msg` under `key`.
pub uninterp spec fn hmac_sha3_256_spec(key: Seq<u8>, msg: Seq<u8>) -> Seq<u8>;

/// HMAC-SHA3-512 of `msg` under `key`.
pub uninterp spec fn hmac_sha3_512_spec(key: Seq<u8>, msg: Seq<u8>) -> Seq<u8>;

/// HKDF-SHA3-512 (no salt) of input key material `ikm`, expanded with
/// `info` to `len` bytes.
pub uninterp spec fn hkdf_sha3_512_spec(ikm: Seq<u8>, info: Seq<u8>, len: nat) -> Seq<u8>;

/// Argon2id (version 0x13) of `password` with `salt`, memory `m_kib`,
/// `t` iterations, `p` lanes, 64 output bytes.
pub uninterp spec fn argon2id_spec(
    password: Seq<u8>,
    salt: Seq<u8>,
    m_kib: u32,
    t: u32,
    p: u32,
) -> Seq<u8>;

/// SHA3-512 digest of `data`.
pub uninterp spec fn sha3_512_spec(data: Seq<u8>) -> Seq<u8>;

/// Largest plaintext length (exclusive) XChaCha20-Poly1305 accepts:
/// 64 bytes times `u32::MAX` blocks.
pub open spec fn aead_len_ok(len: nat) -> bool {
    len / 64 < u32::MAX
}

/// `XChaCha20Poly1305::new(key).encrypt(nonce, Payload { msg, aad })`.
/// Claims: it succeeds exactly when the message is below the cipher's
/// length limit; the output is the named ciphertext, 16 bytes longer than
/// the message, and decrypting it with the same inputs gives the message.
#[verifier::external_body]
pub(crate) fn aead_seal(key: &[u8; 32], nonce: &[u8; 24], aad: &[u8], msg: &[u8]) -> (r: Result<
    Vec<u8>,
    (),
>)
    ensures
        r is Ok <==> aead_len_ok(msg@.len()),
        r matches Ok(c) ==> c@ == xchacha20poly1305_seal(key@, nonce@, aad@, msg@),
        r matches Ok(c) ==> c@.len() == msg@.len() + 16,
        r matches Ok(c) ==> xchacha20poly1305_open(key@, nonce@, aad@, c@) == Some(msg@),
{
    let cipher = chacha20poly1305::XChaCha20Poly1305::new(key.into());
    cipher.encrypt(nonce.into(), Payload { msg, aad }).map_err(|_| ())
}

/// `XChaCha20Poly1305::new(key).decrypt(nonce, Payload { msg: ct, aad })`.
/// Claims: the result is the named decryption (`Err` when it is `None`).
#[verifier::external_body]
pub(crate) fn aead_open(key: &[u8; 32], nonce: &[u8; 24], aad: &[u8], ct: &[u8]) -> (r: Result<
    Vec<u8>,
    (),
>)
    ensures
        r is Ok <==> xchacha20poly1305_open(key@, nonce@, aad@, ct@) is Some,
        r matches Ok(p) ==> xchacha20poly1305_open(key@, nonce@, aad@, ct@) == Some(p@),
        r matches Ok(p) ==> p@.len() + 16 == ct@.len(),
{
    let cipher = chacha20poly1305::XChaCha20Poly1305::new(key.into());
    cipher.decrypt(nonce.into(), Payload { msg: ct, aad }).map_err(|_| ())
}

/// `Hmac::<Sha3_256>::new_from_slice(key)`, `update(msg)`, `finalize()`.
/// HMAC accepts keys of every length. Claims: the 32 bytes are the named MAC.
#[verifier::external_body]
pub(crate) fn hmac_sha3_256(key: &[u8], msg: &[u8]) -> (r: [u8; 32])
    ensures
        r@ == hmac_sha3_256_spec(key@, msg@),
{
    let mut mac = <hmac::Hmac<Sha3_256> as Mac>::new_from_slice(key).expect(
        "HMAC takes keys of any length",
    );
    mac.update(msg);
    mac.finalize().into_bytes().into()
}

/// Incremental HMAC-SHA3-256 state: the hmac crate's `Hmac<Sha3_256>` in
/// a private field. Verus could not take a declaration of that type's
/// generic core types (it stops with an internal error), nor of
/// `SimpleHmac`, whose bounds name the digest crate's traits, so the state
/// is opaque and described only through the two names below.
#[verifier::external_body]
pub struct MacState {
    inner: hmac::Hmac<Sha3_256>,
}

/// Key an incremental HMAC-SHA3-256 state was created with.
pub uninterp spec fn mac_state_key(s: MacState) -> Seq<u8>;

/// Bytes fed so far into an incremental HMAC-SHA3-256 state.
pub uninterp spec fn mac_state_data(s: MacState) -> Seq<u8>;

/// `Hmac::<Sha3_256>::new_from_slice(key)` (any key length is accepted).
/// Claims: the state holds `key` and no data yet.
#[verifier::external_body]
pub(crate) fn mac_state_new(key: &[u8]) -> (s: MacState)
    ensures
        mac_state_key(s) == key@,
        mac_state_data(s) == Seq::<u8>::empty(),
{
    MacState {
        inner: <hmac::Hmac<Sha3_256> as Mac>::new_from_slice(key).expect(
            "HMAC takes keys of any length",
        ),
    }
}

/// `Mac::update(s, data)`. Claims: the data is appended, the key kept.
#[verifier::external_body]
pub(crate) fn mac_state_update(s: &mut MacState, data: &[u8])
    ensures
        mac_state_key(*final(s)) == mac_state_key(*old(s)),
        mac_state_data(*final(s)) == mac_state_data(*old(s)) + data@,
{
    s.inner.update(data);
}

/// `Mac::finalize(s).into_bytes()`. Claims: the HMAC of all the data fed,
/// under the state's key.
#[verifier::external_body]
pub(crate) fn mac_state_finalize(s: MacState) -> (r: [u8; 32])
    ensures
        r@ == hmac_sha3_256_spec(mac_state_key(s), mac_state_data(s)),
{
    s.inner.finalize().into_bytes().into()
}

/// `Hmac::<Sha3_512>::new_from_slice(key)`, `update(msg)`, `finalize()`.
/// Claims: the 64 bytes are the named MAC.
#[verifier::external_body]
pub(crate) fn hmac_sha3_512(key: &[u8], msg: &[u8]) -> (r: [u8; 64])
    ensures
        r@ == hmac_sha3_512_spec(key@, msg@),
{
    let mut mac = <hmac::Hmac<Sha3_512> as Mac>::new_from_slice(key).expect(
        "HMAC takes keys of any length",
    );
    mac.update(msg);
    mac.finalize().into_bytes().into()
}

/// `Hkdf::<Sha3_512>::new(None, ikm).expand(info, &mut okm)` into 96 bytes
/// (well under HKDF's limit of 255 hash lengths, so it never fails).
/// Claims: the 96 bytes are the named output.
#[verifier::external_body]
pub(crate) fn hkdf_sha3_512_96(ikm: &[u8], info: &[u8]) -> (r: [u8; 96])
    ensures
        r@ == hkdf_sha3_512_spec(ikm@, info@, 96),
{
    let mut okm = [0u8; 96];
    Hkdf::<Sha3_512>::new(None, ikm).expand(info, &mut okm).expect("96 bytes is within HKDF's limit");
    okm
}

/// Whether Argon2id accepts these inputs: `Params::new` takes at least 8
/// KiB and 8 KiB per lane, one iteration or more, and 1 to 2^24 - 1 lanes;
/// `hash_password_into` takes a password of at most `u32::MAX` bytes and a
/// salt of 8 to `u32::MAX` bytes (a 64-byte output is always accepted).
pub open spec fn argon2_inputs_ok(pw_len: nat, salt_len: nat, m_kib: u32, t: u32, p: u32) -> bool {
    &&& m_kib >= 8
    &&& m_kib >= 8 * p
    &&& t >= 1
    &&& 1 <= p <= 0xFFFFFF
    &&& pw_len <= u32::MAX
    &&& 8 <= salt_len <= u32::MAX
}

/// `Argon2::new(Argon2id, V0x13, Params::new(m, t, p, Some(64)))` then
/// `hash_password_into(password, salt, &mut out64)`. `Params::new` computes
/// `p * 8` in `u32`, so `p` must leave that without overflow. Claims: it
/// succeeds exactly on the inputs `argon2_inputs_ok` admits, and the 64
/// bytes are the named hash.
#[verifier::external_body]
pub(crate) fn argon2id_64(password: &[u8], salt: &[u8], m_kib: u32, t: u32, p: u32) -> (r: Result<
    [u8; 64],
    (),
>)
    requires
        p <= 0x1FFF_FFFF,
    ensures
        r is Ok <==> argon2_inputs_ok(password@.len(), salt@.len(), m_kib, t, p),
        r matches Ok(h) ==> h@ == argon2id_spec(password@, salt@, m_kib, t, p),
{
    let params = argon2::Params::new(m_kib, t, p, Some(64)).map_err(|_| ())?;
    let a = argon2::Argon2::new(argon2::Algorithm::Argon2id, argon2::Version::V0x13, params);
    let mut out = [0u8; 64];
    a.hash_password_into(password, salt, &mut out).map_err(|_| ())?;
    Ok(out)
}

/// `Sha3_512::digest(data)`. Claims: the 64 bytes are the named digest.
#[verifier::external_body]
pub(crate) fn sha3_512(data: &[u8]) -> (r: [u8; 64])
    ensures
        r@ == sha3_512_spec(data@),
{
    Sha3_512::digest(data).into()
}

/// `getrandom::getrandom(buf)`: fills `buf` from the operating system's
/// CSPRNG. Claims only that the length is unchanged; the bytes are random.
#[verifier::external_body]
pub(crate) fn random_fill(buf: &mut [u8]) -> (r: Result<(), ()>)
    ensures
        final(buf)@.len() == old(buf)@.len(),
{
    getrandom::getrandom(buf).map_err(|_| ())
}

/// `a.ct_eq(&b).unwrap_u8()` from subtle: 1 when the bytes are equal, 0
/// otherwise, computed without data-dependent branches.
#[verifier::external_body]
pub(crate) fn ct_eq_u8(a: u8, b: u8) -> (r: u8)
    ensures
        r == (if a == b {
            1u8
        } else {
            0u8
        }),
{
    a.ct_eq(&b).unwrap_u8()
}

/// `a.ct_eq(&b).unwrap_u8()` from subtle on `usize`: 1 when equal, else 0.
#[verifier::external_body]
pub(crate) fn ct_eq_usize(a: usize, b: usize) -> (r: u8)
    ensures
        r == (if a == b {
            1u8
        } else {
            0u8
        }),
{
    a.ct_eq(&b).unwrap_u8()
}

/// Value of an ASCII hex digit (either case), if it is one.
pub open spec fn hex_digit_value(c: u8) -> Option<u8> {
    if 48 <= c <= 57 {
        Some((c - 48) as u8)
    } else if 65 <= c <= 70 {
        Some((c - 55) as u8)
    } else if 97 <= c <= 102 {
        Some((c - 87) as u8)
    } else {
        None
    }
}

/// Hex decoding: even length and all digits valid; each pair of digits is
/// one byte, high nibble first.
pub open spec fn hex_decode_spec(s: Seq<u8>) -> Option<Seq<u8>> {
    if s.len() % 2 != 0 {
        None
    } else if exists|i: int| 0 <= i < s.len() && #[trigger] hex_digit_value(s[i]) is None {
        None
    } else {
        Some(
            Seq::new(
                s.len() / 2,
                |i: int|
                    (hex_digit_value(s[2 * i])->0 * 16 + hex_digit_value(s[2 * i + 1])->0) as u8,
            ),
        )
    }
}

/// Lowercase hex digit for a nibble.
pub open spec fn hex_char(d: u8) -> char {
    if d < 10 {
        (48 + d) as char
    } else {
        (87 + d) as char
    }
}

/// Lowercase hex encoding: two characters per byte, high nibble first.
pub open spec fn hex_encode_spec(b: Seq<u8>) -> Seq<char> {
    Seq::new(
        2 * b.len(),
        |i: int|
            if i % 2 == 0 {
                hex_char(b[i / 2] / 16)
            } else {
                hex_char(b[i / 2] % 16)
            },
    )
}

/// `hex::decode(s)`: `Ok` exactly on even-length input made of hex digits,
/// with the bytes that `hex_decode_spec` gives.
#[verifier::external_body]
pub(crate) fn hex_decode(s: &[u8]) -> (r: Result<Vec<u8>, ()>)
    ensures
        r is Ok <==> hex_decode_spec(s@) is Some,
        r matches Ok(v) ==> hex_decode_spec(s@) == Some(v@),
{
    hex::decode(s).map_err(|_| ())
}

/// `hex::encode(b)`: the lowercase hex string of `b`.
#[verifier::external_body]
pub(crate) fn hex_encode(b: &[u8]) -> (s: String)
    ensures
        s@ == hex_encode_spec(b@),
{
    hex::encode(b)
}

/// RFC 9380 hash-to-curve of a message onto P-256 (expand_message_xmd
/// with SHA-256, SSWU, random-oracle variant) under the domain separation
/// tag `dst`, as an uncompressed SEC1 encoding; none when the hashing fails.
pub uninterp spec fn p256_hash_to_curve_spec(msg: Seq<u8>, dst: Seq<u8>) -> Option<Seq<u8>>;

/// `NistP256::hash_from_bytes::<ExpandMsgXmd<Sha256>>(&[msg], &[dst])`,
/// then `to_affine().to_encoded_point(false)` as bytes. Claims: the result
/// is the named encoding (`Err` when it is none).
#[verifier::external_body]
pub(crate) fn p256_hash_to_curve(msg: &[u8; 64], dst: &[u8]) -> (r: Result<Vec<u8>, ()>)
    ensures
        r is Ok <==> p256_hash_to_curve_spec(msg@, dst@) is Some,
        r matches Ok(b) ==> p256_hash_to_curve_spec(msg@, dst@) == Some(b@),
{
    match p256::NistP256::hash_from_bytes::<elliptic_curve::hash2curve::ExpandMsgXmd<sha2::Sha256>>(
        &[msg],
        &[dst],
    ) {
        Ok(point) => Ok(point.to_affine().to_encoded_point(false).as_bytes().to_vec()),
        Err(_) => Err(()),
    }
}

} // verus!
