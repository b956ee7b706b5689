//! Crypto engine: authenticated-data contexts, nonces, the key schedule
//! (Argon2id, hardware enclave, HMAC-SHA3-512, HKDF-SHA3-512), object and
//! key sealing with XChaCha20-Poly1305, header MACs and chunked streams.

use vstd::prelude::*;

use crate::codec::{append_bytes, be32, be64, u32_to_be, u64_to_be};
use vstd::bytes::{
    spec_u64_from_le_bytes, spec_u64_to_le_bytes, u64_from_le_bytes, u64_to_le_bytes,
};
use crate::config::{
    ARGON2_MAX_ITERATIONS, ARGON2_MAX_MEMORY_KIB, ARGON2_MAX_PARALLELISM, ARGON2_MIN_ITERATIONS,
    ARGON2_MIN_MEMORY_KIB, ARGON2_MIN_PARALLELISM, CRYPTO_VERSION, CSPRNG_MAX_LEN, LABEL_CR,
    LABEL_LEAFS, STREAM_CHUNK_SIZE, WRAPPED_DEK_SIZE,
};
use crate::error::{VaultError, VaultErrorKind};
use crate::hsp::HardwareEnclave;
use crate::primitives::{
    aead_len_ok, aead_open, aead_seal, argon2id_64, argon2id_spec, hkdf_sha3_512_96,
    hkdf_sha3_512_spec, hmac_sha3_256, hmac_sha3_256_spec, hmac_sha3_512, hmac_sha3_512_spec,
    mac_state_data, mac_state_finalize, mac_state_key, mac_state_new, mac_state_update,
    random_fill, xchacha20poly1305_open, xchacha20poly1305_seal, MacState,
};
use crate::types::{CryptoVersion, Epoch, KeyCK, KeyKEK, KeyMK, KeyMR, KeyUR, Nonce, ObjectId};
use crate::util::ct_eq;

verus! {

// =============================================================================
// AAD PURPOSE
// =============================================================================

/// Purpose bound into the authenticated data (no raw strings).
#[derive(Debug, Clone, Copy, PartialEq, Eq)]
#[non_exhaustive]
pub enum AadPurpose {
    /// Header authentication
    Header,
    /// Object data authentication
    ObjectData,
    /// User-defined purpose (NUL-padded bytes)
    UserPurpose([u8; 32]),
}

/// Length of the NUL-terminated prefix of `s` (all of `s` when it holds no
/// zero byte).
pub open spec fn cstr_len(s: Seq<u8>) -> nat
    decreases s.len(),
{
    if s.len() == 0 || s[0] == 0 {
        0
    } else {
        1 + cstr_len(s.subrange(1, s.len() as int))
    }
}

/// `cstr_len` is the index of the first zero byte, or the length.
pub proof fn lemma_cstr_len(s: Seq<u8>, n: int)
    requires
        0 <= n <= s.len(),
        forall|j: int| 0 <= j < n ==> s[j] != 0,
        n == s.len() || s[n] == 0,
    ensures
        cstr_len(s) == n,
    decreases n,
{
    if n > 0 {
        let t = s.subrange(1, s.len() as int);
        assert forall|j: int| 0 <= j < n - 1 implies t[j] != 0 by {
            assert(t[j] == s[j + 1]);
        }
        if n - 1 < t.len() {
            assert(t[n - 1] == s[n]);
        }
        lemma_cstr_len(t, n - 1);
    }
}

/// The bytes of "header".
pub open spec fn header_label() -> Seq<u8> {
    seq![104u8, 101, 97, 100, 101, 114]
}

/// The bytes of "object_data".
pub open spec fn object_data_label() -> Seq<u8> {
    seq![111u8, 98, 106, 101, 99, 116, 95, 100, 97, 116, 97]
}

/// Bytes of a user purpose field: its NUL-terminated prefix, or a single
/// zero byte when that prefix is empty.
pub open spec fn user_purpose_bytes(b: Seq<u8>) -> Seq<u8> {
    let n = cstr_len(b);
    if n == 0 {
        seq![0u8]
    } else {
        b.subrange(0, n as int)
    }
}

/// Bytes of a purpose: fixed labels for the built-in purposes; for a user
/// purpose its NUL-terminated prefix, or a single zero byte when that prefix
/// is empty (so that an empty purpose never yields empty bytes).
pub open spec fn purpose_bytes(p: AadPurpose) -> Seq<u8> {
    match p {
        AadPurpose::Header => header_label(),
        AadPurpose::ObjectData => object_data_label(),
        AadPurpose::UserPurpose(b) => user_purpose_bytes(b@),
    }
}

impl AadPurpose {
    /// Bytes of the purpose, as `purpose_bytes` states.
    pub fn as_bytes(&self) -> (r: Vec<u8>)
        ensures
            r@ == purpose_bytes(*self),
    {
        match self {
            AadPurpose::Header => {
                let r = vec![104u8, 101, 97, 100, 101, 114];
                assert(r@ =~= header_label());
                r
            },
            AadPurpose::ObjectData => {
                let r = vec![111u8, 98, 106, 101, 99, 116, 95, 100, 97, 116, 97];
                assert(r@ =~= object_data_label());
                r
            },
            AadPurpose::UserPurpose(bytes) => {
                let mut len: usize = 0;
                while len < 32 && bytes[len] != 0
                    invariant
                        len <= 32,
                        forall|j: int| 0 <= j < len ==> bytes@[j] != 0,
                    decreases 32 - len,
                {
                    len = len + 1;
                }
                proof {
                    lemma_cstr_len(bytes@, len as int);
                }
                if len == 0 {
                    let r = vec![0u8];
                    assert(r@ =~= seq![0u8]);
                    r
                } else {
                    let mut r: Vec<u8> = Vec::new();
                    let mut i: usize = 0;
                    while i < len
                        invariant
                            i <= len <= 32,
                            r@ == bytes@.subrange(0, i as int),
                        decreases len - i,
                    {
                        r.push(bytes[i]);
                        i = i + 1;
                        assert(r@ =~= bytes@.subrange(0, i as int));
                    }
                    r
                }
            },
        }
    }
}

// =============================================================================
// NONCES AND AAD
// =============================================================================

/// A nonce that has been handed to an encryption: moving it in makes a
/// second use impossible.
#[must_use]
pub struct ConsumedNonce(Nonce);

impl View for ConsumedNonce {
    type V = Seq<u8>;

    closed spec fn view(&self) -> Seq<u8> {
        self.0@
    }
}

impl ConsumedNonce {
    /// Wrap a nonce for consumption.
    pub fn new(nonce: Nonce) -> (r: Self)
        ensures
            r@ == nonce@,
    {
        Self(nonce)
    }

    /// A copy of the nonce's bytes, to store beside the ciphertext.
    pub fn to_bytes(&self) -> (r: [u8; 24])
        ensures
            r@ == self@,
    {
        self.0.to_bytes()
    }
}

/// Authenticated data: object id, version (big-endian), epoch
/// (big-endian), then the purpose bytes.
pub open spec fn aad_bytes(oid: Seq<u8>, version: u32, epoch: u64, purpose: AadPurpose) -> Seq<
    u8,
> {
    oid + be32(version) + be64(epoch) + purpose_bytes(purpose)
}

/// Builder of an authenticated-data context; every field is required.
#[must_use]
pub struct AadBuilder {
    object_id: Option<ObjectId>,
    version: Option<CryptoVersion>,
    epoch: Option<Epoch>,
    purpose: Option<AadPurpose>,
}

/// Finished authenticated data.
pub struct AadContext {
    data: Vec<u8>,
}

impl View for AadContext {
    type V = Seq<u8>;

    closed spec fn view(&self) -> Seq<u8> {
        self.data@
    }
}

impl AadContext {
    /// The authenticated bytes.
    pub fn data(&self) -> (r: &[u8])
        ensures
            r@ == self@,
    {
        self.data.as_slice()
    }
}

impl AadBuilder {
    /// The object id set so far.
    pub closed spec fn spec_object_id(&self) -> Option<ObjectId> {
        self.object_id
    }

    /// The version set so far.
    pub closed spec fn spec_version(&self) -> Option<CryptoVersion> {
        self.version
    }

    /// The epoch set so far.
    pub closed spec fn spec_epoch(&self) -> Option<Epoch> {
        self.epoch
    }

    /// The purpose set so far.
    pub closed spec fn spec_purpose(&self) -> Option<AadPurpose> {
        self.purpose
    }

    /// A builder with no field set.
    pub fn new() -> (b: Self)
        ensures
            b.spec_object_id() is None,
            b.spec_version() is None,
            b.spec_epoch() is None,
            b.spec_purpose() is None,
    {
        Self { object_id: None, version: None, epoch: None, purpose: None }
    }

    /// Set the object id.
    pub fn object_id(self, oid: ObjectId) -> (b: Self)
        ensures
            b.spec_object_id() == Some(oid),
            b.spec_version() == self.spec_version(),
            b.spec_epoch() == self.spec_epoch(),
            b.spec_purpose() == self.spec_purpose(),
    {
        Self { object_id: Some(oid), ..self }
    }

    /// Set the version.
    pub fn version(self, ver: CryptoVersion) -> (b: Self)
        ensures
            b.spec_object_id() == self.spec_object_id(),
            b.spec_version() == Some(ver),
            b.spec_epoch() == self.spec_epoch(),
            b.spec_purpose() == self.spec_purpose(),
    {
        Self { version: Some(ver), ..self }
    }

    /// Set the epoch.
    pub fn epoch(self, epoch: Epoch) -> (b: Self)
        ensures
            b.spec_object_id() == self.spec_object_id(),
            b.spec_version() == self.spec_version(),
            b.spec_epoch() == Some(epoch),
            b.spec_purpose() == self.spec_purpose(),
    {
        Self { epoch: Some(epoch), ..self }
    }

    /// Set the purpose.
    pub fn purpose(self, purpose: AadPurpose) -> (b: Self)
        ensures
            b.spec_object_id() == self.spec_object_id(),
            b.spec_version() == self.spec_version(),
            b.spec_epoch() == self.spec_epoch(),
            b.spec_purpose() == Some(purpose),
    {
        Self { purpose: Some(purpose), ..self }
    }

    /// Build the context: `InvalidInput` when a field is missing, else the
    /// bytes that `aad_bytes` states.
    pub fn build(self) -> (r: Result<AadContext, VaultError>)
        ensures
            r is Ok <==> (self.spec_object_id() is Some && self.spec_version() is Some
                && self.spec_epoch() is Some && self.spec_purpose() is Some),
            r matches Err(e) ==> e.kind == VaultErrorKind::InvalidInput,
            r matches Ok(c) ==> c@ == aad_bytes(
                self.spec_object_id()->0@,
                self.spec_version()->0@,
                self.spec_epoch()->0@,
                self.spec_purpose()->0,
            ),
    {
        let oid = match self.object_id {
            Some(o) => o,
            None => {
                return Err(VaultError::new(VaultErrorKind::InvalidInput));
            },
        };
        let ver = match self.version {
            Some(v) => v,
            None => {
                return Err(VaultError::new(VaultErrorKind::InvalidInput));
            },
        };
        let ep = match self.epoch {
            Some(e) => e,
            None => {
                return Err(VaultError::new(VaultErrorKind::InvalidInput));
            },
        };
        let pur = match self.purpose {
            Some(p) => p,
            None => {
                return Err(VaultError::new(VaultErrorKind::InvalidInput));
            },
        };
        let pur_bytes = pur.as_bytes();
        let mut data: Vec<u8> = Vec::new();
        append_bytes(&mut data, oid.as_bytes());
        let vb = u32_to_be(ver.value());
        append_bytes(&mut data, &vb);
        let eb = u64_to_be(ep.value());
        append_bytes(&mut data, eb.as_slice());
        append_bytes(&mut data, pur_bytes.as_slice());
        Ok(AadContext { data })
    }
}

/// One setter call on an authenticated-data builder, with its value.
pub enum AadSetter {
    /// `object_id(..)`
    ObjectId(ObjectId),
    /// `version(..)`
    Version(CryptoVersion),
    /// `epoch(..)`
    Epoch(Epoch),
    /// `purpose(..)`
    Purpose(AadPurpose),
}

/// The four fields of a builder.
pub open spec fn aad_fields(b: AadBuilder) -> (
    Option<ObjectId>,
    Option<CryptoVersion>,
    Option<Epoch>,
    Option<AadPurpose>,
) {
    (b.spec_object_id(), b.spec_version(), b.spec_epoch(), b.spec_purpose())
}

/// The fields after one setter call, as the setters' contracts state.
pub open spec fn apply_setter(
    f: (Option<ObjectId>, Option<CryptoVersion>, Option<Epoch>, Option<AadPurpose>),
    s: AadSetter,
) -> (Option<ObjectId>, Option<CryptoVersion>, Option<Epoch>, Option<AadPurpose>) {
    match s {
        AadSetter::ObjectId(x) => (Some(x), f.1, f.2, f.3),
        AadSetter::Version(x) => (f.0, Some(x), f.2, f.3),
        AadSetter::Epoch(x) => (f.0, f.1, Some(x), f.3),
        AadSetter::Purpose(x) => (f.0, f.1, f.2, Some(x)),
    }
}

/// The fields after a run of setter calls.
pub open spec fn apply_setters(
    f: (Option<ObjectId>, Option<CryptoVersion>, Option<Epoch>, Option<AadPurpose>),
    ss: Seq<AadSetter>,
) -> (Option<ObjectId>, Option<CryptoVersion>, Option<Epoch>, Option<AadPurpose>)
    decreases ss.len(),
{
    if ss.len() == 0 {
        f
    } else {
        apply_setter(apply_setters(f, ss.drop_last()), ss.last())
    }
}

/// The value of the last call of each setter in a run (or the value before
/// the run where that setter was not called).
pub open spec fn last_values(
    f: (Option<ObjectId>, Option<CryptoVersion>, Option<Epoch>, Option<AadPurpose>),
    ss: Seq<AadSetter>,
) -> (Option<ObjectId>, Option<CryptoVersion>, Option<Epoch>, Option<AadPurpose>)
    decreases ss.len(),
{
    if ss.len() == 0 {
        f
    } else {
        let before = last_values(f, ss.drop_last());
        match ss.last() {
            AadSetter::ObjectId(x) => (Some(x), before.1, before.2, before.3),
            AadSetter::Version(x) => (before.0, Some(x), before.2, before.3),
            AadSetter::Epoch(x) => (before.0, before.1, Some(x), before.3),
            AadSetter::Purpose(x) => (before.0, before.1, before.2, Some(x)),
        }
    }
}

/// The order of the setter calls does not matter: after any run of them
/// each field holds the value of the last call of its own setter, so two
/// runs that end with the same value for each field leave the same
/// fields, and `build` gives the same bytes.
pub proof fn lemma_aad_setters_order_free(
    f: (Option<ObjectId>, Option<CryptoVersion>, Option<Epoch>, Option<AadPurpose>),
    ss: Seq<AadSetter>,
)
    ensures
        apply_setters(f, ss) == last_values(f, ss),
    decreases ss.len(),
{
    if ss.len() > 0 {
        lemma_aad_setters_order_free(f, ss.drop_last());
    }
}

impl Default for AadBuilder {
    fn default() -> (b: Self)
        ensures
            b.spec_object_id() is None,
            b.spec_version() is None,
            b.spec_epoch() is None,
            b.spec_purpose() is None,
    {
        Self::new()
    }
}

/// Builds nonces from the operating system's CSPRNG.
pub struct NonceFactory;

/// A stream base nonce: its last eight bytes (the chunk counter) are zero.
pub open spec fn counter_zeroed(n: Seq<u8>) -> bool {
    n.len() == 24 && forall|i: int| 16 <= i < 24 ==> n[i] == 0u8
}

impl NonceFactory {
    /// A nonce of 16 random bytes followed by an 8-byte zero counter, for
    /// streams; `OperationFailed` when the CSPRNG fails.
    pub fn generate() -> (r: Result<Nonce, VaultError>)
        ensures
            r matches Ok(n) ==> counter_zeroed(n@),
            r matches Err(e) ==> e.kind == VaultErrorKind::OperationFailed,
    {
        let mut head: Vec<u8> = vec![0u8; 16];
        if random_fill(head.as_mut_slice()).is_err() {
            return Err(VaultError::new(VaultErrorKind::OperationFailed));
        }
        let mut bytes = [0u8; 24];
        let mut i: usize = 0;
        while i < 16
            invariant
                i <= 16,
                head@.len() == 16,
                forall|k: int| 16 <= k < 24 ==> bytes@[k] == 0u8,
            decreases 16 - i,
        {
            bytes[i] = head[i];
            i = i + 1;
        }
        Ok(Nonce::new(bytes))
    }

    /// A fully random nonce, for one-shot sealing; `OperationFailed` when
    /// the CSPRNG fails.
    pub fn generate_random() -> (r: Result<Nonce, VaultError>)
        ensures
            r matches Err(e) ==> e.kind == VaultErrorKind::OperationFailed,
    {
        let mut bytes: Vec<u8> = vec![0u8; 24];
        if random_fill(bytes.as_mut_slice()).is_err() {
            return Err(VaultError::new(VaultErrorKind::OperationFailed));
        }
        let mut out = [0u8; 24];
        let mut i: usize = 0;
        while i < 24
            invariant
                i <= 24,
                bytes@.len() == 24,
            decreases 24 - i,
        {
            out[i] = bytes[i];
            i = i + 1;
        }
        Ok(Nonce::new(out))
    }
}

/// Argon2id parameters.
#[derive(Debug, Clone, Copy)]
pub struct KdfParams {
    /// Memory in KiB
    pub memory_kib: u32,
    /// Iterations
    pub iterations: u32,
    /// Parallelism
    pub parallelism: u32,
}

/// Parameters inside the safety bounds.
pub open spec fn kdf_params_ok(p: KdfParams) -> bool {
    &&& ARGON2_MIN_MEMORY_KIB <= p.memory_kib <= ARGON2_MAX_MEMORY_KIB
    &&& ARGON2_MIN_ITERATIONS <= p.iterations <= ARGON2_MAX_ITERATIONS
    &&& ARGON2_MIN_PARALLELISM <= p.parallelism <= ARGON2_MAX_PARALLELISM
}

impl KdfParams {
    /// `Ok` exactly when every parameter is inside its bounds, else
    /// `ParameterOutOfRange`.
    pub fn validate(&self) -> (r: Result<(), VaultError>)
        ensures
            r is Ok <==> kdf_params_ok(*self),
            r matches Err(e) ==> e.kind == VaultErrorKind::ParameterOutOfRange,
    {
        if self.memory_kib < ARGON2_MIN_MEMORY_KIB || self.memory_kib > ARGON2_MAX_MEMORY_KIB {
            return Err(VaultError::new(VaultErrorKind::ParameterOutOfRange));
        }
        if self.iterations < ARGON2_MIN_ITERATIONS || self.iterations > ARGON2_MAX_ITERATIONS {
            return Err(VaultError::new(VaultErrorKind::ParameterOutOfRange));
        }
        if self.parallelism < ARGON2_MIN_PARALLELISM || self.parallelism > ARGON2_MAX_PARALLELISM {
            return Err(VaultError::new(VaultErrorKind::ParameterOutOfRange));
        }
        Ok(())
    }
}

// =============================================================================
// KEY SCHEDULE SPECIFICATION
// =============================================================================

/// Message of the context-root HMAC: vault id, creation time
/// (little-endian), the context-root label, the crypto version
/// (big-endian).
pub open spec fn cr_message(vid: Seq<u8>, timestamp: u64) -> Seq<u8> {
    vid + spec_u64_to_le_bytes(timestamp) + LABEL_CR@ + be32(CRYPTO_VERSION)
}

/// HKDF info of the leaf keys: the leaf label and the crypto version
/// (big-endian).
pub open spec fn leaf_info() -> Seq<u8> {
    LABEL_LEAFS@ + be32(CRYPTO_VERSION)
}

/// The 96 bytes the three leaf keys are cut from, for a master root.
pub open spec fn leaf_okm(mr: Seq<u8>, vid: Seq<u8>, timestamp: u64) -> Seq<u8> {
    hkdf_sha3_512_spec(hmac_sha3_512_spec(mr, cr_message(vid, timestamp)), leaf_info(), 96)
}

/// Wrapped data key: a 24-byte nonce, then the sealed 32-byte key and its
/// tag. Unwrapping fails with `AuthenticationFailed` when the tag does not
/// verify and with `IntegrityError` when the opened key is not 32 bytes.
pub open spec fn unwrap_spec(kek: Seq<u8>, wrapped: Seq<u8>, aad: Seq<u8>) -> Result<
    Seq<u8>,
    VaultErrorKind,
> {
    match xchacha20poly1305_open(kek, wrapped.subrange(0, 24), aad, wrapped.subrange(24, 72)) {
        None => Err(VaultErrorKind::AuthenticationFailed),
        Some(p) => if p.len() == 32 {
            Ok(p)
        } else {
            Err(VaultErrorKind::IntegrityError)
        },
    }
}

/// Nonce of chunk `index` of a stream: the base nonce with its last eight
/// bytes, read as a little-endian counter, advanced by `index`; none when
/// the counter would overflow.
pub open spec fn chunk_nonce(base: Seq<u8>, index: u64) -> Option<Seq<u8>> {
    let ctr = spec_u64_from_le_bytes(base.subrange(16, 24)) as int + index as int;
    if ctr > u64::MAX {
        None
    } else {
        Some(base.subrange(0, 16) + spec_u64_to_le_bytes(ctr as u64))
    }
}

/// Within one stream every chunk has a nonce of its own: two chunk indices
/// that both have a nonce under the same base never share it.
pub proof fn lemma_chunk_nonces_distinct(base: Seq<u8>, i: u64, j: u64)
    requires
        base.len() == 24,
        i != j,
        chunk_nonce(base, i) is Some,
        chunk_nonce(base, j) is Some,
    ensures
        chunk_nonce(base, i) != chunk_nonce(base, j),
{
    let c = spec_u64_from_le_bytes(base.subrange(16, 24)) as int;
    let a = chunk_nonce(base, i)->0;
    let b = chunk_nonce(base, j)->0;
    vstd::bytes::lemma_auto_spec_u64_to_from_le_bytes();
    if a == b {
        assert(a.subrange(16, 24) =~= spec_u64_to_le_bytes((c + i) as u64));
        assert(b.subrange(16, 24) =~= spec_u64_to_le_bytes((c + j) as u64));
        assert(spec_u64_from_le_bytes(spec_u64_to_le_bytes((c + i) as u64)) == (c + i) as u64);
        assert(spec_u64_from_le_bytes(spec_u64_to_le_bytes((c + j) as u64)) == (c + j) as u64);
    }
}

/// The user root of a password and salt: their 64-byte Argon2id hash with
/// the given parameters.
pub open spec fn user_root_spec(password: Seq<u8>, salt: Seq<u8>, params: KdfParams) -> Seq<u8> {
    argon2id_spec(password, salt, params.memory_kib, params.iterations, params.parallelism)
}

// =============================================================================
// ENGINE
// =============================================================================

/// Core crypto engine.
pub trait CryptoEngine {
    /// Root derivation: validate the parameters, stretch the password into
    /// the user root with Argon2id, let the enclave turn it into the master
    /// root, then derive the context root and cut the three leaf keys from
    /// its HKDF expansion. Bad parameters give `ParameterOutOfRange` and a
    /// password over `u32::MAX` bytes `OperationFailed`, without a call to
    /// the enclave; otherwise the enclave is handed the Argon2id user root,
    /// its error comes back unchanged, and a success yields the leaf keys of
    /// a master root that the enclave gives for that user root.
    fn derive_root_keys<E: HardwareEnclave + ?Sized>(
        &self,
        password: &[u8],
        salt: &[u8; 32],
        enclave: &E,
        vid: &[u8; 16],
        timestamp: u64,
        params: &KdfParams,
    ) -> (r: Result<(KeyKEK, KeyMK, KeyCK), VaultError>)
        ensures
            !kdf_params_ok(*params) ==> (r matches Err(e) && e.kind
                == VaultErrorKind::ParameterOutOfRange),
            kdf_params_ok(*params) && password@.len() > u32::MAX ==> (r matches Err(e) && e.kind
                == VaultErrorKind::OperationFailed),
            kdf_params_ok(*params) && password@.len() <= u32::MAX ==> (r matches Err(e)
                ==> enclave.spec_refuses(user_root_spec(password@, salt@, *params), e)),
            r matches Ok(keys) ==> kdf_params_ok(*params) && password@.len() <= u32::MAX
                && exists|mr: Seq<u8>|
                mr.len() == 64 && enclave.spec_signs(user_root_spec(password@, salt@, *params), mr)
                    && #[trigger] leaf_okm(mr, vid@, timestamp) == keys.0@ + keys.1@ + keys.2@,
    ;

    /// Seal `plaintext`: ciphertext and 16-byte tag. Fails with
    /// `OperationFailed` exactly when the plaintext is over the cipher's
    /// limit. Opening the output gives the plaintext back.
    fn encrypt_object(
        &self,
        dek: &KeyKEK,
        plaintext: &[u8],
        aad: &AadContext,
        nonce: ConsumedNonce,
    ) -> (r: Result<(Vec<u8>, [u8; 16]), VaultError>)
        ensures
            r is Ok <==> aead_len_ok(plaintext@.len()),
            r matches Err(e) ==> e.kind == VaultErrorKind::OperationFailed,
            r matches Ok(out) ==> out.0@ + out.1@ == xchacha20poly1305_seal(
                dek@,
                nonce@,
                aad@,
                plaintext@,
            ),
            r matches Ok(out) ==> out.0@.len() == plaintext@.len(),
            r matches Ok(out) ==> xchacha20poly1305_open(dek@, nonce@, aad@, out.0@ + out.1@)
                == Some(plaintext@),
    ;

    /// Open ciphertext and tag: the plaintext, or `AuthenticationFailed`.
    fn decrypt_object(
        &self,
        dek: &KeyKEK,
        nonce: Nonce,
        ciphertext: &[u8],
        tag: &[u8; 16],
        aad: &AadContext,
    ) -> (r: Result<Vec<u8>, VaultError>)
        ensures
            r is Ok <==> xchacha20poly1305_open(dek@, nonce@, aad@, ciphertext@ + tag@) is Some,
            r matches Ok(p) ==> xchacha20poly1305_open(dek@, nonce@, aad@, ciphertext@ + tag@)
                == Some(p@),
            r matches Err(e) ==> e.kind == VaultErrorKind::AuthenticationFailed,
    ;

    /// Wrap a data key under a fresh stream-style nonce: nonce, sealed key,
    /// tag. Only the CSPRNG can fail (`OperationFailed`). Unwrapping the
    /// result gives the key back.
    fn wrap_dek(&self, kek: &KeyKEK, dek: &KeyKEK, aad: &AadContext) -> (r: Result<
        [u8; 72],
        VaultError,
    >)
        ensures
            r matches Err(e) ==> e.kind == VaultErrorKind::OperationFailed,
            r matches Ok(w) ==> counter_zeroed(w@.subrange(0, 24)),
            r matches Ok(w) ==> w@.subrange(24, 72) == xchacha20poly1305_seal(
                kek@,
                w@.subrange(0, 24),
                aad@,
                dek@,
            ),
            r matches Ok(w) ==> unwrap_spec(kek@, w@, aad@) == Ok::<Seq<u8>, VaultErrorKind>(
                dek@,
            ),
    ;

    /// Unwrap a data key, as `unwrap_spec` states.
    fn unwrap_dek(&self, kek: &KeyKEK, wrapped: &[u8; 72], aad: &AadContext) -> (r: Result<
        KeyKEK,
        VaultError,
    >)
        ensures
            r is Ok <==> unwrap_spec(kek@, wrapped@, aad@) is Ok,
            r matches Ok(k) ==> unwrap_spec(kek@, wrapped@, aad@) == Ok::<
                Seq<u8>,
                VaultErrorKind,
            >(k@),
            r matches Err(e) ==> unwrap_spec(kek@, wrapped@, aad@) == Err::<
                Seq<u8>,
                VaultErrorKind,
            >(e.kind),
    ;

    /// HMAC-SHA3-256 of the header bytes under the MAC key; never fails.
    fn compute_header_mac(&self, mk: &KeyMK, header_data: &[u8]) -> (r: Result<
        [u8; 32],
        VaultError,
    >)
        ensures
            r matches Ok(m) && m@ == hmac_sha3_256_spec(mk@, header_data@),
    ;

    /// Whether `mac` is the header MAC of the bytes (compared in constant
    /// time); never fails.
    fn verify_header_mac(&self, mk: &KeyMK, header_data: &[u8], mac: &[u8; 32]) -> (r: Result<
        bool,
        VaultError,
    >)
        ensures
            r matches Ok(b) && b == (hmac_sha3_256_spec(mk@, header_data@) == mac@),
    ;

    /// A fresh random data key; `OperationFailed` when the CSPRNG fails.
    fn generate_dek(&self) -> (r: Result<KeyKEK, VaultError>)
        ensures
            r matches Err(e) ==> e.kind == VaultErrorKind::OperationFailed,
    ;

    /// `len` random bytes: `ParameterOutOfRange` when `len` is zero or over
    /// the CSPRNG limit, `OperationFailed` when the CSPRNG fails.
    fn csprng(&self, len: usize) -> (r: Result<Vec<u8>, VaultError>)
        ensures
            (len == 0 || len > CSPRNG_MAX_LEN) <==> (r matches Err(e) && e.kind
                == VaultErrorKind::ParameterOutOfRange),
            r matches Err(e) ==> (e.kind == VaultErrorKind::ParameterOutOfRange || e.kind
                == VaultErrorKind::OperationFailed),
            r matches Ok(v) ==> v@.len() == len,
    ;
}

/// The engine used by the vault.
#[derive(Debug, Clone, Copy, Default)]
pub struct DefaultCryptoEngine;

impl DefaultCryptoEngine {
    /// The user root: Argon2id of the password and salt with the given
    /// parameters (64 bytes). `ParameterOutOfRange` for parameters outside
    /// the bounds; `OperationFailed` for a password over `u32::MAX` bytes.
    pub fn derive_user_root(&self, password: &[u8], salt: &[u8; 32], params: &KdfParams) -> (r:
        Result<KeyUR, VaultError>)
        ensures
            !kdf_params_ok(*params) ==> (r matches Err(e) && e.kind
                == VaultErrorKind::ParameterOutOfRange),
            r is Ok <==> (kdf_params_ok(*params) && password@.len() <= u32::MAX),
            kdf_params_ok(*params) && password@.len() > u32::MAX ==> (r matches Err(e) && e.kind
                == VaultErrorKind::OperationFailed),
            r matches Ok(ur) ==> kdf_params_ok(*params) && ur@ == argon2id_spec(
                password@,
                salt@,
                params.memory_kib,
                params.iterations,
                params.parallelism,
            ),
            r matches Err(e) ==> (e.kind == VaultErrorKind::ParameterOutOfRange || e.kind
                == VaultErrorKind::OperationFailed),
    {
        params.validate()?;
        match argon2id_64(password, salt, params.memory_kib, params.iterations, params.parallelism) {
            Ok(h) => Ok(KeyUR::new(h)),
            Err(_) => Err(VaultError::new(VaultErrorKind::OperationFailed)),
        }
    }

    /// Wrap a data key under a given nonce: the nonce, then the key sealed
    /// under the key-encryption key with its tag. Never fails (32 bytes are
    /// far below the cipher's limit); unwrapping gives the key back.
    pub fn wrap_dek_with(&self, kek: &KeyKEK, dek: &KeyKEK, aad: &AadContext, nonce: ConsumedNonce) -> (w:
        [u8; 72])
        ensures
            w@.subrange(0, 24) == nonce@,
            w@.subrange(24, 72) == xchacha20poly1305_seal(kek@, nonce@, aad@, dek@),
            unwrap_spec(kek@, w@, aad@) == Ok::<Seq<u8>, VaultErrorKind>(dek@),
    {
        let nb = nonce.0.to_bytes();
        proof {
            dek.lemma_len();
        }
        let sealed = self.encrypt_object(kek, dek.as_bytes(), aad, nonce);
        let (ct, tag) = match sealed {
            Ok(out) => out,
            Err(e) => {
                assert(false);
                return [0u8; 72];
            },
        };
        let mut w: Vec<u8> = Vec::new();
        append_bytes(&mut w, &nb);
        append_bytes(&mut w, ct.as_slice());
        append_bytes(&mut w, &tag);
        let out: [u8; 72] = crate::codec::copy_array(w.as_slice(), 0);
        assert(out@ =~= nb@ + (ct@ + tag@));
        assert(out@.subrange(0, 24) =~= nb@);
        assert(out@.subrange(24, 72) =~= ct@ + tag@);
        out
    }

    /// The three leaf keys of a master root: the context root is
    /// HMAC-SHA3-512 of `cr_message` under the master root; its HKDF
    /// expansion with `leaf_info` is cut into key-encryption key, MAC key
    /// and context key, 32 bytes each.
    pub fn derive_leaf_keys(&self, mr: &KeyMR, vid: &[u8; 16], timestamp: u64) -> (r: (
        KeyKEK,
        KeyMK,
        KeyCK,
    ))
        ensures
            r.0@ + r.1@ + r.2@ == leaf_okm(mr@, vid@, timestamp),
            r.0@ == leaf_okm(mr@, vid@, timestamp).subrange(0, 32),
            r.1@ == leaf_okm(mr@, vid@, timestamp).subrange(32, 64),
            r.2@ == leaf_okm(mr@, vid@, timestamp).subrange(64, 96),
    {
        let mut msg: Vec<u8> = Vec::new();
        append_bytes(&mut msg, vid);
        let ts = u64_to_le_bytes(timestamp);
        append_bytes(&mut msg, ts.as_slice());
        let label_cr = LABEL_CR;
        append_bytes(&mut msg, &label_cr);
        let ver = u32_to_be(CRYPTO_VERSION);
        append_bytes(&mut msg, &ver);
        assert(msg@ == cr_message(vid@, timestamp));
        let cr = hmac_sha3_512(mr.as_bytes(), msg.as_slice());
        let mut info: Vec<u8> = Vec::new();
        let label_leafs = LABEL_LEAFS;
        append_bytes(&mut info, &label_leafs);
        append_bytes(&mut info, &ver);
        assert(info@ == leaf_info());
        let okm = hkdf_sha3_512_96(&cr, info.as_slice());
        let kek: [u8; 32] = crate::codec::copy_array(&okm, 0);
        let mk: [u8; 32] = crate::codec::copy_array(&okm, 32);
        let ck: [u8; 32] = crate::codec::copy_array(&okm, 64);
        assert(kek@ + mk@ + ck@ =~= okm@);
        (KeyKEK::new(kek), KeyMK::new(mk), KeyCK::new(ck))
    }
}

impl CryptoEngine for DefaultCryptoEngine {
    fn derive_root_keys<E: HardwareEnclave + ?Sized>(
        &self,
        password: &[u8],
        salt: &[u8; 32],
        enclave: &E,
        vid: &[u8; 16],
        timestamp: u64,
        params: &KdfParams,
    ) -> (r: Result<(KeyKEK, KeyMK, KeyCK), VaultError>) {
        let mut ur = self.derive_user_root(password, salt, params)?;
        let signed = enclave.sign_with_hardware_key(ur.as_bytes());
        ur.zeroize();
        let mut mr = KeyMR::new(signed?);
        let keys = self.derive_leaf_keys(&mr, vid, timestamp);
        assert(leaf_okm(mr@, vid@, timestamp) == keys.0@ + keys.1@ + keys.2@);
        mr.zeroize();
        Ok(keys)
    }

    fn encrypt_object(
        &self,
        dek: &KeyKEK,
        plaintext: &[u8],
        aad: &AadContext,
        nonce: ConsumedNonce,
    ) -> (r: Result<(Vec<u8>, [u8; 16]), VaultError>) {
        let sealed = match aead_seal(dek.as_bytes(), nonce.0.as_bytes(), aad.data(), plaintext) {
            Ok(c) => c,
            Err(_) => {
                return Err(VaultError::new(VaultErrorKind::OperationFailed));
            },
        };
        let ct_len = sealed.len() - 16;
        let mut ct: Vec<u8> = Vec::new();
        let mut i: usize = 0;
        while i < ct_len
            invariant
                i <= ct_len,
                ct_len + 16 == sealed@.len(),
                ct@ == sealed@.subrange(0, i as int),
            decreases ct_len - i,
        {
            ct.push(sealed[i]);
            i = i + 1;
            assert(ct@ =~= sealed@.subrange(0, i as int));
        }
        let tag: [u8; 16] = crate::codec::copy_array(sealed.as_slice(), ct_len);
        assert(ct@ + tag@ =~= sealed@);
        Ok((ct, tag))
    }

    fn decrypt_object(
        &self,
        dek: &KeyKEK,
        nonce: Nonce,
        ciphertext: &[u8],
        tag: &[u8; 16],
        aad: &AadContext,
    ) -> (r: Result<Vec<u8>, VaultError>) {
        let mut combined: Vec<u8> = Vec::new();
        append_bytes(&mut combined, ciphertext);
        append_bytes(&mut combined, tag);
        match aead_open(dek.as_bytes(), nonce.as_bytes(), aad.data(), combined.as_slice()) {
            Ok(p) => Ok(p),
            Err(_) => Err(VaultError::new(VaultErrorKind::AuthenticationFailed)),
        }
    }

    fn wrap_dek(&self, kek: &KeyKEK, dek: &KeyKEK, aad: &AadContext) -> (r: Result<
        [u8; 72],
        VaultError,
    >) {
        let nonce = NonceFactory::generate()?;
        Ok(self.wrap_dek_with(kek, dek, aad, ConsumedNonce::new(nonce)))
    }

    fn unwrap_dek(&self, kek: &KeyKEK, wrapped: &[u8; 72], aad: &AadContext) -> (r: Result<
        KeyKEK,
        VaultError,
    >) {
        let nonce_bytes: [u8; 24] = crate::codec::copy_array(wrapped, 0);
        let ct: [u8; 32] = crate::codec::copy_array(wrapped, 24);
        let tag: [u8; 16] = crate::codec::copy_array(wrapped, 56);
        assert(ct@ + tag@ =~= wrapped@.subrange(24, 72));
        let pt = self.decrypt_object(kek, Nonce::new(nonce_bytes), &ct, &tag, aad)?;
        if pt.len() != 32 {
            return Err(VaultError::new(VaultErrorKind::IntegrityError));
        }
        let key: [u8; 32] = crate::codec::copy_array(pt.as_slice(), 0);
        assert(key@ =~= pt@);
        Ok(KeyKEK::new(key))
    }

    fn compute_header_mac(&self, mk: &KeyMK, header_data: &[u8]) -> (r: Result<
        [u8; 32],
        VaultError,
    >) {
        Ok(hmac_sha3_256(mk.as_bytes(), header_data))
    }

    fn verify_header_mac(&self, mk: &KeyMK, header_data: &[u8], mac: &[u8; 32]) -> (r: Result<
        bool,
        VaultError,
    >) {
        let computed = hmac_sha3_256(mk.as_bytes(), header_data);
        Ok(ct_eq(&computed, mac))
    }

    fn generate_dek(&self) -> (r: Result<KeyKEK, VaultError>) {
        let mut key: Vec<u8> = vec![0u8; 32];
        if random_fill(key.as_mut_slice()).is_err() {
            return Err(VaultError::new(VaultErrorKind::OperationFailed));
        }
        let k: [u8; 32] = crate::codec::copy_array(key.as_slice(), 0);
        Ok(KeyKEK::new(k))
    }

    fn csprng(&self, len: usize) -> (r: Result<Vec<u8>, VaultError>) {
        if len == 0 || len > CSPRNG_MAX_LEN {
            return Err(VaultError::new(VaultErrorKind::ParameterOutOfRange));
        }
        let mut buf: Vec<u8> = Vec::new();
        while buf.len() < len
            invariant
                buf@.len() <= len,
            decreases len - buf@.len(),
        {
            buf.push(0u8);
        }
        if random_fill(buf.as_mut_slice()).is_err() {
            return Err(VaultError::new(VaultErrorKind::OperationFailed));
        }
        Ok(buf)
    }
}

// =============================================================================
// CHUNKED STREAMS
// =============================================================================

/// Nonce of chunk `index` under `base`, computed as `chunk_nonce` states.
pub fn stream_chunk_nonce(base: &[u8; 24], index: u64) -> (r: Option<[u8; 24]>)
    ensures
        r is Some <==> chunk_nonce(base@, index) is Some,
        r matches Some(n) ==> chunk_nonce(base@, index) == Some(n@),
{
    let ctr_bytes: [u8; 8] = crate::codec::copy_array(base, 16);
    let ctr = u64_from_le_bytes(&ctr_bytes);
    let next = match ctr.checked_add(index) {
        Some(c) => c,
        None => {
            return None;
        },
    };
    let le = u64_to_le_bytes(next);
    let mut out = [0u8; 24];
    let mut i: usize = 0;
    while i < 24
        invariant
            i <= 24,
            le@.len() == 8,
            forall|k: int| 0 <= k < i && k < 16 ==> out@[k] == base@[k],
            forall|k: int| 16 <= k < i ==> out@[k] == le@[k - 16],
        decreases 24 - i,
    {
        if i < 16 {
            out[i] = base[i];
        } else {
            out[i] = le[i - 16];
        }
        i = i + 1;
    }
    assert(out@ =~= base@.subrange(0, 16) + spec_u64_to_le_bytes(next));
    Some(out)
}

/// The bytes of a list of chunks, one after another.
pub open spec fn concat_all(cs: Seq<Seq<u8>>) -> Seq<u8>
    decreases cs.len(),
{
    if cs.len() == 0 {
        Seq::empty()
    } else {
        concat_all(cs.drop_last()) + cs.last()
    }
}

/// The contents of a list of byte vectors.
pub open spec fn chunk_views(v: Seq<Vec<u8>>) -> Seq<Seq<u8>> {
    v.map_values(|c: Vec<u8>| c@)
}

/// Cuts a byte stream into the stream's chunks: every chunk full-size as
/// soon as it is complete, and what remains (shorter than a chunk) at the
/// end, so that only the last chunk of a stream is short.
pub struct StreamChunker {
    pending: Vec<u8>,
}

impl StreamChunker {
    /// Bytes taken in but not yet handed out as a chunk.
    pub closed spec fn spec_pending(&self) -> Seq<u8> {
        self.pending@
    }

    /// Fewer bytes pending than a chunk holds.
    pub closed spec fn wf(&self) -> bool {
        self.pending@.len() < STREAM_CHUNK_SIZE
    }

    /// A chunker with nothing pending.
    pub fn new() -> (c: Self)
        ensures
            c.wf(),
            c.spec_pending() == Seq::<u8>::empty(),
    {
        StreamChunker { pending: Vec::new() }
    }

    /// Take in `data`: the chunks it completes, each exactly one chunk
    /// long; the pending bytes and then `data` are those chunks followed by
    /// what stays pending.
    pub fn push(&mut self, data: &[u8]) -> (chunks: Vec<Vec<u8>>)
        requires
            old(self).wf(),
        ensures
            final(self).wf(),
            forall|i: int| 0 <= i < chunks@.len() ==> (#[trigger] chunks@[i])@.len() == STREAM_CHUNK_SIZE,
            concat_all(chunk_views(chunks@)) + final(self).spec_pending() == old(self).spec_pending()
                + data@,
    {
        let mut chunks: Vec<Vec<u8>> = Vec::new();
        let mut i: usize = 0;
        proof {
            assert(concat_all(chunk_views(chunks@)) =~= Seq::<u8>::empty());
            assert(data@.subrange(0, 0) =~= Seq::<u8>::empty());
            assert(self.pending@ + data@.subrange(0, 0) =~= self.pending@);
            assert(Seq::<u8>::empty() + self.pending@ =~= self.pending@);
        }
        while i < data.len()
            invariant
                i <= data@.len(),
                self.pending@.len() < STREAM_CHUNK_SIZE,
                forall|k: int| 0 <= k < chunks@.len() ==> (#[trigger] chunks@[k])@.len() == STREAM_CHUNK_SIZE,
                concat_all(chunk_views(chunks@)) + self.pending@ == old(self).pending@ + data@.subrange(
                    0,
                    i as int,
                ),
            decreases data@.len() - i,
        {
            let ghost before = concat_all(chunk_views(chunks@));
            self.pending.push(data[i]);
            proof {
                assert(old(self).pending@ + data@.subrange(0, i + 1) =~= old(self).pending@
                    + data@.subrange(0, i as int) + seq![data@[i as int]]);
                assert(before + self.pending@ =~= old(self).pending@ + data@.subrange(0, i + 1));
            }
            if self.pending.len() == STREAM_CHUNK_SIZE {
                let full = vstd::slice::slice_to_vec(self.pending.as_slice());
                self.pending = Vec::new();
                let ghost cv0 = chunk_views(chunks@);
                chunks.push(full);
                proof {
                    assert(chunk_views(chunks@).drop_last() =~= cv0);
                    assert(chunk_views(chunks@).last() == full@);
                    assert(concat_all(chunk_views(chunks@)) + self.pending@ =~= before + full@);
                }
            }
            i = i + 1;
        }
        proof {
            assert(data@.subrange(0, data@.len() as int) =~= data@);
        }
        chunks
    }

    /// The pending bytes: the stream's last chunk, shorter than a chunk
    /// (empty when the stream ended on a chunk boundary).
    pub fn finish(self) -> (last: Vec<u8>)
        requires
            self.wf(),
        ensures
            last@ == self.spec_pending(),
            last@.len() < STREAM_CHUNK_SIZE,
    {
        self.pending
    }
}

/// Encrypting side of a chunked stream: each chunk is sealed under the
/// chunk nonce of its index; a running HMAC-SHA3-256 under the data key
/// covers every sealed chunk, and is appended after the last one.
pub struct StreamEncryptor {
    dek: KeyKEK,
    aad: Vec<u8>,
    base: [u8; 24],
    index: u64,
    mac: MacState,
}

impl StreamEncryptor {
    /// The data key.
    pub closed spec fn spec_dek(&self) -> Seq<u8> {
        self.dek@
    }

    /// The authenticated data of every chunk.
    pub closed spec fn spec_aad(&self) -> Seq<u8> {
        self.aad@
    }

    /// The base nonce.
    pub closed spec fn spec_base(&self) -> Seq<u8> {
        self.base@
    }

    /// Index of the next chunk.
    pub closed spec fn spec_index(&self) -> u64 {
        self.index
    }

    /// Every sealed chunk so far, concatenated.
    pub closed spec fn spec_transcript(&self) -> Seq<u8> {
        mac_state_data(self.mac)
    }

    /// The running MAC is keyed with the data key.
    pub closed spec fn wf(&self) -> bool {
        mac_state_key(self.mac) == self.dek@
    }

    /// Start a stream at chunk 0 with an empty transcript.
    pub fn new(dek: &KeyKEK, aad: &AadContext, base_nonce: ConsumedNonce) -> (s: Self)
        ensures
            s.wf(),
            s.spec_dek() == dek@,
            s.spec_aad() == aad@,
            s.spec_base() == base_nonce@,
            s.spec_index() == 0,
            s.spec_transcript() == Seq::<u8>::empty(),
    {
        let mut aad_copy: Vec<u8> = Vec::new();
        append_bytes(&mut aad_copy, aad.data());
        let base = base_nonce.0.to_bytes();
        Self {
            dek: dek.duplicate(),
            aad: aad_copy,
            base,
            index: 0,
            mac: mac_state_new(dek.as_bytes()),
        }
    }

    /// Seal the next chunk (at most one chunk size). `ParameterOutOfRange`,
    /// with nothing changed, when the chunk counter is exhausted; otherwise
    /// the sealed chunk, which joins the transcript and opens back to the
    /// chunk.
    pub fn encrypt_chunk(&mut self, chunk: &[u8]) -> (r: Result<Vec<u8>, VaultError>)
        requires
            old(self).wf(),
            chunk@.len() <= STREAM_CHUNK_SIZE,
        ensures
            final(self).wf(),
            final(self).spec_dek() == old(self).spec_dek(),
            final(self).spec_aad() == old(self).spec_aad(),
            final(self).spec_base() == old(self).spec_base(),
            r is Err <==> (chunk_nonce(old(self).spec_base(), old(self).spec_index()) is None
                || old(self).spec_index() == u64::MAX),
            r matches Err(e) ==> e.kind == VaultErrorKind::ParameterOutOfRange
                && final(self).spec_index() == old(self).spec_index()
                && final(self).spec_transcript() == old(self).spec_transcript(),
            r matches Ok(out) ==> {
                let n = chunk_nonce(old(self).spec_base(), old(self).spec_index())->0;
                &&& out@ == xchacha20poly1305_seal(old(self).spec_dek(), n, old(self).spec_aad(), chunk@)
                &&& xchacha20poly1305_open(old(self).spec_dek(), n, old(self).spec_aad(), out@)
                    == Some(chunk@)
                &&& out@.len() == chunk@.len() + 16
                &&& final(self).spec_index() == old(self).spec_index() + 1
                &&& final(self).spec_transcript() == old(self).spec_transcript() + out@
            },
    {
        if self.index == u64::MAX {
            return Err(VaultError::new(VaultErrorKind::ParameterOutOfRange));
        }
        let nonce = match stream_chunk_nonce(&self.base, self.index) {
            Some(n) => n,
            None => {
                return Err(VaultError::new(VaultErrorKind::ParameterOutOfRange));
            },
        };
        let out = match aead_seal(self.dek.as_bytes(), &nonce, self.aad.as_slice(), chunk) {
            Ok(c) => c,
            Err(_) => {
                return Err(VaultError::new(VaultErrorKind::OperationFailed));
            },
        };
        mac_state_update(&mut self.mac, out.as_slice());
        self.index = self.index + 1;
        Ok(out)
    }

    /// The stream MAC: HMAC-SHA3-256 of the transcript under the data key.
    pub fn finish(self) -> (m: [u8; 32])
        requires
            self.wf(),
        ensures
            m@ == hmac_sha3_256_spec(self.spec_dek(), self.spec_transcript()),
    {
        mac_state_finalize(self.mac)
    }
}

/// Decrypting side of a chunked stream of a known plaintext length: full
/// chunks then a shorter last one, each followed by its tag, then the MAC.
pub struct StreamDecryptor {
    dek: KeyKEK,
    aad: Vec<u8>,
    base: [u8; 24],
    index: u64,
    mac: MacState,
    expected: u64,
    produced: u64,
}

/// Bytes to read next: the sealed size of the next chunk while plaintext
/// remains, else the 32-byte MAC.
pub open spec fn next_read_len_spec(expected: u64, produced: u64) -> nat {
    if produced >= expected {
        32
    } else if expected - produced < STREAM_CHUNK_SIZE {
        (expected - produced + 16) as nat
    } else {
        (STREAM_CHUNK_SIZE + 16) as nat
    }
}

/// What decrypting the next chunk gives for `data`: `IntegrityError` when
/// its length is not the one expected next; `ParameterOutOfRange` when the
/// chunk has no nonce or the counter is exhausted; `AuthenticationFailed`
/// when it does not open; else its plaintext.
pub open spec fn decrypt_chunk_spec(
    dek: Seq<u8>,
    aad: Seq<u8>,
    base: Seq<u8>,
    index: u64,
    expected: u64,
    produced: u64,
    data: Seq<u8>,
) -> Result<Seq<u8>, VaultErrorKind> {
    if data.len() != next_read_len_spec(expected, produced) {
        Err(VaultErrorKind::IntegrityError)
    } else if index == u64::MAX || chunk_nonce(base, index) is None {
        Err(VaultErrorKind::ParameterOutOfRange)
    } else {
        match xchacha20poly1305_open(dek, chunk_nonce(base, index)->0, aad, data) {
            None => Err(VaultErrorKind::AuthenticationFailed),
            Some(p) => Ok(p),
        }
    }
}

/// What the decrypting side gives back of the encrypting side: a chunk
/// sealed at some index (as `StreamEncryptor::encrypt_chunk` states of its
/// output), read at that index under the same key, authenticated data and
/// base nonce, and at the length the reader expects next, opens to that
/// chunk. (The stream MAC agrees the same way: both sides compute
/// HMAC-SHA3-256 of the same transcript under the data key.)
pub proof fn lemma_stream_chunk_reads_back(
    dek: Seq<u8>,
    aad: Seq<u8>,
    base: Seq<u8>,
    index: u64,
    expected: u64,
    produced: u64,
    chunk: Seq<u8>,
    out: Seq<u8>,
)
    requires
        index < u64::MAX,
        chunk_nonce(base, index) is Some,
        out == xchacha20poly1305_seal(dek, chunk_nonce(base, index)->0, aad, chunk),
        xchacha20poly1305_open(dek, chunk_nonce(base, index)->0, aad, out) == Some(chunk),
        out.len() == next_read_len_spec(expected, produced),
    ensures
        decrypt_chunk_spec(dek, aad, base, index, expected, produced, out) == Ok::<
            Seq<u8>,
            VaultErrorKind,
        >(chunk),
{
}

/// Bytes in the first `i` chunks.
pub open spec fn lens_before(cs: Seq<Seq<u8>>, i: int) -> int
    decreases i,
{
    if i <= 0 {
        0
    } else {
        lens_before(cs, i - 1) + cs[i - 1].len()
    }
}

/// Chunks as the stream cuts them: at least one, all full-size but the
/// last, which is not empty.
pub open spec fn stream_chunks(cs: Seq<Seq<u8>>) -> bool {
    &&& cs.len() > 0
    &&& forall|i: int| 0 <= i < cs.len() - 1 ==> (#[trigger] cs[i]).len() == STREAM_CHUNK_SIZE
    &&& 0 < cs.last().len() <= STREAM_CHUNK_SIZE
}

proof fn lemma_lens_before_full(cs: Seq<Seq<u8>>, i: int)
    requires
        stream_chunks(cs),
        0 <= i <= cs.len() - 1,
    ensures
        lens_before(cs, i) == i * STREAM_CHUNK_SIZE,
    decreases i,
{
    if i > 0 {
        lemma_lens_before_full(cs, i - 1);
    }
}

/// What decrypting a whole stream gives back: chunks `cs` cut as the
/// stream cuts them and sealed by the encryptor at indices 0, 1, ... (each
/// `outs[i]` being, as `encrypt_chunk` states, the sealed chunk that opens
/// to `cs[i]`) are read back in order by a decryptor that expects their
/// total length: at each index it is handed the length it expects next and
/// gives back the chunk, and after the last one it has produced the whole
/// length. (Both sides then hold the same transcript, the sealed chunks in
/// order, so the decryptor's `finish` accepts the encryptor's MAC.)
pub proof fn lemma_stream_reads_back(
    dek: Seq<u8>,
    aad: Seq<u8>,
    base: Seq<u8>,
    cs: Seq<Seq<u8>>,
    outs: Seq<Seq<u8>>,
)
    requires
        stream_chunks(cs),
        outs.len() == cs.len(),
        lens_before(cs, cs.len() as int) <= u64::MAX,
        forall|i: int|
            0 <= i < cs.len() ==> {
                &&& chunk_nonce(base, i as u64) is Some
                &&& #[trigger] outs[i] == xchacha20poly1305_seal(
                    dek,
                    chunk_nonce(base, i as u64)->0,
                    aad,
                    cs[i],
                )
                &&& xchacha20poly1305_open(dek, chunk_nonce(base, i as u64)->0, aad, outs[i])
                    == Some(cs[i])
                &&& outs[i].len() == cs[i].len() + 16
            },
    ensures
        forall|i: int|
            0 <= i < cs.len() ==> #[trigger] decrypt_chunk_spec(
                dek,
                aad,
                base,
                i as u64,
                lens_before(cs, cs.len() as int) as u64,
                lens_before(cs, i) as u64,
                outs[i],
            ) == Ok::<Seq<u8>, VaultErrorKind>(cs[i]),
        lens_before(cs, cs.len() as int) == (cs.len() - 1) * STREAM_CHUNK_SIZE + cs.last().len(),
{
    let n = cs.len() as int;
    lemma_lens_before_full(cs, n - 1);
    assert(lens_before(cs, n) == (n - 1) * STREAM_CHUNK_SIZE + cs.last().len());
    assert forall|i: int| 0 <= i < n implies #[trigger] decrypt_chunk_spec(
        dek,
        aad,
        base,
        i as u64,
        lens_before(cs, n) as u64,
        lens_before(cs, i) as u64,
        outs[i],
    ) == Ok::<Seq<u8>, VaultErrorKind>(cs[i]) by {
        lemma_lens_before_full(cs, i);
        assert(i * STREAM_CHUNK_SIZE <= (n - 1) * STREAM_CHUNK_SIZE) by (nonlinear_arith)
            requires
                i <= n - 1,
        ;
        assert(i < u64::MAX) by {
            assert(n - 1 <= lens_before(cs, n));
            assert((n - 1) * STREAM_CHUNK_SIZE >= n - 1) by (nonlinear_arith)
                requires
                    n >= 1,
            ;
        }
        if i < n - 1 {
            assert(cs[i].len() == STREAM_CHUNK_SIZE);
            assert((n - 1) * STREAM_CHUNK_SIZE - i * STREAM_CHUNK_SIZE >= STREAM_CHUNK_SIZE) by (
            nonlinear_arith)
                requires
                    i < n - 1,
            ;
        }
    }
}

impl StreamDecryptor {
    /// The data key.
    pub closed spec fn spec_dek(&self) -> Seq<u8> {
        self.dek@
    }

    /// The authenticated data of every chunk.
    pub closed spec fn spec_aad(&self) -> Seq<u8> {
        self.aad@
    }

    /// The base nonce.
    pub closed spec fn spec_base(&self) -> Seq<u8> {
        self.base@
    }

    /// Index of the next chunk.
    pub closed spec fn spec_index(&self) -> u64 {
        self.index
    }

    /// Every sealed chunk read so far, concatenated.
    pub closed spec fn spec_transcript(&self) -> Seq<u8> {
        mac_state_data(self.mac)
    }

    /// Plaintext length of the whole stream.
    pub closed spec fn spec_expected(&self) -> u64 {
        self.expected
    }

    /// Plaintext bytes produced so far.
    pub closed spec fn spec_produced(&self) -> u64 {
        self.produced
    }

    /// The running MAC is keyed with the data key; never more plaintext
    /// than expected.
    pub closed spec fn wf(&self) -> bool {
        mac_state_key(self.mac) == self.dek@ && self.produced <= self.expected
    }

    /// Start reading a stream of `expected_data_len` plaintext bytes.
    pub fn new(dek: &KeyKEK, aad: &AadContext, base_nonce: Nonce, expected_data_len: u64) -> (s:
        Self)
        ensures
            s.wf(),
            s.spec_dek() == dek@,
            s.spec_aad() == aad@,
            s.spec_base() == base_nonce@,
            s.spec_index() == 0,
            s.spec_transcript() == Seq::<u8>::empty(),
            s.spec_expected() == expected_data_len,
            s.spec_produced() == 0,
    {
        let mut aad_copy: Vec<u8> = Vec::new();
        append_bytes(&mut aad_copy, aad.data());
        Self {
            dek: dek.duplicate(),
            aad: aad_copy,
            base: base_nonce.to_bytes(),
            index: 0,
            mac: mac_state_new(dek.as_bytes()),
            expected: expected_data_len,
            produced: 0,
        }
    }

    /// Whether all the plaintext has been produced (the MAC comes next).
    pub fn is_complete(&self) -> (b: bool)
        ensures
            b == (self.spec_produced() == self.spec_expected()),
    {
        self.produced == self.expected
    }

    /// How many bytes to read next, as `next_read_len_spec` states.
    pub fn next_read_len(&self) -> (n: usize)
        ensures
            n == next_read_len_spec(self.spec_expected(), self.spec_produced()),
    {
        if self.produced >= self.expected {
            32
        } else if self.expected - self.produced < STREAM_CHUNK_SIZE as u64 {
            (self.expected - self.produced) as usize + 16
        } else {
            STREAM_CHUNK_SIZE + 16
        }
    }

    /// Open the next sealed chunk. `IntegrityError` when fewer or more bytes
    /// than `next_read_len` were read; `ParameterOutOfRange` when the chunk
    /// counter is exhausted; `AuthenticationFailed` when the chunk does not
    /// open. Nothing changes on an error; otherwise the plaintext, the
    /// chunk joins the transcript and the index advances.
    pub fn decrypt_chunk(&mut self, data: &[u8]) -> (r: Result<Vec<u8>, VaultError>)
        requires
            old(self).wf(),
            old(self).spec_produced() < old(self).spec_expected(),
        ensures
            final(self).wf(),
            final(self).spec_dek() == old(self).spec_dek(),
            final(self).spec_aad() == old(self).spec_aad(),
            final(self).spec_base() == old(self).spec_base(),
            final(self).spec_expected() == old(self).spec_expected(),
            data@.len() != next_read_len_spec(old(self).spec_expected(), old(self).spec_produced())
                ==> (r matches Err(e) && e.kind == VaultErrorKind::IntegrityError),
            data@.len() == next_read_len_spec(old(self).spec_expected(), old(self).spec_produced())
                ==> match chunk_nonce(old(self).spec_base(), old(self).spec_index()) {
                None => r matches Err(e) && e.kind == VaultErrorKind::ParameterOutOfRange,
                Some(n) => if old(self).spec_index() == u64::MAX {
                    r matches Err(e) && e.kind == VaultErrorKind::ParameterOutOfRange
                } else {
                    match xchacha20poly1305_open(
                        old(self).spec_dek(),
                        n,
                        old(self).spec_aad(),
                        data@,
                    ) {
                        None => r matches Err(e) && e.kind
                            == VaultErrorKind::AuthenticationFailed,
                        Some(p) => r matches Ok(out) && out@ == p,
                    }
                },
            },
            match decrypt_chunk_spec(
                old(self).spec_dek(),
                old(self).spec_aad(),
                old(self).spec_base(),
                old(self).spec_index(),
                old(self).spec_expected(),
                old(self).spec_produced(),
                data@,
            ) {
                Ok(p) => r matches Ok(out) && out@ == p,
                Err(k) => r matches Err(e) && e.kind == k,
            },
            r is Err ==> final(self).spec_index() == old(self).spec_index()
                && final(self).spec_transcript() == old(self).spec_transcript()
                && final(self).spec_produced() == old(self).spec_produced(),
            r matches Ok(out) ==> final(self).spec_index() == old(self).spec_index() + 1
                && final(self).spec_transcript() == old(self).spec_transcript() + data@
                && final(self).spec_produced() == old(self).spec_produced() + out@.len(),
    {
        let want = self.next_read_len();
        if data.len() != want {
            return Err(VaultError::new(VaultErrorKind::IntegrityError));
        }
        if self.index == u64::MAX {
            return Err(VaultError::new(VaultErrorKind::ParameterOutOfRange));
        }
        let nonce = match stream_chunk_nonce(&self.base, self.index) {
            Some(n) => n,
            None => {
                return Err(VaultError::new(VaultErrorKind::ParameterOutOfRange));
            },
        };
        let pt = match aead_open(self.dek.as_bytes(), &nonce, self.aad.as_slice(), data) {
            Ok(p) => p,
            Err(_) => {
                return Err(VaultError::new(VaultErrorKind::AuthenticationFailed));
            },
        };
        mac_state_update(&mut self.mac, data);
        self.index = self.index + 1;
        self.produced = self.produced + pt.len() as u64;
        Ok(pt)
    }

    /// Check the next sealed chunk without handing out its plaintext, which
    /// is wiped: the first pass over a stream, so that no plaintext leaves
    /// before the stream MAC has been checked. Errors and state change as
    /// `decrypt_chunk`.
    pub fn verify_chunk(&mut self, data: &[u8]) -> (r: Result<(), VaultError>)
        requires
            old(self).wf(),
            old(self).spec_produced() < old(self).spec_expected(),
        ensures
            final(self).wf(),
            final(self).spec_dek() == old(self).spec_dek(),
            final(self).spec_aad() == old(self).spec_aad(),
            final(self).spec_base() == old(self).spec_base(),
            final(self).spec_expected() == old(self).spec_expected(),
            match decrypt_chunk_spec(
                old(self).spec_dek(),
                old(self).spec_aad(),
                old(self).spec_base(),
                old(self).spec_index(),
                old(self).spec_expected(),
                old(self).spec_produced(),
                data@,
            ) {
                Ok(p) => {
                    &&& r is Ok
                    &&& final(self).spec_index() == old(self).spec_index() + 1
                    &&& final(self).spec_transcript() == old(self).spec_transcript() + data@
                    &&& final(self).spec_produced() == old(self).spec_produced() + p.len()
                },
                Err(k) => {
                    &&& r matches Err(e) && e.kind == k
                    &&& final(self).spec_index() == old(self).spec_index()
                    &&& final(self).spec_transcript() == old(self).spec_transcript()
                    &&& final(self).spec_produced() == old(self).spec_produced()
                },
            },
    {
        let mut plain = self.decrypt_chunk(data)?;
        crate::memory::zeroize_bytes(plain.as_mut_slice());
        Ok(())
    }

    /// Check the stream MAC once all plaintext is produced: the plaintext
    /// length when `mac` is HMAC-SHA3-256 of the transcript under the data
    /// key, else `IntegrityError`.
    pub fn finish(self, mac: &[u8; 32]) -> (r: Result<u64, VaultError>)
        requires
            self.wf(),
            self.spec_produced() == self.spec_expected(),
        ensures
            r is Ok <==> hmac_sha3_256_spec(self.spec_dek(), self.spec_transcript()) == mac@,
            r matches Ok(n) ==> n == self.spec_expected(),
            r matches Err(e) ==> e.kind == VaultErrorKind::IntegrityError,
    {
        let produced = self.produced;
        let computed = mac_state_finalize(self.mac);
        if ct_eq(&computed, mac) {
            Ok(produced)
        } else {
            Err(VaultError::new(VaultErrorKind::IntegrityError))
        }
    }
}

} // verus!
