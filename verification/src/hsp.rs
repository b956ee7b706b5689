//! Hardware security providers: the enclave interface, the pure parts of
//! the TPM 2.0 bindings (command encoding, response decoding, key-schedule
//! framing) and the machine-binding provider used in tests.

use vstd::prelude::*;
use vstd::string::StringSliceAdditionalSpecFns;

use crate::codec::{be16, be32, be16_value, be32_value, read_be16, read_be32, u16_to_be, u32_to_be};
use crate::error::{VaultError, VaultErrorKind};
use crate::memory::SecureBuffer;

verus! {

/// Hardware security enclave: an implementation performs the keyed
/// transformation of the user root inside a security chip whose key never
/// leaves it.
pub trait HardwareEnclave {
    /// Whether `mr` is a master root that this enclave gives for the user
    /// root `ur`. An implementation that does not describe its
    /// transformation keeps this default, which admits every pair.
    open spec fn spec_signs(&self, ur: Seq<u8>, mr: Seq<u8>) -> bool {
        true
    }

    /// Whether `e` is an error that this enclave may answer for the user
    /// root `ur`. The default admits every error.
    open spec fn spec_refuses(&self, ur: Seq<u8>, e: VaultError) -> bool {
        true
    }

    /// Transform the 64-byte user root with the non-exportable hardware
    /// key into the 64-byte master root.
    fn sign_with_hardware_key(&self, ur: &[u8; 64]) -> (r: Result<[u8; 64], VaultError>)
        ensures
            r matches Ok(mr) ==> self.spec_signs(ur@, mr@),
            r matches Err(e) ==> self.spec_refuses(ur@, e),
    ;

    /// Provider name for diagnostics.
    fn provider_name(&self) -> &'static str;

    /// Initialise the hardware keys where the platform needs it (`Ok` when
    /// already initialised).
    fn init_hardware_keys(&self) -> Result<(), VaultError>;

    /// Whether a hardware key already exists, without creating one.
    fn has_hardware_key(&self) -> bool;

    /// Permanently delete the hardware-bound keys of this enclave.
    fn clear_hardware_keys(&self) -> Result<(), VaultError>;
}

/// Machine-binding secret provider.
pub trait HardwareSecurityProvider {
    /// The 32-byte machine secret.
    fn get_machine_secret(&self) -> Result<[u8; 32], VaultError>;
}

/// Machine secret of the mock provider.
pub const MOCK_MACHINE_SECRET: [u8; 32] = [0xCA, 0xCA, 0xCA, 0xCA, 0xCA, 0xCA, 0xCA, 0xCA, 0xCA, 0xCA, 0xCA, 0xCA, 0xCA, 0xCA, 0xCA, 0xCA, 0xCA, 0xCA, 0xCA, 0xCA, 0xCA, 0xCA, 0xCA, 0xCA, 0xCA, 0xCA, 0xCA, 0xCA, 0xCA, 0xCA, 0xCA, 0xCA];

/// Provider that always returns `MOCK_MACHINE_SECRET`.
#[derive(Debug, Clone, Copy, Default)]
pub struct MockHSP;

impl MockHSP {
    /// The mock provider.
    pub fn new() -> (m: Self) {
        Self
    }
}

impl HardwareSecurityProvider for MockHSP {
    fn get_machine_secret(&self) -> (r: Result<[u8; 32], VaultError>)
        ensures
            r matches Ok(s) && s@ == MOCK_MACHINE_SECRET@,
    {
        Ok(MOCK_MACHINE_SECRET)
    }
}

// =============================================================================
// TPM 2.0 FRAMING
// =============================================================================

/// Domain separator prefixed to the user root before the TPM HMAC
/// ("BLACKBOX_TPM_V1" and a NUL).
pub const DOMAIN_SEPARATOR: [u8; 16] = [66, 76, 65, 67, 75, 66, 79, 88, 95, 84, 80, 77, 95, 86, 49, 0];

/// Domain separator of the master-root expansion ("BLACKBOX_MR_EXPANDER").
pub const MR_EXPANDER_DOMAIN: [u8; 20] = [
    66,
    76,
    65,
    67,
    75,
    66,
    79,
    88,
    95,
    77,
    82,
    95,
    69,
    88,
    80,
    65,
    78,
    68,
    69,
    82,
];

/// What the TPM HMACs: the domain separator, then the user root.
pub fn tpm_hmac_input(ur: &[u8; 64]) -> (r: Vec<u8>)
    ensures
        r@ == DOMAIN_SEPARATOR@ + ur@,
        r@.len() == 80,
{
    let mut v: Vec<u8> = Vec::new();
    let ds = DOMAIN_SEPARATOR;
    crate::codec::append_bytes(&mut v, &ds);
    crate::codec::append_bytes(&mut v, ur);
    v
}

/// The master root from the TPM's 32-byte HMAC: SHA3-512 of the expansion
/// domain and the HMAC. `IntegrityError` when the HMAC is not 32 bytes.
pub fn expand_master_root(hmac: &[u8]) -> (r: Result<[u8; 64], VaultError>)
    ensures
        r is Ok <==> hmac@.len() == 32,
        r matches Ok(mr) ==> mr@ == crate::primitives::sha3_512_spec(MR_EXPANDER_DOMAIN@ + hmac@),
        r matches Err(e) ==> e.kind == VaultErrorKind::IntegrityError,
{
    if hmac.len() != 32 {
        return Err(VaultError::new(VaultErrorKind::IntegrityError));
    }
    let mut input: Vec<u8> = Vec::new();
    let dom = MR_EXPANDER_DOMAIN;
    crate::codec::append_bytes(&mut input, &dom);
    crate::codec::append_bytes(&mut input, hmac);
    let mut expanded = crate::primitives::sha3_512(input.as_slice());
    let mr = expanded;
    crate::memory::zeroize_bytes(&mut expanded);
    Ok(mr)
}

/// Whether `needle` occurs in `hay`.
pub open spec fn contains_subslice(hay: Seq<u8>, needle: Seq<u8>) -> bool {
    exists|i: int| 0 <= i && i + needle.len() <= hay.len() && #[trigger] hay.subrange(i, i + needle.len()) == needle
}

/// Whether `needle` occurs in `hay`, computed.
pub fn find_subslice(hay: &[u8], needle: &[u8]) -> (r: bool)
    ensures
        r == contains_subslice(hay@, needle@),
{
    if needle.len() > hay.len() {
        return false;
    }
    if needle.len() == 0 {
        assert(hay@.subrange(0, 0int + needle@.len()) =~= needle@);
        return true;
    }
    let hlen = hay.len();
    let last = hay.len() - needle.len();
    let mut i: usize = 0;
    while i <= last
        invariant
            last == hay@.len() - needle@.len(),
            hlen == hay@.len(),
            needle@.len() > 0,
            i <= last + 1,
            forall|j: int| 0 <= j < i ==> #[trigger] hay@.subrange(j, j + needle@.len()) != needle@,
        decreases last + 1 - i,
    {
        let mut k: usize = 0;
        let mut same = true;
        while k < needle.len()
            invariant
                k <= needle@.len(),
                i <= last,
                last == hay@.len() - needle@.len(),
                hlen == hay@.len(),
                same == (forall|m: int| 0 <= m < k ==> hay@[i + m] == needle@[m]),
            decreases needle@.len() - k,
        {
            if hay[i + k] != needle[k] {
                same = false;
            }
            k = k + 1;
        }
        if same {
            assert(hay@.subrange(i as int, i + needle@.len()) =~= needle@);
            return true;
        }
        assert(hay@.subrange(i as int, i + needle@.len()) != needle@) by {
            let m = choose|m: int| 0 <= m < needle@.len() && hay@[i + m] != needle@[m];
            assert(hay@.subrange(i as int, i + needle@.len())[m] == hay@[i + m]);
        }
        i = i + 1;
    }
    false
}

/// The bytes of "AuthFail".
pub open spec fn auth_fail_text() -> Seq<u8> {
    seq![65u8, 117, 116, 104, 70, 97, 105, 108]
}

/// The bytes of "BAD_AUTH".
pub open spec fn bad_auth_text() -> Seq<u8> {
    seq![66u8, 65, 68, 95, 65, 85, 84, 72]
}

/// Kind of a failed primary-key creation from the TPM stack's error text:
/// `AuthenticationFailed` when it mentions "AuthFail" or "BAD_AUTH" (the
/// owner hierarchy wants a password), else `OperationFailed`.
pub fn classify_create_primary_error(text: &str) -> (k: VaultErrorKind)
    ensures
        k == (if contains_subslice(text.spec_bytes(), auth_fail_text()) || contains_subslice(
            text.spec_bytes(),
            bad_auth_text(),
        ) {
            VaultErrorKind::AuthenticationFailed
        } else {
            VaultErrorKind::OperationFailed
        }),
{
    let b = text.as_bytes();
    let a1: [u8; 8] = [65, 117, 116, 104, 70, 97, 105, 108];
    let a2: [u8; 8] = [66, 65, 68, 95, 65, 85, 84, 72];
    assert(a1@ =~= auth_fail_text());
    assert(a2@ =~= bad_auth_text());
    if find_subslice(b, &a1) || find_subslice(b, &a2) {
        VaultErrorKind::AuthenticationFailed
    } else {
        VaultErrorKind::OperationFailed
    }
}

/// `Path::new(path).exists()`: whether the path names something on disk.
/// Nothing is claimed of the answer: it depends on the machine.
#[verifier::external_body]
fn path_exists(path: &str) -> (b: bool) {
    std::path::Path::new(path).exists()
}

/// TCTI configuration for the devices present: the kernel resource
/// manager when present, else the raw device, else the access broker.
pub open spec fn tcti_for(rm_present: bool, raw_present: bool) -> Seq<char> {
    if rm_present {
        "device:/dev/tpmrm0"@
    } else if raw_present {
        "device:/dev/tpm0"@
    } else {
        "tabrmd:"@
    }
}

/// The TCTI configuration for the given device presence.
pub fn select_tcti(rm_present: bool, raw_present: bool) -> (r: String)
    ensures
        r@ == tcti_for(rm_present, raw_present),
{
    if rm_present {
        "device:/dev/tpmrm0".to_owned()
    } else if raw_present {
        "device:/dev/tpm0".to_owned()
    } else {
        "tabrmd:".to_owned()
    }
}

/// TPM 2.0 enclave of Linux: the HMAC key is a primary key of the owner
/// hierarchy and never leaves the chip.
#[derive(Debug, Clone, Copy, Default)]
pub struct TpmEnclave;

impl TpmEnclave {
    /// The enclave; the device is found when it is first used.
    pub fn new() -> (e: Self) {
        Self
    }

    /// Provider name.
    pub fn provider_name(&self) -> (n: &'static str)
        ensures
            n@ == "TPM 2.0 (Linux)"@,
    {
        "TPM 2.0 (Linux)"
    }

    /// The TCTI configuration to connect with, from the devices present
    /// (the `TSS2_TCTI` environment variable is deliberately ignored).
    pub fn get_tcti(&self) -> (r: String)
        ensures
            exists|a: bool, b: bool| r@ == #[trigger] tcti_for(a, b),
    {
        let rm = path_exists("/dev/tpmrm0");
        let raw = path_exists("/dev/tpm0");
        let r = select_tcti(rm, raw);
        assert(r@ == tcti_for(rm, raw));
        r
    }
}

// =============================================================================
// TPM 2.0 COMMAND CODEC (TBS)
// =============================================================================

/// Command tag without sessions.
pub const TPM_ST_NO_SESSIONS: u16 = 0x8001;

/// Command tag with sessions.
pub const TPM_ST_SESSIONS: u16 = 0x8002;

/// TPM2_CreatePrimary.
pub const TPM_CC_CREATE_PRIMARY: u32 = 0x0131;

/// TPM2_HMAC.
pub const TPM_CC_HMAC: u32 = 0x0155;

/// TPM2_FlushContext.
pub const TPM_CC_FLUSH_CONTEXT: u32 = 0x0165;

/// Owner hierarchy handle.
pub const TPM_RH_OWNER: u32 = 0x4000_0001;

/// Password session handle.
pub const TPM_RS_PW: u32 = 0x4000_0009;

/// Keyed-hash object algorithm.
pub const TPM_ALG_KEYEDHASH: u16 = 0x0008;

/// SHA-256.
pub const TPM_ALG_SHA256: u16 = 0x000B;

/// HMAC scheme.
pub const TPM_ALG_HMAC: u16 = 0x0005;

/// Success response code.
pub const TPM_RC_SUCCESS: u32 = 0;

/// Bad authorization response code.
pub const TPM_RC_BAD_AUTH: u32 = 0x09A2;

/// Authorization failure response code.
pub const TPM_RC_AUTH_FAIL: u32 = 0x098E;

/// Length of the TPM's HMAC-SHA256.
pub const TPM_HMAC_LEN: usize = 32;

/// Largest response accepted from TBS.
pub const TBS_MAX_RESPONSE_SIZE: usize = 8192;

/// Capacity of a command buffer.
pub const TPM_MAX_COMMAND_SIZE: usize = 1024;

/// Object attributes of the HMAC key: fixed TPM, fixed parent, sensitive
/// data origin, user with auth, sign/encrypt.
pub const HMAC_OBJECT_ATTRIBUTES: u32 = 0x0004_0072;

/// Fixed-capacity byte buffer (a `SecureBuffer`) with a logical length.
pub struct LockedBytes {
    inner: SecureBuffer,
    len: usize,
}

impl View for LockedBytes {
    type V = Seq<u8>;

    /// The bytes up to the logical length.
    closed spec fn view(&self) -> Seq<u8> {
        self.inner@.subrange(0, self.len as int)
    }
}

impl LockedBytes {
    /// Bytes the buffer can hold.
    pub closed spec fn capacity(&self) -> nat {
        self.inner@.len()
    }

    /// Every byte of the buffer, past the logical length too; the view is
    /// its first `len` bytes.
    pub closed spec fn spec_storage(&self) -> Seq<u8> {
        self.inner@
    }

    /// The logical length never exceeds the capacity.
    pub closed spec fn wf(&self) -> bool {
        self.len <= self.inner@.len()
    }

    /// An empty buffer of `capacity` bytes; `ParameterOutOfRange` over the
    /// memory-lock limit.
    pub fn new(capacity: usize) -> (r: Result<Self, VaultError>)
        ensures
            r is Ok <==> capacity <= crate::config::MAX_SECURE_BUFFER_SIZE,
            r matches Err(e) ==> e.kind == VaultErrorKind::ParameterOutOfRange,
            r matches Ok(b) ==> b.wf() && b@ == Seq::<u8>::empty() && b.capacity() == capacity
                && b.spec_storage() == Seq::new(capacity as nat, |i: int| 0u8),
    {
        let inner = SecureBuffer::new(capacity)?;
        let b = Self { inner, len: 0 };
        assert(b@ =~= Seq::<u8>::empty());
        Ok(b)
    }

    /// Logical length.
    pub fn len(&self) -> (n: usize)
        requires
            self.wf(),
        ensures
            n == self@.len(),
    {
        self.len
    }

    /// The bytes up to the logical length.
    pub fn as_slice(&self) -> (s: &[u8])
        requires
            self.wf(),
        ensures
            s@ == self@,
    {
        vstd::slice::slice_subrange(self.inner.as_slice(), 0, self.len)
    }

    /// Set the logical length; `ParameterOutOfRange` (no change) past the
    /// capacity.
    pub fn set_len(&mut self, len: usize) -> (r: Result<(), VaultError>)
        requires
            old(self).wf(),
        ensures
            final(self).wf(),
            final(self).capacity() == old(self).capacity(),
            r is Ok <==> len <= old(self).capacity(),
            r matches Err(e) ==> e.kind == VaultErrorKind::ParameterOutOfRange && final(self)@ == old(self)@,
            final(self).spec_storage() == old(self).spec_storage(),
            r is Ok ==> final(self)@ == old(self).spec_storage().subrange(0, len as int),
    {
        if len > self.inner.len() {
            return Err(VaultError::new(VaultErrorKind::ParameterOutOfRange));
        }
        self.len = len;
        Ok(())
    }

    /// Append bytes; `ParameterOutOfRange` (no change) when they do not fit.
    pub fn extend_from_slice(&mut self, data: &[u8]) -> (r: Result<(), VaultError>)
        requires
            old(self).wf(),
        ensures
            final(self).wf(),
            final(self).capacity() == old(self).capacity(),
            r is Ok <==> old(self)@.len() + data@.len() <= old(self).capacity(),
            r matches Err(e) ==> e.kind == VaultErrorKind::ParameterOutOfRange && final(self)@ == old(self)@,
            r is Ok ==> final(self)@ == old(self)@ + data@,
            final(self).spec_storage().len() == old(self).spec_storage().len(),
            forall|k: int|
                final(self)@.len() <= k < final(self).spec_storage().len() ==> old(
                    self,
                ).spec_storage()[k] == #[trigger] final(self).spec_storage()[k],
    {
        let cap = self.inner.len();
        let end = match self.len.checked_add(data.len()) {
            Some(e) => e,
            None => {
                return Err(VaultError::new(VaultErrorKind::ParameterOutOfRange));
            },
        };
        if end > cap {
            return Err(VaultError::new(VaultErrorKind::ParameterOutOfRange));
        }
        let start = self.len;
        let mut i: usize = 0;
        while i < data.len()
            invariant
                start == old(self).len,
                end == start + data@.len(),
                end <= self.inner@.len(),
                self.inner@.len() == old(self).inner@.len(),
                self.len == start,
                i <= data@.len(),
                self.inner@.subrange(0, start as int) == old(self)@,
                forall|k: int| 0 <= k < i ==> self.inner@[start + k] == data@[k],
                forall|k: int| end <= k < self.inner@.len() ==> self.inner@[k] == old(self).inner@[k],
            decreases data@.len() - i,
        {
            self.inner.set(start + i, data[i]);
            i = i + 1;
            assert(self.inner@.subrange(0, start as int) =~= old(self)@);
        }
        self.len = end;
        assert(self@ =~= old(self)@ + data@);
        Ok(())
    }

    /// Overwrite bytes at `offset`; `ParameterOutOfRange` (no change) when
    /// they reach past the logical length.
    pub fn write_at(&mut self, offset: usize, data: &[u8]) -> (r: Result<(), VaultError>)
        requires
            old(self).wf(),
        ensures
            final(self).wf(),
            final(self).capacity() == old(self).capacity(),
            r is Ok <==> offset + data@.len() <= old(self)@.len(),
            r matches Err(e) ==> e.kind == VaultErrorKind::ParameterOutOfRange && final(self)@ == old(self)@,
            r is Ok ==> final(self)@ == old(self)@.subrange(0, offset as int) + data@ + old(self)@.subrange(
                offset + data@.len(),
                old(self)@.len() as int,
            ),
            final(self).spec_storage().len() == old(self).spec_storage().len(),
            forall|k: int|
                final(self)@.len() <= k < final(self).spec_storage().len() ==> old(
                    self,
                ).spec_storage()[k] == #[trigger] final(self).spec_storage()[k],
    {
        let end = match offset.checked_add(data.len()) {
            Some(e) => e,
            None => {
                return Err(VaultError::new(VaultErrorKind::ParameterOutOfRange));
            },
        };
        if end > self.len {
            return Err(VaultError::new(VaultErrorKind::ParameterOutOfRange));
        }
        let mut i: usize = 0;
        while i < data.len()
            invariant
                end == offset + data@.len(),
                end <= self.len,
                self.len <= self.inner@.len(),
                self.len == old(self).len,
                self.inner@.len() == old(self).inner@.len(),
                i <= data@.len(),
                forall|k: int| 0 <= k < offset ==> self.inner@[k] == old(self).inner@[k],
                forall|k: int| end <= k < self.inner@.len() ==> self.inner@[k] == old(self).inner@[k],
                forall|k: int| 0 <= k < i ==> self.inner@[offset + k] == data@[k],
            decreases data@.len() - i,
        {
            self.inner.set(offset + i, data[i]);
            i = i + 1;
        }
        assert(self@ =~= old(self)@.subrange(0, offset as int) + data@ + old(self)@.subrange(
            offset + data@.len(),
            old(self)@.len() as int,
        ));
        Ok(())
    }
}

/// Append one byte.
pub fn push_u8(buf: &mut LockedBytes, v: u8) -> (r: Result<(), VaultError>)
    requires
        old(buf).wf(),
    ensures
        final(buf).wf(),
        final(buf).capacity() == old(buf).capacity(),
        r is Ok <==> old(buf)@.len() + 1 <= old(buf).capacity(),
        r is Err ==> final(buf)@ == old(buf)@ && r->Err_0.kind == VaultErrorKind::ParameterOutOfRange,
        r is Ok ==> final(buf)@ == old(buf)@ + seq![v],
{
    let b = [v];
    assert(b@ =~= seq![v]);
    buf.extend_from_slice(&b)
}

/// Append a big-endian `u16`.
pub fn push_u16(buf: &mut LockedBytes, v: u16) -> (r: Result<(), VaultError>)
    requires
        old(buf).wf(),
    ensures
        final(buf).wf(),
        final(buf).capacity() == old(buf).capacity(),
        r is Ok <==> old(buf)@.len() + 2 <= old(buf).capacity(),
        r is Err ==> final(buf)@ == old(buf)@ && r->Err_0.kind == VaultErrorKind::ParameterOutOfRange,
        r is Ok ==> final(buf)@ == old(buf)@ + be16(v),
{
    let b = u16_to_be(v);
    buf.extend_from_slice(&b)
}

/// Append a big-endian `u32`.
pub fn push_u32(buf: &mut LockedBytes, v: u32) -> (r: Result<(), VaultError>)
    requires
        old(buf).wf(),
    ensures
        final(buf).wf(),
        final(buf).capacity() == old(buf).capacity(),
        r is Ok <==> old(buf)@.len() + 4 <= old(buf).capacity(),
        r is Err ==> final(buf)@ == old(buf)@ && r->Err_0.kind == VaultErrorKind::ParameterOutOfRange,
        r is Ok ==> final(buf)@ == old(buf)@ + be32(v),
{
    let b = u32_to_be(v);
    buf.extend_from_slice(&b)
}

/// Authorization area of an empty password session: its size (9), the
/// password session handle, an empty nonce, no attributes, an empty HMAC.
pub open spec fn empty_pw_auth_area() -> Seq<u8> {
    be32(9) + be32(TPM_RS_PW) + be16(0) + seq![0u8] + be16(0)
}

/// Append the empty password authorization area.
pub fn append_empty_pw_auth_area(command: &mut LockedBytes) -> (r: Result<(), VaultError>)
    requires
        old(command).wf(),
        old(command)@.len() + 13 <= old(command).capacity(),
    ensures
        final(command).wf(),
        final(command).capacity() == old(command).capacity(),
        r is Ok,
        final(command)@ == old(command)@ + empty_pw_auth_area(),
{
    push_u32(command, 9)?;
    push_u32(command, TPM_RS_PW)?;
    push_u16(command, 0)?;
    push_u8(command, 0)?;
    push_u16(command, 0)?;
    assert(command@ =~= old(command)@ + empty_pw_auth_area());
    Ok(())
}

/// A command: tag, total size and command code (big-endian), then the body.
pub open spec fn command_spec(tag: u16, command_code: u32, body: Seq<u8>) -> Seq<u8> {
    be16(tag) + be32((10 + body.len()) as u32) + be32(command_code) + body
}

/// Fill in the 10-byte header of a command: tag, total size, command code.
/// `ParameterOutOfRange` when the size does not fit a `u32`.
pub fn finalize_command_header(command: &mut LockedBytes, tag: u16, command_code: u32) -> (r: Result<
    (),
    VaultError,
>)
    requires
        old(command).wf(),
        old(command)@.len() >= 10,
    ensures
        final(command).wf(),
        final(command).capacity() == old(command).capacity(),
        r is Ok <==> old(command)@.len() <= u32::MAX,
        r is Ok ==> final(command)@ == command_spec(
            tag,
            command_code,
            old(command)@.subrange(10, old(command)@.len() as int),
        ),
        r is Err ==> final(command)@ == old(command)@ && r->Err_0.kind == VaultErrorKind::ParameterOutOfRange,
{
    if command.len() > u32::MAX as usize {
        return Err(VaultError::new(VaultErrorKind::ParameterOutOfRange));
    }
    let total_size = command.len() as u32;
    let t = u16_to_be(tag);
    command.write_at(0, &t)?;
    let sz = u32_to_be(total_size);
    command.write_at(2, &sz)?;
    let cc = u32_to_be(command_code);
    command.write_at(6, &cc)?;
    assert(command@ =~= command_spec(
        tag,
        command_code,
        old(command)@.subrange(10, old(command)@.len() as int),
    ));
    Ok(())
}

/// Body of TPM2_CreatePrimary for the HMAC key: owner hierarchy, empty
/// password session, empty sensitive data, a keyed-hash public area
/// (SHA-256 names, HMAC-SHA256 scheme, the key attributes, empty policy and
/// unique field), no outside info, no PCR selection.
pub open spec fn create_primary_body() -> Seq<u8> {
    be32(TPM_RH_OWNER) + empty_pw_auth_area() + be16(4) + be16(0) + be16(0) + be16(16) + be16(
        TPM_ALG_KEYEDHASH,
    ) + be16(TPM_ALG_SHA256) + be32(HMAC_OBJECT_ATTRIBUTES) + be16(0) + be16(TPM_ALG_HMAC) + be16(
        TPM_ALG_SHA256,
    ) + be16(0) + be16(0) + be32(0)
}

/// The TPM2_CreatePrimary command for the HMAC key; never fails.
pub fn build_create_primary_command() -> (r: Result<LockedBytes, VaultError>)
    ensures
        r matches Ok(c) && c.wf() && c@ == command_spec(
            TPM_ST_SESSIONS,
            TPM_CC_CREATE_PRIMARY,
            create_primary_body(),
        ),
{
    let mut command = LockedBytes::new(TPM_MAX_COMMAND_SIZE)?;
    let zeros = [0u8; 10];
    command.extend_from_slice(&zeros)?;
    push_u32(&mut command, TPM_RH_OWNER)?;
    append_empty_pw_auth_area(&mut command)?;
    push_u16(&mut command, 4)?;
    push_u16(&mut command, 0)?;
    push_u16(&mut command, 0)?;
    push_u16(&mut command, 16)?;
    push_u16(&mut command, TPM_ALG_KEYEDHASH)?;
    push_u16(&mut command, TPM_ALG_SHA256)?;
    push_u32(&mut command, HMAC_OBJECT_ATTRIBUTES)?;
    push_u16(&mut command, 0)?;
    push_u16(&mut command, TPM_ALG_HMAC)?;
    push_u16(&mut command, TPM_ALG_SHA256)?;
    push_u16(&mut command, 0)?;
    push_u16(&mut command, 0)?;
    push_u32(&mut command, 0)?;
    assert(command@.subrange(10, command@.len() as int) =~= create_primary_body());
    finalize_command_header(&mut command, TPM_ST_SESSIONS, TPM_CC_CREATE_PRIMARY)?;
    Ok(command)
}

/// Body of TPM2_HMAC: the key handle, the empty password session, the
/// input (domain separator and user root, with its length), the hash.
pub open spec fn hmac_body(key_handle: u32, ur: Seq<u8>) -> Seq<u8> {
    be32(key_handle) + empty_pw_auth_area() + be16(80) + DOMAIN_SEPARATOR@ + ur + be16(
        TPM_ALG_SHA256,
    )
}

/// The TPM2_HMAC command over the user root; never fails.
pub fn build_hmac_command(key_handle: u32, ur: &[u8; 64]) -> (r: Result<LockedBytes, VaultError>)
    ensures
        r matches Ok(c) && c.wf() && c@ == command_spec(
            TPM_ST_SESSIONS,
            TPM_CC_HMAC,
            hmac_body(key_handle, ur@),
        ),
{
    let mut command = LockedBytes::new(TPM_MAX_COMMAND_SIZE)?;
    let zeros = [0u8; 10];
    command.extend_from_slice(&zeros)?;
    push_u32(&mut command, key_handle)?;
    append_empty_pw_auth_area(&mut command)?;
    let input_len: u16 = 80;
    push_u16(&mut command, input_len)?;
    let ds = DOMAIN_SEPARATOR;
    command.extend_from_slice(&ds)?;
    command.extend_from_slice(ur)?;
    push_u16(&mut command, TPM_ALG_SHA256)?;
    assert(command@.subrange(10, command@.len() as int) =~= hmac_body(key_handle, ur@));
    finalize_command_header(&mut command, TPM_ST_SESSIONS, TPM_CC_HMAC)?;
    Ok(command)
}

/// The TPM2_FlushContext command for a handle; never fails.
pub fn build_flush_context_command(handle: u32) -> (r: Result<LockedBytes, VaultError>)
    ensures
        r matches Ok(c) && c.wf() && c@ == command_spec(
            TPM_ST_NO_SESSIONS,
            TPM_CC_FLUSH_CONTEXT,
            be32(handle),
        ),
{
    let mut command = LockedBytes::new(32)?;
    let zeros = [0u8; 10];
    command.extend_from_slice(&zeros)?;
    push_u32(&mut command, handle)?;
    assert(command@.subrange(10, command@.len() as int) =~= be32(handle));
    finalize_command_header(&mut command, TPM_ST_NO_SESSIONS, TPM_CC_FLUSH_CONTEXT)?;
    Ok(command)
}

/// Value of the big-endian `u16` at `off`, when the data reaches that far.
pub open spec fn be16_at(data: Seq<u8>, off: int) -> Option<u16> {
    if data.len() < off + 2 {
        None
    } else {
        Some(be16_value(data.subrange(off, off + 2)) as u16)
    }
}

/// Value of the big-endian `u32` at `off`, when the data reaches that far.
pub open spec fn be32_at(data: Seq<u8>, off: int) -> Option<u32> {
    if data.len() < off + 4 {
        None
    } else {
        Some(be32_value(data.subrange(off, off + 4)) as u32)
    }
}

/// Big-endian `u16` at `offset`; `OperationFailed` when the data is short.
pub fn read_u16(data: &[u8], offset: usize) -> (r: Result<u16, VaultError>)
    requires
        offset <= usize::MAX - 2,
    ensures
        r is Ok <==> be16_at(data@, offset as int) is Some,
        r matches Ok(v) ==> be16_at(data@, offset as int) == Some(v),
        r matches Err(e) ==> e.kind == VaultErrorKind::OperationFailed,
{
    if data.len() < offset + 2 {
        return Err(VaultError::new(VaultErrorKind::OperationFailed));
    }
    Ok(read_be16(data, offset))
}

/// Big-endian `u32` at `offset`; `OperationFailed` when the data is short.
pub fn read_u32(data: &[u8], offset: usize) -> (r: Result<u32, VaultError>)
    requires
        offset <= usize::MAX - 4,
    ensures
        r is Ok <==> be32_at(data@, offset as int) is Some,
        r matches Ok(v) ==> be32_at(data@, offset as int) == Some(v),
        r matches Err(e) ==> e.kind == VaultErrorKind::OperationFailed,
{
    if data.len() < offset + 4 {
        return Err(VaultError::new(VaultErrorKind::OperationFailed));
    }
    Ok(read_be32(data, offset))
}

/// Response header: tag, size and response code; `OperationFailed` when
/// shorter than 10 bytes or when the size claims more than was received.
pub open spec fn response_header_spec(r: Seq<u8>) -> Result<(u16, u32, u32), VaultErrorKind> {
    if r.len() < 10 {
        Err(VaultErrorKind::OperationFailed)
    } else {
        let size = be32_at(r, 2)->0;
        if size > r.len() {
            Err(VaultErrorKind::OperationFailed)
        } else {
            Ok((be16_at(r, 0)->0, size, be32_at(r, 6)->0))
        }
    }
}

/// Parse a response header as `response_header_spec` states.
pub fn parse_response_header(response: &[u8]) -> (r: Result<(u16, u32, u32), VaultError>)
    ensures
        match response_header_spec(response@) {
            Ok(t) => r == Ok::<(u16, u32, u32), VaultError>(t),
            Err(k) => r matches Err(e) && e.kind == k,
        },
{
    if response.len() < 10 {
        return Err(VaultError::new(VaultErrorKind::OperationFailed));
    }
    let tag = read_u16(response, 0)?;
    let size = read_u32(response, 2)?;
    let rc = read_u32(response, 6)?;
    if size as u64 > response.len() as u64 {
        return Err(VaultError::new(VaultErrorKind::OperationFailed));
    }
    Ok((tag, size, rc))
}

/// Error kind of a failing response code: authorization failures are
/// `AuthenticationFailed`, everything else `OperationFailed`.
pub open spec fn tpm_rc_kind(rc: u32) -> VaultErrorKind {
    if rc == TPM_RC_AUTH_FAIL || rc == TPM_RC_BAD_AUTH {
        VaultErrorKind::AuthenticationFailed
    } else {
        VaultErrorKind::OperationFailed
    }
}

/// Error kind of a failing response code, as `tpm_rc_kind` states.
pub fn map_tpm_rc(rc: u32) -> (k: VaultErrorKind)
    ensures
        k == tpm_rc_kind(rc),
{
    if rc == TPM_RC_AUTH_FAIL || rc == TPM_RC_BAD_AUTH {
        VaultErrorKind::AuthenticationFailed
    } else {
        VaultErrorKind::OperationFailed
    }
}

/// Handle created by TPM2_CreatePrimary: header errors; a failing code
/// (`tpm_rc_kind`); `OperationFailed` when there is no handle or it is 0.
pub open spec fn create_primary_response_spec(r: Seq<u8>) -> Result<u32, VaultErrorKind> {
    match response_header_spec(r) {
        Err(k) => Err(k),
        Ok((tag, size, rc)) => if rc != TPM_RC_SUCCESS {
            Err(tpm_rc_kind(rc))
        } else if r.len() < 14 {
            Err(VaultErrorKind::OperationFailed)
        } else if be32_at(r, 10)->0 == 0 {
            Err(VaultErrorKind::OperationFailed)
        } else {
            Ok(be32_at(r, 10)->0)
        },
    }
}

/// Parse a TPM2_CreatePrimary response as `create_primary_response_spec`
/// states.
pub fn parse_create_primary_response(response: &[u8]) -> (r: Result<u32, VaultError>)
    ensures
        match create_primary_response_spec(response@) {
            Ok(h) => r == Ok::<u32, VaultError>(h),
            Err(k) => r matches Err(e) && e.kind == k,
        },
{
    let (_tag, _size, rc) = parse_response_header(response)?;
    if rc != TPM_RC_SUCCESS {
        return Err(VaultError::new(map_tpm_rc(rc)));
    }
    if response.len() < 14 {
        return Err(VaultError::new(VaultErrorKind::OperationFailed));
    }
    let handle = read_u32(response, 10)?;
    if handle == 0 {
        return Err(VaultError::new(VaultErrorKind::OperationFailed));
    }
    Ok(handle)
}

/// Digest returned by TPM2_HMAC: header errors; a failing code; with
/// sessions, a parameter size to skip (`OperationFailed` when missing);
/// the digest length (`OperationFailed` when missing); `IntegrityError`
/// unless it is 32 bytes and present.
pub open spec fn hmac_response_spec(r: Seq<u8>) -> Result<Seq<u8>, VaultErrorKind> {
    match response_header_spec(r) {
        Err(k) => Err(k),
        Ok((tag, size, rc)) => if rc != TPM_RC_SUCCESS {
            Err(tpm_rc_kind(rc))
        } else if tag == TPM_ST_SESSIONS && be32_at(r, 10) is None {
            Err(VaultErrorKind::OperationFailed)
        } else {
            let off: int = if tag == TPM_ST_SESSIONS {
                14
            } else {
                10
            };
            match be16_at(r, off) {
                None => Err(VaultErrorKind::OperationFailed),
                Some(dl) => if dl != 32 || r.len() < off + 2 + 32 {
                    Err(VaultErrorKind::IntegrityError)
                } else {
                    Ok(r.subrange(off + 2, off + 34))
                },
            }
        },
    }
}

/// Parse a TPM2_HMAC response as `hmac_response_spec` states.
pub fn parse_hmac_response(response: &[u8]) -> (r: Result<[u8; 32], VaultError>)
    ensures
        match hmac_response_spec(response@) {
            Ok(d) => r matches Ok(x) && x@ == d,
            Err(k) => r matches Err(e) && e.kind == k,
        },
{
    let (tag, _size, rc) = parse_response_header(response)?;
    if rc != TPM_RC_SUCCESS {
        return Err(VaultError::new(map_tpm_rc(rc)));
    }
    let mut offset: usize = 10;
    if tag == TPM_ST_SESSIONS {
        let _param_size = read_u32(response, offset)?;
        offset = offset + 4;
    }
    let digest_len = read_u16(response, offset)? as usize;
    offset = offset + 2;
    if digest_len != TPM_HMAC_LEN || response.len() < offset + digest_len {
        return Err(VaultError::new(VaultErrorKind::IntegrityError));
    }
    let digest: [u8; 32] = crate::codec::copy_array(response, offset);
    Ok(digest)
}

/// `Ok` for a successful response; header errors or the failing code's
/// kind otherwise.
pub fn parse_generic_success(response: &[u8]) -> (r: Result<(), VaultError>)
    ensures
        match response_header_spec(response@) {
            Err(k) => r matches Err(e) && e.kind == k,
            Ok((tag, size, rc)) => if rc == TPM_RC_SUCCESS {
                r is Ok
            } else {
                r matches Err(e) && e.kind == tpm_rc_kind(rc)
            },
        },
{
    let (_tag, _size, rc) = parse_response_header(response)?;
    if rc == TPM_RC_SUCCESS {
        Ok(())
    } else {
        Err(VaultError::new(map_tpm_rc(rc)))
    }
}

/// TPM 2.0 enclave of Windows, reached through TPM Base Services.
#[derive(Debug, Clone, Copy, Default)]
pub struct WindowsTpmEnclave;

impl WindowsTpmEnclave {
    /// The enclave.
    pub fn new() -> (e: Self) {
        Self
    }

    /// Provider name.
    pub fn provider_name(&self) -> (n: &'static str)
        ensures
            n@ == "TPM 2.0 (Windows TBS)"@,
    {
        "TPM 2.0 (Windows TBS)"
    }

    /// The master root from a TPM2_HMAC response: the digest, expanded
    /// with SHA3-512 under the expansion domain; response errors as
    /// `hmac_response_spec` states.
    pub fn master_root_from_hmac_response(&self, response: &[u8]) -> (r: Result<[u8; 64], VaultError>)
        ensures
            match hmac_response_spec(response@) {
                Ok(d) => r matches Ok(mr) && mr@ == crate::primitives::sha3_512_spec(
                    MR_EXPANDER_DOMAIN@ + d,
                ),
                Err(k) => r matches Err(e) && e.kind == k,
            },
    {
        let hmac = parse_hmac_response(response)?;
        expand_master_root(&hmac)
    }
}

/// Domain separation tag of the user-root hash-to-curve
/// ("BLACKBOX-V1-P256_XMD:SHA-256_SSWU_RO_").
pub const HASH_TO_CURVE_DST: [u8; 37] = [
    66, 76, 65, 67, 75, 66, 79, 88, 45, 86, 49, 45, 80, 50, 53, 54, 95, 88, 77, 68, 58, 83, 72, 65,
    45, 50, 53, 54, 95, 83, 83, 87, 85, 95, 82, 79, 95,
];

/// Map a user root to a P-256 public point (uncompressed SEC1, 65 bytes
/// starting with 0x04) by hash-to-curve: `OperationFailed` when the hashing
/// fails, `IntegrityError` when the encoding has another length or form.
pub fn ur_to_p256_point(ur: &[u8; 64]) -> (r: Result<Vec<u8>, VaultError>)
    ensures
        match crate::primitives::p256_hash_to_curve_spec(ur@, HASH_TO_CURVE_DST@) {
            None => r matches Err(e) && e.kind == VaultErrorKind::OperationFailed,
            Some(b) => if b.len() != 65 || b[0] != 4 {
                r matches Err(e) && e.kind == VaultErrorKind::IntegrityError
            } else {
                r matches Ok(p) && p@ == b
            },
        },
{
    let dst = HASH_TO_CURVE_DST;
    let bytes = match crate::primitives::p256_hash_to_curve(ur, &dst) {
        Ok(b) => b,
        Err(_) => {
            return Err(VaultError::new(VaultErrorKind::OperationFailed));
        },
    };
    if bytes.len() != 65 {
        return Err(VaultError::new(VaultErrorKind::IntegrityError));
    }
    if bytes[0] != 4 {
        return Err(VaultError::new(VaultErrorKind::IntegrityError));
    }
    Ok(bytes)
}

} // verus!
