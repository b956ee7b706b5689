//! Opaque vault error.
//!
//! The error carries a kind for internal dispatch; its user-facing text is
//! always the same message so that no detail leaks to the user.

use vstd::prelude::*;

verus! {

/// Opaque error kind for internal dispatch.
#[derive(Debug, Clone, Copy, PartialEq, Eq, Structural)]
pub enum VaultErrorKind {
    /// AEAD tag mismatch
    AuthenticationFailed,
    /// Storage backend unavailable
    StorageUnavailable,
    /// HSP unavailable
    HardwareUnavailable,
    /// Concurrent access
    VaultBusy,
    /// Structural corruption
    VaultCorrupted,
    /// Serialization failure
    EncodingFailed,
    /// Value outside allowed range
    ParameterOutOfRange,
    /// Generic operation failure
    OperationFailed,
    /// Object not found in file table
    ObjectNotFound,
    /// No free blocks
    VaultFull,
    /// Exceeded capacity limit
    CapacityExceeded,
    /// Disk I/O error
    IoError,
    /// MAC / hash mismatch
    IntegrityError,
    /// Vault not unlocked
    VaultLocked,
    /// Missing or malformed input
    InvalidInput,
}

/// Opaque vault error.
#[derive(Debug, Clone, Copy, PartialEq, Eq, Structural)]
pub struct VaultError {
    /// Internal error kind (not exposed to users through `message`).
    pub kind: VaultErrorKind,
}

/// The error of the given kind, as a spec value.
pub open spec fn err_of(kind: VaultErrorKind) -> VaultError {
    VaultError { kind }
}

impl VaultError {
    /// Create a new error from a kind.
    pub fn new(kind: VaultErrorKind) -> (e: Self)
        ensures
            e.kind == kind,
    {
        Self { kind }
    }

    /// The user-facing text of every error: always the same opaque message.
    pub fn message(&self) -> (m: &'static str)
        ensures
            m@ == crate::config::ERROR_DISPLAY_MSG@,
    {
        crate::config::ERROR_DISPLAY_MSG
    }
}

impl From<VaultErrorKind> for VaultError {
    fn from(kind: VaultErrorKind) -> (e: Self) {
        VaultError { kind }
    }
}

impl vstd::std_specs::convert::FromSpecImpl<VaultErrorKind> for VaultError {
    open spec fn obeys_from_spec() -> bool {
        true
    }

    open spec fn from_spec(kind: VaultErrorKind) -> VaultError {
        VaultError { kind }
    }
}

/// Bounds check: `Ok` exactly when `min_inclusive <= value <= max_inclusive`,
/// otherwise `ParameterOutOfRange`.
pub fn check_bounds_usize(value: usize, min_inclusive: usize, max_inclusive: usize) -> (r: Result<
    (),
    VaultError,
>)
    ensures
        r is Ok <==> (min_inclusive <= value && value <= max_inclusive),
        r is Err ==> r->Err_0.kind == VaultErrorKind::ParameterOutOfRange,
{
    if value >= min_inclusive && value <= max_inclusive {
        Ok(())
    } else {
        Err(VaultError::new(VaultErrorKind::ParameterOutOfRange))
    }
}

} // verus!
