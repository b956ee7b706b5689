//! Strict newtypes of the key schedule: role-tagged keys, object ids,
//! versions, nonces and epochs.

use vstd::prelude::*;

use crate::error::{VaultError, VaultErrorKind};
use crate::memory::zeroize_bytes;

verus! {

/// Marker trait for key roles.
pub trait KeyRole: Send + Sync + 'static {

}

/// Key-encryption key role.
#[derive(Clone, Copy)]
pub struct RoleKEK;

impl KeyRole for RoleKEK {

}

/// Header MAC key role.
#[derive(Clone, Copy)]
pub struct RoleMK;

impl KeyRole for RoleMK {

}

/// Context key role.
#[derive(Clone, Copy)]
pub struct RoleCK;

impl KeyRole for RoleCK {

}

/// User root role.
#[derive(Clone, Copy)]
pub struct RoleUR;

impl KeyRole for RoleUR {

}

/// Recovery root role.
#[derive(Clone, Copy)]
pub struct RoleRR;

impl KeyRole for RoleRR {

}

/// Master root role.
#[derive(Clone, Copy)]
pub struct RoleMR;

impl KeyRole for RoleMR {

}

/// Context root role.
#[derive(Clone, Copy)]
pub struct RoleCR;

impl KeyRole for RoleCR {

}

/// Object id (16 bytes).
#[derive(Clone, Copy, PartialEq, Eq, Hash)]
pub struct ObjectId([u8; 16]);

impl View for ObjectId {
    type V = Seq<u8>;

    closed spec fn view(&self) -> Seq<u8> {
        self.0@
    }
}

impl ObjectId {
    /// Wrap 16 bytes.
    pub fn new(bytes: [u8; 16]) -> (r: Self)
        ensures
            r@ == bytes@,
    {
        Self(bytes)
    }

    /// The bytes.
    pub fn as_bytes(&self) -> (r: &[u8; 16])
        ensures
            r@ == self@,
            r@.len() == 16,
    {
        &self.0
    }
}

/// Crypto scheme version.
#[derive(Debug, Clone, Copy, PartialEq, Eq, PartialOrd, Ord)]
pub struct CryptoVersion(u32);

impl View for CryptoVersion {
    type V = u32;

    closed spec fn view(&self) -> u32 {
        self.0
    }
}

impl CryptoVersion {
    /// Wrap a version number.
    pub fn new(val: u32) -> (r: Self)
        ensures
            r@ == val,
    {
        Self(val)
    }

    /// The version number.
    pub fn value(&self) -> (v: u32)
        ensures
            v == self@,
    {
        self.0
    }
}

/// Nonce (24 bytes). Deliberately neither `Clone` nor `Copy`: once moved
/// into a `ConsumedNonce` it cannot be used again; `to_bytes` gives a raw
/// copy for storage.
#[derive(PartialEq, Eq)]
pub struct Nonce([u8; 24]);

impl View for Nonce {
    type V = Seq<u8>;

    closed spec fn view(&self) -> Seq<u8> {
        self.0@
    }
}

impl Nonce {
    /// Wrap 24 bytes.
    pub fn new(bytes: [u8; 24]) -> (r: Self)
        ensures
            r@ == bytes@,
    {
        Self(bytes)
    }

    /// The bytes.
    pub fn as_bytes(&self) -> (r: &[u8; 24])
        ensures
            r@ == self@,
            r@.len() == 24,
    {
        &self.0
    }

    /// A raw copy of the bytes (not a `Nonce`).
    pub fn to_bytes(&self) -> (r: [u8; 24])
        ensures
            r@ == self@,
    {
        self.0
    }
}

/// Role-tagged key of `N` bytes.
pub struct Key<R: KeyRole, const N: usize>([u8; N], std::marker::PhantomData<R>);

impl<R: KeyRole, const N: usize> View for Key<R, N> {
    type V = Seq<u8>;

    closed spec fn view(&self) -> Seq<u8> {
        self.0@
    }
}

impl<R: KeyRole, const N: usize> Key<R, N> {
    /// A key holds `N` bytes.
    pub proof fn lemma_len(&self)
        ensures
            self@.len() == N,
    {
    }

    /// Wrap key bytes.
    pub fn new(bytes: [u8; N]) -> (r: Self)
        ensures
            r@ == bytes@,
    {
        Self(bytes, std::marker::PhantomData)
    }

    /// The key bytes.
    pub fn as_bytes(&self) -> (r: &[u8; N])
        ensures
            r@ == self@,
            r@.len() == N,
    {
        &self.0
    }

    /// Wipe the key bytes.
    pub fn zeroize(&mut self)
        ensures
            final(self)@ == Seq::new(N as nat, |i: int| 0u8),
    {
        zeroize_bytes(&mut self.0);
        assert(self.0@ =~= Seq::new(N as nat, |i: int| 0u8));
    }

    /// Copy of the key with the same role.
    pub fn duplicate(&self) -> (r: Self)
        ensures
            r@ == self@,
    {
        Self(self.0, std::marker::PhantomData)
    }
}

/// Key encryption key (also the type of data keys).
pub type KeyKEK = Key<RoleKEK, 32>;

/// Header MAC key.
pub type KeyMK = Key<RoleMK, 32>;

/// Context key.
pub type KeyCK = Key<RoleCK, 32>;

/// User root.
pub type KeyUR = Key<RoleUR, 64>;

/// Recovery root.
pub type KeyRR = Key<RoleRR, 64>;

/// Master root.
pub type KeyMR = Key<RoleMR, 64>;

/// Context root.
pub type KeyCR = Key<RoleCR, 64>;

/// Commit counter of the vault header.
#[derive(Debug, Clone, Copy, PartialEq, Eq, PartialOrd, Ord)]
pub struct Epoch(u64);

impl View for Epoch {
    type V = u64;

    closed spec fn view(&self) -> u64 {
        self.0
    }
}

impl Epoch {
    /// Wrap a value.
    pub fn new(val: u64) -> (r: Self)
        ensures
            r@ == val,
    {
        Self(val)
    }

    /// The value.
    pub fn value(&self) -> (v: u64)
        ensures
            v == self@,
    {
        self.0
    }

    /// Advance by one; `CapacityExceeded` (and no change) on overflow.
    pub fn advance(&mut self) -> (r: Result<(), VaultError>)
        ensures
            r is Ok <==> old(self)@ < u64::MAX,
            r is Ok ==> final(self)@ == old(self)@ + 1,
            r matches Err(e) ==> final(self)@ == old(self)@ && e.kind
                == VaultErrorKind::CapacityExceeded,
    {
        self.0 = match self.0.checked_add(1) {
            Some(v) => v,
            None => {
                return Err(VaultError::new(VaultErrorKind::CapacityExceeded));
            },
        };
        Ok(())
    }
}

} // verus!
