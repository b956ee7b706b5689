//! Memory hygiene: zero-on-request byte buffers with a size cap, and the
//! patterns and chunking of the on-disk wipe passes.
//!
//! Pinning pages in RAM (`mlock`) takes unsafe operating-system calls; these
//! buffers are not pinned. Process hardening and the wipe's writes are made
//! by the application.

use vstd::prelude::*;

use crate::config::MAX_SECURE_BUFFER_SIZE;
use crate::error::{VaultError, VaultErrorKind};

verus! {

/// Overwrite every byte of `buf` with zero in a way the compiler does not
/// elide: zeroize's `Zeroize::zeroize` on a byte slice. Claims that every
/// byte is zero afterwards and the length is unchanged.
#[verifier::external_body]
pub(crate) fn zeroize_bytes(buf: &mut [u8])
    ensures
        final(buf)@.len() == old(buf)@.len(),
        forall|i: int| 0 <= i < final(buf)@.len() ==> #[trigger] final(buf)@[i] == 0u8,
{
    zeroize::Zeroize::zeroize(buf);
}

/// Zero-initialised byte buffer of bounded size, wiped on request.
pub struct SecureBuffer {
    inner: Vec<u8>,
}

impl View for SecureBuffer {
    type V = Seq<u8>;

    closed spec fn view(&self) -> Seq<u8> {
        self.inner@
    }
}

impl SecureBuffer {
    /// Maximum allowed allocation (bounds how much RAM may be pinned).
    pub const MAX_SIZE: usize = MAX_SECURE_BUFFER_SIZE;

    /// A zero-filled buffer of `size` bytes; `ParameterOutOfRange` when
    /// `size` exceeds `MAX_SIZE`.
    pub fn new(size: usize) -> (r: Result<Self, VaultError>)
        ensures
            r is Ok <==> size <= MAX_SECURE_BUFFER_SIZE,
            r matches Err(e) ==> e.kind == VaultErrorKind::ParameterOutOfRange,
            r matches Ok(b) ==> b@ == Seq::new(size as nat, |i: int| 0u8),
    {
        if size > MAX_SECURE_BUFFER_SIZE {
            return Err(VaultError::new(VaultErrorKind::ParameterOutOfRange));
        }
        let mut inner: Vec<u8> = Vec::new();
        while inner.len() < size
            invariant
                inner@.len() <= size,
                forall|k: int| 0 <= k < inner@.len() ==> inner@[k] == 0u8,
            decreases size - inner@.len(),
        {
            inner.push(0u8);
        }
        assert(inner@ =~= Seq::new(size as nat, |i: int| 0u8));
        Ok(Self { inner })
    }

    /// Number of bytes.
    pub fn len(&self) -> (n: usize)
        ensures
            n == self@.len(),
    {
        self.inner.len()
    }

    /// The bytes, for reading.
    pub fn as_slice(&self) -> (s: &[u8])
        ensures
            s@ == self@,
    {
        self.inner.as_slice()
    }

    /// The bytes, for writing in place.
    pub fn as_mut_slice(&mut self) -> (s: &mut [u8])
        ensures
            s@ == old(self)@,
            final(self)@ == final(s)@,
    {
        self.inner.as_mut_slice()
    }

    /// Set byte `i`.
    pub fn set(&mut self, i: usize, v: u8)
        requires
            i < old(self)@.len(),
        ensures
            final(self)@ == old(self)@.update(i as int, v),
    {
        self.inner.set(i, v);
    }

    /// Overwrite the contents with zeros.
    pub fn wipe(&mut self)
        ensures
            final(self)@ == Seq::new(old(self)@.len(), |i: int| 0u8),
    {
        zeroize_bytes(self.inner.as_mut_slice());
        assert(self.inner@ =~= Seq::new(old(self)@.len(), |i: int| 0u8));
    }
}

/// Chunk size of the wipe passes (64 KiB).
pub const WIPE_CHUNK_SIZE: usize = 65536;

/// Pattern of wipe pass `pass` (0, 1, 2): random data, then zeros, then
/// random data again; none for random.
pub fn wipe_pass_pattern(pass: usize) -> (p: Option<u8>)
    ensures
        p == (if pass == 1 {
            Some(0u8)
        } else {
            None::<u8>
        }),
{
    if pass == 1 {
        Some(0u8)
    } else {
        None
    }
}

/// Size of the next chunk of a wipe pass: at most `WIPE_CHUNK_SIZE`, at
/// most what remains.
pub fn wipe_chunk_len(remaining: usize) -> (n: usize)
    ensures
        n == (if remaining < WIPE_CHUNK_SIZE {
            remaining
        } else {
            WIPE_CHUNK_SIZE
        }),
{
    if remaining < WIPE_CHUNK_SIZE {
        remaining
    } else {
        WIPE_CHUNK_SIZE
    }
}

/// Fill a wipe chunk: every byte set to the pattern, or random bytes from
/// the CSPRNG when there is none (`OperationFailed` when it fails).
pub fn fill_wipe_chunk(chunk: &mut [u8], pattern: Option<u8>) -> (r: Result<(), VaultError>)
    ensures
        final(chunk)@.len() == old(chunk)@.len(),
        pattern is Some ==> r is Ok && forall|i: int|
            0 <= i < final(chunk)@.len() ==> #[trigger] final(chunk)@[i] == pattern->0,
        r matches Err(e) ==> e.kind == VaultErrorKind::OperationFailed,
{
    match pattern {
        Some(p) => {
            let mut i: usize = 0;
            while i < chunk.len()
                invariant
                    i <= chunk@.len(),
                    chunk@.len() == old(chunk)@.len(),
                    forall|k: int| 0 <= k < i ==> chunk@[k] == p,
                decreases chunk@.len() - i,
            {
                chunk[i] = p;
                i = i + 1;
            }
            Ok(())
        },
        None => {
            if crate::primitives::random_fill(chunk).is_err() {
                return Err(VaultError::new(VaultErrorKind::OperationFailed));
            }
            Ok(())
        },
    }
}

} // verus!
