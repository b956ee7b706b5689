//! On-disk records: the superblock, the vault header and the file-table
//! entries, each with its fixed little-endian byte encoding.
//!
//! Construction from bytes always validates; fields are private and are
//! read through getters.

use vstd::bytes::*;
use vstd::prelude::*;
use vstd::slice::slice_subrange;

use crate::codec::{append_bytes, copy_array};
use crate::config::{
    BLOCK_SIZE, CRYPTO_VERSION, DATA_REGION_START, FILE_ENTRY_SIZE, MAGIC_FILE_TABLE,
    MAGIC_SUPERBLOCK, MAX_OBJECTS, MAX_TOTAL_BLOCKS, MIN_TOTAL_BLOCKS, SUPERBLOCK_SIZE,
    VAULT_HEADER_SIZE, VERSION, WRAPPED_DEK_SIZE,
};
use crate::error::{VaultError, VaultErrorKind};
use crate::memory::zeroize_bytes;

verus! {

broadcast use vstd::seq_lib::group_seq_properties;

/// Little-endian value of `s[a .. a + 4]`.
pub open spec fn le32_at(s: Seq<u8>, a: int) -> u32 {
    spec_u32_from_le_bytes(s.subrange(a, a + 4))
}

/// Little-endian value of `s[a .. a + 8]`.
pub open spec fn le64_at(s: Seq<u8>, a: int) -> u64 {
    spec_u64_from_le_bytes(s.subrange(a, a + 8))
}

/// Byte-wise equality of two slices.
pub fn bytes_eq(a: &[u8], b: &[u8]) -> (r: bool)
    ensures
        r == (a@ == b@),
{
    if a.len() != b.len() {
        return false;
    }
    let mut i: usize = 0;
    while i < a.len()
        invariant
            a@.len() == b@.len(),
            i <= a@.len(),
            forall|k: int| 0 <= k < i ==> a@[k] == b@[k],
        decreases a@.len() - i,
    {
        if a[i] != b[i] {
            return false;
        }
        i = i + 1;
    }
    assert(a@ =~= b@);
    true
}

// =============================================================================
// SUPERBLOCK
// =============================================================================

/// Vault superblock (8 KiB, stored unencrypted at offset 0).
#[derive(Debug, Clone, Copy)]
pub struct Superblock {
    magic: [u8; 8],
    salt: [u8; 32],
    version: u32,
    crypto_version: u32,
    total_blocks: u64,
    block_size: u32,
    pad2: u32,
    created_timestamp: u64,
    hw_key_handle: [u8; 64],
    vid: [u8; 16],
    enc_hw_secret: [u8; 128],
    reserved: [u8; 7912],
}

/// Checks of a superblock in the order they are made, over its encoding:
/// magic, block size, minimum and maximum block count (`IntegrityError`),
/// then format and crypto versions (`InvalidInput`).
pub open spec fn superblock_check(b: Seq<u8>) -> Result<(), VaultError> {
    if b.subrange(0, 8) != MAGIC_SUPERBLOCK@ {
        Err(VaultError { kind: VaultErrorKind::IntegrityError })
    } else if le32_at(b, 56) != BLOCK_SIZE {
        Err(VaultError { kind: VaultErrorKind::IntegrityError })
    } else if le64_at(b, 48) < MIN_TOTAL_BLOCKS {
        Err(VaultError { kind: VaultErrorKind::IntegrityError })
    } else if le64_at(b, 48) > MAX_TOTAL_BLOCKS {
        Err(VaultError { kind: VaultErrorKind::IntegrityError })
    } else if le32_at(b, 40) != VERSION {
        Err(VaultError { kind: VaultErrorKind::InvalidInput })
    } else if le32_at(b, 44) != CRYPTO_VERSION {
        Err(VaultError { kind: VaultErrorKind::InvalidInput })
    } else {
        Ok(())
    }
}

/// What `Superblock::parse` returns for the given bytes, as far as its
/// success and error go.
pub open spec fn superblock_parse_outcome(b: Seq<u8>) -> Result<(), VaultError> {
    if b.len() != SUPERBLOCK_SIZE {
        Err(VaultError { kind: VaultErrorKind::IntegrityError })
    } else {
        superblock_check(b)
    }
}

impl Superblock {
    /// The 8192-byte encoding: magic, salt, version, crypto version, total
    /// blocks, block size, padding, timestamp, hardware key handle, vault id,
    /// sealed hardware secret, reserved bytes; integers little-endian.
    pub closed spec fn encoded(&self) -> Seq<u8> {
        self.magic@ + self.salt@ + spec_u32_to_le_bytes(self.version) + spec_u32_to_le_bytes(
            self.crypto_version,
        ) + spec_u64_to_le_bytes(self.total_blocks) + spec_u32_to_le_bytes(self.block_size)
            + spec_u32_to_le_bytes(self.pad2) + spec_u64_to_le_bytes(self.created_timestamp)
            + self.hw_key_handle@ + self.vid@ + self.enc_hw_secret@ + self.reserved@
    }

    /// Salt field.
    pub closed spec fn spec_salt(&self) -> Seq<u8> {
        self.salt@
    }

    /// Vault id field.
    pub closed spec fn spec_vid(&self) -> Seq<u8> {
        self.vid@
    }

    /// Creation timestamp field.
    pub closed spec fn spec_timestamp(&self) -> u64 {
        self.created_timestamp
    }

    /// Total blocks field.
    pub closed spec fn spec_total_blocks(&self) -> u64 {
        self.total_blocks
    }

    /// Crypto version field.
    pub closed spec fn spec_crypto_version(&self) -> u32 {
        self.crypto_version
    }

    proof fn lemma_encoding(&self)
        ensures
            self.encoded().len() == SUPERBLOCK_SIZE,
            self.encoded().subrange(0, 8) == self.magic@,
            self.encoded().subrange(8, 40) == self.salt@,
            le32_at(self.encoded(), 40) == self.version,
            le32_at(self.encoded(), 44) == self.crypto_version,
            le64_at(self.encoded(), 48) == self.total_blocks,
            le32_at(self.encoded(), 56) == self.block_size,
            le64_at(self.encoded(), 64) == self.created_timestamp,
            self.encoded().subrange(136, 152) == self.vid@,
    {
        lemma_auto_spec_u32_to_from_le_bytes();
        lemma_auto_spec_u64_to_from_le_bytes();
        let e = self.encoded();
        assert(e.subrange(0, 8) =~= self.magic@);
        assert(e.subrange(8, 40) =~= self.salt@);
        assert(e.subrange(40, 44) =~= spec_u32_to_le_bytes(self.version));
        assert(e.subrange(44, 48) =~= spec_u32_to_le_bytes(self.crypto_version));
        assert(e.subrange(48, 56) =~= spec_u64_to_le_bytes(self.total_blocks));
        assert(e.subrange(56, 60) =~= spec_u32_to_le_bytes(self.block_size));
        assert(e.subrange(64, 72) =~= spec_u64_to_le_bytes(self.created_timestamp));
        assert(e.subrange(136, 152) =~= self.vid@);
    }

    /// Create a new superblock for a vault: current format and crypto
    /// versions, the standard block size, zeroed hardware fields and reserved
    /// area.
    pub fn new(salt: [u8; 32], vid: [u8; 16], timestamp: u64, total_blocks: u64) -> (sb: Self)
        ensures
            sb.spec_salt() == salt@,
            sb.spec_vid() == vid@,
            sb.spec_timestamp() == timestamp,
            sb.spec_total_blocks() == total_blocks,
            sb.spec_crypto_version() == CRYPTO_VERSION,
            (MIN_TOTAL_BLOCKS <= total_blocks <= MAX_TOTAL_BLOCKS) ==> superblock_check(
                sb.encoded(),
            ) is Ok,
    {
        let sb = Self {
            magic: MAGIC_SUPERBLOCK,
            salt,
            version: VERSION,
            crypto_version: CRYPTO_VERSION,
            total_blocks,
            block_size: BLOCK_SIZE,
            pad2: 0,
            created_timestamp: timestamp,
            hw_key_handle: [0u8; 64],
            vid,
            enc_hw_secret: [0u8; 128],
            reserved: [0u8; 7912],
        };
        proof {
            sb.lemma_encoding();
        }
        sb
    }

    /// The same superblock with another block count (the vault grew or was
    /// compacted): every other byte of the encoding is kept.
    pub fn with_total_blocks(&self, total_blocks: u64) -> (sb: Self)
        ensures
            sb.spec_total_blocks() == total_blocks,
            sb.spec_salt() == self.spec_salt(),
            sb.spec_vid() == self.spec_vid(),
            sb.spec_timestamp() == self.spec_timestamp(),
            sb.spec_crypto_version() == self.spec_crypto_version(),
            same_but_total(*self, sb),
            superblock_check(self.encoded()) is Ok && MIN_TOTAL_BLOCKS <= total_blocks
                <= MAX_TOTAL_BLOCKS ==> superblock_check(sb.encoded()) is Ok,
    {
        let mut sb = *self;
        sb.total_blocks = total_blocks;
        proof {
            self.lemma_encoding();
            sb.lemma_encoding();
            lemma_auto_spec_u32_to_from_le_bytes();
            lemma_auto_spec_u64_to_from_le_bytes();
            let p = self.magic@ + self.salt@ + spec_u32_to_le_bytes(self.version)
                + spec_u32_to_le_bytes(self.crypto_version);
            let q = spec_u32_to_le_bytes(self.block_size) + spec_u32_to_le_bytes(self.pad2)
                + spec_u64_to_le_bytes(self.created_timestamp) + self.hw_key_handle@ + self.vid@
                + self.enc_hw_secret@ + self.reserved@;
            let x = spec_u64_to_le_bytes(self.total_blocks);
            let y = spec_u64_to_le_bytes(total_blocks);
            assert(self.encoded() =~= p + x + q);
            assert(sb.encoded() =~= p + y + q);
            assert(p.len() == 48);
            assert((p + x + q).subrange(0, 48) =~= p);
            assert((p + y + q).subrange(0, 48) =~= p);
            assert((p + x + q).subrange(56, SUPERBLOCK_SIZE as int) =~= q);
            assert((p + y + q).subrange(56, SUPERBLOCK_SIZE as int) =~= q);
        }
        sb
    }

    /// Serialize to the 8192-byte on-disk form.
    pub fn to_bytes(&self) -> (b: Vec<u8>)
        ensures
            b@ == self.encoded(),
            b@.len() == SUPERBLOCK_SIZE,
    {
        let mut b: Vec<u8> = Vec::new();
        append_bytes(&mut b, &self.magic);
        append_bytes(&mut b, &self.salt);
        append_bytes(&mut b, u32_to_le_bytes(self.version).as_slice());
        append_bytes(&mut b, u32_to_le_bytes(self.crypto_version).as_slice());
        append_bytes(&mut b, u64_to_le_bytes(self.total_blocks).as_slice());
        append_bytes(&mut b, u32_to_le_bytes(self.block_size).as_slice());
        append_bytes(&mut b, u32_to_le_bytes(self.pad2).as_slice());
        append_bytes(&mut b, u64_to_le_bytes(self.created_timestamp).as_slice());
        append_bytes(&mut b, &self.hw_key_handle);
        append_bytes(&mut b, &self.vid);
        append_bytes(&mut b, &self.enc_hw_secret);
        append_bytes(&mut b, &self.reserved);
        proof {
            self.lemma_encoding();
        }
        b
    }

    /// Read the fields from exactly `SUPERBLOCK_SIZE` bytes, without checks.
    fn decode(bytes: &[u8]) -> (sb: Self)
        requires
            bytes@.len() == SUPERBLOCK_SIZE,
        ensures
            sb.encoded() == bytes@,
    {
        let sb = Self {
            magic: copy_array(bytes, 0),
            salt: copy_array(bytes, 8),
            version: u32_from_le_bytes(slice_subrange(bytes, 40, 44)),
            crypto_version: u32_from_le_bytes(slice_subrange(bytes, 44, 48)),
            total_blocks: u64_from_le_bytes(slice_subrange(bytes, 48, 56)),
            block_size: u32_from_le_bytes(slice_subrange(bytes, 56, 60)),
            pad2: u32_from_le_bytes(slice_subrange(bytes, 60, 64)),
            created_timestamp: u64_from_le_bytes(slice_subrange(bytes, 64, 72)),
            hw_key_handle: copy_array(bytes, 72),
            vid: copy_array(bytes, 136),
            enc_hw_secret: copy_array(bytes, 152),
            reserved: copy_array(bytes, 280),
        };
        proof {
            lemma_auto_spec_u32_to_from_le_bytes();
            lemma_auto_spec_u64_to_from_le_bytes();
            let b = bytes@;
            assert(spec_u32_to_le_bytes(sb.version) == b.subrange(40, 44));
            assert(spec_u32_to_le_bytes(sb.crypto_version) == b.subrange(44, 48));
            assert(spec_u64_to_le_bytes(sb.total_blocks) == b.subrange(48, 56));
            assert(spec_u32_to_le_bytes(sb.block_size) == b.subrange(56, 60));
            assert(spec_u32_to_le_bytes(sb.pad2) == b.subrange(60, 64));
            assert(spec_u64_to_le_bytes(sb.created_timestamp) == b.subrange(64, 72));
            assert(sb.encoded() =~= b);
        }
        sb
    }

    /// Parse and validate: the input must be exactly `SUPERBLOCK_SIZE`
    /// bytes (`IntegrityError` otherwise) and pass `validate`.
    pub fn parse(bytes: &[u8]) -> (r: Result<Self, VaultError>)
        ensures
            r is Ok <==> superblock_parse_outcome(bytes@) is Ok,
            r matches Err(e) ==> superblock_parse_outcome(bytes@) == Err::<(), VaultError>(e),
            r matches Ok(sb) ==> sb.encoded() == bytes@,
    {
        if bytes.len() != SUPERBLOCK_SIZE {
            return Err(VaultError::new(VaultErrorKind::IntegrityError));
        }
        let sb = Self::decode(bytes);
        sb.validate()?;
        Ok(sb)
    }

    /// Validate the fields (see `superblock_check`).
    pub fn validate(&self) -> (r: Result<(), VaultError>)
        ensures
            r == superblock_check(self.encoded()),
    {
        proof {
            self.lemma_encoding();
        }
        if !bytes_eq(&self.magic, &MAGIC_SUPERBLOCK) {
            return Err(VaultError::new(VaultErrorKind::IntegrityError));
        }
        if self.block_size != BLOCK_SIZE {
            return Err(VaultError::new(VaultErrorKind::IntegrityError));
        }
        if self.total_blocks < MIN_TOTAL_BLOCKS {
            return Err(VaultError::new(VaultErrorKind::IntegrityError));
        }
        if self.total_blocks > MAX_TOTAL_BLOCKS {
            return Err(VaultError::new(VaultErrorKind::IntegrityError));
        }
        if self.version != VERSION {
            return Err(VaultError::new(VaultErrorKind::InvalidInput));
        }
        if self.crypto_version != CRYPTO_VERSION {
            return Err(VaultError::new(VaultErrorKind::InvalidInput));
        }
        Ok(())
    }

    /// Salt for the password KDF.
    pub fn salt(&self) -> (s: &[u8; 32])
        ensures
            s@ == self.spec_salt(),
    {
        &self.salt
    }

    /// Vault id.
    pub fn vid(&self) -> (v: &[u8; 16])
        ensures
            v@ == self.spec_vid(),
    {
        &self.vid
    }

    /// Creation timestamp.
    pub fn created_timestamp(&self) -> (t: u64)
        ensures
            t == self.spec_timestamp(),
    {
        self.created_timestamp
    }

    /// Total blocks.
    pub fn total_blocks(&self) -> (n: u64)
        ensures
            n == self.spec_total_blocks(),
    {
        self.total_blocks
    }

    /// Crypto version.
    pub fn crypto_version(&self) -> (v: u32)
        ensures
            v == self.spec_crypto_version(),
    {
        self.crypto_version
    }
}

/// Two superblocks whose encodings differ at most in the block count.
pub open spec fn same_but_total(a: Superblock, b: Superblock) -> bool {
    &&& a.encoded().subrange(0, 48) == b.encoded().subrange(0, 48)
    &&& a.encoded().subrange(56, SUPERBLOCK_SIZE as int) == b.encoded().subrange(
        56,
        SUPERBLOCK_SIZE as int,
    )
}

/// Encoding a superblock and parsing the bytes gives back a superblock with
/// the same encoding, hence the same fields; parsing succeeds exactly when
/// the fields pass validation.
pub proof fn lemma_superblock_fields_from_bytes(sb: Superblock, b: Seq<u8>)
    requires
        sb.encoded() == b,
    ensures
        b.len() == SUPERBLOCK_SIZE,
        b.subrange(8, 40) == sb.spec_salt(),
        b.subrange(136, 152) == sb.spec_vid(),
        le64_at(b, 48) == sb.spec_total_blocks(),
        le64_at(b, 64) == sb.spec_timestamp(),
        le32_at(b, 44) == sb.spec_crypto_version(),
{
    sb.lemma_encoding();
}


// =============================================================================
// VAULT HEADER
// =============================================================================

/// Vault header record (56 bytes), the first part of the encrypted header.
#[derive(Debug, Clone, Copy)]
pub struct VaultHeader {
    magic: [u8; 4],
    entry_count: u32,
    data_region_start: u64,
    bitmap_size: u32,
    pad: u32,
    crypto_version: u32,
    pad2: u32,
    epoch: u64,
    reserved: [u8; 16],
}

/// Checks of a header record, over its encoding: the magic and the entry
/// count bound (`IntegrityError` for either).
pub open spec fn header_check(b: Seq<u8>) -> Result<(), VaultError> {
    if b.subrange(0, 4) != MAGIC_FILE_TABLE@ {
        Err(VaultError { kind: VaultErrorKind::IntegrityError })
    } else if le32_at(b, 4) > MAX_OBJECTS {
        Err(VaultError { kind: VaultErrorKind::IntegrityError })
    } else {
        Ok(())
    }
}

/// Success and error of `VaultHeader::parse` on the given bytes.
pub open spec fn header_parse_outcome(b: Seq<u8>) -> Result<(), VaultError> {
    if b.len() != VAULT_HEADER_SIZE {
        Err(VaultError { kind: VaultErrorKind::IntegrityError })
    } else {
        header_check(b)
    }
}

impl VaultHeader {
    /// The 56-byte encoding: magic, entry count, data region start, bitmap
    /// size, padding, crypto version, padding, epoch, reserved bytes.
    pub closed spec fn encoded(&self) -> Seq<u8> {
        self.magic@ + spec_u32_to_le_bytes(self.entry_count) + spec_u64_to_le_bytes(
            self.data_region_start,
        ) + spec_u32_to_le_bytes(self.bitmap_size) + spec_u32_to_le_bytes(self.pad)
            + spec_u32_to_le_bytes(self.crypto_version) + spec_u32_to_le_bytes(self.pad2)
            + spec_u64_to_le_bytes(self.epoch) + self.reserved@
    }

    /// Number of file-table entries.
    pub closed spec fn spec_entry_count(&self) -> u32 {
        self.entry_count
    }

    /// Bitmap length in bytes.
    pub closed spec fn spec_bitmap_size(&self) -> u32 {
        self.bitmap_size
    }

    /// Crypto version.
    pub closed spec fn spec_crypto_version(&self) -> u32 {
        self.crypto_version
    }

    /// Monotonic commit counter.
    pub closed spec fn spec_epoch(&self) -> u64 {
        self.epoch
    }

    /// All fields but the four that the header's setters change are equal.
    pub closed spec fn same_frame(&self, other: &Self) -> bool {
        &&& self.magic == other.magic
        &&& self.data_region_start == other.data_region_start
        &&& self.pad == other.pad
        &&& self.crypto_version == other.crypto_version
        &&& self.pad2 == other.pad2
        &&& self.reserved == other.reserved
    }

    proof fn lemma_encoding(&self)
        ensures
            self.encoded().len() == VAULT_HEADER_SIZE,
            self.encoded().subrange(0, 4) == self.magic@,
            le32_at(self.encoded(), 4) == self.entry_count,
            le64_at(self.encoded(), 8) == self.data_region_start,
            le32_at(self.encoded(), 16) == self.bitmap_size,
            le32_at(self.encoded(), 24) == self.crypto_version,
            le64_at(self.encoded(), 32) == self.epoch,
    {
        lemma_auto_spec_u32_to_from_le_bytes();
        lemma_auto_spec_u64_to_from_le_bytes();
        let e = self.encoded();
        assert(e.subrange(0, 4) =~= self.magic@);
        assert(e.subrange(4, 8) =~= spec_u32_to_le_bytes(self.entry_count));
        assert(e.subrange(8, 16) =~= spec_u64_to_le_bytes(self.data_region_start));
        assert(e.subrange(16, 20) =~= spec_u32_to_le_bytes(self.bitmap_size));
        assert(e.subrange(24, 28) =~= spec_u32_to_le_bytes(self.crypto_version));
        assert(e.subrange(32, 40) =~= spec_u64_to_le_bytes(self.epoch));
    }

    /// The padding and reserved fields are all zero.
    pub closed spec fn spec_padding_zero(&self) -> bool {
        &&& self.pad == 0
        &&& self.pad2 == 0
        &&& self.reserved@ == Seq::new(16, |i: int| 0u8)
    }

    /// Create a new header with no entries and an empty bitmap.
    pub fn new(crypto_version: u32, epoch: u64) -> (h: Self)
        ensures
            h.spec_padding_zero(),
            h.spec_crypto_version() == crypto_version,
            h.spec_epoch() == epoch,
            h.spec_entry_count() == 0,
            h.spec_bitmap_size() == 0,
            header_check(h.encoded()) is Ok,
            le64_at(h.encoded(), 8) == DATA_REGION_START,
    {
        let h = Self {
            magic: MAGIC_FILE_TABLE,
            entry_count: 0,
            data_region_start: DATA_REGION_START,
            bitmap_size: 0,
            pad: 0,
            crypto_version,
            pad2: 0,
            epoch,
            reserved: [0u8; 16],
        };
        proof {
            h.lemma_encoding();
            assert(h.reserved@ =~= Seq::new(16, |i: int| 0u8));
        }
        h
    }

    /// Serialize to the 56-byte form.
    pub fn to_bytes(&self) -> (b: Vec<u8>)
        ensures
            b@ == self.encoded(),
            b@.len() == VAULT_HEADER_SIZE,
    {
        let mut b: Vec<u8> = Vec::new();
        append_bytes(&mut b, &self.magic);
        append_bytes(&mut b, u32_to_le_bytes(self.entry_count).as_slice());
        append_bytes(&mut b, u64_to_le_bytes(self.data_region_start).as_slice());
        append_bytes(&mut b, u32_to_le_bytes(self.bitmap_size).as_slice());
        append_bytes(&mut b, u32_to_le_bytes(self.pad).as_slice());
        append_bytes(&mut b, u32_to_le_bytes(self.crypto_version).as_slice());
        append_bytes(&mut b, u32_to_le_bytes(self.pad2).as_slice());
        append_bytes(&mut b, u64_to_le_bytes(self.epoch).as_slice());
        append_bytes(&mut b, &self.reserved);
        proof {
            self.lemma_encoding();
        }
        b
    }

    fn decode(bytes: &[u8]) -> (h: Self)
        requires
            bytes@.len() == VAULT_HEADER_SIZE,
        ensures
            h.encoded() == bytes@,
    {
        let h = Self {
            magic: copy_array(bytes, 0),
            entry_count: u32_from_le_bytes(slice_subrange(bytes, 4, 8)),
            data_region_start: u64_from_le_bytes(slice_subrange(bytes, 8, 16)),
            bitmap_size: u32_from_le_bytes(slice_subrange(bytes, 16, 20)),
            pad: u32_from_le_bytes(slice_subrange(bytes, 20, 24)),
            crypto_version: u32_from_le_bytes(slice_subrange(bytes, 24, 28)),
            pad2: u32_from_le_bytes(slice_subrange(bytes, 28, 32)),
            epoch: u64_from_le_bytes(slice_subrange(bytes, 32, 40)),
            reserved: copy_array(bytes, 40),
        };
        proof {
            lemma_auto_spec_u32_to_from_le_bytes();
            lemma_auto_spec_u64_to_from_le_bytes();
            let b = bytes@;
            assert(spec_u32_to_le_bytes(h.entry_count) == b.subrange(4, 8));
            assert(spec_u64_to_le_bytes(h.data_region_start) == b.subrange(8, 16));
            assert(spec_u32_to_le_bytes(h.bitmap_size) == b.subrange(16, 20));
            assert(spec_u32_to_le_bytes(h.pad) == b.subrange(20, 24));
            assert(spec_u32_to_le_bytes(h.crypto_version) == b.subrange(24, 28));
            assert(spec_u32_to_le_bytes(h.pad2) == b.subrange(28, 32));
            assert(spec_u64_to_le_bytes(h.epoch) == b.subrange(32, 40));
            assert(h.encoded() =~= b);
        }
        h
    }

    /// Parse and validate exactly `VAULT_HEADER_SIZE` bytes.
    pub fn parse(bytes: &[u8]) -> (r: Result<Self, VaultError>)
        ensures
            r is Ok <==> header_parse_outcome(bytes@) is Ok,
            r matches Err(e) ==> header_parse_outcome(bytes@) == Err::<(), VaultError>(e),
            r matches Ok(h) ==> h.encoded() == bytes@,
    {
        if bytes.len() != VAULT_HEADER_SIZE {
            return Err(VaultError::new(VaultErrorKind::IntegrityError));
        }
        let h = Self::decode(bytes);
        h.validate()?;
        Ok(h)
    }

    fn validate(&self) -> (r: Result<(), VaultError>)
        ensures
            r == header_check(self.encoded()),
    {
        proof {
            self.lemma_encoding();
        }
        if !bytes_eq(&self.magic, &MAGIC_FILE_TABLE) {
            return Err(VaultError::new(VaultErrorKind::IntegrityError));
        }
        if self.entry_count > MAX_OBJECTS {
            return Err(VaultError::new(VaultErrorKind::IntegrityError));
        }
        Ok(())
    }

    /// Advance the epoch by one; `OperationFailed` (and no change) when it
    /// would overflow.
    pub fn increment_epoch(&mut self) -> (r: Result<(), VaultError>)
        ensures
            r is Ok <==> old(self).spec_epoch() < u64::MAX,
            r is Ok ==> final(self).spec_epoch() == old(self).spec_epoch() + 1,
            r is Err ==> final(self).spec_epoch() == old(self).spec_epoch(),
            r matches Err(e) ==> e.kind == VaultErrorKind::OperationFailed,
            final(self).spec_entry_count() == old(self).spec_entry_count(),
            final(self).spec_bitmap_size() == old(self).spec_bitmap_size(),
            final(self).same_frame(&*old(self)),
    {
        self.epoch = match self.epoch.checked_add(1) {
            Some(e) => e,
            None => {
                return Err(VaultError::new(VaultErrorKind::OperationFailed));
            },
        };
        Ok(())
    }

    /// Record the number of file-table entries.
    pub fn update_entry_count(&mut self, count: u32)
        ensures
            final(self).spec_entry_count() == count,
            final(self).spec_epoch() == old(self).spec_epoch(),
            final(self).spec_bitmap_size() == old(self).spec_bitmap_size(),
            final(self).same_frame(&*old(self)),
    {
        self.entry_count = count;
    }

    /// Crypto version.
    pub fn crypto_version(&self) -> (v: u32)
        ensures
            v == self.spec_crypto_version(),
    {
        self.crypto_version
    }

    /// Epoch.
    pub fn epoch(&self) -> (e: u64)
        ensures
            e == self.spec_epoch(),
    {
        self.epoch
    }

    /// Entry count.
    pub fn entry_count(&self) -> (n: u32)
        ensures
            n == self.spec_entry_count(),
    {
        self.entry_count
    }

    /// Bitmap size in bytes.
    pub fn bitmap_size(&self) -> (n: u32)
        ensures
            n == self.spec_bitmap_size(),
    {
        self.bitmap_size
    }

    /// Set the bitmap size (done before every serialization).
    pub fn update_bitmap_size(&mut self, size: u32)
        ensures
            final(self).spec_bitmap_size() == size,
            final(self).spec_epoch() == old(self).spec_epoch(),
            final(self).spec_entry_count() == old(self).spec_entry_count(),
            final(self).same_frame(&*old(self)),
    {
        self.bitmap_size = size;
    }

    /// Wipe every field but the reserved bytes.
    pub fn zeroize(&mut self)
        ensures
            final(self).spec_epoch() == 0,
            final(self).spec_entry_count() == 0,
            final(self).spec_bitmap_size() == 0,
            final(self).spec_crypto_version() == 0,
    {
        zeroize_bytes(&mut self.magic);
        self.entry_count = 0;
        self.data_region_start = 0;
        self.bitmap_size = 0;
        self.pad = 0;
        self.crypto_version = 0;
        self.pad2 = 0;
        self.epoch = 0;
    }
}

/// Setting counts and advancing the epoch keep a header valid.
pub proof fn lemma_header_setters_keep_frame(a: VaultHeader, b: VaultHeader)
    requires
        header_check(a.encoded()) is Ok,
        b.same_frame(&a),
        b.spec_entry_count() <= MAX_OBJECTS,
    ensures
        header_check(b.encoded()) is Ok,
{
    a.lemma_encoding();
    b.lemma_encoding();
}

/// Fields of a header read back from its encoding.
pub proof fn lemma_header_fields_from_bytes(h: VaultHeader, b: Seq<u8>)
    requires
        h.encoded() == b,
    ensures
        b.len() == VAULT_HEADER_SIZE,
        le32_at(b, 4) == h.spec_entry_count(),
        le32_at(b, 16) == h.spec_bitmap_size(),
        le32_at(b, 24) == h.spec_crypto_version(),
        le64_at(b, 32) == h.spec_epoch(),
{
    h.lemma_encoding();
}

// =============================================================================
// FILE TABLE ENTRY
// =============================================================================

/// File-table entry (256 bytes) describing one stored object.
#[derive(Debug, Clone, Copy)]
pub struct FileTableEntry {
    object_id: [u8; 16],
    start_block: u32,
    num_blocks: u32,
    size: u64,
    flags: u32,
    pad: u32,
    created: u64,
    modified: u64,
    object_type: [u8; 32],
    purpose: [u8; 32],
    wrapped_dek: [u8; 72],
    epoch: u64,
    reserved: [u8; 56],
}

/// An entry is accepted only when its flags mark it active (flags == 1).
pub open spec fn entry_check(b: Seq<u8>) -> Result<(), VaultError> {
    if le32_at(b, 32) != 1 {
        Err(VaultError { kind: VaultErrorKind::IntegrityError })
    } else {
        Ok(())
    }
}

/// Success and error of `FileTableEntry::parse` on the given bytes.
pub open spec fn entry_parse_outcome(b: Seq<u8>) -> Result<(), VaultError> {
    if b.len() != FILE_ENTRY_SIZE {
        Err(VaultError { kind: VaultErrorKind::IntegrityError })
    } else {
        entry_check(b)
    }
}

impl FileTableEntry {
    /// The 256-byte encoding: object id, start block, block count, size,
    /// flags, padding, created, modified, type, purpose, wrapped key, epoch,
    /// reserved bytes.
    pub closed spec fn encoded(&self) -> Seq<u8> {
        self.object_id@ + spec_u32_to_le_bytes(self.start_block) + spec_u32_to_le_bytes(
            self.num_blocks,
        ) + spec_u64_to_le_bytes(self.size) + spec_u32_to_le_bytes(self.flags)
            + spec_u32_to_le_bytes(self.pad) + spec_u64_to_le_bytes(self.created)
            + spec_u64_to_le_bytes(self.modified) + self.object_type@ + self.purpose@
            + self.wrapped_dek@ + spec_u64_to_le_bytes(self.epoch) + self.reserved@
    }

    /// Object id.
    pub closed spec fn spec_object_id(&self) -> Seq<u8> {
        self.object_id@
    }

    /// First data block.
    pub closed spec fn spec_start_block(&self) -> u32 {
        self.start_block
    }

    /// Number of data blocks.
    pub closed spec fn spec_num_blocks(&self) -> u32 {
        self.num_blocks
    }

    /// Plaintext size.
    pub closed spec fn spec_size(&self) -> u64 {
        self.size
    }

    /// Epoch at which the object was written.
    pub closed spec fn spec_epoch(&self) -> u64 {
        self.epoch
    }

    /// Purpose bytes.
    pub closed spec fn spec_purpose(&self) -> Seq<u8> {
        self.purpose@
    }

    /// Object type bytes.
    pub closed spec fn spec_object_type(&self) -> Seq<u8> {
        self.object_type@
    }

    /// Wrapped data key.
    pub closed spec fn spec_wrapped_dek(&self) -> Seq<u8> {
        self.wrapped_dek@
    }

    /// Flags (1 = active).
    pub closed spec fn spec_flags(&self) -> u32 {
        self.flags
    }

    /// Creation time (also the modification time of a new entry).
    pub closed spec fn spec_created(&self) -> u64 {
        self.created
    }

    /// Every field equal except the start block.
    pub closed spec fn same_but_start(&self, other: &Self) -> bool {
        *self == (Self { start_block: self.start_block, ..*other })
    }

    proof fn lemma_encoding(&self)
        ensures
            self.encoded().len() == FILE_ENTRY_SIZE,
            self.encoded().subrange(0, 16) == self.object_id@,
            le32_at(self.encoded(), 16) == self.start_block,
            le32_at(self.encoded(), 20) == self.num_blocks,
            le64_at(self.encoded(), 24) == self.size,
            le32_at(self.encoded(), 32) == self.flags,
            self.encoded().subrange(56, 88) == self.object_type@,
            self.encoded().subrange(88, 120) == self.purpose@,
            self.encoded().subrange(120, 192) == self.wrapped_dek@,
            le64_at(self.encoded(), 192) == self.epoch,
    {
        lemma_auto_spec_u32_to_from_le_bytes();
        lemma_auto_spec_u64_to_from_le_bytes();
        let e = self.encoded();
        assert(e.subrange(0, 16) =~= self.object_id@);
        assert(e.subrange(16, 20) =~= spec_u32_to_le_bytes(self.start_block));
        assert(e.subrange(20, 24) =~= spec_u32_to_le_bytes(self.num_blocks));
        assert(e.subrange(24, 32) =~= spec_u64_to_le_bytes(self.size));
        assert(e.subrange(32, 36) =~= spec_u32_to_le_bytes(self.flags));
        assert(e.subrange(56, 88) =~= self.object_type@);
        assert(e.subrange(88, 120) =~= self.purpose@);
        assert(e.subrange(120, 192) =~= self.wrapped_dek@);
        assert(e.subrange(192, 200) =~= spec_u64_to_le_bytes(self.epoch));
    }

    /// Create an active entry; the modification time starts equal to the
    /// creation time.
    pub fn new(
        object_id: [u8; 16],
        start_block: u32,
        num_blocks: u32,
        size: u64,
        created: u64,
        object_type: [u8; 32],
        purpose: [u8; 32],
        wrapped_dek: [u8; WRAPPED_DEK_SIZE],
        epoch: u64,
    ) -> (e: Self)
        ensures
            e.spec_object_id() == object_id@,
            e.spec_start_block() == start_block,
            e.spec_num_blocks() == num_blocks,
            e.spec_size() == size,
            e.spec_created() == created,
            e.spec_object_type() == object_type@,
            e.spec_purpose() == purpose@,
            e.spec_wrapped_dek() == wrapped_dek@,
            e.spec_epoch() == epoch,
            e.spec_flags() == 1,
            e.spec_modified() == created,
            e.spec_padding_zero(),
            entry_check(e.encoded()) is Ok,
    {
        let e = Self {
            object_id,
            start_block,
            num_blocks,
            size,
            flags: 1,
            pad: 0,
            created,
            modified: created,
            object_type,
            purpose,
            wrapped_dek,
            epoch,
            reserved: [0u8; 56],
        };
        proof {
            e.lemma_encoding();
            assert(e.reserved@ =~= Seq::new(56, |i: int| 0u8));
        }
        e
    }

    /// Last-modified time field.
    pub closed spec fn spec_modified(&self) -> u64 {
        self.modified
    }

    /// The padding and reserved fields are all zero.
    pub closed spec fn spec_padding_zero(&self) -> bool {
        &&& self.pad == 0
        &&& self.reserved@ == Seq::new(56, |i: int| 0u8)
    }

    /// Serialize to the 256-byte form.
    pub fn to_bytes(&self) -> (b: Vec<u8>)
        ensures
            b@ == self.encoded(),
            b@.len() == FILE_ENTRY_SIZE,
    {
        let mut b: Vec<u8> = Vec::new();
        append_bytes(&mut b, &self.object_id);
        append_bytes(&mut b, u32_to_le_bytes(self.start_block).as_slice());
        append_bytes(&mut b, u32_to_le_bytes(self.num_blocks).as_slice());
        append_bytes(&mut b, u64_to_le_bytes(self.size).as_slice());
        append_bytes(&mut b, u32_to_le_bytes(self.flags).as_slice());
        append_bytes(&mut b, u32_to_le_bytes(self.pad).as_slice());
        append_bytes(&mut b, u64_to_le_bytes(self.created).as_slice());
        append_bytes(&mut b, u64_to_le_bytes(self.modified).as_slice());
        append_bytes(&mut b, &self.object_type);
        append_bytes(&mut b, &self.purpose);
        append_bytes(&mut b, &self.wrapped_dek);
        append_bytes(&mut b, u64_to_le_bytes(self.epoch).as_slice());
        append_bytes(&mut b, &self.reserved);
        proof {
            self.lemma_encoding();
        }
        b
    }

    fn decode(bytes: &[u8]) -> (e: Self)
        requires
            bytes@.len() == FILE_ENTRY_SIZE,
        ensures
            e.encoded() == bytes@,
    {
        let e = Self {
            object_id: copy_array(bytes, 0),
            start_block: u32_from_le_bytes(slice_subrange(bytes, 16, 20)),
            num_blocks: u32_from_le_bytes(slice_subrange(bytes, 20, 24)),
            size: u64_from_le_bytes(slice_subrange(bytes, 24, 32)),
            flags: u32_from_le_bytes(slice_subrange(bytes, 32, 36)),
            pad: u32_from_le_bytes(slice_subrange(bytes, 36, 40)),
            created: u64_from_le_bytes(slice_subrange(bytes, 40, 48)),
            modified: u64_from_le_bytes(slice_subrange(bytes, 48, 56)),
            object_type: copy_array(bytes, 56),
            purpose: copy_array(bytes, 88),
            wrapped_dek: copy_array(bytes, 120),
            epoch: u64_from_le_bytes(slice_subrange(bytes, 192, 200)),
            reserved: copy_array(bytes, 200),
        };
        proof {
            lemma_auto_spec_u32_to_from_le_bytes();
            lemma_auto_spec_u64_to_from_le_bytes();
            let b = bytes@;
            assert(spec_u32_to_le_bytes(e.start_block) == b.subrange(16, 20));
            assert(spec_u32_to_le_bytes(e.num_blocks) == b.subrange(20, 24));
            assert(spec_u64_to_le_bytes(e.size) == b.subrange(24, 32));
            assert(spec_u32_to_le_bytes(e.flags) == b.subrange(32, 36));
            assert(spec_u32_to_le_bytes(e.pad) == b.subrange(36, 40));
            assert(spec_u64_to_le_bytes(e.created) == b.subrange(40, 48));
            assert(spec_u64_to_le_bytes(e.modified) == b.subrange(48, 56));
            assert(spec_u64_to_le_bytes(e.epoch) == b.subrange(192, 200));
            assert(e.encoded() =~= b);
        }
        e
    }

    /// Parse and validate exactly `FILE_ENTRY_SIZE` bytes.
    pub fn parse(bytes: &[u8]) -> (r: Result<Self, VaultError>)
        ensures
            r is Ok <==> entry_parse_outcome(bytes@) is Ok,
            r matches Err(e) ==> entry_parse_outcome(bytes@) == Err::<(), VaultError>(e),
            r matches Ok(e) ==> e.encoded() == bytes@,
    {
        if bytes.len() != FILE_ENTRY_SIZE {
            return Err(VaultError::new(VaultErrorKind::IntegrityError));
        }
        let e = Self::decode(bytes);
        e.validate()?;
        Ok(e)
    }

    fn validate(&self) -> (r: Result<(), VaultError>)
        ensures
            r == entry_check(self.encoded()),
    {
        proof {
            self.lemma_encoding();
        }
        if self.flags != 1 {
            return Err(VaultError::new(VaultErrorKind::IntegrityError));
        }
        Ok(())
    }

    /// Object id.
    pub fn object_id(&self) -> (r: &[u8; 16])
        ensures
            r@ == self.spec_object_id(),
    {
        &self.object_id
    }

    /// Purpose bytes.
    pub fn purpose(&self) -> (r: &[u8; 32])
        ensures
            r@ == self.spec_purpose(),
    {
        &self.purpose
    }

    /// Epoch at write time.
    pub fn epoch(&self) -> (r: u64)
        ensures
            r == self.spec_epoch(),
    {
        self.epoch
    }

    /// Wrapped data key.
    pub fn wrapped_dek(&self) -> (r: &[u8; WRAPPED_DEK_SIZE])
        ensures
            r@ == self.spec_wrapped_dek(),
    {
        &self.wrapped_dek
    }

    /// First data block.
    pub fn start_block(&self) -> (r: u32)
        ensures
            r == self.spec_start_block(),
    {
        self.start_block
    }

    /// Move the entry's data (used by compaction); nothing else changes.
    pub fn set_start_block(&mut self, start_block: u32)
        ensures
            final(self).spec_start_block() == start_block,
            final(self).same_but_start(&*old(self)),
    {
        self.start_block = start_block;
    }

    /// Number of data blocks.
    pub fn num_blocks(&self) -> (r: u32)
        ensures
            r == self.spec_num_blocks(),
    {
        self.num_blocks
    }

    /// Plaintext size.
    pub fn size(&self) -> (r: u64)
        ensures
            r == self.spec_size(),
    {
        self.size
    }

    /// Object type bytes.
    pub fn object_type(&self) -> (r: &[u8; 32])
        ensures
            r@ == self.spec_object_type(),
    {
        &self.object_type
    }

    /// Wipe every field but the reserved bytes.
    pub fn zeroize_entry(&mut self)
        ensures
            final(self).spec_object_id() == Seq::new(16, |i: int| 0u8),
            final(self).spec_purpose() == Seq::new(32, |i: int| 0u8),
            final(self).spec_object_type() == Seq::new(32, |i: int| 0u8),
            final(self).spec_wrapped_dek() == Seq::new(72, |i: int| 0u8),
            final(self).spec_size() == 0,
            final(self).spec_start_block() == 0,
            final(self).spec_num_blocks() == 0,
            final(self).spec_epoch() == 0,
            final(self).spec_flags() == 0,
    {
        zeroize_bytes(&mut self.object_id);
        self.start_block = 0;
        self.num_blocks = 0;
        self.size = 0;
        self.flags = 0;
        self.pad = 0;
        self.created = 0;
        self.modified = 0;
        zeroize_bytes(&mut self.object_type);
        zeroize_bytes(&mut self.purpose);
        zeroize_bytes(&mut self.wrapped_dek);
        self.epoch = 0;
        assert(self.object_id@ =~= Seq::new(16, |i: int| 0u8));
        assert(self.purpose@ =~= Seq::new(32, |i: int| 0u8));
        assert(self.object_type@ =~= Seq::new(32, |i: int| 0u8));
        assert(self.wrapped_dek@ =~= Seq::new(72, |i: int| 0u8));
    }

    /// An entry may not be newer than the header that lists it:
    /// `IntegrityError` exactly when its epoch exceeds `header_epoch`.
    pub fn validate_epoch(&self, header_epoch: u64) -> (r: Result<(), VaultError>)
        ensures
            r is Ok <==> self.spec_epoch() <= header_epoch,
            r matches Err(e) ==> e.kind == VaultErrorKind::IntegrityError,
    {
        if self.epoch > header_epoch {
            return Err(VaultError::new(VaultErrorKind::IntegrityError));
        }
        Ok(())
    }
}

/// Fields of an entry read back from its encoding.
pub proof fn lemma_entry_fields_from_bytes(e: FileTableEntry, b: Seq<u8>)
    requires
        e.encoded() == b,
    ensures
        b.len() == FILE_ENTRY_SIZE,
        b.subrange(0, 16) == e.spec_object_id(),
        le32_at(b, 16) == e.spec_start_block(),
        le32_at(b, 20) == e.spec_num_blocks(),
        le64_at(b, 24) == e.spec_size(),
        le32_at(b, 32) == e.spec_flags(),
        b.subrange(56, 88) == e.spec_object_type(),
        b.subrange(88, 120) == e.spec_purpose(),
        b.subrange(120, 192) == e.spec_wrapped_dek(),
        le64_at(b, 192) == e.spec_epoch(),
{
    e.lemma_encoding();
}

/// Two entries with the same encoding are the same entry.
pub proof fn lemma_entry_encoding_injective(a: FileTableEntry, b: FileTableEntry)
    requires
        a.encoded() == b.encoded(),
    ensures
        a.spec_object_id() == b.spec_object_id(),
        a.spec_start_block() == b.spec_start_block(),
        a.spec_num_blocks() == b.spec_num_blocks(),
        a.spec_size() == b.spec_size(),
        a.spec_purpose() == b.spec_purpose(),
        a.spec_object_type() == b.spec_object_type(),
        a.spec_wrapped_dek() == b.spec_wrapped_dek(),
        a.spec_epoch() == b.spec_epoch(),
{
    a.lemma_encoding();
    b.lemma_encoding();
}

/// Moving an entry changes nothing but its start block.
pub proof fn lemma_same_but_start(a: FileTableEntry, b: FileTableEntry)
    requires
        a.same_but_start(&b),
    ensures
        a.spec_object_id() == b.spec_object_id(),
        a.spec_num_blocks() == b.spec_num_blocks(),
        a.spec_size() == b.spec_size(),
        a.spec_flags() == b.spec_flags(),
        a.spec_purpose() == b.spec_purpose(),
        a.spec_object_type() == b.spec_object_type(),
        a.spec_wrapped_dek() == b.spec_wrapped_dek(),
        a.spec_epoch() == b.spec_epoch(),
        a.spec_created() == b.spec_created(),
{
}

/// An entry passes its check exactly when its flags mark it active.
pub proof fn lemma_entry_check_flags(e: FileTableEntry)
    ensures
        entry_check(e.encoded()) is Ok <==> e.spec_flags() == 1,
        e.encoded().len() == FILE_ENTRY_SIZE,
{
    e.lemma_encoding();
}

/// Headers with the same frame have the same crypto version; the relation
/// is symmetric and transitive.
pub proof fn lemma_same_frame(a: VaultHeader, b: VaultHeader, c: VaultHeader)
    ensures
        a.same_frame(&b) ==> a.spec_crypto_version() == b.spec_crypto_version(),
        a.same_frame(&b) ==> b.same_frame(&a),
        a.same_frame(&b) && b.same_frame(&c) ==> a.same_frame(&c),
        a.same_frame(&a),
{
}

/// Headers with the same frame, entry count, bitmap size and epoch are
/// equal.
pub proof fn lemma_header_eq(a: VaultHeader, b: VaultHeader)
    requires
        a.same_frame(&b),
        a.spec_entry_count() == b.spec_entry_count(),
        a.spec_bitmap_size() == b.spec_bitmap_size(),
        a.spec_epoch() == b.spec_epoch(),
    ensures
        a == b,
{
}

/// Serializing then parsing a valid superblock gives it back: the parse
/// of its bytes succeeds, and what it returns (any superblock with those
/// bytes) has the same fields.
pub proof fn lemma_superblock_roundtrip(sb: Superblock, parsed: Superblock)
    requires
        superblock_check(sb.encoded()) is Ok,
        parsed.encoded() == sb.encoded(),
    ensures
        superblock_parse_outcome(sb.encoded()) is Ok,
        parsed.spec_salt() == sb.spec_salt(),
        parsed.spec_vid() == sb.spec_vid(),
        parsed.spec_timestamp() == sb.spec_timestamp(),
        parsed.spec_total_blocks() == sb.spec_total_blocks(),
        parsed.spec_crypto_version() == sb.spec_crypto_version(),
{
    sb.lemma_encoding();
    parsed.lemma_encoding();
}

/// Serializing then parsing a valid header record gives it back.
pub proof fn lemma_header_roundtrip(h: VaultHeader, parsed: VaultHeader)
    requires
        header_check(h.encoded()) is Ok,
        parsed.encoded() == h.encoded(),
    ensures
        header_parse_outcome(h.encoded()) is Ok,
        parsed.spec_entry_count() == h.spec_entry_count(),
        parsed.spec_bitmap_size() == h.spec_bitmap_size(),
        parsed.spec_crypto_version() == h.spec_crypto_version(),
        parsed.spec_epoch() == h.spec_epoch(),
{
    h.lemma_encoding();
    parsed.lemma_encoding();
}

/// A header reached from a valid one by the setters (which keep its frame:
/// magic, data-region start, crypto version, padding) parses exactly when
/// it lists at most `MAX_OBJECTS` entries, and `IntegrityError` otherwise;
/// what `parse` then returns has the same encoding (its own contract).
pub proof fn lemma_updated_header_parses(h0: VaultHeader, h: VaultHeader)
    requires
        header_check(h0.encoded()) is Ok,
        h.same_frame(&h0),
    ensures
        header_parse_outcome(h.encoded()) is Ok <==> h.spec_entry_count() <= MAX_OBJECTS,
        header_parse_outcome(h.encoded()) is Err ==> header_parse_outcome(h.encoded()) == Err::<
            (),
            VaultError,
        >(VaultError { kind: VaultErrorKind::IntegrityError }),
{
    h0.lemma_encoding();
    h.lemma_encoding();
}

/// Serializing then parsing an active entry gives it back.
pub proof fn lemma_entry_roundtrip(e: FileTableEntry, parsed: FileTableEntry)
    requires
        e.spec_flags() == 1,
        parsed.encoded() == e.encoded(),
    ensures
        entry_parse_outcome(e.encoded()) is Ok,
        parsed.spec_object_id() == e.spec_object_id(),
        parsed.spec_start_block() == e.spec_start_block(),
        parsed.spec_num_blocks() == e.spec_num_blocks(),
        parsed.spec_size() == e.spec_size(),
        parsed.spec_purpose() == e.spec_purpose(),
        parsed.spec_object_type() == e.spec_object_type(),
        parsed.spec_wrapped_dek() == e.spec_wrapped_dek(),
        parsed.spec_epoch() == e.spec_epoch(),
{
    e.lemma_encoding();
    parsed.lemma_encoding();
}

} // verus!
