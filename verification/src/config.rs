//! Every constant of the vault format and of the key schedule.

use vstd::prelude::*;

verus! {

// IDENTITY
/// Vault ID length (UUID)
pub const VID_LEN: usize = 16;

/// Object ID length (UUID)
pub const UUID_LEN: usize = 16;

/// Maximum object type string length
pub const OBJECT_TYPE_MAX_LEN: usize = 64;

/// Maximum purpose string length
pub const PURPOSE_MAX_LEN: usize = 32;

// CRYPTO PARAMETERS
/// Master key length (256-bit for XChaCha20-Poly1305)
pub const KEY_LEN: usize = 32;

/// XChaCha20-Poly1305 nonce length
pub const NONCE_LEN: usize = 24;

/// AEAD authentication tag length
pub const TAG_LEN: usize = 16;

/// Salt length for Argon2
pub const SALT_LEN: usize = 32;

/// Minimum password length
pub const MIN_PASSWORD_LEN: usize = 8;

/// Argon2 output length (512-bit for UR)
pub const ARGON2_OUTPUT_LEN: usize = 64;

/// MAC length (HMAC-SHA3-256)
pub const MAC_LEN: usize = 32;

/// Maximum CSPRNG output length
pub const CSPRNG_MAX_LEN: usize = 65536;

/// Wrapped DEK size: nonce(24) + key(32) + tag(16)
pub const WRAPPED_DEK_SIZE: usize = NONCE_LEN + KEY_LEN + TAG_LEN;

// CRYPTO VERSIONING
/// Global Crypto Scheme Version
pub const CRYPTO_VERSION: u32 = 1;

/// Key-schedule label of the user root ("scb-vka-ur")
pub const LABEL_UR: [u8; 10] = [115, 99, 98, 45, 118, 107, 97, 45, 117, 114];

/// Key-schedule label of the recovery root ("scb-vka-rr")
pub const LABEL_RR: [u8; 10] = [115, 99, 98, 45, 118, 107, 97, 45, 114, 114];

/// Key-schedule label of the master root ("scb-vka-mr")
pub const LABEL_MR: [u8; 10] = [115, 99, 98, 45, 118, 107, 97, 45, 109, 114];

/// Key-schedule label of the context root ("scb-vka-cr")
pub const LABEL_CR: [u8; 10] = [115, 99, 98, 45, 118, 107, 97, 45, 99, 114];

/// Key-schedule label of the leaf keys ("scb-vka-leafs")
pub const LABEL_LEAFS: [u8; 13] = [115, 99, 98, 45, 118, 107, 97, 45, 108, 101, 97, 102, 115];

/// On-disk format version stamped into the superblock
pub const VERSION: u32 = 1;

// ARGON2 LIMITS
/// Argon2 minimum memory (64 MiB)
pub const ARGON2_MIN_MEMORY_KIB: u32 = 65536;

/// Argon2 maximum memory (4 GiB)
pub const ARGON2_MAX_MEMORY_KIB: u32 = 4194304;

/// Argon2 minimum iterations
pub const ARGON2_MIN_ITERATIONS: u32 = 1;

/// Argon2 maximum iterations
pub const ARGON2_MAX_ITERATIONS: u32 = 100;

/// Argon2 minimum parallelism
pub const ARGON2_MIN_PARALLELISM: u32 = 1;

/// Argon2 maximum parallelism
pub const ARGON2_MAX_PARALLELISM: u32 = 16;

/// KDF memory used for every vault (1 GiB)
pub const KDF_MEMORY_KIB_MIN: u32 = 1048576;

/// KDF iterations used for every vault
pub const KDF_ITERATIONS_MIN: u32 = 3;

/// KDF parallelism used for every vault
pub const KDF_PARALLELISM: u32 = 4;

// DISK LAYOUT
/// Block size (4 KiB)
pub const BLOCK_SIZE: u32 = 4096;

/// Maximum vault size (12 GiB)
pub const MAX_VAULT_SIZE: u64 = 12884901888;

/// Vacuum copy buffer size (8 MiB)
pub const VACUUM_BUFFER_SIZE: usize = 8388608;

/// Maximum total blocks (`MAX_VAULT_SIZE / BLOCK_SIZE`)
pub const MAX_TOTAL_BLOCKS: u64 = 3145728;

/// Superblock magic bytes ("BLKBX" and three zero bytes)
pub const MAGIC_SUPERBLOCK: [u8; 8] = [66, 76, 75, 66, 88, 0, 0, 0];

/// File table magic bytes ("FTBL")
pub const MAGIC_FILE_TABLE: [u8; 4] = [70, 84, 66, 76];

/// Minimum total blocks
pub const MIN_TOTAL_BLOCKS: u64 = 512;

/// Superblock size (8 KiB)
pub const SUPERBLOCK_SIZE: usize = 8192;

/// Superblock offset (start of file)
pub const SUPERBLOCK_OFFSET: u64 = 0;

/// Data region start (1 MiB offset)
pub const DATA_REGION_START: u64 = 1048576;

/// File entry size
pub const FILE_ENTRY_SIZE: usize = 256;

/// Vault header record size
pub const VAULT_HEADER_SIZE: usize = 56;

// A/B HEADER SLOTS
/// Header slot A offset (immediately after the superblock)
pub const HEADER_SLOT_A_OFFSET: u64 = 8192;

/// Header slot B offset (midpoint of the header region)
pub const HEADER_SLOT_B_OFFSET: u64 = 528384;

/// Capacity of each header slot in bytes
pub const HEADER_SLOT_CAPACITY: u64 = 520192;

/// Slot metadata overhead: blob size (8) + MAC (32)
pub const HEADER_SLOT_META_SIZE: usize = 40;

// OBJECT LIMITS
/// Maximum objects per vault
pub const MAX_OBJECTS: u32 = 1000000;

/// DEK overhead per object (nonce + wrapped key + tag)
pub const DEK_OVERHEAD: usize = NONCE_LEN + KEY_LEN + TAG_LEN;

/// Maximum payload per single-shot object
pub const MAX_OBJECT_PAYLOAD: usize = 65368;

/// Stream chunk size (1 MiB)
pub const STREAM_CHUNK_SIZE: usize = 1048576;

/// Maximum size of a memory-locked buffer (2 MiB)
pub const MAX_SECURE_BUFFER_SIZE: usize = 2097152;

/// Default vault path
pub const DEFAULT_VAULT_PATH: &'static str = "sandbox/vault.bbx";

/// Default vault extension
pub const DEFAULT_VAULT_EXTENSION: &'static str = "bbx";

/// Error display message (opaque)
pub const ERROR_DISPLAY_MSG: &'static str = "vault error";

/// Keychain service identifier
pub const KEYCHAIN_SERVICE: &'static str = "com.scbvka.sep";

/// FNV-1a offset basis
pub const FNV_OFFSET_BASIS: u64 = 0xcbf29ce484222325;

/// FNV-1a prime
pub const FNV_PRIME: u64 = 0x100000001b3;

/// FNV-1a over a byte string: start at the offset basis and, for each byte,
/// xor it in and multiply by the prime modulo 2^64.
pub open spec fn fnv1a_spec(bytes: Seq<u8>) -> u64
    decreases bytes.len(),
{
    if bytes.len() == 0 {
        FNV_OFFSET_BASIS
    } else {
        let h = fnv1a_spec(bytes.drop_last());
        vstd::wrapping::u64_specs::wrapping_mul(h ^ (bytes.last() as u64), FNV_PRIME)
    }
}

/// FNV-1a hash, used to fingerprint the key-schedule labels.
pub fn fnv1a_hash(bytes: &[u8]) -> (h: u64)
    ensures
        h == fnv1a_spec(bytes@),
{
    let mut hash: u64 = FNV_OFFSET_BASIS;
    let mut i: usize = 0;
    while i < bytes.len()
        invariant
            i <= bytes@.len(),
            hash == fnv1a_spec(bytes@.subrange(0, i as int)),
        decreases bytes@.len() - i,
    {
        proof {
            let s = bytes@.subrange(0, i as int + 1);
            assert(s.drop_last() =~= bytes@.subrange(0, i as int));
        }
        hash = hash ^ (bytes[i] as u64);
        hash = hash.wrapping_mul(FNV_PRIME);
        i = i + 1;
    }
    proof {
        assert(bytes@.subrange(0, i as int) =~= bytes@);
    }
    hash
}

} // verus!
