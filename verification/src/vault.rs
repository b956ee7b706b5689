//! Vault orchestration: sizes and offsets of stored objects, the encrypted
//! header (its plaintext layout, its A/B slots, sealing and opening), and
//! the session operations that decide what the application writes and reads.

use vstd::prelude::*;
use vstd::string::StringSliceAdditionalSpecFns;

use crate::config::{
    BLOCK_SIZE, CRYPTO_VERSION, DATA_REGION_START, FILE_ENTRY_SIZE, HEADER_SLOT_A_OFFSET,
    HEADER_SLOT_B_OFFSET, MAC_LEN, NONCE_LEN, STREAM_CHUNK_SIZE, TAG_LEN, VAULT_HEADER_SIZE,
    WRAPPED_DEK_SIZE,
};
use crate::engine::{aad_bytes, AadBuilder, AadContext, AadPurpose, CryptoEngine};
use crate::error::{VaultError, VaultErrorKind};
use crate::layout::{
    lemma_same_frame, entry_check, entry_parse_outcome, header_check, header_parse_outcome,
    lemma_entry_check_flags, lemma_entry_fields_from_bytes, lemma_header_fields_from_bytes,
    FileTableEntry, VaultHeader,
};
use crate::space::{bitmap_len_for, SpaceManager};
use crate::types::{CryptoVersion, Epoch, ObjectId};

verus! {

broadcast use vstd::seq_lib::group_seq_properties;

/// Largest header blob a slot holds (slot capacity less size and MAC).
pub const MAX_HEADER_BLOB_SIZE: usize = 520152;

/// Sealing overhead of the header: wrapped key, nonce and tag.
pub const HEADER_ENCRYPTION_OVERHEAD: usize = 112;

/// Largest header plaintext.
pub const MAX_HEADER_PLAINTEXT_SIZE: usize = 520040;

// =============================================================================
// SIZES AND OFFSETS
// =============================================================================

/// Sizes of a stored object of `d` plaintext bytes, with every checked
/// addition of the computation: the sealed payload (chunks with tags, then
/// the stream MAC), the blocks it needs together with the wrapped key,
/// nonce and trailing MAC, and the number of chunks. None on overflow.
pub open spec fn stream_sizes_spec(d: u64) -> Option<(u64, u64, u64)> {
    let c = STREAM_CHUNK_SIZE as int;
    if d > 0 && d + c > u64::MAX {
        None
    } else {
        let chunks: int = if d > 0 {
            (d + c - 1) / c
        } else {
            0
        };
        let with_tags = d + chunks * 16;
        let enc = with_tags + 32;
        let total = 96 + enc + 32;
        if with_tags > u64::MAX || enc > u64::MAX || total > u64::MAX || total + 4096 > u64::MAX {
            None
        } else {
            Some((enc as u64, ((total + 4095) / 4096) as u64, chunks as u64))
        }
    }
}

/// Sealed payload size, blocks and chunks for `data_len` plaintext bytes;
/// `ParameterOutOfRange` on overflow.
pub fn calculate_stream_sizes(data_len: u64) -> (r: Result<(u64, u64, u64), VaultError>)
    ensures
        r is Ok <==> stream_sizes_spec(data_len) is Some,
        r matches Ok(t) ==> stream_sizes_spec(data_len) == Some(t),
        r matches Err(e) ==> e.kind == VaultErrorKind::ParameterOutOfRange,
{
    let chunk_size = STREAM_CHUNK_SIZE as u64;
    let num_chunks: u64 = if data_len > 0 {
        match data_len.checked_add(chunk_size) {
            Some(x) => (x - 1) / chunk_size,
            None => {
                return Err(VaultError::new(VaultErrorKind::ParameterOutOfRange));
            },
        }
    } else {
        0
    };
    assert(num_chunks <= 17592186044416) by (nonlinear_arith)
        requires
            num_chunks == (if data_len > 0 {
                (data_len + 1048576 - 1) / 1048576
            } else {
                0
            }),
            data_len <= u64::MAX,
    ;
    let tag_overhead = num_chunks * (TAG_LEN as u64);
    let with_tags = match data_len.checked_add(tag_overhead) {
        Some(x) => x,
        None => {
            return Err(VaultError::new(VaultErrorKind::ParameterOutOfRange));
        },
    };
    let enc = match with_tags.checked_add(MAC_LEN as u64) {
        Some(x) => x,
        None => {
            return Err(VaultError::new(VaultErrorKind::ParameterOutOfRange));
        },
    };
    let total = match ((WRAPPED_DEK_SIZE as u64) + (NONCE_LEN as u64)).checked_add(enc) {
        Some(x) => match x.checked_add(MAC_LEN as u64) {
            Some(y) => y,
            None => {
                return Err(VaultError::new(VaultErrorKind::ParameterOutOfRange));
            },
        },
        None => {
            return Err(VaultError::new(VaultErrorKind::ParameterOutOfRange));
        },
    };
    let num_blocks = match total.checked_add(BLOCK_SIZE as u64) {
        Some(x) => (x - 1) / (BLOCK_SIZE as u64),
        None => {
            return Err(VaultError::new(VaultErrorKind::ParameterOutOfRange));
        },
    };
    Ok((enc, num_blocks, num_chunks))
}

/// Sealed payload size and blocks for `data_len` plaintext bytes.
pub fn calculate_required_blocks(data_len: u64) -> (r: Result<(u64, u64), VaultError>)
    ensures
        r is Ok <==> stream_sizes_spec(data_len) is Some,
        r matches Ok(t) ==> (stream_sizes_spec(data_len) matches Some((e, b, c)) && t.0 == e
            && t.1 == b),
        r matches Err(e) ==> e.kind == VaultErrorKind::ParameterOutOfRange,
{
    let (enc, blocks, _) = calculate_stream_sizes(data_len)?;
    Ok((enc, blocks))
}

/// Authenticated data of the encrypted header: zero object id, the given
/// version, epoch 0, purpose "header".
pub open spec fn header_aad_spec(crypto_version: u32) -> Seq<u8> {
    aad_bytes(Seq::new(16, |i: int| 0u8), crypto_version, 0, AadPurpose::Header)
}

/// The header's authenticated-data context; never fails.
pub fn build_header_aad(crypto_version: u32) -> (r: Result<AadContext, VaultError>)
    ensures
        r matches Ok(c) && c@ == header_aad_spec(crypto_version),
{
    let oid = ObjectId::new([0u8; 16]);
    let b = AadBuilder::new().object_id(oid).version(CryptoVersion::new(crypto_version)).epoch(
        Epoch::new(0),
    ).purpose(AadPurpose::Header);
    let r = b.build();
    assert(oid@ =~= Seq::new(16, |i: int| 0u8));
    r
}

/// `s`'s bytes cut or zero-padded to `N` bytes.
pub open spec fn fixed_bytes_spec(s: Seq<u8>, n: nat) -> Seq<u8> {
    Seq::new(
        n,
        |i: int|
            if i < s.len() {
                s[i]
            } else {
                0u8
            },
    )
}

/// A string's bytes in a fixed-size field, cut or zero-padded.
pub fn string_to_fixed_bytes<const N: usize>(s: &str) -> (r: [u8; N])
    ensures
        r@ == fixed_bytes_spec(s.spec_bytes(), N as nat),
{
    let bytes = s.as_bytes();
    let len = if bytes.len() < N {
        bytes.len()
    } else {
        N
    };
    let mut arr = [0u8; N];
    let mut i: usize = 0;
    while i < len
        invariant
            i <= len,
            len <= N,
            len <= bytes@.len(),
            len == bytes@.len() || len == N,
            arr@.len() == N,
            forall|k: int| 0 <= k < i ==> arr@[k] == bytes@[k],
            forall|k: int| i <= k < N ==> arr@[k] == 0u8,
        decreases len - i,
    {
        arr[i] = bytes[i];
        i = i + 1;
    }
    assert(arr@ =~= fixed_bytes_spec(s.spec_bytes(), N as nat));
    arr
}

/// Whether a string holds a NUL character (a zero byte in UTF-8).
pub fn contains_nul(s: &str) -> (r: bool)
    ensures
        r == s.spec_bytes().contains(0u8),
{
    let bytes = s.as_bytes();
    let mut i: usize = 0;
    while i < bytes.len()
        invariant
            i <= bytes@.len(),
            bytes@ == s.spec_bytes(),
            forall|k: int| 0 <= k < i ==> bytes@[k] != 0u8,
        decreases bytes@.len() - i,
    {
        if bytes[i] == 0 {
            assert(bytes@[i as int] == 0u8);
            assert(s.spec_bytes()[i as int] == 0u8);
            assert(s.spec_bytes().contains(0u8));
            return true;
        }
        i = i + 1;
    }
    false
}

/// The other header slot: B after A, A after anything else.
pub fn alternate_slot(current: u64) -> (r: u64)
    ensures
        r == (if current == HEADER_SLOT_A_OFFSET {
            HEADER_SLOT_B_OFFSET
        } else {
            HEADER_SLOT_A_OFFSET
        }),
{
    if current == HEADER_SLOT_A_OFFSET {
        HEADER_SLOT_B_OFFSET
    } else {
        HEADER_SLOT_A_OFFSET
    }
}

/// File offset of data block `start_block`; `ParameterOutOfRange` on
/// overflow.
pub fn calculate_data_offset(start_block: u64) -> (r: Result<u64, VaultError>)
    ensures
        r is Ok <==> DATA_REGION_START + start_block * BLOCK_SIZE <= u64::MAX,
        r matches Ok(o) ==> o == DATA_REGION_START + start_block * BLOCK_SIZE,
        r matches Err(e) ==> e.kind == VaultErrorKind::ParameterOutOfRange,
{
    let block_offset = match start_block.checked_mul(BLOCK_SIZE as u64) {
        Some(x) => x,
        None => {
            return Err(VaultError::new(VaultErrorKind::ParameterOutOfRange));
        },
    };
    match DATA_REGION_START.checked_add(block_offset) {
        Some(x) => Ok(x),
        None => Err(VaultError::new(VaultErrorKind::ParameterOutOfRange)),
    }
}

// =============================================================================
// HEADER PLAINTEXT
// =============================================================================

/// The encodings of the entries, one after another.
pub open spec fn entries_encoded(t: Seq<FileTableEntry>) -> Seq<u8>
    decreases t.len(),
{
    if t.len() == 0 {
        Seq::empty()
    } else {
        entries_encoded(t.drop_last()) + t.last().encoded()
    }
}

/// The header plaintext: header record, bitmap, entries.
pub open spec fn header_plaintext(h: VaultHeader, bitmap: Seq<u8>, t: Seq<FileTableEntry>) -> Seq<
    u8,
> {
    h.encoded() + bitmap + entries_encoded(t)
}

/// Each entry occupies its own 256 bytes of the concatenation.
pub proof fn lemma_entries_encoded(t: Seq<FileTableEntry>)
    ensures
        entries_encoded(t).len() == FILE_ENTRY_SIZE * t.len(),
        forall|k: int|
            0 <= k < t.len() ==> entries_encoded(t).subrange(
                FILE_ENTRY_SIZE * k,
                FILE_ENTRY_SIZE * k + FILE_ENTRY_SIZE,
            ) == #[trigger] t[k].encoded(),
    decreases t.len(),
{
    if t.len() > 0 {
        let p = t.drop_last();
        lemma_entries_encoded(p);
        lemma_entry_check_flags(t.last());
        let e = entries_encoded(t);
        assert forall|k: int| 0 <= k < t.len() implies e.subrange(
            FILE_ENTRY_SIZE * k,
            FILE_ENTRY_SIZE * k + FILE_ENTRY_SIZE,
        ) == #[trigger] t[k].encoded() by {
            if k < t.len() - 1 {
                assert(p[k] == t[k]);
                assert(e.subrange(FILE_ENTRY_SIZE * k, FILE_ENTRY_SIZE * k + FILE_ENTRY_SIZE)
                    =~= entries_encoded(p).subrange(
                    FILE_ENTRY_SIZE * k,
                    FILE_ENTRY_SIZE * k + FILE_ENTRY_SIZE,
                ));
            } else {
                assert(e.subrange(FILE_ENTRY_SIZE * k, FILE_ENTRY_SIZE * k + FILE_ENTRY_SIZE)
                    =~= t.last().encoded());
            }
        }
    }
}

/// Serialize the header plaintext; `CapacityExceeded` when it would be
/// larger than `MAX_HEADER_PLAINTEXT_SIZE`.
pub fn encode_header_plaintext(h: &VaultHeader, bitmap: &[u8], table: &[FileTableEntry]) -> (r:
    Result<Vec<u8>, VaultError>)
    ensures
        r is Ok <==> VAULT_HEADER_SIZE + bitmap@.len() + FILE_ENTRY_SIZE * table@.len()
            <= MAX_HEADER_PLAINTEXT_SIZE,
        r matches Ok(p) ==> p@ == header_plaintext(*h, bitmap@, table@),
        r matches Err(e) ==> e.kind == VaultErrorKind::CapacityExceeded,
{
    if table.len() > MAX_HEADER_PLAINTEXT_SIZE / FILE_ENTRY_SIZE {
        return Err(VaultError::new(VaultErrorKind::CapacityExceeded));
    }
    let entries_size = table.len() * FILE_ENTRY_SIZE;
    if bitmap.len() > MAX_HEADER_PLAINTEXT_SIZE || VAULT_HEADER_SIZE + bitmap.len() + entries_size
        > MAX_HEADER_PLAINTEXT_SIZE {
        return Err(VaultError::new(VaultErrorKind::CapacityExceeded));
    }
    let mut p = h.to_bytes();
    crate::codec::append_bytes(&mut p, bitmap);
    let mut i: usize = 0;
    while i < table.len()
        invariant
            i <= table@.len(),
            p@ == h.encoded() + bitmap@ + entries_encoded(table@.subrange(0, i as int)),
        decreases table@.len() - i,
    {
        let eb = table[i].to_bytes();
        crate::codec::append_bytes(&mut p, eb.as_slice());
        proof {
            let s = table@.subrange(0, i as int + 1);
            assert(s.drop_last() =~= table@.subrange(0, i as int));
        }
        i = i + 1;
    }
    assert(table@.subrange(0, i as int) =~= table@);
    Ok(p)
}

/// First failing entry check among the first `n` 256-byte records of `b`.
pub open spec fn entries_outcome(b: Seq<u8>, n: nat) -> Result<(), VaultError>
    decreases n,
{
    if n == 0 {
        Ok(())
    } else {
        match entries_outcome(b, (n - 1) as nat) {
            Err(e) => Err(e),
            Ok(()) => entry_parse_outcome(
                b.subrange(FILE_ENTRY_SIZE * (n - 1), FILE_ENTRY_SIZE * n),
            ),
        }
    }
}

/// Checks of a header plaintext in the order they are made: room for the
/// header record, the record itself, a bitmap of the size `total_blocks`
/// needs and room for it, room for the listed entries, then each entry.
pub open spec fn plaintext_outcome(pt: Seq<u8>, total_blocks: u64) -> Result<(), VaultError> {
    let integrity = VaultError { kind: VaultErrorKind::IntegrityError };
    if pt.len() < VAULT_HEADER_SIZE {
        Err(integrity)
    } else if header_parse_outcome(pt.subrange(0, VAULT_HEADER_SIZE as int)) is Err {
        header_parse_outcome(pt.subrange(0, VAULT_HEADER_SIZE as int))
    } else {
        let hb = pt.subrange(0, VAULT_HEADER_SIZE as int);
        let bs = crate::layout::le32_at(hb, 16) as int;
        let count = crate::layout::le32_at(hb, 4) as int;
        if bs != bitmap_len_for(total_blocks as nat) {
            Err(integrity)
        } else if pt.len() < VAULT_HEADER_SIZE + bs {
            Err(integrity)
        } else if pt.len() < VAULT_HEADER_SIZE + bs + FILE_ENTRY_SIZE * count {
            Err(integrity)
        } else {
            entries_outcome(pt.subrange(VAULT_HEADER_SIZE + bs, pt.len() as int), count as nat)
        }
    }
}

/// `h`, `t` and `sm` are what a header plaintext holds: the header record
/// at its start, the bitmap after it (as a well-formed manager of the
/// vault's block count), then the listed entries.
pub open spec fn header_decoded(
    h: VaultHeader,
    t: Seq<FileTableEntry>,
    sm: SpaceManager,
    pt: Seq<u8>,
    total_blocks: u64,
) -> bool {
    let bs = h.spec_bitmap_size() as int;
    &&& h.encoded() == pt.subrange(0, VAULT_HEADER_SIZE as int)
    &&& sm.wf()
    &&& sm.total() == total_blocks
    &&& sm.bits() == pt.subrange(VAULT_HEADER_SIZE as int, VAULT_HEADER_SIZE + bs)
    &&& t.len() == h.spec_entry_count()
    &&& forall|k: int|
        0 <= k < t.len() ==> (#[trigger] t[k]).encoded() == pt.subrange(
            VAULT_HEADER_SIZE + bs + FILE_ENTRY_SIZE * k,
            VAULT_HEADER_SIZE + bs + FILE_ENTRY_SIZE * k + FILE_ENTRY_SIZE,
        )
}

/// Decode a header plaintext against the vault's block count: the header
/// record, the space manager rebuilt from the bitmap, and the entries;
/// errors exactly as `plaintext_outcome` states. Bytes after the listed
/// entries are ignored.
pub fn parse_header_plaintext(pt: &[u8], total_blocks: u64) -> (r: Result<
    (VaultHeader, Vec<FileTableEntry>, SpaceManager),
    VaultError,
>)
    ensures
        r is Ok <==> plaintext_outcome(pt@, total_blocks) is Ok,
        r matches Err(e) ==> plaintext_outcome(pt@, total_blocks) == Err::<(), VaultError>(e),
        r matches Ok(out) ==> header_decoded(out.0, out.1@, out.2, pt@, total_blocks),
{
    if pt.len() < VAULT_HEADER_SIZE {
        return Err(VaultError::new(VaultErrorKind::IntegrityError));
    }
    let hb = vstd::slice::slice_subrange(pt, 0, VAULT_HEADER_SIZE);
    let header = VaultHeader::parse(hb)?;
    proof {
        lemma_header_fields_from_bytes(header, hb@);
    }
    let bitmap_size = header.bitmap_size() as u64;
    let expected: u64 = total_blocks / 8 + if total_blocks % 8 == 0 {
        0
    } else {
        1
    };
    if bitmap_size != expected {
        return Err(VaultError::new(VaultErrorKind::IntegrityError));
    }
    let count = header.entry_count() as u64;
    if (pt.len() as u64) < (VAULT_HEADER_SIZE as u64) + bitmap_size {
        return Err(VaultError::new(VaultErrorKind::IntegrityError));
    }
    let bs = bitmap_size as usize;
    let bitmap = vstd::slice::slice_to_vec(
        vstd::slice::slice_subrange(pt, VAULT_HEADER_SIZE, VAULT_HEADER_SIZE + bs),
    );
    let sm = SpaceManager::from_bytes(bitmap, total_blocks)?;
    if (pt.len() as u64) < (VAULT_HEADER_SIZE as u64) + bitmap_size + (FILE_ENTRY_SIZE as u64)
        * count {
        return Err(VaultError::new(VaultErrorKind::IntegrityError));
    }
    let base = VAULT_HEADER_SIZE + bs;
    let ghost rest = pt@.subrange(base as int, pt@.len() as int);
    let mut table: Vec<FileTableEntry> = Vec::new();
    let mut i: usize = 0;
    let n = count as usize;
    let plen = pt.len();
    assert(plaintext_outcome(pt@, total_blocks) == entries_outcome(rest, n as nat));
    while i < n
        invariant
            i <= n,
            plen == pt@.len(),
            plaintext_outcome(pt@, total_blocks) == entries_outcome(rest, n as nat),
            n == count,
            base == VAULT_HEADER_SIZE + bs,
            base + FILE_ENTRY_SIZE * n <= pt@.len(),
            rest == pt@.subrange(base as int, pt@.len() as int),
            table@.len() == i,
            entries_outcome(rest, i as nat) is Ok,
            forall|k: int|
                0 <= k < i ==> (#[trigger] table@[k]).encoded() == pt@.subrange(
                    base + FILE_ENTRY_SIZE * k,
                    base + FILE_ENTRY_SIZE * k + FILE_ENTRY_SIZE,
                ),
        decreases n - i,
    {
        assert(FILE_ENTRY_SIZE * i + FILE_ENTRY_SIZE <= FILE_ENTRY_SIZE * n) by (nonlinear_arith)
            requires
                i < n,
        ;
        let off = base + FILE_ENTRY_SIZE * i;
        let eb = vstd::slice::slice_subrange(pt, off, off + FILE_ENTRY_SIZE);
        assert(eb@ =~= rest.subrange(FILE_ENTRY_SIZE * i, FILE_ENTRY_SIZE * (i + 1)));
        let entry = match FileTableEntry::parse(eb) {
            Ok(e) => e,
            Err(e) => {
                assert(entries_outcome(rest, (i + 1) as nat) == Err::<(), VaultError>(e));
                proof {
                    lemma_entries_outcome_err(rest, (i + 1) as nat, n as nat);
                }
                return Err(e);
            },
        };
        table.push(entry);
        i = i + 1;
    }
    Ok((header, table, sm))
}

/// Once an entry check fails, every longer run of checks fails the same way.
proof fn lemma_entries_outcome_err(b: Seq<u8>, i: nat, n: nat)
    requires
        i <= n,
        entries_outcome(b, i) is Err,
    ensures
        entries_outcome(b, n) == entries_outcome(b, i),
    decreases n - i,
{
    if i < n {
        lemma_entries_outcome_err(b, i, (n - 1) as nat);
    }
}

/// Entries that each pass their check pass the run of checks.
proof fn lemma_entries_outcome_ok(t: Seq<FileTableEntry>, b: Seq<u8>, n: nat)
    requires
        n <= t.len(),
        b.len() >= FILE_ENTRY_SIZE * t.len(),
        b.subrange(0, FILE_ENTRY_SIZE * t.len()) == entries_encoded(t),
        forall|k: int| 0 <= k < t.len() ==> (#[trigger] t[k]).spec_flags() == 1,
    ensures
        entries_outcome(b, n) is Ok,
    decreases n,
{
    if n > 0 {
        lemma_entries_outcome_ok(t, b, (n - 1) as nat);
        lemma_entries_encoded(t);
        let k = n - 1;
        lemma_entry_check_flags(t[k]);
        assert(b.subrange(FILE_ENTRY_SIZE * k, FILE_ENTRY_SIZE * n) =~= entries_encoded(
            t,
        ).subrange(FILE_ENTRY_SIZE * k, FILE_ENTRY_SIZE * k + FILE_ENTRY_SIZE));
    }
}

/// Reading back a header plaintext: the plaintext of a valid header record,
/// a bitmap of the size the block count needs and active entries passes
/// every check of `parse_header_plaintext`, and its parts are found where
/// they were written, so the parse gives them back.
pub proof fn lemma_header_plaintext_roundtrip(
    h: VaultHeader,
    bitmap: Seq<u8>,
    t: Seq<FileTableEntry>,
    total_blocks: u64,
)
    requires
        header_check(h.encoded()) is Ok,
        h.spec_bitmap_size() == bitmap.len(),
        bitmap.len() == bitmap_len_for(total_blocks as nat),
        h.spec_entry_count() == t.len(),
        forall|k: int| 0 <= k < t.len() ==> (#[trigger] t[k]).spec_flags() == 1,
    ensures
        plaintext_outcome(header_plaintext(h, bitmap, t), total_blocks) is Ok,
        header_plaintext(h, bitmap, t).subrange(0, VAULT_HEADER_SIZE as int) == h.encoded(),
        header_plaintext(h, bitmap, t).subrange(
            VAULT_HEADER_SIZE as int,
            VAULT_HEADER_SIZE + bitmap.len(),
        ) == bitmap,
        forall|k: int|
            0 <= k < t.len() ==> header_plaintext(h, bitmap, t).subrange(
                VAULT_HEADER_SIZE + bitmap.len() + FILE_ENTRY_SIZE * k,
                VAULT_HEADER_SIZE + bitmap.len() + FILE_ENTRY_SIZE * k + FILE_ENTRY_SIZE,
            ) == #[trigger] t[k].encoded(),
{
    let pt = header_plaintext(h, bitmap, t);
    lemma_header_fields_from_bytes(h, h.encoded());
    lemma_entries_encoded(t);
    let hl = VAULT_HEADER_SIZE as int;
    let bl = bitmap.len() as int;
    assert(pt.subrange(0, hl) =~= h.encoded());
    assert(pt.subrange(hl, hl + bl) =~= bitmap);
    let rest = pt.subrange(hl + bl, pt.len() as int);
    assert(rest =~= entries_encoded(t));
    assert(rest.subrange(0, FILE_ENTRY_SIZE * t.len()) =~= entries_encoded(t));
    lemma_entries_outcome_ok(t, rest, t.len());
    assert forall|k: int| 0 <= k < t.len() implies pt.subrange(
        hl + bl + FILE_ENTRY_SIZE * k,
        hl + bl + FILE_ENTRY_SIZE * k + FILE_ENTRY_SIZE,
    ) == #[trigger] t[k].encoded() by {
        assert(pt.subrange(hl + bl + FILE_ENTRY_SIZE * k, hl + bl + FILE_ENTRY_SIZE * k
            + FILE_ENTRY_SIZE) =~= entries_encoded(t).subrange(
            FILE_ENTRY_SIZE * k,
            FILE_ENTRY_SIZE * k + FILE_ENTRY_SIZE,
        ));
    }
}

// =============================================================================
// HEADER SLOTS
// =============================================================================

/// Opening a header slot (blob size, little-endian; MAC; blob) up to its
/// plaintext, with the authenticated data `aad`: a short read is an
/// `IoError`; a size of zero or over the slot capacity is an
/// `IntegrityError`; a MAC that is not HMAC-SHA3-256 of the blob under the
/// MAC key is `AuthenticationFailed`; a blob too short to hold wrapped key,
/// nonce and tag is an `IntegrityError`; then the wrapped key is opened
/// and the rest of the blob decrypted under it.
pub open spec fn slot_open_core(slot: Seq<u8>, kek: Seq<u8>, mk: Seq<u8>, aad: Seq<u8>) -> Result<
    Seq<u8>,
    VaultErrorKind,
> {
    if slot.len() < 8 {
        Err(VaultErrorKind::IoError)
    } else {
        let size = crate::layout::le64_at(slot, 0) as int;
        if size == 0 || size > MAX_HEADER_BLOB_SIZE {
            Err(VaultErrorKind::IntegrityError)
        } else if slot.len() != 40 + size {
            Err(VaultErrorKind::IoError)
        } else {
            let blob = slot.subrange(40, slot.len() as int);
            if crate::primitives::hmac_sha3_256_spec(mk, blob) != slot.subrange(8, 40) {
                Err(VaultErrorKind::AuthenticationFailed)
            } else if blob.len() < HEADER_ENCRYPTION_OVERHEAD {
                Err(VaultErrorKind::IntegrityError)
            } else {
                match crate::engine::unwrap_spec(kek, blob.subrange(0, 72), aad) {
                    Err(k) => Err(k),
                    Ok(dek) => match crate::primitives::xchacha20poly1305_open(
                        dek,
                        blob.subrange(72, 96),
                        aad,
                        blob.subrange(96, blob.len() as int),
                    ) {
                        None => Err(VaultErrorKind::AuthenticationFailed),
                        Some(pt) => Ok(pt),
                    },
                }
            }
        }
    }
}

/// Opening a slot as the reader does, with the header authenticated data
/// of the current crypto version.
pub open spec fn slot_open_spec(slot: Seq<u8>, kek: Seq<u8>, mk: Seq<u8>) -> Result<
    Seq<u8>,
    VaultErrorKind,
> {
    slot_open_core(slot, kek, mk, header_aad_spec(CRYPTO_VERSION))
}

/// Outcome of reading a slot: its plaintext when it opens and decodes
/// against the block count, else the first error.
pub open spec fn slot_outcome(slot: Seq<u8>, kek: Seq<u8>, mk: Seq<u8>, total_blocks: u64) -> Result<
    Seq<u8>,
    VaultError,
> {
    match slot_open_spec(slot, kek, mk) {
        Err(k) => Err(VaultError { kind: k }),
        Ok(pt) => match plaintext_outcome(pt, total_blocks) {
            Err(e) => Err(e),
            Ok(()) => Ok(pt),
        },
    }
}

/// Encrypt the header into slot bytes with the given random values: export
/// the bitmap and record its size in the header, serialize header, bitmap
/// and entries, seal them under the drawn data key (wrapped with the
/// key-encryption key under the drawn wrapping nonce) and the drawn nonce,
/// and prefix the blob with its size and its MAC. It fails exactly when the
/// bitmap size does not fit a `u32` or the plaintext is over its limit
/// (`CapacityExceeded`). Opening the slot with the same keys gives back the
/// plaintext of the updated header, the bitmap and the entries.
pub fn seal_header_slot_with(
    crypto: &crate::engine::DefaultCryptoEngine,
    kek: &crate::types::KeyKEK,
    mk: &crate::types::KeyMK,
    header: &mut VaultHeader,
    file_table: &[FileTableEntry],
    space_manager: &SpaceManager,
    draws: SealDraws,
) -> (r: Result<Vec<u8>, VaultError>)
    ensures
        (space_manager.bits().len() > u32::MAX || VAULT_HEADER_SIZE + space_manager.bits().len()
            + FILE_ENTRY_SIZE * file_table@.len() > MAX_HEADER_PLAINTEXT_SIZE) <==> (r matches Err(
            e,
        ) && e.kind == VaultErrorKind::CapacityExceeded),
        r matches Err(e) ==> e.kind == VaultErrorKind::CapacityExceeded,
        space_manager.bits().len() <= u32::MAX ==> final(header).spec_bitmap_size()
            == space_manager.bits().len(),
        space_manager.bits().len() <= u32::MAX ==> final(header).same_frame(&*old(header)),
        space_manager.bits().len() > u32::MAX ==> *final(header) == *old(header),
        final(header).spec_epoch() == old(header).spec_epoch(),
        final(header).spec_entry_count() == old(header).spec_entry_count(),
        final(header).spec_crypto_version() == old(header).spec_crypto_version(),
        r matches Ok(slot) ==> slot_open_core(
            slot@,
            kek@,
            mk@,
            header_aad_spec(old(header).spec_crypto_version()),
        ) == Ok::<Seq<u8>, VaultErrorKind>(
            header_plaintext(*final(header), space_manager.bits(), file_table@),
        ),
{
    let bitmap = space_manager.export_bitmap();
    if bitmap.len() > u32::MAX as usize {
        return Err(VaultError::new(VaultErrorKind::CapacityExceeded));
    }
    header.update_bitmap_size(bitmap.len() as u32);
    proof {
        crate::layout::lemma_same_frame(*header, *old(header), *header);
        lemma_entries_encoded(file_table@);
        lemma_header_fields_from_bytes(*header, header.encoded());
    }
    let plaintext = encode_header_plaintext(header, bitmap.as_slice(), file_table)?;
    let SealDraws { dek, wrap_nonce, nonce: consumed } = draws;
    let aad = build_header_aad(header.crypto_version())?;
    let wrapped = crypto.wrap_dek_with(kek, &dek, &aad, wrap_nonce);
    let nonce_raw = consumed.to_bytes();
    let (ct, tag) = match crypto.encrypt_object(&dek, plaintext.as_slice(), &aad, consumed) {
        Ok(out) => out,
        Err(e) => {
            return Err(e);
        },
    };
    let mut blob: Vec<u8> = Vec::new();
    crate::codec::append_bytes(&mut blob, &wrapped);
    crate::codec::append_bytes(&mut blob, &nonce_raw);
    crate::codec::append_bytes(&mut blob, ct.as_slice());
    crate::codec::append_bytes(&mut blob, &tag);
    let mac = match crypto.compute_header_mac(mk, blob.as_slice()) {
        Ok(m) => m,
        Err(e) => {
            return Err(e);
        },
    };
    let blob_size = blob.len() as u64;
    let size_bytes = vstd::bytes::u64_to_le_bytes(blob_size);
    let mut slot: Vec<u8> = Vec::new();
    crate::codec::append_bytes(&mut slot, size_bytes.as_slice());
    crate::codec::append_bytes(&mut slot, &mac);
    crate::codec::append_bytes(&mut slot, blob.as_slice());
    proof {
        vstd::bytes::lemma_auto_spec_u64_to_from_le_bytes();
        let b = blob@;
        assert(slot@.subrange(0, 8) =~= size_bytes@);
        assert(slot@.subrange(8, 40) =~= mac@);
        assert(slot@.subrange(40, slot@.len() as int) =~= b);
        assert(b.subrange(0, 72) =~= wrapped@);
        assert(b.subrange(72, 96) =~= nonce_raw@);
        assert(b.subrange(96, b.len() as int) =~= ct@ + tag@);
    }
    Ok(slot)
}

/// The random values that sealing a header slot takes: a fresh data key,
/// the nonce that wraps it, and the nonce of the header ciphertext.
pub struct SealDraws {
    /// Data key of the header.
    pub dek: crate::types::KeyKEK,
    /// Nonce of the data key's wrapping.
    pub wrap_nonce: crate::engine::ConsumedNonce,
    /// Nonce of the header ciphertext.
    pub nonce: crate::engine::ConsumedNonce,
}

/// Draw the random values of a header seal from the CSPRNG (key, then
/// wrapping nonce, then nonce); `OperationFailed` when it fails.
pub fn draw_seal(crypto: &crate::engine::DefaultCryptoEngine) -> (r: Result<SealDraws, VaultError>)
    ensures
        r matches Err(e) ==> e.kind == VaultErrorKind::OperationFailed,
{
    let dek = crypto.generate_dek()?;
    let wrap_nonce = crate::engine::NonceFactory::generate()?;
    let nonce = crate::engine::NonceFactory::generate()?;
    Ok(SealDraws {
        dek,
        wrap_nonce: crate::engine::ConsumedNonce::new(wrap_nonce),
        nonce: crate::engine::ConsumedNonce::new(nonce),
    })
}

/// Whether a header with this bitmap length and table length fits a slot:
/// the bitmap size fits a `u32` and the plaintext is within its limit.
pub open spec fn header_fits(bits_len: nat, table_len: nat) -> bool {
    bits_len <= u32::MAX && VAULT_HEADER_SIZE + bits_len + FILE_ENTRY_SIZE * table_len
        <= MAX_HEADER_PLAINTEXT_SIZE
}

/// Whether a header with this bitmap length and table length fits a slot,
/// as `header_fits` states.
pub fn header_fits_exec(bits_len: u64, table_len: usize) -> (r: bool)
    ensures
        r == header_fits(bits_len as nat, table_len as nat),
{
    if bits_len > u32::MAX as u64 {
        return false;
    }
    let room: u64 = (MAX_HEADER_PLAINTEXT_SIZE - VAULT_HEADER_SIZE) as u64;
    if bits_len > room {
        return false;
    }
    let q = (room - bits_len) / (FILE_ENTRY_SIZE as u64);
    let r = (table_len as u64) <= q;
    proof {
        let x = (room - bits_len) as int;
        let n = table_len as int;
        assert(r == (FILE_ENTRY_SIZE * n <= x)) by (nonlinear_arith)
            requires
                q == x / 256,
                x >= 0,
                n >= 0,
                r == (n <= q),
                FILE_ENTRY_SIZE == 256,
        ;
    }
    r
}

/// Encrypt the header into slot bytes: as `seal_header_slot_with`, with
/// random values drawn from the CSPRNG once the sizes are known to fit.
/// `CapacityExceeded` exactly when they do not fit; `OperationFailed` when
/// the CSPRNG fails.
pub fn seal_header_slot(
    crypto: &crate::engine::DefaultCryptoEngine,
    kek: &crate::types::KeyKEK,
    mk: &crate::types::KeyMK,
    header: &mut VaultHeader,
    file_table: &[FileTableEntry],
    space_manager: &SpaceManager,
) -> (r: Result<Vec<u8>, VaultError>)
    ensures
        !header_fits(space_manager.bits().len(), file_table@.len()) <==> (r matches Err(e) && e.kind
            == VaultErrorKind::CapacityExceeded),
        r matches Err(e) ==> (e.kind == VaultErrorKind::CapacityExceeded || e.kind
            == VaultErrorKind::OperationFailed),
        space_manager.bits().len() <= u32::MAX ==> final(header).spec_bitmap_size()
            == space_manager.bits().len(),
        space_manager.bits().len() <= u32::MAX ==> final(header).same_frame(&*old(header)),
        space_manager.bits().len() > u32::MAX ==> *final(header) == *old(header),
        final(header).spec_epoch() == old(header).spec_epoch(),
        final(header).spec_entry_count() == old(header).spec_entry_count(),
        final(header).spec_crypto_version() == old(header).spec_crypto_version(),
        r matches Ok(slot) ==> slot_open_core(
            slot@,
            kek@,
            mk@,
            header_aad_spec(old(header).spec_crypto_version()),
        ) == Ok::<Seq<u8>, VaultErrorKind>(
            header_plaintext(*final(header), space_manager.bits(), file_table@),
        ),
{
    let bits = space_manager.bitmap_size();
    if bits > u32::MAX as u64 {
        return Err(VaultError::new(VaultErrorKind::CapacityExceeded));
    }
    header.update_bitmap_size(bits as u32);
    let ghost h1 = *header;
    proof {
        crate::layout::lemma_same_frame(*header, *old(header), *header);
    }
    if !header_fits_exec(bits, file_table.len()) {
        return Err(VaultError::new(VaultErrorKind::CapacityExceeded));
    }
    let draws = draw_seal(crypto)?;
    let r = seal_header_slot_with(crypto, kek, mk, header, file_table, space_manager, draws);
    proof {
        crate::layout::lemma_same_frame(*header, h1, *old(header));
        crate::layout::lemma_same_frame(h1, *old(header), *old(header));
    }
    r
}

/// Whether a slot's first eight bytes announce an acceptable blob size:
/// the size, or `IntegrityError` when it is zero or over the capacity.
pub fn slot_blob_size(prefix: &[u8; 8]) -> (r: Result<usize, VaultError>)
    ensures
        r is Ok <==> (0 < vstd::bytes::spec_u64_from_le_bytes(prefix@)
            <= MAX_HEADER_BLOB_SIZE),
        r matches Ok(n) ==> n == vstd::bytes::spec_u64_from_le_bytes(prefix@),
        r matches Err(e) ==> e.kind == VaultErrorKind::IntegrityError,
{
    let size = vstd::bytes::u64_from_le_bytes(prefix);
    if size == 0 || size > MAX_HEADER_BLOB_SIZE as u64 {
        return Err(VaultError::new(VaultErrorKind::IntegrityError));
    }
    Ok(size as usize)
}

/// Read one header slot from its bytes (size, MAC, blob) against the
/// vault's block count: errors as `slot_outcome` states; on success the
/// header, entries and space manager the plaintext holds.
pub fn open_header_slot(
    crypto: &crate::engine::DefaultCryptoEngine,
    kek: &crate::types::KeyKEK,
    mk: &crate::types::KeyMK,
    slot: &[u8],
    total_blocks: u64,
) -> (r: Result<(VaultHeader, Vec<FileTableEntry>, SpaceManager), VaultError>)
    ensures
        r is Ok <==> slot_outcome(slot@, kek@, mk@, total_blocks) is Ok,
        r matches Err(e) ==> slot_outcome(slot@, kek@, mk@, total_blocks) == Err::<
            Seq<u8>,
            VaultError,
        >(e),
        r matches Ok(out) ==> header_decoded(
            out.0,
            out.1@,
            out.2,
            slot_outcome(slot@, kek@, mk@, total_blocks)->Ok_0,
            total_blocks,
        ),
{
    if slot.len() < 8 {
        return Err(VaultError::new(VaultErrorKind::IoError));
    }
    let prefix: [u8; 8] = crate::codec::copy_array(slot, 0);
    let size = slot_blob_size(&prefix)?;
    if slot.len() < 40 || slot.len() - 40 != size {
        return Err(VaultError::new(VaultErrorKind::IoError));
    }
    let expected_mac: [u8; 32] = crate::codec::copy_array(slot, 8);
    let blob = vstd::slice::slice_subrange(slot, 40, slot.len());
    let ok = match crypto.verify_header_mac(mk, blob, &expected_mac) {
        Ok(b) => b,
        Err(e) => {
            return Err(e);
        },
    };
    if !ok {
        return Err(VaultError::new(VaultErrorKind::AuthenticationFailed));
    }
    if blob.len() < HEADER_ENCRYPTION_OVERHEAD {
        return Err(VaultError::new(VaultErrorKind::IntegrityError));
    }
    let wrapped: [u8; 72] = crate::codec::copy_array(blob, 0);
    let aad = build_header_aad(CRYPTO_VERSION)?;
    let dek = crypto.unwrap_dek(kek, &wrapped, &aad)?;
    let nonce: [u8; 24] = crate::codec::copy_array(blob, 72);
    let ct_end = blob.len() - TAG_LEN;
    let ct = vstd::slice::slice_subrange(blob, 96, ct_end);
    let tag: [u8; 16] = crate::codec::copy_array(blob, ct_end);
    assert(ct@ + tag@ =~= blob@.subrange(96, blob@.len() as int));
    let pt = crypto.decrypt_object(&dek, crate::types::Nonce::new(nonce), ct, &tag, &aad)?;
    parse_header_plaintext(pt.as_slice(), total_blocks)
}

/// Choose between the two slots: the one that decoded; of two, slot B only
/// when its epoch is strictly greater; when neither decoded,
/// `AuthenticationFailed` (a wrong password and a damaged vault are not
/// told apart).
pub fn select_header_slot(
    slot_a: Result<(VaultHeader, Vec<FileTableEntry>, SpaceManager), VaultError>,
    slot_b: Result<(VaultHeader, Vec<FileTableEntry>, SpaceManager), VaultError>,
) -> (r: Result<(VaultHeader, Vec<FileTableEntry>, SpaceManager, u64), VaultError>)
    ensures
        match (slot_a, slot_b) {
            (Ok(a), Ok(b)) => if b.0.spec_epoch() > a.0.spec_epoch() {
                r matches Ok(o) && o.0 == b.0 && o.1@ == b.1@ && o.2 == b.2 && o.3
                    == HEADER_SLOT_B_OFFSET
            } else {
                r matches Ok(o) && o.0 == a.0 && o.1@ == a.1@ && o.2 == a.2 && o.3
                    == HEADER_SLOT_A_OFFSET
            },
            (Ok(a), Err(_)) => r matches Ok(o) && o.0 == a.0 && o.1@ == a.1@ && o.2 == a.2 && o.3
                == HEADER_SLOT_A_OFFSET,
            (Err(_), Ok(b)) => r matches Ok(o) && o.0 == b.0 && o.1@ == b.1@ && o.2 == b.2 && o.3
                == HEADER_SLOT_B_OFFSET,
            (Err(_), Err(_)) => r == Err::<
                (VaultHeader, Vec<FileTableEntry>, SpaceManager, u64),
                VaultError,
            >(VaultError { kind: VaultErrorKind::AuthenticationFailed }),
        },
{
    match (slot_a, slot_b) {
        (Ok((ha, fta, sma)), Ok((hb, ftb, smb))) => {
            if hb.epoch() > ha.epoch() {
                Ok((hb, ftb, smb, HEADER_SLOT_B_OFFSET))
            } else {
                Ok((ha, fta, sma, HEADER_SLOT_A_OFFSET))
            }
        },
        (Ok((ha, fta, sma)), Err(_)) => Ok((ha, fta, sma, HEADER_SLOT_A_OFFSET)),
        (Err(_), Ok((hb, ftb, smb))) => Ok((hb, ftb, smb, HEADER_SLOT_B_OFFSET)),
        (Err(_), Err(_)) => Err(VaultError::new(VaultErrorKind::AuthenticationFailed)),
    }
}

/// What a read gives back of a write: a slot that opens to the plaintext
/// of a valid header, a bitmap of the size the block count needs and active
/// entries reads back without error, and whatever the reader decodes from
/// it has the header's encoding, the bitmap and the entries' encodings.
pub proof fn lemma_slot_roundtrip(
    slot: Seq<u8>,
    kek: Seq<u8>,
    mk: Seq<u8>,
    h: VaultHeader,
    bitmap: Seq<u8>,
    t: Seq<FileTableEntry>,
    total_blocks: u64,
    h2: VaultHeader,
    t2: Seq<FileTableEntry>,
    sm2: SpaceManager,
)
    requires
        slot_open_spec(slot, kek, mk) == Ok::<Seq<u8>, VaultErrorKind>(
            header_plaintext(h, bitmap, t),
        ),
        header_check(h.encoded()) is Ok,
        h.spec_bitmap_size() == bitmap.len(),
        bitmap.len() == bitmap_len_for(total_blocks as nat),
        h.spec_entry_count() == t.len(),
        forall|k: int| 0 <= k < t.len() ==> (#[trigger] t[k]).spec_flags() == 1,
    ensures
        slot_outcome(slot, kek, mk, total_blocks) == Ok::<Seq<u8>, VaultError>(
            header_plaintext(h, bitmap, t),
        ),
        header_decoded(h2, t2, sm2, header_plaintext(h, bitmap, t), total_blocks) ==> {
            &&& h2.encoded() == h.encoded()
            &&& sm2.bits() == bitmap
            &&& t2.len() == t.len()
            &&& forall|k: int| 0 <= k < t.len() ==> (#[trigger] t2[k]).encoded() == t[k].encoded()
        },
{
    lemma_header_plaintext_roundtrip(h, bitmap, t, total_blocks);
    let pt = header_plaintext(h, bitmap, t);
    if header_decoded(h2, t2, sm2, pt, total_blocks) {
        lemma_header_fields_from_bytes(h, h.encoded());
        lemma_header_fields_from_bytes(h2, h2.encoded());
        assert(h2.spec_bitmap_size() == h.spec_bitmap_size());
        assert forall|k: int| 0 <= k < t.len() implies (#[trigger] t2[k]).encoded()
            == t[k].encoded() by {
            assert(t2[k].encoded() == pt.subrange(
                VAULT_HEADER_SIZE + bitmap.len() + FILE_ENTRY_SIZE * k,
                VAULT_HEADER_SIZE + bitmap.len() + FILE_ENTRY_SIZE * k + FILE_ENTRY_SIZE,
            ));
        }
    }
}

// =============================================================================
// SESSION
// =============================================================================

/// Outcome of reading slot bytes that may already have failed to be read.
pub open spec fn raw_slot_outcome(
    raw: Result<Vec<u8>, VaultError>,
    kek: Seq<u8>,
    mk: Seq<u8>,
    total_blocks: u64,
) -> Result<Seq<u8>, VaultError> {
    match raw {
        Err(e) => Err(e),
        Ok(b) => slot_outcome(b@, kek, mk, total_blocks),
    }
}

/// Epoch recorded in a header plaintext.
pub open spec fn plaintext_epoch(pt: Seq<u8>) -> u64 {
    crate::layout::le64_at(pt, 32)
}

/// Which slot an unlock uses, and its plaintext: the slot that decoded; of
/// two, B only when its epoch is strictly greater; when neither decoded,
/// `AuthenticationFailed`. A header of another crypto version is an `IntegrityError`.
pub open spec fn unlock_outcome(ra: Result<Seq<u8>, VaultError>, rb: Result<Seq<u8>, VaultError>) -> Result<
    (Seq<u8>, u64),
    VaultError,
> {
    let chosen: Result<(Seq<u8>, u64), VaultError> = match (ra, rb) {
        (Ok(a), Ok(b)) => if plaintext_epoch(b) > plaintext_epoch(a) {
            Ok((b, HEADER_SLOT_B_OFFSET))
        } else {
            Ok((a, HEADER_SLOT_A_OFFSET))
        },
        (Ok(a), Err(_)) => Ok((a, HEADER_SLOT_A_OFFSET)),
        (Err(_), Ok(b)) => Ok((b, HEADER_SLOT_B_OFFSET)),
        (Err(_), Err(_)) => Err(VaultError { kind: VaultErrorKind::AuthenticationFailed }),
    };
    match chosen {
        Err(e) => Err(e),
        Ok((pt, off)) => if crate::layout::le32_at(pt, 24) != CRYPTO_VERSION {
            Err(VaultError { kind: VaultErrorKind::IntegrityError })
        } else {
            Ok((pt, off))
        },
    }
}

/// What the next unlock gives of a commit: when the slot just written
/// reads back to the plaintext of a header of the current crypto version,
/// and the other slot is unreadable or holds an older epoch, unlocking
/// chooses the slot just written and its plaintext.
pub proof fn lemma_commit_then_unlock(
    h: VaultHeader,
    bits: Seq<u8>,
    t: Seq<FileTableEntry>,
    other: Result<Seq<u8>, VaultError>,
    target: u64,
)
    requires
        h.spec_crypto_version() == CRYPTO_VERSION,
        target == HEADER_SLOT_A_OFFSET || target == HEADER_SLOT_B_OFFSET,
        other matches Ok(p) ==> plaintext_epoch(p) < h.spec_epoch(),
    ensures
        target == HEADER_SLOT_A_OFFSET ==> unlock_outcome(
            Ok::<Seq<u8>, VaultError>(header_plaintext(h, bits, t)),
            other,
        ) == Ok::<(Seq<u8>, u64), VaultError>((header_plaintext(h, bits, t), target)),
        target == HEADER_SLOT_B_OFFSET ==> unlock_outcome(
            other,
            Ok::<Seq<u8>, VaultError>(header_plaintext(h, bits, t)),
        ) == Ok::<(Seq<u8>, u64), VaultError>((header_plaintext(h, bits, t), target)),
{
    let pt = header_plaintext(h, bits, t);
    let enc = h.encoded();
    lemma_header_fields_from_bytes(h, enc);
    assert(pt.subrange(24, 28) =~= enc.subrange(24, 28));
    assert(pt.subrange(32, 40) =~= enc.subrange(32, 40));
    assert(crate::layout::le32_at(pt, 24) == CRYPTO_VERSION);
    assert(plaintext_epoch(pt) == h.spec_epoch());
}

/// Every entry of a run of checks that passed is active.
proof fn lemma_entries_outcome_ok_each(b: Seq<u8>, n: nat, k: int)
    requires
        entries_outcome(b, n) is Ok,
        0 <= k < n,
    ensures
        entry_parse_outcome(b.subrange(FILE_ENTRY_SIZE * k, FILE_ENTRY_SIZE * k + FILE_ENTRY_SIZE))
            is Ok,
    decreases n,
{
    if k < n - 1 {
        lemma_entries_outcome_ok_each(b, (n - 1) as nat, k);
    }
}

/// What a decoded plaintext gives the session: a valid header record and
/// active entries.
proof fn lemma_decoded_valid(
    h: VaultHeader,
    t: Seq<FileTableEntry>,
    sm: SpaceManager,
    pt: Seq<u8>,
    total_blocks: u64,
)
    requires
        plaintext_outcome(pt, total_blocks) is Ok,
        header_decoded(h, t, sm, pt, total_blocks),
    ensures
        header_check(h.encoded()) is Ok,
        h.spec_crypto_version() == crate::layout::le32_at(pt, 24),
        h.spec_epoch() == plaintext_epoch(pt),
        forall|k: int| 0 <= k < t.len() ==> (#[trigger] t[k]).spec_flags() == 1,
{
    let hb = pt.subrange(0, VAULT_HEADER_SIZE as int);
    lemma_header_fields_from_bytes(h, h.encoded());
    let bs = h.spec_bitmap_size() as int;
    let rest = pt.subrange(VAULT_HEADER_SIZE + bs, pt.len() as int);
    assert(crate::layout::le32_at(pt, 24) == crate::layout::le32_at(hb, 24)) by {
        assert(pt.subrange(24, 28) =~= hb.subrange(24, 28));
    }
    assert(crate::layout::le64_at(pt, 32) == crate::layout::le64_at(hb, 32)) by {
        assert(pt.subrange(32, 40) =~= hb.subrange(32, 40));
    }
    assert forall|k: int| 0 <= k < t.len() implies (#[trigger] t[k]).spec_flags() == 1 by {
        lemma_entries_outcome_ok_each(rest, t.len(), k);
        lemma_entry_check_flags(t[k]);
        assert(rest.subrange(FILE_ENTRY_SIZE * k, FILE_ENTRY_SIZE * k + FILE_ENTRY_SIZE)
            =~= pt.subrange(
            VAULT_HEADER_SIZE + bs + FILE_ENTRY_SIZE * k,
            VAULT_HEADER_SIZE + bs + FILE_ENTRY_SIZE * k + FILE_ENTRY_SIZE,
        ));
    }
}

/// An unlocked vault in memory: its keys, header, file table, block
/// allocator and the header slot last written. Reading and writing the
/// vault file is left to the caller, which follows the plans returned here.
pub struct VaultSession {
    /// Vault id.
    pub vid: [u8; 16],
    kek: crate::types::KeyKEK,
    mk: crate::types::KeyMK,
    header: VaultHeader,
    file_table: Vec<FileTableEntry>,
    space_manager: SpaceManager,
    active_slot_offset: u64,
    superblock: crate::layout::Superblock,
}

impl VaultSession {
    /// The superblock the session keeps in step with its block count.
    pub closed spec fn spec_superblock(&self) -> crate::layout::Superblock {
        self.superblock
    }

    /// Vault id.
    pub closed spec fn spec_vid(&self) -> Seq<u8> {
        self.vid@
    }

    /// Key-encryption key.
    pub closed spec fn spec_kek(&self) -> Seq<u8> {
        self.kek@
    }

    /// Header MAC key.
    pub closed spec fn spec_mk(&self) -> Seq<u8> {
        self.mk@
    }

    /// Header.
    pub closed spec fn spec_header(&self) -> VaultHeader {
        self.header
    }

    /// File table.
    pub closed spec fn spec_table(&self) -> Seq<FileTableEntry> {
        self.file_table@
    }

    /// Block allocator.
    pub closed spec fn spec_space(&self) -> SpaceManager {
        self.space_manager
    }

    /// Offset of the header slot last written.
    pub closed spec fn spec_active_slot(&self) -> u64 {
        self.active_slot_offset
    }

    /// Session invariant: a valid superblock recording the allocator's block
    /// count, a well-formed allocator over a block count within
    /// the format's bounds, a valid header of the current crypto version
    /// listing at least as many entries as the table holds, and active
    /// entries only.
    pub closed spec fn wf(&self) -> bool {
        &&& crate::layout::superblock_check(self.superblock.encoded()) is Ok
        &&& self.superblock.spec_total_blocks() == self.space_manager.total()
        &&& self.space_manager.wf()
        &&& crate::space::RESERVED_BLOCKS <= self.space_manager.total()
            <= crate::config::MAX_TOTAL_BLOCKS
        &&& header_check(self.header.encoded()) is Ok
        &&& self.header.spec_crypto_version() == CRYPTO_VERSION
        &&& self.file_table@.len() <= self.header.spec_entry_count()
        &&& forall|k: int|
            0 <= k < self.file_table@.len() ==> (#[trigger] self.file_table@[k]).spec_flags() == 1
    }

    /// Open a session from a parsed superblock, the derived keys and the
    /// bytes of both header slots (or the error met reading them): errors
    /// and choice of slot as `unlock_outcome` states; the session holds what
    /// the chosen slot decodes to.
    pub fn unlock(
        crypto: &crate::engine::DefaultCryptoEngine,
        superblock: &crate::layout::Superblock,
        kek: crate::types::KeyKEK,
        mk: crate::types::KeyMK,
        slot_a: Result<Vec<u8>, VaultError>,
        slot_b: Result<Vec<u8>, VaultError>,
    ) -> (r: Result<Self, VaultError>)
        requires
            crate::layout::superblock_check(superblock.encoded()) is Ok,
        ensures
            ({
                let total = superblock.spec_total_blocks();
                let out = unlock_outcome(
                    raw_slot_outcome(slot_a, kek@, mk@, total),
                    raw_slot_outcome(slot_b, kek@, mk@, total),
                );
                &&& (r is Ok <==> out is Ok)
                &&& (r matches Err(e) ==> out == Err::<(Seq<u8>, u64), VaultError>(e))
                &&& (r matches Ok(s) ==> {
                    &&& s.wf()
                    &&& s.spec_vid() == superblock.spec_vid()
                    &&& s.spec_kek() == kek@
                    &&& s.spec_mk() == mk@
                    &&& header_decoded(
                        s.spec_header(),
                        s.spec_table(),
                        s.spec_space(),
                        out->Ok_0.0,
                        total,
                    )
                    &&& s.spec_active_slot() == out->Ok_0.1
                    &&& s.spec_superblock() == *superblock
                })
            }),
    {
        let total = superblock.total_blocks();
        proof {
            crate::layout::lemma_superblock_fields_from_bytes(*superblock, superblock.encoded());
        }
        let a = match slot_a {
            Ok(bytes) => open_header_slot(crypto, &kek, &mk, bytes.as_slice(), total),
            Err(e) => Err(e),
        };
        let b = match slot_b {
            Ok(bytes) => open_header_slot(crypto, &kek, &mk, bytes.as_slice(), total),
            Err(e) => Err(e),
        };
        let ghost ga = a;
        let ghost gb = b;
        proof {
            if let Ok(x) = ga {
                lemma_decoded_valid(
                    x.0,
                    x.1@,
                    x.2,
                    raw_slot_outcome(slot_a, kek@, mk@, total)->Ok_0,
                    total,
                );
            }
            if let Ok(y) = gb {
                lemma_decoded_valid(
                    y.0,
                    y.1@,
                    y.2,
                    raw_slot_outcome(slot_b, kek@, mk@, total)->Ok_0,
                    total,
                );
            }
        }
        let (header, file_table, space_manager, active) = select_header_slot(a, b)?;
        if header.crypto_version() != CRYPTO_VERSION {
            return Err(VaultError::new(VaultErrorKind::IntegrityError));
        }
        Ok(VaultSession {
            vid: *superblock.vid(),
            kek,
            mk,
            header,
            file_table,
            space_manager,
            active_slot_offset: active,
            superblock: *superblock,
        })
    }

    /// The superblock's bytes, with the session's block count: written at
    /// offset 0 after a committed header whose bitmap covers a grown vault.
    pub fn superblock_bytes(&self) -> (b: Vec<u8>)
        ensures
            b@ == self.spec_superblock().encoded(),
    {
        self.superblock.to_bytes()
    }

    /// Header of the session.
    pub fn header(&self) -> (h: &VaultHeader)
        ensures
            *h == self.spec_header(),
    {
        &self.header
    }

    /// Entries of the file table.
    pub fn file_table(&self) -> (t: &[FileTableEntry])
        ensures
            t@ == self.spec_table(),
    {
        self.file_table.as_slice()
    }

    /// Offset of the header slot last written.
    pub fn active_slot_offset(&self) -> (o: u64)
        ensures
            o == self.spec_active_slot(),
    {
        self.active_slot_offset
    }

    /// Begin a commit with the given random values: record the entry
    /// count, advance the epoch and seal the header into the other slot.
    /// Returns the slot bytes and where to write them; `finish_commit`
    /// records the write. It fails exactly when the epoch cannot advance
    /// (`OperationFailed`) or the header does not fit its slot
    /// (`CapacityExceeded`), and an error leaves the session as it was. The
    /// slot reads back to the plaintext of the new header, the bitmap and
    /// the table.
    pub fn prepare_commit_with(
        &mut self,
        crypto: &crate::engine::DefaultCryptoEngine,
        draws: SealDraws,
    ) -> (r: Result<
        (Vec<u8>, u64),
        VaultError,
    >)
        requires
            old(self).wf(),
        ensures
            final(self).wf(),
            final(self).spec_vid() == old(self).spec_vid(),
            final(self).spec_kek() == old(self).spec_kek(),
            final(self).spec_mk() == old(self).spec_mk(),
            final(self).spec_table() == old(self).spec_table(),
            final(self).spec_space() == old(self).spec_space(),
            final(self).spec_active_slot() == old(self).spec_active_slot(),
            r is Ok ==> final(self).spec_header().spec_entry_count() == old(self).spec_table().len(),
            old(self).spec_header().spec_epoch() == u64::MAX ==> (r matches Err(e) && e.kind
                == VaultErrorKind::OperationFailed),
            r is Ok ==> final(self).spec_header().spec_epoch() == old(self).spec_header().spec_epoch()
                + 1,
            r matches Err(e) ==> (e.kind == VaultErrorKind::OperationFailed || e.kind
                == VaultErrorKind::CapacityExceeded),
            r is Err ==> *final(self) == *old(self),
            r is Ok <==> (old(self).spec_header().spec_epoch() < u64::MAX && header_fits(
                old(self).spec_space().bits().len(),
                old(self).spec_table().len(),
            )),
            header_fits(old(self).spec_space().bits().len(), old(self).spec_table().len()) ==> (r matches Err(
                e,
            ) ==> e.kind == VaultErrorKind::OperationFailed),
            r matches Ok(out) ==> {
                &&& out.1 == alternate_slot_spec(old(self).spec_active_slot())
                &&& final(self).spec_header().spec_bitmap_size() == final(self).spec_space().bits().len()
                &&& slot_outcome(
                    out.0@,
                    final(self).spec_kek(),
                    final(self).spec_mk(),
                    final(self).spec_space().total() as u64,
                ) == Ok::<Seq<u8>, VaultError>(
                    header_plaintext(
                        final(self).spec_header(),
                        final(self).spec_space().bits(),
                        final(self).spec_table(),
                    ),
                )
            },
    {
        proof {
            lemma_header_fields_from_bytes(self.header, self.header.encoded());
        }
        let saved = self.header;
        let count = self.file_table.len() as u32;
        let ghost h0 = self.header;
        self.header.update_entry_count(count);
        proof {
            crate::layout::lemma_header_setters_keep_frame(h0, self.header);
            lemma_same_frame(self.header, h0, self.header);
        }
        let ghost h1 = self.header;
        match self.header.increment_epoch() {
            Ok(()) => {},
            Err(e) => {
                self.header = saved;
                return Err(e);
            },
        }
        proof {
            crate::layout::lemma_header_setters_keep_frame(h1, self.header);
            lemma_same_frame(self.header, h1, self.header);
        }
        let target = alternate_slot(self.active_slot_offset);
        let ghost h2 = self.header;
        let slot = seal_header_slot_with(
            crypto,
            &self.kek,
            &self.mk,
            &mut self.header,
            self.file_table.as_slice(),
            &self.space_manager,
            draws,
        );
        proof {
            self.space_manager.lemma_wf();
            if self.space_manager.bits().len() <= u32::MAX {
                crate::layout::lemma_header_setters_keep_frame(h2, self.header);
                lemma_same_frame(self.header, h2, self.header);
            }
        }
        let slot = match slot {
            Ok(b) => b,
            Err(e) => {
                self.header = saved;
                return Err(e);
            },
        };
        proof {
            lemma_slot_roundtrip(
                slot@,
                self.kek@,
                self.mk@,
                self.header,
                self.space_manager.bits(),
                self.file_table@,
                self.space_manager.total() as u64,
                self.header,
                self.file_table@,
                self.space_manager,
            );
        }
        Ok((slot, target))
    }

    /// Begin a commit: as `prepare_commit_with`, with random values drawn
    /// from the CSPRNG once the epoch can advance and the header fits.
    /// `OperationFailed` when the epoch cannot advance or the CSPRNG fails;
    /// `CapacityExceeded` exactly when the header does not fit its slot; an
    /// error leaves the session as it was.
    pub fn prepare_commit(&mut self, crypto: &crate::engine::DefaultCryptoEngine) -> (r: Result<
        (Vec<u8>, u64),
        VaultError,
    >)
        requires
            old(self).wf(),
        ensures
            final(self).wf(),
            final(self).spec_vid() == old(self).spec_vid(),
            final(self).spec_kek() == old(self).spec_kek(),
            final(self).spec_mk() == old(self).spec_mk(),
            final(self).spec_table() == old(self).spec_table(),
            final(self).spec_space() == old(self).spec_space(),
            final(self).spec_active_slot() == old(self).spec_active_slot(),
            r is Ok ==> final(self).spec_header().spec_entry_count() == old(self).spec_table().len(),
            old(self).spec_header().spec_epoch() == u64::MAX ==> (r matches Err(e) && e.kind
                == VaultErrorKind::OperationFailed),
            r is Ok ==> final(self).spec_header().spec_epoch() == old(self).spec_header().spec_epoch()
                + 1,
            r matches Err(e) ==> (e.kind == VaultErrorKind::OperationFailed || e.kind
                == VaultErrorKind::CapacityExceeded),
            r matches Err(e) ==> (e.kind == VaultErrorKind::CapacityExceeded <==> (old(
                self,
            ).spec_header().spec_epoch() < u64::MAX && !header_fits(
                old(self).spec_space().bits().len(),
                old(self).spec_table().len(),
            ))),
            r is Err ==> *final(self) == *old(self),
            r matches Ok(out) ==> {
                &&& out.1 == alternate_slot_spec(old(self).spec_active_slot())
                &&& final(self).spec_header().spec_bitmap_size() == final(self).spec_space().bits().len()
                &&& slot_outcome(
                    out.0@,
                    final(self).spec_kek(),
                    final(self).spec_mk(),
                    final(self).spec_space().total() as u64,
                ) == Ok::<Seq<u8>, VaultError>(
                    header_plaintext(
                        final(self).spec_header(),
                        final(self).spec_space().bits(),
                        final(self).spec_table(),
                    ),
                )
            },
    {
        if self.header.epoch() == u64::MAX {
            return Err(VaultError::new(VaultErrorKind::OperationFailed));
        }
        if !header_fits_exec(self.space_manager.bitmap_size(), self.file_table.len()) {
            return Err(VaultError::new(VaultErrorKind::CapacityExceeded));
        }
        let draws = draw_seal(crypto)?;
        self.prepare_commit_with(crypto, draws)
    }

    /// What a failed commit returns to: the header, the active slot and the
    /// table length as they are now.
    pub fn commit_snapshot(&self) -> (s: CommitSnapshot)
        requires
            self.wf(),
        ensures
            s.wf(),
            s.spec_header() == self.spec_header(),
            s.spec_active_slot() == self.spec_active_slot(),
            s.spec_table_len() == self.spec_table().len(),
    {
        CommitSnapshot {
            header: self.header,
            active_slot_offset: self.active_slot_offset,
            table_len: self.file_table.len(),
        }
    }

    /// Go back to a snapshot after a commit whose slot could not be written:
    /// the header and active slot become the snapshot's, and entries added
    /// since the snapshot leave the table (entries taken out stay out).
    pub fn restore_commit(&mut self, snap: CommitSnapshot)
        requires
            old(self).wf(),
            snap.wf(),
        ensures
            final(self).wf(),
            final(self).spec_vid() == old(self).spec_vid(),
            final(self).spec_kek() == old(self).spec_kek(),
            final(self).spec_mk() == old(self).spec_mk(),
            final(self).spec_space() == old(self).spec_space(),
            final(self).spec_header() == snap.spec_header(),
            final(self).spec_active_slot() == snap.spec_active_slot(),
            final(self).spec_table() == old(self).spec_table().subrange(
                0,
                if snap.spec_table_len() < old(self).spec_table().len() {
                    snap.spec_table_len() as int
                } else {
                    old(self).spec_table().len() as int
                },
            ),
    {
        let ghost t0 = self.file_table@;
        self.file_table.truncate(snap.table_len);
        proof {
            if t0.len() <= snap.table_len {
                assert(self.file_table@ =~= t0.subrange(0, t0.len() as int));
            } else {
                assert(self.file_table@ =~= t0.subrange(0, snap.table_len as int));
            }
        }
        self.header = snap.header;
        self.active_slot_offset = snap.active_slot_offset;
    }

    /// Record that the slot at `target` was written.
    pub fn finish_commit(&mut self, target: u64)
        ensures
            final(self).spec_active_slot() == target,
            final(self).spec_vid() == old(self).spec_vid(),
            final(self).spec_kek() == old(self).spec_kek(),
            final(self).spec_mk() == old(self).spec_mk(),
            final(self).spec_header() == old(self).spec_header(),
            final(self).spec_table() == old(self).spec_table(),
            final(self).spec_space() == old(self).spec_space(),
            old(self).wf() ==> final(self).wf(),
    {
        self.active_slot_offset = target;
    }

    /// Index of the first entry with the given object id, if any.
    pub fn find_entry(&self, object_id: &[u8; 16]) -> (r: Option<usize>)
        ensures
            r matches Some(i) ==> i == first_index_of(self.spec_table(), object_id@),
            r is None ==> first_index_of(self.spec_table(), object_id@) == -1,
            r matches Some(i) ==> i < self.spec_table().len() && self.spec_table()[i as int].spec_object_id()
                == object_id@ && forall|k: int|
                0 <= k < i ==> (#[trigger] self.spec_table()[k]).spec_object_id() != object_id@,
            r is None ==> forall|k: int|
                0 <= k < self.spec_table().len() ==> (#[trigger] self.spec_table()[k]).spec_object_id()
                    != object_id@,
    {
        let mut i: usize = 0;
        while i < self.file_table.len()
            invariant
                i <= self.file_table@.len(),
                forall|k: int|
                    0 <= k < i ==> (#[trigger] self.file_table@[k]).spec_object_id() != object_id@,
            decreases self.file_table@.len() - i,
        {
            if crate::layout::bytes_eq(self.file_table[i].object_id(), object_id) {
                proof {
                    lemma_first_index_of(self.file_table@, object_id@, i as int);
                }
                return Some(i);
            }
            i = i + 1;
        }
        proof {
            lemma_first_index_of(self.file_table@, object_id@, -1);
        }
        None
    }
}

/// The other header slot, as a spec value.
pub open spec fn alternate_slot_spec(current: u64) -> u64 {
    if current == HEADER_SLOT_A_OFFSET {
        HEADER_SLOT_B_OFFSET
    } else {
        HEADER_SLOT_A_OFFSET
    }
}

// =============================================================================
// OBJECT OPERATIONS
// =============================================================================

/// Checks of an object about to be added, in order: no NUL in its type or
/// purpose (`InvalidInput`), a size that is neither zero nor over the vault
/// maximum (`ParameterOutOfRange`), room for one more object
/// (`CapacityExceeded`).
pub open spec fn add_input_check(
    object_type: Seq<u8>,
    purpose: Seq<u8>,
    data_len: u64,
    entry_count: u32,
) -> Result<(), VaultError> {
    if object_type.contains(0u8) || purpose.contains(0u8) {
        Err(VaultError { kind: VaultErrorKind::InvalidInput })
    } else if data_len == 0 {
        Err(VaultError { kind: VaultErrorKind::ParameterOutOfRange })
    } else if data_len > crate::config::MAX_TOTAL_BLOCKS * BLOCK_SIZE {
        Err(VaultError { kind: VaultErrorKind::ParameterOutOfRange })
    } else if entry_count >= crate::config::MAX_OBJECTS {
        Err(VaultError { kind: VaultErrorKind::CapacityExceeded })
    } else {
        Ok(())
    }
}

/// Blocks that `data_len` plaintext bytes take once sealed (0 where the
/// sizes overflow).
pub open spec fn add_blocks(data_len: u64) -> u64 {
    match stream_sizes_spec(data_len) {
        Some((_, b, _)) => b,
        None => 0,
    }
}

/// The space of `sm` refuses `count` blocks with `e`: the allocation fails
/// with an error other than `VaultFull`; or it fails with `VaultFull` and
/// growing by `count + 1024` blocks would pass the block limit
/// (`CapacityExceeded`).
pub open spec fn space_refusal(sm: SpaceManager, count: u64, e: VaultError) -> bool {
    ||| (e.kind != VaultErrorKind::VaultFull && crate::space::allocate_post(
        sm,
        sm,
        count,
        Err::<u64, VaultError>(e),
    ))
    ||| (crate::space::allocate_post(
        sm,
        sm,
        count,
        Err::<u64, VaultError>(VaultError { kind: VaultErrorKind::VaultFull }),
    ) && sm.total() + count + 1024 > crate::config::MAX_TOTAL_BLOCKS && e.kind
        == VaultErrorKind::CapacityExceeded)
}

/// Authenticated data of a stored object: its id, the crypto version, the
/// epoch it was written in and its purpose field.
pub open spec fn object_aad_spec(oid: Seq<u8>, version: u32, epoch: u64, purpose: Seq<u8>) -> Seq<
    u8,
> {
    oid + crate::codec::be32(version) + crate::codec::be64(epoch)
        + crate::engine::user_purpose_bytes(purpose)
}

/// Where and how an object is to be stored: the caller writes the wrapped
/// key at `offset`, then a fresh stream nonce, then the sealed stream of
/// the data under `dek` and `aad`, growing the file first to
/// `grown_file_len` when the allocator had to grow.
pub struct AddPlan {
    /// New object id.
    pub object_id: [u8; 16],
    /// Data key of the object.
    pub dek: crate::types::KeyKEK,
    /// Authenticated data of every chunk.
    pub aad: AadContext,
    /// The data key wrapped under the key-encryption key.
    pub wrapped_dek: [u8; 72],
    /// First allocated block.
    pub start_block: u64,
    /// Number of allocated blocks.
    pub num_blocks: u64,
    /// File offset of the first allocated block.
    pub offset: u64,
    /// Size of the sealed stream (chunks, tags, MAC).
    pub encrypted_payload_size: u64,
    /// New file length when the allocator grew.
    pub grown_file_len: Option<u64>,
    /// Plaintext size.
    pub data_len: u64,
    /// Object type field.
    pub object_type: [u8; 32],
    /// Purpose field.
    pub purpose: [u8; 32],
}

/// The file-table fields of a stored object, read back for decryption.
pub struct ReadPlan {
    /// Data key of the object.
    pub dek: crate::types::KeyKEK,
    /// Authenticated data of every chunk.
    pub aad: AadContext,
    /// File offset of the stream nonce.
    pub nonce_offset: u64,
    /// Plaintext size.
    pub data_len: u64,
}

/// Listing of a stored object.
#[derive(Debug, Clone)]
pub struct ObjectMeta {
    /// Object id.
    pub object_id: [u8; 16],
    /// Object type, without NUL padding.
    pub object_type: String,
    /// Purpose, without NUL padding.
    pub purpose: String,
    /// Plaintext size.
    pub size: u64,
}

/// A field decodes as UTF-8.
pub open spec fn field_decodes(b: Seq<u8>) -> bool {
    vstd::utf8::valid_utf8(b)
}

/// The text of a field: its UTF-8 decoding without NUL padding.
pub open spec fn field_text(b: Seq<u8>) -> Seq<char> {
    crate::util::trim_nul_spec(vstd::utf8::decode_utf8(b))
}

/// UTF-8 encoding distributes over concatenation.
proof fn lemma_encode_utf8_concat(a: Seq<char>, b: Seq<char>)
    ensures
        vstd::utf8::encode_utf8(a + b) == vstd::utf8::encode_utf8(a) + vstd::utf8::encode_utf8(b),
    decreases a.len(),
{
    if a.len() > 0 {
        assert((a + b).drop_first() =~= a.drop_first() + b);
        assert((a + b)[0] == a[0]);
        lemma_encode_utf8_concat(a.drop_first(), b);
        assert(vstd::utf8::encode_utf8(a + b) =~= vstd::utf8::encode_utf8(a) + vstd::utf8::encode_utf8(
            b,
        ));
    } else {
        assert(a + b =~= b);
    }
}

/// NUL characters at both ends are trimmed off a text that holds none.
proof fn lemma_trim_nul_padding(s: Seq<char>, k: nat)
    requires
        !s.contains('\0'),
    ensures
        crate::util::trim_nul_spec(s + Seq::new(k, |i: int| '\0')) == s,
{
    let pad = Seq::new(k, |i: int| '\0');
    lemma_trim_end_nul(s, k);
    if s.len() > 0 {
        assert((s + pad)[0] == s[0]);
        assert(s[0] != '\0');
    } else {
        lemma_trim_start_all_nul(k);
        assert(s + pad =~= pad);
    }
    reveal_with_fuel(crate::util::trim_start_nul_spec, 2);
}

proof fn lemma_trim_end_nul(s: Seq<char>, k: nat)
    requires
        !s.contains('\0'),
    ensures
        crate::util::trim_end_nul_spec(s + Seq::new(k, |i: int| '\0')) == s,
    decreases k,
{
    let t = s + Seq::new(k, |i: int| '\0');
    if k > 0 {
        assert(t.drop_last() =~= s + Seq::new((k - 1) as nat, |i: int| '\0'));
        lemma_trim_end_nul(s, (k - 1) as nat);
    } else {
        assert(t =~= s);
        if s.len() > 0 {
            assert(s.last() != '\0') by {
                assert(s[s.len() - 1] == s.last());
            }
        }
    }
}

proof fn lemma_trim_start_all_nul(k: nat)
    ensures
        crate::util::trim_start_nul_spec(Seq::new(k, |i: int| '\0')) == Seq::<char>::empty(),
    decreases k,
{
    let t = Seq::new(k, |i: int| '\0');
    if k > 0 {
        assert(t.drop_first() =~= Seq::new((k - 1) as nat, |i: int| '\0'));
        lemma_trim_start_all_nul((k - 1) as nat);
    } else {
        assert(t =~= Seq::<char>::empty());
    }
}

/// What a listing gives back of a short name: a text without NUL whose
/// UTF-8 encoding fits the 32-byte field is stored NUL-padded and listed
/// back exactly.
pub proof fn lemma_short_field_lists_back(s: Seq<char>)
    requires
        !s.contains('\0'),
        vstd::utf8::encode_utf8(s).len() <= 32,
    ensures
        field_decodes(fixed_bytes_spec(vstd::utf8::encode_utf8(s), 32)),
        field_text(fixed_bytes_spec(vstd::utf8::encode_utf8(s), 32)) == s,
{
    broadcast use vstd::utf8::encode_utf8_decode_utf8, vstd::utf8::encode_utf8_valid_utf8;

    let e = vstd::utf8::encode_utf8(s);
    let k = (32 - e.len()) as nat;
    let pad = Seq::new(k, |i: int| '\0');
    assert(vstd::utf8::is_ascii_chars(pad));
    vstd::utf8::is_ascii_chars_encode_utf8(pad);
    lemma_encode_utf8_concat(s, pad);
    assert(fixed_bytes_spec(e, 32) =~= vstd::utf8::encode_utf8(s + pad));
    lemma_trim_nul_padding(s, k);
}

/// `grown` is `old` grown to `new`'s block count (old bytes kept, new bytes
/// free) and `new` is `grown` after allocating `count` blocks at `start`.
pub open spec fn grown_alloc(
    old: SpaceManager,
    grown: SpaceManager,
    new: SpaceManager,
    count: u64,
    start: u64,
) -> bool {
    &&& grown.total() == new.total()
    &&& grown.bits().len() >= old.bits().len()
    &&& grown.bits().subrange(0, old.bits().len() as int) == old.bits()
    &&& forall|k: int| old.bits().len() <= k < grown.bits().len() ==> #[trigger] grown.bits()[k] == 0u8
    &&& crate::space::allocate_post(grown, new, count, Ok(start))
}

/// Some growth of `old` was allocated into `new` as `grown_alloc` states.
pub open spec fn grown_then_allocated(old: SpaceManager, new: SpaceManager, count: u64, start: u64) -> bool {
    exists|grown: SpaceManager| #[trigger] grown_alloc(old, grown, new, count, start)
}

/// Index of the first entry of `t` with object id `oid`, or -1.
pub open spec fn first_index_of(t: Seq<FileTableEntry>, oid: Seq<u8>) -> int
    decreases t.len(),
{
    if t.len() == 0 {
        -1
    } else {
        let k = first_index_of(t.drop_last(), oid);
        if k >= 0 {
            k
        } else if t.last().spec_object_id() == oid {
            t.len() - 1
        } else {
            -1
        }
    }
}

/// `first_index_of` is the least index holding the id (or -1 when none
/// does).
pub proof fn lemma_first_index_of(t: Seq<FileTableEntry>, oid: Seq<u8>, i: int)
    requires
        -1 <= i < t.len(),
        i >= 0 ==> t[i].spec_object_id() == oid,
        forall|k: int| 0 <= k < t.len() && (i < 0 || k < i) ==> (#[trigger] t[k]).spec_object_id() != oid,
    ensures
        first_index_of(t, oid) == i,
    decreases t.len(),
{
    if t.len() > 0 {
        let p = t.drop_last();
        if i == t.len() - 1 {
            assert forall|k: int| 0 <= k < p.len() implies (#[trigger] p[k]).spec_object_id() != oid by {
                assert(p[k] == t[k]);
            }
            lemma_first_index_of(p, oid, -1);
        } else if i >= 0 {
            assert forall|k: int| 0 <= k < p.len() && k < i implies (#[trigger] p[k]).spec_object_id() != oid by {
                assert(p[k] == t[k]);
            }
            assert(p[i] == t[i]);
            lemma_first_index_of(p, oid, i);
        } else {
            assert forall|k: int| 0 <= k < p.len() implies (#[trigger] p[k]).spec_object_id() != oid by {
                assert(p[k] == t[k]);
            }
            lemma_first_index_of(p, oid, -1);
        }
    }
}

/// What reading an object yields, in the order the checks are made: the
/// first entry with the id (`ObjectNotFound` when none); `IntegrityError`
/// when it is newer than the header; its data key unwrapped under its
/// authenticated data (the unwrap's error otherwise); `IntegrityError`
/// when its sizes overflow; else the key, the authenticated data, the
/// offset of its stream nonce and its size.
pub open spec fn read_result_spec(
    kek: Seq<u8>,
    header: VaultHeader,
    t: Seq<FileTableEntry>,
    oid: Seq<u8>,
) -> Result<(Seq<u8>, Seq<u8>, u64, u64), VaultErrorKind> {
    let i = first_index_of(t, oid);
    if i < 0 {
        Err(VaultErrorKind::ObjectNotFound)
    } else {
        let e = t[i];
        let aad = object_aad_spec(oid, header.spec_crypto_version(), e.spec_epoch(), e.spec_purpose());
        if e.spec_epoch() > header.spec_epoch() {
            Err(VaultErrorKind::IntegrityError)
        } else {
            match crate::engine::unwrap_spec(kek, e.spec_wrapped_dek(), aad) {
                Err(k) => Err(k),
                Ok(dek) => if stream_sizes_spec(e.spec_size()) is None {
                    Err(VaultErrorKind::IntegrityError)
                } else {
                    Ok(
                        (
                            dek,
                            aad,
                            (DATA_REGION_START + e.spec_start_block() * BLOCK_SIZE
                                + WRAPPED_DEK_SIZE) as u64,
                            e.spec_size(),
                        ),
                    )
                },
            }
        }
    }
}

/// What a read gives back of an added object, whole: when its entry was
/// appended to a table that did not hold its id, and its data was cut into
/// the stream's chunks and sealed by the encryptor under the entry's data
/// key and authenticated data, the read plan hands back that key and
/// authenticated data, and the decryptor, expecting the entry's size, gives
/// back every chunk in order.
pub proof fn lemma_added_object_decrypts(
    kek: Seq<u8>,
    header: VaultHeader,
    before: Seq<FileTableEntry>,
    after: Seq<FileTableEntry>,
    oid: Seq<u8>,
    dek: Seq<u8>,
    aad: Seq<u8>,
    add_epoch: u64,
    base: Seq<u8>,
    cs: Seq<Seq<u8>>,
    outs: Seq<Seq<u8>>,
)
    requires
        after.len() == before.len() + 1,
        after.drop_last() == before,
        after.last().spec_object_id() == oid,
        after.last().spec_epoch() == add_epoch,
        aad == object_aad_spec(oid, header.spec_crypto_version(), add_epoch, after.last().spec_purpose()),
        crate::engine::unwrap_spec(kek, after.last().spec_wrapped_dek(), aad) == Ok::<
            Seq<u8>,
            VaultErrorKind,
        >(dek),
        stream_sizes_spec(after.last().spec_size()) is Some,
        add_epoch <= header.spec_epoch(),
        forall|k: int| 0 <= k < before.len() ==> (#[trigger] before[k]).spec_object_id() != oid,
        crate::engine::stream_chunks(cs),
        outs.len() == cs.len(),
        crate::engine::lens_before(cs, cs.len() as int) == after.last().spec_size(),
        forall|i: int|
            0 <= i < cs.len() ==> {
                &&& crate::engine::chunk_nonce(base, i as u64) is Some
                &&& #[trigger] outs[i] == crate::primitives::xchacha20poly1305_seal(
                    dek,
                    crate::engine::chunk_nonce(base, i as u64)->0,
                    aad,
                    cs[i],
                )
                &&& crate::primitives::xchacha20poly1305_open(
                    dek,
                    crate::engine::chunk_nonce(base, i as u64)->0,
                    aad,
                    outs[i],
                ) == Some(cs[i])
                &&& outs[i].len() == cs[i].len() + 16
            },
    ensures
        read_result_spec(kek, header, after, oid) matches Ok(out) && out.0 == dek && out.1 == aad
            && out.3 == after.last().spec_size(),
        forall|i: int|
            0 <= i < cs.len() ==> #[trigger] crate::engine::decrypt_chunk_spec(
                dek,
                aad,
                base,
                i as u64,
                after.last().spec_size(),
                crate::engine::lens_before(cs, i) as u64,
                outs[i],
            ) == Ok::<Seq<u8>, VaultErrorKind>(cs[i]),
{
    lemma_added_object_reads_back(kek, header, before, after, oid, dek, aad, add_epoch);
    crate::engine::lemma_stream_reads_back(dek, aad, base, cs, outs);
}

/// What a read gives after a delete: once the one entry with an id is
/// taken out of the table, reading that id finds nothing.
pub proof fn lemma_taken_object_not_found(
    kek: Seq<u8>,
    header: VaultHeader,
    t: Seq<FileTableEntry>,
    i: int,
    oid: Seq<u8>,
)
    requires
        0 <= i < t.len(),
        t[i].spec_object_id() == oid,
        forall|k: int| 0 <= k < t.len() && k != i ==> (#[trigger] t[k]).spec_object_id() != oid,
    ensures
        read_result_spec(kek, header, t.remove(i), oid) == Err::<
            (Seq<u8>, Seq<u8>, u64, u64),
            VaultErrorKind,
        >(VaultErrorKind::ObjectNotFound),
{
    let r = t.remove(i);
    assert forall|k: int| 0 <= k < r.len() implies (#[trigger] r[k]).spec_object_id() != oid by {
        if k < i {
            assert(r[k] == t[k]);
        } else {
            assert(r[k] == t[k + 1]);
        }
    }
    lemma_first_index_of(r, oid, -1);
}

/// What a read gives back of a write: an object appended to a table that
/// did not hold its id reads back with exactly the data key, authenticated
/// data, nonce position and size it was stored with, as long as the header
/// is not older than the object.
pub proof fn lemma_added_object_reads_back(
    kek: Seq<u8>,
    header: VaultHeader,
    before: Seq<FileTableEntry>,
    after: Seq<FileTableEntry>,
    oid: Seq<u8>,
    dek: Seq<u8>,
    aad: Seq<u8>,
    add_epoch: u64,
)
    requires
        after.len() == before.len() + 1,
        after.drop_last() == before,
        after.last().spec_object_id() == oid,
        after.last().spec_epoch() == add_epoch,
        aad == object_aad_spec(oid, header.spec_crypto_version(), add_epoch, after.last().spec_purpose()),
        crate::engine::unwrap_spec(kek, after.last().spec_wrapped_dek(), aad) == Ok::<
            Seq<u8>,
            VaultErrorKind,
        >(dek),
        stream_sizes_spec(after.last().spec_size()) is Some,
        add_epoch <= header.spec_epoch(),
        forall|k: int| 0 <= k < before.len() ==> (#[trigger] before[k]).spec_object_id() != oid,
    ensures
        read_result_spec(kek, header, after, oid) == Ok::<(Seq<u8>, Seq<u8>, u64, u64), VaultErrorKind>(
            (
                dek,
                aad,
                (DATA_REGION_START + after.last().spec_start_block() * BLOCK_SIZE
                    + WRAPPED_DEK_SIZE) as u64,
                after.last().spec_size(),
            ),
        ),
{
    assert forall|k: int| 0 <= k < after.len() && k < after.len() - 1 implies (
    #[trigger] after[k]).spec_object_id() != oid by {
        assert(after[k] == before[k]);
    }
    lemma_first_index_of(after, oid, after.len() - 1);
}

/// The header, active slot and table length of a session at one moment,
/// to return to when a commit's write fails.
pub struct CommitSnapshot {
    header: VaultHeader,
    active_slot_offset: u64,
    table_len: usize,
}

impl CommitSnapshot {
    /// The header.
    pub closed spec fn spec_header(&self) -> VaultHeader {
        self.header
    }

    /// The active slot's offset.
    pub closed spec fn spec_active_slot(&self) -> u64 {
        self.active_slot_offset
    }

    /// The table length.
    pub closed spec fn spec_table_len(&self) -> nat {
        self.table_len as nat
    }

    /// Taken from a well-formed session: a valid header of this crypto
    /// version counting at least the table's entries.
    pub closed spec fn wf(&self) -> bool {
        &&& header_check(self.header.encoded()) is Ok
        &&& self.header.spec_crypto_version() == CRYPTO_VERSION
        &&& self.table_len <= self.header.spec_entry_count()
    }
}

impl VaultSession {
    /// Plan the storage of a new object of `data_len` bytes under the given
    /// id and data key, wrapped under the given nonce. Input errors as
    /// `add_input_check` states, with nothing changed; then the sizes and a
    /// first-fit allocation; when the vault is full the allocator first
    /// grows by the object's blocks plus 1024. With valid input it fails
    /// exactly when the space refuses (`space_refusal`), and then changes
    /// nothing.
    pub fn plan_add_with(
        &mut self,
        crypto: &crate::engine::DefaultCryptoEngine,
        object_type: &str,
        purpose: &str,
        data_len: u64,
        object_id: [u8; 16],
        dek: crate::types::KeyKEK,
        wrap_nonce: crate::engine::ConsumedNonce,
    ) -> (r: Result<AddPlan, VaultError>)
        requires
            old(self).wf(),
        ensures
            final(self).wf(),
            final(self).spec_vid() == old(self).spec_vid(),
            final(self).spec_kek() == old(self).spec_kek(),
            final(self).spec_mk() == old(self).spec_mk(),
            final(self).spec_header() == old(self).spec_header(),
            final(self).spec_table() == old(self).spec_table(),
            final(self).spec_active_slot() == old(self).spec_active_slot(),
            add_input_check(
                object_type.spec_bytes(),
                purpose.spec_bytes(),
                data_len,
                old(self).spec_header().spec_entry_count(),
            ) matches Err(e) ==> r == Err::<AddPlan, VaultError>(e) && *final(self) == *old(self),
            add_input_check(
                object_type.spec_bytes(),
                purpose.spec_bytes(),
                data_len,
                old(self).spec_header().spec_entry_count(),
            ) is Ok ==> (r matches Err(e) ==> {
                &&& *final(self) == *old(self)
                &&& space_refusal(old(self).spec_space(), add_blocks(data_len), e)
            }),
            r matches Ok(plan) ==> {
                &&& add_input_check(
                    object_type.spec_bytes(),
                    purpose.spec_bytes(),
                    data_len,
                    old(self).spec_header().spec_entry_count(),
                ) is Ok
                &&& final(self).spec_table().len() < crate::config::MAX_OBJECTS
                &&& plan.data_len == data_len
                &&& plan.object_id@ == object_id@
                &&& plan.dek@ == dek@
                &&& plan.wrapped_dek@.subrange(0, 24) == wrap_nonce@
                &&& plan.object_type@ == fixed_bytes_spec(object_type.spec_bytes(), 32)
                &&& plan.purpose@ == fixed_bytes_spec(purpose.spec_bytes(), 32)
                &&& plan.aad@ == object_aad_spec(
                    plan.object_id@,
                    old(self).spec_header().spec_crypto_version(),
                    old(self).spec_header().spec_epoch(),
                    plan.purpose@,
                )
                &&& crate::engine::unwrap_spec(old(self).spec_kek(), plan.wrapped_dek@, plan.aad@)
                    == Ok::<Seq<u8>, VaultErrorKind>(plan.dek@)
                &&& stream_sizes_spec(data_len) matches Some((enc, blocks, chunks))
                    && plan.encrypted_payload_size == enc && plan.num_blocks == blocks
                &&& plan.offset == DATA_REGION_START + plan.start_block * BLOCK_SIZE
                &&& plan.start_block + plan.num_blocks <= final(self).spec_space().total()
                &&& (plan.grown_file_len is None ==> final(self).spec_superblock() == old(
                    self,
                ).spec_superblock())
                &&& (plan.grown_file_len is Some ==> crate::layout::same_but_total(
                    old(self).spec_superblock(),
                    final(self).spec_superblock(),
                ))
                &&& (plan.grown_file_len is None ==> crate::space::allocate_post(
                    old(self).spec_space(),
                    final(self).spec_space(),
                    plan.num_blocks,
                    Ok(plan.start_block),
                ))
                &&& (plan.grown_file_len matches Some(len) ==> {
                    &&& final(self).spec_space().total() == old(self).spec_space().total()
                        + plan.num_blocks + 1024
                    &&& len == final(self).spec_space().total() * BLOCK_SIZE
                    &&& grown_then_allocated(
                        old(self).spec_space(),
                        final(self).spec_space(),
                        plan.num_blocks,
                        plan.start_block,
                    )
                })
            },
    {
        if contains_nul(object_type) || contains_nul(purpose) {
            return Err(VaultError::new(VaultErrorKind::InvalidInput));
        }
        if data_len == 0 {
            return Err(VaultError::new(VaultErrorKind::ParameterOutOfRange));
        }
        let max_data_len = crate::config::MAX_TOTAL_BLOCKS * (BLOCK_SIZE as u64);
        if data_len > max_data_len {
            return Err(VaultError::new(VaultErrorKind::ParameterOutOfRange));
        }
        if self.header.entry_count() >= crate::config::MAX_OBJECTS {
            return Err(VaultError::new(VaultErrorKind::CapacityExceeded));
        }
        let purpose_bytes: [u8; 32] = string_to_fixed_bytes(purpose);
        let type_bytes: [u8; 32] = string_to_fixed_bytes(object_type);
        let aad = AadBuilder::new().object_id(ObjectId::new(object_id)).version(
            CryptoVersion::new(self.header.crypto_version()),
        ).epoch(Epoch::new(self.header.epoch())).purpose(
            AadPurpose::UserPurpose(purpose_bytes),
        ).build()?;
        let wrapped_dek = crypto.wrap_dek_with(&self.kek, &dek, &aad, wrap_nonce);
        let (encrypted_payload_size, num_blocks) = calculate_required_blocks(data_len)?;
        let ghost sm0 = self.space_manager;
        let mut grown_file_len: Option<u64> = None;
        let start_block = match self.space_manager.allocate(num_blocks) {
            Ok(b) => b,
            Err(e) => {
                if e.kind == VaultErrorKind::VaultFull {
                    let additional_blocks = num_blocks + 1024;
                    self.space_manager.expand(additional_blocks)?;
                    proof {
                        self.space_manager.lemma_wf();
                        crate::layout::lemma_superblock_fields_from_bytes(
                            self.superblock,
                            self.superblock.encoded(),
                        );
                    }
                    self.superblock = self.superblock.with_total_blocks(
                        self.space_manager.total_blocks(),
                    );
                    let ghost grown = self.space_manager;
                    grown_file_len = Some(self.space_manager.total_blocks() * (BLOCK_SIZE as u64));
                    let again = self.space_manager.allocate(num_blocks);
                    let s = match again {
                        Ok(s) => s,
                        Err(e2) => {
                            proof {
                                crate::space::lemma_allocate_after_growth(
                                    sm0,
                                    grown,
                                    num_blocks,
                                    self.spec_space(),
                                    e2,
                                );
                            }
                            return Err(e2);
                        },
                    };
                    assert(grown.bits().subrange(0, sm0.bits().len() as int) == sm0.bits());
                    assert(crate::space::allocate_post(
                        grown,
                        self.spec_space(),
                        num_blocks,
                        Ok::<u64, VaultError>(s),
                    ));
                    assert(forall|k: int|
                        sm0.bits().len() <= k < grown.bits().len() ==> #[trigger] grown.bits()[k]
                            == 0u8);
                    proof {
                        sm0.lemma_wf();
                        grown.lemma_wf();
                    }
                    assert(grown_alloc(sm0, grown, self.spec_space(), num_blocks, s));
                    assert(grown_then_allocated(sm0, self.spec_space(), num_blocks, s));
                    s
                } else {
                    return Err(e);
                }
            },
        };
        let offset = calculate_data_offset(start_block)?;
        Ok(AddPlan {
            object_id,
            dek,
            aad,
            wrapped_dek,
            start_block,
            num_blocks,
            offset,
            encrypted_payload_size,
            grown_file_len,
            data_len,
            object_type: type_bytes,
            purpose: purpose_bytes,
        })
    }

    /// Plan the storage of a new object of `data_len` bytes. Input errors
    /// as `add_input_check` states, with nothing changed; then a random id,
    /// a fresh data key wrapped under the key-encryption key, the sizes, and
    /// a first-fit allocation; when the vault is full the allocator first
    /// grows by the object's blocks plus 1024 (its own errors pass through).
    /// With valid input it fails only when the CSPRNG does
    /// (`OperationFailed`) or the space refuses (`space_refusal`), and then
    /// changes nothing. After the random draws it is `plan_add_with`.
    pub fn prepare_add(
        &mut self,
        crypto: &crate::engine::DefaultCryptoEngine,
        object_type: &str,
        purpose: &str,
        data_len: u64,
    ) -> (r: Result<AddPlan, VaultError>)
        requires
            old(self).wf(),
        ensures
            final(self).wf(),
            final(self).spec_vid() == old(self).spec_vid(),
            final(self).spec_kek() == old(self).spec_kek(),
            final(self).spec_mk() == old(self).spec_mk(),
            final(self).spec_header() == old(self).spec_header(),
            final(self).spec_table() == old(self).spec_table(),
            final(self).spec_active_slot() == old(self).spec_active_slot(),
            add_input_check(
                object_type.spec_bytes(),
                purpose.spec_bytes(),
                data_len,
                old(self).spec_header().spec_entry_count(),
            ) matches Err(e) ==> r == Err::<AddPlan, VaultError>(e) && *final(self) == *old(self),
            add_input_check(
                object_type.spec_bytes(),
                purpose.spec_bytes(),
                data_len,
                old(self).spec_header().spec_entry_count(),
            ) is Ok ==> (r matches Err(e) ==> {
                &&& *final(self) == *old(self)
                &&& (e.kind == VaultErrorKind::OperationFailed || space_refusal(
                    old(self).spec_space(),
                    add_blocks(data_len),
                    e,
                ))
            }),
            r matches Ok(plan) ==> {
                &&& add_input_check(
                    object_type.spec_bytes(),
                    purpose.spec_bytes(),
                    data_len,
                    old(self).spec_header().spec_entry_count(),
                ) is Ok
                &&& final(self).spec_table().len() < crate::config::MAX_OBJECTS
                &&& plan.data_len == data_len
                &&& plan.object_type@ == fixed_bytes_spec(object_type.spec_bytes(), 32)
                &&& plan.purpose@ == fixed_bytes_spec(purpose.spec_bytes(), 32)
                &&& plan.aad@ == object_aad_spec(
                    plan.object_id@,
                    old(self).spec_header().spec_crypto_version(),
                    old(self).spec_header().spec_epoch(),
                    plan.purpose@,
                )
                &&& crate::engine::unwrap_spec(old(self).spec_kek(), plan.wrapped_dek@, plan.aad@)
                    == Ok::<Seq<u8>, VaultErrorKind>(plan.dek@)
                &&& stream_sizes_spec(data_len) matches Some((enc, blocks, chunks))
                    && plan.encrypted_payload_size == enc && plan.num_blocks == blocks
                &&& plan.offset == DATA_REGION_START + plan.start_block * BLOCK_SIZE
                &&& plan.start_block + plan.num_blocks <= final(self).spec_space().total()
                &&& (plan.grown_file_len is None ==> final(self).spec_superblock() == old(
                    self,
                ).spec_superblock())
                &&& (plan.grown_file_len is Some ==> crate::layout::same_but_total(
                    old(self).spec_superblock(),
                    final(self).spec_superblock(),
                ))
                &&& (plan.grown_file_len is None ==> crate::space::allocate_post(
                    old(self).spec_space(),
                    final(self).spec_space(),
                    plan.num_blocks,
                    Ok(plan.start_block),
                ))
                &&& (plan.grown_file_len matches Some(len) ==> {
                    &&& final(self).spec_space().total() == old(self).spec_space().total()
                        + plan.num_blocks + 1024
                    &&& len == final(self).spec_space().total() * BLOCK_SIZE
                    &&& grown_then_allocated(
                        old(self).spec_space(),
                        final(self).spec_space(),
                        plan.num_blocks,
                        plan.start_block,
                    )
                })
            },
    {
        if contains_nul(object_type) || contains_nul(purpose) {
            return Err(VaultError::new(VaultErrorKind::InvalidInput));
        }
        if data_len == 0 {
            return Err(VaultError::new(VaultErrorKind::ParameterOutOfRange));
        }
        let max_data_len = crate::config::MAX_TOTAL_BLOCKS * (BLOCK_SIZE as u64);
        if data_len > max_data_len {
            return Err(VaultError::new(VaultErrorKind::ParameterOutOfRange));
        }
        if self.header.entry_count() >= crate::config::MAX_OBJECTS {
            return Err(VaultError::new(VaultErrorKind::CapacityExceeded));
        }
        let oid_vec = crypto.csprng(16)?;
        let object_id: [u8; 16] = crate::codec::copy_array(oid_vec.as_slice(), 0);
        let dek = crypto.generate_dek()?;
        let wrap_nonce = crate::engine::NonceFactory::generate()?;
        self.plan_add_with(
            crypto,
            object_type,
            purpose,
            data_len,
            object_id,
            dek,
            crate::engine::ConsumedNonce::new(wrap_nonce),
        )
    }

    /// Give back the blocks of a plan whose data could not be written.
    pub fn abort_add(&mut self, plan: &AddPlan) -> (r: Result<(), VaultError>)
        requires
            old(self).wf(),
        ensures
            final(self).wf(),
            final(self).spec_vid() == old(self).spec_vid(),
            final(self).spec_kek() == old(self).spec_kek(),
            final(self).spec_mk() == old(self).spec_mk(),
            final(self).spec_header() == old(self).spec_header(),
            final(self).spec_table() == old(self).spec_table(),
            final(self).spec_active_slot() == old(self).spec_active_slot(),
            crate::space::deallocate_post(
                old(self).spec_space(),
                final(self).spec_space(),
                plan.start_block,
                plan.num_blocks,
                r,
            ),
    {
        self.space_manager.deallocate(plan.start_block, plan.num_blocks)
    }

    /// Record an object whose sealed data was written, with the given
    /// random values for the commit: its entry (created at `timestamp`, in
    /// the current epoch) joins the table and the header is committed
    /// (`prepare_commit_with`). It fails exactly when the start block or
    /// block count does not fit a `u32`, the epoch cannot advance or the
    /// header with one more entry does not fit its slot; then nothing
    /// changes.
    pub fn finish_add_with(
        &mut self,
        crypto: &crate::engine::DefaultCryptoEngine,
        plan: &AddPlan,
        timestamp: u64,
        draws: SealDraws,
    ) -> (r: Result<(Vec<u8>, u64), VaultError>)
        requires
            old(self).wf(),
            old(self).spec_table().len() < crate::config::MAX_OBJECTS,
        ensures
            final(self).wf(),
            final(self).spec_vid() == old(self).spec_vid(),
            final(self).spec_kek() == old(self).spec_kek(),
            final(self).spec_mk() == old(self).spec_mk(),
            final(self).spec_space() == old(self).spec_space(),
            final(self).spec_active_slot() == old(self).spec_active_slot(),
            (plan.start_block > u32::MAX || plan.num_blocks > u32::MAX) ==> (r matches Err(e)
                && e.kind == VaultErrorKind::CapacityExceeded && *final(self) == *old(self)),
            r is Ok <==> (plan.start_block <= u32::MAX && plan.num_blocks <= u32::MAX && old(
                self,
            ).spec_header().spec_epoch() < u64::MAX && header_fits(
                old(self).spec_space().bits().len(),
                old(self).spec_table().len() + 1,
            )),
            r is Err ==> final(self).spec_table() == old(self).spec_table(),
            r is Err ==> final(self).spec_header() == old(self).spec_header(),
            r is Ok ==> {
                let e = final(self).spec_table().last();
                &&& plan.start_block <= u32::MAX && plan.num_blocks <= u32::MAX
                &&& final(self).spec_header().spec_epoch() == old(self).spec_header().spec_epoch() + 1
                &&& final(self).spec_table().len() == old(self).spec_table().len() + 1
                &&& final(self).spec_table().drop_last() == old(self).spec_table()
                &&& e.spec_object_id() == plan.object_id@
                &&& e.spec_start_block() == plan.start_block
                &&& e.spec_num_blocks() == plan.num_blocks
                &&& e.spec_size() == plan.data_len
                &&& e.spec_created() == timestamp
                &&& e.spec_object_type() == plan.object_type@
                &&& e.spec_purpose() == plan.purpose@
                &&& e.spec_wrapped_dek() == plan.wrapped_dek@
                &&& e.spec_epoch() == old(self).spec_header().spec_epoch()
                &&& final(self).spec_header().spec_entry_count() == final(self).spec_table().len()
            },
            r matches Ok(out) ==> {
                &&& out.1 == alternate_slot_spec(old(self).spec_active_slot())
                &&& slot_outcome(
                    out.0@,
                    final(self).spec_kek(),
                    final(self).spec_mk(),
                    final(self).spec_space().total() as u64,
                ) == Ok::<Seq<u8>, VaultError>(
                    header_plaintext(
                        final(self).spec_header(),
                        final(self).spec_space().bits(),
                        final(self).spec_table(),
                    ),
                )
            },
    {
        if plan.start_block > u32::MAX as u64 || plan.num_blocks > u32::MAX as u64 {
            return Err(VaultError::new(VaultErrorKind::CapacityExceeded));
        }
        let entry = FileTableEntry::new(
            plan.object_id,
            plan.start_block as u32,
            plan.num_blocks as u32,
            plan.data_len,
            timestamp,
            plan.object_type,
            plan.purpose,
            plan.wrapped_dek,
            self.header.epoch(),
        );
        proof {
            lemma_entry_check_flags(entry);
            lemma_header_fields_from_bytes(self.header, self.header.encoded());
        }
        let ghost t0 = self.file_table@;
        let saved = self.header;
        self.file_table.push(entry);
        assert(self.file_table@.drop_last() =~= t0);
        let ghost h0 = self.header;
        self.header.update_entry_count(self.file_table.len() as u32);
        proof {
            crate::layout::lemma_header_setters_keep_frame(h0, self.header);
            lemma_same_frame(self.header, h0, self.header);
        }
        let r = self.prepare_commit_with(crypto, draws);
        if r.is_err() {
            self.file_table.pop();
            assert(self.file_table@ =~= t0);
            self.header = saved;
        }
        r
    }

    /// Record an object whose sealed data was written: as
    /// `finish_add_with`, with the commit's random values drawn from the
    /// CSPRNG once the entry and header are known to fit. `CapacityExceeded`
    /// when the start block or block count does not fit a `u32` or the
    /// header would not fit its slot, `OperationFailed` when the epoch cannot
    /// advance or the CSPRNG fails; an error changes nothing.
    pub fn finish_add(
        &mut self,
        crypto: &crate::engine::DefaultCryptoEngine,
        plan: &AddPlan,
        timestamp: u64,
    ) -> (r: Result<(Vec<u8>, u64), VaultError>)
        requires
            old(self).wf(),
            old(self).spec_table().len() < crate::config::MAX_OBJECTS,
        ensures
            final(self).wf(),
            final(self).spec_vid() == old(self).spec_vid(),
            final(self).spec_kek() == old(self).spec_kek(),
            final(self).spec_mk() == old(self).spec_mk(),
            final(self).spec_space() == old(self).spec_space(),
            final(self).spec_active_slot() == old(self).spec_active_slot(),
            (plan.start_block > u32::MAX || plan.num_blocks > u32::MAX) ==> (r matches Err(e)
                && e.kind == VaultErrorKind::CapacityExceeded && *final(self) == *old(self)),
            r matches Err(e) ==> (e.kind == VaultErrorKind::CapacityExceeded || e.kind
                == VaultErrorKind::OperationFailed),
            r is Err ==> final(self).spec_table() == old(self).spec_table(),
            r is Err ==> final(self).spec_header() == old(self).spec_header(),
            r is Ok ==> {
                let e = final(self).spec_table().last();
                &&& plan.start_block <= u32::MAX && plan.num_blocks <= u32::MAX
                &&& final(self).spec_header().spec_epoch() == old(self).spec_header().spec_epoch() + 1
                &&& final(self).spec_table().len() == old(self).spec_table().len() + 1
                &&& final(self).spec_table().drop_last() == old(self).spec_table()
                &&& e.spec_object_id() == plan.object_id@
                &&& e.spec_start_block() == plan.start_block
                &&& e.spec_num_blocks() == plan.num_blocks
                &&& e.spec_size() == plan.data_len
                &&& e.spec_created() == timestamp
                &&& e.spec_object_type() == plan.object_type@
                &&& e.spec_purpose() == plan.purpose@
                &&& e.spec_wrapped_dek() == plan.wrapped_dek@
                &&& e.spec_epoch() == old(self).spec_header().spec_epoch()
                &&& final(self).spec_header().spec_entry_count() == final(self).spec_table().len()
            },
            r matches Ok(out) ==> {
                &&& out.1 == alternate_slot_spec(old(self).spec_active_slot())
                &&& slot_outcome(
                    out.0@,
                    final(self).spec_kek(),
                    final(self).spec_mk(),
                    final(self).spec_space().total() as u64,
                ) == Ok::<Seq<u8>, VaultError>(
                    header_plaintext(
                        final(self).spec_header(),
                        final(self).spec_space().bits(),
                        final(self).spec_table(),
                    ),
                )
            },
    {
        if plan.start_block > u32::MAX as u64 || plan.num_blocks > u32::MAX as u64 {
            return Err(VaultError::new(VaultErrorKind::CapacityExceeded));
        }
        if self.header.epoch() == u64::MAX {
            return Err(VaultError::new(VaultErrorKind::OperationFailed));
        }
        if !header_fits_exec(self.space_manager.bitmap_size(), self.file_table.len() + 1) {
            return Err(VaultError::new(VaultErrorKind::CapacityExceeded));
        }
        let draws = draw_seal(crypto)?;
        self.finish_add_with(crypto, plan, timestamp, draws)
    }

    /// Plan the reading of an object: `ObjectNotFound` when no entry has
    /// the id; `IntegrityError` when the entry is newer than the header;
    /// the data key unwrapped under the entry's authenticated data (its
    /// errors pass through); `IntegrityError` when the sizes overflow.
    pub fn prepare_read(&self, crypto: &crate::engine::DefaultCryptoEngine, object_id: &[u8; 16]) -> (r:
        Result<ReadPlan, VaultError>)
        requires
            self.wf(),
        ensures
            match read_result_spec(
                self.spec_kek(),
                self.spec_header(),
                self.spec_table(),
                object_id@,
            ) {
                Ok(out) => r matches Ok(plan) && plan.dek@ == out.0 && plan.aad@ == out.1
                    && plan.nonce_offset == out.2 && plan.data_len == out.3,
                Err(k) => r matches Err(e) && e.kind == k,
            },
    {
        let idx = match self.find_entry(object_id) {
            Some(i) => i,
            None => {
                return Err(VaultError::new(VaultErrorKind::ObjectNotFound));
            },
        };
        let entry = self.file_table[idx];
        proof {
            crate::layout::lemma_entry_check_flags(entry);
        }
        if entry.epoch() > self.header.epoch() {
            return Err(VaultError::new(VaultErrorKind::IntegrityError));
        }
        let aad = AadBuilder::new().object_id(ObjectId::new(*object_id)).version(
            CryptoVersion::new(self.header.crypto_version()),
        ).epoch(Epoch::new(entry.epoch())).purpose(AadPurpose::UserPurpose(*entry.purpose())).build()?;
        let dek = crypto.unwrap_dek(&self.kek, entry.wrapped_dek(), &aad)?;
        let offset = match calculate_data_offset(entry.start_block() as u64) {
            Ok(o) => o,
            Err(_) => {
                return Err(VaultError::new(VaultErrorKind::IntegrityError));
            },
        };
        let data_len = entry.size();
        let (encrypted_payload_size, _, _) = match calculate_stream_sizes(data_len) {
            Ok(t) => t,
            Err(_) => {
                return Err(VaultError::new(VaultErrorKind::IntegrityError));
            },
        };
        if encrypted_payload_size.checked_add(MAC_LEN as u64).is_none() {
            return Err(VaultError::new(VaultErrorKind::IntegrityError));
        }
        Ok(ReadPlan { dek, aad, nonce_offset: offset + WRAPPED_DEK_SIZE as u64, data_len })
    }

    /// Take an object out of the table: `ObjectNotFound` (nothing changed)
    /// when no entry has the id; else the first such entry is removed and
    /// returned with the byte range its blocks occupy, for wiping
    /// (`ParameterOutOfRange` when that length does not fit a `usize`).
    pub fn take_object(&mut self, object_id: &[u8; 16]) -> (r: Result<
        (FileTableEntry, u64, usize),
        VaultError,
    >)
        requires
            old(self).wf(),
        ensures
            final(self).wf(),
            final(self).spec_vid() == old(self).spec_vid(),
            final(self).spec_kek() == old(self).spec_kek(),
            final(self).spec_mk() == old(self).spec_mk(),
            final(self).spec_header() == old(self).spec_header(),
            final(self).spec_space() == old(self).spec_space(),
            final(self).spec_active_slot() == old(self).spec_active_slot(),
            (forall|k: int|
                0 <= k < old(self).spec_table().len() ==> (#[trigger] old(
                    self,
                ).spec_table()[k]).spec_object_id() != object_id@) <==> (r matches Err(e) && e.kind
                == VaultErrorKind::ObjectNotFound && final(self).spec_table() == old(
                self,
            ).spec_table()),
            r matches Err(e) ==> (e.kind == VaultErrorKind::ObjectNotFound || e.kind
                == VaultErrorKind::ParameterOutOfRange),
            r matches Ok(out) ==> exists|i: int|
                0 <= i < old(self).spec_table().len() && (#[trigger] old(self).spec_table()[i])
                    == out.0 && out.0.spec_object_id() == object_id@ && (forall|k: int|
                    0 <= k < i ==> (#[trigger] old(self).spec_table()[k]).spec_object_id()
                        != object_id@) && final(self).spec_table() == old(self).spec_table().remove(
                    i,
                ),
            r matches Ok(out) ==> out.1 == DATA_REGION_START + out.0.spec_start_block() * BLOCK_SIZE
                && out.2 == out.0.spec_num_blocks() * BLOCK_SIZE,
            first_index_of(old(self).spec_table(), object_id@) >= 0 && old(self).spec_table()[first_index_of(
                old(self).spec_table(),
                object_id@,
            )].spec_num_blocks() * BLOCK_SIZE <= usize::MAX ==> r is Ok,
            r matches Err(e) ==> (e.kind == VaultErrorKind::ParameterOutOfRange ==> first_index_of(
                old(self).spec_table(),
                object_id@,
            ) >= 0 && old(self).spec_table()[first_index_of(
                old(self).spec_table(),
                object_id@,
            )].spec_num_blocks() * BLOCK_SIZE > usize::MAX),
    {
        let idx = match self.find_entry(object_id) {
            Some(i) => i,
            None => {
                return Err(VaultError::new(VaultErrorKind::ObjectNotFound));
            },
        };
        let ghost t0 = self.file_table@;
        let entry = self.file_table.remove(idx);
        proof {
            assert forall|k: int| 0 <= k < self.file_table@.len() implies (
            #[trigger] self.file_table@[k]).spec_flags() == 1 by {
                if k < idx {
                    assert(self.file_table@[k] == t0[k]);
                } else {
                    assert(self.file_table@[k] == t0[k + 1]);
                }
            }
        }
        let wipe_offset = match calculate_data_offset(entry.start_block() as u64) {
            Ok(o) => o,
            Err(_) => {
                return Err(VaultError::new(VaultErrorKind::IntegrityError));
            },
        };
        let wipe_len = match (entry.num_blocks() as usize).checked_mul(BLOCK_SIZE as usize) {
            Some(n) => n,
            None => {
                return Err(VaultError::new(VaultErrorKind::ParameterOutOfRange));
            },
        };
        Ok((entry, wipe_offset, wipe_len))
    }

    /// Free the blocks of an entry taken out of the table.
    pub fn release_blocks(&mut self, entry: &FileTableEntry) -> (r: Result<(), VaultError>)
        requires
            old(self).wf(),
        ensures
            final(self).wf(),
            final(self).spec_vid() == old(self).spec_vid(),
            final(self).spec_kek() == old(self).spec_kek(),
            final(self).spec_mk() == old(self).spec_mk(),
            final(self).spec_header() == old(self).spec_header(),
            final(self).spec_table() == old(self).spec_table(),
            final(self).spec_active_slot() == old(self).spec_active_slot(),
            crate::space::deallocate_post(
                old(self).spec_space(),
                final(self).spec_space(),
                entry.spec_start_block() as u64,
                entry.spec_num_blocks() as u64,
                r,
            ),
    {
        self.space_manager.deallocate(entry.start_block() as u64, entry.num_blocks() as u64)
    }

    /// Listing of the table in order: `EncodingFailed` unless every type
    /// and purpose field is valid UTF-8; else each entry's id, size, and
    /// fields as text without NUL padding.
    pub fn list_objects(&self) -> (r: Result<Vec<ObjectMeta>, VaultError>)
        ensures
            r is Ok <==> forall|k: int|
                0 <= k < self.spec_table().len() ==> field_decodes(
                    (#[trigger] self.spec_table()[k]).spec_object_type(),
                ) && field_decodes(self.spec_table()[k].spec_purpose()),
            r matches Err(e) ==> e.kind == VaultErrorKind::EncodingFailed,
            r matches Ok(v) ==> v@.len() == self.spec_table().len() && forall|k: int|
                0 <= k < v@.len() ==> {
                    let e = self.spec_table()[k];
                    &&& (#[trigger] v@[k]).object_id@ == e.spec_object_id()
                    &&& v@[k].object_type@ == field_text(e.spec_object_type())
                    &&& v@[k].purpose@ == field_text(e.spec_purpose())
                    &&& v@[k].size == e.spec_size()
                },            r matches Ok(v) ==> meta_view(v@) == listing(self.spec_table()),
    {
        let mut list: Vec<ObjectMeta> = Vec::new();
        let mut i: usize = 0;
        while i < self.file_table.len()
            invariant
                i <= self.file_table@.len(),
                list@.len() == i,
                forall|k: int|
                    0 <= k < i ==> field_decodes(
                        (#[trigger] self.file_table@[k]).spec_object_type(),
                    ) && field_decodes(self.file_table@[k].spec_purpose()),
                forall|k: int|
                    0 <= k < i ==> {
                        let e = self.file_table@[k];
                        &&& (#[trigger] list@[k]).object_id@ == e.spec_object_id()
                        &&& list@[k].object_type@ == field_text(e.spec_object_type())
                        &&& list@[k].purpose@ == field_text(e.spec_purpose())
                        &&& list@[k].size == e.spec_size()
                    },
            decreases self.file_table@.len() - i,
        {
            let entry = &self.file_table[i];
            let obj_type = match crate::util::utf8_str(entry.object_type()) {
                Some(s) => s,
                None => {
                    assert(!field_decodes(self.spec_table()[i as int].spec_object_type()));
                    return Err(VaultError::new(VaultErrorKind::EncodingFailed));
                },
            };
            let purpose = match crate::util::utf8_str(entry.purpose()) {
                Some(s) => s,
                None => {
                    assert(!field_decodes(self.spec_table()[i as int].spec_purpose()));
                    return Err(VaultError::new(VaultErrorKind::EncodingFailed));
                },
            };
            let obj_type_str = crate::util::str_trim_nul(obj_type).to_owned();
            let purpose_str = crate::util::str_trim_nul(purpose).to_owned();
            list.push(
                ObjectMeta {
                    object_id: *entry.object_id(),
                    object_type: obj_type_str,
                    purpose: purpose_str,
                    size: entry.size(),
                },
            );
            i = i + 1;
        }
        proof {
            assert(meta_view(list@) =~= listing(self.spec_table()));
        }
        Ok(list)
    }

    /// Lock the vault: wipe the entries, the header, the bitmap copy and
    /// the keys held by the session.
    pub fn lock(self) {
        let mut s = self;
        let mut i: usize = 0;
        while i < s.file_table.len()
            invariant
                i <= s.file_table@.len(),
            decreases s.file_table@.len() - i,
        {
            let mut e = s.file_table[i];
            e.zeroize_entry();
            s.file_table.set(i, e);
            i = i + 1;
        }
        s.file_table.clear();
        s.header.zeroize();
        let mut bitmap = s.space_manager.export_bitmap();
        crate::memory::zeroize_bytes(bitmap.as_mut_slice());
        s.kek.zeroize();
        s.mk.zeroize();
    }
}

// =============================================================================
// COMPACTION
// =============================================================================

/// Entries in ascending order of start block.
pub open spec fn sorted_by_start(s: Seq<FileTableEntry>) -> bool {
    forall|a: int, b: int|
        0 <= a < b < s.len() ==> (#[trigger] s[a]).spec_start_block()
            <= (#[trigger] s[b]).spec_start_block()
}

/// The same entries, ordered by start block (equal ones keep their order).
pub fn sort_by_start_block(v: Vec<FileTableEntry>) -> (r: Vec<FileTableEntry>)
    ensures
        r@.len() == v@.len(),
        r@.to_multiset() == v@.to_multiset(),
        sorted_by_start(r@),
{
    let mut out: Vec<FileTableEntry> = Vec::new();
    let mut i: usize = 0;
    while i < v.len()
        invariant
            i <= v@.len(),
            out@.len() == i,
            out@.to_multiset() == v@.subrange(0, i as int).to_multiset(),
            sorted_by_start(out@),
        decreases v@.len() - i,
    {
        let e = v[i];
        let key = e.start_block();
        let mut pos: usize = 0;
        while pos < out.len() && out[pos].start_block() <= key
            invariant
                pos <= out@.len(),
                forall|k: int| 0 <= k < pos ==> (#[trigger] out@[k]).spec_start_block() <= key,
            decreases out@.len() - pos,
        {
            pos = pos + 1;
        }
        let ghost before = out@;
        out.insert(pos, e);
        proof {
            assert(v@.subrange(0, i as int + 1) =~= v@.subrange(0, i as int).push(e));
            assert forall|a: int, b: int| 0 <= a < b < out@.len() implies (
            #[trigger] out@[a]).spec_start_block() <= (#[trigger] out@[b]).spec_start_block() by {
                if pos < before.len() {
                    assert(before[pos as int].spec_start_block() > key);
                }
                if a < pos && b < pos {
                    assert(out@[a] == before[a] && out@[b] == before[b]);
                } else if a < pos && b == pos {
                } else if a < pos {
                    assert(out@[a] == before[a] && out@[b] == before[b - 1]);
                } else if a == pos {
                    assert(out@[b] == before[b - 1]);
                    assert(before[pos as int].spec_start_block() <= before[b - 1].spec_start_block()
                        || b - 1 == pos);
                } else {
                    assert(out@[a] == before[a - 1] && out@[b] == before[b - 1]);
                }
            }
        }
        i = i + 1;
    }
    assert(v@.subrange(0, i as int) =~= v@);
    out
}

/// Blocks of the first `k` entries.
pub open spec fn blocks_before(s: Seq<FileTableEntry>, k: int) -> int
    decreases k,
{
    if k <= 0 {
        0
    } else {
        blocks_before(s, k - 1) + s[k - 1].spec_num_blocks()
    }
}

/// Removing entry `j` takes its blocks off the total.
proof fn lemma_blocks_remove(s: Seq<FileTableEntry>, j: int, k: int)
    requires
        0 <= j < s.len(),
        0 <= k <= s.len(),
    ensures
        k <= j ==> blocks_before(s.remove(j), k) == blocks_before(s, k),
        k > j ==> blocks_before(s.remove(j), k - 1) == blocks_before(s, k) - s[j].spec_num_blocks(),
    decreases k,
{
    if k > 0 {
        lemma_blocks_remove(s, j, k - 1);
        if k - 1 > j {
            assert(s.remove(j)[k - 2] == s[k - 1]);
        } else if k - 1 < j {
            assert(s.remove(j)[k - 1] == s[k - 1]);
        }
    }
}

/// Tables with the same entries hold the same number of blocks, in any
/// order.
pub proof fn lemma_blocks_permutation(a: Seq<FileTableEntry>, b: Seq<FileTableEntry>)
    requires
        a.to_multiset() == b.to_multiset(),
    ensures
        blocks_before(a, a.len() as int) == blocks_before(b, b.len() as int),
    decreases a.len(),
{
    broadcast use vstd::seq_lib::group_to_multiset_ensures;

    if a.len() == 0 {
        assert(b.to_multiset().len() == 0);
    } else {
        let x = a.last();
        let a1 = a.drop_last();
        assert(a1.push(x) =~= a);
        assert(b.to_multiset().count(x) > 0);
        let j = choose|j: int| 0 <= j < b.len() && b[j] == x;
        let b1 = b.remove(j);
        assert(a1.to_multiset() =~= b1.to_multiset());
        lemma_blocks_permutation(a1, b1);
        lemma_blocks_remove(b, j, b.len() as int);
        assert(blocks_before(a, a.len() as int) == blocks_before(a1, a1.len() as int)
            + x.spec_num_blocks()) by {
            assert(a1 =~= a.subrange(0, a.len() - 1));
            lemma_blocks_prefix(a, a1, a1.len() as int);
        }
    }
}

/// A prefix of a table holds the blocks of that prefix.
proof fn lemma_blocks_prefix(s: Seq<FileTableEntry>, p: Seq<FileTableEntry>, k: int)
    requires
        0 <= k <= p.len() <= s.len(),
        forall|i: int| 0 <= i < p.len() ==> p[i] == s[i],
    ensures
        blocks_before(p, k) == blocks_before(s, k),
    decreases k,
{
    if k > 0 {
        lemma_blocks_prefix(s, p, k - 1);
    }
}

/// The blocks of a prefix are at most those of a longer prefix.
proof fn lemma_blocks_monotone(s: Seq<FileTableEntry>, i: int, k: int)
    requires
        0 <= i <= k <= s.len(),
    ensures
        blocks_before(s, i) <= blocks_before(s, k),
    decreases k - i,
{
    if i < k {
        lemma_blocks_monotone(s, i, k - 1);
    }
}

/// What compaction needs besides the CSPRNG: an epoch that can advance,
/// a compacted end (after the reserved blocks and all the entries' blocks)
/// within `MAX_TOTAL_BLOCKS`, entries whose byte length fits a `usize`, and a
/// header (with the bitmap of the compacted allocator and the entries)
/// within its size limit.
pub open spec fn vacuum_fits(s: VaultSession) -> bool {
    let t = s.spec_table();
    let end = vacuum_end(s);
    let total = if end > crate::config::MIN_TOTAL_BLOCKS {
        end
    } else {
        crate::config::MIN_TOTAL_BLOCKS as int
    };
    &&& s.spec_header().spec_epoch() < u64::MAX
    &&& end <= crate::config::MAX_TOTAL_BLOCKS
    &&& forall|k: int| 0 <= k < t.len() ==> #[trigger] t[k].spec_num_blocks() * BLOCK_SIZE <= usize::MAX
    &&& VAULT_HEADER_SIZE + bitmap_len_for(total as nat) + FILE_ENTRY_SIZE * t.len()
        <= MAX_HEADER_PLAINTEXT_SIZE
}

/// First block after the objects once compacted: the reserved blocks and
/// every entry's blocks.
pub open spec fn vacuum_end(s: VaultSession) -> int {
    crate::space::RESERVED_BLOCKS + blocks_before(s.spec_table(), s.spec_table().len() as int)
}

/// Some entry's byte length does not fit a `usize`.
pub open spec fn vacuum_too_long(s: VaultSession) -> bool {
    exists|k: int|
        0 <= k < s.spec_table().len() && #[trigger] s.spec_table()[k].spec_num_blocks() * BLOCK_SIZE
            > usize::MAX
}

/// A copy of one object's blocks to their compacted place.
pub struct BlockMove {
    /// Offset of the data in the old file.
    pub src_offset: u64,
    /// Offset of the data in the new file.
    pub dst_offset: u64,
    /// Bytes to copy.
    pub byte_len: usize,
}

/// What compaction writes into a new vault file: the superblock is copied
/// as it is, each object is copied as a move says, and both header slots
/// receive the header of the compacted table.
pub struct VacuumPlan {
    /// Object copies, in ascending order of the old start block.
    pub moves: Vec<BlockMove>,
    /// Slot A bytes.
    pub slot_a: Vec<u8>,
    /// Slot B bytes.
    pub slot_b: Vec<u8>,
    /// First block after the compacted objects.
    pub compacted_blocks: u64,
    /// The superblock of the compacted vault (its block count changed).
    pub superblock: Vec<u8>,
}

/// The compacted table: entry `k` of the sorted table, moved to start right
/// after the reserved blocks and the objects before it.
pub open spec fn compacted(sorted: Seq<FileTableEntry>, t: Seq<FileTableEntry>) -> bool {
    &&& t.len() == sorted.len()
    &&& forall|k: int|
        0 <= k < t.len() ==> (#[trigger] t[k]).same_but_start(&sorted[k])
            && t[k].spec_start_block() == crate::space::RESERVED_BLOCKS + blocks_before(sorted, k)
}

/// The lines of a listing as values: id, type, purpose, size.
pub open spec fn meta_view(v: Seq<ObjectMeta>) -> Seq<(Seq<u8>, Seq<char>, Seq<char>, u64)> {
    v.map_values(|m: ObjectMeta| (m.object_id@, m.object_type@, m.purpose@, m.size))
}

/// What a listing shows of an entry: id, type text, purpose text, size.
pub open spec fn listed(e: FileTableEntry) -> (Seq<u8>, Seq<char>, Seq<char>, u64) {
    (e.spec_object_id(), field_text(e.spec_object_type()), field_text(e.spec_purpose()), e.spec_size())
}

/// What a listing shows of a table, in order.
pub open spec fn listing(t: Seq<FileTableEntry>) -> Seq<(Seq<u8>, Seq<char>, Seq<char>, u64)> {
    t.map_values(|e: FileTableEntry| listed(e))
}

/// What a listing gives after a delete: taking entry `i` out of the table
/// takes its line out of the listing, the others keeping their order.
pub proof fn lemma_listing_after_delete(t: Seq<FileTableEntry>, i: int)
    requires
        0 <= i < t.len(),
    ensures
        listing(t.remove(i)) == listing(t).remove(i),
{
    assert(listing(t.remove(i)) =~= listing(t).remove(i));
}

/// What a listing gives after an add: the new entry's line comes last; a
/// type and purpose without NUL of at most 32 bytes of UTF-8 (stored as
/// `prepare_add` stores them) are listed exactly as given.
pub proof fn lemma_listing_after_add(
    t: Seq<FileTableEntry>,
    e: FileTableEntry,
    object_type: Seq<char>,
    purpose: Seq<char>,
)
    requires
        !object_type.contains('\0'),
        !purpose.contains('\0'),
        vstd::utf8::encode_utf8(object_type).len() <= 32,
        vstd::utf8::encode_utf8(purpose).len() <= 32,
        e.spec_object_type() == fixed_bytes_spec(vstd::utf8::encode_utf8(object_type), 32),
        e.spec_purpose() == fixed_bytes_spec(vstd::utf8::encode_utf8(purpose), 32),
    ensures
        listing(t.push(e)) == listing(t).push((e.spec_object_id(), object_type, purpose, e.spec_size())),
{
    lemma_short_field_lists_back(object_type);
    lemma_short_field_lists_back(purpose);
    assert(listing(t.push(e)) =~= listing(t).push(
        (e.spec_object_id(), object_type, purpose, e.spec_size()),
    ));
}

/// Mapping two sequences with the same elements gives sequences with the
/// same elements.
proof fn lemma_map_multiset(a: Seq<FileTableEntry>, b: Seq<FileTableEntry>)
    requires
        a.to_multiset() == b.to_multiset(),
    ensures
        listing(a).to_multiset() == listing(b).to_multiset(),
    decreases a.len(),
{
    broadcast use vstd::seq_lib::group_to_multiset_ensures;

    if a.len() == 0 {
        assert(b.to_multiset().len() == 0);
        assert(b.len() == 0);
        assert(listing(a) =~= listing(b));
    } else {
        let x = a.last();
        let a1 = a.drop_last();
        assert(a1.push(x) =~= a);
        assert(b.to_multiset().count(x) > 0);
        let j = choose|j: int| 0 <= j < b.len() && b[j] == x;
        let b1 = b.remove(j);
        assert(a1.to_multiset() =~= b1.to_multiset());
        lemma_map_multiset(a1, b1);
        assert(listing(a) =~= listing(a1).push(listed(x)));
        assert(listing(b1) =~= listing(b).remove(j));
        assert(listing(b)[j] == listed(x));
        assert(listing(b).to_multiset() =~= listing(b1).to_multiset().insert(listed(x)));
    }
}

/// What a listing gives after compaction: the compacted table lists the
/// same lines as before, in start-block order.
pub proof fn lemma_listing_after_vacuum(
    old: VaultSession,
    plan: VacuumPlan,
    sorted: Seq<FileTableEntry>,
    t: Seq<FileTableEntry>,
    h: VaultHeader,
    sm: SpaceManager,
    sb: crate::layout::Superblock,
)
    requires
        vacuum_outcome(old, plan, sorted, t, h, sm, sb),
    ensures
        listing(t).to_multiset() == listing(old.spec_table()).to_multiset(),
{
    assert forall|k: int| 0 <= k < t.len() implies listed(t[k]) == listed(sorted[k]) by {
        crate::layout::lemma_same_but_start(t[k], sorted[k]);
    }
    assert(listing(t) =~= listing(sorted));
    lemma_map_multiset(sorted, old.spec_table());
}

/// An element found at two places of a sequence is counted twice.
proof fn lemma_count_two<A>(s: Seq<A>, a: int, b: int)
    requires
        0 <= a < b < s.len(),
        s[a] == s[b],
    ensures
        s.to_multiset().count(s[a]) >= 2,
    decreases s.len(),
{
    broadcast use vstd::seq_lib::group_to_multiset_ensures;

    let p = s.drop_last();
    assert(p.push(s.last()) =~= s);
    if b < s.len() - 1 {
        lemma_count_two(p, a, b);
        assert(p[a] == s[a]);
    } else {
        assert(p.contains(s[a])) by {
            assert(p[a] == s[a]);
        }
    }
}

/// An element that no place but `i` can hold is counted at most once.
proof fn lemma_count_at_most_one<A>(s: Seq<A>, x: A, i: int)
    requires
        forall|k: int| 0 <= k < s.len() && k != i ==> s[k] != x,
    ensures
        s.to_multiset().count(x) <= 1,
    decreases s.len(),
{
    broadcast use vstd::seq_lib::group_to_multiset_ensures;

    if s.len() > 0 {
        let p = s.drop_last();
        assert(p.push(s.last()) =~= s);
        if i == s.len() - 1 {
            assert(!p.contains(x)) by {
                if p.contains(x) {
                    let k = choose|k: int| 0 <= k < p.len() && p[k] == x;
                    assert(s[k] == x);
                }
            }
        } else {
            assert forall|k: int| 0 <= k < p.len() && k != i implies p[k] != x by {
                assert(p[k] == s[k]);
            }
            lemma_count_at_most_one(p, x, i);
            assert(s.last() != x) by {
                assert(s[s.len() - 1] == s.last());
            }
        }
    } else {
        assert(s.to_multiset() =~= vstd::multiset::Multiset::empty());
    }
}

/// What compaction keeps: for an id that exactly one entry holds, reading
/// it from the compacted table under the new header gives the same data
/// key, authenticated data and size as before, at the place where one of
/// the plan's moves copies that object's old bytes (wrapped key first).
pub proof fn lemma_vacuum_keeps_objects(
    old: VaultSession,
    plan: VacuumPlan,
    sorted: Seq<FileTableEntry>,
    t: Seq<FileTableEntry>,
    h: VaultHeader,
    sm: SpaceManager,
    sb: crate::layout::Superblock,
    oid: Seq<u8>,
    i: int,
)
    requires
        vacuum_outcome(old, plan, sorted, t, h, sm, sb),
        0 <= i < old.spec_table().len(),
        old.spec_table()[i].spec_object_id() == oid,
        forall|k: int|
            0 <= k < old.spec_table().len() && k != i ==> (#[trigger] old.spec_table()[k]).spec_object_id()
                != oid,
        read_result_spec(old.spec_kek(), old.spec_header(), old.spec_table(), oid) is Ok,
    ensures
        exists|k: int|
            0 <= k < plan.moves@.len() && {
                let before = read_result_spec(
                    old.spec_kek(),
                    old.spec_header(),
                    old.spec_table(),
                    oid,
                )->Ok_0;
                &&& before.2 == (#[trigger] plan.moves@[k]).src_offset + WRAPPED_DEK_SIZE
                &&& read_result_spec(old.spec_kek(), h, t, oid) == Ok::<
                    (Seq<u8>, Seq<u8>, u64, u64),
                    VaultErrorKind,
                >((before.0, before.1, (plan.moves@[k].dst_offset + WRAPPED_DEK_SIZE) as u64, before.3))
            },
{
    broadcast use vstd::seq_lib::group_to_multiset_ensures;

    let tb = old.spec_table();
    let e = tb[i];
    lemma_first_index_of(tb, oid, i);
    assert(sorted.to_multiset().count(e) > 0) by {
        assert(tb.contains(e));
    }
    let j = choose|j: int| 0 <= j < sorted.len() && sorted[j] == e;
    crate::layout::lemma_same_but_start(t[j], sorted[j]);
    assert forall|k: int| 0 <= k < t.len() && k != j implies (#[trigger] t[k]).spec_object_id()
        != oid by {
        crate::layout::lemma_same_but_start(t[k], sorted[k]);
        if sorted[k].spec_object_id() == oid {
            assert(sorted.to_multiset().count(sorted[k]) > 0);
            let i1 = choose|i1: int| 0 <= i1 < tb.len() && tb[i1] == sorted[k];
            assert(i1 == i);
            if k < j {
                lemma_count_two(sorted, k, j);
            } else {
                lemma_count_two(sorted, j, k);
            }
            lemma_count_at_most_one(tb, e, i);
        }
    }
    lemma_first_index_of(t, oid, j);
    assert(plan.moves@[j].src_offset == DATA_REGION_START + sorted[j].spec_start_block()
        * BLOCK_SIZE);
    assert(plan.moves@[j].dst_offset == DATA_REGION_START + t[j].spec_start_block() * BLOCK_SIZE);
    assert(t[j].spec_epoch() <= h.spec_epoch());
    assert(object_aad_spec(oid, h.spec_crypto_version(), t[j].spec_epoch(), t[j].spec_purpose())
        == object_aad_spec(
        oid,
        old.spec_header().spec_crypto_version(),
        e.spec_epoch(),
        e.spec_purpose(),
    ));
    assert(0 <= j < plan.moves@.len());
}

/// On a fresh allocator whose data blocks are all free, an allocation takes
/// the first blocks after the reserved ones, and afterwards exactly the
/// blocks below its end are allocated.
proof fn lemma_fresh_allocation(fresh: SpaceManager, after: SpaceManager, count: u64, r: Result<
    u64,
    VaultError,
>)
    requires
        fresh.wf(),
        count > 0,
        fresh.total() >= crate::space::RESERVED_BLOCKS + count,
        forall|i: int|
            0 <= i < 8 * fresh.bits().len() ==> #[trigger] fresh.is_allocated(i) == (i
                < crate::space::RESERVED_BLOCKS && i < fresh.total()),
        crate::space::allocate_post(fresh, after, count, r),
    ensures
        r == Ok::<u64, VaultError>(crate::space::RESERVED_BLOCKS),
        forall|i: int|
            0 <= i < 8 * fresh.bits().len() ==> #[trigger] after.is_allocated(i) == (i
                < crate::space::RESERVED_BLOCKS + count),
        after.bits().len() == fresh.bits().len(),
        after.total() == fresh.total(),
{
    let bm = fresh.bits();
    let res = crate::space::RESERVED_BLOCKS as int;
    fresh.lemma_wf();
    assert(crate::space::run_free(bm, res, count as int)) by {
        assert forall|i: int| res <= i < res + count implies !#[trigger] crate::space::bit_at(
            bm,
            i,
        ) by {
            assert(fresh.is_allocated(i) == crate::space::bit_at(bm, i));
        }
    }
    match r {
        Ok(s) => {
            if s > res {
                assert(!crate::space::run_free(bm, res, count as int));
            }
        },
        Err(e) => {
            assert(!crate::space::run_free(bm, res, count as int));
        },
    }
    assert forall|i: int| 0 <= i < 8 * fresh.bits().len() implies #[trigger] after.is_allocated(i)
        == (i < crate::space::RESERVED_BLOCKS + count) by {
        assert(fresh.is_allocated(i) == crate::space::bit_at(bm, i));
        assert(after.is_allocated(i) == crate::space::bit_at(after.bits(), i));
    }
}

/// What a compaction plan holds for the session `old`: `sorted` is the
/// table in ascending order of start block, `t` the compacted table, `h` the
/// new header and `sm` the new allocator; the moves copy each object to its
/// compacted place, exactly the blocks below the compacted end are
/// allocated, and both slots open to the new header plaintext.
pub open spec fn vacuum_outcome(
    old: VaultSession,
    plan: VacuumPlan,
    sorted: Seq<FileTableEntry>,
    t: Seq<FileTableEntry>,
    h: VaultHeader,
    sm: SpaceManager,
    sb: crate::layout::Superblock,
) -> bool {
    &&& plan.superblock@ == sb.encoded()
    &&& crate::layout::same_but_total(old.spec_superblock(), sb)
    &&& sb.spec_total_blocks() == sm.total()
    &&& crate::layout::superblock_check(sb.encoded()) is Ok
    &&& sorted.to_multiset() == old.spec_table().to_multiset()
    &&& sorted_by_start(sorted)
    &&& compacted(sorted, t)
    &&& plan.compacted_blocks == crate::space::RESERVED_BLOCKS + blocks_before(
        sorted,
        sorted.len() as int,
    )
    &&& plan.moves@.len() == sorted.len()
    &&& forall|k: int|
        0 <= k < sorted.len() ==> {
            &&& (#[trigger] plan.moves@[k]).src_offset == DATA_REGION_START
                + sorted[k].spec_start_block() * BLOCK_SIZE
            &&& plan.moves@[k].dst_offset == DATA_REGION_START + t[k].spec_start_block()
                * BLOCK_SIZE
            &&& plan.moves@[k].byte_len == sorted[k].spec_num_blocks() * BLOCK_SIZE
        }
    &&& sm.total() == (if plan.compacted_blocks > crate::config::MIN_TOTAL_BLOCKS {
        plan.compacted_blocks
    } else {
        crate::config::MIN_TOTAL_BLOCKS
    })
    &&& forall|i: int|
        0 <= i < 8 * sm.bits().len() ==> #[trigger] sm.is_allocated(i) == (i
            < plan.compacted_blocks)
    &&& h.spec_entry_count() == t.len()
    &&& h.spec_crypto_version() == old.spec_header().spec_crypto_version()
    &&& h.spec_epoch() == old.spec_header().spec_epoch() + 1
    &&& slot_open_spec(plan.slot_a@, old.spec_kek(), old.spec_mk())
        == Ok::<Seq<u8>, VaultErrorKind>(header_plaintext(h, sm.bits(), t))
    &&& slot_open_spec(plan.slot_b@, old.spec_kek(), old.spec_mk())
        == Ok::<Seq<u8>, VaultErrorKind>(header_plaintext(h, sm.bits(), t))
}

/// Some sorted table, compacted table, header and allocator fit the plan
/// as `vacuum_outcome` states.
pub open spec fn vacuum_planned(old: VaultSession, plan: VacuumPlan) -> bool {
    exists|
        sorted: Seq<FileTableEntry>,
        t: Seq<FileTableEntry>,
        h: VaultHeader,
        sm: SpaceManager,
        sb: crate::layout::Superblock,
    |
        #[trigger] vacuum_outcome(old, plan, sorted, t, h, sm, sb)
}

impl VaultSession {
    /// Compaction plan with the given random values for the two header
    /// seals (the session is consumed; the vault must be unlocked again
    /// afterwards): the table sorted by start block, each object moved
    /// to start right after the reserved blocks and the objects before it; a
    /// fresh allocator of `max(end, MIN_TOTAL_BLOCKS)` blocks with exactly
    /// the blocks below the end allocated, and a superblock recording that
    /// block count; the entry count recorded and the epoch advanced once;
    /// the header sealed into both slots. Errors: a byte length over `usize`
    /// (`ParameterOutOfRange`), a start block over `u32` or a block count
    /// over `MAX_TOTAL_BLOCKS` (`CapacityExceeded`), the allocator's and the
    /// epoch's own
    /// errors, and `IoError` when the header does not fit a slot. It
    /// succeeds wherever `vacuum_fits` holds.
    pub fn plan_vacuum_with(
        self,
        crypto: &crate::engine::DefaultCryptoEngine,
        draws_a: SealDraws,
        draws_b: SealDraws,
    ) -> (r: Result<
        VacuumPlan,
        VaultError,
    >)
        requires
            self.wf(),
        ensures
            r matches Ok(plan) ==> vacuum_planned(self, plan),
            self.spec_header().spec_epoch() == u64::MAX ==> r is Err,
            vacuum_fits(self) ==> r is Ok,
            r matches Err(e) ==> (e.kind == VaultErrorKind::ParameterOutOfRange || e.kind
                == VaultErrorKind::CapacityExceeded || e.kind == VaultErrorKind::OperationFailed
                || e.kind == VaultErrorKind::IoError),
            r matches Err(e) ==> (e.kind == VaultErrorKind::ParameterOutOfRange ==> vacuum_too_long(
                self,
            )),
            r matches Err(e) ==> (e.kind == VaultErrorKind::CapacityExceeded ==> vacuum_end(self)
                > crate::config::MAX_TOTAL_BLOCKS),
            r matches Err(e) ==> (e.kind == VaultErrorKind::OperationFailed ==> self.spec_header().spec_epoch()
                == u64::MAX),
            r matches Err(e) ==> (e.kind == VaultErrorKind::IoError ==> self.spec_header().spec_epoch()
                < u64::MAX && vacuum_end(self) <= crate::config::MAX_TOTAL_BLOCKS),
            vacuum_end(self) > crate::config::MAX_TOTAL_BLOCKS ==> (r matches Err(e) && (e.kind
                == VaultErrorKind::CapacityExceeded || e.kind == VaultErrorKind::ParameterOutOfRange)),
    {
        let ghost s0 = self;
        let mut session = self;
        let table = sort_by_start_block(session.file_table);
        let ghost sorted = table@;
        let ghost fits = vacuum_fits(s0);
        proof {
            lemma_header_fields_from_bytes(session.header, session.header.encoded());
            assert(sorted.len() <= crate::config::MAX_OBJECTS);
            lemma_blocks_permutation(sorted, s0.file_table@);
            assert forall|k: int| 0 <= k < sorted.len() implies s0.file_table@.contains(
                #[trigger] sorted[k],
            ) by {
                broadcast use vstd::seq_lib::group_to_multiset_ensures;

                assert(sorted.to_multiset().count(sorted[k]) > 0);
            }
        }
        let mut table = table;
        let n = table.len();
        let mut next_free: u64 = crate::space::RESERVED_BLOCKS;
        let mut moves: Vec<BlockMove> = Vec::new();
        let mut i: usize = 0;
        while i < n
            invariant
                i <= n,
                n == sorted.len(),
                n <= crate::config::MAX_OBJECTS,
                table@.len() == n,
                moves@.len() == i,
                next_free == crate::space::RESERVED_BLOCKS + blocks_before(sorted, i as int),
                next_free >= crate::space::RESERVED_BLOCKS,
                blocks_before(sorted, i as int) <= i * 4294967295,
                fits == vacuum_fits(s0),
                s0 == self,
                fits ==> crate::space::RESERVED_BLOCKS + blocks_before(sorted, n as int) <= u32::MAX,
                crate::space::RESERVED_BLOCKS + blocks_before(sorted, n as int) == vacuum_end(s0),
                forall|k: int| 0 <= k < n ==> s0.file_table@.contains(#[trigger] sorted[k]),
                forall|k: int| i <= k < n ==> #[trigger] table@[k] == sorted[k],
                forall|k: int|
                    0 <= k < i ==> (#[trigger] table@[k]).same_but_start(&sorted[k])
                        && table@[k].spec_start_block() == crate::space::RESERVED_BLOCKS
                        + blocks_before(sorted, k),
                forall|k: int|
                    0 <= k < i ==> {
                        &&& (#[trigger] moves@[k]).src_offset == DATA_REGION_START
                            + sorted[k].spec_start_block() * BLOCK_SIZE
                        &&& moves@[k].dst_offset == DATA_REGION_START + (
                        crate::space::RESERVED_BLOCKS + blocks_before(sorted, k)) * BLOCK_SIZE
                        &&& moves@[k].byte_len == sorted[k].spec_num_blocks() * BLOCK_SIZE
                    },
            decreases n - i,
        {
            let mut entry = table[i];
            proof {
                lemma_blocks_monotone(sorted, i as int, n as int);
                let j = choose|j: int| 0 <= j < s0.file_table@.len() && s0.file_table@[j] == sorted[i as int];
                assert(s0.spec_table()[j] == sorted[i as int]);
            }
            let src_block = entry.start_block() as u64;
            let num_blocks = entry.num_blocks() as u64;
            let byte_len = match (num_blocks as usize).checked_mul(BLOCK_SIZE as usize) {
                Some(x) => x,
                None => {
                    return Err(VaultError::new(VaultErrorKind::ParameterOutOfRange));
                },
            };
            let src_offset = calculate_data_offset(src_block)?;
            let dst_offset = calculate_data_offset(next_free)?;
            if next_free > u32::MAX as u64 {
                return Err(VaultError::new(VaultErrorKind::CapacityExceeded));
            }
            entry.set_start_block(next_free as u32);
            table.set(i, entry);
            proof {
                assert(blocks_before(sorted, i as int + 1) == blocks_before(sorted, i as int)
                    + sorted[i as int].spec_num_blocks());
                assert(blocks_before(sorted, i as int + 1) <= (i + 1) * 4294967295) by (nonlinear_arith)
                    requires
                        blocks_before(sorted, i as int + 1) == blocks_before(sorted, i as int)
                            + sorted[i as int].spec_num_blocks(),
                        blocks_before(sorted, i as int) <= i * 4294967295,
                        sorted[i as int].spec_num_blocks() <= 4294967295,
                ;
                assert((i + 1) * 4294967295 <= 1000000 * 4294967295) by (nonlinear_arith)
                    requires
                        i + 1 <= 1000000,
                ;
            }
            next_free = next_free + num_blocks;
            moves.push(BlockMove { src_offset, dst_offset, byte_len });
            i = i + 1;
        }
        let ghost compacted_table = table@;
        let new_total = if next_free > crate::config::MIN_TOTAL_BLOCKS {
            next_free
        } else {
            crate::config::MIN_TOTAL_BLOCKS
        };
        if new_total > crate::config::MAX_TOTAL_BLOCKS {
            return Err(VaultError::new(VaultErrorKind::CapacityExceeded));
        }
        proof {
            crate::layout::lemma_superblock_fields_from_bytes(
                session.superblock,
                session.superblock.encoded(),
            );
        }
        let new_sb = session.superblock.with_total_blocks(new_total);
        let mut new_sm = SpaceManager::new(new_total)?;
        let ghost fresh = new_sm;
        if next_free > crate::space::RESERVED_BLOCKS {
            let count = next_free - crate::space::RESERVED_BLOCKS;
            let r = new_sm.allocate(count);
            proof {
                lemma_fresh_allocation(fresh, new_sm, count, r);
            }
        }
        proof {
            new_sm.lemma_wf();
            assert forall|k: int| 0 <= k < n implies (#[trigger] table@[k]).spec_flags() == 1 by {
                crate::layout::lemma_same_but_start(table@[k], sorted[k]);
                assert(sorted.to_multiset().count(sorted[k]) > 0);
                assert(session.file_table@.contains(sorted[k]));
            }
        }
        let ghost h0 = session.header;
        session.header.update_entry_count(n as u32);
        proof {
            crate::layout::lemma_header_setters_keep_frame(h0, session.header);
            lemma_same_frame(session.header, h0, session.header);
        }
        let ghost h1 = session.header;
        session.header.increment_epoch()?;
        proof {
            crate::layout::lemma_header_setters_keep_frame(h1, session.header);
            lemma_same_frame(session.header, h1, session.header);
            lemma_same_frame(session.header, h1, h0);
        }
        let slot_a = seal_header_slot_with(
            crypto,
            &session.kek,
            &session.mk,
            &mut session.header,
            table.as_slice(),
            &new_sm,
            draws_a,
        );
        let ghost ha = session.header;
        let slot_b = seal_header_slot_with(
            crypto,
            &session.kek,
            &session.mk,
            &mut session.header,
            table.as_slice(),
            &new_sm,
            draws_b,
        );
        proof {
            lemma_same_frame(session.header, ha, session.header);
            if new_sm.bits().len() <= u32::MAX {
                crate::layout::lemma_header_eq(session.header, ha);
            }
        }
        let (slot_a, slot_b) = match (slot_a, slot_b) {
            (Ok(a), Ok(b)) => (a, b),
            _ => {
                return Err(VaultError::new(VaultErrorKind::IoError));
            },
        };
        let sb_bytes = new_sb.to_bytes();
        let plan = VacuumPlan { moves, slot_a, slot_b, compacted_blocks: next_free, superblock: sb_bytes };
        proof {
            assert(compacted(sorted, table@));
            assert(vacuum_outcome(s0, plan, sorted, table@, session.header, new_sm, new_sb));
            assert(vacuum_planned(s0, plan));
        }
        Ok(plan)
    }

    /// Compaction plan: as `plan_vacuum_with`, with the random values of
    /// the two header seals drawn from the CSPRNG first (`IoError` when it
    /// fails, as when a slot cannot be sealed).
    pub fn plan_vacuum(self, crypto: &crate::engine::DefaultCryptoEngine) -> (r: Result<
        VacuumPlan,
        VaultError,
    >)
        requires
            self.wf(),
        ensures
            r matches Ok(plan) ==> vacuum_planned(self, plan),
            self.spec_header().spec_epoch() == u64::MAX ==> r is Err,
            vacuum_fits(self) ==> (r is Ok || (r matches Err(e) && e.kind == VaultErrorKind::IoError)),
            r matches Err(e) ==> (e.kind == VaultErrorKind::ParameterOutOfRange || e.kind
                == VaultErrorKind::CapacityExceeded || e.kind == VaultErrorKind::OperationFailed
                || e.kind == VaultErrorKind::IoError),
            r matches Err(e) ==> (e.kind == VaultErrorKind::ParameterOutOfRange ==> vacuum_too_long(
                self,
            )),
            r matches Err(e) ==> (e.kind == VaultErrorKind::CapacityExceeded ==> vacuum_end(self)
                > crate::config::MAX_TOTAL_BLOCKS),
            r matches Err(e) ==> (e.kind == VaultErrorKind::OperationFailed ==> self.spec_header().spec_epoch()
                == u64::MAX),
            vacuum_end(self) > crate::config::MAX_TOTAL_BLOCKS ==> (r matches Err(e) && (e.kind
                == VaultErrorKind::CapacityExceeded || e.kind == VaultErrorKind::ParameterOutOfRange
                || e.kind == VaultErrorKind::IoError)),
    {
        let draws_a = match draw_seal(crypto) {
            Ok(d) => d,
            Err(_) => {
                return Err(VaultError::new(VaultErrorKind::IoError));
            },
        };
        let draws_b = match draw_seal(crypto) {
            Ok(d) => d,
            Err(_) => {
                return Err(VaultError::new(VaultErrorKind::IoError));
            },
        };
        self.plan_vacuum_with(crypto, draws_a, draws_b)
    }
}

// =============================================================================
// CREATION AND KEYS
// =============================================================================

/// Seconds since the Unix epoch from the system clock
/// (`SystemTime::now().duration_since(UNIX_EPOCH)`); `OperationFailed`
/// when the clock is before the epoch. Nothing is claimed of the value.
#[verifier::external_body]
pub(crate) fn get_timestamp() -> (r: Result<u64, VaultError>)
    ensures
        r matches Err(e) ==> e.kind == VaultErrorKind::OperationFailed,
{
    match std::time::SystemTime::now().duration_since(std::time::UNIX_EPOCH) {
        Ok(d) => Ok(d.as_secs()),
        Err(_) => Err(VaultError::new(VaultErrorKind::OperationFailed)),
    }
}

/// The key-derivation parameters every vault uses.
/// The key-derivation parameters of a vault.
pub open spec fn vault_kdf_spec() -> crate::engine::KdfParams {
    crate::engine::KdfParams {
        memory_kib: crate::config::KDF_MEMORY_KIB_MIN,
        iterations: crate::config::KDF_ITERATIONS_MIN,
        parallelism: crate::config::KDF_PARALLELISM,
    }
}

/// The key-derivation parameters every vault uses, as `vault_kdf_spec`.
pub fn vault_kdf_params() -> (p: crate::engine::KdfParams)
    ensures
        p == vault_kdf_spec(),
        p.memory_kib == crate::config::KDF_MEMORY_KIB_MIN,
        p.iterations == crate::config::KDF_ITERATIONS_MIN,
        p.parallelism == crate::config::KDF_PARALLELISM,
        crate::engine::kdf_params_ok(p),
{
    crate::engine::KdfParams {
        memory_kib: crate::config::KDF_MEMORY_KIB_MIN,
        iterations: crate::config::KDF_ITERATIONS_MIN,
        parallelism: crate::config::KDF_PARALLELISM,
    }
}

/// The bytes of a new vault file: the superblock at offset 0 and header
/// slot A at its offset, in a file of `file_len` bytes.
pub struct VaultImage {
    /// Vault id.
    pub vid: [u8; 16],
    /// File length.
    pub file_len: u64,
    /// Superblock bytes.
    pub superblock: Vec<u8>,
    /// Header slot A bytes.
    pub slot_a: Vec<u8>,
}

/// A new vault's file: a superblock of the minimum block count for the
/// vault id, with some salt and creation time, and slot A holding, under
/// leaf keys of some master root for that id and time, the empty table of
/// a fresh allocator at epoch 1.
pub open spec fn vault_image_ok(img: VaultImage) -> bool {
    exists|sb: crate::layout::Superblock, kek: Seq<u8>, mk: Seq<u8>, ck: Seq<u8>, mr: Seq<u8>, h: VaultHeader, sm: SpaceManager|
        #[trigger] vault_image_fits(img, sb, kek, mk, ck, mr, h, sm)
}

/// A new vault's file made with `password` through `enclave`: its parts fit
/// as `vault_image_fits` states, for a master root that the enclave gives
/// for the Argon2id user root of the password and the superblock's salt.
pub open spec fn created_with<E: crate::hsp::HardwareEnclave + ?Sized>(
    img: VaultImage,
    enclave: &E,
    password: Seq<u8>,
) -> bool {
    exists|sb: crate::layout::Superblock, kek: Seq<u8>, mk: Seq<u8>, ck: Seq<u8>, mr: Seq<u8>, h: VaultHeader, sm: SpaceManager|
        #[trigger] vault_image_fits(img, sb, kek, mk, ck, mr, h, sm) && enclave.spec_signs(
            crate::engine::user_root_spec(password, sb.spec_salt(), vault_kdf_spec()),
            mr,
        )
}

/// Keys for unlocking made with `password` through `enclave` from the
/// superblock `sb`: the first 64 bytes of the leaf expansion of a master
/// root that the enclave gives for the Argon2id user root of the password
/// and the superblock's salt.
pub open spec fn unlocked_with<E: crate::hsp::HardwareEnclave + ?Sized>(
    enclave: &E,
    password: Seq<u8>,
    sb: crate::layout::Superblock,
    kek: Seq<u8>,
    mk: Seq<u8>,
) -> bool {
    exists|mr: Seq<u8>|
        mr.len() == 64 && enclave.spec_signs(
            crate::engine::user_root_spec(password, sb.spec_salt(), vault_kdf_spec()),
            mr,
        ) && #[trigger] crate::engine::leaf_okm(mr, sb.spec_vid(), sb.spec_timestamp()).subrange(
            0,
            64,
        ) == kek + mk
}

/// The file of a new vault under the given superblock and keys: the
/// superblock (valid, at the minimum block count, for the image's vault id)
/// and slot A opening under the keys to the empty table of a fresh
/// allocator at epoch 1.
pub open spec fn image_parts(
    img: VaultImage,
    sb: crate::layout::Superblock,
    kek: Seq<u8>,
    mk: Seq<u8>,
    h: VaultHeader,
    sm: SpaceManager,
) -> bool {
    &&& img.superblock@ == sb.encoded()
    &&& crate::layout::superblock_check(sb.encoded()) is Ok
    &&& sb.spec_vid() == img.vid@
    &&& sb.spec_total_blocks() == crate::config::MIN_TOTAL_BLOCKS
    &&& img.file_len == crate::config::MIN_TOTAL_BLOCKS * BLOCK_SIZE
    &&& kek.len() == 32
    &&& mk.len() == 32
    &&& h.spec_epoch() == 1
    &&& h.spec_entry_count() == 0
    &&& h.spec_crypto_version() == CRYPTO_VERSION
    &&& sm.total() == crate::config::MIN_TOTAL_BLOCKS
    &&& forall|i: int|
        0 <= i < 8 * sm.bits().len() ==> #[trigger] sm.is_allocated(i) == (i
            < crate::space::RESERVED_BLOCKS)
    &&& slot_open_spec(img.slot_a@, kek, mk) == Ok::<Seq<u8>, VaultErrorKind>(
        header_plaintext(h, sm.bits(), Seq::<FileTableEntry>::empty()),
    )
}

/// A new vault's file for the given salt, vault id, creation time and keys.
pub open spec fn vault_image_keyed(
    img: VaultImage,
    salt: Seq<u8>,
    vid: Seq<u8>,
    timestamp: u64,
    kek: Seq<u8>,
    mk: Seq<u8>,
) -> bool {
    exists|sb: crate::layout::Superblock, h: VaultHeader, sm: SpaceManager|
        #[trigger] image_parts(img, sb, kek, mk, h, sm) && sb.spec_salt() == salt && sb.spec_vid()
            == vid && sb.spec_timestamp() == timestamp
}

/// The parts `vault_image_ok` speaks of.
pub open spec fn vault_image_fits(
    img: VaultImage,
    sb: crate::layout::Superblock,
    kek: Seq<u8>,
    mk: Seq<u8>,
    ck: Seq<u8>,
    mr: Seq<u8>,
    h: VaultHeader,
    sm: SpaceManager,
) -> bool {
    &&& image_parts(img, sb, kek, mk, h, sm)
    &&& mr.len() == 64
    &&& crate::engine::leaf_okm(mr, sb.spec_vid(), sb.spec_timestamp()) == kek + mk + ck
}

/// A vault made with a password opens with it: where the enclave gives one
/// master root for the user root of that password and the vault's salt,
/// the keys that unlocking derives with the password from the vault's
/// superblock open slot A to the empty table of a fresh allocator at
/// epoch 1.
pub proof fn lemma_created_vault_unlocks<E: crate::hsp::HardwareEnclave + ?Sized>(
    img: VaultImage,
    enclave: &E,
    password: Seq<u8>,
    sb2: crate::layout::Superblock,
    kek2: Seq<u8>,
    mk2: Seq<u8>,
)
    requires
        created_with(img, enclave, password),
        sb2.encoded() == img.superblock@,
        kek2.len() == 32,
        unlocked_with(enclave, password, sb2, kek2, mk2),
        forall|m1: Seq<u8>, m2: Seq<u8>|
            enclave.spec_signs(
                crate::engine::user_root_spec(password, sb2.spec_salt(), vault_kdf_spec()),
                m1,
            ) && enclave.spec_signs(
                crate::engine::user_root_spec(password, sb2.spec_salt(), vault_kdf_spec()),
                m2,
            ) ==> m1 == m2,
    ensures
        exists|h: VaultHeader, sm: SpaceManager|
            h.spec_epoch() == 1 && h.spec_entry_count() == 0 && #[trigger] slot_open_spec(
                img.slot_a@,
                kek2,
                mk2,
            ) == Ok::<Seq<u8>, VaultErrorKind>(
                header_plaintext(h, sm.bits(), Seq::<FileTableEntry>::empty()),
            ),
{
    let (sb, kek, mk, ck, mr, h, sm) = choose|
        sb: crate::layout::Superblock,
        kek: Seq<u8>,
        mk: Seq<u8>,
        ck: Seq<u8>,
        mr: Seq<u8>,
        h: VaultHeader,
        sm: SpaceManager,
    |
        #[trigger] vault_image_fits(img, sb, kek, mk, ck, mr, h, sm) && enclave.spec_signs(
            crate::engine::user_root_spec(password, sb.spec_salt(), vault_kdf_spec()),
            mr,
        );
    let mr2 = choose|mr2: Seq<u8>|
        mr2.len() == 64 && enclave.spec_signs(
            crate::engine::user_root_spec(password, sb2.spec_salt(), vault_kdf_spec()),
            mr2,
        ) && #[trigger] crate::engine::leaf_okm(mr2, sb2.spec_vid(), sb2.spec_timestamp()).subrange(
            0,
            64,
        ) == kek2 + mk2;
    crate::layout::lemma_superblock_fields_from_bytes(sb, img.superblock@);
    crate::layout::lemma_superblock_fields_from_bytes(sb2, img.superblock@);
    assert(mr == mr2);
    lemma_new_vault_opens(img, sb, kek, mk, ck, mr, h, sm, kek2, mk2);
}

/// The file of a new vault for a salt, vault id, creation time and the
/// keys derived for them, sealed with the given random values: the
/// superblock at the minimum block count, and slot A sealed under the keys
/// with the empty table of a fresh allocator at epoch 1. It never fails.
pub fn build_vault_image_with(
    crypto: &crate::engine::DefaultCryptoEngine,
    salt: [u8; 32],
    vid: [u8; 16],
    timestamp: u64,
    kek: &crate::types::KeyKEK,
    mk: &crate::types::KeyMK,
    draws: SealDraws,
) -> (r: Result<VaultImage, VaultError>)
    ensures
        r is Ok,
        r matches Ok(img) ==> img.vid@ == vid@ && vault_image_keyed(
            img,
            salt@,
            vid@,
            timestamp,
            kek@,
            mk@,
        ),
{
    let total_blocks = crate::config::MIN_TOTAL_BLOCKS;
    let superblock = crate::layout::Superblock::new(salt, vid, timestamp, total_blocks);
    let mut header = VaultHeader::new(CRYPTO_VERSION, 1);
    let space_manager = match SpaceManager::new(total_blocks) {
        Ok(m) => m,
        Err(_) => {
            return Err(VaultError::new(VaultErrorKind::OperationFailed));
        },
    };
    let empty: Vec<FileTableEntry> = Vec::new();
    proof {
        space_manager.lemma_wf();
    }
    let slot_a = seal_header_slot_with(
        crypto,
        kek,
        mk,
        &mut header,
        empty.as_slice(),
        &space_manager,
        draws,
    )?;
    let img = VaultImage {
        vid,
        file_len: total_blocks * (BLOCK_SIZE as u64),
        superblock: superblock.to_bytes(),
        slot_a,
    };
    proof {
        assert(empty@ =~= Seq::<FileTableEntry>::empty());
        kek.lemma_len();
        mk.lemma_len();
        assert(image_parts(img, superblock, kek@, mk@, header, space_manager));
    }
    Ok(img)
}

/// The file of a new vault for a salt, vault id, creation time and keys:
/// as `build_vault_image_with`, with the sealing's random values drawn from
/// the CSPRNG; only that draw can make it fail (`OperationFailed`).
pub fn build_vault_image(
    crypto: &crate::engine::DefaultCryptoEngine,
    salt: [u8; 32],
    vid: [u8; 16],
    timestamp: u64,
    kek: &crate::types::KeyKEK,
    mk: &crate::types::KeyMK,
) -> (r: Result<VaultImage, VaultError>)
    ensures
        r matches Err(e) ==> e.kind == VaultErrorKind::OperationFailed,
        r matches Ok(img) ==> img.vid@ == vid@ && vault_image_keyed(
            img,
            salt@,
            vid@,
            timestamp,
            kek@,
            mk@,
        ),
{
    let draws = draw_seal(crypto)?;
    build_vault_image_with(crypto, salt, vid, timestamp, kek, mk, draws)
}

/// A new vault opens again with keys cut from the master root it was made
/// with: the first 64 bytes of the leaf expansion of that master root, for
/// the vault's id and creation time, are the key-encryption and MAC keys
/// that open slot A to the empty table of a fresh allocator at epoch 1.
pub proof fn lemma_new_vault_opens(
    img: VaultImage,
    sb: crate::layout::Superblock,
    kek: Seq<u8>,
    mk: Seq<u8>,
    ck: Seq<u8>,
    mr: Seq<u8>,
    h: VaultHeader,
    sm: SpaceManager,
    kek2: Seq<u8>,
    mk2: Seq<u8>,
)
    requires
        vault_image_fits(img, sb, kek, mk, ck, mr, h, sm),
        kek2.len() == 32,
        crate::engine::leaf_okm(mr, sb.spec_vid(), sb.spec_timestamp()).subrange(0, 64) == kek2
            + mk2,
    ensures
        kek2 == kek,
        mk2 == mk,
        slot_open_spec(img.slot_a@, kek2, mk2) == Ok::<Seq<u8>, VaultErrorKind>(
            header_plaintext(h, sm.bits(), Seq::<FileTableEntry>::empty()),
        ),
{
    let okm = crate::engine::leaf_okm(mr, sb.spec_vid(), sb.spec_timestamp());
    assert(okm.subrange(0, 64) =~= kek + mk);
    assert(kek2 =~= (kek2 + mk2).subrange(0, 32));
    assert(kek =~= (kek + mk).subrange(0, 32));
    assert(mk2 =~= (kek2 + mk2).subrange(32, (kek2 + mk2).len() as int));
    assert(mk =~= (kek + mk).subrange(32, 64));
}

/// A new vault's file made with `password` through `enclave` from the
/// given salt, vault id and creation time: `created_with`, with those in
/// its superblock.
pub open spec fn created_from<E: crate::hsp::HardwareEnclave + ?Sized>(
    img: VaultImage,
    enclave: &E,
    password: Seq<u8>,
    salt: Seq<u8>,
    vid: Seq<u8>,
    timestamp: u64,
) -> bool {
    exists|sb: crate::layout::Superblock, kek: Seq<u8>, mk: Seq<u8>, ck: Seq<u8>, mr: Seq<u8>, h: VaultHeader, sm: SpaceManager|
        #[trigger] vault_image_fits(img, sb, kek, mk, ck, mr, h, sm) && enclave.spec_signs(
            crate::engine::user_root_spec(password, salt, vault_kdf_spec()),
            mr,
        ) && sb.spec_salt() == salt && sb.spec_vid() == vid && sb.spec_timestamp() == timestamp
}

/// Build a new vault's file from a password, with the salt, vault id and
/// creation time given and the sealing's random values given.
/// `InvalidInput` exactly for a password shorter than `MIN_PASSWORD_LEN`;
/// otherwise it fails only when the password is over `u32::MAX` bytes
/// (`OperationFailed`) or the enclave refuses the user root (its error);
/// on success the image is made from those values through the enclave.
pub fn create_vault_image_with<E: crate::hsp::HardwareEnclave + ?Sized>(
    crypto: &crate::engine::DefaultCryptoEngine,
    enclave: &E,
    password: &[u8],
    salt: [u8; 32],
    vid: [u8; 16],
    timestamp: u64,
    draws: SealDraws,
) -> (r: Result<VaultImage, VaultError>)
    ensures
        password@.len() < crate::config::MIN_PASSWORD_LEN ==> (r matches Err(e) && e.kind
            == VaultErrorKind::InvalidInput),
        r matches Ok(img) ==> img.vid@ == vid@ && vault_image_ok(img) && created_with(
            img,
            enclave,
            password@,
        ) && created_from(img, enclave, password@, salt@, vid@, timestamp),
        password@.len() >= crate::config::MIN_PASSWORD_LEN ==> (r matches Err(e) ==> (
        password@.len() > u32::MAX && e.kind == VaultErrorKind::OperationFailed)
            || enclave.spec_refuses(
            crate::engine::user_root_spec(password@, salt@, vault_kdf_spec()),
            e,
        )),
{
    if password.len() < crate::config::MIN_PASSWORD_LEN {
        return Err(VaultError::new(VaultErrorKind::InvalidInput));
    }
    let params = vault_kdf_params();
    let (kek, mk, ck) = crypto.derive_root_keys(password, &salt, enclave, &vid, timestamp, &params)?;
    let img = build_vault_image_with(crypto, salt, vid, timestamp, &kek, &mk, draws)?;
    proof {
        let mr = choose|mr: Seq<u8>|
            mr.len() == 64 && enclave.spec_signs(
                crate::engine::user_root_spec(password@, salt@, params),
                mr,
            ) && #[trigger] crate::engine::leaf_okm(mr, vid@, timestamp) == kek@ + mk@ + ck@;
        let (sb, h, sm) = choose|sb: crate::layout::Superblock, h: VaultHeader, sm: SpaceManager|
            #[trigger] image_parts(img, sb, kek@, mk@, h, sm) && sb.spec_salt() == salt@
                && sb.spec_vid() == vid@ && sb.spec_timestamp() == timestamp;
        assert(vault_image_fits(img, sb, kek@, mk@, ck@, mr, h, sm));
        assert(created_with(img, enclave, password@));
        assert(created_from(img, enclave, password@, salt@, vid@, timestamp));
    }
    Ok(img)
}

/// Build a new vault's file. `InvalidInput` for a password shorter than
/// `MIN_PASSWORD_LEN`; then random salt and vault id, the creation time and
/// the sealing's random values, then `create_vault_image_with` (errors of
/// each step pass through).
pub fn create_vault_image<E: crate::hsp::HardwareEnclave + ?Sized>(
    crypto: &crate::engine::DefaultCryptoEngine,
    enclave: &E,
    password: &[u8],
) -> (r: Result<VaultImage, VaultError>)
    ensures
        password@.len() < crate::config::MIN_PASSWORD_LEN ==> (r matches Err(e) && e.kind
            == VaultErrorKind::InvalidInput),
        r matches Ok(img) ==> vault_image_ok(img) && created_with(img, enclave, password@),
        password@.len() >= crate::config::MIN_PASSWORD_LEN ==> (r matches Err(e) ==> e.kind
            == VaultErrorKind::OperationFailed || exists|salt: Seq<u8>|
            enclave.spec_refuses(
                #[trigger] crate::engine::user_root_spec(password@, salt, vault_kdf_spec()),
                e,
            )),
{
    if password.len() < crate::config::MIN_PASSWORD_LEN {
        return Err(VaultError::new(VaultErrorKind::InvalidInput));
    }
    let salt_vec = crypto.csprng(crate::config::SALT_LEN)?;
    let salt: [u8; 32] = crate::codec::copy_array(salt_vec.as_slice(), 0);
    let vid_vec = crypto.csprng(crate::config::VID_LEN)?;
    let vid: [u8; 16] = crate::codec::copy_array(vid_vec.as_slice(), 0);
    let timestamp = get_timestamp()?;
    let draws = draw_seal(crypto)?;
    create_vault_image_with(crypto, enclave, password, salt, vid, timestamp, draws)
}

/// Keys for unlocking: parse the superblock bytes (its errors pass
/// through), then derive the root keys from the password, its salt, the
/// enclave, its vault id and creation time.
pub fn unlock_keys<E: crate::hsp::HardwareEnclave + ?Sized>(
    crypto: &crate::engine::DefaultCryptoEngine,
    enclave: &E,
    password: &[u8],
    superblock_bytes: &[u8],
) -> (r: Result<(crate::layout::Superblock, crate::types::KeyKEK, crate::types::KeyMK), VaultError>)
    ensures
        crate::layout::superblock_parse_outcome(superblock_bytes@) matches Err(e) ==> r == Err::<
            (crate::layout::Superblock, crate::types::KeyKEK, crate::types::KeyMK),
            VaultError,
        >(e),
        r matches Ok(out) ==> {
            &&& out.0.encoded() == superblock_bytes@
            &&& crate::layout::superblock_check(out.0.encoded()) is Ok
            &&& unlocked_with(enclave, password@, out.0, out.1@, out.2@)
        },
        crate::layout::superblock_parse_outcome(superblock_bytes@) is Ok && password@.len() > u32::MAX
            ==> (r matches Err(e) && e.kind == VaultErrorKind::OperationFailed),
        r matches Err(e) ==> (crate::layout::superblock_parse_outcome(superblock_bytes@) is Ok
            && password@.len() <= u32::MAX ==> exists|sb: crate::layout::Superblock|
            sb.encoded() == superblock_bytes@ && enclave.spec_refuses(
                #[trigger] crate::engine::user_root_spec(password@, sb.spec_salt(), vault_kdf_spec()),
                e,
            )),
{
    let superblock = crate::layout::Superblock::parse(superblock_bytes)?;
    proof {
        crate::layout::lemma_superblock_fields_from_bytes(superblock, superblock.encoded());
    }
    let params = vault_kdf_params();
    let (kek, mk, mut ck) = crypto.derive_root_keys(
        password,
        superblock.salt(),
        enclave,
        superblock.vid(),
        superblock.created_timestamp(),
        &params,
    )?;
    let ghost ckv = ck@;
    ck.zeroize();
    proof {
        let mr = choose|mr: Seq<u8>|
            mr.len() == 64 && enclave.spec_signs(
                crate::engine::user_root_spec(password@, superblock.spec_salt(), params),
                mr,
            ) && #[trigger] crate::engine::leaf_okm(
                mr,
                superblock.spec_vid(),
                superblock.spec_timestamp(),
            ) == kek@ + mk@ + ckv;
        assert(crate::engine::leaf_okm(mr, superblock.spec_vid(), superblock.spec_timestamp())
            == kek@ + mk@ + ckv);
        kek.lemma_len();
        mk.lemma_len();
        assert(crate::engine::leaf_okm(mr, superblock.spec_vid(), superblock.spec_timestamp()).subrange(0, 64)
            =~= kek@ + mk@);
        assert(unlocked_with(enclave, password@, superblock, kek@, mk@));
    }
    Ok((superblock, kek, mk))
}

} // verus!
