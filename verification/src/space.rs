//! Block allocation manager.
//!
//! One bit per block, least significant bit first inside each byte:
//! bit = 0 means the block is free, bit = 1 means it is allocated.
//! The first `RESERVED_BLOCKS` blocks hold the superblock and the header
//! region and are marked allocated when a manager is created.

use vstd::prelude::*;
use vstd::slice::slice_to_vec;

use crate::config::MAX_TOTAL_BLOCKS;
use crate::error::{VaultError, VaultErrorKind};

verus! {

/// Reserved blocks for metadata (`DATA_REGION_START / BLOCK_SIZE`).
pub const RESERVED_BLOCKS: u64 = 256;

/// Bit `i` of a bitmap: bit `i % 8` of byte `i / 8`.
pub open spec fn bit_at(bm: Seq<u8>, i: int) -> bool {
    (bm[i / 8] >> ((i % 8) as u8)) & 1u8 == 1u8
}

/// Number of bytes that hold `total` bits.
pub open spec fn bitmap_len_for(total: nat) -> nat {
    (total + 7) / 8
}

/// Blocks `s .. s + c` are all free in `bm`.
pub open spec fn run_free(bm: Seq<u8>, s: int, c: int) -> bool {
    forall|i: int| s <= i < s + c ==> !#[trigger] bit_at(bm, i)
}

/// No run of `c` free blocks lies entirely inside `[lo, hi)`.
pub open spec fn no_run_in(bm: Seq<u8>, lo: int, hi: int, c: int) -> bool {
    forall|s: int| lo <= s && s + c <= hi ==> !#[trigger] run_free(bm, s, c)
}

/// `new` differs from `old` exactly in the blocks `start .. start + count`,
/// which are set to `value`; both have the same length.
pub open spec fn bits_set_in_range(
    old: Seq<u8>,
    new: Seq<u8>,
    start: int,
    count: int,
    value: bool,
) -> bool {
    &&& new.len() == old.len()
    &&& forall|i: int|
        0 <= i < 8 * old.len() ==> #[trigger] bit_at(new, i) == (if start <= i < start + count {
            value
        } else {
            bit_at(old, i)
        })
}

proof fn lemma_bit_or(b: u8, k: u8, j: u8)
    requires
        k < 8,
        j < 8,
    ensures
        ((b | (1u8 << k)) >> j) & 1u8 == (if j == k {
            1u8
        } else {
            (b >> j) & 1u8
        }),
{
    assert(((b | (1u8 << k)) >> j) & 1u8 == (if j == k {
        1u8
    } else {
        (b >> j) & 1u8
    })) by (bit_vector)
        requires
            k < 8,
            j < 8,
    ;
}

proof fn lemma_bit_clear(b: u8, k: u8, j: u8)
    requires
        k < 8,
        j < 8,
    ensures
        ((b & !(1u8 << k)) >> j) & 1u8 == (if j == k {
            0u8
        } else {
            (b >> j) & 1u8
        }),
{
    assert(((b & !(1u8 << k)) >> j) & 1u8 == (if j == k {
        0u8
    } else {
        (b >> j) & 1u8
    })) by (bit_vector)
        requires
            k < 8,
            j < 8,
    ;
}

proof fn lemma_zero_byte_bits(j: u8)
    requires
        j < 8,
    ensures
        (0u8 >> j) & 1u8 == 0u8,
{
    assert((0u8 >> j) & 1u8 == 0u8) by (bit_vector)
        requires
            j < 8,
    ;
}

proof fn lemma_bit_is_0_or_1(b: u8, j: u8)
    requires
        j < 8,
    ensures
        (b >> j) & 1u8 == 0u8 || (b >> j) & 1u8 == 1u8,
{
    assert((b >> j) & 1u8 == 0u8 || (b >> j) & 1u8 == 1u8) by (bit_vector);
}

/// Two bytes with the same eight bits are the same byte.
proof fn lemma_byte_from_bits(a: u8, b: u8)
    requires
        (a >> 0u8) & 1u8 == (b >> 0u8) & 1u8,
        (a >> 1u8) & 1u8 == (b >> 1u8) & 1u8,
        (a >> 2u8) & 1u8 == (b >> 2u8) & 1u8,
        (a >> 3u8) & 1u8 == (b >> 3u8) & 1u8,
        (a >> 4u8) & 1u8 == (b >> 4u8) & 1u8,
        (a >> 5u8) & 1u8 == (b >> 5u8) & 1u8,
        (a >> 6u8) & 1u8 == (b >> 6u8) & 1u8,
        (a >> 7u8) & 1u8 == (b >> 7u8) & 1u8,
    ensures
        a == b,
{
    assert(a == b) by (bit_vector)
        requires
            (a >> 0u8) & 1u8 == (b >> 0u8) & 1u8,
            (a >> 1u8) & 1u8 == (b >> 1u8) & 1u8,
            (a >> 2u8) & 1u8 == (b >> 2u8) & 1u8,
            (a >> 3u8) & 1u8 == (b >> 3u8) & 1u8,
            (a >> 4u8) & 1u8 == (b >> 4u8) & 1u8,
            (a >> 5u8) & 1u8 == (b >> 5u8) & 1u8,
            (a >> 6u8) & 1u8 == (b >> 6u8) & 1u8,
            (a >> 7u8) & 1u8 == (b >> 7u8) & 1u8,
    ;
}

/// Two bitmaps of the same length with the same bits are equal.
pub proof fn lemma_bitmap_ext(a: Seq<u8>, b: Seq<u8>)
    requires
        a.len() == b.len(),
        forall|i: int| 0 <= i < 8 * a.len() ==> #[trigger] bit_at(a, i) == bit_at(b, i),
    ensures
        a == b,
{
    assert forall|k: int| 0 <= k < a.len() implies a[k] == b[k] by {
        assert forall|j: u8| j < 8 implies (a[k] >> j) & 1u8 == (b[k] >> j) & 1u8 by {
            let i = 8 * k + j as int;
            assert(i / 8 == k && i % 8 == j as int);
            assert(bit_at(a, i) == bit_at(b, i));
            lemma_bit_is_0_or_1(a[k], j);
            lemma_bit_is_0_or_1(b[k], j);
        }
        assert((a[k] >> 0u8) & 1u8 == (b[k] >> 0u8) & 1u8);
        assert((a[k] >> 1u8) & 1u8 == (b[k] >> 1u8) & 1u8);
        assert((a[k] >> 2u8) & 1u8 == (b[k] >> 2u8) & 1u8);
        assert((a[k] >> 3u8) & 1u8 == (b[k] >> 3u8) & 1u8);
        assert((a[k] >> 4u8) & 1u8 == (b[k] >> 4u8) & 1u8);
        assert((a[k] >> 5u8) & 1u8 == (b[k] >> 5u8) & 1u8);
        assert((a[k] >> 6u8) & 1u8 == (b[k] >> 6u8) & 1u8);
        assert((a[k] >> 7u8) & 1u8 == (b[k] >> 7u8) & 1u8);
        lemma_byte_from_bits(a[k], b[k]);
    }
    assert(a =~= b);
}

/// Bitmap-based block allocator.
pub struct SpaceManager {
    bitmap: Vec<u8>,
    total_blocks: u64,
}

impl View for SpaceManager {
    type V = Seq<bool>;

    /// One entry per bit of the bitmap (blocks past `total_blocks` included,
    /// since the last byte may hold padding bits).
    closed spec fn view(&self) -> Seq<bool> {
        Seq::new(8 * self.bitmap@.len(), |i: int| bit_at(self.bitmap@, i))
    }
}

impl SpaceManager {
    /// The raw bitmap bytes.
    pub closed spec fn bits(&self) -> Seq<u8> {
        self.bitmap@
    }

    /// Number of managed blocks.
    pub closed spec fn total(&self) -> nat {
        self.total_blocks as nat
    }

    /// Block `i` is marked allocated.
    pub open spec fn is_allocated(&self, i: int) -> bool {
        bit_at(self.bits(), i)
    }

    /// Well-formedness: the bitmap holds exactly `ceil(total / 8)` bytes.
    pub closed spec fn wf(&self) -> bool {
        self.bitmap@.len() == bitmap_len_for(self.total_blocks as nat)
    }

    /// The view lists the bits of the bitmap in block order.
    pub proof fn lemma_view(&self)
        ensures
            self@.len() == 8 * self.bits().len(),
            forall|i: int| 0 <= i < self@.len() ==> #[trigger] self@[i] == self.is_allocated(i),
    {
    }

    /// Facts that hold of every well-formed manager.
    pub proof fn lemma_wf(&self)
        requires
            self.wf(),
        ensures
            self.bits().len() == bitmap_len_for(self.total()),
            self.total() <= 8 * self.bits().len(),
    {
    }

    /// Create a manager for `total_blocks` blocks with the reserved metadata
    /// blocks (the first `min(RESERVED_BLOCKS, total_blocks)`) marked
    /// allocated. Fails with `ParameterOutOfRange` when the bitmap length
    /// does not fit in `usize`.
    pub fn new(total_blocks: u64) -> (r: Result<Self, VaultError>)
        ensures
            r is Err <==> bitmap_len_for(total_blocks as nat) > usize::MAX,
            r is Err ==> r->Err_0.kind == VaultErrorKind::ParameterOutOfRange,
            r matches Ok(m) ==> {
                &&& m.wf()
                &&& m.total() == total_blocks
                &&& m.bits().len() == bitmap_len_for(total_blocks as nat)
                &&& forall|i: int|
                    0 <= i < 8 * m.bits().len() ==> #[trigger] m.is_allocated(i) == (i
                        < RESERVED_BLOCKS && i < total_blocks)
            },
    {
        let bitmap_size: u64 = total_blocks / 8 + if total_blocks % 8 == 0 {
            0
        } else {
            1
        };
        if bitmap_size > usize::MAX as u64 {
            return Err(VaultError::new(VaultErrorKind::ParameterOutOfRange));
        }
        let n = bitmap_size as usize;
        let mut bitmap: Vec<u8> = Vec::new();
        while bitmap.len() < n
            invariant
                bitmap@.len() <= n,
                forall|k: int| 0 <= k < bitmap@.len() ==> bitmap@[k] == 0u8,
            decreases n - bitmap@.len(),
        {
            bitmap.push(0u8);
        }
        let reserved = if RESERVED_BLOCKS < total_blocks {
            RESERVED_BLOCKS
        } else {
            total_blocks
        };
        let mut m = SpaceManager { bitmap, total_blocks };
        proof {
            assert forall|i: int| 0 <= i < 8 * m.bitmap@.len() implies !#[trigger] bit_at(
                m.bitmap@,
                i,
            ) by {
                lemma_zero_byte_bits((i % 8) as u8);
            }
        }
        let res = m.mark_range(0, reserved, true);
        match res {
            Ok(()) => {},
            Err(e) => {
                return Err(e);
            },
        }
        Ok(m)
    }

    /// Rebuild a manager from a stored bitmap. The bitmap must hold exactly
    /// `ceil(total_blocks / 8)` bytes (else `IntegrityError`).
    pub fn from_bytes(bytes: Vec<u8>, total_blocks: u64) -> (r: Result<Self, VaultError>)
        ensures
            r is Ok <==> bytes@.len() == bitmap_len_for(total_blocks as nat),
            r is Err ==> r->Err_0.kind == VaultErrorKind::IntegrityError,
            r matches Ok(m) ==> {
                &&& m.wf()
                &&& m.bits() == bytes@
                &&& m.total() == total_blocks
            },
    {
        let expected_size: u64 = total_blocks / 8 + if total_blocks % 8 == 0 {
            0
        } else {
            1
        };
        if bytes.len() as u64 != expected_size {
            return Err(VaultError::new(VaultErrorKind::IntegrityError));
        }
        Ok(Self { bitmap: bytes, total_blocks })
    }

    /// Bitmap length in bytes.
    pub fn bitmap_size(&self) -> (n: u64)
        ensures
            n == self.bits().len(),
    {
        self.bitmap.len() as u64
    }

    /// Copy of the bitmap bytes.
    pub fn export_bitmap(&self) -> (b: Vec<u8>)
        ensures
            b@ == self.bits(),
    {
        slice_to_vec(self.bitmap.as_slice())
    }

    /// Number of managed blocks.
    pub fn total_blocks(&self) -> (n: u64)
        ensures
            n == self.total(),
    {
        self.total_blocks
    }

    /// Grow the number of manageable blocks by `additional_blocks`.
    ///
    /// Zero is a no-op. The new total must not overflow (`ParameterOutOfRange`)
    /// nor exceed `MAX_TOTAL_BLOCKS` (`CapacityExceeded`). Existing bits are
    /// kept and the bitmap is extended with free bytes.
    pub fn expand(&mut self, additional_blocks: u64) -> (r: Result<(), VaultError>)
        requires
            old(self).wf(),
        ensures
            final(self).wf(),
            final(self).total() == (if r is Ok {
                old(self).total() + additional_blocks
            } else {
                old(self).total() as int
            }),
            additional_blocks == 0 ==> r is Ok && *final(self) == *old(self),
            additional_blocks > 0 ==> {
                &&& (r is Ok <==> old(self).total() + additional_blocks <= MAX_TOTAL_BLOCKS)
                &&& (r matches Err(e) ==> {
                    &&& *final(self) == *old(self)
                    &&& e.kind == (if old(self).total() + additional_blocks > u64::MAX {
                        VaultErrorKind::ParameterOutOfRange
                    } else {
                        VaultErrorKind::CapacityExceeded
                    })
                })
                &&& (r is Ok ==> {
                    &&& final(self).total() == old(self).total() + additional_blocks
                    &&& final(self).bits().len() == bitmap_len_for(final(self).total())
                    &&& final(self).bits().subrange(0, old(self).bits().len() as int) == old(self).bits()
                    &&& forall|k: int|
                        old(self).bits().len() <= k < final(self).bits().len() ==> #[trigger] final(self).bits()[k] == 0u8
                })
            },
    {
        if additional_blocks == 0 {
            return Ok(());
        }
        let new_total = match self.total_blocks.checked_add(additional_blocks) {
            Some(t) => t,
            None => {
                return Err(VaultError::new(VaultErrorKind::ParameterOutOfRange));
            },
        };
        if new_total > MAX_TOTAL_BLOCKS {
            return Err(VaultError::new(VaultErrorKind::CapacityExceeded));
        }
        let current_bytes = self.bitmap.len();
        let new_bytes: usize = (new_total / 8 + if new_total % 8 == 0 {
            0
        } else {
            1
        }) as usize;
        let bytes_to_add = new_bytes.saturating_sub(current_bytes);
        let mut added: usize = 0;
        while added < bytes_to_add
            invariant
                added <= bytes_to_add,
                bytes_to_add == new_bytes - current_bytes,
                current_bytes == old(self).bitmap@.len(),
                self.bitmap@.len() == current_bytes + added,
                self.bitmap@.subrange(0, current_bytes as int) == old(self).bitmap@,
                forall|k: int|
                    current_bytes <= k < self.bitmap@.len() ==> #[trigger] self.bitmap@[k] == 0u8,
                self.total_blocks == old(self).total_blocks,
            decreases bytes_to_add - added,
        {
            self.bitmap.push(0u8);
            added = added + 1;
            assert(self.bitmap@.subrange(0, current_bytes as int) =~= old(self).bitmap@);
        }
        self.total_blocks = new_total;
        Ok(())
    }

    /// Allocate `count` contiguous blocks and return the first one: the
    /// lowest start at or after `RESERVED_BLOCKS` of a run of `count` free
    /// blocks (first fit), which is then marked allocated. `VaultFull` when
    /// no such run exists, `ParameterOutOfRange` for a zero count; nothing
    /// changes on an error.
    pub fn allocate(&mut self, count: u64) -> (r: Result<u64, VaultError>)
        requires
            old(self).wf(),
        ensures
            final(self).wf(),
            allocate_post(*old(self), *final(self), count, r),
    {
        if count == 0 {
            return Err(VaultError::new(VaultErrorKind::ParameterOutOfRange));
        }
        let ghost bm = self.bitmap@;
        let total = self.total_blocks;
        let mut consecutive: u64 = 0;
        let mut start: u64 = RESERVED_BLOCKS;
        let mut idx: u64 = RESERVED_BLOCKS;
        while idx < total
            invariant
                *self == *old(self),
                self.wf(),
                bm == self.bitmap@,
                total == self.total_blocks,
                count > 0,
                RESERVED_BLOCKS <= idx,
                idx <= total || idx == RESERVED_BLOCKS,
                consecutive < count,
                RESERVED_BLOCKS <= start,
                start + consecutive == idx,
                run_free(bm, start as int, consecutive as int),
                start == RESERVED_BLOCKS || bit_at(bm, start - 1),
                no_run_in(bm, RESERVED_BLOCKS as int, idx as int, count as int),
            decreases total - idx,
        {
            let byte_idx_u64 = idx / 8;
            if byte_idx_u64 >= self.bitmap.len() as u64 {
                // Unreachable: `idx` lies below the managed block count.
                return Err(VaultError::new(VaultErrorKind::VaultFull));
            }
            let byte_idx = byte_idx_u64 as usize;
            let bit_idx = (idx % 8) as u8;
            let is_allocated = (self.bitmap[byte_idx] >> bit_idx) & 1 == 1;
            assert(is_allocated == bit_at(bm, idx as int));
            let ghost old_start = start;
            let ghost old_c = consecutive;
            if !is_allocated {
                consecutive = consecutive + 1;
                assert(run_free(bm, start as int, consecutive as int));
                if consecutive == count {
                    let res = self.mark_range(start, count, true);
                    match res {
                        Ok(()) => {},
                        Err(e) => {
                            return Err(e);
                        },
                    }
                    return Ok(start);
                }
            } else {
                consecutive = 0;
                start = idx + 1;
            }
            proof {
                assert forall|s2: int|
                    RESERVED_BLOCKS <= s2 && s2 + count <= idx + 1 implies !#[trigger] run_free(
                    bm,
                    s2,
                    count as int,
                ) by {
                    if s2 + count == idx + 1 {
                        if is_allocated {
                            assert(bit_at(bm, idx as int));
                        } else {
                            assert(s2 < old_start);
                            assert(old_start != RESERVED_BLOCKS);
                            assert(bit_at(bm, old_start - 1));
                        }
                    }
                }
            }
            idx = idx + 1;
        }
        Err(VaultError::new(VaultErrorKind::VaultFull))
    }

    /// Free the blocks `start .. start + count`. The range must lie inside
    /// the data blocks (from `RESERVED_BLOCKS` to the end of the managed
    /// blocks): `ParameterOutOfRange` otherwise, with nothing changed.
    pub fn deallocate(&mut self, start: u64, count: u64) -> (r: Result<(), VaultError>)
        requires
            old(self).wf(),
        ensures
            final(self).wf(),
            deallocate_post(*old(self), *final(self), start, count, r),
    {
        if start < RESERVED_BLOCKS {
            return Err(VaultError::new(VaultErrorKind::ParameterOutOfRange));
        }
        self.mark_range(start, count, false)
    }

    /// Set blocks `start .. start + count` to `value`.
    fn mark_range(&mut self, start: u64, count: u64, value: bool) -> (r: Result<(), VaultError>)
        requires
            old(self).wf(),
        ensures
            final(self).wf(),
            final(self).total() == old(self).total(),
            r is Ok <==> start + count <= old(self).total(),
            r is Ok ==> bits_set_in_range(
                old(self).bits(),
                final(self).bits(),
                start as int,
                count as int,
                value,
            ),
            r matches Err(e) ==> {
                &&& *final(self) == *old(self)
                &&& e.kind == VaultErrorKind::ParameterOutOfRange
            },
    {
        let end = match start.checked_add(count) {
            Some(e) => e,
            None => {
                return Err(VaultError::new(VaultErrorKind::ParameterOutOfRange));
            },
        };
        if end > self.total_blocks {
            return Err(VaultError::new(VaultErrorKind::ParameterOutOfRange));
        }
        let ghost bm = self.bitmap@;
        let mut i: u64 = 0;
        while i < count
            invariant
                i <= count,
                start + count <= self.total_blocks,
                self.total_blocks == old(self).total_blocks,
                bm == old(self).bitmap@,
                self.wf(),
                bits_set_in_range(bm, self.bitmap@, start as int, i as int, value),
            decreases count - i,
        {
            let block_idx = start + i;
            let byte_idx_u64 = block_idx / 8;
            if byte_idx_u64 >= self.bitmap.len() as u64 {
                // Unreachable: the range was checked against `total_blocks`.
                return Err(VaultError::new(VaultErrorKind::IntegrityError));
            }
            let byte_idx = byte_idx_u64 as usize;
            let bit_idx = (block_idx % 8) as u8;
            let ghost cur = self.bitmap@;
            let old_byte = self.bitmap[byte_idx];
            if value {
                self.bitmap[byte_idx] = old_byte | (1u8 << bit_idx);
            } else {
                self.bitmap[byte_idx] = old_byte & !(1u8 << bit_idx);
            }
            proof {
                assert forall|j: int| 0 <= j < 8 * bm.len() implies #[trigger] bit_at(
                    self.bitmap@,
                    j,
                ) == (if start <= j < start + i + 1 {
                    value
                } else {
                    bit_at(bm, j)
                }) by {
                    assert(bit_at(cur, j) == (if start <= j < start + i {
                        value
                    } else {
                        bit_at(bm, j)
                    }));
                    if j / 8 == byte_idx as int {
                        if value {
                            lemma_bit_or(old_byte, bit_idx, (j % 8) as u8);
                        } else {
                            lemma_bit_clear(old_byte, bit_idx, (j % 8) as u8);
                        }
                    }
                }
            }
            i = i + 1;
        }
        Ok(())
    }
}

/// What `allocate(count)` does to a manager (`old` before, `new` after):
/// first fit among the data blocks. A zero count is `ParameterOutOfRange`;
/// otherwise the result is the lowest start `s >= RESERVED_BLOCKS` of a run
/// of `count` free blocks ending inside the managed blocks, which become
/// allocated, or `VaultFull` when there is none. An error changes nothing.
pub open spec fn allocate_post(
    old: SpaceManager,
    new: SpaceManager,
    count: u64,
    r: Result<u64, VaultError>,
) -> bool {
    let bm = old.bits();
    let total = old.total() as int;
    &&& new.total() == old.total()
    &&& (count == 0 ==> r == Err::<u64, VaultError>(VaultError { kind: VaultErrorKind::ParameterOutOfRange }))
    &&& (r matches Ok(s) ==> {
        &&& count > 0
        &&& RESERVED_BLOCKS <= s
        &&& s + count <= total
        &&& run_free(bm, s as int, count as int)
        &&& no_run_in(bm, RESERVED_BLOCKS as int, s + count - 1, count as int)
        &&& bits_set_in_range(bm, new.bits(), s as int, count as int, true)
    })
    &&& (r matches Err(e) ==> {
        &&& new == old
        &&& (count > 0 ==> {
            &&& e.kind == VaultErrorKind::VaultFull
            &&& no_run_in(bm, RESERVED_BLOCKS as int, total, count as int)
        })
    })
}

/// After the managed range grew by `count + 1024` fresh blocks, allocating
/// `count` blocks cannot fail: a free run lies past the old bitmap, inside
/// the data blocks.
pub proof fn lemma_allocate_after_growth(
    old: SpaceManager,
    grown: SpaceManager,
    count: u64,
    new: SpaceManager,
    e: VaultError,
)
    requires
        old.wf(),
        grown.wf(),
        count > 0,
        RESERVED_BLOCKS <= old.total(),
        grown.total() == old.total() + count + 1024,
        forall|k: int|
            old.bits().len() <= k < grown.bits().len() ==> #[trigger] grown.bits()[k] == 0u8,
    ensures
        !allocate_post(grown, new, count, Err(e)),
{
    let bm = grown.bits();
    let total = old.total() as int;
    let f = 8 * old.bits().len();
    assert(total <= f <= total + 7);
    assert(grown.bits().len() == (grown.total() + 7) / 8);
    assert forall|i: int| f <= i < f + count implies !#[trigger] bit_at(bm, i) by {
        assert(old.bits().len() <= i / 8 < bm.len());
        lemma_zero_byte_bits((i % 8) as u8);
    }
    assert(run_free(bm, f as int, count as int));
}

/// What `deallocate(start, count)` does to a manager: inside the data
/// blocks the range is freed; anything else is `ParameterOutOfRange` with
/// nothing changed.
pub open spec fn deallocate_post(
    old: SpaceManager,
    new: SpaceManager,
    start: u64,
    count: u64,
    r: Result<(), VaultError>,
) -> bool {
    &&& new.total() == old.total()
    &&& (r is Ok <==> RESERVED_BLOCKS <= start && start + count <= old.total())
    &&& (r is Ok ==> bits_set_in_range(old.bits(), new.bits(), start as int, count as int, false))
    &&& (r matches Err(e) ==> new == old && e.kind == VaultErrorKind::ParameterOutOfRange)
}

/// A call on a manager with its arguments and result.
pub enum SpaceCall {
    /// `allocate(count)`
    Allocate(u64, Result<u64, VaultError>),
    /// `deallocate(start, count)`
    Deallocate(u64, u64, Result<(), VaultError>),
    /// `expand(additional_blocks)`
    Expand(u64, Result<(), VaultError>),
}

/// `b` is what the call makes of `a`, as far as its contract goes.
pub open spec fn call_post(a: SpaceManager, b: SpaceManager, c: SpaceCall) -> bool {
    match c {
        SpaceCall::Allocate(count, r) => allocate_post(a, b, count, r),
        SpaceCall::Deallocate(start, count, r) => deallocate_post(a, b, start, count, r),
        SpaceCall::Expand(add, r) => b.total() == (if r is Ok {
            a.total() + add
        } else {
            a.total() as int
        }),
    }
}

/// Blocks that a call adds: those of a successful expansion, else none.
pub open spec fn call_added(c: SpaceCall) -> nat {
    match c {
        SpaceCall::Expand(add, r) => if r is Ok {
            add as nat
        } else {
            0
        },
        _ => 0,
    }
}

/// Blocks that a run of calls adds.
pub open spec fn calls_added(cs: Seq<SpaceCall>) -> nat
    decreases cs.len(),
{
    if cs.len() == 0 {
        0
    } else {
        calls_added(cs.drop_last()) + call_added(cs.last())
    }
}

/// The block count after any run of calls: the starting count plus what
/// the successful expansions added; allocation and freeing never change it.
pub proof fn lemma_total_after_calls(ms: Seq<SpaceManager>, cs: Seq<SpaceCall>)
    requires
        ms.len() == cs.len() + 1,
        forall|i: int| 0 <= i < cs.len() ==> call_post(ms[i], ms[i + 1], #[trigger] cs[i]),
    ensures
        ms.last().total() == ms[0].total() + calls_added(cs),
    decreases cs.len(),
{
    if cs.len() > 0 {
        let n = cs.len() as int;
        lemma_total_after_calls(ms.drop_last(), cs.drop_last());
        assert(call_post(ms[n - 1], ms[n], cs[n - 1]));
        assert(ms.drop_last().last() == ms[n - 1]);
    }
}

/// Freeing what an allocation returned restores the bitmap exactly as it was
/// before the allocation.
pub proof fn lemma_deallocate_undoes_allocate(
    before: SpaceManager,
    mid: SpaceManager,
    after: SpaceManager,
    count: u64,
    start: u64,
)
    requires
        before.wf(),
        allocate_post(before, mid, count, Ok(start)),
        deallocate_post(mid, after, start, count, Ok(())),
    ensures
        after.bits() == before.bits(),
        after@ == before@,
        after.total() == before.total(),
{
    let a = before.bits();
    let b = mid.bits();
    let c = after.bits();
    assert forall|i: int| 0 <= i < 8 * a.len() implies #[trigger] bit_at(c, i) == bit_at(a, i) by {
        assert(bit_at(b, i) == (if start <= i < start + count {
            true
        } else {
            bit_at(a, i)
        }));
        assert(bit_at(c, i) == (if start <= i < start + count {
            false
        } else {
            bit_at(b, i)
        }));
        if start <= i < start + count {
            assert(!bit_at(a, i));
        }
    }
    lemma_bitmap_ext(c, a);
    assert(after@ =~= before@);
}

/// A manager rebuilt from its exported bitmap has the same blocks allocated.
pub proof fn lemma_export_then_rebuild(m: SpaceManager, rebuilt: SpaceManager)
    requires
        m.wf(),
        rebuilt.bits() == m.bits(),
        rebuilt.total() == m.total(),
    ensures
        rebuilt@ == m@,
        forall|i: int| #[trigger] rebuilt.is_allocated(i) == m.is_allocated(i),
{
    assert(rebuilt@ =~= m@);
}

} // verus!
