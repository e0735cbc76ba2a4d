//! Layout of the file system on disk and allocation of inodes and data blocks.
//!
//! Block 0 holds the super block; then come the inode bitmap, the inode area,
//! the data bitmap and the data area, in this order.
use vstd::prelude::*;
use crate::config::{BLOCK_SZ, BLOCK_BITS, WORDS_PER_BLOCK, DISK_INODE_SIZE, INODES_PER_BLOCK, EFS_MAGIC,
    INODE_DIRECT_COUNT};
use crate::codec::{u32s_bytes, le_u32s, push_u32s, read_u32s, law_u32s_roundtrip};
use crate::bitmap::{Bitmap, first_clear, is_first_clear, all_set, lemma_first_clear_exists};
use crate::inode::{DiskInode, DiskInodeType, IndexBlocks, covers, released_count, released_data_blocks,
    released_blocks};

verus! {

/// The first block of the file system: how many blocks each area spans.
#[derive(Clone, Copy, Debug)]
pub struct SuperBlock {
    pub magic: u32,
    pub total_blocks: u32,
    pub inode_bitmap_blocks: u32,
    pub inode_area_blocks: u32,
    pub data_bitmap_blocks: u32,
    pub data_area_blocks: u32,
}

impl SuperBlock {
    /// A valid super block recording the given area sizes.
    pub fn new(
        total_blocks: u32,
        inode_bitmap_blocks: u32,
        inode_area_blocks: u32,
        data_bitmap_blocks: u32,
        data_area_blocks: u32,
    ) -> (r: SuperBlock)
        ensures
            r.magic == EFS_MAGIC,
            r.total_blocks == total_blocks,
            r.inode_bitmap_blocks == inode_bitmap_blocks,
            r.inode_area_blocks == inode_area_blocks,
            r.data_bitmap_blocks == data_bitmap_blocks,
            r.data_area_blocks == data_area_blocks,
    {
        SuperBlock {
            magic: EFS_MAGIC,
            total_blocks,
            inode_bitmap_blocks,
            inode_area_blocks,
            data_bitmap_blocks,
            data_area_blocks,
        }
    }

    /// The fields of the super block in their on-disk order.
    pub open spec fn fields(&self) -> Seq<u32> {
        seq![
            self.magic,
            self.total_blocks,
            self.inode_bitmap_blocks,
            self.inode_area_blocks,
            self.data_bitmap_blocks,
            self.data_area_blocks,
        ]
    }

    /// The on-disk bytes of the super block.
    pub fn encode(&self) -> (r: Vec<u8>)
        ensures
            r@ == u32s_bytes(self.fields()),
            r@.len() == SUPER_BLOCK_SIZE,
    {
        let fields = vec![
            self.magic,
            self.total_blocks,
            self.inode_bitmap_blocks,
            self.inode_area_blocks,
            self.data_bitmap_blocks,
            self.data_area_blocks,
        ];
        let mut out: Vec<u8> = Vec::new();
        push_u32s(&mut out, fields.as_slice());
        assert(fields@ =~= self.fields());
        assert(out@ =~= u32s_bytes(self.fields()));
        out
    }

    /// The super block held by the first bytes of `bytes`.
    pub fn decode(bytes: &[u8]) -> (r: SuperBlock)
        requires
            SUPER_BLOCK_SIZE <= bytes@.len(),
        ensures
            r.fields() == le_u32s(bytes@, 0, 6),
    {
        let v = read_u32s(bytes, 0, 6);
        let r = SuperBlock {
            magic: v[0],
            total_blocks: v[1],
            inode_bitmap_blocks: v[2],
            inode_area_blocks: v[3],
            data_bitmap_blocks: v[4],
            data_area_blocks: v[5],
        };
        assert(r.fields() =~= le_u32s(bytes@, 0, 6));
        r
    }

    /// Whether the block carries the file system's magic number.
    pub fn is_valid(&self) -> (r: bool)
        ensures
            r == (self.magic == EFS_MAGIC),
    {
        self.magic == EFS_MAGIC
    }
}

/// Size in bytes of the encoded super block.
pub const SUPER_BLOCK_SIZE: usize = 24;

/// Decoding the encoding of a super block gives it back.
pub proof fn law_super_block_roundtrip(sb: SuperBlock)
    ensures
        le_u32s(u32s_bytes(sb.fields()), 0, 6) == sb.fields(),
{
    law_u32s_roundtrip(sb.fields());
}

/// Number of inode area blocks needed for the inodes of `inode_bitmap_blocks` bitmap blocks.
pub open spec fn inode_area_blocks_for(inode_bitmap_blocks: int) -> int {
    (inode_bitmap_blocks * BLOCK_BITS * DISK_INODE_SIZE + BLOCK_SZ - 1) / (BLOCK_SZ as int)
}

/// Number of data bitmap blocks chosen for `data_total_blocks` blocks shared by
/// the data bitmap and the data area.
pub open spec fn data_bitmap_blocks_for(data_total_blocks: int) -> int {
    (data_total_blocks + 4096) / 4097
}

/// The bitmap `v` with the bits of `blocks` cleared, where bit `i` stands for block `start + i`.
pub open spec fn cleared(v: Seq<bool>, blocks: Seq<u32>, start: u32) -> Seq<bool> {
    Seq::new(
        v.len(),
        |i: int| v[i] && !(exists|k: int| 0 <= k < blocks.len() && blocks[k] - start == i),
    )
}

/// Whether every block of `blocks` is a distinct block of the area starting at
/// `start` whose bit is set in `v`.
pub open spec fn releasable(v: Seq<bool>, blocks: Seq<u32>, start: u32) -> bool {
    &&& blocks.no_duplicates()
    &&& forall|k: int|
        0 <= k < blocks.len() ==> {
            &&& start <= #[trigger] blocks[k]
            &&& blocks[k] - start < v.len()
            &&& v[blocks[k] - start]
        }
}

/// An easy file system: the allocation state of its inodes and data blocks and
/// where its inode and data areas start.
pub struct EasyFileSystem {
    pub inode_bitmap: Bitmap,
    pub data_bitmap: Bitmap,
    pub inode_area_start_block: u32,
    pub data_area_start_block: u32,
}

impl EasyFileSystem {
    /// Both bitmaps are well formed.
    pub open spec fn wf(&self) -> bool {
        &&& self.inode_bitmap.wf()
        &&& self.data_bitmap.wf()
    }

    /// Whether the layout of the file system is the one `sb` records.
    pub open spec fn follows(&self, sb: SuperBlock) -> bool {
        &&& self.inode_bitmap.spec_start_block_id() == 1
        &&& self.inode_bitmap.spec_blocks() == sb.inode_bitmap_blocks
        &&& self.data_bitmap.spec_start_block_id() == 1 + sb.inode_bitmap_blocks
            + sb.inode_area_blocks
        &&& self.data_bitmap.spec_blocks() == sb.data_bitmap_blocks
        &&& self.inode_area_start_block == 1 + sb.inode_bitmap_blocks
        &&& self.data_area_start_block == 1 + sb.inode_bitmap_blocks + sb.inode_area_blocks
            + sb.data_bitmap_blocks
    }

    /// Lays out a new file system of `total_blocks` blocks whose inode bitmap spans
    /// `inode_bitmap_blocks` blocks, and allocates the root inode, which is inode 0.
    /// Returns the file system, the super block to write at block 0, and the root
    /// inode to write at inode 0's position: an empty directory.
    pub fn create(total_blocks: u32, inode_bitmap_blocks: u32) -> (r: (
        EasyFileSystem,
        SuperBlock,
        DiskInode,
    ))
        requires
            inode_bitmap_blocks > 0,
            inode_bitmap_blocks * BLOCK_BITS * DISK_INODE_SIZE + BLOCK_SZ - 1 <= usize::MAX,
            1 + inode_bitmap_blocks + inode_area_blocks_for(inode_bitmap_blocks as int) <= total_blocks,
            total_blocks - 1 - inode_bitmap_blocks - inode_area_blocks_for(inode_bitmap_blocks as int)
                + 4096 <= u32::MAX,
            data_bitmap_blocks_for(
                total_blocks - 1 - inode_bitmap_blocks - inode_area_blocks_for(inode_bitmap_blocks as int),
            ) * BLOCK_BITS <= usize::MAX,
        ensures
            ({
                let (efs, sb, root) = r;
                let iab = inode_area_blocks_for(inode_bitmap_blocks as int);
                let dtb = total_blocks - 1 - inode_bitmap_blocks - iab;
                let dbb = data_bitmap_blocks_for(dtb);
                &&& efs.wf()
                &&& sb.magic == EFS_MAGIC
                &&& sb.total_blocks == total_blocks
                &&& sb.inode_bitmap_blocks == inode_bitmap_blocks
                &&& sb.inode_area_blocks == iab
                &&& sb.data_bitmap_blocks == dbb
                &&& sb.data_area_blocks == dtb - dbb
                &&& efs.inode_bitmap.spec_start_block_id() == 1
                &&& efs.inode_bitmap.spec_blocks() == inode_bitmap_blocks
                &&& efs.data_bitmap.spec_start_block_id() == 1 + inode_bitmap_blocks + iab
                &&& efs.data_bitmap.spec_blocks() == dbb
                &&& efs.inode_area_start_block == 1 + inode_bitmap_blocks
                &&& efs.data_area_start_block == 1 + inode_bitmap_blocks + iab + dbb
                &&& efs.inode_bitmap@.len() == inode_bitmap_blocks * BLOCK_BITS
                &&& efs.inode_bitmap@[0]
                &&& forall|i: int| 1 <= i < efs.inode_bitmap@.len() ==> !#[trigger] efs.inode_bitmap@[i]
                &&& efs.data_bitmap@.len() == dbb * BLOCK_BITS
                &&& forall|i: int| 0 <= i < efs.data_bitmap@.len() ==> !#[trigger] efs.data_bitmap@[i]
                &&& efs.follows(sb)
                &&& root.type_ == DiskInodeType::Directory
                &&& root.size == 0
                &&& root.indirect1 == 0
                &&& root.indirect2 == 0
                &&& forall|i: int| 0 <= i < INODE_DIRECT_COUNT ==> #[trigger] root.direct@[i] == 0
            }),
    {
        let inode_bitmap = Bitmap::new(1, inode_bitmap_blocks as usize);
        let inode_num = inode_bitmap.maximum();
        let inode_area_blocks = ((inode_num * DISK_INODE_SIZE + BLOCK_SZ - 1) / BLOCK_SZ) as u32;
        let inode_total_blocks = inode_bitmap_blocks + inode_area_blocks;
        let data_total_blocks = total_blocks - 1 - inode_total_blocks;
        let data_bitmap_blocks = (data_total_blocks + 4096) / 4097;
        let data_area_blocks = data_total_blocks - data_bitmap_blocks;
        let data_bitmap = Bitmap::new(
            (1 + inode_bitmap_blocks + inode_area_blocks) as usize,
            data_bitmap_blocks as usize,
        );
        let mut efs = EasyFileSystem {
            inode_bitmap,
            data_bitmap,
            inode_area_start_block: 1 + inode_bitmap_blocks,
            data_area_start_block: 1 + inode_total_blocks + data_bitmap_blocks,
        };
        let sb = SuperBlock::new(
            total_blocks,
            inode_bitmap_blocks,
            inode_area_blocks,
            data_bitmap_blocks,
            data_area_blocks,
        );
        proof {
            assert(is_first_clear(efs.inode_bitmap@, 0));
        }
        let root_id = efs.alloc_inode();
        assert(root_id == 0);
        let root = DiskInode::new(DiskInodeType::Directory);
        (efs, sb, root)
    }

    /// Whether `create` accepts these sizes: at least one inode bitmap block, the
    /// areas fit on the disk, and the sizes stay within machine integers.
    pub fn can_create(total_blocks: u32, inode_bitmap_blocks: u32) -> (r: bool)
        ensures
            r == ({
                &&& inode_bitmap_blocks > 0
                &&& inode_bitmap_blocks * BLOCK_BITS * DISK_INODE_SIZE + BLOCK_SZ - 1 <= usize::MAX
                &&& 1 + inode_bitmap_blocks + inode_area_blocks_for(inode_bitmap_blocks as int)
                    <= total_blocks
                &&& total_blocks - 1 - inode_bitmap_blocks - inode_area_blocks_for(
                    inode_bitmap_blocks as int,
                ) + 4096 <= u32::MAX
                &&& data_bitmap_blocks_for(
                    total_blocks - 1 - inode_bitmap_blocks - inode_area_blocks_for(
                        inode_bitmap_blocks as int,
                    ),
                ) * BLOCK_BITS <= usize::MAX
            }),
    {
        if inode_bitmap_blocks == 0 {
            return false;
        }
        let ibb = inode_bitmap_blocks as u64;
        let total = total_blocks as u64;
        if ibb > (usize::MAX as u64 - (BLOCK_SZ as u64 - 1)) / ((BLOCK_BITS * DISK_INODE_SIZE) as u64) {
            return false;
        }
        let iab = ibb * 1024;
        proof {
            assert(inode_area_blocks_for(inode_bitmap_blocks as int) == iab);
        }
        if 1 + ibb + iab > total {
            return false;
        }
        let dtb = total - 1 - ibb - iab;
        if dtb + 4096 > u32::MAX as u64 {
            return false;
        }
        let dbb = (dtb + 4096) / 4097;
        dbb <= (usize::MAX / BLOCK_BITS) as u64
    }

    /// Whether `open` accepts the super block: it carries the magic number and
    /// its area sizes stay within machine integers.
    pub fn can_open(sb: &SuperBlock) -> (r: bool)
        ensures
            r == ({
                &&& sb.magic == EFS_MAGIC
                &&& 1 + sb.inode_bitmap_blocks + sb.inode_area_blocks + sb.data_bitmap_blocks
                    <= u32::MAX
                &&& sb.inode_bitmap_blocks * BLOCK_BITS <= usize::MAX
                &&& sb.data_bitmap_blocks * BLOCK_BITS <= usize::MAX
            }),
    {
        if !sb.is_valid() {
            return false;
        }
        let sum = 1u64 + sb.inode_bitmap_blocks as u64 + sb.inode_area_blocks as u64
            + sb.data_bitmap_blocks as u64;
        if sum > u32::MAX as u64 {
            return false;
        }
        let limit = usize::MAX / BLOCK_BITS;
        (sb.inode_bitmap_blocks as u64) <= limit as u64 && (sb.data_bitmap_blocks as u64)
            <= limit as u64
    }

    /// Opens a file system from its super block and the words of its two bitmaps
    /// as read from disk.
    pub fn open(sb: &SuperBlock, inode_bitmap_words: Vec<u64>, data_bitmap_words: Vec<u64>) -> (r:
        EasyFileSystem)
        requires
            sb.magic == EFS_MAGIC,
            1 + sb.inode_bitmap_blocks + sb.inode_area_blocks + sb.data_bitmap_blocks <= u32::MAX,
            sb.inode_bitmap_blocks * BLOCK_BITS <= usize::MAX,
            sb.data_bitmap_blocks * BLOCK_BITS <= usize::MAX,
            inode_bitmap_words@.len() == sb.inode_bitmap_blocks * WORDS_PER_BLOCK,
            data_bitmap_words@.len() == sb.data_bitmap_blocks * WORDS_PER_BLOCK,
        ensures
            r.wf(),
            r.inode_bitmap.spec_start_block_id() == 1,
            r.inode_bitmap.spec_blocks() == sb.inode_bitmap_blocks,
            r.inode_bitmap.spec_words() == inode_bitmap_words@,
            r.data_bitmap.spec_start_block_id() == 1 + sb.inode_bitmap_blocks + sb.inode_area_blocks,
            r.data_bitmap.spec_blocks() == sb.data_bitmap_blocks,
            r.data_bitmap.spec_words() == data_bitmap_words@,
            r.inode_area_start_block == 1 + sb.inode_bitmap_blocks,
            r.data_area_start_block == 1 + sb.inode_bitmap_blocks + sb.inode_area_blocks
                + sb.data_bitmap_blocks,
            r.follows(*sb),
    {
        let valid = sb.is_valid();
        assert(valid);
        let inode_total_blocks = sb.inode_bitmap_blocks + sb.inode_area_blocks;
        EasyFileSystem {
            inode_bitmap: Bitmap::from_words(1, sb.inode_bitmap_blocks as usize, inode_bitmap_words),
            data_bitmap: Bitmap::from_words(
                (1 + inode_total_blocks) as usize,
                sb.data_bitmap_blocks as usize,
                data_bitmap_words,
            ),
            inode_area_start_block: 1 + sb.inode_bitmap_blocks,
            data_area_start_block: 1 + inode_total_blocks + sb.data_bitmap_blocks,
        }
    }

    /// The block holding inode `inode_id` and the byte offset of the inode in it.
    pub fn get_disk_inode_pos(&self, inode_id: u32) -> (r: (u32, usize))
        requires
            self.inode_area_start_block + inode_id / INODES_PER_BLOCK <= u32::MAX,
        ensures
            r.0 == self.inode_area_start_block + inode_id / INODES_PER_BLOCK,
            r.1 == (inode_id % INODES_PER_BLOCK) * DISK_INODE_SIZE,
    {
        let inode_size = DISK_INODE_SIZE;
        let inodes_per_block = (BLOCK_SZ / inode_size) as u32;
        let block_id = self.inode_area_start_block + inode_id / inodes_per_block;
        (block_id, (inode_id % inodes_per_block) as usize * inode_size)
    }

    /// The disk block id of data block `data_block_id` of the data area.
    pub fn get_data_block_id(&self, data_block_id: u32) -> (r: u32)
        requires
            self.data_area_start_block + data_block_id <= u32::MAX,
        ensures
            r == self.data_area_start_block + data_block_id,
    {
        self.data_area_start_block + data_block_id
    }

    /// Allocates the lowest free inode and returns its id.
    pub fn alloc_inode(&mut self) -> (r: u32)
        requires
            old(self).wf(),
            !all_set(old(self).inode_bitmap@),
        ensures
            final(self).wf(),
            r == first_clear(old(self).inode_bitmap@) as u32,
            is_first_clear(old(self).inode_bitmap@, first_clear(old(self).inode_bitmap@)),
            final(self).inode_bitmap@ == old(self).inode_bitmap@.update(
                first_clear(old(self).inode_bitmap@),
                true,
            ),
            final(self).inode_bitmap.spec_start_block_id() == old(self).inode_bitmap.spec_start_block_id(),
            final(self).inode_bitmap.spec_blocks() == old(self).inode_bitmap.spec_blocks(),
            final(self).data_bitmap == old(self).data_bitmap,
            final(self).inode_area_start_block == old(self).inode_area_start_block,
            final(self).data_area_start_block == old(self).data_area_start_block,
    {
        let r = self.inode_bitmap.allocate();
        match r {
            Some(i) => i as u32,
            None => {
                assert(false);
                0
            },
        }
    }

    /// Allocates the lowest free data block and returns its disk block id.
    pub fn alloc_data(&mut self) -> (r: u32)
        requires
            old(self).wf(),
            !all_set(old(self).data_bitmap@),
            (first_clear(old(self).data_bitmap@) as u32) + old(self).data_area_start_block
                <= u32::MAX,
        ensures
            final(self).wf(),
            r == (first_clear(old(self).data_bitmap@) as u32) + old(self).data_area_start_block,
            is_first_clear(old(self).data_bitmap@, first_clear(old(self).data_bitmap@)),
            final(self).data_bitmap@ == old(self).data_bitmap@.update(
                first_clear(old(self).data_bitmap@),
                true,
            ),
            final(self).data_bitmap.spec_start_block_id() == old(self).data_bitmap.spec_start_block_id(),
            final(self).data_bitmap.spec_blocks() == old(self).data_bitmap.spec_blocks(),
            final(self).inode_bitmap == old(self).inode_bitmap,
            final(self).inode_area_start_block == old(self).inode_area_start_block,
            final(self).data_area_start_block == old(self).data_area_start_block,
    {
        let r = self.data_bitmap.allocate();
        match r {
            Some(i) => i as u32 + self.data_area_start_block,
            None => {
                assert(false);
                0
            },
        }
    }

    /// Releases the data block with disk block id `block_id`.
    pub fn dealloc_data(&mut self, block_id: u32)
        requires
            old(self).wf(),
            old(self).data_area_start_block <= block_id,
            block_id - old(self).data_area_start_block < old(self).data_bitmap@.len(),
            old(self).data_bitmap@[block_id - old(self).data_area_start_block],
        ensures
            final(self).wf(),
            final(self).data_bitmap@ == old(self).data_bitmap@.update(
                block_id - old(self).data_area_start_block,
                false,
            ),
            final(self).data_bitmap.spec_start_block_id() == old(self).data_bitmap.spec_start_block_id(),
            final(self).data_bitmap.spec_blocks() == old(self).data_bitmap.spec_blocks(),
            final(self).inode_bitmap == old(self).inode_bitmap,
            final(self).inode_area_start_block == old(self).inode_area_start_block,
            final(self).data_area_start_block == old(self).data_area_start_block,
    {
        self.data_bitmap.deallocate((block_id - self.data_area_start_block) as usize);
    }

    /// Whether the blocks of `blocks` are distinct allocated data blocks, so that
    /// they can be released one by one.
    pub fn can_release(&self, blocks: &Vec<u32>) -> (r: bool)
        requires
            self.wf(),
        ensures
            r == releasable(self.data_bitmap@, blocks@, self.data_area_start_block),
    {
        let start = self.data_area_start_block;
        let n = blocks.len();
        let mut i: usize = 0;
        while i < n
            invariant
                self.wf(),
                n == blocks@.len(),
                start == self.data_area_start_block,
                i <= n,
                forall|k: int|
                    0 <= k < i ==> {
                        &&& start <= #[trigger] blocks@[k]
                        &&& blocks@[k] - start < self.data_bitmap@.len()
                        &&& self.data_bitmap@[blocks@[k] - start]
                    },
                forall|a: int, b: int| 0 <= a < b < i ==> blocks@[a] != blocks@[b],
            decreases n - i,
        {
            let b = blocks[i];
            if b < start {
                return false;
            }
            let off = (b - start) as usize;
            if off >= self.data_bitmap.maximum() {
                return false;
            }
            if !self.data_bitmap.is_set(off) {
                return false;
            }
            let mut j: usize = 0;
            while j < i
                invariant
                    n == blocks@.len(),
                    j <= i < n,
                    b == blocks@[i as int],
                    forall|a: int| 0 <= a < j ==> blocks@[a] != b,
                decreases i - j,
            {
                if blocks[j] == b {
                    proof {
                        assert(!blocks@.no_duplicates());
                    }
                    return false;
                }
                j = j + 1;
            }
            i = i + 1;
        }
        true
    }

    /// Releases each block of `blocks`, in order.
    fn release_blocks(&mut self, blocks: &Vec<u32>)
        requires
            old(self).wf(),
            releasable(old(self).data_bitmap@, blocks@, old(self).data_area_start_block),
        ensures
            final(self).wf(),
            final(self).data_bitmap@ == cleared(
                old(self).data_bitmap@,
                blocks@,
                old(self).data_area_start_block,
            ),
            final(self).data_bitmap.spec_start_block_id() == old(self).data_bitmap.spec_start_block_id(),
            final(self).data_bitmap.spec_blocks() == old(self).data_bitmap.spec_blocks(),
            final(self).inode_bitmap == old(self).inode_bitmap,
            final(self).inode_area_start_block == old(self).inode_area_start_block,
            final(self).data_area_start_block == old(self).data_area_start_block,
    {
        let ghost start = self.data_area_start_block;
        let ghost v0 = self.data_bitmap@;
        let mut j: usize = 0;
        proof {
            assert(cleared(v0, blocks@.take(0), start) =~= v0);
        }
        while j < blocks.len()
            invariant
                self.wf(),
                j <= blocks@.len(),
                start == self.data_area_start_block,
                v0 == old(self).data_bitmap@,
                releasable(v0, blocks@, start),
                self.data_bitmap@ == cleared(v0, blocks@.take(j as int), start),
                self.data_bitmap.spec_start_block_id() == old(self).data_bitmap.spec_start_block_id(),
                self.data_bitmap.spec_blocks() == old(self).data_bitmap.spec_blocks(),
                self.inode_bitmap == old(self).inode_bitmap,
                self.inode_area_start_block == old(self).inode_area_start_block,
            decreases blocks@.len() - j,
        {
            let b = blocks[j];
            proof {
                let idx = b - start;
                assert(blocks@[j as int] == b);
                let t0 = blocks@.take(j as int);
                assert(!(exists|k: int| 0 <= k < t0.len() && t0[k] - start == idx)) by {
                    if exists|k: int| 0 <= k < t0.len() && t0[k] - start == idx {
                        let k = choose|k: int| 0 <= k < t0.len() && t0[k] - start == idx;
                        assert(blocks@[k] == blocks@[j as int]);
                    }
                }
            }
            self.dealloc_data(b);
            proof {
                let idx = b - start;
                let t0 = blocks@.take(j as int);
                let t1 = blocks@.take(j + 1);
                let lhs = self.data_bitmap@;
                let rhs = cleared(v0, t1, start);
                assert(lhs =~= rhs) by {
                    assert forall|i: int| 0 <= i < lhs.len() implies lhs[i] == rhs[i] by {
                        if i == idx {
                            assert(t1[j as int] - start == i);
                        } else {
                            if exists|k: int| 0 <= k < t1.len() && t1[k] - start == i {
                                let k = choose|k: int| 0 <= k < t1.len() && t1[k] - start == i;
                                assert(k != j);
                                assert(t0[k] == t1[k]);
                            }
                            if exists|k: int| 0 <= k < t0.len() && t0[k] - start == i {
                                let k = choose|k: int| 0 <= k < t0.len() && t0[k] - start == i;
                                assert(t1[k] == t0[k]);
                            }
                        }
                    }
                }
            }
            j = j + 1;
        }
        proof {
            assert(blocks@.take(j as int) =~= blocks@);
        }
    }

    /// Releases inode `inode_id`, whose on-disk contents are `disk_inode`, together
    /// with every block it owns: its data blocks and its index blocks, whose
    /// contents are `index`. Returns the released data blocks in inner-index order.
    pub fn dealloc_inode(&mut self, inode_id: usize, disk_inode: &DiskInode, index: &IndexBlocks) -> (r:
        Vec<u32>)
        requires
            old(self).wf(),
            inode_id < old(self).inode_bitmap@.len(),
            old(self).inode_bitmap@[inode_id as int],
            index.wf(),
            covers(index, released_count(disk_inode.size)),
            releasable(
                old(self).data_bitmap@,
                released_blocks(disk_inode, index),
                old(self).data_area_start_block,
            ),
        ensures
            final(self).wf(),
            r@ == released_data_blocks(disk_inode, index),
            final(self).inode_bitmap@ == old(self).inode_bitmap@.update(inode_id as int, false),
            final(self).data_bitmap@ == cleared(
                old(self).data_bitmap@,
                released_blocks(disk_inode, index),
                old(self).data_area_start_block,
            ),
            final(self).inode_bitmap.spec_start_block_id() == old(self).inode_bitmap.spec_start_block_id(),
            final(self).inode_bitmap.spec_blocks() == old(self).inode_bitmap.spec_blocks(),
            final(self).data_bitmap.spec_start_block_id() == old(self).data_bitmap.spec_start_block_id(),
            final(self).data_bitmap.spec_blocks() == old(self).data_bitmap.spec_blocks(),
            final(self).inode_area_start_block == old(self).inode_area_start_block,
            final(self).data_area_start_block == old(self).data_area_start_block,
    {
        self.inode_bitmap.deallocate(inode_id);
        let n = disk_inode.released_count();
        let mut deleted_block_id: Vec<u32> = Vec::new();
        let mut inner: u32 = 0;
        while inner < n
            invariant
                index.wf(),
                n == released_count(disk_inode.size),
                covers(index, n as int),
                inner <= n,
                deleted_block_id@ == released_data_blocks(disk_inode, index).take(inner as int),
            decreases n - inner,
        {
            let block_id = disk_inode.get_block_id(inner, index);
            deleted_block_id.push(block_id);
            proof {
                assert(deleted_block_id@ =~= released_data_blocks(disk_inode, index).take(
                    inner + 1,
                ));
            }
            inner = inner + 1;
        }
        proof {
            assert(deleted_block_id@ =~= released_data_blocks(disk_inode, index));
        }
        let index_blocks = disk_inode.released_index_blocks(index);
        let ghost start = self.data_area_start_block;
        let ghost v0 = self.data_bitmap@;
        let ghost d = deleted_block_id@;
        let ghost x = index_blocks@;
        proof {
            assert(released_blocks(disk_inode, index) == d + x);
            lemma_releasable_split(v0, d, x, start);
        }
        self.release_blocks(&deleted_block_id);
        self.release_blocks(&index_blocks);
        proof {
            lemma_cleared_concat(v0, d, x, start);
        }
        deleted_block_id
    }
}

/// A releasable list of blocks stays releasable in parts: its head first, then
/// its tail once the head is cleared.
proof fn lemma_releasable_split(v: Seq<bool>, d: Seq<u32>, x: Seq<u32>, start: u32)
    requires
        releasable(v, d + x, start),
    ensures
        releasable(v, d, start),
        releasable(cleared(v, d, start), x, start),
{
    let dx = d + x;
    assert forall|a: int, b: int| 0 <= a < b < d.len() implies d[a] != d[b] by {
        assert(dx[a] == d[a] && dx[b] == d[b]);
    }
    assert forall|k: int| 0 <= k < d.len() implies {
        &&& start <= #[trigger] d[k]
        &&& d[k] - start < v.len()
        &&& v[d[k] - start]
    } by {
        assert(dx[k] == d[k]);
    }
    assert forall|a: int, b: int| 0 <= a < b < x.len() implies x[a] != x[b] by {
        assert(dx[d.len() + a] == x[a] && dx[d.len() + b] == x[b]);
    }
    let c = cleared(v, d, start);
    assert forall|k: int| 0 <= k < x.len() implies {
        &&& start <= #[trigger] x[k]
        &&& x[k] - start < c.len()
        &&& c[x[k] - start]
    } by {
        assert(dx[d.len() + k] == x[k]);
        if exists|m: int| 0 <= m < d.len() && d[m] - start == x[k] - start {
            let m = choose|m: int| 0 <= m < d.len() && d[m] - start == x[k] - start;
            assert(dx[m] == d[m]);
        }
    }
}

/// Clearing two lists one after the other clears their concatenation.
proof fn lemma_cleared_concat(v: Seq<bool>, d: Seq<u32>, x: Seq<u32>, start: u32)
    ensures
        cleared(cleared(v, d, start), x, start) == cleared(v, d + x, start),
{
    let lhs = cleared(cleared(v, d, start), x, start);
    let rhs = cleared(v, d + x, start);
    let dx = d + x;
    assert forall|i: int| 0 <= i < lhs.len() implies lhs[i] == rhs[i] by {
        if exists|k: int| 0 <= k < dx.len() && dx[k] - start == i {
            let k = choose|k: int| 0 <= k < dx.len() && dx[k] - start == i;
            if k < d.len() {
                assert(d[k] == dx[k]);
            } else {
                assert(x[k - d.len()] == dx[k]);
            }
        }
        if exists|k: int| 0 <= k < d.len() && d[k] - start == i {
            let k = choose|k: int| 0 <= k < d.len() && d[k] - start == i;
            assert(dx[k] == d[k]);
        }
        if exists|k: int| 0 <= k < x.len() && x[k] - start == i {
            let k = choose|k: int| 0 <= k < x.len() && x[k] - start == i;
            assert(dx[d.len() + k] == x[k]);
        }
    }
    assert(lhs =~= rhs);
}

/// The areas laid out by `create` cover the disk exactly: the super block, the
/// inode bitmap, the inode area, the data bitmap and the data area add up to the
/// whole disk; the inode area holds an inode for every bit of the inode bitmap;
/// and the data bitmap has a bit for every block of the data area.
pub proof fn law_layout_covers_disk(total_blocks: int, inode_bitmap_blocks: int)
    requires
        inode_bitmap_blocks >= 0,
        1 + inode_bitmap_blocks + inode_area_blocks_for(inode_bitmap_blocks) <= total_blocks,
    ensures
        ({
            let iab = inode_area_blocks_for(inode_bitmap_blocks);
            let dtb = total_blocks - 1 - inode_bitmap_blocks - iab;
            let dbb = data_bitmap_blocks_for(dtb);
            let dab = dtb - dbb;
            &&& 0 <= dbb <= dtb
            &&& 1 + inode_bitmap_blocks + iab + dbb + dab == total_blocks
            &&& iab * (BLOCK_SZ / DISK_INODE_SIZE) as int >= inode_bitmap_blocks * BLOCK_BITS
            &&& dbb * BLOCK_BITS >= dab
        }),
{
    let iab = inode_area_blocks_for(inode_bitmap_blocks);
    let dtb = total_blocks - 1 - inode_bitmap_blocks - iab;
    let dbb = data_bitmap_blocks_for(dtb);
    assert(iab == inode_bitmap_blocks * 1024);
    assert(dbb * 4097 >= dtb) by (nonlinear_arith)
        requires
            dbb == (dtb + 4096) / 4097,
            dtb >= 0,
    ;
    assert(dbb <= dtb) by (nonlinear_arith)
        requires
            dbb == (dtb + 4096) / 4097,
            dtb >= 0,
    ;
}

/// The area sizes are the smallest that do the job: the inode area is the
/// fewest blocks that hold one inode per inode bitmap bit, and the data bitmap
/// is the fewest blocks such that each of them, together with the 4096 data
/// blocks it tracks, covers the blocks left for the data bitmap and data area.
pub proof fn law_area_sizes_are_least(inode_bitmap_blocks: int, data_total_blocks: int)
    requires
        inode_bitmap_blocks >= 0,
        data_total_blocks >= 0,
    ensures
        inode_area_blocks_for(inode_bitmap_blocks) * BLOCK_SZ >= inode_bitmap_blocks * BLOCK_BITS
            * DISK_INODE_SIZE,
        inode_area_blocks_for(inode_bitmap_blocks) > 0 ==> (inode_area_blocks_for(inode_bitmap_blocks)
            - 1) * BLOCK_SZ < inode_bitmap_blocks * BLOCK_BITS * DISK_INODE_SIZE,
        inode_area_blocks_for(inode_bitmap_blocks) >= 0,
        data_bitmap_blocks_for(data_total_blocks) * (BLOCK_BITS + 1) >= data_total_blocks,
        data_bitmap_blocks_for(data_total_blocks) > 0 ==> (data_bitmap_blocks_for(data_total_blocks)
            - 1) * (BLOCK_BITS + 1) < data_total_blocks,
        data_bitmap_blocks_for(data_total_blocks) >= 0,
{
    let i = inode_area_blocks_for(inode_bitmap_blocks);
    assert(i == inode_bitmap_blocks * 1024);
    let d = data_total_blocks;
    let n = data_bitmap_blocks_for(d);
    let r = (d + 4096) % 4097;
    assert(d + 4096 == 4097 * n + r && 0 <= r < 4097);
}

/// Distinct inodes sit at distinct positions, and each inode lies within its block.
pub proof fn law_inode_positions_distinct(start: u32, a: u32, b: u32)
    requires
        a != b,
    ensures
        (start + a / INODES_PER_BLOCK, (a % INODES_PER_BLOCK) * DISK_INODE_SIZE) != (start + b
            / INODES_PER_BLOCK, (b % INODES_PER_BLOCK) * DISK_INODE_SIZE),
        (a % INODES_PER_BLOCK) * DISK_INODE_SIZE + DISK_INODE_SIZE <= BLOCK_SZ,
{
}

/// Reopening a formatted disk gives back its layout: when a file system follows
/// a super block and another follows the super block decoded from that super
/// block's encoding, both put every inode, data block and bitmap at the same place.
pub proof fn law_reopen_keeps_layout(
    formatted: EasyFileSystem,
    sb: SuperBlock,
    reopened: EasyFileSystem,
    read_back: SuperBlock,
)
    requires
        formatted.follows(sb),
        read_back.fields() == le_u32s(u32s_bytes(sb.fields()), 0, 6),
        reopened.follows(read_back),
    ensures
        read_back == sb,
        reopened.inode_area_start_block == formatted.inode_area_start_block,
        reopened.data_area_start_block == formatted.data_area_start_block,
        reopened.inode_bitmap.spec_start_block_id() == formatted.inode_bitmap.spec_start_block_id(),
        reopened.inode_bitmap.spec_blocks() == formatted.inode_bitmap.spec_blocks(),
        reopened.data_bitmap.spec_start_block_id() == formatted.data_bitmap.spec_start_block_id(),
        reopened.data_bitmap.spec_blocks() == formatted.data_bitmap.spec_blocks(),
{
    law_super_block_roundtrip(sb);
    lemma_fields_determine_super_block(read_back, sb);
}

/// Two super blocks with the same fields are the same.
proof fn lemma_fields_determine_super_block(a: SuperBlock, b: SuperBlock)
    requires
        a.fields() == b.fields(),
    ensures
        a == b,
{
    assert(a.fields()[0] == b.fields()[0]);
    assert(a.fields()[1] == b.fields()[1]);
    assert(a.fields()[2] == b.fields()[2]);
    assert(a.fields()[3] == b.fields()[3]);
    assert(a.fields()[4] == b.fields()[4]);
    assert(a.fields()[5] == b.fields()[5]);
}

/// Every inode the inode bitmap can hand out is stored inside the inode area of
/// a file system laid out by `create`: in a block after the inode bitmap and
/// before the data bitmap, at an offset that holds a whole inode.
pub proof fn law_inode_position_in_inode_area(efs: EasyFileSystem, sb: SuperBlock, inode_id: u32)
    requires
        efs.follows(sb),
        sb.inode_area_blocks == inode_area_blocks_for(sb.inode_bitmap_blocks as int),
        inode_id < sb.inode_bitmap_blocks * BLOCK_BITS,
    ensures
        1 + sb.inode_bitmap_blocks <= efs.inode_area_start_block + inode_id / INODES_PER_BLOCK,
        efs.inode_area_start_block + inode_id / INODES_PER_BLOCK < 1 + sb.inode_bitmap_blocks
            + sb.inode_area_blocks,
        ((inode_id % INODES_PER_BLOCK) * DISK_INODE_SIZE) % (DISK_INODE_SIZE as int) == 0,
        (inode_id % INODES_PER_BLOCK) * DISK_INODE_SIZE + DISK_INODE_SIZE <= BLOCK_SZ,
{
    assert(sb.inode_area_blocks == sb.inode_bitmap_blocks * 1024);
}

/// Every inode that the inode bitmap can hand out lies in the inode area laid out by `create`.
pub proof fn law_inodes_lie_in_inode_area(inode_bitmap_blocks: int, inode_id: int)
    requires
        inode_bitmap_blocks >= 0,
        0 <= inode_id < inode_bitmap_blocks * BLOCK_BITS,
    ensures
        inode_id / (INODES_PER_BLOCK as int) < inode_area_blocks_for(inode_bitmap_blocks),
{
    assert(inode_area_blocks_for(inode_bitmap_blocks) == inode_bitmap_blocks * 1024);
}

/// Releasing the data block that an allocation returned gives back the data
/// bitmap as it was before the allocation.
pub proof fn law_dealloc_data_undoes_alloc_data(v: Seq<bool>, start: u32)
    requires
        !all_set(v),
        first_clear(v) + start <= u32::MAX,
    ensures
        ({
            let block_id = (first_clear(v) as u32) + start;
            let restored = v.update(first_clear(v), true).update(block_id - start, false);
            &&& start <= block_id
            &&& restored == v
            &&& first_clear(restored) as u32 + start == block_id
        }),
{
    lemma_first_clear_exists(v);
    let f = first_clear(v);
    assert(f as u32 == f);
    assert(v.update(f, true).update(f, false) =~= v);
}

} // verus!
