//! The on-disk inode and the map from an inode's inner block indices to disk blocks.
use vstd::prelude::*;
use crate::config::{INODE_DIRECT_COUNT, INODE_INDIRECT1_COUNT, INDIRECT1_BOUND, BLOCK_SZ, DISK_INODE_SIZE};
use crate::codec::{u32s_bytes, le_u32s, push_u32, push_u32s, read_u32s, law_u32s_roundtrip};

verus! {

/// Kind of file an inode describes.
#[derive(Clone, Copy, PartialEq, Eq, Structural, Debug)]
pub enum DiskInodeType {
    File,
    Directory,
}

/// An inode as stored on disk: the file size, the ids of its first data blocks,
/// and the ids of its first- and second-level index blocks.
#[derive(Clone, Copy, Debug)]
pub struct DiskInode {
    pub size: u32,
    pub direct: [u32; INODE_DIRECT_COUNT],
    pub indirect1: u32,
    pub indirect2: u32,
    pub type_: DiskInodeType,
}

/// The contents of the index blocks an inode refers to: the first-level index
/// block (`indirect1`), the second-level index block (`indirect2`), and
/// `level2[k]`, the contents of the block whose id is `indirect2[k]`.
pub struct IndexBlocks {
    pub indirect1: Vec<u32>,
    pub indirect2: Vec<u32>,
    pub level2: Vec<Vec<u32>>,
}

impl IndexBlocks {
    /// Every index block holds `INODE_INDIRECT1_COUNT` entries.
    pub open spec fn wf(&self) -> bool {
        &&& self.indirect1@.len() == INODE_INDIRECT1_COUNT
        &&& self.indirect2@.len() == INODE_INDIRECT1_COUNT
        &&& forall|k: int| 0 <= k < self.level2@.len() ==> #[trigger] self.level2@[k]@.len()
            == INODE_INDIRECT1_COUNT
    }

    /// Whether the blocks are well formed and resolve every inner block id below `n`.
    pub fn resolves(&self, n: u32) -> (r: bool)
        ensures
            r == (self.wf() && covers(self, n as int)),
    {
        if self.indirect1.len() != INODE_INDIRECT1_COUNT || self.indirect2.len() != INODE_INDIRECT1_COUNT {
            return false;
        }
        let mut k: usize = 0;
        while k < self.level2.len()
            invariant
                k <= self.level2@.len(),
                forall|j: int| 0 <= j < k ==> #[trigger] self.level2@[j]@.len() == INODE_INDIRECT1_COUNT,
            decreases self.level2@.len() - k,
        {
            if self.level2[k].len() != INODE_INDIRECT1_COUNT {
                return false;
            }
            k = k + 1;
        }
        let n64 = n as u64;
        let rows = self.level2.len() as u64;
        if n64 <= 156 || rows >= 0x200_0000 {
            return true;
        }
        n64 - 156 <= rows * 128
    }
}

/// The on-disk code of an inode kind.
pub open spec fn type_code(t: DiskInodeType) -> u32 {
    match t {
        DiskInodeType::File => 0,
        DiskInodeType::Directory => 1,
    }
}

/// The fields of an inode in their on-disk order, as 32-bit words; the kind
/// takes the last word.
pub open spec fn inode_words(inode: &DiskInode) -> Seq<u32> {
    seq![inode.size] + inode.direct@ + seq![inode.indirect1, inode.indirect2, type_code(inode.type_)]
}

/// Decoding the encoding of an inode gives back its words.
pub proof fn law_disk_inode_roundtrip(inode: DiskInode)
    ensures
        inode_words(&inode).len() * 4 == DISK_INODE_SIZE,
        le_u32s(u32s_bytes(inode_words(&inode)), 0, 32) == inode_words(&inode),
{
    law_u32s_roundtrip(inode_words(&inode));
}

/// Whether the index blocks hold every entry needed to resolve inner block ids below `n`.
pub open spec fn covers(ix: &IndexBlocks, n: int) -> bool {
    n > INDIRECT1_BOUND ==> (n - INDIRECT1_BOUND) <= ix.level2@.len() * INODE_INDIRECT1_COUNT
}

/// Disk block id of the inner block `i` of `inode`, resolved through the index blocks.
pub open spec fn block_id_at(inode: &DiskInode, ix: &IndexBlocks, i: int) -> u32 {
    if i < INODE_DIRECT_COUNT {
        inode.direct@[i]
    } else if i < INDIRECT1_BOUND {
        ix.indirect1@[i - INODE_DIRECT_COUNT]
    } else {
        let last = i - INDIRECT1_BOUND;
        ix.level2@[last / (INODE_INDIRECT1_COUNT as int)]@[last % (INODE_INDIRECT1_COUNT as int)]
    }
}

/// Number of data blocks released when an inode of `size` bytes is freed: one
/// per started block, none for an empty file.
pub open spec fn released_count(size: u32) -> int {
    (size + BLOCK_SZ - 1) / (BLOCK_SZ as int)
}

/// The released data blocks are exactly those that hold a byte of the file:
/// together they reach at least `size` bytes, and without the last one they
/// would fall short of `size`; an empty file releases none.
pub proof fn law_released_blocks_hold_the_file(size: u32)
    ensures
        released_count(size) >= 0,
        released_count(size) * BLOCK_SZ >= size,
        size > 0 ==> (released_count(size) - 1) * BLOCK_SZ < size,
        size == 0 ==> released_count(size) == 0,
{
    let n = released_count(size);
    let q = (size + 511) / 512;
    let r = (size + 511) % 512;
    assert(size + 511 == 512 * q + r);
}

/// Inner block `i` is found in the first-level index block at position
/// `i - INODE_DIRECT_COUNT` when it is past the direct blocks, and past the first
/// level it is entry `column` of the second-level row `row`, where
/// `i == INDIRECT1_BOUND + row * INODE_INDIRECT1_COUNT + column` with `column`
/// below `INODE_INDIRECT1_COUNT`: consecutive rows hold consecutive runs of
/// inner blocks.
pub proof fn law_block_positions(inode: &DiskInode, ix: &IndexBlocks, row: int, column: int)
    requires
        row >= 0,
        0 <= column < INODE_INDIRECT1_COUNT,
    ensures
        block_id_at(inode, ix, INDIRECT1_BOUND + row * (INODE_INDIRECT1_COUNT as int) + column)
            == ix.level2@[row]@[column],
        0 <= column < INDIRECT1_BOUND - INODE_DIRECT_COUNT ==> block_id_at(
            inode,
            ix,
            INODE_DIRECT_COUNT + column,
        ) == ix.indirect1@[column],
        column < INODE_DIRECT_COUNT ==> block_id_at(inode, ix, column) == inode.direct@[column],
{
    let i = INDIRECT1_BOUND + row * 128 + column;
    let last = i - INDIRECT1_BOUND;
    assert(last == row * 128 + column);
    assert(last / 128 == row) by (nonlinear_arith)
        requires
            last == row * 128 + column,
            0 <= column < 128,
            row >= 0,
    ;
    assert(last % 128 == column) by (nonlinear_arith)
        requires
            last == row * 128 + column,
            0 <= column < 128,
            row >= 0,
    ;
}

/// The data blocks released when `inode` is freed, in inner-index order.
pub open spec fn released_data_blocks(inode: &DiskInode, ix: &IndexBlocks) -> Seq<u32> {
    Seq::new(released_count(inode.size) as nat, |i: int| block_id_at(inode, ix, i))
}

/// Whether `k` is the length of the longest prefix of `s` without a zero entry.
pub open spec fn is_nonzero_prefix_len(s: Seq<u32>, k: int) -> bool {
    &&& 0 <= k <= s.len()
    &&& forall|j: int| 0 <= j < k ==> #[trigger] s[j] != 0
    &&& (k == s.len() || s[k] == 0)
}

/// The entries of `s` before its first zero entry.
pub open spec fn nonzero_prefix(s: Seq<u32>) -> Seq<u32> {
    s.take(choose|k: int| is_nonzero_prefix_len(s, k))
}

/// The prefix length without zero entries is unique.
pub proof fn lemma_nonzero_prefix_len_unique(s: Seq<u32>, k: int)
    requires
        is_nonzero_prefix_len(s, k),
    ensures
        nonzero_prefix(s) == s.take(k),
{
    let c = choose|k: int| is_nonzero_prefix_len(s, k);
    assert(is_nonzero_prefix_len(s, c));
    if c < k {
        assert(s[c] != 0);
    } else if k < c {
        assert(s[k] != 0);
    }
}

/// The index blocks released when `inode` is freed: the first-level index block
/// if there is one, then, if there is also a second-level index block, the blocks
/// it lists before its first zero entry, and the second-level block itself.
pub open spec fn released_index_blocks(inode: &DiskInode, ix: &IndexBlocks) -> Seq<u32> {
    if inode.indirect1 == 0 {
        Seq::empty()
    } else if inode.indirect2 == 0 {
        seq![inode.indirect1]
    } else {
        seq![inode.indirect1] + nonzero_prefix(ix.indirect2@) + seq![inode.indirect2]
    }
}

/// Every block released when `inode` is freed: its data blocks, then its index blocks.
pub open spec fn released_blocks(inode: &DiskInode, ix: &IndexBlocks) -> Seq<u32> {
    released_data_blocks(inode, ix) + released_index_blocks(inode, ix)
}

impl DiskInode {
    /// An empty inode of the given kind.
    pub fn new(type_: DiskInodeType) -> (r: DiskInode)
        ensures
            r.size == 0,
            r.indirect1 == 0,
            r.indirect2 == 0,
            r.type_ == type_,
            forall|i: int| 0 <= i < INODE_DIRECT_COUNT ==> #[trigger] r.direct@[i] == 0,
    {
        DiskInode { size: 0, direct: [0u32; INODE_DIRECT_COUNT], indirect1: 0, indirect2: 0, type_ }
    }

    /// The on-disk bytes of the inode.
    pub fn encode(&self) -> (r: Vec<u8>)
        ensures
            r@ == u32s_bytes(inode_words(self)),
            r@.len() == DISK_INODE_SIZE,
    {
        let mut out: Vec<u8> = Vec::new();
        push_u32(&mut out, self.size);
        let ghost a = out@;
        push_u32s(&mut out, self.direct.as_slice());
        let ghost b = out@;
        let code: u32 = match self.type_ {
            DiskInodeType::File => 0,
            DiskInodeType::Directory => 1,
        };
        let tail = vec![self.indirect1, self.indirect2, code];
        push_u32s(&mut out, tail.as_slice());
        proof {
            let w = inode_words(self);
            let front = seq![self.size];
            let mid = self.direct@;
            let back = seq![self.indirect1, self.indirect2, code];
            assert(w =~= front + mid + back);
            assert(u32s_bytes(front) =~= crate::codec::u32_bytes(self.size));
            assert forall|j: int| 0 <= j < out@.len() implies out@[j] == #[trigger] u32s_bytes(w)[j] by {
                if j < 4 {
                    assert(j / 4 == 0);
                } else if j < 4 + 4 * INODE_DIRECT_COUNT {
                    assert(out@[j] == u32s_bytes(mid)[j - 4]);
                    assert((j - 4) / 4 == j / 4 - 1);
                    assert((j - 4) % 4 == j % 4);
                } else {
                    assert(out@[j] == u32s_bytes(back)[j - 116]);
                    assert((j - 116) / 4 == j / 4 - 29);
                    assert((j - 116) % 4 == j % 4);
                    assert(back == tail@);
                }
            }
            assert(out@ =~= u32s_bytes(w));
        }
        out
    }

    /// The inode held by `bytes` at `offset`; `None` when its kind code is unknown.
    pub fn decode(bytes: &[u8], offset: usize) -> (r: Option<DiskInode>)
        requires
            offset + DISK_INODE_SIZE <= bytes@.len(),
        ensures
            ({
                let w = le_u32s(bytes@, offset as int, 32);
                match r {
                    Some(inode) => w[31] <= 1 && inode_words(&inode) == w,
                    None => w[31] > 1,
                }
            }),
    {
        let w = read_u32s(bytes, offset, 32);
        let code = w[31];
        let type_ = if code == 0 {
            DiskInodeType::File
        } else if code == 1 {
            DiskInodeType::Directory
        } else {
            return None;
        };
        let mut direct = [0u32; INODE_DIRECT_COUNT];
        let mut i: usize = 0;
        while i < INODE_DIRECT_COUNT
            invariant
                i <= INODE_DIRECT_COUNT,
                w@.len() == 32,
                forall|j: int| 0 <= j < i ==> #[trigger] direct@[j] == w@[j + 1],
            decreases INODE_DIRECT_COUNT - i,
        {
            direct[i] = w[i + 1];
            i = i + 1;
        }
        let inode = DiskInode { size: w[0], direct, indirect1: w[29], indirect2: w[30], type_ };
        assert(inode_words(&inode) =~= w@);
        Some(inode)
    }

    /// Whether the inode describes a directory.
    pub fn is_dir(&self) -> (r: bool)
        ensures
            r == (self.type_ == DiskInodeType::Directory),
    {
        match self.type_ {
            DiskInodeType::Directory => true,
            DiskInodeType::File => false,
        }
    }

    /// Disk block id of the inner block `inner_id`.
    pub fn get_block_id(&self, inner_id: u32, ix: &IndexBlocks) -> (r: u32)
        requires
            ix.wf(),
            covers(ix, inner_id + 1),
        ensures
            r == block_id_at(self, ix, inner_id as int),
    {
        let inner = inner_id as usize;
        if inner < INODE_DIRECT_COUNT {
            self.direct[inner]
        } else if inner < INDIRECT1_BOUND {
            ix.indirect1[inner - INODE_DIRECT_COUNT]
        } else {
            let last = inner - INDIRECT1_BOUND;
            let row = last / INODE_INDIRECT1_COUNT;
            proof {
                assert(row < ix.level2@.len()) by (nonlinear_arith)
                    requires
                        row == last / 128,
                        last + 1 <= ix.level2@.len() * 128,
                ;
            }
            let block = &ix.level2[row];
            block[last % INODE_INDIRECT1_COUNT]
        }
    }

    /// Number of data blocks released when this inode is freed.
    pub fn released_count(&self) -> (r: u32)
        ensures
            r == released_count(self.size),
    {
        if self.size == 0 {
            0
        } else {
            let q = (self.size - 1) / (BLOCK_SZ as u32);
            proof {
                let r = (self.size - 1) % 512;
                assert(self.size - 1 == 512 * q + r);
                assert(self.size + 511 == 512 * (q + 1) + r);
                assert((self.size + 511) / 512 == q + 1);
            }
            q + 1
        }
    }

    /// Every block released when this inode is freed: its data blocks, then its index blocks.
    pub fn released_blocks(&self, ix: &IndexBlocks) -> (r: Vec<u32>)
        requires
            ix.wf(),
            covers(ix, released_count(self.size)),
        ensures
            r@ == released_blocks(self, ix),
    {
        let n = self.released_count();
        let mut r: Vec<u32> = Vec::new();
        let mut inner: u32 = 0;
        while inner < n
            invariant
                ix.wf(),
                n == released_count(self.size),
                covers(ix, n as int),
                inner <= n,
                r@ == released_data_blocks(self, ix).take(inner as int),
            decreases n - inner,
        {
            r.push(self.get_block_id(inner, ix));
            assert(r@ =~= released_data_blocks(self, ix).take(inner + 1));
            inner = inner + 1;
        }
        let mut tail = self.released_index_blocks(ix);
        r.append(&mut tail);
        assert(r@ =~= released_blocks(self, ix));
        r
    }

    /// The index blocks released when this inode is freed.
    pub fn released_index_blocks(&self, ix: &IndexBlocks) -> (r: Vec<u32>)
        requires
            ix.wf(),
        ensures
            r@ == released_index_blocks(self, ix),
    {
        let mut r: Vec<u32> = Vec::new();
        if self.indirect1 == 0 {
            return r;
        }
        r.push(self.indirect1);
        if self.indirect2 == 0 {
            return r;
        }
        let mut k: usize = 0;
        while k < INODE_INDIRECT1_COUNT && ix.indirect2[k] != 0
            invariant
                k <= INODE_INDIRECT1_COUNT,
                ix.wf(),
                self.indirect1 != 0,
                r@ == seq![self.indirect1] + ix.indirect2@.take(k as int),
                forall|j: int| 0 <= j < k ==> #[trigger] ix.indirect2@[j] != 0,
            decreases INODE_INDIRECT1_COUNT - k,
        {
            r.push(ix.indirect2[k]);
            proof {
                assert(ix.indirect2@.take(k + 1) =~= ix.indirect2@.take(k as int).push(
                    ix.indirect2@[k as int],
                ));
            }
            k = k + 1;
        }
        proof {
            assert(is_nonzero_prefix_len(ix.indirect2@, k as int));
            lemma_nonzero_prefix_len_unique(ix.indirect2@, k as int);
        }
        r.push(self.indirect2);
        r
    }
}

} // verus!
