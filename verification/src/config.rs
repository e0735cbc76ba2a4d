//! Constants shared by the file system and the kernel.
use vstd::prelude::*;

verus! {

/// Size of one disk block in bytes.
pub const BLOCK_SZ: usize = 512;

/// Number of bits held by one bitmap block.
pub const BLOCK_BITS: usize = 4096;

/// Number of 64-bit words in one bitmap block.
pub const WORDS_PER_BLOCK: usize = 64;

/// Size in bytes of one on-disk inode.
pub const DISK_INODE_SIZE: usize = 128;

/// Number of on-disk inodes stored in one block.
pub const INODES_PER_BLOCK: u32 = 4;

/// Number of block ids held directly in an inode.
pub const INODE_DIRECT_COUNT: usize = 28;

/// Number of block ids held by one index block.
pub const INODE_INDIRECT1_COUNT: usize = 128;

/// First inner block index that is no longer reached through the first index block.
pub const INDIRECT1_BOUND: usize = 156;

/// Magic number identifying a formatted file system.
pub const EFS_MAGIC: u32 = 0x3b800001;

/// Number of distinct system calls that are counted per task.
pub const MAX_SYSCALL_NUM: usize = 500;

/// Size of a virtual memory page in bytes.
pub const PAGE_SIZE: usize = 4096;

/// Numerator of the stride step: a task advances by `BIG_STRIDE / prio`.
pub const BIG_STRIDE: usize = 65536;

} // verus!
