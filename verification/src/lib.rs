//! Verified core of a small teaching kernel: the on-disk layout and block
//! allocation of a simple file system, a stride scheduler's ready queue and
//! the decision logic of the process-management system calls.

pub mod config;
pub mod codec;
pub mod bitmap;
pub mod inode;
pub mod efs;
pub mod task;
pub mod manager;
pub mod syscall;
