# rcore_kernel

The verified core of a small teaching kernel and its file system.

- `src/` (verified with Verus):
  - `bitmap`: allocation bitmaps made of 64-bit words; allocation takes the lowest free bit.
  - `inode`, `efs`: on-disk inodes, the disk layout (super block, inode bitmap, inode
    area, data bitmap, data area), allocation and release of inodes and data blocks.
  - `codec`: little-endian encoding of the on-disk structures.
  - `task`, `manager`: task control blocks and the stride scheduler's ready queue.
  - `syscall`: what the process-management system calls answer and decide.
- `app/`: the glue a kernel puts around it: block device I/O, the shared file system
  behind a spin lock, the global ready queue, and system call entry points that read
  the current task and user memory.
- `tests/`: tests of the library on concrete values.
