use rcore_kernel::bitmap::{decomposition, Bitmap};
use rcore_kernel::config::INODE_DIRECT_COUNT;
use rcore_kernel::efs::{EasyFileSystem, SuperBlock};
use rcore_kernel::inode::{DiskInode, DiskInodeType, IndexBlocks};

fn zeros(n: usize) -> Vec<u32> {
    vec![0u32; n]
}

fn empty_index() -> IndexBlocks {
    IndexBlocks { indirect1: zeros(128), indirect2: zeros(128), level2: Vec::new() }
}

#[test]
fn create_lays_out_areas() {
    let (efs, sb, root) = EasyFileSystem::create(8192, 1);
    assert!(root.is_dir());
    assert_eq!(root.size, 0);
    assert_eq!(root.indirect1, 0);
    assert_eq!(root.indirect2, 0);
    assert!(root.direct.iter().all(|b| *b == 0));
    assert_eq!(sb.magic, 0x3b800001);
    assert_eq!(sb.total_blocks, 8192);
    assert_eq!(sb.inode_bitmap_blocks, 1);
    assert_eq!(sb.inode_area_blocks, 1024);
    assert_eq!(sb.data_bitmap_blocks, 2);
    assert_eq!(sb.data_area_blocks, 7164);
    assert_eq!(
        1 + sb.inode_bitmap_blocks + sb.inode_area_blocks + sb.data_bitmap_blocks + sb.data_area_blocks,
        sb.total_blocks
    );
    assert_eq!(efs.inode_area_start_block, 2);
    assert_eq!(efs.data_area_start_block, 1028);
    assert_eq!(efs.inode_bitmap.start_block_id(), 1);
    assert_eq!(efs.data_bitmap.start_block_id(), 1026);
    assert_eq!(efs.data_bitmap.blocks(), 2);
    assert_eq!(efs.inode_bitmap.maximum(), 4096);
    assert!(efs.inode_bitmap.is_set(0));
    assert!(!efs.inode_bitmap.is_set(1));
    assert!(!efs.data_bitmap.is_set(0));
}

#[test]
fn disk_inode_positions() {
    let (efs, _, _) = EasyFileSystem::create(8192, 1);
    assert_eq!(efs.get_disk_inode_pos(0), (2, 0));
    assert_eq!(efs.get_disk_inode_pos(5), (3, 128));
    assert_eq!(efs.get_disk_inode_pos(7), (3, 384));
    assert_eq!(efs.get_disk_inode_pos(8), (4, 0));
}

#[test]
fn data_block_ids() {
    let (efs, _, _) = EasyFileSystem::create(8192, 1);
    assert_eq!(efs.get_data_block_id(0), 1028);
    assert_eq!(efs.get_data_block_id(10), 1038);
}

#[test]
fn inode_allocation_takes_lowest_free() {
    let (mut efs, _, _) = EasyFileSystem::create(8192, 1);
    assert_eq!(efs.alloc_inode(), 1);
    assert_eq!(efs.alloc_inode(), 2);
    assert_eq!(efs.alloc_inode(), 3);
}

#[test]
fn data_allocation_and_release() {
    let (mut efs, _, _) = EasyFileSystem::create(8192, 1);
    assert_eq!(efs.alloc_data(), 1028);
    assert_eq!(efs.alloc_data(), 1029);
    assert_eq!(efs.alloc_data(), 1030);
    efs.dealloc_data(1029);
    assert!(!efs.data_bitmap.is_set(1));
    assert!(efs.data_bitmap.is_set(2));
    assert_eq!(efs.alloc_data(), 1029);
    assert_eq!(efs.alloc_data(), 1031);
}

#[test]
fn dealloc_data_undoes_alloc_data() {
    let (mut efs, _, _) = EasyFileSystem::create(8192, 1);
    efs.alloc_data();
    let before = efs.data_bitmap.words().clone();
    let b = efs.alloc_data();
    assert_ne!(efs.data_bitmap.words(), &before);
    efs.dealloc_data(b);
    assert_eq!(efs.data_bitmap.words(), &before);
}

#[test]
fn dealloc_inode_releases_direct_blocks() {
    let (mut efs, _, _) = EasyFileSystem::create(8192, 1);
    let id = efs.alloc_inode();
    let a = efs.alloc_data();
    let b = efs.alloc_data();
    let c = efs.alloc_data();
    let mut inode = DiskInode::new(DiskInodeType::File);
    inode.size = 1000;
    inode.direct[0] = a;
    inode.direct[1] = b;
    let freed = efs.dealloc_inode(id as usize, &inode, &empty_index());
    assert_eq!(freed, vec![a, b]);
    assert!(!efs.inode_bitmap.is_set(id as usize));
    assert!(!efs.data_bitmap.is_set((a - 1028) as usize));
    assert!(!efs.data_bitmap.is_set((b - 1028) as usize));
    assert!(efs.data_bitmap.is_set((c - 1028) as usize));
}

#[test]
fn dealloc_empty_inode_releases_no_data_block() {
    let (mut efs, _, _) = EasyFileSystem::create(8192, 1);
    let id = efs.alloc_inode();
    efs.alloc_data();
    let before = efs.data_bitmap.words().clone();
    let inode = DiskInode::new(DiskInodeType::File);
    assert_eq!(inode.released_count(), 0);
    let freed = efs.dealloc_inode(id as usize, &inode, &empty_index());
    assert!(freed.is_empty());
    assert_eq!(efs.data_bitmap.words(), &before);
    assert!(!efs.inode_bitmap.is_set(id as usize));
}

#[test]
fn dealloc_inode_releases_index_blocks() {
    let (mut efs, _, _) = EasyFileSystem::create(8192, 1);
    let id = efs.alloc_inode();
    let mut blocks = Vec::new();
    for _ in 0..30 {
        blocks.push(efs.alloc_data());
    }
    let index_block = efs.alloc_data();
    let mut inode = DiskInode::new(DiskInodeType::File);
    inode.size = 30 * 512;
    for i in 0..INODE_DIRECT_COUNT {
        inode.direct[i] = blocks[i];
    }
    inode.indirect1 = index_block;
    let mut ix = empty_index();
    ix.indirect1[0] = blocks[28];
    ix.indirect1[1] = blocks[29];
    assert_eq!(inode.get_block_id(29, &ix), blocks[29]);
    assert_eq!(inode.released_index_blocks(&ix), vec![index_block]);
    let freed = efs.dealloc_inode(id as usize, &inode, &ix);
    assert_eq!(freed, blocks);
    for k in 0..32 {
        assert!(!efs.data_bitmap.is_set(k));
    }
}

#[test]
fn released_index_blocks_with_second_level() {
    let mut inode = DiskInode::new(DiskInodeType::File);
    inode.size = 200 * 512;
    inode.indirect1 = 100;
    inode.indirect2 = 101;
    let mut ix = empty_index();
    ix.indirect2[0] = 102;
    let mut row = zeros(128);
    row[5] = 777;
    ix.level2.push(row);
    assert_eq!(inode.released_count(), 200);
    assert_eq!(inode.get_block_id(156 + 5, &ix), 777);
    assert_eq!(inode.released_index_blocks(&ix), vec![100, 102, 101]);
}

#[test]
fn open_reads_layout_from_super_block() {
    let (efs, sb, _) = EasyFileSystem::create(8192, 1);
    let opened = EasyFileSystem::open(&sb, efs.inode_bitmap.words().clone(), efs.data_bitmap.words().clone());
    assert_eq!(opened.inode_area_start_block, efs.inode_area_start_block);
    assert_eq!(opened.data_area_start_block, efs.data_area_start_block);
    assert_eq!(opened.data_bitmap.start_block_id(), 1026);
    assert!(opened.inode_bitmap.is_set(0));
}

#[test]
fn super_block_roundtrip() {
    let sb = SuperBlock::new(8192, 1, 1024, 2, 7164);
    assert!(sb.is_valid());
    let bytes = sb.encode();
    assert_eq!(bytes.len(), 24);
    assert_eq!(&bytes[0..4], &[0x01, 0x00, 0x80, 0x3b]);
    let back = SuperBlock::decode(&bytes);
    assert_eq!(back.total_blocks, 8192);
    assert_eq!(back.inode_area_blocks, 1024);
    assert_eq!(back.data_area_blocks, 7164);
    assert!(back.is_valid());
    let mut bad = bytes.clone();
    bad[0] = 0;
    assert!(!SuperBlock::decode(&bad).is_valid());
}

#[test]
fn disk_inode_roundtrip() {
    let mut inode = DiskInode::new(DiskInodeType::Directory);
    inode.size = 0x01020304;
    inode.direct[27] = 99;
    inode.indirect1 = 7;
    inode.indirect2 = 8;
    let bytes = inode.encode();
    assert_eq!(bytes.len(), 128);
    assert_eq!(&bytes[0..4], &[4, 3, 2, 1]);
    assert_eq!(bytes[124], 1);
    let mut block = vec![0u8; 512];
    block[256..384].copy_from_slice(&bytes);
    let back = DiskInode::decode(&block, 256).unwrap();
    assert_eq!(back.size, 0x01020304);
    assert_eq!(back.direct[27], 99);
    assert_eq!(back.indirect1, 7);
    assert_eq!(back.indirect2, 8);
    assert!(back.is_dir());
    let mut bad = bytes.clone();
    bad[124] = 5;
    assert!(DiskInode::decode(&bad, 0).is_none());
}

#[test]
fn bitmap_allocates_lowest_clear_bit() {
    let mut bm = Bitmap::new(10, 1);
    assert_eq!(bm.maximum(), 4096);
    for i in 0..70 {
        assert_eq!(bm.allocate(), Some(i));
    }
    bm.deallocate(3);
    bm.deallocate(65);
    assert_eq!(bm.allocate(), Some(3));
    assert_eq!(bm.allocate(), Some(65));
    assert_eq!(bm.allocate(), Some(70));
}

#[test]
fn bitmap_full_gives_none() {
    let mut bm = Bitmap::from_words(1, 1, vec![u64::MAX; 64]);
    assert_eq!(bm.allocate(), None);
    bm.deallocate(4095);
    assert_eq!(bm.allocate(), Some(4095));
    assert_eq!(bm.allocate(), None);
}

#[test]
fn bitmap_block_bytes_and_decomposition() {
    let mut bm = Bitmap::new(1, 2);
    for _ in 0..4097 {
        bm.allocate();
    }
    let second = bm.block_bytes(1);
    assert_eq!(second.len(), 512);
    assert_eq!(second[0], 1);
    assert!(second[1..].iter().all(|b| *b == 0));
    let first = bm.block_bytes(0);
    assert!(first.iter().all(|b| *b == 0xff));
    assert_eq!(decomposition(4096 + 64 * 3 + 5), (1, 3, 5));
}

#[test]
fn reopening_a_formatted_disk_keeps_the_layout() {
    let (efs, sb, _) = EasyFileSystem::create(8192, 2);
    let read_back = SuperBlock::decode(&sb.encode());
    assert!(EasyFileSystem::can_open(&read_back));
    let reopened =
        EasyFileSystem::open(&read_back, efs.inode_bitmap.words().clone(), efs.data_bitmap.words().clone());
    for id in [0u32, 1, 5, 8191] {
        assert_eq!(reopened.get_disk_inode_pos(id), efs.get_disk_inode_pos(id));
    }
    assert_eq!(reopened.get_data_block_id(9), efs.get_data_block_id(9));
    assert_eq!(reopened.data_bitmap.start_block_id(), efs.data_bitmap.start_block_id());
    assert_eq!(reopened.data_bitmap.blocks(), efs.data_bitmap.blocks());
    let (last_block, last_offset) = efs.get_disk_inode_pos(8191);
    assert!(last_block < 1 + sb.inode_bitmap_blocks + sb.inode_area_blocks);
    assert_eq!(last_offset, 384);
}
