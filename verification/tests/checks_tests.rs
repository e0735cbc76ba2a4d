use rcore_kernel::efs::{EasyFileSystem, SuperBlock};
use rcore_kernel::inode::{DiskInode, DiskInodeType, IndexBlocks};
use rcore_kernel::manager::{StrideTask, TaskManager};

#[test]
fn can_create_checks_sizes() {
    assert!(EasyFileSystem::can_create(8192, 1));
    assert!(!EasyFileSystem::can_create(8192, 0));
    assert!(!EasyFileSystem::can_create(1025, 1));
    assert!(EasyFileSystem::can_create(1026, 1));
    assert!(!EasyFileSystem::can_create(u32::MAX, 1));
    assert!(EasyFileSystem::can_create(u32::MAX - 4096, 1));
}

#[test]
fn create_smallest_disk() {
    let (efs, sb, _) = EasyFileSystem::create(1026, 1);
    assert_eq!(sb.data_bitmap_blocks, 0);
    assert_eq!(sb.data_area_blocks, 0);
    assert_eq!(efs.data_area_start_block, 1026);
    assert_eq!(efs.data_bitmap.maximum(), 0);
}

#[test]
fn can_open_checks_magic_and_sizes() {
    let good = SuperBlock::new(8192, 1, 1024, 2, 7164);
    assert!(EasyFileSystem::can_open(&good));
    let mut bad = good;
    bad.magic = 1;
    assert!(!EasyFileSystem::can_open(&bad));
    let mut huge = good;
    huge.inode_area_blocks = u32::MAX - 2;
    assert!(!EasyFileSystem::can_open(&huge));
}

#[test]
fn can_release_checks_allocation_and_duplicates() {
    let (mut efs, _, _) = EasyFileSystem::create(8192, 1);
    let a = efs.alloc_data();
    let b = efs.alloc_data();
    assert!(efs.can_release(&vec![a, b]));
    assert!(!efs.can_release(&vec![a, a]));
    assert!(!efs.can_release(&vec![a, b + 1]));
    assert!(!efs.can_release(&vec![5]));
    assert!(!efs.can_release(&vec![u32::MAX]));
    assert!(efs.can_release(&Vec::new()));
}

#[test]
fn first_free_matches_next_allocation() {
    let (mut efs, _, _) = EasyFileSystem::create(8192, 1);
    assert_eq!(efs.inode_bitmap.first_free(), Some(1));
    assert_eq!(efs.alloc_inode(), 1);
    assert_eq!(efs.data_bitmap.first_free(), Some(0));
    assert_eq!(efs.alloc_data(), 1028);
    assert_eq!(efs.data_bitmap.first_free(), Some(1));
}

#[test]
fn peek_names_the_next_fetched_task() {
    let mut m = TaskManager::new();
    assert_eq!(m.peek(), None);
    m.add(StrideTask { pid: 1, stride: 4, prio: 16 });
    m.add(StrideTask { pid: 2, stride: 3, prio: 16 });
    assert_eq!(m.peek(), Some(StrideTask { pid: 2, stride: 3, prio: 16 }));
    assert_eq!(m.len(), 2);
    assert_eq!(m.fetch().unwrap().pid, 2);
}

#[test]
fn resolves_checks_index_shape() {
    let mut ix = IndexBlocks { indirect1: vec![0; 128], indirect2: vec![0; 128], level2: Vec::new() };
    assert!(ix.resolves(156));
    assert!(!ix.resolves(157));
    ix.level2.push(vec![0; 128]);
    assert!(ix.resolves(284));
    assert!(!ix.resolves(285));
    ix.level2.push(vec![0; 3]);
    assert!(!ix.resolves(10));
    let short = IndexBlocks { indirect1: vec![0; 4], indirect2: vec![0; 128], level2: Vec::new() };
    assert!(!short.resolves(1));
}

#[test]
fn dealloc_inode_with_second_level_blocks() {
    let (mut efs, _, _) = EasyFileSystem::create(8192, 1);
    let id = efs.alloc_inode();
    let mut data = Vec::new();
    for _ in 0..160 {
        data.push(efs.alloc_data());
    }
    let ind1 = efs.alloc_data();
    let ind2 = efs.alloc_data();
    let row = efs.alloc_data();
    let mut inode = DiskInode::new(DiskInodeType::File);
    inode.size = 160 * 512 - 7;
    inode.direct.copy_from_slice(&data[0..28]);
    inode.indirect1 = ind1;
    inode.indirect2 = ind2;
    let mut ix = IndexBlocks { indirect1: data[28..156].to_vec(), indirect2: vec![0; 128], level2: Vec::new() };
    ix.indirect2[0] = row;
    let mut level = vec![0u32; 128];
    level[0..4].copy_from_slice(&data[156..160]);
    ix.level2.push(level);
    let all = inode.released_blocks(&ix);
    assert_eq!(all.len(), 163);
    assert_eq!(&all[160..], &[ind1, row, ind2]);
    assert!(efs.can_release(&all));
    let freed = efs.dealloc_inode(id as usize, &inode, &ix);
    assert_eq!(freed, data);
    assert_eq!(efs.data_bitmap.first_free(), Some(0));
    for k in 0..163 {
        assert!(!efs.data_bitmap.is_set(k));
    }
}
