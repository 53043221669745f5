use aoc2024::disk::{blocks_from_layout, DiskBlock, DiskMap};

#[test]
fn day_09_test_disk_layout_1() {
    let disk = DiskMap::new("12345".into());

    assert_eq!(&disk.display_layout(), "0..111....22222")
}

#[test]
fn test_disk_defragment_sm() {
    let mut disk = DiskMap::new("2333133121414131402".into());

    disk.defragment();

    assert_eq!(disk.checksum(), 1928)
}

#[test]
fn day_09_test_disk_layout_2() {
    let disk = DiskMap::new("2333133121414131402".into());

    assert_eq!(
        &disk.display_layout(),
        "00...111...2...333.44.5555.6666.777.888899"
    )
}

#[test]
fn defragment_moves_end_blocks_forward() {
    let mut disk = DiskMap::new("12345".into());
    disk.defragment();
    assert_eq!(&disk.display_layout(), "022111222......");
    assert_eq!(disk.checksum(), 60);
}

#[test]
fn defragment_short_disks_unchanged() {
    let mut disk = DiskMap::new("2".into());
    disk.defragment();
    assert_eq!(&disk.display_layout(), "00");
    let mut empty = DiskMap::new(String::new());
    empty.defragment();
    assert_eq!(&empty.display_layout(), "");
}

#[test]
fn layout_numbers_files() {
    let blocks = blocks_from_layout(vec![1, 2, 0, 1, 2]);
    assert_eq!(blocks.len(), 6);
    assert!(matches!(blocks[0], DiskBlock::File(0)));
    assert!(matches!(blocks[1], DiskBlock::Free));
    assert!(matches!(blocks[2], DiskBlock::Free));
    assert!(matches!(blocks[3], DiskBlock::Free));
    assert!(matches!(blocks[4], DiskBlock::File(2)));
    assert!(matches!(blocks[5], DiskBlock::File(2)));
}

#[test]
fn display_marks_wide_file_numbers() {
    let disk = DiskMap::new("1010101010101010101011".into());
    assert_eq!(&disk.display_layout(), "0123456789$.");
}

#[test]
fn checksum_weights_by_position() {
    let disk = DiskMap(vec![DiskBlock::Free, DiskBlock::File(3), DiskBlock::File(5)]);
    assert_eq!(disk.checksum(), 13);
}

#[test]
fn checksum_overflow_detected() {
    let disk = DiskMap(vec![DiskBlock::Free, DiskBlock::File(u32::MAX), DiskBlock::File(u32::MAX)]);
    assert_eq!(disk.checksum_checked(), Some(3 * (u32::MAX as usize)));
    let mut blocks = vec![DiskBlock::Free; 4];
    blocks.push(DiskBlock::File(1));
    assert_eq!(DiskMap(blocks).checksum_checked(), Some(4));
}
