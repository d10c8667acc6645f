use rcore_vfs::block::{BlockReader, BlockWriter, MemDisk, BLK_SIZE, BLOCK_SIZE};

#[test]
fn fresh_disk_reads_zeros() {
    let disk = MemDisk::new(16);
    assert_eq!(disk.len(), 16 * 512);
    let block = disk.read_offset(0);
    assert_eq!(block.len(), BLOCK_SIZE);
    assert!(block.iter().all(|b| *b == 0));
}

#[test]
fn block_device_pattern_round_trip() {
    // Each offset gets a 512-byte run of its own number; the block read back
    // at that offset starts with that run.
    let mut disk = MemDisk::new(10);
    for i in 0..512usize {
        let write_buffer = [i as u8; 512];
        disk.write_offset(i, &write_buffer);
        let data = disk.read_offset(i);
        assert_eq!(data.len(), BLOCK_SIZE);
        assert_eq!(&write_buffer[..], &data[..512]);
    }
}

#[test]
fn full_block_round_trip_unaligned() {
    let mut disk = MemDisk::new(20);
    let data: Vec<u8> = (0..BLOCK_SIZE).map(|i| (i % 251) as u8).collect();
    disk.write_offset(1000, &data);
    assert_eq!(disk.read_offset(1000), data);
}

#[test]
fn write_leaves_other_bytes() {
    let mut disk = MemDisk::new(20);
    disk.write_offset(0, &vec![7u8; 2 * BLOCK_SIZE]);
    disk.write_offset(700, &[1, 2, 3]);
    let block = disk.read_offset(0);
    assert_eq!(block[699], 7);
    assert_eq!(&block[700..703], &[1, 2, 3]);
    assert_eq!(block[703], 7);
    assert_eq!(block[0], 7);
    assert_eq!(block[BLOCK_SIZE - 1], 7);
}

#[test]
fn reader_walks_sectors() {
    let mut reader = BlockReader::new(100);
    let mut sectors = Vec::new();
    let sector: Vec<u8> = (0..BLK_SIZE).map(|i| (i % 256) as u8).collect();
    while !reader.is_done() {
        sectors.push(reader.next_sector());
        reader.feed(&sector);
    }
    // 4096 bytes from byte 100 touch sectors 0 to 8.
    assert_eq!(sectors, (0..9).collect::<Vec<usize>>());
    let bytes = reader.into_bytes();
    assert_eq!(bytes.len(), BLOCK_SIZE);
    // the first chunk comes from position 100 of the first sector
    assert_eq!(bytes[0], 100);
    assert_eq!(bytes[411], 255);
    assert_eq!(bytes[412], 0);
}

#[test]
fn writer_patches_sectors() {
    let data = vec![9u8; 600];
    let mut writer = BlockWriter::new(1000, data);
    let old_sector = vec![1u8; BLK_SIZE];
    assert_eq!(writer.next_sector(), 1);
    let first = writer.patch(&old_sector);
    // position 1000 lies 488 bytes into sector 1: 24 bytes fit there.
    assert_eq!(&first[..488], &vec![1u8; 488][..]);
    assert_eq!(&first[488..], &vec![9u8; 24][..]);
    assert!(!writer.is_done());
    assert_eq!(writer.next_sector(), 2);
    let second = writer.patch(&old_sector);
    assert_eq!(&second[..512], &vec![9u8; 512][..]);
    assert_eq!(writer.next_sector(), 3);
    let third = writer.patch(&old_sector);
    assert_eq!(&third[..64], &vec![9u8; 64][..]);
    assert_eq!(&third[64..], &vec![1u8; 448][..]);
    assert!(writer.is_done());
}

#[test]
fn empty_write_changes_nothing() {
    let mut disk = MemDisk::new(9);
    disk.write_offset(0, &vec![5u8; BLOCK_SIZE]);
    disk.write_offset(17, &[]);
    assert_eq!(disk.read_offset(0), vec![5u8; BLOCK_SIZE]);
}

#[test]
fn empty_write_past_the_end_changes_nothing() {
    let mut disk = MemDisk::new(9);
    disk.write_offset(0, &vec![3u8; BLOCK_SIZE]);
    disk.write_offset(1_000_000, &[]);
    assert_eq!(disk.len(), 9 * 512);
    assert_eq!(disk.read_offset(0), vec![3u8; BLOCK_SIZE]);
}
