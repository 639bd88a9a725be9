use aperture::fs::fat32::{init, Fat32Fs};
use aperture::fs::{FileSystem, FileType, FsError, Vfs};

const EOC: u32 = 0x0FFF_FFFF;

fn put16(d: &mut [u8], off: usize, v: u16) {
    d[off..off + 2].copy_from_slice(&v.to_le_bytes());
}

fn put32(d: &mut [u8], off: usize, v: u32) {
    d[off..off + 4].copy_from_slice(&v.to_le_bytes());
}

/// A short directory record.
fn short_record(d: &mut [u8], off: usize, name: &[u8; 11], attr: u8, cluster: u32, size: u32) {
    d[off..off + 11].copy_from_slice(name);
    d[off + 11] = attr;
    put16(d, off + 20, (cluster >> 16) as u16);
    put16(d, off + 26, (cluster & 0xFFFF) as u16);
    put32(d, off + 28, size);
}

/// An LFN record holding a name of at most five characters.
fn lfn_record(d: &mut [u8], off: usize, seq: u8, name: &str) {
    for b in d[off..off + 32].iter_mut() {
        *b = 0xFF;
    }
    d[off] = seq;
    d[off + 11] = 0x0F;
    d[off + 12] = 0;
    d[off + 13] = 0;
    d[off + 26] = 0;
    d[off + 27] = 0;
    for (i, c) in name.encode_utf16().enumerate() {
        put16(d, off + 1 + 2 * i, c);
    }
}

/// A volume of 8 sectors of 512 bytes, one sector per cluster, one FAT at
/// sector 1, data from sector 2 (cluster 2 is the root directory).
fn disk_image() -> Vec<u8> {
    let mut d = vec![0u8; 8 * 512];
    put16(&mut d, 0x0B, 512);
    d[0x0D] = 1;
    put16(&mut d, 0x0E, 1);
    d[0x10] = 1;
    put32(&mut d, 0x24, 1);
    put32(&mut d, 0x2C, 2);
    d[0x1FE] = 0x55;
    d[0x1FF] = 0xAA;
    // FAT
    let fat = 512;
    put32(&mut d, fat, 0x0FFF_FFF8);
    put32(&mut d, fat + 4, EOC);
    put32(&mut d, fat + 8, EOC); // root
    put32(&mut d, fat + 12, EOC); // HELLO
    put32(&mut d, fat + 16, EOC); // MUSIC
    put32(&mut d, fat + 20, 6); // BIG: 5 -> 6
    put32(&mut d, fat + 24, EOC);
    put32(&mut d, fat + 28, EOC); // SONG
    // Root directory (cluster 2 = sector 2)
    let root = 2 * 512;
    short_record(&mut d, root, b"HELLO   TXT", 0x20, 3, 13);
    lfn_record(&mut d, root + 32, 0x41, "Music");
    short_record(&mut d, root + 64, b"MUSIC      ", 0x10, 4, 0);
    short_record(&mut d, root + 96, b"OLD     TXT", 0x20, 3, 13);
    d[root + 96] = 0xE5;
    short_record(&mut d, root + 128, b"VIBEOS     ", 0x08, 0, 0);
    short_record(&mut d, root + 160, b"BIG     BIN", 0x20, 5, 600);
    // HELLO (cluster 3)
    d[3 * 512..3 * 512 + 13].copy_from_slice(b"Hello, FAT32!");
    // MUSIC (cluster 4)
    short_record(&mut d, 4 * 512, b"SONG    MP3", 0x20, 7, 5);
    // BIG (clusters 5 and 6)
    for b in d[5 * 512..6 * 512].iter_mut() {
        *b = 0xAB;
    }
    for b in d[6 * 512..6 * 512 + 88].iter_mut() {
        *b = 0xCD;
    }
    // SONG (cluster 7)
    d[7 * 512..7 * 512 + 5].copy_from_slice(b"la la");
    d
}

#[test]
fn boot_sector_geometry_is_read() {
    let disk = disk_image();
    let mut boot = [0u8; 512];
    boot.copy_from_slice(&disk[..512]);
    let fs = Fat32Fs::new(boot, &disk);
    assert_eq!(fs.bytes_per_sec, 512);
    assert_eq!(fs.sec_per_clus, 1);
    assert_eq!(fs.rsvd_sec_cnt, 1);
    assert_eq!(fs.num_fats, 1);
    assert_eq!(fs.fat_sz, 1);
    assert_eq!(fs.root_clus, 2);
    assert_eq!(fs.clus_to_sector(2), 2);
    assert_eq!(fs.clus_to_sector(7), 7);
    assert_eq!(fs.get_next_cluster(5), Ok(6));
    assert_eq!(fs.get_next_cluster(6), Ok(EOC));
}

#[test]
fn a_volume_without_signature_is_not_mounted() {
    let mut disk = disk_image();
    disk[0x1FF] = 0;
    let mut vfs = Vfs::new();
    init(&mut vfs, &disk);
    assert!(vfs.fs.is_none());
    assert_eq!(vfs.read_file("/hello"), Err(FsError::NotFound));
    let short = vec![0u8; 100];
    init(&mut vfs, &short);
    assert!(vfs.fs.is_none());
}

#[test]
fn short_names_are_lowercased_up_to_the_first_space() {
    let disk = disk_image();
    let mut vfs = Vfs::new();
    init(&mut vfs, &disk);
    assert_eq!(vfs.read_file("/hello"), Ok(b"Hello, FAT32!".to_vec()));
    assert_eq!(vfs.read_file("/HeLLo"), Ok(b"Hello, FAT32!".to_vec()));
    assert_eq!(vfs.read_file("/hello.txt"), Err(FsError::NotFound));
}

#[test]
fn long_names_and_subdirectories() {
    let disk = disk_image();
    let mut vfs = Vfs::new();
    init(&mut vfs, &disk);
    let listing = vfs.list_dir("/music").unwrap();
    assert_eq!(listing.len(), 1);
    assert_eq!(listing[0].name, "song");
    assert_eq!(listing[0].file_type, FileType::File);
    assert_eq!(listing[0].size, 5);
    assert_eq!(vfs.read_file("/Music/song"), Ok(b"la la".to_vec()));
    assert_eq!(vfs.read_file("//music//song"), Ok(b"la la".to_vec()));
}

#[test]
fn directory_scan_skips_deleted_entries_and_labels() {
    let disk = disk_image();
    let mut boot = [0u8; 512];
    boot.copy_from_slice(&disk[..512]);
    let fs = Fat32Fs::new(boot, &disk);
    let entries = fs.read_dir_entries(2).unwrap();
    let names: Vec<String> = entries.iter().map(|e| e.0.clone()).collect();
    assert_eq!(names, vec!["hello".to_string(), "Music".to_string(), "big".to_string()]);
    assert!(entries[1].1.is_directory());
    assert_eq!(entries[2].1.first_cluster(), 5);
    assert_eq!(entries[2].1.size(), 600);
}

#[test]
fn files_follow_their_cluster_chain() {
    let disk = disk_image();
    let mut vfs = Vfs::new();
    init(&mut vfs, &disk);
    let data = vfs.read_file("/big.").err();
    assert_eq!(data, Some(FsError::NotFound));
    let big = vfs.read_file("/BIG").unwrap();
    assert_eq!(big.len(), 600);
    assert!(big[..512].iter().all(|&b| b == 0xAB));
    assert!(big[512..].iter().all(|&b| b == 0xCD));
}

#[test]
fn reads_at_an_offset() {
    let disk = disk_image();
    let mut boot = [0u8; 512];
    boot.copy_from_slice(&disk[..512]);
    let fs = Fat32Fs::new(boot, &disk);
    let handle = fs.open("/big").unwrap();
    assert_eq!(handle.ino, 5);
    assert_eq!(handle.size, 600);
    assert_eq!(handle.path, "/big");
    let mut buf = [0u8; 4];
    assert_eq!(fs.read(&handle, 510, &mut buf), Ok(4));
    assert_eq!(buf, [0xAB, 0xAB, 0xCD, 0xCD]);
    let mut tail = [7u8; 8];
    assert_eq!(fs.read(&handle, 596, &mut tail), Ok(4));
    assert_eq!(tail, [0xCD, 0xCD, 0xCD, 0xCD, 7, 7, 7, 7]);
    assert_eq!(fs.read(&handle, 600, &mut tail), Ok(0));
}

#[test]
fn path_errors() {
    let disk = disk_image();
    let mut vfs = Vfs::new();
    init(&mut vfs, &disk);
    assert_eq!(vfs.read_file("/nope").err(), Some(FsError::NotFound));
    assert_eq!(vfs.read_file("/hello/x").err(), Some(FsError::NotADirectory));
    assert_eq!(vfs.read_file("/music/").err(), Some(FsError::NotFound));
}

#[test]
fn a_cluster_past_the_disk_is_an_io_error() {
    let mut disk = disk_image();
    // SONG now starts at cluster 40, beyond the 8-sector disk.
    short_record(&mut disk, 4 * 512, b"SONG    MP3", 0x20, 40, 5);
    let mut vfs = Vfs::new();
    init(&mut vfs, &disk);
    assert_eq!(vfs.read_file("/music/song").err(), Some(FsError::IoError));
}
