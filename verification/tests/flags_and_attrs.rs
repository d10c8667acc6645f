use rcore_vfs::defs::{
    make_mode, Ext4Attr, FileAttr, InodeFileType, InodePerm, OpenFlags, O_CREAT, O_RDONLY,
    O_WRONLY, S_IEXEC, S_IFDIR, S_IFREG, S_IREAD, S_IWRITE,
};

#[test]
fn open_flags_contain() {
    let flags = OpenFlags { bits: O_CREAT | O_WRONLY };
    assert!(flags.contains(OpenFlags { bits: O_CREAT }));
    assert!(flags.contains(OpenFlags { bits: O_WRONLY }));
    assert!(flags.contains(OpenFlags { bits: O_RDONLY }));
    assert!(!OpenFlags { bits: O_WRONLY }.contains(OpenFlags { bits: O_CREAT }));
    assert_eq!(
        OpenFlags { bits: O_CREAT }.union(OpenFlags { bits: O_WRONLY }),
        flags
    );
}

#[test]
fn open_flags_from_bits() {
    assert_eq!(OpenFlags::from_bits(O_CREAT), Some(OpenFlags { bits: O_CREAT }));
    assert_eq!(OpenFlags::from_bits(0o4), None);
}

#[test]
fn file_type_from_bits() {
    assert_eq!(InodeFileType::from_bits(S_IFREG), Some(InodeFileType { bits: S_IFREG }));
    assert_eq!(InodeFileType::from_bits(0x8001), None);
    assert!(InodeFileType { bits: S_IFDIR }.contains(InodeFileType { bits: 0x4000 }));
}

#[test]
fn perm_from_bits_and_checks() {
    let rw = InodePerm::from_bits(S_IREAD | S_IWRITE).unwrap();
    assert_eq!(rw.bits(), 0x0180);
    assert!(rw.readable());
    assert!(rw.writable());
    assert!(!rw.contains(InodePerm { bits: S_IEXEC }));
    // group and other bits are no permission of this set
    assert_eq!(InodePerm::from_bits(0o644), None);
    let ro = InodePerm { bits: S_IREAD };
    assert!(ro.readable());
    assert!(!ro.writable());
}

#[test]
fn attr_from_ext4_and_mode() {
    let raw = Ext4Attr {
        size: 13,
        blocks: 8,
        atime: 1,
        mtime: 2,
        ctime: 3,
        uid: 1000,
        gid: 100,
        kind: S_IFREG,
        perm: S_IREAD | S_IWRITE,
    };
    let attr = FileAttr::from_ext4(12, &raw);
    assert_eq!(attr.ino, 12);
    assert_eq!(attr.size, 13);
    assert_eq!(attr.blocks, 8);
    assert_eq!((attr.atime, attr.mtime, attr.ctime), (1, 2, 3));
    assert_eq!((attr.uid, attr.gid), (1000, 100));
    assert_eq!(attr.file_type, InodeFileType { bits: S_IFREG });
    assert_eq!(attr.perm, InodePerm { bits: 0x0180 });
    assert_eq!(attr.mode(), 0x8180);
    assert_eq!(attr.mode() as u16 & 0xF000, S_IFREG);
    assert_eq!(attr.mode() as u16 & 0x0FFF, S_IREAD | S_IWRITE);
    assert_eq!(
        make_mode(InodeFileType { bits: S_IFDIR }, InodePerm { bits: S_IREAD }),
        0x4100
    );
}

#[test]
fn attr_from_ext4_keeps_known_bits() {
    let raw = Ext4Attr {
        size: 0,
        blocks: 0,
        atime: 0,
        mtime: 0,
        ctime: 0,
        uid: 0,
        gid: 0,
        kind: S_IFREG,
        perm: 0o644,
    };
    let attr = FileAttr::from_ext4(5, &raw);
    assert_eq!(attr.perm, InodePerm { bits: S_IREAD | S_IWRITE });
    assert_eq!(attr.file_type, InodeFileType { bits: S_IFREG });
    assert_eq!(InodePerm::from_bits_truncate(0o7777).bits, 0x0DC0);
    assert_eq!(InodeFileType::from_bits_truncate(0x41FF).bits, S_IFDIR);
}
