use std::sync::Arc;

use rcore_vfs::defs::{
    InodeFileType, InodePerm, OpenFlags, O_APPEND, O_CREAT, O_RDONLY, O_RDWR, O_WRONLY, S_IFDIR, S_IFREG, S_IREAD,
    S_IWRITE,
};
use rcore_vfs::ext4::{app_name, child_ino, Ext4InodeInner, ROOT_INO};
use rcore_vfs::file::{
    open_file, read_buffers, wants_create, write_buffers, BufferCursor, OSInode, UserBuffer,
};
use rcore_vfs::memfs::MemInode;
use rcore_vfs::vfs::{Dentry, Inode, InodeStat};

fn rw() -> InodePerm {
    InodePerm { bits: S_IREAD | S_IWRITE }
}

fn file(data: &[u8]) -> MemInode {
    MemInode::new_file(7, rw(), data.to_vec())
}

fn dir_with(entries: &[(&str, &[u8])]) -> MemInode {
    let mut d = MemInode::new_dir(2, rw());
    for (name, data) in entries {
        d.create(name, InodeFileType { bits: S_IFREG }, rw()).unwrap();
        let mut f = d.open(name, false).unwrap();
        f.write_at(0, data);
        d.release(name, f);
    }
    d
}

#[test]
fn read_all_reads_to_end() {
    let content: Vec<u8> = (0..1300u32).map(|i| (i % 256) as u8).collect();
    let root = dir_with(&[("filea", &content)]);
    let mut f = OSInode::new(true, false, "filea");
    assert_eq!(f.read_all(&root), content);
    // the position now sits at the end
    assert_eq!(f.position(), 1300);
    assert_eq!(f.read_all(&root), Vec::<u8>::new());
}

#[test]
fn read_all_of_empty_file() {
    let root = dir_with(&[("empty", b"")]);
    let mut f = OSInode::new(true, true, "empty");
    assert!(f.read_all(&root).is_empty());
    // a path the directory does not hold reads nothing
    let mut g = OSInode::new(true, true, "missing");
    assert!(g.read_all(&root).is_empty());
}

#[test]
fn read_fills_buffers_in_turn() {
    let root = dir_with(&[("filea", b"Hello, world!")]);
    let mut f = OSInode::new(true, true, "filea");
    let mut buf = UserBuffer::new(vec![vec![0u8; 5], vec![0u8; 4], vec![0u8; 100]]);
    assert_eq!(f.read(&root, &mut buf), 13);
    assert_eq!(&buf.buffers[0], b"Hello");
    assert_eq!(&buf.buffers[1], b", wo");
    assert_eq!(&buf.buffers[2][..4], b"rld!");
    assert_eq!(buf.buffers[2][4], 0);
    // at the end of the file nothing more is read
    let mut more = UserBuffer::new(vec![vec![1u8; 3]]);
    assert_eq!(f.read(&root, &mut more), 0);
    assert_eq!(more.buffers[0], vec![1u8; 3]);
}

#[test]
fn read_stops_at_empty_buffer() {
    let inode = file(b"abcdef");
    let mut pos = 1usize;
    let mut buf = UserBuffer::new(vec![vec![0u8; 2], vec![], vec![0u8; 2]]);
    assert_eq!(read_buffers(&inode, &mut pos, &mut buf), 2);
    assert_eq!(pos, 3);
    assert_eq!(buf.buffers[0], b"bc".to_vec());
    assert_eq!(buf.buffers[2], vec![0u8; 2]);
}

#[test]
fn two_reads_equal_one_joined_read() {
    let inode = file(b"Hello, world!");
    let mut pos = 0usize;
    let mut first = UserBuffer::new(vec![vec![0u8; 3], vec![0u8; 4]]);
    let mut second = UserBuffer::new(vec![vec![0u8; 2], vec![0u8; 10]]);
    let n1 = read_buffers(&inode, &mut pos, &mut first);
    let n2 = read_buffers(&inode, &mut pos, &mut second);
    let mut joint_pos = 0usize;
    let mut joint = UserBuffer::new(vec![vec![0u8; 3], vec![0u8; 4], vec![0u8; 2], vec![0u8; 10]]);
    let n = read_buffers(&inode, &mut joint_pos, &mut joint);
    assert_eq!((n1, n2, n), (7, 6, 13));
    assert_eq!(pos, joint_pos);
    let mut separate = first.buffers.clone();
    separate.extend(second.buffers.clone());
    assert_eq!(separate, joint.buffers);
}

#[test]
fn write_advances_by_total() {
    let mut root = dir_with(&[("filea", b"")]);
    let mut f = OSInode::new(true, true, "filea");
    let buf = UserBuffer::new(vec![b"Hello".to_vec(), b", world!".to_vec()]);
    assert_eq!(f.write(&mut root, &buf), 13);
    assert_eq!(f.position(), 13);
    assert_eq!(f.get_inode(&root).unwrap().data, b"Hello, world!".to_vec());
    let more = UserBuffer::new(vec![b"!".to_vec()]);
    assert_eq!(f.write(&mut root, &more), 1);
    assert_eq!(f.get_inode(&root).unwrap().data, b"Hello, world!!".to_vec());
}

#[test]
fn write_buffers_counts_bytes() {
    let mut inode = file(b"abc");
    let mut pos = 10usize;
    let buf = UserBuffer::new(vec![vec![1u8; 3], vec![], vec![2u8; 4]]);
    assert_eq!(write_buffers(&mut inode, &mut pos, &buf), 7);
    assert_eq!(pos, 17);
    // the gap between the old end and the write reads as zeros
    assert_eq!(inode.data, vec![b'a', b'b', b'c', 0, 0, 0, 0, 0, 0, 0, 1, 1, 1, 2, 2, 2, 2]);
}

#[test]
fn empty_write_past_end_changes_nothing() {
    let mut inode = file(b"abc");
    assert_eq!(inode.write_at(100, &[]), 0);
    assert_eq!(inode.data, b"abc".to_vec());
}

#[test]
fn written_text_reads_back() {
    let test_str = "Hello, world!";
    let mut root = dir_with(&[]);
    let mut writer =
        open_file(&mut root, "filea", OpenFlags { bits: O_CREAT | O_WRONLY }).unwrap();
    assert!(!writer.readable());
    assert!(writer.writable());
    writer.write(&mut root, &UserBuffer::new(vec![test_str.as_bytes().to_vec()]));
    drop(writer);
    let mut reader = open_file(&mut root, "filea", OpenFlags { bits: O_RDONLY }).unwrap();
    let mut buffer = UserBuffer::new(vec![vec![0u8; 100]]);
    let read_len = reader.read(&root, &mut buffer);
    assert_eq!(read_len, 13);
    assert_eq!(test_str, core::str::from_utf8(&buffer.buffers[0][..read_len]).unwrap());
}

#[test]
fn every_open_file_sees_a_write_at_once() {
    let mut root = dir_with(&[]);
    let mut writer =
        open_file(&mut root, "filea", OpenFlags { bits: O_CREAT | O_WRONLY }).unwrap();
    let mut reader = open_file(&mut root, "filea", OpenFlags { bits: O_RDONLY }).unwrap();
    assert_eq!(writer.write(&mut root, &UserBuffer::new(vec![b"abc".to_vec()])), 3);
    let mut buffer = UserBuffer::new(vec![vec![0u8; 10]]);
    assert_eq!(reader.read(&root, &mut buffer), 3);
    assert_eq!(&buffer.buffers[0][..3], b"abc");
    assert_eq!(root.lookup("filea").unwrap().inode().data, b"abc".to_vec());
}

#[test]
fn writes_of_two_open_files_both_stay() {
    let mut root = dir_with(&[("filea", b"0123456789")]);
    let mut first = open_file(&mut root, "filea", OpenFlags { bits: O_RDWR }).unwrap();
    let mut second = open_file(&mut root, "filea", OpenFlags { bits: O_RDWR }).unwrap();
    let mut skip = UserBuffer::new(vec![vec![0u8; 6]]);
    assert_eq!(second.read(&root, &mut skip), 6);
    assert_eq!(first.write(&mut root, &UserBuffer::new(vec![b"ab".to_vec()])), 2);
    assert_eq!(second.write(&mut root, &UserBuffer::new(vec![b"xy".to_vec()])), 2);
    assert_eq!(root.lookup("filea").unwrap().inode().data, b"ab2345xy89".to_vec());
    let mut again = open_file(&mut root, "filea", OpenFlags { bits: O_RDONLY }).unwrap();
    assert_eq!(again.read_all(&root), b"ab2345xy89".to_vec());
}

#[test]
fn appending_file_writes_at_the_end() {
    let mut root = dir_with(&[("log", b"one;")]);
    let mut f = open_file(&mut root, "log", OpenFlags { bits: O_WRONLY | O_APPEND }).unwrap();
    assert!(f.append_mode());
    assert_eq!(f.write(&mut root, &UserBuffer::new(vec![b"two;".to_vec()])), 4);
    assert_eq!(f.position(), 8);
    let mut other = open_file(&mut root, "log", OpenFlags { bits: O_WRONLY }).unwrap();
    assert!(!other.append_mode());
    other.write(&mut root, &UserBuffer::new(vec![b"ONE;x".to_vec()]));
    assert_eq!(f.write(&mut root, &UserBuffer::new(vec![b"three".to_vec()])), 5);
    assert_eq!(root.lookup("log").unwrap().inode().data, b"ONE;xwo;three".to_vec());
}

#[test]
fn open_file_of_unlinked_path_reads_and_writes_nothing() {
    let mut root = dir_with(&[("filea", b"abc")]);
    let mut f = open_file(&mut root, "filea", OpenFlags { bits: O_RDWR }).unwrap();
    assert!(root.unlink("filea"));
    assert_eq!(f.write(&mut root, &UserBuffer::new(vec![b"xyz".to_vec()])), 0);
    let mut buffer = UserBuffer::new(vec![vec![7u8; 3]]);
    assert_eq!(f.read(&root, &mut buffer), 0);
    assert_eq!(buffer.buffers[0], vec![7u8; 3]);
    assert_eq!(f.position(), 0);
    assert!(f.get_inode(&root).is_none());
    assert!(root.lookup("filea").is_none());
    assert!(root.ls().is_empty());
}

#[test]
fn cleared_file_reads_nothing() {
    let mut inode = file(b"Hello, world!");
    inode.clear();
    let mut buffer = [0u8; 233];
    assert_eq!(inode.read_at(0, &mut buffer), 0);
}

#[test]
fn truncate_cuts_and_extends() {
    let mut inode = file(b"Hello, world!");
    assert_eq!(inode.truncate(5), 0);
    assert_eq!(inode.data, b"Hello".to_vec());
    assert_eq!(inode.truncate(7), 0);
    assert_eq!(inode.data, b"Hello\0\0".to_vec());
}

#[test]
fn file_position_through_buffers() {
    let mut inode = file(b"Hello, world!");
    let mut inner = Ext4InodeInner { fpos: 7 };
    let mut buf = UserBuffer::new(vec![vec![0u8; 3], vec![0u8; 10]]);
    assert_eq!(read_buffers(&inode, &mut inner.fpos, &mut buf), 6);
    assert_eq!(inner.fpos, 13);
    assert_eq!(buf.buffers[0], b"wor".to_vec());
    assert_eq!(&buf.buffers[1][..3], b"ld!");
    let out = UserBuffer::new(vec![b"xy".to_vec()]);
    assert_eq!(write_buffers(&mut inode, &mut inner.fpos, &out), 2);
    assert_eq!(inner.fpos, 15);
    assert_eq!(inode.data, b"Hello, world!xy".to_vec());
}

#[test]
fn cursor_steps() {
    let mut c = BufferCursor::new(10);
    assert_eq!(c.position(), 10);
    c.after_read(5);
    assert_eq!((c.position(), c.total(), c.finished()), (15, 5, false));
    c.after_read(0);
    assert_eq!((c.position(), c.total(), c.finished()), (15, 5, true));
    let mut w = BufferCursor::new(0);
    w.after_write(4);
    w.after_write(0);
    assert_eq!((w.position(), w.total()), (4, 4));
}

#[test]
fn access_follows_open_mode() {
    let mut root = dir_with(&[("filea", b"x")]);
    let ro = open_file(&mut root, "filea", OpenFlags { bits: O_RDONLY }).unwrap();
    assert!(ro.readable() && !ro.writable());
    let wo = open_file(&mut root, "filea", OpenFlags { bits: O_WRONLY }).unwrap();
    assert!(!wo.readable() && wo.writable());
    let rdwr = open_file(&mut root, "filea", OpenFlags { bits: O_RDWR }).unwrap();
    assert!(rdwr.readable() && rdwr.writable());
    assert_eq!(OpenFlags { bits: O_RDONLY }.read_write(), (true, false));
    assert!(wants_create(OpenFlags { bits: O_CREAT | O_WRONLY }));
    assert!(!wants_create(OpenFlags { bits: O_RDONLY }));
}

#[test]
fn open_file_finds_or_creates() {
    let mut root = dir_with(&[("filea", b"Hello, world!")]);
    let mut opened = open_file(&mut root, "filea", OpenFlags { bits: O_RDWR }).unwrap();
    assert_eq!(opened.read_all(&root), b"Hello, world!".to_vec());
    assert!(open_file(&mut root, "missing", OpenFlags { bits: O_RDONLY }).is_none());
    let mut created = open_file(&mut root, "fileb", OpenFlags { bits: O_CREAT | O_RDWR }).unwrap();
    assert!(created.read_all(&root).is_empty());
    let made = root.lookup("fileb").unwrap().inode();
    assert_eq!(made.file_type(), InodeFileType { bits: S_IFREG });
    assert_eq!(made.permissions(), InodePerm { bits: S_IREAD | S_IWRITE });
    assert_eq!(made.ino(), 4);
    assert_eq!(root.ls(), vec!["filea".to_string(), "fileb".to_string()]);
}

#[test]
fn lookup_and_unlink() {
    let mut root = dir_with(&[("filea", b"abc")]);
    let dentry = root.lookup("filea").unwrap();
    assert_eq!(dentry.name(), "filea");
    assert_eq!(dentry.inode().data, b"abc".to_vec());
    assert!(root.lookup("fileb").is_none());
    assert!(root.unlink("filea"));
    assert!(!root.unlink("filea"));
    assert!(root.lookup("filea").is_none());
}

#[test]
fn get_inode_returns_the_open_inode() {
    let mut root = dir_with(&[]);
    root.create("abc", InodeFileType { bits: S_IFREG }, rw()).unwrap();
    let mut f = OSInode::new(true, true, "abc");
    f.write(&mut root, &UserBuffer::new(vec![b"abc".to_vec()]));
    let inode = f.get_inode(&root).unwrap();
    assert_eq!(inode.data, b"abc".to_vec());
    assert_eq!(inode.ino(), 3);
    assert_eq!(inode.file_type(), InodeFileType { bits: S_IFREG });
    assert_eq!(inode.permissions(), rw());
    assert_eq!(f.position(), 3);
}

#[test]
fn default_operations_report_no_support() {
    let mut inode = file(b"abc");
    assert!(!inode.symlink("a", "b"));
    assert_eq!(inode.hardlink(&file(b""), "h"), -1);
    assert_eq!(inode.rename("a", &mut file(b""), "b"), -1);
    assert_eq!(inode.data, b"abc".to_vec());
}

#[test]
fn create_records_an_empty_entry() {
    let mut root = dir_with(&[("filea", b"abc")]);
    let d = root
        .create("fileb", InodeFileType { bits: S_IFREG }, InodePerm { bits: S_IREAD })
        .unwrap();
    assert_eq!(d.name(), "fileb");
    assert!(d.inode().data.is_empty());
    assert_eq!(d.inode().ino(), 4);
    assert_eq!(d.inode().permissions(), InodePerm { bits: S_IREAD });
    assert_eq!(root.lookup("fileb").unwrap().inode().get_attr().unwrap().perm.bits, S_IREAD);
    assert_eq!(root.ls(), vec!["filea".to_string(), "fileb".to_string()]);
    // an existing entry keeps its bytes
    root.create("filea", InodeFileType { bits: S_IFREG }, rw()).unwrap();
    assert_eq!(root.lookup("filea").unwrap().inode().data, b"abc".to_vec());
    assert_eq!(root.ls().len(), 2);
}

#[test]
fn unlink_removes_only_that_entry() {
    let mut root = dir_with(&[("a", b"1"), ("b", b"22"), ("c", b"333")]);
    assert!(root.unlink("b"));
    assert_eq!(root.ls(), vec!["a".to_string(), "c".to_string()]);
    assert_eq!(root.lookup("c").unwrap().inode().data, b"333".to_vec());
    assert!(!root.unlink("zzz"));
    assert_eq!(root.ls().len(), 2);
}

#[test]
fn attributes_of_memory_inode() {
    let mut inode = file(b"abcd");
    let attr = inode.get_attr().unwrap();
    assert_eq!((attr.ino, attr.size, attr.blocks), (7, 4, 1));
    assert_eq!(attr.file_type, InodeFileType { bits: S_IFREG });
    assert_eq!(attr.perm, rw());
    assert_eq!((attr.uid, attr.gid, attr.atime, attr.mtime, attr.ctime), (0, 0, 0, 0, 0));
    let mut changed = attr;
    changed.perm = InodePerm { bits: S_IREAD };
    changed.uid = 1000;
    changed.mtime = 42;
    inode.set_attr(&changed);
    assert_eq!(inode.permissions(), InodePerm { bits: S_IREAD });
    assert_eq!(inode.ino(), 7);
    assert_eq!(inode.data, b"abcd".to_vec());
    let now = inode.get_attr().unwrap();
    assert_eq!((now.uid, now.mtime), (1000, 42));
    // a new size cuts the file, or extends it with zeros
    changed.size = 2;
    inode.set_attr(&changed);
    assert_eq!(inode.data, b"ab".to_vec());
    changed.size = 600;
    inode.set_attr(&changed);
    assert_eq!(inode.data.len(), 600);
    assert_eq!(inode.get_attr().unwrap().blocks, 2);
    assert!(inode.data[2..].iter().all(|b| *b == 0));
}

#[test]
fn directory_attributes() {
    let root = dir_with(&[("filea", b"abc")]);
    let attr = root.get_attr().unwrap();
    assert_eq!((attr.ino, attr.size, attr.blocks), (2, 0, 0));
    assert_eq!(root.file_type(), InodeFileType { bits: S_IFDIR });
}

#[test]
fn dentry_keeps_name_and_inode() {
    let inode = Arc::new(file(b"abc"));
    let dentry = Dentry::new("filea", inode.clone());
    assert_eq!(dentry.name(), "filea");
    assert!(Arc::ptr_eq(&dentry.inode(), &inode));
}

#[test]
fn inode_stat_values() {
    assert_ne!(InodeStat::Dirty, InodeStat::Synced);
    let s = InodeStat::Dirty;
    let t = s;
    assert_eq!(s, t);
}

#[test]
fn lookup_answers() {
    assert_eq!(child_ino(None), None);
    assert_eq!(child_ino(Some(0)), None);
    assert_eq!(child_ino(Some(12)), Some(12));
    assert_eq!(ROOT_INO, 2);
}

#[test]
fn app_names_drop_extension() {
    assert_eq!(app_name("initproc.bin"), "initproc");
    assert_eq!(app_name("user_shell.elf.bak"), "user_shell");
    assert_eq!(app_name(".hidden"), "");
}

#[test]
fn chunked_reads_rebuild_content() {
    const BLOCK_SZ: usize = 512;
    for len in [
        4 * BLOCK_SZ,
        8 * BLOCK_SZ + BLOCK_SZ / 2,
        100 * BLOCK_SZ,
        70 * BLOCK_SZ + BLOCK_SZ / 7,
        (12 + 128) * BLOCK_SZ,
        400 * BLOCK_SZ,
        1000 * BLOCK_SZ,
        2000 * BLOCK_SZ,
    ] {
        let text: String = (0..len).map(|i| char::from(b'0' + (i * 7 % 10) as u8)).collect();
        let mut inode = file(b"");
        inode.clear();
        let mut probe = [0u8; 233];
        assert_eq!(inode.read_at(0, &mut probe), 0);
        inode.write_at(0, text.as_bytes());
        let mut read_buffer = [0u8; 127];
        let mut offset = 0usize;
        let mut read_str = String::new();
        loop {
            let len = inode.read_at(offset, &mut read_buffer);
            if len == 0 {
                break;
            }
            offset += len;
            read_str.push_str(core::str::from_utf8(&read_buffer[..len]).unwrap());
        }
        assert_eq!(text, read_str);
        assert_eq!(offset, len);
    }
}

#[test]
fn greeting_read_back() {
    let greet_str = "Hello, world!";
    let root = dir_with(&[("filea", greet_str.as_bytes())]);
    let mut f = OSInode::new(true, true, "filea");
    let mut buffer = UserBuffer::new(vec![vec![0u8; 233]]);
    let len = f.read(&root, &mut buffer);
    assert_eq!(greet_str, core::str::from_utf8(&buffer.buffers[0][..len]).unwrap());
}
