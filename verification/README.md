# rcore_vfs

The file-system core of a small teaching kernel, verified with Verus.

- `src/block.rs`: 4 KiB block reads and writes at byte offsets on top of a
  512-byte-sector device, as the state machines `BlockReader` and
  `BlockWriter`, and `MemDisk`, which drives them over a disk image in memory.
- `src/defs.rs`: open modes, file types, permissions and file attributes.
- `src/vfs.rs`: the `Inode` interface and directory entries.  An inode is
  modelled by its bytes, its record (number, type, permissions, owner,
  times) and, for a directory, its files by path with their bytes and
  records.
- `src/memfs.rs`: inodes held in memory, an implementation of `Inode`.
- `src/file.rs`: open files (`OSInode`), reads and writes through a list of
  buffers (`BufferCursor`, `read_buffers`, `write_buffers`), and `open_file`.
  An open file holds its path, access rights and position; its bytes stay
  in the directory, which each read and write goes through, so every open
  file of a path sees at once what any of them wrote.
- `src/ext4.rs`: what an ext4 inode decides by itself (file position, lookup
  answers) and the naming of packed programs.
- `app/`: the image packer (`main`), the image file as a block device, the
  virtio block device, the ext4 volume and its inodes, and the `File` trait
  of open files.
