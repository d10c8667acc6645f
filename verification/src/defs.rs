//! Flag sets and file attributes of the virtual file system.

use vstd::prelude::*;

verus! {

// Open modes.
pub const O_RDONLY: i32 = 0o0;
pub const O_WRONLY: i32 = 0o1;
pub const O_RDWR: i32 = 0o2;
pub const O_CREAT: i32 = 0o100;
pub const O_EXCL: i32 = 0o200;
pub const O_NOCTTY: i32 = 0o400;
pub const O_TRUNC: i32 = 0o1000;
pub const O_APPEND: i32 = 0o2000;
pub const O_NONBLOCK: i32 = 0o4000;
pub const O_DSYNC: i32 = 0o10000;
pub const O_SYNC: i32 = 0o4010000;
pub const O_RSYNC: i32 = 0o4010000;
pub const O_DIRECTORY: i32 = 0o200000;
pub const O_NOFOLLOW: i32 = 0o400000;
pub const O_CLOEXEC: i32 = 0o2000000;
pub const O_ASYNC: i32 = 0o20000;
pub const O_DIRECT: i32 = 0o40000;
pub const O_LARGEFILE: i32 = 0o100000;
pub const O_NOATIME: i32 = 0o1000000;
pub const O_PATH: i32 = 0o10000000;
pub const O_TMPFILE: i32 = 0o20200000;

/// Every bit that some open mode uses.
pub const O_ALL: i32 = 0o37777703;

// File types.
pub const S_IFIFO: u16 = 0x1000;
pub const S_IFCHR: u16 = 0x2000;
pub const S_IFDIR: u16 = 0x4000;
pub const S_IFBLK: u16 = 0x6000;
pub const S_IFREG: u16 = 0x8000;
pub const S_IFSOCK: u16 = 0xC000;
pub const S_IFLNK: u16 = 0xA000;

/// Every bit that some file type uses.
pub const S_IFMT: u16 = 0xF000;

// Permissions.
pub const S_IREAD: u16 = 0x0100;
pub const S_IWRITE: u16 = 0x0080;
pub const S_IEXEC: u16 = 0x0040;
pub const S_ISUID: u16 = 0x0800;
pub const S_ISGID: u16 = 0x0400;

/// Every bit that some permission uses.
pub const S_IPERM: u16 = 0x0DC0;

/// A set of open modes.
#[derive(Clone, Copy, Debug, PartialEq, Eq, Structural)]
pub struct OpenFlags {
    pub bits: i32,
}

impl OpenFlags {
    /// Whether every bit of `bits` names an open mode.
    pub open spec fn known_bits(bits: i32) -> bool {
        bits & !O_ALL == 0
    }

    /// The set with exactly the given bits, if each of them names an open mode.
    pub fn from_bits(bits: i32) -> (r: Option<Self>)
        ensures
            r is Some <==> Self::known_bits(bits),
            r is Some ==> r->0.bits == bits,
    {
        if bits & !O_ALL == 0 {
            Some(OpenFlags { bits })
        } else {
            None
        }
    }

    /// Whether every mode of `other` is in this set.
    pub fn contains(&self, other: Self) -> (r: bool)
        ensures
            r == (self.bits & other.bits == other.bits),
    {
        self.bits & other.bits == other.bits
    }

    /// Whether a file opened with these modes may be read and may be
    /// written: read-only forbids writing, write-only forbids reading.
    pub fn read_write(&self) -> (r: (bool, bool))
        ensures
            r.0 == (self.bits & 3 != O_WRONLY),
            r.1 == (self.bits & 3 != O_RDONLY),
    {
        let access = self.bits & 3;
        (access != O_WRONLY, access != O_RDONLY)
    }

    /// The modes of both sets.
    pub fn union(self, other: Self) -> (r: Self)
        ensures
            r.bits == self.bits | other.bits,
    {
        OpenFlags { bits: self.bits | other.bits }
    }
}

/// The type of a file: the upper bits of its mode.
#[derive(Clone, Copy, Debug, PartialEq, Eq, Structural)]
pub struct InodeFileType {
    pub bits: u16,
}

impl InodeFileType {
    /// Whether every bit of `bits` belongs to some file type.
    pub open spec fn known_bits(bits: u16) -> bool {
        bits & !S_IFMT == 0
    }

    /// The type with exactly the given bits, if each of them belongs to
    /// some file type.
    pub fn from_bits(bits: u16) -> (r: Option<Self>)
        ensures
            r is Some <==> Self::known_bits(bits),
            r is Some ==> r->0.bits == bits,
    {
        if bits & !S_IFMT == 0 {
            Some(InodeFileType { bits })
        } else {
            None
        }
    }

    /// The type made of those of the given bits that belong to some file
    /// type; the others are dropped.
    pub fn from_bits_truncate(bits: u16) -> (r: Self)
        ensures
            r.bits == bits & S_IFMT,
    {
        InodeFileType { bits: bits & S_IFMT }
    }

    pub fn bits(&self) -> (r: u16)
        ensures
            r == self.bits,
    {
        self.bits
    }

    /// Whether every bit of `other` is set here.
    pub fn contains(&self, other: Self) -> (r: bool)
        ensures
            r == (self.bits & other.bits == other.bits),
    {
        self.bits & other.bits == other.bits
    }
}

/// The permission bits of a file.
#[derive(Clone, Copy, Debug, PartialEq, Eq, Structural)]
pub struct InodePerm {
    pub bits: u16,
}

impl InodePerm {
    /// Whether every bit of `bits` is some permission.
    pub open spec fn known_bits(bits: u16) -> bool {
        bits & !S_IPERM == 0
    }

    /// The permissions with exactly the given bits, if each of them is some
    /// permission.
    pub fn from_bits(bits: u16) -> (r: Option<Self>)
        ensures
            r is Some <==> Self::known_bits(bits),
            r is Some ==> r->0.bits == bits,
    {
        if bits & !S_IPERM == 0 {
            Some(InodePerm { bits })
        } else {
            None
        }
    }

    /// The permissions made of those of the given bits that are some
    /// permission; the others are dropped.
    pub fn from_bits_truncate(bits: u16) -> (r: Self)
        ensures
            r.bits == bits & S_IPERM,
    {
        InodePerm { bits: bits & S_IPERM }
    }

    pub fn bits(&self) -> (r: u16)
        ensures
            r == self.bits,
    {
        self.bits
    }

    /// Whether every permission of `other` is granted here.
    pub fn contains(&self, other: Self) -> (r: bool)
        ensures
            r == (self.bits & other.bits == other.bits),
    {
        self.bits & other.bits == other.bits
    }

    /// Whether the owner may read.
    pub fn readable(&self) -> (r: bool)
        ensures
            r == (self.bits & S_IREAD == S_IREAD),
    {
        self.contains(InodePerm { bits: S_IREAD })
    }

    /// Whether the owner may write.
    pub fn writable(&self) -> (r: bool)
        ensures
            r == (self.bits & S_IWRITE == S_IWRITE),
    {
        self.contains(InodePerm { bits: S_IWRITE })
    }
}

/// Attributes of a file.
#[derive(Clone, Copy, Debug, PartialEq, Eq, Structural)]
pub struct FileAttr {
    pub ino: u64,
    pub size: u64,
    pub blocks: u64,
    pub atime: u32,
    pub mtime: u32,
    pub ctime: u32,
    pub uid: u32,
    pub gid: u32,
    pub file_type: InodeFileType,
    pub perm: InodePerm,
}

/// The attributes that an ext4 volume reports for an inode, as plain values:
/// the type and permission parts of the mode are kept apart.
#[derive(Clone, Copy, Debug, PartialEq, Eq, Structural)]
pub struct Ext4Attr {
    pub size: u64,
    pub blocks: u64,
    pub atime: u32,
    pub mtime: u32,
    pub ctime: u32,
    pub uid: u32,
    pub gid: u32,
    pub kind: u16,
    pub perm: u16,
}

impl FileAttr {
    /// The attributes of inode `ino` from what the volume reports for it.
    /// Of the mode only the bits of known types and permissions are kept.
    pub fn from_ext4(ino: u32, raw: &Ext4Attr) -> (r: FileAttr)
        ensures
            r == (FileAttr {
                ino: ino as u64,
                size: raw.size,
                blocks: raw.blocks,
                atime: raw.atime,
                mtime: raw.mtime,
                ctime: raw.ctime,
                uid: raw.uid,
                gid: raw.gid,
                file_type: InodeFileType { bits: raw.kind & S_IFMT },
                perm: InodePerm { bits: raw.perm & S_IPERM },
            }),
    {
        FileAttr {
            ino: ino as u64,
            size: raw.size,
            blocks: raw.blocks,
            gid: raw.gid,
            uid: raw.uid,
            atime: raw.atime,
            mtime: raw.mtime,
            ctime: raw.ctime,
            file_type: InodeFileType::from_bits_truncate(raw.kind),
            perm: InodePerm::from_bits_truncate(raw.perm),
        }
    }

    /// The mode word that stores type and permissions together.
    pub fn mode(&self) -> (r: u32)
        ensures
            r == (self.file_type.bits | self.perm.bits) as u32,
    {
        make_mode(self.file_type, self.perm)
    }
}

/// The mode word of a file of type `file_type` with permissions `perm`.
pub fn make_mode(file_type: InodeFileType, perm: InodePerm) -> (r: u32)
    ensures
        r == (file_type.bits | perm.bits) as u32,
{
    (file_type.bits() | perm.bits()) as u32
}

/// Splitting a mode word with the type mask and the permission mask gives
/// back the type and the permissions it was made of.
pub proof fn lemma_mode_split(t: InodeFileType, p: InodePerm)
    requires
        InodeFileType::known_bits(t.bits),
        InodePerm::known_bits(p.bits),
    ensures
        ((t.bits | p.bits) as u32) as u16 & 0xF000u16 == t.bits,
        ((t.bits | p.bits) as u32) as u16 & 0x0FFFu16 == p.bits,
{
    let tb = t.bits;
    let pb = p.bits;
    assert(((tb | pb) as u32) as u16 & 0xF000u16 == tb && ((tb | pb) as u32) as u16 & 0x0FFFu16
        == pb) by (bit_vector)
        requires
            tb & !0xF000u16 == 0,
            pb & !0x0DC0u16 == 0,
    ;
}

} // verus!
