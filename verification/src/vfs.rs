//! The inode interface that every file system offers, and directory entries.

use std::sync::Arc;

use vstd::prelude::*;

use crate::defs::{FileAttr, InodeFileType, InodePerm, S_IFREG};

verus! {

/// How many bytes a read of `cap` bytes at `offset` delivers from a file of
/// `size` bytes: nothing at or past the end, else as many as fit.
pub open spec fn read_len(size: nat, offset: int, cap: nat) -> nat {
    if offset < size {
        if cap <= size - offset {
            cap
        } else {
            (size - offset) as nat
        }
    } else {
        0
    }
}

/// The buffer `buf` after a read at `offset` from a file holding `content`:
/// the bytes read come first, the rest of the buffer is left as it was.
pub open spec fn read_into(content: Seq<u8>, offset: int, buf: Seq<u8>) -> Seq<u8> {
    let n = read_len(content.len(), offset, buf.len());
    if n == 0 {
        buf
    } else {
        content.subrange(offset, offset + n) + buf.subrange(n as int, buf.len() as int)
    }
}

/// The file holding `content` after `data` was written at byte `offset`:
/// the written range replaces what was there, a gap before it reads as
/// zeros, and the file grows to the end of the written range if needed.
/// Writing nothing changes nothing.
pub open spec fn write_into(content: Seq<u8>, offset: int, data: Seq<u8>) -> Seq<u8> {
    let end = offset + data.len();
    let len = if end <= content.len() {
        content.len() as int
    } else {
        end
    };
    if data.len() == 0 {
        content
    } else {
        Seq::new(
            len as nat,
            |i: int|
                if offset <= i < end {
                    data[i - offset]
                } else if i < content.len() {
                    content[i]
                } else {
                    0u8
                },
        )
    }
}

/// Reading the range just written, into a buffer of its length, gives back
/// the bytes written.
pub proof fn lemma_read_after_write(content: Seq<u8>, offset: int, data: Seq<u8>, buf: Seq<u8>)
    requires
        0 <= offset,
        buf.len() == data.len(),
    ensures
        read_len(write_into(content, offset, data).len(), offset, buf.len()) == data.len(),
        read_into(write_into(content, offset, data), offset, buf) =~= data,
{
}

/// Writing leaves every byte outside the written range as it was.
pub proof fn lemma_write_keeps_others(content: Seq<u8>, offset: int, data: Seq<u8>, i: int)
    requires
        0 <= offset,
        0 <= i < content.len(),
        i < offset || offset + data.len() <= i,
    ensures
        write_into(content, offset, data)[i] == content[i],
{
}

/// The file holding `content` cut, or extended with zeros, to `size` bytes.
pub open spec fn resized(content: Seq<u8>, size: nat) -> Seq<u8> {
    Seq::new(size, |i: int| if i < content.len() { content[i] } else { 0u8 })
}

/// A file cut or extended to `size` bytes has `size` bytes: those it had
/// below that size stay, and those it gained are zeros.
pub proof fn lemma_resized(content: Seq<u8>, size: nat, i: int)
    requires
        0 <= i < size,
    ensures
        resized(content, size).len() == size,
        i < content.len() ==> resized(content, size)[i] == content[i],
        i >= content.len() ==> resized(content, size)[i] == 0u8,
{
}

/// What an inode records about its file besides the bytes and the entries.
#[derive(Clone, Copy, Debug, PartialEq, Eq, Structural)]
pub struct InodeMeta {
    pub ino: u64,
    pub file_type: InodeFileType,
    pub perm: InodePerm,
    pub uid: u32,
    pub gid: u32,
    pub atime: u32,
    pub mtime: u32,
    pub ctime: u32,
}

/// The record `meta` after taking over the settable attributes of `attr`;
/// the inode number stays.
pub open spec fn meta_after_set(meta: InodeMeta, attr: FileAttr) -> InodeMeta {
    InodeMeta {
        ino: meta.ino,
        file_type: attr.file_type,
        perm: attr.perm,
        uid: attr.uid,
        gid: attr.gid,
        atime: attr.atime,
        mtime: attr.mtime,
        ctime: attr.ctime,
    }
}

/// Setting attributes takes each settable field from the attributes given,
/// the field of the same name, and keeps only the inode number.
pub proof fn lemma_meta_after_set_fields(meta: InodeMeta, attr: FileAttr)
    ensures
        meta_after_set(meta, attr).ino == meta.ino,
        meta_after_set(meta, attr).file_type == attr.file_type,
        meta_after_set(meta, attr).perm == attr.perm,
        meta_after_set(meta, attr).uid == attr.uid,
        meta_after_set(meta, attr).gid == attr.gid,
        meta_after_set(meta, attr).atime == attr.atime,
        meta_after_set(meta, attr).mtime == attr.mtime,
        meta_after_set(meta, attr).ctime == attr.ctime,
{
}

/// An inode of some file system.
///
/// `content` is the file's data, `meta` the rest of what the inode records,
/// and for a directory `entries` and `entry_meta` give each file below it,
/// by path, its bytes and its record.  The directory is where a file's
/// bytes live: every open file of a path reads and writes them there.
/// Operations that may change an inode take it by `&mut`.
pub trait Inode: Sized {
    /// The bytes of the file.
    spec fn content(&self) -> Seq<u8>;

    /// Number, type, permissions, owner and times.
    spec fn meta(&self) -> InodeMeta;

    /// The files below this directory, by path, with their bytes.
    spec fn entries(&self) -> Map<Seq<char>, Seq<u8>>;

    /// The files below this directory, by path, with their records.
    spec fn entry_meta(&self) -> Map<Seq<char>, InodeMeta>;

    /// No file is longer than the address space.
    proof fn content_fits(&self)
        ensures
            self.content().len() <= usize::MAX,
    ;

    /// Each file below the directory has both bytes and a record.
    proof fn entries_agree(&self)
        ensures
            self.entries().dom() == self.entry_meta().dom(),
    ;

    /// The inode number.
    fn ino(&self) -> (r: u64)
        ensures
            r == self.meta().ino,
    ;

    /// The file type (regular file, directory, link, ...).
    fn file_type(&self) -> (r: InodeFileType)
        ensures
            r == self.meta().file_type,
    ;

    /// The permission bits.
    fn permissions(&self) -> (r: InodePerm)
        ensures
            r == self.meta().perm,
    ;

    /// The file's attributes: its record, and its size in bytes.
    fn get_attr(&self) -> (r: Option<FileAttr>)
        ensures
            r matches Some(a) && {
                &&& a.ino == self.meta().ino
                &&& a.size == self.content().len()
                &&& a.file_type == self.meta().file_type
                &&& a.perm == self.meta().perm
                &&& a.uid == self.meta().uid
                &&& a.gid == self.meta().gid
                &&& a.atime == self.meta().atime
                &&& a.mtime == self.meta().mtime
                &&& a.ctime == self.meta().ctime
            },
    ;

    /// Takes over type, permissions, owner and times from `attr`, and cuts
    /// or extends the file to `attr.size` bytes.
    fn set_attr(&mut self, attr: &FileAttr)
        ensures
            final(self).meta() == meta_after_set(old(self).meta(), *attr),
            final(self).meta().ino == old(self).meta().ino,
            final(self).meta().file_type == attr.file_type,
            final(self).meta().perm == attr.perm,
            final(self).meta().uid == attr.uid,
            final(self).meta().gid == attr.gid,
            final(self).meta().atime == attr.atime,
            final(self).meta().mtime == attr.mtime,
            final(self).meta().ctime == attr.ctime,
            attr.size <= usize::MAX ==> final(self).content() == resized(
                old(self).content(),
                attr.size as nat,
            ),
            final(self).entries() == old(self).entries(),
            final(self).entry_meta() == old(self).entry_meta(),
    ;

    /// Reads from byte `offset` into `buf` and returns how many bytes were
    /// read: none at or past the end of the file, else as many as fit.
    fn read_at(&self, offset: usize, buf: &mut [u8]) -> (n: usize)
        ensures
            n == read_len(self.content().len(), offset as int, old(buf)@.len()),
            final(buf)@ == read_into(self.content(), offset as int, old(buf)@),
    ;

    /// Writes all of `buf` at byte `offset` and returns its length.  The
    /// written range must end within the address space.
    fn write_at(&mut self, offset: usize, buf: &[u8]) -> (n: usize)
        requires
            offset + buf@.len() <= usize::MAX,
        ensures
            n == buf@.len(),
            final(self).content() == write_into(old(self).content(), offset as int, buf@),
            final(self).meta() == old(self).meta(),
            final(self).entries() == old(self).entries(),
            final(self).entry_meta() == old(self).entry_meta(),
    ;

    /// Drops the file's data.
    fn clear(&mut self)
        ensures
            final(self).content() == Seq::<u8>::empty(),
            final(self).meta() == old(self).meta(),
            final(self).entries() == old(self).entries(),
            final(self).entry_meta() == old(self).entry_meta(),
    ;

    /// Looks up the entry `name` of this directory: an entry of that name
    /// whose inode holds that file's bytes and record, if there is one.
    fn lookup(&self, name: &str) -> (r: Option<Arc<Dentry<Self>>>)
        ensures
            r is Some <==> self.entries().contains_key(name@),
            r matches Some(d) ==> {
                &&& d.spec_name() == name@
                &&& d.spec_inode().content() == self.entries()[name@]
                &&& d.spec_inode().meta() == self.entry_meta()[name@]
            },
    ;

    /// Opens the file at `path` below this directory, creating an empty
    /// regular file there if `create` is set and there is none.  A file that
    /// is there always opens, and with `create` any path does; without
    /// `create` a missing one never does.  The inode handed out holds the
    /// file's bytes and record as they are now.
    fn open(&mut self, path: &str, create: bool) -> (r: Option<Self>)
        ensures
            old(self).entries().contains_key(path@) ==> r is Some && final(self).entries() == old(self).entries() && final(self).entry_meta() == old(self).entry_meta(),
            !old(self).entries().contains_key(path@) && !create ==> r is None,
            create ==> r is Some,
            !old(self).entries().contains_key(path@) && r is None ==> final(self).entries() == old(self).entries() && final(self).entry_meta() == old(self).entry_meta(),
            !old(self).entries().contains_key(path@) && r is Some ==> {
                &&& final(self).entries() == old(self).entries().insert(path@, Seq::<u8>::empty())
                &&& final(self).entry_meta() == old(self).entry_meta().insert(
                    path@,
                    final(self).entry_meta()[path@],
                )
                &&& final(self).entry_meta()[path@].file_type == (InodeFileType { bits: S_IFREG })
            },
            r matches Some(f) ==> f.content() == final(self).entries()[path@] && f.meta() == final(self).entry_meta()[path@],
            final(self).content() == old(self).content(),
            final(self).meta() == old(self).meta(),
    ;

    /// Stores the bytes of `file` as those of the entry `path`, where there
    /// is one.
    fn release(&mut self, path: &str, file: Self)
        ensures
            old(self).entries().contains_key(path@) ==> final(self).entries() == old(self).entries().insert(path@, file.content()),
            !old(self).entries().contains_key(path@) ==> final(self).entries() == old(self).entries(),
            final(self).entry_meta() == old(self).entry_meta(),
            final(self).content() == old(self).content(),
            final(self).meta() == old(self).meta(),
    ;

    /// Creates the entry `name` in this directory, an empty file of type
    /// `file_type` with permissions `perm`, and returns it; where there is
    /// one already, returns that one and changes nothing.
    fn create(&mut self, name: &str, file_type: InodeFileType, perm: InodePerm) -> (r: Option<
        Arc<Dentry<Self>>,
    >)
        ensures
            old(self).entries().contains_key(name@) ==> final(self).entries() == old(self).entries() && final(self).entry_meta() == old(self).entry_meta(),
            !old(self).entries().contains_key(name@) ==> {
                &&& final(self).entries() == old(self).entries().insert(name@, Seq::<u8>::empty())
                &&& final(self).entry_meta() == old(self).entry_meta().insert(
                    name@,
                    final(self).entry_meta()[name@],
                )
                &&& final(self).entry_meta()[name@].file_type == file_type
                &&& final(self).entry_meta()[name@].perm == perm
            },
            r matches Some(d) && {
                &&& d.spec_name() == name@
                &&& d.spec_inode().content() == final(self).entries()[name@]
                &&& d.spec_inode().meta() == final(self).entry_meta()[name@]
            },
            final(self).content() == old(self).content(),
            final(self).meta() == old(self).meta(),
    ;

    /// Removes the entry `name` of this directory; whether there was one.
    fn unlink(&mut self, name: &str) -> (r: bool)
        ensures
            r == old(self).entries().contains_key(name@),
            final(self).entries() == old(self).entries().remove(name@),
            final(self).entry_meta() == old(self).entry_meta().remove(name@),
            final(self).content() == old(self).content(),
            final(self).meta() == old(self).meta(),
    ;

    /// Creates a symbolic link `link_name` to `target`.  Without support for
    /// it: `false`.
    fn symlink(&mut self, target: &str, link_name: &str) -> (r: bool)
        default_ensures
            r == false,
            *final(self) == *old(self),
    {
        false
    }

    /// Creates a hard link `link_name` to `target`.  Without support for
    /// it: -1.
    fn hardlink(&mut self, target: &Self, link_name: &str) -> (r: isize)
        default_ensures
            r == -1,
            *final(self) == *old(self),
    {
        -1
    }

    /// Moves the entry `old_name` to `new_name` in `new_parent`.  Without
    /// support for it: -1.
    fn rename(&mut self, old_name: &str, new_parent: &mut Self, new_name: &str) -> (r: isize)
        default_ensures
            r == -1,
            *final(self) == *old(self),
            *final(new_parent) == *old(new_parent),
    {
        -1
    }

    /// Cuts the file, or extends it with zeros, to `size` bytes; returns 0.
    fn truncate(&mut self, size: usize) -> (r: isize)
        ensures
            r == 0,
            final(self).content() == resized(old(self).content(), size as nat),
            final(self).meta() == old(self).meta(),
            final(self).entries() == old(self).entries(),
            final(self).entry_meta() == old(self).entry_meta(),
    ;

    /// The names of the entries of this directory: each name listed has an
    /// entry, and each entry is listed.
    fn ls(&self) -> (r: Vec<String>)
        ensures
            forall|i: int| 0 <= i < r@.len() ==> self.entries().contains_key(#[trigger] r@[i]@),
            forall|k: Seq<char>|
                #[trigger] self.entries().contains_key(k) ==> exists|i: int|
                    0 <= i < r@.len() && r@[i]@ == k,
    ;
}

/// A directory entry: a name bound to an inode.
pub struct Dentry<I> {
    name: String,
    inode: Arc<I>,
}

impl<I> Dentry<I> {
    /// The entry's name.
    pub closed spec fn spec_name(&self) -> Seq<char> {
        self.name@
    }

    /// The inode the entry names.
    pub closed spec fn spec_inode(&self) -> Arc<I> {
        self.inode
    }

    pub fn new(name: &str, inode: Arc<I>) -> (r: Self)
        ensures
            r.spec_name() == name@,
            r.spec_inode() == inode,
    {
        Dentry { name: name.to_owned(), inode }
    }

    pub fn name(&self) -> (r: &str)
        ensures
            r@ == self.spec_name(),
    {
        self.name.as_str()
    }

    /// The inode the entry names.
    pub fn inode(&self) -> (r: Arc<I>)
        ensures
            r == self.spec_inode(),
    {
        Arc::clone(&self.inode)
    }
}

/// Whether an inode's cached state differs from what is stored.
#[derive(Clone, Copy, Debug, PartialEq, Eq, Structural)]
pub enum InodeStat {
    Dirty,
    Synced,
}

} // verus!
