//! Inodes held in memory: a file's bytes, and for a directory a flat list of
//! named files.

use std::sync::Arc;

use vstd::prelude::*;

use crate::defs::{FileAttr, InodeFileType, InodePerm, S_IFDIR, S_IFREG, S_IREAD, S_IWRITE};
use crate::vfs::{
    meta_after_set, read_into, read_len, resized, write_into, Dentry, Inode, InodeMeta,
};

verus! {

/// A named file of an in-memory directory: its record and its bytes.
pub struct MemEntry {
    pub name: String,
    pub meta: InodeMeta,
    pub data: Vec<u8>,
}

/// The first entry of `entries` named `name`.
pub open spec fn entry_find(entries: Seq<MemEntry>, name: Seq<char>) -> Option<MemEntry>
    decreases entries.len(),
{
    if entries.len() == 0 {
        None
    } else if entries[0].name@ == name {
        Some(entries[0])
    } else {
        entry_find(entries.drop_first(), name)
    }
}

/// The bytes of the files of a list of entries by name; of entries with the
/// same name the first counts.
pub open spec fn entry_map(entries: Seq<MemEntry>) -> Map<Seq<char>, Seq<u8>> {
    Map::new(|n: Seq<char>| entry_find(entries, n) is Some, |n: Seq<char>| entry_find(entries, n)->0.data@)
}

/// The records of the files of a list of entries by name; of entries with
/// the same name the first counts.
pub open spec fn entry_meta_map(entries: Seq<MemEntry>) -> Map<Seq<char>, InodeMeta> {
    Map::new(|n: Seq<char>| entry_find(entries, n) is Some, |n: Seq<char>| entry_find(entries, n)->0.meta)
}

/// A name has a file exactly where some entry carries it.
proof fn lemma_entry_find_some(entries: Seq<MemEntry>, name: Seq<char>)
    ensures
        entry_find(entries, name) is Some <==> exists|i: int|
            0 <= i < entries.len() && #[trigger] entries[i].name@ == name,
    decreases entries.len(),
{
    if entries.len() > 0 {
        let rest = entries.drop_first();
        lemma_entry_find_some(rest, name);
        if entry_find(rest, name) is Some {
            let i = choose|i: int| 0 <= i < rest.len() && #[trigger] rest[i].name@ == name;
            assert(entries[i + 1].name@ == name);
        }
        if exists|i: int| 0 <= i < entries.len() && #[trigger] entries[i].name@ == name {
            let i = choose|i: int| 0 <= i < entries.len() && #[trigger] entries[i].name@ == name;
            if i > 0 {
                assert(rest[i - 1].name@ == name);
            }
        }
    }
}

/// The first entry carrying a name is the one found for it.
proof fn lemma_entry_find_first(entries: Seq<MemEntry>, name: Seq<char>, i: int)
    requires
        0 <= i < entries.len(),
        entries[i].name@ == name,
        forall|j: int| 0 <= j < i ==> #[trigger] entries[j].name@ != name,
    ensures
        entry_find(entries, name) == Some(entries[i]),
    decreases i,
{
    if i > 0 {
        let rest = entries.drop_first();
        assert forall|j: int| 0 <= j < i - 1 implies #[trigger] rest[j].name@ != name by {
            assert(rest[j] == entries[j + 1]);
        }
        assert(entries[0].name@ != name);
        lemma_entry_find_first(rest, name, i - 1);
    }
}

/// Appending an entry adds it where its name had none.
proof fn lemma_entry_find_push(entries: Seq<MemEntry>, e: MemEntry, name: Seq<char>)
    ensures
        entry_find(entries.push(e), name) == (match entry_find(entries, name) {
            Some(d) => Some(d),
            None => if e.name@ == name {
                Some(e)
            } else {
                None
            },
        }),
    decreases entries.len(),
{
    if entries.len() > 0 {
        assert(entries.push(e)[0] == entries[0]);
        assert(entries.push(e).drop_first() =~= entries.drop_first().push(e));
        lemma_entry_find_push(entries.drop_first(), e, name);
    } else {
        assert(entries.push(e)[0] == e);
        assert(entries.push(e).drop_first() =~= Seq::<MemEntry>::empty());
        assert(entry_find(Seq::<MemEntry>::empty(), name) is None);
    }
}

/// Replacing an entry by one of the same name changes only what is found
/// for that name, and only if the entry was the first to carry it.
proof fn lemma_entry_find_update(entries: Seq<MemEntry>, i: int, e: MemEntry, name: Seq<char>)
    requires
        0 <= i < entries.len(),
        e.name@ == entries[i].name@,
    ensures
        entry_find(entries.update(i, e), name) == (if entries[i].name@ == name && (forall|j: int|
            0 <= j < i ==> #[trigger] entries[j].name@ != name) {
            Some(e)
        } else {
            entry_find(entries, name)
        }),
    decreases i,
{
    if i > 0 {
        let rest = entries.drop_first();
        assert(entries.update(i, e).drop_first() =~= rest.update(i - 1, e));
        lemma_entry_find_update(rest, i - 1, e, name);
        if entries[0].name@ != name {
            assert((forall|j: int| 0 <= j < i ==> #[trigger] entries[j].name@ != name) <==> (forall|
                j: int,
            | 0 <= j < i - 1 ==> #[trigger] rest[j].name@ != name)) by {
                if forall|j: int| 0 <= j < i - 1 ==> #[trigger] rest[j].name@ != name {
                    assert forall|j: int| 0 <= j < i implies #[trigger] entries[j].name@ != name by {
                        if j > 0 {
                            assert(entries[j] == rest[j - 1]);
                        }
                    }
                }
                if forall|j: int| 0 <= j < i ==> #[trigger] entries[j].name@ != name {
                    assert forall|j: int| 0 <= j < i - 1 implies #[trigger] rest[j].name@ != name by {
                        assert(rest[j] == entries[j + 1]);
                    }
                }
            }
        }
    } else {
        assert(entries.update(0, e).drop_first() =~= entries.drop_first());
    }
}

/// The files found for each name stay as they were when an entry is
/// appended under a name that had none, and that name gets the new entry.
proof fn lemma_maps_push(entries: Seq<MemEntry>, e: MemEntry)
    requires
        entry_find(entries, e.name@) is None,
    ensures
        entry_map(entries.push(e)) == entry_map(entries).insert(e.name@, e.data@),
        entry_meta_map(entries.push(e)) == entry_meta_map(entries).insert(e.name@, e.meta),
        entry_find(entries.push(e), e.name@) == Some(e),
{
    lemma_entry_find_push(entries, e, e.name@);
    assert forall|n: Seq<char>| true implies #[trigger] entry_find(entries.push(e), n) == (
    if n == e.name@ {
        Some(e)
    } else {
        entry_find(entries, n)
    }) by {
        lemma_entry_find_push(entries, e, n);
    }
    assert(entry_map(entries.push(e)) =~= entry_map(entries).insert(e.name@, e.data@));
    assert(entry_meta_map(entries.push(e)) =~= entry_meta_map(entries).insert(e.name@, e.meta));
}

/// Replacing the first entry of a name by another of that name gives the
/// name the new entry's bytes and record and leaves the other names alone.
proof fn lemma_maps_update(entries: Seq<MemEntry>, i: int, e: MemEntry)
    requires
        0 <= i < entries.len(),
        e.name@ == entries[i].name@,
        forall|j: int| 0 <= j < i ==> #[trigger] entries[j].name@ != e.name@,
    ensures
        entry_map(entries.update(i, e)) == entry_map(entries).insert(e.name@, e.data@),
        entry_meta_map(entries.update(i, e)) == entry_meta_map(entries).insert(e.name@, e.meta),
{
    lemma_entry_find_first(entries, e.name@, i);
    assert forall|n: Seq<char>| true implies #[trigger] entry_find(entries.update(i, e), n) == (
    if n == e.name@ {
        Some(e)
    } else {
        entry_find(entries, n)
    }) by {
        lemma_entry_find_update(entries, i, e, n);
    }
    assert(entry_map(entries.update(i, e)) =~= entry_map(entries).insert(e.name@, e.data@));
    assert(entry_meta_map(entries.update(i, e)) =~= entry_meta_map(entries).insert(
        e.name@,
        e.meta,
    ));
}

/// An inode held in memory.  A directory keeps its files as a list of
/// entries, each with its own record and bytes; new files are numbered from
/// `next_ino` on.  Opening or looking up an entry gives an inode with the
/// entry's record and a copy of its bytes; releasing an opened file stores
/// its bytes in the entry.
pub struct MemInode {
    pub meta: InodeMeta,
    pub data: Vec<u8>,
    pub entries: Vec<MemEntry>,
    pub next_ino: u64,
}

/// A copy of `bytes`.
fn copy_bytes(bytes: &Vec<u8>) -> (r: Vec<u8>)
    ensures
        r@ == bytes@,
{
    let mut r: Vec<u8> = Vec::new();
    let mut i: usize = 0;
    while i < bytes.len()
        invariant
            i <= bytes@.len(),
            r@ == bytes@.subrange(0, i as int),
        decreases bytes@.len() - i,
    {
        r.push(bytes[i]);
        i = i + 1;
        assert(r@ =~= bytes@.subrange(0, i as int));
    }
    assert(bytes@.subrange(0, bytes@.len() as int) =~= bytes@);
    r
}

/// The record of a new inode numbered `ino` of type `kind`, owned by root,
/// with all times 0.
pub open spec fn fresh_meta(ino: u64, kind: u16, perm: InodePerm) -> InodeMeta {
    InodeMeta {
        ino,
        file_type: InodeFileType { bits: kind },
        perm,
        uid: 0,
        gid: 0,
        atime: 0,
        mtime: 0,
        ctime: 0,
    }
}

/// The number after `ino`, where there is one.
pub open spec fn ino_after(ino: u64) -> u64 {
    if ino < u64::MAX {
        (ino + 1) as u64
    } else {
        ino
    }
}

/// The number after an inode number is the next integer, where there is
/// one: it is greater than the number it follows.
pub proof fn lemma_ino_after_grows(ino: u64)
    requires
        ino < u64::MAX,
    ensures
        ino_after(ino) == ino + 1,
        ino_after(ino) > ino,
{
}

/// The number after an inode number is never smaller than it.
pub proof fn lemma_ino_after_never_shrinks(ino: u64)
    ensures
        ino_after(ino) >= ino,
        ino_after(ino) != 0,
{
}

/// The number after `ino`, where there is one.
fn next_number(ino: u64) -> (r: u64)
    ensures
        r == ino_after(ino),
{
    if ino < u64::MAX {
        ino + 1
    } else {
        ino
    }
}

/// The permissions of a file created by an open: the owner may read and
/// write.
pub open spec fn open_perm() -> InodePerm {
    InodePerm { bits: S_IREAD | S_IWRITE }
}

impl MemInode {
    /// The number that the next file made here gets is above that of this
    /// inode and of every entry, unless the numbers have run out.
    pub open spec fn numbers_fresh(&self) -> bool {
        self.next_ino == u64::MAX || (self.meta.ino < self.next_ino && forall|i: int|
            0 <= i < self.entries@.len() ==> #[trigger] self.entries@[i].meta.ino < self.next_ino)
    }

    /// Where the numbers are fresh and have not run out, the number the next
    /// file gets is that of no entry and not that of this inode.
    pub proof fn lemma_next_number_unused(&self)
        requires
            self.numbers_fresh(),
            self.next_ino < u64::MAX,
        ensures
            self.meta.ino != self.next_ino,
            forall|i: int|
                0 <= i < self.entries@.len() ==> #[trigger] self.entries@[i].meta.ino
                    != self.next_ino,
    {
    }

    /// A regular file with inode number `ino` holding `data`.
    pub fn new_file(ino: u64, perm: InodePerm, data: Vec<u8>) -> (r: Self)
        ensures
            r.meta == fresh_meta(ino, S_IFREG, perm),
            r.data@ == data@,
            r.entries@.len() == 0,
            r.next_ino == ino_after(ino),
            r.numbers_fresh(),
    {
        MemInode {
            meta: InodeMeta {
                ino,
                file_type: InodeFileType { bits: S_IFREG },
                perm,
                uid: 0,
                gid: 0,
                atime: 0,
                mtime: 0,
                ctime: 0,
            },
            data,
            entries: Vec::new(),
            next_ino: next_number(ino),
        }
    }

    /// An empty directory with inode number `ino`; its files are numbered
    /// from the next number on.
    pub fn new_dir(ino: u64, perm: InodePerm) -> (r: Self)
        ensures
            r.meta == fresh_meta(ino, S_IFDIR, perm),
            r.data@.len() == 0,
            r.entries@.len() == 0,
            r.next_ino == ino_after(ino),
            r.numbers_fresh(),
    {
        MemInode {
            meta: InodeMeta {
                ino,
                file_type: InodeFileType { bits: S_IFDIR },
                perm,
                uid: 0,
                gid: 0,
                atime: 0,
                mtime: 0,
                ctime: 0,
            },
            data: Vec::new(),
            entries: Vec::new(),
            next_ino: next_number(ino),
        }
    }

    /// An inode with the record of `e` and a copy of its bytes.
    fn from_entry(e: &MemEntry) -> (r: Self)
        ensures
            r.meta == e.meta,
            r.data@ == e.data@,
            r.entries@.len() == 0,
    {
        MemInode {
            meta: e.meta,
            data: copy_bytes(&e.data),
            entries: Vec::new(),
            next_ino: next_number(e.meta.ino),
        }
    }

    /// Where the first entry named `name` stands, if there is one.
    fn find(&self, name: &str) -> (r: Option<usize>)
        ensures
            r is None ==> entry_find(self.entries@, name@) is None,
            r matches Some(i) ==> i < self.entries@.len() && self.entries@[i as int].name@ == name@
                && (forall|j: int| 0 <= j < i ==> #[trigger] self.entries@[j].name@ != name@)
                && entry_find(self.entries@, name@) == Some(self.entries@[i as int]),
    {
        let n = self.entries.len();
        let key = name.to_owned();
        let mut i: usize = 0;
        while i < n
            invariant
                n == self.entries@.len(),
                key@ == name@,
                i <= n,
                forall|j: int| 0 <= j < i ==> #[trigger] self.entries@[j].name@ != name@,
            decreases n - i,
        {
            if self.entries[i].name == key {
                proof {
                    lemma_entry_find_first(self.entries@, name@, i as int);
                }
                return Some(i);
            }
            i = i + 1;
        }
        proof {
            lemma_entry_find_some(self.entries@, name@);
        }
        None
    }

    /// Appends an empty file `name` of type `kind` with permissions `perm`,
    /// numbered `next_ino`, where no entry carries that name; returns where
    /// it stands.
    fn add_entry(&mut self, name: &str, kind: InodeFileType, perm: InodePerm) -> (i: usize)
        requires
            entry_find(old(self).entries@, name@) is None,
        ensures
            i == old(self).entries@.len(),
            i < final(self).entries@.len(),
            entry_find(final(self).entries@, name@) == Some(final(self).entries@[i as int]),
            final(self).entries@[i as int].meta == fresh_meta(old(self).next_ino, kind.bits, perm),
            final(self).entries@[i as int].data@ == Seq::<u8>::empty(),
            entry_map(final(self).entries@) == entry_map(old(self).entries@).insert(
                name@,
                Seq::<u8>::empty(),
            ),
            entry_meta_map(final(self).entries@) == entry_meta_map(old(self).entries@).insert(
                name@,
                fresh_meta(old(self).next_ino, kind.bits, perm),
            ),
            final(self).next_ino == ino_after(old(self).next_ino),
            final(self).entries@.len() == old(self).entries@.len() + 1,
            forall|j: int|
                0 <= j < old(self).entries@.len() ==> #[trigger] final(self).entries@[j] == old(
                    self,
                ).entries@[j],
            old(self).numbers_fresh() ==> final(self).numbers_fresh(),
            final(self).meta == old(self).meta,
            final(self).data == old(self).data,
    {
        let ghost before = self.entries@;
        let e = MemEntry {
            name: name.to_owned(),
            meta: InodeMeta {
                ino: self.next_ino,
                file_type: kind,
                perm,
                uid: 0,
                gid: 0,
                atime: 0,
                mtime: 0,
                ctime: 0,
            },
            data: Vec::new(),
        };
        let i = self.entries.len();
        self.entries.push(e);
        proof {
            lemma_maps_push(before, e);
        }
        self.next_ino = next_number(self.next_ino);
        proof {
            assert forall|j: int| 0 <= j < before.len() implies #[trigger] self.entries@[j]
                == before[j] by {}
        }
        i
    }

    /// Cuts the bytes, or extends them with zeros, to `size`.
    fn resize_to(&mut self, size: usize)
        ensures
            final(self).data@ == resized(old(self).data@, size as nat),
            final(self).meta == old(self).meta,
            final(self).entries == old(self).entries,
            final(self).next_ino == old(self).next_ino,
    {
        let ghost old_data = self.data@;
        if size <= self.data.len() {
            self.data.truncate(size);
        } else {
            while self.data.len() < size
                invariant
                    old_data.len() <= self.data@.len() <= size,
                    forall|j: int|
                        0 <= j < old_data.len() ==> #[trigger] self.data@[j] == old_data[j],
                    forall|j: int|
                        old_data.len() <= j < self.data@.len() ==> #[trigger] self.data@[j] == 0u8,
                    self.meta == old(self).meta,
                    self.entries == old(self).entries,
                    self.next_ino == old(self).next_ino,
                decreases size - self.data@.len(),
            {
                self.data.push(0u8);
            }
        }
        assert(self.data@ =~= resized(old_data, size as nat));
    }
}

impl Inode for MemInode {
    open spec fn content(&self) -> Seq<u8> {
        self.data@
    }

    open spec fn meta(&self) -> InodeMeta {
        self.meta
    }

    open spec fn entries(&self) -> Map<Seq<char>, Seq<u8>> {
        entry_map(self.entries@)
    }

    open spec fn entry_meta(&self) -> Map<Seq<char>, InodeMeta> {
        entry_meta_map(self.entries@)
    }

    proof fn content_fits(&self) {
        assert(self.data.len() == self.data@.len());
    }

    proof fn entries_agree(&self) {
        assert(entry_map(self.entries@).dom() =~= entry_meta_map(self.entries@).dom());
    }

    fn ino(&self) -> u64 {
        self.meta.ino
    }

    fn file_type(&self) -> InodeFileType {
        self.meta.file_type
    }

    fn permissions(&self) -> InodePerm {
        self.meta.perm
    }

    /// The attributes, with the size in bytes and the number of 512-byte
    /// sectors the bytes take.
    fn get_attr(&self) -> (r: Option<FileAttr>)
        ensures
            r matches Some(a) && a.blocks * 512 >= a.size && a.blocks * 512 < a.size + 512,
            r == Some(
                FileAttr {
                    ino: self.meta.ino,
                    size: self.data@.len() as u64,
                    blocks: ((self.data@.len() + 511) / 512) as u64,
                    atime: self.meta.atime,
                    mtime: self.meta.mtime,
                    ctime: self.meta.ctime,
                    uid: self.meta.uid,
                    gid: self.meta.gid,
                    file_type: self.meta.file_type,
                    perm: self.meta.perm,
                },
            ),
    {
        let size = self.data.len();
        let blocks = size / 512 + if size % 512 == 0 {
            0
        } else {
            1
        };
        Some(
            FileAttr {
                ino: self.meta.ino,
                size: size as u64,
                blocks: blocks as u64,
                atime: self.meta.atime,
                mtime: self.meta.mtime,
                ctime: self.meta.ctime,
                uid: self.meta.uid,
                gid: self.meta.gid,
                file_type: self.meta.file_type,
                perm: self.meta.perm,
            },
        )
    }

    /// A size beyond the address space leaves the bytes as they are.
    fn set_attr(&mut self, attr: &FileAttr)
        ensures
            attr.size > usize::MAX ==> final(self).data@ == old(self).data@,
            final(self).next_ino == old(self).next_ino,
            final(self).entries == old(self).entries,
    {
        self.meta = InodeMeta {
            ino: self.meta.ino,
            file_type: attr.file_type,
            perm: attr.perm,
            uid: attr.uid,
            gid: attr.gid,
            atime: attr.atime,
            mtime: attr.mtime,
            ctime: attr.ctime,
        };
        if attr.size <= usize::MAX as u64 {
            self.resize_to(attr.size as usize);
        }
    }

    fn read_at(&self, offset: usize, buf: &mut [u8]) -> (n: usize) {
        let size = self.data.len();
        let cap = buf.len();
        let n = if offset >= size {
            0
        } else if cap <= size - offset {
            cap
        } else {
            size - offset
        };
        let ghost old_buf = buf@;
        let mut i: usize = 0;
        while i < n
            invariant
                n <= cap,
                cap == old_buf.len(),
                n > 0 ==> offset + n <= size,
                size == self.data@.len(),
                i <= n,
                buf@.len() == cap,
                forall|j: int| 0 <= j < i ==> #[trigger] buf@[j] == self.data@[offset + j],
                forall|j: int| i <= j < cap ==> #[trigger] buf@[j] == old_buf[j],
            decreases n - i,
        {
            buf[i] = self.data[offset + i];
            i = i + 1;
        }
        proof {
            if n > 0 {
                assert(buf@ =~= self.data@.subrange(offset as int, offset + n) + old_buf.subrange(
                    n as int,
                    cap as int,
                ));
            } else {
                assert(buf@ =~= old_buf);
            }
        }
        n
    }

    fn write_at(&mut self, offset: usize, buf: &[u8]) -> (n: usize)
        ensures
            final(self).next_ino == old(self).next_ino,
            final(self).entries == old(self).entries,
    {
        let len = buf.len();
        if len == 0 {
            return 0;
        }
        let end = offset + len;
        let ghost old_data = self.data@;
        while self.data.len() < end
            invariant
                end == offset + len,
                old_data.len() <= self.data@.len() <= end || self.data@.len() == old_data.len(),
                forall|j: int| 0 <= j < old_data.len() ==> #[trigger] self.data@[j] == old_data[j],
                forall|j: int|
                    old_data.len() <= j < self.data@.len() ==> #[trigger] self.data@[j] == 0u8,
                self.data@.len() >= old_data.len(),
                self.meta == old(self).meta,
                self.entries == old(self).entries,
                self.next_ino == old(self).next_ino,
            decreases end - self.data@.len(),
        {
            self.data.push(0u8);
        }
        let ghost grown = self.data@;
        let mut i: usize = 0;
        while i < len
            invariant
                end == offset + len,
                len == buf@.len(),
                i <= len,
                self.data@.len() == grown.len(),
                grown.len() >= end,
                forall|j: int| 0 <= j < i ==> #[trigger] self.data@[offset + j] == buf@[j],
                forall|j: int|
                    0 <= j < grown.len() && !(offset <= j < offset + i) ==> #[trigger] self.data@[j]
                        == grown[j],
                self.meta == old(self).meta,
                self.entries == old(self).entries,
                self.next_ino == old(self).next_ino,
            decreases len - i,
        {
            self.data.set(offset + i, buf[i]);
            i = i + 1;
        }
        proof {
            let w = write_into(old_data, offset as int, buf@);
            assert(w.len() == self.data@.len());
            assert forall|j: int| 0 <= j < w.len() implies #[trigger] self.data@[j] == w[j] by {
                if offset <= j < end {
                    assert(self.data@[offset + (j - offset)] == buf@[j - offset]);
                }
            }
            assert(self.data@ =~= w);
        }
        len
    }

    fn clear(&mut self)
        ensures
            final(self).next_ino == old(self).next_ino,
            final(self).entries == old(self).entries,
    {
        self.data = Vec::new();
    }

    fn lookup(&self, name: &str) -> Option<Arc<Dentry<Self>>> {
        match self.find(name) {
            Some(i) => {
                let inode = MemInode::from_entry(&self.entries[i]);
                Some(Arc::new(Dentry::new(name, Arc::new(inode))))
            },
            None => None,
        }
    }

    /// A file created here may be read and written by its owner, and is
    /// numbered `next_ino`.
    fn open(&mut self, path: &str, create: bool) -> (r: Option<Self>)
        ensures
            create && !old(self).entries().contains_key(path@) ==> final(self).entry_meta()[path@]
                == fresh_meta(old(self).next_ino, S_IFREG, open_perm()),
            create && !old(self).entries().contains_key(path@) ==> final(self).next_ino
                == ino_after(old(self).next_ino),
            !(create && !old(self).entries().contains_key(path@)) ==> final(self).next_ino == old(
                self,
            ).next_ino,
            old(self).numbers_fresh() ==> final(self).numbers_fresh(),
    {
        match self.find(path) {
            Some(i) => Some(MemInode::from_entry(&self.entries[i])),
            None => if create {
                let perm = InodePerm { bits: S_IREAD | S_IWRITE };
                let i = self.add_entry(path, InodeFileType { bits: S_IFREG }, perm);
                Some(MemInode::from_entry(&self.entries[i]))
            } else {
                None
            },
        }
    }

    fn release(&mut self, path: &str, file: Self)
        ensures
            final(self).next_ino == old(self).next_ino,
            final(self).entries@.len() == old(self).entries@.len(),
            forall|j: int|
                0 <= j < old(self).entries@.len() ==> #[trigger] final(self).entries@[j].meta == old(
                    self,
                ).entries@[j].meta,
            old(self).numbers_fresh() ==> final(self).numbers_fresh(),
    {
        match self.find(path) {
            Some(i) => {
                let ghost before = self.entries@;
                let e = MemEntry { name: path.to_owned(), meta: self.entries[i].meta, data: file.data };
                self.entries.set(i, e);
                proof {
                    lemma_maps_update(before, i as int, e);
                    assert(entry_meta_map(before).insert(path@, e.meta) =~= entry_meta_map(before));
                }
            },
            None => {},
        }
    }

    /// A file created here is numbered `next_ino`.
    fn create(&mut self, name: &str, file_type: InodeFileType, perm: InodePerm) -> (r: Option<
        Arc<Dentry<Self>>,
    >)
        ensures
            !old(self).entries().contains_key(name@) ==> final(self).entry_meta()[name@]
                == fresh_meta(old(self).next_ino, file_type.bits, perm),
            !old(self).entries().contains_key(name@) ==> final(self).next_ino == ino_after(
                old(self).next_ino,
            ),
            old(self).entries().contains_key(name@) ==> final(self).next_ino == old(self).next_ino,
            old(self).numbers_fresh() ==> final(self).numbers_fresh(),
    {
        let i = match self.find(name) {
            Some(i) => i,
            None => self.add_entry(name, file_type, perm),
        };
        let inode = MemInode::from_entry(&self.entries[i]);
        Some(Arc::new(Dentry::new(name, Arc::new(inode))))
    }

    fn unlink(&mut self, name: &str) -> (r: bool)
        ensures
            final(self).next_ino == old(self).next_ino,
            old(self).numbers_fresh() ==> final(self).numbers_fresh(),
    {
        let key = name.to_owned();
        let ghost before = self.entries@;
        let n = self.entries.len();
        let mut kept: Vec<MemEntry> = Vec::new();
        let mut found = false;
        let mut old_entries: Vec<MemEntry> = Vec::new();
        std::mem::swap(&mut old_entries, &mut self.entries);
        let mut i: usize = 0;
        while i < n
            invariant
                n == before.len(),
                old_entries@.len() == n - i,
                forall|j: int| 0 <= j < n - i ==> #[trigger] old_entries@[j] == before[
                    j + i as int],
                key@ == name@,
                i <= n,
                forall|m: Seq<char>|
                    #[trigger] entry_find(kept@, m) == (if m == name@ {
                        None
                    } else {
                        entry_find(before.subrange(0, i as int), m)
                    }),
                found == exists|j: int| 0 <= j < i && #[trigger] before[j].name@ == name@,
                self.meta == old(self).meta,
                self.data == old(self).data,
                self.next_ino == old(self).next_ino,
                before == old(self).entries@,
                old(self).numbers_fresh() && old(self).next_ino != u64::MAX ==> forall|j: int|
                    0 <= j < kept@.len() ==> #[trigger] kept@[j].meta.ino < self.next_ino,
            decreases n - i,
        {
            let e = old_entries.remove(0);
            let ghost prefix = before.subrange(0, i as int);
            assert(before.subrange(0, i + 1) =~= prefix.push(e));
            if e.name == key {
                found = true;
                proof {
                    assert forall|m: Seq<char>| #[trigger]
                        entry_find(kept@, m) == (if m == name@ {
                            None
                        } else {
                            entry_find(before.subrange(0, i + 1), m)
                        }) by {
                        lemma_entry_find_push(prefix, e, m);
                    }
                }
            } else {
                let ghost kept_before = kept@;
                proof {
                    if old(self).numbers_fresh() && old(self).next_ino != u64::MAX {
                        assert(before[i as int].meta.ino < self.next_ino);
                    }
                }
                kept.push(e);
                proof {
                    assert forall|m: Seq<char>| #[trigger]
                        entry_find(kept@, m) == (if m == name@ {
                            None
                        } else {
                            entry_find(before.subrange(0, i + 1), m)
                        }) by {
                        lemma_entry_find_push(prefix, e, m);
                        lemma_entry_find_push(kept_before, e, m);
                    }
                }
            }
            i = i + 1;
        }
        self.entries = kept;
        proof {
            assert(before.subrange(0, n as int) =~= before);
            lemma_entry_find_some(before, name@);
            assert(entry_map(self.entries@) =~= entry_map(before).remove(name@));
            assert(entry_meta_map(self.entries@) =~= entry_meta_map(before).remove(name@));
        }
        found
    }

    fn truncate(&mut self, size: usize) -> (r: isize)
        ensures
            final(self).next_ino == old(self).next_ino,
            final(self).entries == old(self).entries,
    {
        self.resize_to(size);
        0
    }

    /// The names of the entries, in the order they were made.
    fn ls(&self) -> (r: Vec<String>)
        ensures
            r@.len() == self.entries@.len(),
            forall|i: int| 0 <= i < r@.len() ==> #[trigger] r@[i]@ == self.entries@[i].name@,
    {
        let mut names: Vec<String> = Vec::new();
        let mut i: usize = 0;
        while i < self.entries.len()
            invariant
                i <= self.entries@.len(),
                names@.len() == i,
                forall|j: int| 0 <= j < i ==> #[trigger] names@[j]@ == self.entries@[j].name@,
            decreases self.entries@.len() - i,
        {
            names.push(self.entries[i].name.clone());
            i = i + 1;
        }
        proof {
            assert forall|j: int| 0 <= j < names@.len() implies entry_map(
                self.entries@,
            ).contains_key(#[trigger] names@[j]@) by {
                lemma_entry_find_some(self.entries@, names@[j]@);
            }
            assert forall|k: Seq<char>| #[trigger]
                entry_map(self.entries@).contains_key(k) implies exists|i: int|
                0 <= i < names@.len() && names@[i]@ == k by {
                lemma_entry_find_some(self.entries@, k);
                let i = choose|i: int| 0 <= i < self.entries@.len() && #[trigger] self.entries@[i].name@ == k;
                assert(names@[i]@ == k);
            }
        }
        names
    }
}

} // verus!
