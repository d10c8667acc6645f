//! Open files: reading and writing through a file position, over any inode.

use vstd::prelude::*;

use std::sync::Arc;

use crate::defs::{InodeFileType, OpenFlags, O_APPEND, O_CREAT, O_RDONLY, O_WRONLY, S_IFREG};
use crate::vfs::{read_into, read_len, write_into, Inode};

verus! {

/// A list of buffers that one read or write goes through, in order.
pub struct UserBuffer {
    pub buffers: Vec<Vec<u8>>,
}

impl View for UserBuffer {
    type V = Seq<Seq<u8>>;

    open spec fn view(&self) -> Seq<Seq<u8>> {
        Seq::new(self.buffers@.len(), |i: int| self.buffers@[i]@)
    }
}

impl UserBuffer {
    pub fn new(buffers: Vec<Vec<u8>>) -> (r: Self)
        ensures
            r.buffers@ == buffers@,
    {
        UserBuffer { buffers }
    }
}

/// The summed length of a list of buffers.
pub open spec fn total_len(bufs: Seq<Seq<u8>>) -> nat
    decreases bufs.len(),
{
    if bufs.len() == 0 {
        0
    } else {
        bufs[0].len() + total_len(bufs.drop_first())
    }
}

/// The buffers after reading, from byte `offset` of a file holding
/// `content`, into each of `bufs` in turn, and how many bytes were read.
/// Reading stops at the first buffer into which nothing was read.
pub open spec fn read_vectored(content: Seq<u8>, offset: int, bufs: Seq<Seq<u8>>) -> (Seq<
    Seq<u8>,
>, nat)
    decreases bufs.len(),
{
    if bufs.len() == 0 {
        (bufs, 0)
    } else {
        let n = read_len(content.len(), offset, bufs[0].len());
        if n == 0 {
            (bufs, 0)
        } else {
            let rest = read_vectored(content, offset + n, bufs.drop_first());
            (seq![read_into(content, offset, bufs[0])] + rest.0, n + rest.1)
        }
    }
}

/// Reading into a list of buffers none of which is empty delivers as many
/// bytes as one read into a single buffer of their summed length.
pub proof fn lemma_read_vectored_len(content: Seq<u8>, offset: int, bufs: Seq<Seq<u8>>)
    requires
        0 <= offset,
        forall|i: int| 0 <= i < bufs.len() ==> #[trigger] bufs[i].len() > 0,
    ensures
        read_vectored(content, offset, bufs).1 == read_len(
            content.len(),
            offset,
            total_len(bufs),
        ),
    decreases bufs.len(),
{
    if bufs.len() > 0 {
        assert(bufs[0].len() > 0);
        let n = read_len(content.len(), offset, bufs[0].len());
        if n > 0 {
            let rest = bufs.drop_first();
            assert forall|i: int| 0 <= i < rest.len() implies #[trigger] rest[i].len() > 0 by {
                assert(rest[i] == bufs[i + 1]);
            }
            lemma_read_vectored_len(content, offset + n, rest);
        }
    }
}

/// Flattening a list that starts with `first` gives `first` followed by the
/// flattened rest.
proof fn lemma_flatten_cons(first: Seq<u8>, rest: Seq<Seq<u8>>)
    ensures
        (seq![first] + rest).flatten() == first + rest.flatten(),
{
    let l = seq![first] + rest;
    assert(l.first() == first);
    assert(l.drop_first() =~= rest);
}

/// The bytes a read into a list of buffers delivers: as many bytes of the
/// filled buffers, taken in order, as the read reports.
pub open spec fn read_vectored_bytes(content: Seq<u8>, offset: int, bufs: Seq<Seq<u8>>) -> Seq<
    u8,
> {
    let r = read_vectored(content, offset, bufs);
    r.0.flatten().subrange(0, r.1 as int)
}

/// A read into a list of buffers keeps their lengths, and the bytes it
/// delivers are the file's bytes from `offset` on.
pub proof fn lemma_read_vectored_bytes(content: Seq<u8>, offset: int, bufs: Seq<Seq<u8>>)
    requires
        0 <= offset,
    ensures
        read_vectored(content, offset, bufs).0.flatten().len() == bufs.flatten().len(),
        read_vectored(content, offset, bufs).1 <= bufs.flatten().len(),
        read_vectored(content, offset, bufs).1 > 0 ==> offset + read_vectored(
            content,
            offset,
            bufs,
        ).1 <= content.len(),
        read_vectored(content, offset, bufs).1 > 0 ==> read_vectored_bytes(content, offset, bufs)
            =~= content.subrange(offset, offset + read_vectored(content, offset, bufs).1),
        read_vectored(content, offset, bufs).1 == 0 ==> read_vectored_bytes(
            content,
            offset,
            bufs,
        ) =~= Seq::<u8>::empty(),
    decreases bufs.len(),
{
    if bufs.len() > 0 {
        let b0 = bufs[0];
        let tail = bufs.drop_first();
        lemma_flatten_cons(b0, tail);
        assert(bufs =~= seq![b0] + tail);
        let n = read_len(content.len(), offset, b0.len());
        if n > 0 {
            let x = read_into(content, offset, b0);
            let a = read_vectored(content, offset + n, tail);
            lemma_read_vectored_bytes(content, offset + n, tail);
            lemma_flatten_cons(x, a.0);
            assert(x.len() == b0.len());
            if a.1 > 0 {
                assert(x =~= content.subrange(offset, offset + n));
                assert((x + a.0.flatten()).subrange(0, (n + a.1) as int) =~= x + a.0.flatten().subrange(
                    0,
                    a.1 as int,
                ));
            } else {
                assert((x + a.0.flatten()).subrange(0, n as int) =~= x.subrange(0, n as int));
            }
        }
    }
}

/// Reading into `first` and then, from where that read ended, into `second`
/// is one read into both lists joined, where no buffer of `first` is empty.
pub proof fn lemma_two_reads(content: Seq<u8>, offset: int, first: Seq<Seq<u8>>, second: Seq<
    Seq<u8>,
>)
    requires
        0 <= offset,
        forall|i: int| 0 <= i < first.len() ==> #[trigger] first[i].len() > 0,
    ensures
        ({
            let r1 = read_vectored(content, offset, first);
            let r2 = read_vectored(content, offset + r1.1, second);
            read_vectored(content, offset, first + second) == (r1.0 + r2.0, r1.1 + r2.1)
        }),
    decreases first.len(),
{
    let r1 = read_vectored(content, offset, first);
    let r2 = read_vectored(content, offset + r1.1, second);
    let joint = first + second;
    if first.len() == 0 {
        assert(joint =~= second);
        assert(r1.0 + r2.0 =~= r2.0);
    } else {
        let b0 = first[0];
        let tail = first.drop_first();
        assert(b0.len() > 0);
        assert(joint[0] == b0);
        assert(joint.drop_first() =~= tail + second);
        let n = read_len(content.len(), offset, b0.len());
        if n == 0 {
            if second.len() > 0 {
                assert(read_len(content.len(), offset, second[0].len()) == 0);
            }
            assert(r1.0 + r2.0 =~= joint);
        } else {
            assert forall|i: int| 0 <= i < tail.len() implies #[trigger] tail[i].len() > 0 by {
                assert(tail[i] == first[i + 1]);
            }
            lemma_two_reads(content, offset + n, tail, second);
            let t = read_vectored(content, offset + n, tail);
            assert(seq![read_into(content, offset, b0)] + t.0 + r2.0 =~= seq![
                read_into(content, offset, b0),
            ] + (t.0 + r2.0));
        }
    }
}

/// What reading again and again from `offset` with a buffer of `chunk`
/// bytes delivers, until a read delivers nothing.
pub open spec fn chunked_read(content: Seq<u8>, offset: int, chunk: nat) -> Seq<u8>
    decreases content.len() - offset,
{
    let n = read_len(content.len(), offset, chunk);
    if n == 0 || offset < 0 {
        Seq::empty()
    } else {
        content.subrange(offset, offset + n) + chunked_read(content, offset + n, chunk)
    }
}

/// Reading a file chunk by chunk from `offset` until a read delivers nothing
/// gives back the file's bytes from `offset` to its end.
pub proof fn lemma_chunked_read_rebuilds(content: Seq<u8>, offset: int, chunk: nat)
    requires
        0 <= offset <= content.len(),
        chunk > 0,
    ensures
        chunked_read(content, offset, chunk) =~= content.subrange(offset, content.len() as int),
    decreases content.len() - offset,
{
    let n = read_len(content.len(), offset, chunk);
    if n > 0 {
        lemma_chunked_read_rebuilds(content, offset + n, chunk);
        assert(content.subrange(offset, offset + n) + content.subrange(
            offset + n,
            content.len() as int,
        ) =~= content.subrange(offset, content.len() as int));
    }
}

/// The position of a read or write that goes through a list of buffers in
/// turn.  The driver moves the bytes of each buffer and reports how many it
/// moved; a read that moves nothing ends the whole read.
pub struct BufferCursor {
    start: usize,
    pos: usize,
    finished: bool,
}

impl BufferCursor {
    /// Where the transfer started.
    pub closed spec fn origin(&self) -> nat {
        self.start as nat
    }

    /// Where the next buffer's bytes go or come from.
    pub closed spec fn at(&self) -> nat {
        self.pos as nat
    }

    /// Whether a read has come to its end.
    pub closed spec fn stopped(&self) -> bool {
        self.finished
    }

    pub closed spec fn wf(&self) -> bool {
        self.start <= self.pos
    }

    /// Starts a transfer at byte `pos`.
    pub fn new(pos: usize) -> (r: Self)
        ensures
            r.wf(),
            r.origin() == pos,
            r.at() == pos,
            !r.stopped(),
    {
        BufferCursor { start: pos, pos, finished: false }
    }

    /// Where the next buffer's bytes go or come from.
    pub fn position(&self) -> (r: usize)
        ensures
            r == self.at(),
    {
        self.pos
    }

    /// How many bytes have been moved so far.
    pub fn total(&self) -> (r: usize)
        requires
            self.wf(),
        ensures
            r == self.at() - self.origin(),
    {
        self.pos - self.start
    }

    /// Whether a read has come to its end.
    pub fn finished(&self) -> (r: bool)
        ensures
            r == self.stopped(),
    {
        self.finished
    }

    /// Takes in how many bytes a read into the current buffer delivered:
    /// none ends the read, else the position moves past them.
    pub fn after_read(&mut self, n: usize)
        requires
            old(self).wf(),
            !old(self).stopped(),
            old(self).at() + n <= usize::MAX,
        ensures
            final(self).wf(),
            final(self).origin() == old(self).origin(),
            n == 0 ==> final(self).stopped() && final(self).at() == old(self).at(),
            n > 0 ==> !final(self).stopped() && final(self).at() == old(self).at() + n,
    {
        if n == 0 {
            self.finished = true;
        } else {
            self.pos = self.pos + n;
        }
    }

    /// Takes in how many bytes a write from the current buffer moved; the
    /// position moves past them.
    pub fn after_write(&mut self, n: usize)
        requires
            old(self).wf(),
            old(self).at() + n <= usize::MAX,
        ensures
            final(self).wf(),
            final(self).origin() == old(self).origin(),
            final(self).stopped() == old(self).stopped(),
            final(self).at() == old(self).at() + n,
    {
        self.pos = self.pos + n;
    }
}

/// Reads from `inode`, starting at `*pos`, into each buffer of `buf` in turn
/// until a buffer receives nothing; advances `*pos` past the bytes read and
/// returns their number.
pub fn read_buffers<I: Inode>(inode: &I, pos: &mut usize, buf: &mut UserBuffer) -> (total: usize)
    ensures
        final(buf)@ == read_vectored(inode.content(), *old(pos) as int, old(buf)@).0,
        total == read_vectored(inode.content(), *old(pos) as int, old(buf)@).1,
        *final(pos) == *old(pos) + total,
{
    let ghost c = inode.content();
    let ghost o = *pos as int;
    let ghost orig = buf@;
    let count = buf.buffers.len();
    let mut cursor = BufferCursor::new(*pos);
    let mut i: usize = 0;
    assert(orig.subrange(0, count as int) =~= orig);
    assert(buf@.subrange(0, 0) =~= Seq::<Seq<u8>>::empty());
    while i < count
        invariant
            cursor.wf(),
            cursor.origin() == o,
            count == buf.buffers@.len(),
            count == orig.len(),
            i <= count,
            buf@.subrange(i as int, count as int) == orig.subrange(i as int, count as int),
            read_vectored(c, o, orig).0 == buf@.subrange(0, i as int) + read_vectored(
                c,
                cursor.at() as int,
                orig.subrange(i as int, count as int),
            ).0,
            read_vectored(c, o, orig).1 == (cursor.at() - o) + read_vectored(
                c,
                cursor.at() as int,
                orig.subrange(i as int, count as int),
            ).1,
            i < count ==> !cursor.stopped(),
            c == inode.content(),
        decreases count - i,
    {
        let ghost before = buf@;
        let ghost rest = orig.subrange(i as int, count as int);
        let ghost at = cursor.at() as int;
        assert(rest.drop_first() =~= orig.subrange(i + 1, count as int));
        assert(before[i as int] == rest[0]);
        let n = inode.read_at(cursor.position(), buf.buffers[i].as_mut_slice());
        proof {
            inode.content_fits();
            assert(buf@ =~= before.update(i as int, read_into(c, at, before[i as int])));
        }
        cursor.after_read(n);
        if cursor.finished() {
            // Nothing more to read: the remaining buffers stay as they are.
            proof {
                assert(buf@ =~= before);
                assert(buf@ =~= buf@.subrange(0, i as int) + rest);
                assert(buf@.subrange(0, count as int) =~= buf@);
            }
            i = count;
        } else {
            i = i + 1;
            proof {
                assert(buf@.subrange(0, i as int) =~= before.subrange(0, i - 1) + seq![
                    read_into(c, at, rest[0]),
                ]);
                assert(buf@.subrange(i as int, count as int) =~= orig.subrange(
                    i as int,
                    count as int,
                ));
            }
        }
    }
    assert(buf@.subrange(0, count as int) =~= buf@);
    assert(orig.subrange(count as int, count as int) =~= Seq::<Seq<u8>>::empty());
    *pos = cursor.position();
    cursor.total()
}

/// The file holding `content` after each of `bufs` was written in turn,
/// starting at byte `offset`.
pub open spec fn write_vectored(content: Seq<u8>, offset: int, bufs: Seq<Seq<u8>>) -> Seq<u8>
    decreases bufs.len(),
{
    if bufs.len() == 0 {
        content
    } else {
        write_vectored(
            write_into(content, offset, bufs[0]),
            offset + bufs[0].len(),
            bufs.drop_first(),
        )
    }
}

/// Two writes, the second right behind the first, act as one write of both.
pub proof fn lemma_write_twice(content: Seq<u8>, offset: int, a: Seq<u8>, b: Seq<u8>)
    requires
        0 <= offset,
    ensures
        write_into(write_into(content, offset, a), offset + a.len(), b) =~= write_into(
            content,
            offset,
            a + b,
        ),
{
}

/// Writing a list of buffers in turn acts as one write of their
/// concatenation.
pub proof fn lemma_write_vectored_flat(content: Seq<u8>, offset: int, bufs: Seq<Seq<u8>>)
    requires
        0 <= offset,
    ensures
        write_vectored(content, offset, bufs) =~= write_into(content, offset, bufs.flatten()),
    decreases bufs.len(),
{
    if bufs.len() > 0 {
        let a = bufs[0];
        let rest = bufs.drop_first();
        lemma_write_vectored_flat(write_into(content, offset, a), offset + a.len(), rest);
        lemma_write_twice(content, offset, a, rest.flatten());
    }
}

/// After a list of buffers was written at `offset`, a read at `offset` into
/// a buffer of their summed length gives back their concatenation.
pub proof fn lemma_written_buffers_read_back(
    content: Seq<u8>,
    offset: int,
    bufs: Seq<Seq<u8>>,
    buf: Seq<u8>,
)
    requires
        0 <= offset,
        buf.len() == bufs.flatten().len(),
    ensures
        read_into(write_vectored(content, offset, bufs), offset, buf) =~= bufs.flatten(),
{
    lemma_write_vectored_flat(content, offset, bufs);
    crate::vfs::lemma_read_after_write(content, offset, bufs.flatten(), buf);
}

/// What is written through one open file of a path is read back through
/// any open file of that path: `entries` are the files of the directory,
/// `written` went in at `offset`, and a later read from `offset` goes into
/// `bufs`, none of them empty and together at least as long as what was
/// written.  The read delivers at least the written bytes, those first;
/// where the file ended within the written range, it delivers exactly them.
pub proof fn lemma_any_open_reads_written(
    entries: Map<Seq<char>, Seq<u8>>,
    path: Seq<char>,
    offset: int,
    written: Seq<Seq<u8>>,
    bufs: Seq<Seq<u8>>,
)
    requires
        entries.contains_key(path),
        0 <= offset,
        forall|i: int| 0 <= i < bufs.len() ==> #[trigger] bufs[i].len() > 0,
        total_len(bufs) >= written.flatten().len(),
    ensures
        ({
            let after = entries.insert(path, write_vectored(entries[path], offset, written));
            let w = written.flatten().len();
            let r = read_vectored(after[path], offset, bufs);
            &&& after.contains_key(path)
            &&& r.1 >= w
            &&& read_vectored_bytes(after[path], offset, bufs).subrange(0, w as int)
                == written.flatten()
            &&& entries[path].len() <= offset + w ==> r.1 == w
        }),
{
    let c = entries[path];
    let f = written.flatten();
    let w = f.len();
    let after = entries.insert(path, write_vectored(c, offset, written));
    lemma_write_vectored_flat(c, offset, written);
    let c2 = write_into(c, offset, f);
    assert(after[path] == c2);
    lemma_read_vectored_len(c2, offset, bufs);
    lemma_read_vectored_bytes(c2, offset, bufs);
    let r = read_vectored(c2, offset, bufs);
    if w > 0 {
        assert(c2.len() >= offset + w);
        assert(r.1 >= w);
        assert(read_vectored_bytes(c2, offset, bufs).subrange(0, w as int) =~= f);
    } else {
        assert(read_vectored_bytes(c2, offset, bufs).subrange(0, 0) =~= f);
    }
}

/// Writes each buffer of `buf` in turn to `inode`, starting at `*pos`;
/// advances `*pos` past the bytes written and returns their number.
pub fn write_buffers<I: Inode>(inode: &mut I, pos: &mut usize, buf: &UserBuffer) -> (total: usize)
    requires
        *old(pos) + total_len(buf@) <= usize::MAX,
    ensures
        total == total_len(buf@),
        *final(pos) == *old(pos) + total,
        final(inode).content() == write_vectored(old(inode).content(), *old(pos) as int, buf@),
        final(inode).meta() == old(inode).meta(),
        final(inode).entries() == old(inode).entries(),
{
    let count = buf.buffers.len();
    let ghost o = *pos as int;
    let ghost c = inode.content();
    let ghost m = inode.meta();
    let ghost e = inode.entries();
    let mut cursor = BufferCursor::new(*pos);
    let mut i: usize = 0;
    assert(buf@.subrange(0, count as int) =~= buf@);
    while i < count
        invariant
            cursor.wf(),
            cursor.origin() == o,
            count == buf@.len(),
            i <= count,
            (cursor.at() - o) + total_len(buf@.subrange(i as int, count as int)) == total_len(
                buf@,
            ),
            o + total_len(buf@) <= usize::MAX,
            inode.meta() == m,
            inode.entries() == e,
            write_vectored(c, o, buf@) == write_vectored(
                inode.content(),
                cursor.at() as int,
                buf@.subrange(i as int, count as int),
            ),
        decreases count - i,
    {
        let ghost rest = buf@.subrange(i as int, count as int);
        assert(rest.drop_first() =~= buf@.subrange(i + 1, count as int));
        assert(rest[0] == buf.buffers@[i as int]@);
        let n = inode.write_at(cursor.position(), buf.buffers[i].as_slice());
        cursor.after_write(n);
        i = i + 1;
    }
    assert(buf@.subrange(count as int, count as int) =~= Seq::<Seq<u8>>::empty());
    *pos = cursor.position();
    cursor.total()
}

/// The state of an open file that changes as it is used.
pub struct OSInodeInner {
    offset: usize,
    name: String,
}

/// A file opened by the kernel: access rights, whether every write goes to
/// the end of the file, the file position, and the path the file was opened
/// by.  The file's bytes stay in the directory it was opened from, which
/// each read and write goes through, so every open file of a path sees what
/// any of them wrote.
pub struct OSInode {
    readable: bool,
    writable: bool,
    append: bool,
    inner: OSInodeInner,
}

/// Where a write through an open file starts: at the end of the file
/// `content` when the file appends, else at the file position `offset`.
pub open spec fn write_start(append: bool, content: Seq<u8>, offset: nat) -> nat {
    if append {
        content.len()
    } else {
        offset
    }
}

/// An appending write starts at the end of the file, whatever the file
/// position; any other write starts at the file position.
pub proof fn lemma_write_start(content: Seq<u8>, offset: nat, other: nat)
    ensures
        write_start(true, content, offset) == content.len(),
        write_start(true, content, offset) == write_start(true, content, other),
        write_start(false, content, offset) == offset,
{
}

impl OSInode {
    /// The file position.
    pub closed spec fn offset(&self) -> nat {
        self.inner.offset as nat
    }

    /// The path the file was opened by.
    pub closed spec fn name(&self) -> Seq<char> {
        self.inner.name@
    }

    pub closed spec fn may_read(&self) -> bool {
        self.readable
    }

    pub closed spec fn may_write(&self) -> bool {
        self.writable
    }

    /// Whether every write goes to the end of the file.
    pub closed spec fn appends(&self) -> bool {
        self.append
    }

    /// The file opened by `name`, at position 0, not appending.
    pub fn new(readable: bool, writable: bool, name: &str) -> (r: Self)
        ensures
            r.may_read() == readable,
            r.may_write() == writable,
            !r.appends(),
            r.name() == name@,
            r.offset() == 0,
    {
        OSInode {
            readable,
            writable,
            append: false,
            inner: OSInodeInner { offset: 0, name: name.to_owned() },
        }
    }

    /// The same open file, with every write going to the end of the file.
    pub fn appending(self) -> (r: Self)
        ensures
            r.appends(),
            r.may_read() == self.may_read(),
            r.may_write() == self.may_write(),
            r.name() == self.name(),
            r.offset() == self.offset(),
    {
        OSInode { append: true, ..self }
    }

    /// Reads everything from the file position to the end of the file in
    /// the directory `dir` and leaves the position at the end.  Where the
    /// directory holds no such file, reads nothing.
    pub fn read_all<I: Inode>(&mut self, dir: &I) -> (r: Vec<u8>)
        ensures
            ({
                let c = if dir.entries().contains_key(old(self).name()) {
                    dir.entries()[old(self).name()]
                } else {
                    Seq::<u8>::empty()
                };
                &&& old(self).offset() < c.len() ==> r@ == c.subrange(
                    old(self).offset() as int,
                    c.len() as int,
                ) && final(self).offset() == c.len()
                &&& old(self).offset() >= c.len() ==> r@ == Seq::<u8>::empty() && final(self).offset()
                    == old(self).offset()
            }),
            final(self).name() == old(self).name(),
            final(self).may_read() == old(self).may_read(),
            final(self).may_write() == old(self).may_write(),
            final(self).appends() == old(self).appends(),
    {
        let found = dir.lookup(self.inner.name.as_str());
        let dentry = match found {
            Some(d) => d,
            None => {
                return Vec::new();
            },
        };
        let inode = dentry.inode();
        let file: &I = &*inode;
        let ghost c = file.content();
        let ghost o = self.inner.offset as int;
        let mut buffer: Vec<u8> = vec![0u8; 512];
        let mut v: Vec<u8> = Vec::new();
        loop
            invariant_except_break
                c == file.content(),
                0 <= o <= self.inner.offset,
                o < c.len() ==> self.inner.offset <= c.len(),
                o < c.len() ==> v@ == c.subrange(o, self.inner.offset as int),
                o >= c.len() ==> self.inner.offset == o && v@ == Seq::<u8>::empty(),
                buffer@.len() == 512,
                self.inner.name == old(self).inner.name,
                self.readable == old(self).readable,
                self.writable == old(self).writable,
                self.append == old(self).append,
            ensures
                o < c.len() ==> v@ == c.subrange(o, c.len() as int) && self.inner.offset
                    == c.len(),
                o >= c.len() ==> self.inner.offset == o && v@ == Seq::<u8>::empty(),
                self.inner.name == old(self).inner.name,
                self.readable == old(self).readable,
                self.writable == old(self).writable,
                self.append == old(self).append,
            decreases c.len() - self.inner.offset,
        {
            let len = file.read_at(self.inner.offset, buffer.as_mut_slice());
            assert(len == read_len(c.len(), self.inner.offset as int, 512));
            if len == 0 {
                break;
            }
            proof {
                file.content_fits();
            }
            let ghost before = v@;
            v.extend_from_slice(vstd::slice::slice_subrange(buffer.as_slice(), 0, len));
            proof {
                let off = self.inner.offset as int;
                assert(v@ =~= before + c.subrange(off, off + len));
                assert(c.subrange(o, off) + c.subrange(off, off + len) =~= c.subrange(o, off + len));
            }
            self.inner.offset = self.inner.offset + len;
        }
        v
    }

    /// The file position.
    pub fn position(&self) -> (r: usize)
        ensures
            r == self.offset(),
    {
        self.inner.offset
    }

    /// The inode of the open file in the directory `dir`: its bytes and its
    /// record as they are now, if the directory still holds it.
    pub fn get_inode<I: Inode>(&self, dir: &I) -> (r: Option<Arc<I>>)
        ensures
            r is Some <==> dir.entries().contains_key(self.name()),
            r matches Some(i) ==> i.content() == dir.entries()[self.name()] && i.meta()
                == dir.entry_meta()[self.name()],
    {
        match dir.lookup(self.inner.name.as_str()) {
            Some(d) => Some(d.inode()),
            None => None,
        }
    }

    /// Whether every write goes to the end of the file.
    pub fn append_mode(&self) -> (r: bool)
        ensures
            r == self.appends(),
    {
        self.append
    }

    /// Whether the file was opened for reading.
    pub fn readable(&self) -> (r: bool)
        ensures
            r == self.may_read(),
    {
        self.readable
    }

    /// Whether the file was opened for writing.
    pub fn writable(&self) -> (r: bool)
        ensures
            r == self.may_write(),
    {
        self.writable
    }

    /// Reads the file's bytes in the directory `dir` into the buffers of
    /// `buf` in turn from the file position and advances it; returns the
    /// number of bytes read.  Where the directory holds no such file, reads
    /// nothing.
    pub fn read<I: Inode>(&mut self, dir: &I, buf: &mut UserBuffer) -> (total: usize)
        ensures
            dir.entries().contains_key(old(self).name()) ==> {
                let r = read_vectored(dir.entries()[old(self).name()], old(self).offset() as int, old(buf)@);
                &&& final(buf)@ == r.0
                &&& total == r.1
            },
            !dir.entries().contains_key(old(self).name()) ==> total == 0 && final(buf)@ == old(buf)@,
            final(self).offset() == old(self).offset() + total,
            final(self).name() == old(self).name(),
            final(self).may_read() == old(self).may_read(),
            final(self).may_write() == old(self).may_write(),
            final(self).appends() == old(self).appends(),
    {
        match dir.lookup(self.inner.name.as_str()) {
            Some(d) => {
                let inode = d.inode();
                read_buffers(&*inode, &mut self.inner.offset, buf)
            },
            None => 0,
        }
    }

    /// Writes the buffers of `buf` in turn into the file's bytes in the
    /// directory `dir`, from the file position, or from the end of the file
    /// where it appends, and leaves the position behind the bytes written;
    /// returns their number.  The bytes written must end within the address
    /// space.  Where the directory holds no such file, writes nothing.
    pub fn write<I: Inode>(&mut self, dir: &mut I, buf: &UserBuffer) -> (total: usize)
        requires
            old(dir).entries().contains_key(old(self).name()) ==> write_start(
                old(self).appends(),
                old(dir).entries()[old(self).name()],
                old(self).offset(),
            ) + total_len(buf@) <= usize::MAX,
        ensures
            old(dir).entries().contains_key(old(self).name()) ==> {
                let c = old(dir).entries()[old(self).name()];
                let start = write_start(old(self).appends(), c, old(self).offset());
                &&& total == total_len(buf@)
                &&& final(dir).entries() == old(dir).entries().insert(
                    old(self).name(),
                    write_vectored(c, start as int, buf@),
                )
                &&& final(self).offset() == start + total
            },
            old(dir).entries().contains_key(old(self).name()) && old(self).appends() ==> {
                let c = old(dir).entries()[old(self).name()];
                &&& final(dir).entries()[old(self).name()] == write_vectored(c, c.len() as int, buf@)
                &&& final(self).offset() == c.len() + total
            },
            old(dir).entries().contains_key(old(self).name()) && !old(self).appends() ==> {
                let c = old(dir).entries()[old(self).name()];
                &&& final(dir).entries()[old(self).name()] == write_vectored(
                    c,
                    old(self).offset() as int,
                    buf@,
                )
                &&& final(self).offset() == old(self).offset() + total
            },
            !old(dir).entries().contains_key(old(self).name()) ==> total == 0 && final(dir).entries()
                == old(dir).entries() && final(self).offset() == old(self).offset(),
            final(dir).entry_meta() == old(dir).entry_meta(),
            final(dir).content() == old(dir).content(),
            final(dir).meta() == old(dir).meta(),
            final(self).name() == old(self).name(),
            final(self).may_read() == old(self).may_read(),
            final(self).may_write() == old(self).may_write(),
            final(self).appends() == old(self).appends(),
    {
        match dir.open(self.inner.name.as_str(), false) {
            Some(file) => {
                let mut file = file;
                if self.append {
                    proof {
                        file.content_fits();
                    }
                    let attr = file.get_attr();
                    let size = match attr {
                        Some(a) => a.size,
                        None => 0,
                    };
                    self.inner.offset = size as usize;
                }
                let n = write_buffers(&mut file, &mut self.inner.offset, buf);
                dir.release(self.inner.name.as_str(), file);
                n
            },
            None => 0,
        }
    }
}

/// Whether an open request with `flags` asks for the file to be created.
pub fn wants_create(flags: OpenFlags) -> (r: bool)
    ensures
        r == (flags.bits & O_CREAT == O_CREAT),
{
    flags.contains(OpenFlags { bits: O_CREAT })
}

/// Opens `path` below the directory `dir`, creating it if `flags` ask for
/// that, as a file named `path` that may be read unless it is opened
/// write-only, written unless it is opened read-only, and that writes at
/// its end if it is opened to append.
pub fn open_file<I: Inode>(dir: &mut I, path: &str, flags: OpenFlags) -> (r: Option<OSInode>)
    ensures
        old(dir).entries().contains_key(path@) ==> r is Some && final(dir).entries() == old(
            dir,
        ).entries() && final(dir).entry_meta() == old(dir).entry_meta(),
        !old(dir).entries().contains_key(path@) && !(flags.bits & O_CREAT == O_CREAT) ==> r is None,
        flags.bits & O_CREAT == O_CREAT ==> r is Some,
        !old(dir).entries().contains_key(path@) && r is None ==> final(dir).entries() == old(
            dir,
        ).entries() && final(dir).entry_meta() == old(dir).entry_meta(),
        !old(dir).entries().contains_key(path@) && r is Some ==> {
            &&& final(dir).entries() == old(dir).entries().insert(path@, Seq::<u8>::empty())
            &&& final(dir).entry_meta() == old(dir).entry_meta().insert(
                path@,
                final(dir).entry_meta()[path@],
            )
            &&& final(dir).entry_meta()[path@].file_type == (InodeFileType { bits: S_IFREG })
        },
        r is Some ==> final(dir).entries().contains_key(path@),
        r matches Some(f) ==> {
            &&& f.may_read() == (flags.bits & 3 != O_WRONLY)
            &&& f.may_write() == (flags.bits & 3 != O_RDONLY)
            &&& f.appends() == (flags.bits & O_APPEND == O_APPEND)
            &&& f.offset() == 0
            &&& f.name() == path@
        },
        final(dir).content() == old(dir).content(),
        final(dir).meta() == old(dir).meta(),
{
    let create = wants_create(flags);
    let (readable, writable) = flags.read_write();
    match dir.open(path, create) {
        Some(_) => {
            let f = OSInode::new(readable, writable, path);
            if flags.contains(OpenFlags { bits: O_APPEND }) {
                Some(f.appending())
            } else {
                Some(f)
            }
        },
        None => None,
    }
}

} // verus!
