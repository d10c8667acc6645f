//! Block access on top of a sector device.
//!
//! The file system asks for whole blocks (`BLOCK_SIZE` bytes) at arbitrary
//! byte offsets, while the device only transfers fixed-size sectors
//! (`BLK_SIZE` bytes).  `BlockReader` and `BlockWriter` hold the decisions of
//! that mapping as state machines: the driver asks which sector to
//! transfer next, performs the transfer, and feeds the result back.
//! `MemDisk` drives both machines over a disk image kept in memory.

use vstd::prelude::*;

verus! {

/// Size of one device sector in bytes.
pub const BLK_SIZE: usize = 512;

/// Size of one file-system block in bytes.
pub const BLOCK_SIZE: usize = 4096;

/// The bytes of sector `id` of the disk image `disk`.
pub open spec fn sector_of(disk: Seq<u8>, id: int) -> Seq<u8> {
    disk.subrange(id * 512, id * 512 + 512)
}

/// The disk image `disk` with `bytes` written at byte position `at`.
pub open spec fn spliced(disk: Seq<u8>, at: int, bytes: Seq<u8>) -> Seq<u8> {
    disk.subrange(0, at) + bytes + disk.subrange(at + bytes.len(), disk.len() as int)
}

/// How many bytes of a transfer of `remaining` bytes at byte position `pos`
/// fall into the sector that holds `pos`.
pub open spec fn chunk_len(remaining: int, pos: int) -> int {
    if remaining < 512 - pos % 512 {
        remaining
    } else {
        512 - pos % 512
    }
}

/// The sector that holds byte position `pos`, and the position inside it.
pub proof fn lemma_sector_split(pos: int)
    requires
        0 <= pos,
    ensures
        pos == (pos / 512) * 512 + pos % 512,
        0 <= pos % 512 < 512,
        0 <= pos / 512,
{
    assert(pos == (pos / 512) * 512 + pos % 512) by (nonlinear_arith)
        requires
            0 <= pos,
    ;
}

/// Taking the part of the sector that holds `pos` which starts at `pos`
/// gives the disk bytes that start at `pos`.
pub proof fn lemma_chunk_of_sector(disk: Seq<u8>, pos: int, len: int)
    requires
        0 <= pos,
        0 <= len <= 512 - pos % 512,
        (pos / 512) * 512 + 512 <= disk.len(),
    ensures
        sector_of(disk, pos / 512).subrange(pos % 512, pos % 512 + len) =~= disk.subrange(
            pos,
            pos + len,
        ),
{
    lemma_sector_split(pos);
}

/// Reads one block at a byte offset, one sector at a time.
pub struct BlockReader {
    origin: usize,
    data: Vec<u8>,
}

impl BlockReader {
    /// Byte offset of the block being read.
    pub closed spec fn origin(&self) -> nat {
        self.origin as nat
    }

    /// Bytes gathered so far.
    pub closed spec fn bytes(&self) -> Seq<u8> {
        self.data@
    }

    /// Byte position of the next byte to gather.
    pub open spec fn position(&self) -> int {
        (self.origin() + self.bytes().len()) as int
    }

    pub closed spec fn wf(&self) -> bool {
        &&& self.data@.len() <= BLOCK_SIZE
        &&& self.origin + BLOCK_SIZE <= usize::MAX
    }

    /// Starts reading the block at byte `offset`.
    pub fn new(offset: usize) -> (r: Self)
        requires
            offset + BLOCK_SIZE <= usize::MAX,
        ensures
            r.wf(),
            r.origin() == offset,
            r.bytes() == Seq::<u8>::empty(),
    {
        BlockReader { origin: offset, data: Vec::new() }
    }

    /// Whether the whole block has been gathered.
    pub fn is_done(&self) -> (r: bool)
        requires
            self.wf(),
        ensures
            r == (self.bytes().len() == BLOCK_SIZE),
            self.bytes().len() <= BLOCK_SIZE,
            self.origin() + BLOCK_SIZE <= usize::MAX,
    {
        self.data.len() >= BLOCK_SIZE
    }

    /// The sector that must be read next.
    pub fn next_sector(&self) -> (r: usize)
        requires
            self.wf(),
        ensures
            r == self.position() / 512,
    {
        (self.origin + self.data.len()) / BLK_SIZE
    }

    /// Takes in the content of the sector named by `next_sector`: the part
    /// of it that belongs to the block is appended to the gathered bytes.
    pub fn feed(&mut self, sector: &[u8])
        requires
            old(self).wf(),
            old(self).bytes().len() < BLOCK_SIZE,
            sector@.len() == BLK_SIZE,
        ensures
            final(self).wf(),
            final(self).origin() == old(self).origin(),
            ({
                let pos = old(self).position();
                let len = chunk_len(BLOCK_SIZE - old(self).bytes().len(), pos);
                &&& 0 < len
                &&& final(self).bytes() == old(self).bytes() + sector@.subrange(
                    pos % 512,
                    pos % 512 + len,
                )
            }),
    {
        let start = self.origin + self.data.len();
        let in_sector = start % BLK_SIZE;
        let remaining = BLOCK_SIZE - self.data.len();
        let len = if remaining < BLK_SIZE - in_sector {
            remaining
        } else {
            BLK_SIZE - in_sector
        };
        let ghost old_data = self.data@;
        let mut i: usize = 0;
        while i < len
            invariant
                0 <= in_sector < BLK_SIZE,
                in_sector + len <= BLK_SIZE,
                sector@.len() == BLK_SIZE,
                i <= len,
                self.data@ == old_data + sector@.subrange(in_sector as int, in_sector + i),
                old_data.len() + len <= BLOCK_SIZE,
                self.origin == old(self).origin,
            decreases len - i,
        {
            self.data.push(sector[in_sector + i]);
            i = i + 1;
            assert(self.data@ =~= old_data + sector@.subrange(in_sector as int, in_sector + i));
        }
    }

    /// The gathered bytes.
    pub fn into_bytes(self) -> (r: Vec<u8>)
        ensures
            r@ == self.bytes(),
    {
        self.data
    }
}

/// Writes a run of bytes at a byte offset, one sector at a time: each sector
/// it touches is read, patched and written back.
pub struct BlockWriter {
    origin: usize,
    data: Vec<u8>,
    written: usize,
}

impl BlockWriter {
    /// Byte offset at which the data goes.
    pub closed spec fn origin(&self) -> nat {
        self.origin as nat
    }

    /// The whole run of bytes to write.
    pub closed spec fn payload(&self) -> Seq<u8> {
        self.data@
    }

    /// How many bytes of the payload have been placed so far.
    pub closed spec fn placed(&self) -> nat {
        self.written as nat
    }

    /// Byte position of the next byte to place.
    pub open spec fn position(&self) -> int {
        (self.origin() + self.placed()) as int
    }

    pub closed spec fn wf(&self) -> bool {
        &&& self.written <= self.data@.len()
        &&& self.origin + self.data@.len() <= usize::MAX
    }

    /// Starts writing `data` at byte `offset`.
    pub fn new(offset: usize, data: Vec<u8>) -> (r: Self)
        requires
            offset + data@.len() <= usize::MAX,
        ensures
            r.wf(),
            r.origin() == offset,
            r.payload() == data@,
            r.placed() == 0,
    {
        BlockWriter { origin: offset, data, written: 0 }
    }

    /// Whether every byte has been placed.
    pub fn is_done(&self) -> (r: bool)
        requires
            self.wf(),
        ensures
            r == (self.placed() == self.payload().len()),
            self.placed() <= self.payload().len(),
            self.origin() + self.payload().len() <= usize::MAX,
    {
        self.written >= self.data.len()
    }

    /// The sector that must be read, patched and written back next.
    pub fn next_sector(&self) -> (r: usize)
        requires
            self.wf(),
        ensures
            r == self.position() / 512,
    {
        (self.origin + self.written) / BLK_SIZE
    }

    /// Takes in the current content of the sector named by `next_sector` and
    /// returns the content that must be written back to it.
    pub fn patch(&mut self, sector: &[u8]) -> (r: Vec<u8>)
        requires
            old(self).wf(),
            old(self).placed() < old(self).payload().len(),
            sector@.len() == BLK_SIZE,
        ensures
            final(self).wf(),
            final(self).origin() == old(self).origin(),
            final(self).payload() == old(self).payload(),
            ({
                let pos = old(self).position();
                let w = old(self).placed() as int;
                let len = chunk_len(old(self).payload().len() - w, pos);
                &&& 0 < len
                &&& final(self).placed() == w + len
                &&& r@ == sector@.subrange(0, pos % 512) + old(self).payload().subrange(
                    w,
                    w + len,
                ) + sector@.subrange(pos % 512 + len, 512)
            }),
    {
        let start = self.origin + self.written;
        let in_sector = start % BLK_SIZE;
        let remaining = self.data.len() - self.written;
        let len = if remaining < BLK_SIZE - in_sector {
            remaining
        } else {
            BLK_SIZE - in_sector
        };
        let w = self.written;
        let mut out: Vec<u8> = Vec::new();
        let mut i: usize = 0;
        while i < BLK_SIZE
            invariant
                0 <= in_sector < BLK_SIZE,
                in_sector + len <= BLK_SIZE,
                w + len <= self.data@.len(),
                self.data@.len() <= usize::MAX,
                sector@.len() == BLK_SIZE,
                i <= BLK_SIZE,
                out@.len() == i,
                forall|j: int|
                    0 <= j < i ==> #[trigger] out@[j] == (if in_sector <= j < in_sector + len {
                        self.data@[w + j - in_sector]
                    } else {
                        sector@[j]
                    }),
            decreases BLK_SIZE - i,
        {
            if in_sector <= i && i < in_sector + len {
                out.push(self.data[w + (i - in_sector)]);
            } else {
                out.push(sector[i]);
            }
            i = i + 1;
        }
        self.written = w + len;
        assert(out@ =~= sector@.subrange(0, in_sector as int) + self.data@.subrange(
            w as int,
            w + len,
        ) + sector@.subrange(in_sector + len, 512));
        out
    }
}

/// Where a sector lies in a disk whose length is a whole number of sectors.
pub proof fn lemma_sector_fits(pos: int, len: int)
    requires
        0 <= pos < len,
        len % 512 == 0,
    ensures
        (pos / 512) * 512 + 512 <= len,
{
    assert((pos / 512) * 512 + 512 <= len) by (nonlinear_arith)
        requires
            0 <= pos < len,
            len % 512 == 0,
    ;
}

/// Writing bytes at a position and reading the same range back gives the
/// bytes that were written.
pub proof fn lemma_disk_read_after_write(disk: Seq<u8>, at: int, bytes: Seq<u8>)
    requires
        0 <= at,
        at + bytes.len() <= disk.len(),
    ensures
        spliced(disk, at, bytes).len() == disk.len(),
        spliced(disk, at, bytes).subrange(at, at + bytes.len()) =~= bytes,
{
}

/// Writing bytes at a position leaves every byte outside the written range
/// as it was.
pub proof fn lemma_disk_write_keeps_others(disk: Seq<u8>, at: int, bytes: Seq<u8>, i: int)
    requires
        0 <= at,
        at + bytes.len() <= disk.len(),
        0 <= i < disk.len(),
        i < at || at + bytes.len() <= i,
    ensures
        spliced(disk, at, bytes)[i] == disk[i],
{
}

/// A disk image held in memory, driven sector by sector through
/// `BlockReader` and `BlockWriter`.
pub struct MemDisk {
    image: Vec<u8>,
}

impl View for MemDisk {
    type V = Seq<u8>;

    closed spec fn view(&self) -> Seq<u8> {
        self.image@
    }
}

impl MemDisk {
    pub closed spec fn wf(&self) -> bool {
        self.image@.len() % 512 == 0
    }

    /// A zero-filled disk of `sectors` sectors.
    pub fn new(sectors: usize) -> (r: Self)
        requires
            sectors * 512 <= usize::MAX,
        ensures
            r.wf(),
            r@ == Seq::new((sectors * 512) as nat, |i: int| 0u8),
    {
        let n = sectors * BLK_SIZE;
        let mut image: Vec<u8> = Vec::new();
        let mut i: usize = 0;
        while i < n
            invariant
                i <= n,
                n == sectors * 512,
                image@ =~= Seq::new(i as nat, |j: int| 0u8),
            decreases n - i,
        {
            image.push(0u8);
            i = i + 1;
        }
        assert(n % 512 == 0) by (nonlinear_arith)
            requires
                n == sectors * 512,
        ;
        MemDisk { image }
    }

    /// Length of the disk in bytes.
    pub fn len(&self) -> (r: usize)
        ensures
            r == self@.len(),
    {
        self.image.len()
    }

    /// Copies sector `id` into `buf`.
    pub fn read_block(&self, id: usize, buf: &mut [u8])
        requires
            id * 512 + 512 <= self@.len(),
            old(buf)@.len() == BLK_SIZE,
        ensures
            final(buf)@ == sector_of(self@, id as int),
    {
        // The image length fits in a `usize`, and so does every position in it.
        let _size = self.image.len();
        let base = id * BLK_SIZE;
        let mut i: usize = 0;
        while i < BLK_SIZE
            invariant
                base == id * 512,
                base + 512 <= self.image@.len(),
                i <= BLK_SIZE,
                buf@.len() == BLK_SIZE,
                forall|j: int| 0 <= j < i ==> #[trigger] buf@[j] == self.image@[base + j],
            decreases BLK_SIZE - i,
        {
            buf[i] = self.image[base + i];
            i = i + 1;
        }
        assert(buf@ =~= sector_of(self@, id as int));
    }

    /// Overwrites sector `id` with `buf`.
    pub fn write_block(&mut self, id: usize, buf: &[u8])
        requires
            old(self).wf(),
            id * 512 + 512 <= old(self)@.len(),
            buf@.len() == BLK_SIZE,
        ensures
            final(self).wf(),
            final(self)@ == spliced(old(self)@, id * 512, buf@),
    {
        // The image length fits in a `usize`, and so does every position in it.
        let _size = self.image.len();
        let base = id * BLK_SIZE;
        let mut i: usize = 0;
        while i < BLK_SIZE
            invariant
                base == id * 512,
                base + 512 <= self.image@.len(),
                self.image@.len() == old(self).image@.len(),
                i <= BLK_SIZE,
                buf@.len() == BLK_SIZE,
                forall|j: int| 0 <= j < i ==> #[trigger] self.image@[base + j] == buf@[j],
                forall|j: int|
                    0 <= j < self.image@.len() && !(base <= j < base + 512)
                        ==> #[trigger] self.image@[j] == old(self).image@[j],
                forall|j: int|
                    base + i <= j < base + 512 ==> #[trigger] self.image@[j] == old(self).image@[j],
            decreases BLK_SIZE - i,
        {
            self.image.set(base + i, buf[i]);
            i = i + 1;
        }
        assert forall|j: int| 0 <= j < self.image@.len() implies #[trigger] self.image@[j]
            == spliced(old(self)@, id * 512, buf@)[j] by {
            if base <= j < base + 512 {
                assert(self.image@[base + (j - base)] == buf@[j - base]);
            }
        }
        assert(self.image@ =~= spliced(old(self)@, id * 512, buf@));
    }

    /// Reads the block of `BLOCK_SIZE` bytes that starts at byte `offset`.
    pub fn read_offset(&self, offset: usize) -> (r: Vec<u8>)
        requires
            self.wf(),
            offset + BLOCK_SIZE <= self@.len(),
        ensures
            r@ == self@.subrange(offset as int, offset + BLOCK_SIZE),
    {
        // The image length fits in a `usize`, and so does every position in it.
        let _size = self.image.len();
        let mut reader = BlockReader::new(offset);
        let mut buf: Vec<u8> = vec![0u8; BLK_SIZE];
        while !reader.is_done()
            invariant
                reader.wf(),
                self.wf(),
                reader.origin() == offset,
                offset + BLOCK_SIZE <= self@.len(),
                reader.bytes() == self@.subrange(offset as int, reader.position()),
                buf@.len() == BLK_SIZE,
            decreases BLOCK_SIZE - reader.bytes().len(),
        {
            let id = reader.next_sector();
            let ghost pos = reader.position();
            let ghost len = chunk_len(BLOCK_SIZE - reader.bytes().len(), pos);
            proof {
                lemma_sector_split(pos);
                lemma_sector_fits(pos, self@.len() as int);
            }
            self.read_block(id, buf.as_mut_slice());
            reader.feed(buf.as_slice());
            proof {
                lemma_chunk_of_sector(self@, pos, len);
                assert(reader.bytes() =~= self@.subrange(offset as int, reader.position()));
            }
        }
        reader.into_bytes()
    }

    /// Writes `data` starting at byte `offset`; writing nothing changes
    /// nothing, wherever it is.
    pub fn write_offset(&mut self, offset: usize, data: &[u8])
        requires
            old(self).wf(),
            data@.len() == 0 || offset + data@.len() <= old(self)@.len(),
        ensures
            final(self).wf(),
            data@.len() == 0 ==> final(self)@ == old(self)@,
            data@.len() > 0 ==> final(self)@ == spliced(old(self)@, offset as int, data@),
    {
        if data.len() == 0 {
            return;
        }
        // The image length fits in a `usize`, and so does every position in it.
        let _size = self.image.len();
        let mut writer = BlockWriter::new(offset, vstd::slice::slice_to_vec(data));
        let mut buf: Vec<u8> = vec![0u8; BLK_SIZE];
        while !writer.is_done()
            invariant
                writer.wf(),
                self.wf(),
                writer.origin() == offset,
                writer.payload() == data@,
                offset + data@.len() <= self@.len(),
                self@.len() == old(self)@.len(),
                self@ == spliced(old(self)@, offset as int, data@.subrange(0, writer.placed() as int)),
                buf@.len() == BLK_SIZE,
            decreases data@.len() - writer.placed(),
        {
            let id = writer.next_sector();
            let ghost pos = writer.position();
            let ghost before = self@;
            let ghost w = writer.placed() as int;
            proof {
                lemma_sector_split(pos);
                lemma_sector_fits(pos, self@.len() as int);
            }
            self.read_block(id, buf.as_mut_slice());
            let patched = writer.patch(buf.as_slice());
            self.write_block(id, patched.as_slice());
            proof {
                let len = writer.placed() - w;
                lemma_patch_splices(old(self)@, offset as int, data@, w, len, before, pos);
            }
        }
        assert(data@.subrange(0, data@.len() as int) =~= data@);
    }
}

/// One read-patch-write round of `MemDisk::write_offset` extends the written
/// prefix of the payload by the bytes placed in that round.
proof fn lemma_patch_splices(
    disk: Seq<u8>,
    at: int,
    data: Seq<u8>,
    w: int,
    len: int,
    before: Seq<u8>,
    pos: int,
)
    requires
        0 <= at,
        0 <= w,
        0 < len,
        w + len <= data.len(),
        at + data.len() <= disk.len(),
        pos == at + w,
        len <= 512 - pos % 512,
        (pos / 512) * 512 + 512 <= disk.len(),
        before == spliced(disk, at, data.subrange(0, w)),
    ensures
        spliced(
            before,
            (pos / 512) * 512,
            sector_of(before, pos / 512).subrange(0, pos % 512) + data.subrange(w, w + len)
                + sector_of(before, pos / 512).subrange(pos % 512 + len, 512),
        ) =~= spliced(disk, at, data.subrange(0, w + len)),
{
    lemma_sector_split(pos);
    let base = (pos / 512) * 512;
    let lhs = spliced(
        before,
        base,
        sector_of(before, pos / 512).subrange(0, pos % 512) + data.subrange(w, w + len)
            + sector_of(before, pos / 512).subrange(pos % 512 + len, 512),
    );
    let rhs = spliced(disk, at, data.subrange(0, w + len));
    assert forall|i: int| 0 <= i < disk.len() implies #[trigger] lhs[i] == rhs[i] by {
        if base <= i < base + 512 {
            if i < pos {
            } else if i < pos + len {
            } else {
            }
        }
    }
}

} // verus!
