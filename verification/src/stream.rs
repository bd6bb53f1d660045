use vstd::prelude::*;
use crate::error::HeaderError;
use crate::header::helper::{append_bytes, append_zeros, copy_range, zeros};

verus! {

/// Default size of a transfer buffer: 4k bytes.
pub const DEFAULT_BUFFER_SIZE: usize = 4096;

/// A seekable stream of bytes held in memory: the bytes and a cursor.
pub struct Stream {
    /// The bytes of the stream.
    pub data: Vec<u8>,
    /// The cursor, which may stand behind the last byte.
    pub pos: usize,
}

/// 256 to the power of `n`.
pub open spec fn pow256(n: nat) -> nat
    decreases n,
{
    if n == 0 {
        1
    } else {
        256 * pow256((n - 1) as nat)
    }
}

/// The number that the bytes write, most significant byte first.
pub open spec fn be_value(s: Seq<u8>) -> nat
    decreases s.len(),
{
    if s.len() == 0 {
        0
    } else {
        be_value(s.drop_last()) * 256 + s.last() as nat
    }
}

/// The `n` least significant bytes of `v`, most significant byte first.
pub open spec fn be_bytes(v: nat, n: nat) -> Seq<u8>
    decreases n,
{
    if n == 0 {
        Seq::<u8>::empty()
    } else {
        be_bytes(v / 256, (n - 1) as nat).push((v % 256) as u8)
    }
}

/// `n` bytes write a number below the `n`-th power of 256.
pub proof fn lemma_be_value_bound(s: Seq<u8>)
    ensures
        be_value(s) < pow256(s.len()),
    decreases s.len(),
{
    if s.len() > 0 {
        lemma_be_value_bound(s.drop_last());
    }
}

/// A number below the `n`-th power of 256 is read back from its `n` bytes.
pub proof fn lemma_be_round_trip(v: nat, n: nat)
    requires
        v < pow256(n),
    ensures
        be_bytes(v, n).len() == n,
        be_value(be_bytes(v, n)) == v,
    decreases n,
{
    if n > 0 {
        lemma_be_round_trip(v / 256, (n - 1) as nat);
        assert(be_bytes(v, n).drop_last() =~= be_bytes(v / 256, (n - 1) as nat));
    }
}

impl Stream {
    /// The bytes from the cursor to the end.
    pub open spec fn remaining(&self) -> Seq<u8> {
        if self.pos <= self.data@.len() {
            self.data@.skip(self.pos as int)
        } else {
            Seq::<u8>::empty()
        }
    }

    /// A stream over `data` with the cursor at the start.
    pub fn new(data: Vec<u8>) -> (s: Self)
        ensures
            s.data@ == data@,
            s.pos == 0,
    {
        Stream { data, pos: 0 }
    }

    /// The number of bytes in the stream.
    pub fn len(&self) -> (n: usize)
        ensures
            n == self.data@.len(),
    {
        self.data.len()
    }

    /// The position of the cursor.
    pub fn stream_position(&self) -> (p: usize)
        ensures
            p == self.pos,
    {
        self.pos
    }

    /// Moves the cursor to `pos`.
    pub fn seek(&mut self, pos: usize)
        ensures
            final(self).data == old(self).data,
            final(self).pos == pos,
    {
        self.pos = pos;
    }

    /// The number of bytes from the cursor to the end.
    pub fn available(&self) -> (n: usize)
        ensures
            n == self.remaining().len(),
    {
        if self.pos <= self.data.len() {
            self.data.len() - self.pos
        } else {
            0
        }
    }

    /// Reads up to 512 bytes into a block, which is filled up with zeros, and
    /// returns the block and how many bytes were read.
    pub fn read(&mut self) -> (r: ([u8; 512], usize))
        ensures
            final(self).data == old(self).data,
            r.1 == (if old(self).remaining().len() < 512 {
                old(self).remaining().len()
            } else {
                512
            }),
            final(self).pos == old(self).pos + r.1,
            r.0@ == old(self).remaining().take(r.1 as int) + zeros(512 - r.1),
    {
        let avail: usize = self.available();
        let len: usize = self.data.len();
        let count: usize = if avail < 512 { avail } else { 512 };
        let mut block = [0u8; 512];
        let mut i: usize = 0;
        while i < count
            invariant
                i <= count <= 512,
                count <= self.remaining().len(),
                count > 0 ==> self.pos + count <= self.data@.len(),
                len == self.data@.len(),
                block@.len() == 512,
                forall|j: int| 0 <= j < i ==> block@[j] == self.data@[self.pos + j],
                forall|j: int| i <= j < 512 ==> block@[j] == 0,
            decreases count - i,
        {
            block[i] = self.data[self.pos + i];
            i += 1;
        }
        assert(block@ =~= self.remaining().take(count as int) + zeros(512 - count));
        self.pos = self.pos + count;
        (block, count)
    }

    /// Reads one whole block of 512 bytes. Where fewer are left, nothing is
    /// read.
    pub fn read_block(&mut self) -> (r: Result<[u8; 512], HeaderError>)
        ensures
            final(self).data == old(self).data,
            match r {
                Ok(block) => old(self).remaining().len() >= 512 && block@ == old(
                    self,
                ).remaining().take(512) && final(self).pos == old(self).pos + 512,
                Err(e) => old(self).remaining().len() < 512 && e == HeaderError::ShortRead
                    && final(self).pos == old(self).pos,
            },
    {
        if self.available() < 512 {
            return Err(HeaderError::ShortRead);
        }
        let (block, count) = self.read();
        assert(block@ =~= old(self).remaining().take(512));
        Ok(block)
    }

    /// Reads `count` bytes. Where fewer are left, nothing is read.
    pub fn read_bytes(&mut self, count: usize) -> (r: Result<Vec<u8>, HeaderError>)
        ensures
            final(self).data == old(self).data,
            match r {
                Ok(bytes) => old(self).remaining().len() >= count && bytes@ == old(
                    self,
                ).remaining().take(count as int) && final(self).pos == old(self).pos + count,
                Err(e) => old(self).remaining().len() < count && e == HeaderError::ShortRead
                    && final(self).pos == old(self).pos,
            },
    {
        if self.available() < count {
            return Err(HeaderError::ShortRead);
        }
        let len: usize = self.data.len();
        if count == 0 {
            let bytes: Vec<u8> = Vec::new();
            assert(bytes@ =~= self.remaining().take(0));
            return Ok(bytes);
        }
        let bytes = copy_range(self.data.as_slice(), self.pos, self.pos + count);
        assert(bytes@ =~= self.remaining().take(count as int));
        self.pos = self.pos + count;
        Ok(bytes)
    }
}

/// What a write of `bytes` at `pos` makes of `data`: a gap between the end
/// and `pos` is filled with zeros, the bytes replace what stood there, and
/// what stood behind them stays.
pub open spec fn written(data: Seq<u8>, pos: int, bytes: Seq<u8>) -> Seq<u8> {
    let head = if pos <= data.len() {
        data.take(pos)
    } else {
        data + zeros(pos - data.len())
    };
    let tail = if pos + bytes.len() < data.len() {
        data.skip(pos + bytes.len())
    } else {
        Seq::<u8>::empty()
    };
    head + bytes + tail
}

/// What was written is read back from its place, and every byte before and
/// behind it is left as it was.
pub proof fn lemma_written_read_back(data: Seq<u8>, pos: int, bytes: Seq<u8>)
    requires
        0 <= pos,
    ensures
        written(data, pos, bytes).len() == (if pos + bytes.len() < data.len() {
            data.len() as int
        } else {
            pos + bytes.len()
        }),
        written(data, pos, bytes).subrange(pos, pos + bytes.len()) == bytes,
        forall|i: int|
            0 <= i < data.len() && (i < pos || i >= pos + bytes.len()) ==> written(
                data,
                pos,
                bytes,
            )[i] == data[i],
{
    let after = written(data, pos, bytes);
    assert(after.subrange(pos, pos + bytes.len()) =~= bytes);
}

impl Stream {
    /// Writes `bytes` at the cursor and moves the cursor behind them.
    pub fn write_all(&mut self, bytes: &[u8])
        requires
            old(self).pos + bytes@.len() <= usize::MAX,
        ensures
            final(self).data@ == written(old(self).data@, old(self).pos as int, bytes@),
            final(self).pos == old(self).pos + bytes@.len(),
    {
        let len: usize = self.data.len();
        let count: usize = bytes.len();
        let end: usize = self.pos + count;
        let mut out: Vec<u8> = if self.pos <= len {
            copy_range(self.data.as_slice(), 0, self.pos)
        } else {
            let mut head = copy_range(self.data.as_slice(), 0, len);
            append_zeros(&mut head, self.pos - len);
            assert(self.data@.subrange(0, len as int) =~= self.data@);
            head
        };
        append_bytes(&mut out, bytes);
        if end < len {
            let tail = copy_range(self.data.as_slice(), end, len);
            append_bytes(&mut out, tail.as_slice());
        }
        assert(out@ =~= written(self.data@, self.pos as int, bytes@));
        self.data = out;
        self.pos = end;
    }
}

/// The number of zero bytes that fill `len` bytes up to whole blocks.
pub open spec fn block_padding(len: nat) -> nat {
    ((512 - len % 512) % 512) as nat
}

/// The number of bytes that a payload of `size` bytes takes in the stream:
/// whole blocks.
pub open spec fn padded_len(size: nat) -> nat {
    (512 * ((size + 511) / 512)) as nat
}

impl Stream {
    /// Reads a payload of `size` bytes that stands in whole blocks, and moves
    /// the cursor behind its last block. Where the blocks are not all there,
    /// nothing is read.
    pub fn read_padded(&mut self, size: u64) -> (r: Result<Vec<u8>, HeaderError>)
        ensures
            final(self).data == old(self).data,
            match r {
                Ok(bytes) => old(self).remaining().len() >= padded_len(size as nat) && bytes@
                    == old(self).remaining().take(size as int) && final(self).pos == old(self).pos
                    + padded_len(size as nat) && final(self).remaining() == old(
                    self,
                ).remaining().skip(padded_len(size as nat) as int),
                Err(e) => old(self).remaining().len() < padded_len(size as nat) && e
                    == HeaderError::ShortRead && final(self).pos == old(self).pos,
            },
    {
        let avail: usize = self.available();
        if size > avail as u64 {
            return Err(HeaderError::ShortRead);
        }
        let count: usize = size as usize;
        let rest: usize = count % 512;
        let padding: usize = if rest == 0 { 0 } else { 512 - rest };
        if avail - count < padding {
            return Err(HeaderError::ShortRead);
        }
        assert(count + padding == padded_len(size as nat));
        let data = match self.read_bytes(count) {
            Ok(data) => data,
            Err(e) => {
                return Err(e);
            },
        };
        assert(self.remaining() =~= old(self).remaining().skip(count as int));
        match self.read_bytes(padding) {
            Ok(_) => {},
            Err(e) => {
                return Err(e);
            },
        }
        assert(self.remaining() =~= old(self).remaining().skip(count + padding));
        Ok(data)
    }
}

/// Reads one byte.
pub fn read_u8(reader: &mut Stream) -> (r: Result<u8, HeaderError>)
    ensures
        final(reader).data == old(reader).data,
        match r {
            Ok(v) => old(reader).remaining().len() >= 1 && v == old(reader).remaining()[0]
                && final(reader).pos == old(reader).pos + 1,
            Err(e) => old(reader).remaining().len() < 1 && e == HeaderError::ShortRead
                && final(reader).pos == old(reader).pos,
        },
{
    match reader.read_bytes(1) {
        Ok(bytes) => Ok(bytes[0]),
        Err(e) => Err(e),
    }
}

/// Appends one byte.
pub fn write_u8(writer: &mut Vec<u8>, value: u8)
    ensures
        final(writer)@ == old(writer)@.push(value),
{
    writer.push(value);
}

/// Reads a 64-bit number of 8 bytes, most significant byte first.
pub fn read_u64(reader: &mut Stream) -> (r: Result<u64, HeaderError>)
    ensures
        final(reader).data == old(reader).data,
        match r {
            Ok(v) => old(reader).remaining().len() >= 8 && v == be_value(
                old(reader).remaining().take(8),
            ) && final(reader).pos == old(reader).pos + 8,
            Err(e) => old(reader).remaining().len() < 8 && e == HeaderError::ShortRead
                && final(reader).pos == old(reader).pos,
        },
{
    match reader.read_bytes(8) {
        Ok(bytes) => {
            let mut value: u64 = 0;
            let mut i: usize = 0;
            while i < 8
                invariant
                    i <= 8,
                    bytes@.len() == 8,
                    value == be_value(bytes@.take(i as int)),
                decreases 8 - i,
            {
                proof {
                    lemma_be_value_bound(bytes@.take(i as int));
                    reveal_with_fuel(pow256, 9);
                    assert(bytes@.take(i + 1).drop_last() =~= bytes@.take(i as int));
                }
                value = value * 256 + bytes[i] as u64;
                i += 1;
            }
            assert(bytes@.take(8) =~= bytes@);
            Ok(value)
        },
        Err(e) => Err(e),
    }
}

/// The `count` least significant bytes of `value`, most significant first.
fn be_bytes_of(value: u64, count: usize) -> (bytes: Vec<u8>)
    ensures
        bytes@ == be_bytes(value as nat, count as nat),
    decreases count,
{
    if count == 0 {
        Vec::new()
    } else {
        let mut bytes = be_bytes_of(value / 256, count - 1);
        bytes.push((value % 256) as u8);
        bytes
    }
}

/// Appends a 64-bit number as 8 bytes, most significant byte first.
pub fn write_u64(writer: &mut Vec<u8>, value: u64)
    ensures
        final(writer)@ == old(writer)@ + be_bytes(value as nat, 8),
{
    let bytes = be_bytes_of(value, 8);
    append_bytes(writer, bytes.as_slice());
}

/// A 64-bit number is read back from the 8 bytes written for it.
pub proof fn lemma_u64_round_trip(value: u64)
    ensures
        be_bytes(value as nat, 8).len() == 8,
        be_value(be_bytes(value as nat, 8)) == value,
{
    reveal_with_fuel(pow256, 9);
    lemma_be_round_trip(value as nat, 8);
}

} // verus!
