//! An immutable byte buffer behind a read cursor, with sequential reads and
//! absolute, end-relative and cursor-relative seeks.

use vstd::prelude::*;

verus! {

use std::sync::Arc;

/// An immutable sequence of bytes, either independently owned (and
/// reference-counted for cheap sharing) or referencing static program data.
///
/// The two representations exist only to avoid copying compile-time-constant
/// data; semantically a `Value` is just the byte sequence given by its view.
#[derive(Clone, Debug)]
pub enum Value {
    Vec(Arc<Vec<u8>>),
    Static(&'static [u8]),
}

impl View for Value {
    type V = Seq<u8>;

    open spec fn view(&self) -> Seq<u8> {
        match self {
            Value::Vec(vec) => vec@,
            Value::Static(bytes) => bytes@,
        }
    }
}

impl Value {
    /// The bytes this value stands for, whichever representation holds them.
    pub fn value(&self) -> (bytes: &[u8])
        ensures
            bytes@ == self@,
    {
        match self {
            Value::Vec(vec) => vec.as_slice(),
            Value::Static(bytes) => bytes,
        }
    }

    /// Wraps an owned byte vector.
    pub fn from_vec(bytes: Vec<u8>) -> (v: Value)
        ensures
            v@ == bytes@,
    {
        Value::Vec(Arc::new(bytes))
    }

    /// Wraps a reference to static byte data.
    pub fn from_static(bytes: &'static [u8]) -> (v: Value)
        ensures
            v@ == bytes@,
    {
        Value::Static(bytes)
    }
}

/// Addressing modes for [`ValueReader::seek`]: absolute from the start,
/// relative to the end of the buffer, or relative to the current cursor.
#[derive(Clone, Copy, Debug)]
pub enum SeekFrom {
    Start(u64),
    End(i64),
    Current(i64),
}

/// The single failure mode of [`ValueReader::seek`]: the computed position is
/// negative or not representable in the signed width used for the arithmetic.
#[derive(Clone, Copy, Debug, PartialEq, Eq)]
pub enum SeekError {
    InvalidSeek,
}

/// How many bytes a read delivers from a buffer of length `len` with the
/// cursor at `off`, into room for `cap` bytes: all that remain, capped at
/// `cap`, and none once the cursor is at or past the end.
pub open spec fn read_amount(len: int, off: int, cap: int) -> int {
    if off >= len {
        0
    } else if cap <= len - off {
        cap
    } else {
        len - off
    }
}

/// The bytes such a read delivers: the slice of `data` starting at `off`, of
/// length [`read_amount`].
pub open spec fn read_bytes(data: Seq<u8>, off: int, cap: int) -> Seq<u8> {
    if 0 <= off && off <= data.len() {
        data.subrange(off, off + read_amount(data.len() as int, off, cap))
    } else {
        Seq::empty()
    }
}

/// The absolute position a seek aims at: the given position for `Start`,
/// buffer length plus delta for `End`, cursor plus delta for `Current`.
pub open spec fn seek_target(len: int, off: int, pos: SeekFrom) -> int {
    match pos {
        SeekFrom::Start(p) => p as int,
        SeekFrom::End(d) => len + d,
        SeekFrom::Current(d) => off + d,
    }
}

/// Whether a seek target can be committed: non-negative and representable
/// both in the signed width the arithmetic uses and in the cursor itself.
pub open spec fn seek_in_range(target: int) -> bool {
    0 <= target && target <= i64::MAX as int && target <= usize::MAX as int
}

/// A [`Value`] behind a read cursor: delivers its bytes sequentially and lets
/// the caller reposition the cursor. The buffer never changes after
/// construction; seeking past the end is legal and later reads deliver no
/// bytes there.
pub struct ValueReader {
    value: Value,
    bytes_read: usize,
}

impl ValueReader {
    /// The bytes the reader delivers.
    pub closed spec fn data(self) -> Seq<u8> {
        self.value@
    }

    /// The current cursor position.
    pub closed spec fn offset(self) -> int {
        self.bytes_read as int
    }

    /// The position a seek from the current state aims at.
    pub open spec fn target_of(self, pos: SeekFrom) -> int {
        seek_target(self.data().len() as int, self.offset(), pos)
    }

    /// A fresh reader over `value`, with the cursor at the start.
    pub fn new(value: Value) -> (r: ValueReader)
        ensures
            r.data() == value@,
            r.offset() == 0,
    {
        ValueReader { value, bytes_read: 0 }
    }

    /// Copies up to `buf.len()` bytes, starting at the cursor, into the front
    /// of `buf`; advances the cursor by the number of bytes copied. Delivers
    /// 0 bytes once the cursor is at or past the end of the buffer (the
    /// end-of-stream signal, not an error). Never fails.
    pub fn read(&mut self, buf: &mut [u8]) -> (n: usize)
        ensures
            final(self).data() == old(self).data(),
            n == read_amount(
                old(self).data().len() as int,
                old(self).offset(),
                old(buf)@.len() as int,
            ),
            final(self).offset() == old(self).offset() + n,
            final(buf)@.len() == old(buf)@.len(),
            final(buf)@.subrange(0, n as int) == read_bytes(
                old(self).data(),
                old(self).offset(),
                old(buf)@.len() as int,
            ),
            forall|i: int| n <= i < old(buf)@.len() ==> final(buf)@[i] == old(buf)@[i],
    {
        let data = self.value.value();
        let len = data.len();
        let off = self.bytes_read;
        if off >= len {
            return 0;
        }
        let avail = len - off;
        let n = if buf.len() <= avail {
            buf.len()
        } else {
            avail
        };
        let mut i: usize = 0;
        while i < n
            invariant
                i <= n,
                n == read_amount(data@.len() as int, off as int, old(buf)@.len() as int),
                off + n <= len,
                len == data@.len(),
                buf@.len() == old(buf)@.len(),
                n <= buf@.len(),
                forall|j: int| 0 <= j < i ==> buf@[j] == data@[off + j],
                forall|j: int| i <= j < buf@.len() ==> buf@[j] == old(buf)@[j],
            decreases n - i,
        {
            let b = data[off + i];
            buf[i] = b;
            i += 1;
        }
        self.bytes_read = off + n;
        proof {
            assert(buf@.subrange(0, n as int) =~= read_bytes(
                old(self).data(),
                off as int,
                old(buf)@.len() as int,
            ));
        }
        n
    }

    /// Repositions the cursor. Computes the target as a signed position and
    /// commits it only when it is non-negative and representable; otherwise
    /// fails with [`SeekError::InvalidSeek`] and leaves the cursor alone. The
    /// target is not clamped to the buffer's length: seeking past the end
    /// succeeds, and later reads there deliver no bytes.
    pub fn seek(&mut self, pos: SeekFrom) -> (r: Result<u64, SeekError>)
        ensures
            final(self).data() == old(self).data(),
            seek_in_range(old(self).target_of(pos)) ==> {
                &&& r matches Ok(p)
                &&& p as int == old(self).target_of(pos)
                &&& final(self).offset() == old(self).target_of(pos)
            },
            !seek_in_range(old(self).target_of(pos)) ==> {
                &&& r == Err::<u64, SeekError>(SeekError::InvalidSeek)
                &&& final(self).offset() == old(self).offset()
            },
    {
        let len = self.value.value().len();
        let target: i128 = match pos {
            SeekFrom::Start(p) => p as i128,
            SeekFrom::End(d) => len as i128 + d as i128,
            SeekFrom::Current(d) => self.bytes_read as i128 + d as i128,
        };
        if target < 0 || target > i64::MAX as i128 || target > usize::MAX as i128 {
            Err(SeekError::InvalidSeek)
        } else {
            self.bytes_read = target as usize;
            Ok(target as u64)
        }
    }
}

/// For every buffer `data` and every valid cursor position `o`
/// (`0 <= o <= data.len()`), a read with room for `n` bytes after seeking to
/// `o` delivers exactly the bytes of `data` from `o` to
/// `min(o + n, data.len())`; in particular, a read at the end of the buffer
/// delivers no bytes. Together with the `ensures` of [`ValueReader::seek`]
/// (the cursor lands on the target) and of [`ValueReader::read`] (the bytes
/// delivered are [`read_bytes`] at the cursor), this pins down what any read
/// after a seek returns.
pub proof fn lemma_read_after_seek(data: Seq<u8>, o: int, n: int)
    requires
        0 <= o <= data.len(),
        0 <= n,
    ensures
        read_bytes(data, o, n) == data.subrange(
            o,
            if o + n <= data.len() {
                o + n
            } else {
                data.len() as int
            },
        ),
        read_amount(data.len() as int, o, n) == read_bytes(data, o, n).len(),
        o == data.len() ==> read_bytes(data, o, n) == Seq::<u8>::empty(),
{
    if o == data.len() {
        assert(read_bytes(data, o, n) =~= Seq::<u8>::empty());
    }
}

/// Reading with the cursor at or past the end of the buffer delivers zero
/// bytes, without an error: by the `ensures` of [`ValueReader::read`], the
/// count returned is [`read_amount`], which is zero there, and the bytes
/// delivered are empty.
pub proof fn lemma_read_past_end(data: Seq<u8>, o: int, n: int)
    requires
        o >= data.len(),
        0 <= n,
    ensures
        read_amount(data.len() as int, o, n) == 0,
        read_bytes(data, o, n) == Seq::<u8>::empty(),
{
    if o <= data.len() {
        assert(read_bytes(data, o, n) =~= Seq::<u8>::empty());
    }
}

/// A seek from the start aims at exactly the given position and is always in
/// range for a representable position, even one past the end of the buffer:
/// no clamping. By the `ensures` of [`ValueReader::seek`], such a seek
/// succeeds and sets the cursor to `p`. (A position beyond what the signed
/// seek arithmetic or the cursor can represent is the one excluded case; it
/// fails with `InvalidSeek`.)
pub proof fn lemma_seek_start_succeeds(len: int, off: int, p: u64)
    requires
        p <= i64::MAX as u64,
        p <= usize::MAX as u64,
    ensures
        seek_target(len, off, SeekFrom::Start(p)) == p,
        seek_in_range(seek_target(len, off, SeekFrom::Start(p))),
{
}

/// A cursor-relative seek aims at `off + d` and an end-relative seek at
/// `len + d`; each is out of range exactly when that sum is negative. By the
/// `ensures` of [`ValueReader::seek`], the seek then fails with
/// `InvalidSeek`, and otherwise succeeds and sets the cursor to the sum.
/// (Sums beyond what the signed seek arithmetic or the cursor can represent
/// are excluded here; they fail with the same error.)
pub proof fn lemma_seek_relative(len: int, off: int, d: i64)
    requires
        0 <= off,
        0 <= len,
        off + d <= i64::MAX,
        off + d <= usize::MAX,
        len + d <= i64::MAX,
        len + d <= usize::MAX,
    ensures
        seek_target(len, off, SeekFrom::Current(d)) == off + d,
        seek_target(len, off, SeekFrom::End(d)) == len + d,
        seek_in_range(seek_target(len, off, SeekFrom::Current(d))) <==> off + d >= 0,
        seek_in_range(seek_target(len, off, SeekFrom::End(d))) <==> len + d >= 0,
{
}

} // verus!
