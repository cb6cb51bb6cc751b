//! In-memory positional and streaming byte I/O.
//!
//! The object reader consumes a module file as one captured byte buffer;
//! [`MemFile`] is that buffer with the byte-level semantics of positional
//! reads and writes: a vectored read at an offset fills the given buffers in
//! order from the underlying bytes, and a vectored write at an offset
//! replaces a range, zero-filling any gap and extending the file as needed.
//! [`Fifo`] is a first-in-first-out byte stream: what is written is read
//! back in order, decoded as UTF-8 on demand.
//!
//! The actual file descriptors and pipes live outside the library; these
//! types state exactly what the data movement does.

use crate::bytes::copy_range;
use crate::wtf8::vec_into_string;
use vstd::prelude::*;
use vstd::string::StrSliceExecFns;
use vstd::string::StringExecFns;
use vstd::utf8::decode_utf8;
use vstd::utf8::valid_utf8;

verus! {

/// The smaller of two integers.
pub open spec fn spec_min(a: int, b: int) -> int {
    if a < b {
        a
    } else {
        b
    }
}

/// The total length of the first `k` buffers.
pub open spec fn total_len(bufs: Seq<Seq<u8>>, k: int) -> int
    decreases k,
    when k >= 0
{
    if k <= 0 {
        0
    } else {
        total_len(bufs, k - 1) + bufs[k - 1].len()
    }
}

/// The concatenation of the first `k` buffers.
pub open spec fn concat_bufs(bufs: Seq<Seq<u8>>, k: int) -> Seq<u8>
    decreases k,
    when k >= 0
{
    if k <= 0 {
        Seq::empty()
    } else {
        concat_bufs(bufs, k - 1) + bufs[k - 1]
    }
}

/// The bytes a positional read of `len` bytes at `offset` yields: up to
/// `len` bytes starting at `offset`, empty at or past the end of the data.
pub open spec fn spec_read_chunk(data: Seq<u8>, offset: int, len: int) -> Seq<u8> {
    if offset < 0 || offset >= data.len() || len < 0 {
        Seq::empty()
    } else {
        data.subrange(offset, spec_min(data.len() as int, offset + len))
    }
}

/// The data after a positional write of `payload` at `offset`: the range is
/// replaced, a gap past the old end is zero-filled, and the data grows as
/// needed.
pub open spec fn spec_write_at(data: Seq<u8>, offset: int, payload: Seq<u8>) -> Seq<u8>
    recommends
        offset >= 0,
{
    if offset > data.len() {
        data + Seq::new((offset - data.len()) as nat, |j: int| 0u8) + payload
    } else if offset + payload.len() < data.len() {
        data.take(offset) + payload + data.skip(offset + payload.len())
    } else {
        data.take(offset) + payload
    }
}

/// The buffer views of a vector of byte buffers.
pub open spec fn buf_views(bufs: Seq<Vec<u8>>) -> Seq<Seq<u8>> {
    bufs.map_values(|b: Vec<u8>| b@)
}

/// An in-memory file image.
pub struct MemFile {
    /// The file's bytes.
    pub data: Vec<u8>,
}

impl MemFile {
    /// A file holding the given bytes.
    pub fn new(data: Vec<u8>) -> (r: MemFile)
        ensures
            r.data@ == data@,
    {
        MemFile { data }
    }

    /// The whole contents.
    pub fn read(&self) -> (r: Vec<u8>)
        ensures
            r@ == self.data@,
    {
        let len = self.data.len();
        copy_range(self.data.as_slice(), 0, len)
    }

    /// Read at `offset` into the given buffers in order: each buffer's
    /// leading bytes are overwritten by the next bytes of the file, its
    /// tail is untouched, and reading stops at the end of the file.
    /// Returns how many bytes were read.
    pub fn read_vectored_at(&self, bufs: &mut Vec<Vec<u8>>, offset: usize) -> (n: usize)
        ensures
            final(bufs)@.len() == old(bufs)@.len(),
            forall|k: int|
                0 <= k < old(bufs)@.len() ==> (#[trigger] final(bufs)@[k])@ == spec_read_chunk(
                    self.data@,
                    offset + total_len(buf_views(old(bufs)@), k),
                    old(bufs)@[k]@.len() as int,
                ) + old(bufs)@[k]@.skip(
                    spec_read_chunk(
                        self.data@,
                        offset + total_len(buf_views(old(bufs)@), k),
                        old(bufs)@[k]@.len() as int,
                    ).len() as int,
                ),
            n == spec_min(
                offset + total_len(buf_views(old(bufs)@), old(bufs)@.len() as int),
                self.data@.len() as int,
            ) - spec_min(offset as int, self.data@.len() as int),
    {
        let file_len = self.data.len();
        let nbufs = bufs.len();
        let mut pos: usize = if offset > file_len {
            file_len
        } else {
            offset
        };
        let start = pos;
        let mut k: usize = 0;
        while k < nbufs
            invariant
                k <= nbufs,
                nbufs == bufs@.len(),
                bufs@.len() == old(bufs)@.len(),
                file_len == self.data@.len(),
                start == spec_min(offset as int, file_len as int),
                start <= pos <= file_len,
                pos == spec_min(
                    offset + total_len(buf_views(old(bufs)@), k as int),
                    file_len as int,
                ),
                forall|j: int| k <= j < nbufs ==> (#[trigger] bufs@[j])@ == old(bufs)@[j]@,
                forall|j: int|
                    0 <= j < k ==> (#[trigger] bufs@[j])@ == spec_read_chunk(
                        self.data@,
                        offset + total_len(buf_views(old(bufs)@), j),
                        old(bufs)@[j]@.len() as int,
                    ) + old(bufs)@[j]@.skip(
                        spec_read_chunk(
                            self.data@,
                            offset + total_len(buf_views(old(bufs)@), j),
                            old(bufs)@[j]@.len() as int,
                        ).len() as int,
                    ),
            decreases nbufs - k,
        {
            let ghost gk = k as int;
            let blen = bufs[k].len();
            let avail = file_len - pos;
            let c = if blen < avail {
                blen
            } else {
                avail
            };
            let mut nb = copy_range(self.data.as_slice(), pos, pos + c);
            let mut j = c;
            while j < blen
                invariant
                    c <= j <= blen,
                    k == gk,
                    0 <= gk < bufs@.len(),
                    blen == bufs@[gk]@.len(),
                    pos + c <= self.data@.len(),
                    nb@ == self.data@.subrange(pos as int, pos + c) + bufs@[gk]@.subrange(
                        c as int,
                        j as int,
                    ),
                decreases blen - j,
            {
                let b = bufs[k][j];
                nb.push(b);
                proof {
                    assert(nb@ =~= self.data@.subrange(pos as int, pos + c) + bufs@[gk]@.subrange(
                        c as int,
                        j + 1,
                    ));
                }
                j = j + 1;
            }
            proof {
                assert(bufs@[gk]@.subrange(c as int, blen as int) =~= bufs@[gk]@.skip(c as int));
            }
            bufs.set(k, nb);
            let ghost ch = spec_read_chunk(
                self.data@,
                offset + total_len(buf_views(old(bufs)@), gk),
                old(bufs)@[gk]@.len() as int,
            );
            proof {
                assert(buf_views(old(bufs)@)[gk] == old(bufs)@[gk]@);
                if pos < file_len {
                    assert(ch =~= self.data@.subrange(pos as int, pos + c));
                } else {
                    assert(ch =~= Seq::<u8>::empty());
                    assert(ch =~= self.data@.subrange(pos as int, pos + c));
                }
                assert(ch.len() == c);
                assert(bufs@[gk]@ =~= ch + old(bufs)@[gk]@.skip(c as int));
            }
            pos = pos + c;
            k = k + 1;
        }
        pos - start
    }

    /// Write the given buffers at `offset`, in order: the addressed range
    /// is replaced, a gap past the old end is zero-filled, and the file
    /// grows as needed.  Returns how many bytes were written — always the
    /// whole payload.
    pub fn write_vectored_at(&mut self, bufs: &Vec<Vec<u8>>, offset: usize) -> (n: usize)
        requires
            offset + total_len(buf_views(bufs@), bufs@.len() as int) <= usize::MAX,
            old(self).data@.len() <= usize::MAX - total_len(buf_views(bufs@), bufs@.len() as int),
        ensures
            final(self).data@ == spec_write_at(
                old(self).data@,
                offset as int,
                concat_bufs(buf_views(bufs@), bufs@.len() as int),
            ),
            n == total_len(buf_views(bufs@), bufs@.len() as int),
    {
        let file_len = self.data.len();
        let head_end = if offset > file_len {
            file_len
        } else {
            offset
        };
        let mut out = copy_range(self.data.as_slice(), 0, head_end);
        while out.len() < offset
            invariant
                head_end <= out@.len() <= spec_min(offset as int, 0) + offset,
                out@.len() >= head_end,
                out@ == old(self).data@.subrange(0, head_end as int) + Seq::new(
                    (out@.len() - head_end) as nat,
                    |j: int| 0u8,
                ),
                out@.len() <= offset,
            decreases offset - out@.len(),
        {
            out.push(0u8);
            proof {
                assert(out@ =~= old(self).data@.subrange(0, head_end as int) + Seq::new(
                    (out@.len() - head_end) as nat,
                    |j: int| 0u8,
                ));
            }
        }
        let nbufs = bufs.len();
        let mut total: usize = 0;
        let mut k: usize = 0;
        while k < nbufs
            invariant
                k <= nbufs,
                nbufs == bufs@.len(),
                total == total_len(buf_views(bufs@), k as int),
                total <= usize::MAX - offset,
                out@ == old(self).data@.subrange(0, head_end as int) + Seq::new(
                    (offset - head_end) as nat,
                    |j: int| 0u8,
                ) + concat_bufs(buf_views(bufs@), k as int),
                head_end == spec_min(offset as int, old(self).data@.len() as int),
                offset + total_len(buf_views(bufs@), nbufs as int) <= usize::MAX,
            decreases nbufs - k,
        {
            let ghost gk = k as int;
            let b = &bufs[k];
            proof {
                assert(buf_views(bufs@)[gk] == bufs@[gk]@);
                assert(total_len(buf_views(bufs@), gk + 1) == total_len(buf_views(bufs@), gk)
                    + bufs@[gk]@.len());
                lemma_total_len_mono(buf_views(bufs@), gk + 1, nbufs as int);
            }
            let ghost pre = out@;
            out.extend_from_slice(b.as_slice());
            proof {
                assert(out@ =~= pre + bufs@[gk]@);
                assert(concat_bufs(buf_views(bufs@), gk + 1) =~= concat_bufs(buf_views(bufs@), gk)
                    + bufs@[gk]@);
                assert(out@ =~= old(self).data@.subrange(0, head_end as int) + Seq::new(
                    (offset - head_end) as nat,
                    |j: int| 0u8,
                ) + concat_bufs(buf_views(bufs@), gk + 1));
            }
            total = total + b.len();
            k = k + 1;
        }
        let end = if offset > file_len {
            // the write began past the old end; nothing of the old tail survives
            file_len
        } else if total > file_len - offset {
            file_len
        } else {
            offset + total
        };
        let mut j = end;
        while j < file_len
            invariant
                end <= j <= file_len,
                file_len == old(self).data@.len(),
                out@ == old(self).data@.subrange(0, head_end as int) + Seq::new(
                    (offset - head_end) as nat,
                    |jj: int| 0u8,
                ) + concat_bufs(buf_views(bufs@), nbufs as int) + old(self).data@.subrange(
                    end as int,
                    j as int,
                ),
            decreases file_len - j,
        {
            let b = self.data[j];
            out.push(b);
            proof {
                assert(out@ =~= old(self).data@.subrange(0, head_end as int) + Seq::new(
                    (offset - head_end) as nat,
                    |jj: int| 0u8,
                ) + concat_bufs(buf_views(bufs@), nbufs as int) + old(self).data@.subrange(
                    end as int,
                    j + 1,
                ));
            }
            j = j + 1;
        }
        self.data = out;
        proof {
            let data0 = old(self).data@;
            let payload = concat_bufs(buf_views(bufs@), nbufs as int);
            lemma_concat_len(buf_views(bufs@), nbufs as int);
            if offset > data0.len() {
                assert(self.data@ =~= spec_write_at(data0, offset as int, payload));
            } else if offset + payload.len() < data0.len() {
                assert(self.data@ =~= spec_write_at(data0, offset as int, payload));
            } else {
                assert(self.data@ =~= spec_write_at(data0, offset as int, payload));
            }
        }
        total
    }
}

/// The total length of a prefix of buffers never exceeds that of a longer
/// prefix.
pub proof fn lemma_total_len_mono(bufs: Seq<Seq<u8>>, k1: int, k2: int)
    requires
        0 <= k1 <= k2,
    ensures
        total_len(bufs, k1) <= total_len(bufs, k2),
    decreases k2 - k1,
{
    if k1 < k2 {
        lemma_total_len_mono(bufs, k1, k2 - 1);
    }
}

/// The concatenation of the first `k` buffers has exactly their total
/// length.
pub proof fn lemma_concat_len(bufs: Seq<Seq<u8>>, k: int)
    requires
        k >= 0,
    ensures
        concat_bufs(bufs, k).len() == total_len(bufs, k),
    decreases k,
{
    if k > 0 {
        lemma_concat_len(bufs, k - 1);
    }
}

/// A first-in-first-out byte stream: what one end writes, the other reads
/// back in order.
pub struct Fifo {
    /// The bytes written and not yet read.
    pub pending: Vec<u8>,
}

/// A fresh, empty stream.
pub fn mkfifo() -> (r: Fifo)
    ensures
        r.pending@ == Seq::<u8>::empty(),
{
    Fifo { pending: Vec::new() }
}

impl Fifo {
    /// Write all the given bytes to the stream.
    pub fn write_all(&mut self, bytes: &[u8])
        ensures
            final(self).pending@ == old(self).pending@ + bytes@,
    {
        let ghost pre = self.pending@;
        self.pending.extend_from_slice(bytes);
        proof {
            assert(self.pending@ =~= pre + bytes@);
        }
    }

    /// Read everything written so far into the string: when the pending
    /// bytes are valid UTF-8 their decoding is appended to `s`, the stream
    /// drains, and the byte count comes back; otherwise nothing changes and
    /// the read is refused.
    pub fn read_to_string(&mut self, s: &mut String) -> (r: Option<usize>)
        ensures
            valid_utf8(old(self).pending@) ==> {
                &&& r == Some(old(self).pending@.len() as usize)
                &&& final(s)@ == old(s)@ + decode_utf8(old(self).pending@)
                &&& final(self).pending@ == Seq::<u8>::empty()
            },
            !valid_utf8(old(self).pending@) ==> {
                &&& r is None
                &&& final(self).pending@ == old(self).pending@
                &&& final(s)@ == old(s)@
            },
    {
        let len = self.pending.len();
        let taken = copy_range(self.pending.as_slice(), 0, len);
        proof {
            assert(taken@ =~= self.pending@);
        }
        match vec_into_string(taken) {
            Ok(st) => {
                s.append(st.as_str());
                self.pending.clear();
                Some(len)
            },
            Err(_) => None,
        }
    }
}

} // verus!
