//! Block-aligned reading of a DVD title set and a read-ahead cache: the
//! bookkeeping of where the next read comes from and what it returns.

use vstd::prelude::*;
use crate::bytes::StreamError;
use crate::pack::SECTOR_SIZE;

verus! {

/// Bytes the read-ahead cache holds: twelve sectors.
pub const CACHE_SIZE: usize = 2048 * 12;

/// A read-ahead cache in front of a seekable reader `A`. The cache holds
/// `buffer_len` bytes read at `buffer_pos`; `current_pos` is where the
/// next read starts.
pub struct CacheSeekReader<A> {
    pub inner: A,
    buffer: Vec<u8>,
    buffer_pos: u64,
    buffer_len: usize,
    current_pos: u64,
}

/// What a read finds in the cache.
#[derive(Debug, Clone, Copy, PartialEq, Eq)]
pub enum CacheRead {
    /// So many bytes were copied from the cache.
    Served(usize),
    /// The position is not cached: refill at `current_pos`, then read again.
    Miss,
}

impl<A> CacheSeekReader<A> {
    pub closed spec fn spec_inner(&self) -> A {
        self.inner
    }

    pub closed spec fn spec_pos(&self) -> u64 {
        self.current_pos
    }

    pub closed spec fn spec_buffer_pos(&self) -> u64 {
        self.buffer_pos
    }

    pub closed spec fn spec_buffer_len(&self) -> int {
        self.buffer_len as int
    }

    /// The cached bytes.
    pub closed spec fn cached(&self) -> Seq<u8> {
        self.buffer@.subrange(0, self.buffer_len as int)
    }

    /// The cache's own invariant: its buffer has `CACHE_SIZE` bytes, of
    /// which `buffer_len` are valid.
    pub closed spec fn wf(&self) -> bool {
        &&& self.buffer@.len() == CACHE_SIZE
        &&& self.buffer_len <= CACHE_SIZE
    }

    /// The cache agrees with `content`, the bytes of the inner reader.
    pub open spec fn consistent(&self, content: Seq<u8>) -> bool {
        &&& self.spec_buffer_pos() + self.spec_buffer_len() <= content.len()
        &&& self.cached() == content.subrange(
            self.spec_buffer_pos() as int,
            self.spec_buffer_pos() + self.spec_buffer_len(),
        )
    }

    /// An empty cache in front of `inner`, at position 0.
    pub fn new(inner: A) -> (r: CacheSeekReader<A>)
        ensures
            r.wf(),
            r.spec_inner() == inner,
            r.spec_pos() == 0,
            r.spec_buffer_pos() == u64::MAX,
            r.spec_buffer_len() == 0,
    {
        CacheSeekReader { inner, buffer: vec![0u8; CACHE_SIZE], buffer_pos: u64::MAX, buffer_len: 0, current_pos: 0 }
    }

    /// The current position.
    pub fn position(&self) -> (r: u64)
        ensures
            r == self.spec_pos(),
    {
        self.current_pos
    }

    /// The position lies in the cache's span.
    pub open spec fn inside(&self) -> bool {
        self.spec_pos() >= self.spec_buffer_pos() && self.spec_pos() < self.spec_buffer_pos() + CACHE_SIZE
    }

    /// A read can be served or refused by the cache: a position in its
    /// span lies within its valid bytes, and the span ends within `u64`.
    pub open spec fn read_ok(&self) -> bool {
        self.inside() ==> self.spec_buffer_pos() + CACHE_SIZE <= u64::MAX
            && self.spec_buffer_len() >= self.spec_pos() - self.spec_buffer_pos()
    }

    /// Whether `read_cached` can be asked, as `read_ok` says.
    pub fn can_read_cached(&self) -> (r: bool)
        requires
            self.wf(),
        ensures
            r == self.read_ok(),
    {
        if !(self.current_pos >= self.buffer_pos) {
            return true;
        }
        if self.buffer_pos > u64::MAX - CACHE_SIZE as u64 {
            return false;
        }
        if !(self.current_pos < self.buffer_pos + CACHE_SIZE as u64) {
            return true;
        }
        let off = (self.current_pos - self.buffer_pos) as usize;
        self.buffer_len >= off
    }

    /// Serves a read from the cache when the position lies in it: as many
    /// bytes as `buf` takes, the cache holds after the position, and are
    /// valid. Elsewhere the read is a `Miss`.
    pub fn read_cached(&mut self, buf: &mut [u8]) -> (r: CacheRead)
        requires
            old(self).wf(),
            old(self).read_ok(),
        ensures
            final(self).wf(),
            final(self).spec_inner() == old(self).spec_inner(),
            final(self).spec_buffer_pos() == old(self).spec_buffer_pos(),
            final(self).spec_buffer_len() == old(self).spec_buffer_len(),
            final(self).cached() == old(self).cached(),
            final(buf)@.len() == old(buf)@.len(),
            !old(self).inside() ==> r == CacheRead::Miss && final(self).spec_pos() == old(self).spec_pos()
                && final(buf)@ == old(buf)@,
            old(self).inside() ==> ({
                let cur = old(self).spec_pos() as int;
                let off = cur - old(self).spec_buffer_pos();
                let n = vstd::math::min(old(buf)@.len() as int, old(self).spec_buffer_len() - off);
                &&& r == CacheRead::Served(n as usize)
                &&& final(buf)@.subrange(0, n) == old(self).cached().subrange(off, off + n)
                &&& final(buf)@.subrange(n, final(buf)@.len() as int) == old(buf)@.subrange(n, old(buf)@.len() as int)
                &&& final(self).spec_pos() == cur + n
            }),
    {
        if !(self.current_pos >= self.buffer_pos) {
            return CacheRead::Miss;
        }
        if !(self.current_pos < self.buffer_pos + CACHE_SIZE as u64) {
            return CacheRead::Miss;
        }
        let off = (self.current_pos - self.buffer_pos) as usize;
        let left = CACHE_SIZE - off;
        let mut n = if left < buf.len() { left } else { buf.len() };
        if self.buffer_len - off < n {
            n = self.buffer_len - off;
        }
        let ghost b0 = buf@;
        let mut i: usize = 0;
        while i < n
            invariant
                self.wf(),
                i <= n,
                off + n <= self.buffer_len,
                n <= b0.len(),
                buf@.len() == b0.len(),
                forall|t: int| 0 <= t < i ==> buf@[t] == self.buffer@[off + t],
                forall|t: int| n <= t < b0.len() ==> buf@[t] == b0[t],
            decreases n - i,
        {
            buf[i] = self.buffer[off + i];
            i = i + 1;
        }
        self.current_pos = self.current_pos + n as u64;
        proof {
            assert(buf@.subrange(0, n as int) =~= self.cached().subrange(off as int, off + n));
            assert(buf@.subrange(n as int, buf@.len() as int) =~= b0.subrange(n as int, b0.len() as int));
        }
        CacheRead::Served(n)
    }

    /// Replaces the cache with `data`, read from the inner reader at the
    /// current position (at most `CACHE_SIZE` bytes are kept).
    pub fn refill(&mut self, data: &[u8])
        requires
            old(self).wf(),
        ensures
            final(self).wf(),
            final(self).spec_inner() == old(self).spec_inner(),
            final(self).spec_pos() == old(self).spec_pos(),
            final(self).spec_buffer_pos() == old(self).spec_pos(),
            final(self).spec_buffer_len() == vstd::math::min(data@.len() as int, CACHE_SIZE as int),
            final(self).cached() == data@.subrange(0, final(self).spec_buffer_len()),
    {
        let n = if data.len() < CACHE_SIZE { data.len() } else { CACHE_SIZE };
        let mut i: usize = 0;
        while i < n
            invariant
                i <= n <= CACHE_SIZE,
                n <= data@.len(),
                self.buffer@.len() == CACHE_SIZE,
                self.buffer_len <= CACHE_SIZE,
                self.current_pos == old(self).current_pos,
                self.inner == old(self).inner,
                forall|t: int| 0 <= t < i ==> self.buffer@[t] == data@[t],
            decreases n - i,
        {
            self.buffer.set(i, data[i]);
            i = i + 1;
        }
        self.buffer_len = n;
        self.buffer_pos = self.current_pos;
        assert(self.cached() =~= data@.subrange(0, n as int));
    }

    /// Answers a read that missed the cache: `data` is what one read of the
    /// inner reader at the current position gave (into a `CACHE_SIZE`
    /// buffer). The cache is refilled with it and the read is served from
    /// it: the first bytes of `data`, as many as `buf` and `data` hold.
    pub fn fill_and_read(&mut self, data: &[u8], buf: &mut [u8]) -> (r: usize)
        requires
            old(self).wf(),
            old(self).spec_pos() + CACHE_SIZE <= u64::MAX,
        ensures
            final(self).wf(),
            final(self).spec_inner() == old(self).spec_inner(),
            final(self).spec_buffer_pos() == old(self).spec_pos(),
            final(self).spec_buffer_len() == vstd::math::min(data@.len() as int, CACHE_SIZE as int),
            final(self).cached() == data@.subrange(0, final(self).spec_buffer_len()),
            r == vstd::math::min(old(buf)@.len() as int, vstd::math::min(data@.len() as int, CACHE_SIZE as int)),
            final(self).spec_pos() == old(self).spec_pos() + r,
            final(buf)@.len() == old(buf)@.len(),
            final(buf)@.subrange(0, r as int) == data@.subrange(0, r as int),
            final(buf)@.subrange(r as int, final(buf)@.len() as int) == old(buf)@.subrange(r as int, old(buf)@.len() as int),
    {
        self.refill(data);
        proof {
            lemma_refill_serves_next_read(*self, data@, buf@.len() as int);
        }
        match self.read_cached(buf) {
            CacheRead::Served(n) => n,
            CacheRead::Miss => 0,
        }
    }

    /// Moves to absolute position `e`.
    pub fn seek_start(&mut self, e: u64) -> (r: u64)
        requires
            old(self).wf(),
        ensures
            final(self).wf(),
            final(self).spec_inner() == old(self).spec_inner(),
            final(self).spec_buffer_pos() == old(self).spec_buffer_pos(),
            final(self).spec_buffer_len() == old(self).spec_buffer_len(),
            final(self).cached() == old(self).cached(),
            final(self).spec_pos() == e,
            r == e,
    {
        self.current_pos = e;
        e
    }

    /// Moves by `e` bytes, with the position read as an `i64` (the sum
    /// must stay in `i64`); a negative sum wraps to the `u64` with the same
    /// bits.
    pub fn seek_current(&mut self, e: i64) -> (r: u64)
        requires
            old(self).wf(),
            seek_fits(old(self).spec_pos(), e),
        ensures
            final(self).wf(),
            final(self).spec_inner() == old(self).spec_inner(),
            final(self).spec_buffer_pos() == old(self).spec_buffer_pos(),
            final(self).cached() == old(self).cached(),
            final(self).spec_pos() as int == wrap_u64(as_i64(old(self).spec_pos() as int) + e),
            r == final(self).spec_pos(),
    {
        let np = moved_by(self.current_pos, e);
        self.current_pos = np;
        np
    }
}

/// A `u64` read as the `i64` with the same bits.
pub open spec fn as_i64(x: int) -> int {
    if x > i64::MAX { x - 0x1_0000_0000_0000_0000 } else { x }
}

/// An `i64` read as the `u64` with the same bits.
pub open spec fn wrap_u64(x: int) -> int {
    if x < 0 { x + 0x1_0000_0000_0000_0000 } else { x }
}

/// A move by `e` bytes from `pos`, read as an `i64`, stays in `i64`.
pub open spec fn seek_fits(pos: u64, e: i64) -> bool {
    i64::MIN <= as_i64(pos as int) + e <= i64::MAX
}

/// Whether a move by `e` bytes from `pos` stays in `i64`, as
/// `seek_current` needs.
pub fn seek_current_fits(pos: u64, e: i64) -> (r: bool)
    ensures
        r == seek_fits(pos, e),
{
    let cur = #[verifier::truncate] (pos as i64);
    assert(cur as int == as_i64(pos as int)) by (bit_vector)
        requires cur == pos as i64;
    let p = cur as i128 + e as i128;
    !(p < i64::MIN as i128 || p > i64::MAX as i128)
}

/// The position `pos` moved by `e` bytes: as `i64` sum, wrapped to `u64`.
fn moved_by(pos: u64, e: i64) -> (r: u64)
    requires
        seek_fits(pos, e),
    ensures
        r as int == wrap_u64(as_i64(pos as int) + e),
{
    let cur = #[verifier::truncate] (pos as i64);
    assert(cur as int == as_i64(pos as int)) by (bit_vector)
        requires cur == pos as i64;
    let p = cur + e;
    let np = #[verifier::truncate] (p as u64);
    assert(np as int == wrap_u64(p as int)) by (bit_vector)
        requires np == p as u64;
    np
}

/// Law: moving by `e` bytes and then by `-e` bytes comes back to where the
/// reader was, whenever neither move leaves the `i64` range.
pub proof fn lemma_seek_current_back(pos: u64, e: i64)
    requires
        i64::MIN <= as_i64(pos as int) + e <= i64::MAX,
        e != i64::MIN,
    ensures
        ({
            let p1 = wrap_u64(as_i64(pos as int) + e);
            &&& i64::MIN <= as_i64(p1) - e <= i64::MAX
            &&& wrap_u64(as_i64(p1) - e) == pos
        }),
{
}

/// Law: when the cache agrees with the inner reader's bytes, what a read
/// from the cache returns are the bytes of the inner reader at the read
/// position, as if the inner reader had been read directly.
pub proof fn lemma_cache_read_is_inner_read<A>(before: CacheSeekReader<A>, content: Seq<u8>, off: int, n: int, got: Seq<u8>)
    requires
        before.consistent(content),
        0 <= off,
        0 <= n,
        off + n <= before.spec_buffer_len(),
        before.spec_pos() == before.spec_buffer_pos() + off,
        got == before.cached().subrange(off, off + n),
    ensures
        got == content.subrange(before.spec_pos() as int, before.spec_pos() + n),
{
    let bpos = before.spec_buffer_pos() as int;
    let blen = before.spec_buffer_len();
    assert(got =~= content.subrange(bpos + off, bpos + off + n));
}

/// Law: a cache refilled with the inner reader's bytes at its position
/// agrees with them.
pub proof fn lemma_refill_consistent<A>(after: CacheSeekReader<A>, content: Seq<u8>, data: Seq<u8>)
    requires
        after.spec_buffer_pos() + data.len() <= content.len(),
        after.spec_buffer_len() <= data.len(),
        after.cached() == data.subrange(0, after.spec_buffer_len()),
        data == content.subrange(after.spec_buffer_pos() as int, after.spec_buffer_pos() + data.len()),
    ensures
        after.consistent(content),
{
    let bpos = after.spec_buffer_pos() as int;
    let blen = after.spec_buffer_len();
    assert forall|t: int| 0 <= t < blen implies after.cached()[t] == content.subrange(bpos, bpos + blen)[t] by {
        assert(after.cached()[t] == data[t]);
        assert(data[t] == content[bpos + t]);
    }
    assert(after.cached() =~= content.subrange(bpos, bpos + blen));
}

/// Law: a miss is answered by one refill. Once the cache is refilled at
/// the reader's position with `data`, the position lies in the cache and
/// the next read from it is served: it gives the first bytes of `data`, as
/// many as the buffer of `buf_len` bytes, the cache and `data` allow (none
/// only where the buffer or `data` is empty).
pub proof fn lemma_refill_serves_next_read<A>(after: CacheSeekReader<A>, data: Seq<u8>, buf_len: int)
    requires
        after.spec_pos() + CACHE_SIZE <= u64::MAX,
        after.spec_buffer_pos() == after.spec_pos(),
        after.spec_buffer_len() == vstd::math::min(data.len() as int, CACHE_SIZE as int),
        after.cached() == data.subrange(0, after.spec_buffer_len()),
        0 <= buf_len,
    ensures
        ({
            let off = after.spec_pos() - after.spec_buffer_pos();
            let n = vstd::math::min(buf_len, after.spec_buffer_len() - off);
            &&& after.inside()
            &&& after.read_ok()
            &&& n == vstd::math::min(buf_len, vstd::math::min(data.len() as int, CACHE_SIZE as int))
            &&& after.cached().subrange(off, off + n) == data.subrange(0, n)
            &&& (n == 0 <==> buf_len == 0 || data.len() == 0)
        }),
{
    let blen = after.spec_buffer_len();
    let n = vstd::math::min(buf_len, blen);
    assert(after.cached().subrange(0, n) =~= data.subrange(0, n));
}

/// Law: which reads reach the inner reader. Let the cache hold `k` valid
/// bytes read at `p0`. A read at a position in `p0 .. p0 + k` is a hit:
/// `read_cached` serves it without the inner reader, with `min(buf_len,
/// p0 + k - pos)` bytes. A read before `p0`, or at `p0 + CACHE_SIZE` or
/// later (as every read before the first refill, at `u64::MAX`), is a
/// miss: the inner reader is sought to the position and read once, and
/// `fill_and_read` returns `min(buf_len, k')` of the `k'` bytes it gave.
pub proof fn lemma_cache_read_calls<A>(s: CacheSeekReader<A>)
    requires
        s.wf(),
    ensures
        s.spec_buffer_pos() + CACHE_SIZE <= u64::MAX
            && s.spec_buffer_pos() <= s.spec_pos() < s.spec_buffer_pos() + s.spec_buffer_len()
            ==> s.inside() && s.read_ok(),
        s.spec_pos() < s.spec_buffer_pos() || s.spec_pos() >= s.spec_buffer_pos() + CACHE_SIZE
            ==> !s.inside() && s.read_ok(),
{
}

/// How many sectors a read of `buf_len` bytes (a whole number of sectors)
/// at sector `block_offset` of a file of `block_cnt` sectors takes: as many
/// as the buffer holds, but not past the end; `None` for none.
pub fn dvd_read_count(buf_len: usize, block_cnt: u64, block_offset: u64) -> (r: Option<u64>)
    requires
        buf_len % SECTOR_SIZE == 0,
        block_offset <= block_cnt,
    ensures
        ({
            let c = vstd::math::min(buf_len as int / 2048, block_cnt - block_offset);
            &&& c > 0 ==> r == Some(c as u64)
            &&& c == 0 ==> r is None
        }),
{
    let want = (buf_len / SECTOR_SIZE) as u64;
    let left = block_cnt - block_offset;
    let c = if want < left { want } else { left };
    if c > 0 { Some(c) } else { None }
}

/// Sector-aligned access to a title set file of whole sectors, read
/// through `inner`; `current_pos` is the byte position of the next read.
pub struct ProperDvdReader<R> {
    pub inner: R,
    buffer: Vec<u8>,
    current_pos: u64,
}

/// How a read is carried out.
#[derive(Debug, Clone, Copy, PartialEq, Eq)]
pub enum DvdReadPlan {
    /// Read `len` bytes (whole sectors) straight into the caller's buffer
    /// from sector `block`.
    Direct { block: u64, len: usize },
    /// Read sector `block` into the own buffer and hand out bytes
    /// `offset .. offset + wanted` of it.
    Partial { block: u64, offset: usize, wanted: usize },
}

/// A read of `buf_len` bytes at byte position `cur`: straight into the
/// caller's buffer when the position is on a sector boundary and the
/// buffer holds a sector, else through the own sector buffer, up to the
/// end of the sector.
pub open spec fn read_plan_spec(cur: int, buf_len: int) -> DvdReadPlan {
    if cur % 2048 == 0 && buf_len >= 2048 {
        DvdReadPlan::Direct { block: (cur / 2048) as u64, len: (2048 * (buf_len / 2048)) as usize }
    } else {
        DvdReadPlan::Partial {
            block: (cur / 2048) as u64,
            offset: (cur % 2048) as usize,
            wanted: vstd::math::min(2048 - cur % 2048, buf_len) as usize,
        }
    }
}

/// A planned read starts exactly at the reader's position, stays within
/// the caller's buffer and, for a non-empty buffer, moves on by at least
/// one byte: a run of reads takes the file's bytes in order, none twice.
pub proof fn lemma_read_plan_at_position(cur: u64, buf_len: usize)
    ensures
        match read_plan_spec(cur as int, buf_len as int) {
            DvdReadPlan::Direct { block, len } => block * 2048 == cur && len % 2048 == 0
                && 2048 <= len <= buf_len,
            DvdReadPlan::Partial { block, offset, wanted } => block * 2048 + offset == cur
                && offset + wanted <= 2048 && wanted <= buf_len && (buf_len > 0 ==> wanted > 0),
        },
{
    assert(2048 * (buf_len as int / 2048) <= buf_len) by (nonlinear_arith)
        requires buf_len >= 0;
    assert((2048 * (buf_len as int / 2048)) % 2048 == 0) by (nonlinear_arith);
    assert(buf_len >= 2048 ==> 2048 * (buf_len as int / 2048) >= 2048) by (nonlinear_arith);
}

impl<R> ProperDvdReader<R> {
    pub closed spec fn spec_inner(&self) -> R {
        self.inner
    }

    pub closed spec fn spec_pos(&self) -> u64 {
        self.current_pos
    }

    pub closed spec fn wf(&self) -> bool {
        self.buffer@.len() == SECTOR_SIZE
    }

    /// A reader at position 0.
    pub fn new(inner: R) -> (r: ProperDvdReader<R>)
        ensures
            r.wf(),
            r.spec_inner() == inner,
            r.spec_pos() == 0,
    {
        ProperDvdReader { buffer: vec![0u8; SECTOR_SIZE], current_pos: 0, inner }
    }

    pub fn position(&self) -> (r: u64)
        ensures
            r == self.spec_pos(),
    {
        self.current_pos
    }

    /// A read of `buf_len` bytes, as `read_plan_spec` says.
    pub fn plan_read(&self, buf_len: usize) -> (r: DvdReadPlan)
        ensures
            r == read_plan_spec(self.spec_pos() as int, buf_len as int),
    {
        let block = self.current_pos / 2048;
        if self.current_pos % 2048 == 0 && buf_len >= SECTOR_SIZE {
            DvdReadPlan::Direct { block, len: SECTOR_SIZE * (buf_len / SECTOR_SIZE) }
        } else {
            let offset = (self.current_pos % 2048) as usize;
            let left = SECTOR_SIZE - offset;
            let wanted = if left < buf_len { left } else { buf_len };
            DvdReadPlan::Partial { block, offset, wanted }
        }
    }

    /// After a direct read of `read_cnt` sectors (`None`: nothing left):
    /// the bytes the read returns, the position moved past them (which
    /// must stay within `u64`, the byte count within `usize`).
    pub fn finish_direct(&mut self, read_cnt: Option<u64>) -> (r: usize)
        requires
            old(self).wf(),
            read_cnt is Some ==> old(self).spec_pos() + read_cnt.unwrap() * 2048 <= u64::MAX
                && read_cnt.unwrap() * 2048 <= usize::MAX,
        ensures
            final(self).wf(),
            final(self).spec_inner() == old(self).spec_inner(),
            read_cnt is None ==> r == 0 && final(self).spec_pos() == old(self).spec_pos(),
            read_cnt is Some ==> r == read_cnt.unwrap() * 2048
                && final(self).spec_pos() == old(self).spec_pos() + read_cnt.unwrap() * 2048,
    {
        match read_cnt {
            None => 0,
            Some(c) => {
                self.current_pos = self.current_pos + c * 2048;
                (c * 2048) as usize
            },
        }
    }

    /// Completes a partial read planned with `offset` and `wanted` once
    /// `sector` (the planned sector, of whole sector size) has been read:
    /// it goes to the own buffer and the planned bytes of it to `buf`.
    pub fn finish_partial(&mut self, sector: &[u8], offset: usize, wanted: usize, buf: &mut [u8]) -> (r: usize)
        requires
            old(self).wf(),
            sector@.len() == SECTOR_SIZE,
            offset + wanted <= SECTOR_SIZE,
            wanted <= old(buf)@.len(),
            old(self).spec_pos() + wanted <= u64::MAX,
        ensures
            final(self).wf(),
            final(self).spec_inner() == old(self).spec_inner(),
            r == wanted,
            final(self).spec_pos() == old(self).spec_pos() + wanted,
            final(buf)@.subrange(0, wanted as int) == sector@.subrange(offset as int, offset + wanted),
            final(buf)@.subrange(wanted as int, final(buf)@.len() as int) == old(buf)@.subrange(wanted as int, old(buf)@.len() as int),
            final(buf)@.len() == old(buf)@.len(),
    {
        let mut k: usize = 0;
        while k < SECTOR_SIZE
            invariant
                k <= SECTOR_SIZE,
                sector@.len() == SECTOR_SIZE,
                self.buffer@.len() == SECTOR_SIZE,
                self.current_pos == old(self).current_pos,
                self.inner == old(self).inner,
                forall|t: int| 0 <= t < k ==> self.buffer@[t] == sector@[t],
            decreases SECTOR_SIZE - k,
        {
            self.buffer.set(k, sector[k]);
            k = k + 1;
        }
        let ghost b0 = buf@;
        let mut i: usize = 0;
        while i < wanted
            invariant
                i <= wanted,
                offset + wanted <= SECTOR_SIZE,
                wanted <= b0.len(),
                buf@.len() == b0.len(),
                self.buffer@.len() == SECTOR_SIZE,
                forall|t: int| 0 <= t < SECTOR_SIZE ==> self.buffer@[t] == sector@[t],
                forall|t: int| 0 <= t < i ==> buf@[t] == sector@[offset + t],
                forall|t: int| wanted <= t < b0.len() ==> buf@[t] == b0[t],
            decreases wanted - i,
        {
            buf[i] = self.buffer[offset + i];
            i = i + 1;
        }
        self.current_pos = self.current_pos + wanted as u64;
        assert(buf@.subrange(0, wanted as int) =~= sector@.subrange(offset as int, offset + wanted));
        assert(buf@.subrange(wanted as int, buf@.len() as int) =~= b0.subrange(wanted as int, b0.len() as int));
        wanted
    }

    /// Moves to absolute position `e`.
    pub fn seek_start(&mut self, e: u64) -> (r: u64)
        requires
            old(self).wf(),
        ensures
            final(self).wf(),
            final(self).spec_inner() == old(self).spec_inner(),
            final(self).spec_pos() == e,
            r == e,
    {
        self.current_pos = e;
        e
    }

    /// Moves by `e` bytes, as `CacheSeekReader::seek_current` does.
    pub fn seek_current(&mut self, e: i64) -> (r: u64)
        requires
            old(self).wf(),
            seek_fits(old(self).spec_pos(), e),
        ensures
            final(self).wf(),
            final(self).spec_inner() == old(self).spec_inner(),
            final(self).spec_pos() as int == wrap_u64(as_i64(old(self).spec_pos() as int) + e),
            r == final(self).spec_pos(),
    {
        let np = moved_by(self.current_pos, e);
        self.current_pos = np;
        np
    }
}

} // verus!
