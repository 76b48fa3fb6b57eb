//! Growable byte buffers with a movable read position, and a pool of them.
use vstd::prelude::*;
use crate::pool::kept_after_put;
use vstd::slice::slice_subrange;
use vstd::string::{StringExecFns, StringSliceAdditionalSpecFns};
use vstd::utf8::{encode_utf8, valid_utf8};

verus! {

/// Once the read position passes this many bytes the live bytes are moved
/// to the front of a fresh allocation.
pub const MAX_BUF_SIZE: usize = 1024 * 64;

/// Size of the allocation that a fresh buffer starts with.
pub const DEFAULT_BUF_SIZE: usize = 1024 * 8;

/// Compaction threshold of the small buffers that `MsgBuffer::test_new` makes.
pub const SMALL_MAX_BUF_SIZE: usize = 16;

/// Initial allocation of the small buffers that `MsgBuffer::test_new` makes.
pub const SMALL_DEFAULT_BUF_SIZE: usize = 8;

/// The largest allocation that can succeed.
pub open spec fn alloc_limit() -> int {
    isize::MAX as int
}

/// `n` zero bytes.
pub open spec fn zeros(n: int) -> Seq<u8> {
    Seq::new(n as nat, |i: int| 0u8)
}

/// `s` cut down to `n` bytes, or padded with zero bytes up to `n`.
pub open spec fn fit(s: Seq<u8>, n: int) -> Seq<u8> {
    if s.len() >= n {
        s.subrange(0, n)
    } else {
        s + zeros(n - s.len())
    }
}

pub open spec fn max(a: int, b: int) -> int {
    if a >= b {
        a
    } else {
        b
    }
}

/// The whole state of a buffer: its allocation, the read position, the end
/// of the live bytes and the compaction threshold.
#[verifier::ext_equal]
pub struct BufModel {
    pub data: Seq<u8>,
    pub pos: int,
    pub end: int,
    pub limit: int,
}

impl BufModel {
    pub open spec fn cap(self) -> int {
        self.data.len() as int
    }

    /// The live bytes.
    pub open spec fn contents(self) -> Seq<u8> {
        self.data.subrange(self.pos, self.end)
    }

    pub open spec fn wf(self) -> bool {
        &&& 0 <= self.pos <= self.end <= self.data.len()
        &&& 0 <= self.limit <= alloc_limit()
    }

    pub open spec fn with_range(self, pos: int, end: int) -> BufModel {
        BufModel { data: self.data, pos, end, limit: self.limit }
    }

    pub open spec fn with_data(self, data: Seq<u8>) -> BufModel {
        BufModel { data, pos: self.pos, end: self.end, limit: self.limit }
    }

    /// Size of the fresh allocation made by a compaction.
    pub open spec fn compact_size(self) -> int {
        max(self.end - self.pos, self.limit)
    }

    /// The live bytes moved to the front of a fresh allocation of
    /// `compact_size()` bytes.
    pub open spec fn moved_to_front(self) -> BufModel {
        BufModel {
            data: fit(self.data.subrange(self.pos, self.cap()), self.compact_size()),
            pos: 0,
            end: self.end - self.pos,
            limit: self.limit,
        }
    }

    /// A compaction as the buffer's operations make it: once the read
    /// position has passed the threshold.
    pub open spec fn compacted(self) -> BufModel {
        if self.pos > self.limit {
            self.moved_to_front()
        } else {
            self
        }
    }

    pub open spec fn compact_ok(self) -> bool {
        self.pos > self.limit ==> self.compact_size() <= alloc_limit()
    }

    /// A compaction as the compacting step itself tests for it: once the read
    /// position has reached the threshold.
    pub open spec fn resized(self) -> BufModel {
        if self.pos >= self.limit {
            self.moved_to_front()
        } else {
            self
        }
    }

    pub open spec fn resize_ok(self) -> bool {
        self.pos >= self.limit ==> self.compact_size() <= alloc_limit()
    }

    /// Size of the fresh allocation made when `n` more bytes do not fit.
    pub open spec fn grow_size(self, n: int) -> int {
        max(2 * self.cap(), n + self.cap())
    }

    pub open spec fn grown(self, n: int) -> BufModel {
        BufModel {
            data: self.data.subrange(self.pos, self.cap()) + zeros(
                self.grow_size(n) - (self.cap() - self.pos),
            ),
            pos: 0,
            end: self.end - self.pos,
            limit: self.limit,
        }
    }

    /// The state after the live region has been extended by `n` bytes.
    pub open spec fn extended(self, n: int) -> BufModel {
        let c = self.compacted();
        let e = c.with_range(c.pos, c.end + n);
        if e.end > e.cap() {
            e.grown(n)
        } else {
            e
        }
    }

    pub open spec fn extend_ok(self, n: int) -> bool {
        let c = self.compacted();
        &&& self.compact_ok()
        &&& c.end + n <= usize::MAX
        &&& c.end + n > c.cap() ==> c.grow_size(n) <= alloc_limit()
    }

    /// The state after `bytes` have been appended.
    pub open spec fn written(self, bytes: Seq<u8>) -> BufModel {
        let x = self.extended(bytes.len() as int);
        x.with_data(
            x.data.subrange(0, x.end - bytes.len()) + bytes + x.data.subrange(x.end, x.cap()),
        )
    }

    /// The state after room for `n` bytes past the live region was made.
    pub open spec fn spared(self, n: int) -> BufModel {
        let c = self.compacted();
        if c.end + n > c.cap() {
            c.grown(n)
        } else {
            c
        }
    }

    /// The state after the buffer was emptied.
    pub open spec fn cleared(self) -> BufModel {
        self.compacted().with_range(0, 0)
    }

    /// The state after the bytes `out` were placed over the `n` bytes just
    /// before the end of the live region of `self.extended(n)`.
    pub open spec fn made(self, n: int, out: Seq<u8>) -> BufModel {
        let x = self.extended(n);
        x.with_data(x.data.subrange(0, x.end - n) + out + x.data.subrange(x.end, x.cap()))
    }

    /// End of the region that `spare` hands out.
    pub open spec fn spare_end(self, n: int) -> int {
        self.compacted().end + n
    }

    /// The state after the bytes `out` were placed over the region that
    /// `spare` hands out.
    pub open spec fn spare_filled(self, n: int, out: Seq<u8>) -> BufModel {
        let s = self.spared(n);
        s.with_data(
            s.data.subrange(0, s.end) + out + s.data.subrange(self.spare_end(n), s.cap()),
        )
    }

    /// The state after the bytes `out` were placed over the live region.
    pub open spec fn overwritten(self, out: Seq<u8>) -> BufModel {
        self.with_data(
            self.data.subrange(0, self.pos) + out + self.data.subrange(self.end, self.cap()),
        )
    }

    /// The first `n` live bytes were dropped.
    pub open spec fn shifted(self, n: int) -> BufModel {
        if n == 0 {
            self
        } else if n < self.end - self.pos {
            self.with_range(self.pos + n, self.end).compacted()
        } else {
            self.cleared()
        }
    }

    /// The state after the live region was set to `n` bytes, as far as the
    /// allocation allows.
    pub open spec fn truncated(self, n: int) -> BufModel {
        if self.pos + n <= self.cap() {
            self.with_range(self.pos, self.pos + n)
        } else {
            self.with_range(self.pos, self.cap())
        }
    }
}

/// Compaction keeps the live bytes and the threshold.
pub proof fn lemma_compacted(m: BufModel)
    requires
        m.wf(),
    ensures
        m.compacted().wf(),
        m.compacted().contents() =~= m.contents(),
        m.compacted().limit == m.limit,
        m.compacted().pos <= m.pos,
        m.compacted().end - m.compacted().pos == m.end - m.pos,
{
    lemma_moved_to_front(m);
}

/// Moving the live bytes to the front keeps them and the threshold.
pub proof fn lemma_moved_to_front(m: BufModel)
    requires
        m.wf(),
    ensures
        m.moved_to_front().wf(),
        m.moved_to_front().contents() =~= m.contents(),
        m.moved_to_front().limit == m.limit,
        m.moved_to_front().pos == 0,
        m.moved_to_front().end == m.end - m.pos,
        m.moved_to_front().cap() == m.compact_size(),
{
    let s = m.data.subrange(m.pos, m.cap());
    let c = m.moved_to_front();
    assert(c.data == fit(s, m.compact_size()));
    assert forall|i: int| 0 <= i < m.end - m.pos implies c.data[i] == m.data[m.pos + i] by {
        assert(s[i] == m.data[m.pos + i]);
    }
}

/// Growing keeps the bytes from the read position on, now at the front.
pub proof fn lemma_grown(m: BufModel, n: int)
    requires
        0 <= m.pos <= m.end,
        m.pos <= m.cap(),
        0 <= n,
        m.end <= m.cap() + n,
    ensures
        m.grown(n).data.len() == m.grow_size(n),
        m.grown(n).pos == 0,
        m.grown(n).end == m.end - m.pos,
        m.grown(n).end <= m.grown(n).cap(),
        m.grown(n).limit == m.limit,
        forall|i: int|
            0 <= i < m.cap() - m.pos ==> #[trigger] m.grown(n).data[i] == m.data[m.pos + i],
{
}

/// Extending by `n` keeps the live bytes just before the `n` new ones.
pub proof fn lemma_extended(m: BufModel, n: int)
    requires
        m.wf(),
        0 <= n,
    ensures
        ({
            let x = m.extended(n);
            &&& 0 <= x.pos <= x.end - n
            &&& x.end <= x.cap()
            &&& x.limit == m.limit
            &&& x.end - x.pos == m.end - m.pos + n
            &&& x.data.subrange(x.pos, x.end - n) =~= m.contents()
        }),
{
    lemma_compacted(m);
    let c = m.compacted();
    let e = c.with_range(c.pos, c.end + n);
    if e.end > e.cap() {
        lemma_grown(e, n);
        assert(e.grown(n).data.subrange(0, c.end - c.pos) =~= c.contents());
    } else {
        assert(e.data.subrange(e.pos, e.end - n) =~= c.contents());
    }
}

/// Room made by `spare` keeps the live bytes and lies within the allocation.
pub proof fn lemma_spared(m: BufModel, n: int)
    requires
        m.wf(),
        0 <= n,
    ensures
        ({
            let s = m.spared(n);
            &&& s.wf()
            &&& s.end <= m.spare_end(n) <= s.cap()
            &&& m.spare_end(n) - s.end >= n
            &&& s.limit == m.limit
            &&& s.contents() =~= m.contents()
        }),
{
    lemma_compacted(m);
    let c = m.compacted();
    if c.end + n > c.cap() {
        lemma_grown(c, n);
        assert(c.grown(n).contents() =~= c.contents());
    }
}

/// Appending keeps the live bytes and adds the new ones after them.
pub proof fn law_written(m: BufModel, bytes: Seq<u8>)
    requires
        m.wf(),
    ensures
        m.written(bytes).wf(),
        m.written(bytes).contents() =~= m.contents() + bytes,
        m.written(bytes).limit == m.limit,
{
    lemma_extended(m, bytes.len() as int);
    let x = m.extended(bytes.len() as int);
    let w = m.written(bytes);
    assert(w.data.subrange(x.pos, x.end) =~= x.data.subrange(x.pos, x.end - bytes.len()) + bytes);
}

/// Bytes come out in the order they went in: after appending `bytes` and
/// dropping as many bytes as were live before, exactly `bytes` are live.
pub proof fn law_write_then_shift(m: BufModel, bytes: Seq<u8>)
    requires
        m.wf(),
    ensures
        m.written(bytes).shifted(m.contents().len() as int).contents() =~= bytes,
{
    law_written(m, bytes);
    let w = m.written(bytes);
    let n = m.contents().len() as int;
    if n == 0 {
    } else if n < w.end - w.pos {
        let v = w.with_range(w.pos + n, w.end);
        lemma_compacted(v);
        assert(v.contents() =~= w.contents().subrange(n, w.contents().len() as int));
    } else {
        law_cleared(w);
    }
}

/// Cutting the live region back to its old length undoes an append.
pub proof fn law_write_then_truncate(m: BufModel, bytes: Seq<u8>)
    requires
        m.wf(),
    ensures
        m.written(bytes).truncated(m.contents().len() as int).contents() =~= m.contents(),
{
    law_written(m, bytes);
    let w = m.written(bytes);
    assert(w.truncated(m.contents().len() as int).contents() =~= w.contents().subrange(
        0,
        m.contents().len() as int,
    ));
}

/// Dropping `k` live bytes keeps the rest in order, or empties the buffer
/// when `k` reaches their number.
pub proof fn law_shifted(m: BufModel, k: int)
    requires
        m.wf(),
        0 <= k,
    ensures
        m.shifted(k).wf(),
        k < m.contents().len() ==> m.shifted(k).contents() =~= m.contents().subrange(
            k,
            m.contents().len() as int,
        ),
        k >= m.contents().len() ==> m.shifted(k).contents() =~= Seq::<u8>::empty(),
{
    if k == 0 {
        assert(m.contents().subrange(0, m.contents().len() as int) =~= m.contents());
    } else if k < m.end - m.pos {
        let v = m.with_range(m.pos + k, m.end);
        lemma_compacted(v);
    } else {
        law_cleared(m);
    }
}

/// Emptying a buffer leaves no live bytes, and emptying it twice is the same
/// as once.
pub proof fn law_cleared(m: BufModel)
    requires
        m.wf(),
    ensures
        m.cleared().wf(),
        m.cleared().contents() =~= Seq::<u8>::empty(),
        m.cleared().cleared() =~= m.cleared(),
{
    lemma_compacted(m);
}

/// A growable byte buffer: bytes are appended at the end and consumed from
/// the read position.
pub struct MsgBuffer {
    b: Vec<u8>,
    max_buf_size: usize,
    pos: usize,
    l: usize,
}

impl View for MsgBuffer {
    type V = Seq<u8>;

    open spec fn view(&self) -> Seq<u8> {
        self.model().contents()
    }
}

/// `IndexMut` of `Vec<u8>` by a range (`&mut v[start..end]`): claims that the
/// slice handed out holds `v[start..end]`, that its length cannot change, and
/// that whatever is written through it is what `v` holds there afterwards.
#[verifier::external_body]
fn range_mut(v: &mut Vec<u8>, start: usize, end: usize) -> (r: &mut [u8])
    requires
        start <= end <= old(v)@.len(),
    ensures
        r@ == old(v)@.subrange(start as int, end as int),
        final(r)@.len() == end - start,
        final(v)@ == old(v)@.subrange(0, start as int) + final(r)@ + old(v)@.subrange(
            end as int,
            old(v)@.len() as int,
        ),
{
    &mut v[start..end]
}

/// `std::str::from_utf8`: claims that it accepts exactly the byte sequences
/// that `valid_utf8` describes, and that the text it gives encodes to
/// `bytes`.
#[verifier::external_body]
fn utf8_str(bytes: &[u8]) -> (r: Option<&str>)
    ensures
        r is Some <==> valid_utf8(bytes@),
        r matches Some(s) ==> s.spec_bytes() == bytes@,
{
    std::str::from_utf8(bytes).ok()
}

/// A copy of `src[from..]`, cut down or padded with zeros to `n` bytes.
fn fit_copy(src: &Vec<u8>, from: usize, n: usize) -> (v: Vec<u8>)
    requires
        from <= src@.len(),
    ensures
        v@ == fit(src@.subrange(from as int, src@.len() as int), n as int),
{
    let ghost s = src@.subrange(from as int, src@.len() as int);
    let mut v: Vec<u8> = Vec::new();
    let mut i: usize = 0;
    while i < n
        invariant
            i <= n,
            from <= src@.len(),
            s == src@.subrange(from as int, src@.len() as int),
            v@.len() == i,
            forall|j: int| 0 <= j < i ==> #[trigger] v@[j] == fit(s, n as int)[j],
        decreases n - i,
    {
        if i < src.len() - from {
            v.push(src[from + i]);
        } else {
            v.push(0u8);
        }
        i = i + 1;
    }
    assert(v@ =~= fit(s, n as int));
    v
}

impl MsgBuffer {
    pub closed spec fn model(&self) -> BufModel {
        BufModel {
            data: self.b@,
            pos: self.pos as int,
            end: self.l as int,
            limit: self.max_buf_size as int,
        }
    }

    pub open spec fn wf(&self) -> bool {
        self.model().wf()
    }

    /// A buffer of `DEFAULT_BUF_SIZE` zero bytes, empty.
    pub fn new() -> (r: MsgBuffer)
        ensures
            r.wf(),
            r.model() == (BufModel {
                data: zeros(DEFAULT_BUF_SIZE as int),
                pos: 0,
                end: 0,
                limit: MAX_BUF_SIZE as int,
            }),
            r@ == Seq::<u8>::empty(),
    {
        let v: Vec<u8> = fit_copy(&Vec::new(), 0, DEFAULT_BUF_SIZE);
        let r = MsgBuffer { b: v, max_buf_size: MAX_BUF_SIZE, pos: 0, l: 0 };
        assert(r.model().data =~= zeros(DEFAULT_BUF_SIZE as int));
        assert(r@ =~= Seq::<u8>::empty());
        r
    }

    /// An empty buffer of `default_buf_size` zero bytes whose compaction
    /// threshold is `default_buf_size` as well; the second size is not used.
    pub fn new_with_param(default_buf_size: usize, _max_buf_size: usize) -> (r: MsgBuffer)
        requires
            default_buf_size <= alloc_limit(),
        ensures
            r.wf(),
            r.model() == (BufModel {
                data: zeros(default_buf_size as int),
                pos: 0,
                end: 0,
                limit: default_buf_size as int,
            }),
            r@ == Seq::<u8>::empty(),
    {
        let v: Vec<u8> = fit_copy(&Vec::new(), 0, default_buf_size);
        let r = MsgBuffer { b: v, max_buf_size: default_buf_size, pos: 0, l: 0 };
        assert(r.model().data =~= zeros(default_buf_size as int));
        assert(r@ =~= Seq::<u8>::empty());
        r
    }

    /// A small empty buffer: 8 zero bytes, compacted past 16 bytes.
    pub fn test_new() -> (r: MsgBuffer)
        ensures
            r.wf(),
            r.model() == (BufModel {
                data: zeros(SMALL_DEFAULT_BUF_SIZE as int),
                pos: 0,
                end: 0,
                limit: SMALL_MAX_BUF_SIZE as int,
            }),
            r@ == Seq::<u8>::empty(),
    {
        let v: Vec<u8> = fit_copy(&Vec::new(), 0, SMALL_DEFAULT_BUF_SIZE);
        let r = MsgBuffer { b: v, max_buf_size: SMALL_MAX_BUF_SIZE, pos: 0, l: 0 };
        assert(r.model().data =~= zeros(SMALL_DEFAULT_BUF_SIZE as int));
        assert(r@ =~= Seq::<u8>::empty());
        r
    }

    /// Moves the live bytes to a fresh allocation once the read position has
    /// passed the threshold.
    fn re_size(&mut self)
        requires
            old(self).wf(),
            old(self).model().resize_ok(),
        ensures
            final(self).wf(),
            final(self).model() == old(self).model().resized(),
    {
        proof {
            lemma_moved_to_front(old(self).model());
        }
        if self.pos >= self.max_buf_size {
            let len = self.l - self.pos;
            let newlen = if len > self.max_buf_size {
                len
            } else {
                self.max_buf_size
            };
            let v = fit_copy(&self.b, self.pos, newlen);
            self.l = len;
            self.b = v;
            self.pos = 0;
        }
    }

    /// Moves the live bytes to the front of an allocation large enough for
    /// `n` more bytes.
    fn grow(&mut self, n: usize)
        requires
            old(self).pos <= old(self).b@.len(),
            old(self).pos <= old(self).l,
            0 <= old(self).max_buf_size,
            old(self).model().grow_size(n as int) <= alloc_limit(),
        ensures
            final(self).model() == old(self).model().grown(n as int),
    {
        let cap = self.b.len();
        let total = n + cap;
        let doubled = cap * 2;
        let newcap = if doubled > total {
            doubled
        } else {
            total
        };
        let v = fit_copy(&self.b, self.pos, newcap);
        self.b = v;
        self.l = self.l - self.pos;
        self.pos = 0;
        proof {
            let m = old(self).model();
            assert(self.b@ =~= m.data.subrange(m.pos, m.cap()) + zeros(
                m.grow_size(n as int) - (m.cap() - m.pos),
            ));
        }
    }

    /// Empties the buffer.
    pub fn reset(&mut self)
        requires
            old(self).wf(),
            old(self).model().compact_ok(),
        ensures
            final(self).wf(),
            final(self).model() == old(self).model().cleared(),
            final(self)@ == Seq::<u8>::empty(),
    {
        if self.pos > self.max_buf_size {
            self.re_size();
        }
        self.pos = 0;
        self.l = 0;
        assert(self@ =~= Seq::<u8>::empty());
    }

    /// Extends the live region by `l` bytes and hands them out; they hold
    /// whatever the allocation held there.
    pub fn make(&mut self, l: usize) -> (r: &mut [u8])
        requires
            old(self).wf(),
            old(self).model().extend_ok(l as int),
        ensures
            r@ == old(self).model().extended(l as int).data.subrange(
                old(self).model().extended(l as int).end - l,
                old(self).model().extended(l as int).end,
            ),
            final(r)@.len() == l,
            final(self).model() == old(self).model().made(l as int, final(r)@),
            final(self).wf(),
            final(self)@ == old(self)@ + final(r)@,
    {
        if self.pos > self.max_buf_size {
            self.re_size();
        }
        self.l = self.l + l;
        if self.l > self.b.len() {
            self.grow(l);
        }
        proof {
            lemma_extended(old(self).model(), l as int);
        }
        let start = self.l - l;
        let end = self.l;
        let r = range_mut(&mut self.b, start, end);
        proof {
            let x = old(self).model().extended(l as int);
            let nd = x.data.subrange(0, x.end - l) + final(r)@ + x.data.subrange(x.end, x.cap());
            assert(nd.subrange(x.pos, x.end) =~= x.data.subrange(x.pos, x.end - l) + final(r)@);
        }
        r
    }

    /// Hands out room for at least `l` bytes past the live region, which is
    /// left as it was.
    pub fn spare(&mut self, l: usize) -> (r: &mut [u8])
        requires
            old(self).wf(),
            old(self).model().extend_ok(l as int),
        ensures
            r@ == old(self).model().spared(l as int).data.subrange(
                old(self).model().spared(l as int).end,
                old(self).model().spare_end(l as int),
            ),
            final(r)@.len() == old(self).model().spare_end(l as int) - old(self).model().spared(
                l as int,
            ).end,
            final(r)@.len() >= l,
            final(self).model() == old(self).model().spare_filled(l as int, final(r)@),
            final(self).wf(),
            final(self)@ == old(self)@,
    {
        proof {
            lemma_spared(old(self).model(), l as int);
        }
        if self.pos > self.max_buf_size {
            self.re_size();
        }
        let newlen = self.l + l;
        if newlen > self.b.len() {
            self.grow(l);
        }
        let start = self.l;
        let r = range_mut(&mut self.b, start, newlen);
        proof {
            let sp = old(self).model().spared(l as int);
            let nd = sp.data.subrange(0, sp.end) + final(r)@ + sp.data.subrange(newlen as int, sp.cap());
            assert(nd.subrange(sp.pos, sp.end) =~= sp.data.subrange(sp.pos, sp.end));
        }
        r
    }

    /// Appends `b`.
    pub fn write(&mut self, b: &[u8])
        requires
            old(self).wf(),
            old(self).model().extend_ok(b@.len() as int),
        ensures
            final(self).wf(),
            final(self).model() == old(self).model().written(b@),
            final(self)@ == old(self)@ + b@,
    {
        if self.pos > self.max_buf_size {
            self.re_size();
        }
        let k = b.len();
        self.l = self.l + k;
        if self.l > self.b.len() {
            self.grow(k);
        }
        proof {
            lemma_extended(old(self).model(), k as int);
        }
        let start = self.l - k;
        let ghost x = self.model();
        assert(x =~= old(self).model().extended(k as int));
        let mut i: usize = 0;
        while i < k
            invariant
                0 <= i <= k,
                k == b@.len(),
                start == self.l - k,
                self.l <= self.b@.len(),
                self.pos == x.pos,
                self.l == x.end,
                self.max_buf_size == x.limit,
                self.b@.len() == x.data.len(),
                forall|j: int| 0 <= j < start ==> #[trigger] self.b@[j] == x.data[j],
                forall|j: int| self.l <= j < x.cap() ==> #[trigger] self.b@[j] == x.data[j],
                forall|j: int| 0 <= j < i ==> #[trigger] self.b@[start + j] == b@[j],
            decreases k - i,
        {
            self.b.set(start + i, b[i]);
            i = i + 1;
        }
        proof {
            let w = old(self).model().written(b@);
            assert(w.data == x.data.subrange(0, x.end - k) + b@ + x.data.subrange(x.end, x.cap()));
            assert forall|j: int| 0 <= j < x.cap() implies #[trigger] self.b@[j] == w.data[j] by {
                if j < start {
                } else if j < x.end {
                    assert(self.b@[start + (j - start)] == b@[j - start]);
                } else {
                }
            }
            assert(self.b@ =~= w.data);
            assert(self.model() =~= w);
            assert(self@ =~= x.data.subrange(x.pos, x.end - k) + b@);
        }
    }

    /// Appends the UTF-8 bytes of `s`.
    pub fn write_string(&mut self, s: &str)
        requires
            old(self).wf(),
            old(self).model().extend_ok(s.spec_bytes().len() as int),
        ensures
            final(self).wf(),
            final(self).model() == old(self).model().written(s.spec_bytes()),
            final(self)@ == old(self)@ + s.spec_bytes(),
    {
        self.write(s.as_bytes())
    }

    /// Appends one byte.
    pub fn write_byte(&mut self, s: u8)
        requires
            old(self).wf(),
            old(self).model().extend_ok(1),
        ensures
            final(self).wf(),
            final(self).model() == old(self).model().written(seq![s]),
            final(self)@ == old(self)@.push(s),
    {
        if self.pos > self.max_buf_size {
            self.re_size();
        }
        self.l = self.l + 1;
        if self.l > self.b.len() {
            self.grow(1);
        }
        proof {
            lemma_extended(old(self).model(), 1);
        }
        let ghost x = self.model();
        let idx = self.l - 1;
        self.b.set(idx, s);
        proof {
            let w = old(self).model().written(seq![s]);
            assert(self.b@ =~= w.data);
            assert(self.model() =~= w);
            assert(self@ =~= x.data.subrange(x.pos, x.end - 1).push(s));
        }
    }

    /// Drops the first `len` live bytes; dropping all of them or more empties
    /// the buffer.
    pub fn shift(&mut self, len: usize)
        requires
            old(self).wf(),
            old(self).model().compact_ok(),
            len < old(self)@.len() ==> old(self).model().with_range(
                old(self).model().pos + len,
                old(self).model().end,
            ).compact_ok(),
        ensures
            final(self).wf(),
            final(self).model() == old(self).model().shifted(len as int),
            len < old(self)@.len() ==> final(self)@ == old(self)@.subrange(len as int, old(self)@.len() as int),
            len >= old(self)@.len() ==> final(self)@ == Seq::<u8>::empty(),
    {
        if len == 0 {
            assert(old(self)@ =~= old(self)@.subrange(0, old(self)@.len() as int));
            return;
        }
        if len < self.len() {
            self.pos = self.pos + len;
            proof {
                lemma_compacted(self.model());
                assert(self@ =~= old(self)@.subrange(len as int, old(self)@.len() as int));
            }
            if self.pos > self.max_buf_size {
                self.re_size();
            }
        } else {
            self.reset();
        }
    }

    /// The live bytes.
    pub fn as_slice(&self) -> (r: &[u8])
        requires
            self.wf(),
        ensures
            r@ == self@,
    {
        slice_subrange(self.b.as_slice(), self.pos, self.l)
    }

    /// The live bytes.
    pub fn bytes(&self) -> (r: &[u8])
        requires
            self.wf(),
        ensures
            r@ == self@,
    {
        slice_subrange(self.b.as_slice(), self.pos, self.l)
    }

    /// Mutable access to the live bytes.
    pub fn as_mut_slice(&mut self) -> (r: &mut [u8])
        requires
            old(self).wf(),
        ensures
            r@ == old(self)@,
            final(r)@.len() == old(self)@.len(),
            final(self).model() == old(self).model().overwritten(final(r)@),
            final(self).wf(),
            final(self)@ == final(r)@,
    {
        let start = self.pos;
        let end = self.l;
        let r = range_mut(&mut self.b, start, end);
        proof {
            let m = old(self).model();
            let nd = m.data.subrange(0, m.pos) + final(r)@ + m.data.subrange(m.end, m.cap());
            assert(nd.subrange(m.pos, m.end) =~= final(r)@);
        }
        r
    }

    /// The live bytes decoded as UTF-8 text; they must be valid UTF-8.
    pub fn string(&self) -> (r: String)
        requires
            self.wf(),
            valid_utf8(self@),
        ensures
            encode_utf8(r@) == self@,
    {
        match utf8_str(self.bytes()) {
            Some(s) => s.to_owned(),
            None => String::new(),
        }
    }

    /// Sets the live region to `len` bytes from the read position, as far as
    /// the allocation reaches; bytes past the old end are what the allocation
    /// held there.
    pub fn truncate(&mut self, len: usize)
        requires
            old(self).wf(),
            old(self).model().pos + len <= usize::MAX,
        ensures
            final(self).wf(),
            final(self).model() == old(self).model().truncated(len as int),
            len <= old(self)@.len() ==> final(self)@ == old(self)@.subrange(0, len as int),
    {
        let new = self.pos + len;
        if new <= self.b.len() {
            self.l = new;
        } else {
            self.l = self.b.len();
        }
        assert(len <= old(self)@.len() ==> self@ =~= old(self)@.subrange(0, len as int));
    }

    /// Takes the first live byte; on an empty buffer, empties it afresh and
    /// gives `None`.
    pub fn next(&mut self) -> (r: Option<u8>)
        requires
            old(self).wf(),
            old(self).model().compact_ok(),
        ensures
            final(self).wf(),
            old(self)@.len() == 0 ==> r is None && final(self).model() == old(self).model().cleared(),
            old(self)@.len() > 0 ==> r == Some(old(self)@[0]) && final(self).model()
                == old(self).model().with_range(old(self).model().pos + 1, old(self).model().end),
            old(self)@.len() > 0 ==> final(self)@ == old(self)@.drop_first(),
    {
        if self.pos == self.l {
            self.reset();
            return None;
        }
        self.pos = self.pos + 1;
        assert(self@ =~= old(self)@.drop_first());
        Some(self.b[self.pos - 1])
    }

    /// Takes the live byte at index `n` and drops it with all before it; at or
    /// past the end, empties the buffer and gives `None`.
    pub fn nth(&mut self, n: usize) -> (r: Option<u8>)
        requires
            old(self).wf(),
            old(self).model().compact_ok(),
        ensures
            final(self).wf(),
            n >= old(self)@.len() ==> r is None && final(self).model() == old(self).model().cleared(),
            n < old(self)@.len() ==> r == Some(old(self)@[n as int]) && final(self).model()
                == old(self).model().with_range(old(self).model().pos + n + 1, old(self).model().end),
            n < old(self)@.len() ==> final(self)@ == old(self)@.subrange(n + 1, old(self)@.len() as int),
    {
        if n >= self.l - self.pos {
            self.reset();
            return None;
        }
        self.pos = self.pos + n + 1;
        assert(self@ =~= old(self)@.subrange(n + 1, old(self)@.len() as int));
        Some(self.b[self.pos - 1])
    }

    /// Whether a compaction, if one is due, can allocate what it needs.
    pub fn compact_fits(&self) -> (r: bool)
        requires
            self.wf(),
        ensures
            r == self.model().compact_ok(),
    {
        if self.pos > self.max_buf_size {
            let len = self.l - self.pos;
            len as u128 <= isize::MAX as u128
        } else {
            true
        }
    }

    /// Whether the live region can be extended by `n` bytes, or room for `n`
    /// bytes be made, without overflow or an allocation beyond the limit.
    pub fn extend_fits(&self, n: usize) -> (r: bool)
        requires
            self.wf(),
        ensures
            r == self.model().extend_ok(n as int),
    {
        if !self.compact_fits() {
            return false;
        }
        let (end, cap) = if self.pos > self.max_buf_size {
            let len = self.l - self.pos;
            let size = if len > self.max_buf_size {
                len
            } else {
                self.max_buf_size
            };
            (len, size)
        } else {
            (self.l, self.b.len())
        };
        if end as u128 + n as u128 > usize::MAX as u128 {
            return false;
        }
        if end + n > cap {
            let doubled = 2 * (cap as u128);
            let total = n as u128 + cap as u128;
            let size = if doubled > total {
                doubled
            } else {
                total
            };
            size <= isize::MAX as u128
        } else {
            true
        }
    }

    /// Whether dropping `len` live bytes can allocate what a compaction after
    /// it needs.
    pub fn shift_fits(&self, len: usize) -> (r: bool)
        requires
            self.wf(),
        ensures
            r == (self.model().compact_ok() && (len < self@.len() ==> self.model().with_range(
                self.model().pos + len,
                self.model().end,
            ).compact_ok())),
    {
        if !self.compact_fits() {
            return false;
        }
        if len < self.l - self.pos {
            let p = self.pos + len;
            if p > self.max_buf_size {
                (self.l - p) as u128 <= isize::MAX as u128
            } else {
                true
            }
        } else {
            true
        }
    }

    /// The read position within the allocation.
    pub fn pos(&self) -> (r: usize)
        ensures
            r == self.model().pos,
    {
        self.pos
    }

    /// Number of live bytes.
    pub fn len(&self) -> (r: usize)
        requires
            self.wf(),
        ensures
            r == self@.len(),
    {
        self.l - self.pos
    }
}

impl Default for MsgBuffer {
    fn default() -> (r: MsgBuffer)
        ensures
            r.wf(),
            r.model() == (BufModel {
                data: zeros(DEFAULT_BUF_SIZE as int),
                pos: 0,
                end: 0,
                limit: MAX_BUF_SIZE as int,
            }),
    {
        MsgBuffer::new()
    }
}

impl From<Vec<u8>> for MsgBuffer {
    fn from(value: Vec<u8>) -> (r: MsgBuffer) {
        let l = value.len();
        MsgBuffer { b: value, max_buf_size: MAX_BUF_SIZE, pos: 0, l }
    }
}

impl vstd::std_specs::convert::FromSpecImpl<Vec<u8>> for MsgBuffer {
    open spec fn obeys_from_spec() -> bool {
        true
    }

    closed spec fn from_spec(v: Vec<u8>) -> MsgBuffer {
        MsgBuffer { b: v, max_buf_size: MAX_BUF_SIZE, pos: 0, l: v.len() }
    }
}

/// The character of decimal digit `d`.
pub open spec fn digit_char(d: int) -> char {
    if d == 0 {
        '0'
    } else if d == 1 {
        '1'
    } else if d == 2 {
        '2'
    } else if d == 3 {
        '3'
    } else if d == 4 {
        '4'
    } else if d == 5 {
        '5'
    } else if d == 6 {
        '6'
    } else if d == 7 {
        '7'
    } else if d == 8 {
        '8'
    } else {
        '9'
    }
}

/// The decimal digits of `n`, most significant first.
pub open spec fn decimal(n: nat) -> Seq<char>
    decreases n,
{
    if n < 10 {
        seq![digit_char(n as int)]
    } else {
        decimal(n / 10).push(digit_char((n % 10) as int))
    }
}

/// The number that the decimal digits `s` stand for, most significant first.
pub open spec fn decimal_value(s: Seq<char>) -> int
    decreases s.len(),
{
    if s.len() == 0 {
        0
    } else {
        decimal_value(s.drop_last()) * 10 + (s.last() as int - '0' as int)
    }
}

/// The digit of `d` is the character whose code is that of `'0'` plus `d`.
pub proof fn law_digit_char(d: int)
    requires
        0 <= d < 10,
    ensures
        digit_char(d) as int == '0' as int + d,
{
}

/// `decimal(n)` is the standard base-10 rendering of `n`: every character
/// is a digit `'0'`..`'9'`, read back as a base-10 number it gives `n`, and
/// it has no leading zero unless `n` is zero.
pub proof fn law_decimal(n: nat)
    ensures
        decimal(n).len() >= 1,
        forall|i: int|
            0 <= i < decimal(n).len() ==> '0' as int <= #[trigger] decimal(n)[i] as int <= '9' as int,
        decimal_value(decimal(n)) == n,
        n > 0 ==> decimal(n)[0] != '0',
        n == 0 ==> decimal(n) == seq!['0'],
    decreases n,
{
    if n < 10 {
        law_digit_char(n as int);
        let s = decimal(n);
        assert(s.drop_last() =~= Seq::<char>::empty());
        assert(decimal_value(s.drop_last()) == 0);
        assert(s.last() == digit_char(n as int));
        assert(decimal_value(s) == n);
    } else {
        law_decimal(n / 10);
        law_digit_char((n % 10) as int);
        let s = decimal(n);
        assert(s.drop_last() =~= decimal(n / 10));
        assert(s.last() == digit_char((n % 10) as int));
        assert(forall|i: int| 0 <= i < decimal(n / 10).len() ==> s[i] == decimal(n / 10)[i]);
        assert(n / 10 > 0);
        assert(decimal_value(s) == decimal_value(decimal(n / 10)) * 10 + (n % 10) as int);
        vstd::arithmetic::div_mod::lemma_fundamental_div_mod(n as int, 10);
        assert(decimal_value(s) == n);
    }
}

fn digit_str(d: usize) -> (s: &'static str)
    requires
        d < 10,
    ensures
        s@ == seq![digit_char(d as int)],
{
    proof {
        reveal_strlit("0");
        reveal_strlit("1");
        reveal_strlit("2");
        reveal_strlit("3");
        reveal_strlit("4");
        reveal_strlit("5");
        reveal_strlit("6");
        reveal_strlit("7");
        reveal_strlit("8");
        reveal_strlit("9");
    }
    let s = if d == 0 {
        "0"
    } else if d == 1 {
        "1"
    } else if d == 2 {
        "2"
    } else if d == 3 {
        "3"
    } else if d == 4 {
        "4"
    } else if d == 5 {
        "5"
    } else if d == 6 {
        "6"
    } else if d == 7 {
        "7"
    } else if d == 8 {
        "8"
    } else {
        "9"
    };
    assert(s@ =~= seq![digit_char(d as int)]);
    s
}

/// `n` written in decimal.
fn decimal_string(n: usize) -> (s: String)
    ensures
        s@ == decimal(n as nat),
    decreases n,
{
    if n < 10 {
        digit_str(n).to_owned()
    } else {
        let head = decimal_string(n / 10);
        let r = head.concat(digit_str(n % 10));
        assert(r@ =~= decimal(n as nat));
        r
    }
}

/// A buffer made from a vector holds the vector's bytes, all live.
pub proof fn lemma_from_vec(v: Vec<u8>)
    ensures
        <MsgBuffer as vstd::std_specs::convert::FromSpec<Vec<u8>>>::from_spec(v).wf(),
        <MsgBuffer as vstd::std_specs::convert::FromSpec<Vec<u8>>>::from_spec(v).model() == (BufModel {
            data: v@,
            pos: 0,
            end: v@.len() as int,
            limit: MAX_BUF_SIZE as int,
        }),
        <MsgBuffer as vstd::std_specs::convert::FromSpec<Vec<u8>>>::from_spec(v)@ == v@,
{
    assert(<MsgBuffer as vstd::std_specs::convert::FromSpec<Vec<u8>>>::from_spec(v)@ =~= v@);
}

/// A read buffer for a connection: a `MsgBuffer` under the name that the
/// connection code uses.
pub struct MsgBufferStatic {
    inner: MsgBuffer,
}

impl View for MsgBufferStatic {
    type V = Seq<u8>;

    open spec fn view(&self) -> Seq<u8> {
        self.model().contents()
    }
}

impl MsgBufferStatic {
    pub closed spec fn model(&self) -> BufModel {
        self.inner.model()
    }

    pub open spec fn wf(&self) -> bool {
        self.model().wf()
    }

    /// An empty buffer as `MsgBuffer::new` makes it.
    pub fn new() -> (r: MsgBufferStatic)
        ensures
            r.wf(),
            r.model() == (BufModel {
                data: zeros(DEFAULT_BUF_SIZE as int),
                pos: 0,
                end: 0,
                limit: MAX_BUF_SIZE as int,
            }),
            r@ == Seq::<u8>::empty(),
    {
        MsgBufferStatic { inner: MsgBuffer::new() }
    }

    /// The read position and the end of the live bytes, as
    /// `" <pos> - <end>"` in decimal.
    pub fn to_string(&self) -> (r: String)
        ensures
            r@ == " "@ + decimal(self.model().pos as nat) + " - "@ + decimal(self.model().end as nat),
    {
        let r = " ".to_owned().concat(decimal_string(self.inner.pos).as_str()).concat(" - ").concat(
            decimal_string(self.inner.l).as_str(),
        );
        r
    }

    /// As `MsgBuffer::compact_fits`.
    pub fn compact_fits(&self) -> (r: bool)
        requires
            self.wf(),
        ensures
            r == self.model().compact_ok(),
    {
        self.inner.compact_fits()
    }

    /// As `MsgBuffer::extend_fits`.
    pub fn extend_fits(&self, n: usize) -> (r: bool)
        requires
            self.wf(),
        ensures
            r == self.model().extend_ok(n as int),
    {
        self.inner.extend_fits(n)
    }

    /// As `MsgBuffer::shift_fits`.
    pub fn shift_fits(&self, len: usize) -> (r: bool)
        requires
            self.wf(),
        ensures
            r == (self.model().compact_ok() && (len < self@.len() ==> self.model().with_range(
                self.model().pos + len,
                self.model().end,
            ).compact_ok())),
    {
        self.inner.shift_fits(len)
    }

    /// The end of the live bytes within the allocation.
    pub fn end(&self) -> (r: usize)
        ensures
            r == self.model().end,
    {
        self.inner.l
    }

    /// As `MsgBuffer::spare`.
    pub fn spare(&mut self, l: usize) -> (r: &mut [u8])
        requires
            old(self).wf(),
            old(self).model().extend_ok(l as int),
        ensures
            r@ == old(self).model().spared(l as int).data.subrange(
                old(self).model().spared(l as int).end,
                old(self).model().spare_end(l as int),
            ),
            final(r)@.len() == old(self).model().spare_end(l as int) - old(self).model().spared(
                l as int,
            ).end,
            final(r)@.len() >= l,
            final(self).model() == old(self).model().spare_filled(l as int, final(r)@),
            final(self).wf(),
            final(self)@ == old(self)@,
    {
        self.inner.spare(l)
    }

    /// Number of live bytes.
    pub fn len(&self) -> (r: usize)
        requires
            self.wf(),
        ensures
            r == self@.len(),
    {
        self.inner.len()
    }

    /// As `MsgBuffer::truncate`.
    pub fn truncate(&mut self, len: usize)
        requires
            old(self).wf(),
            old(self).model().pos + len <= usize::MAX,
        ensures
            final(self).wf(),
            final(self).model() == old(self).model().truncated(len as int),
            len <= old(self)@.len() ==> final(self)@ == old(self)@.subrange(0, len as int),
    {
        self.inner.truncate(len)
    }

    /// The live bytes.
    pub fn as_slice(&self) -> (r: &[u8])
        requires
            self.wf(),
        ensures
            r@ == self@,
    {
        self.inner.as_slice()
    }

    /// As `MsgBuffer::shift`.
    pub fn shift(&mut self, len: usize)
        requires
            old(self).wf(),
            old(self).model().compact_ok(),
            len < old(self)@.len() ==> old(self).model().with_range(
                old(self).model().pos + len,
                old(self).model().end,
            ).compact_ok(),
        ensures
            final(self).wf(),
            final(self).model() == old(self).model().shifted(len as int),
            len < old(self)@.len() ==> final(self)@ == old(self)@.subrange(len as int, old(self)@.len() as int),
            len >= old(self)@.len() ==> final(self)@ == Seq::<u8>::empty(),
    {
        self.inner.shift(len)
    }

    /// As `MsgBuffer::next`.
    pub fn next(&mut self) -> (r: Option<u8>)
        requires
            old(self).wf(),
            old(self).model().compact_ok(),
        ensures
            final(self).wf(),
            old(self)@.len() == 0 ==> r is None && final(self).model() == old(self).model().cleared(),
            old(self)@.len() > 0 ==> r == Some(old(self)@[0]) && final(self).model()
                == old(self).model().with_range(old(self).model().pos + 1, old(self).model().end),
            old(self)@.len() > 0 ==> final(self)@ == old(self)@.drop_first(),
    {
        self.inner.next()
    }

    /// As `MsgBuffer::nth`.
    pub fn nth(&mut self, n: usize) -> (r: Option<u8>)
        requires
            old(self).wf(),
            old(self).model().compact_ok(),
        ensures
            final(self).wf(),
            n >= old(self)@.len() ==> r is None && final(self).model() == old(self).model().cleared(),
            n < old(self)@.len() ==> r == Some(old(self)@[n as int]) && final(self).model()
                == old(self).model().with_range(old(self).model().pos + n + 1, old(self).model().end),
            n < old(self)@.len() ==> final(self)@ == old(self)@.subrange(n + 1, old(self)@.len() as int),
    {
        self.inner.nth(n)
    }

    /// As `MsgBuffer::reset`.
    pub fn reset(&mut self)
        requires
            old(self).wf(),
            old(self).model().compact_ok(),
        ensures
            final(self).wf(),
            final(self).model() == old(self).model().cleared(),
            final(self)@ == Seq::<u8>::empty(),
    {
        self.inner.reset()
    }
}

/// A stack of buffers kept for reuse, up to `max_buf_num` of them.
pub struct MsgBufferPool {
    vec_pool: Vec<MsgBuffer>,
    max_buf_num: usize,
    max_buf_size: usize,
    default_buf_size: usize,
}

impl MsgBufferPool {
    pub closed spec fn pooled(&self) -> Seq<MsgBuffer> {
        self.vec_pool@
    }

    pub closed spec fn max_buf_num(&self) -> usize {
        self.max_buf_num
    }

    pub closed spec fn max_buf_size(&self) -> usize {
        self.max_buf_size
    }

    pub closed spec fn default_buf_size(&self) -> usize {
        self.default_buf_size
    }

    /// Every kept buffer is well formed.
    pub open spec fn wf(&self) -> bool {
        forall|i: int| 0 <= i < self.pooled().len() ==> #[trigger] self.pooled()[i].wf()
    }

    /// An empty pool keeping up to 64 buffers of the default sizes.
    pub fn new() -> (r: MsgBufferPool)
        ensures
            r.wf(),
            r.pooled() == Seq::<MsgBuffer>::empty(),
            r.max_buf_num() == 64,
            r.max_buf_size() == MAX_BUF_SIZE,
            r.default_buf_size() == DEFAULT_BUF_SIZE,
    {
        MsgBufferPool {
            vec_pool: Vec::new(),
            max_buf_num: 64,
            max_buf_size: MAX_BUF_SIZE,
            default_buf_size: DEFAULT_BUF_SIZE,
        }
    }

    pub fn with_max_buf_num(self, size: usize) -> (r: MsgBufferPool)
        ensures
            r.pooled() == self.pooled(),
            r.max_buf_num() == size,
            r.max_buf_size() == self.max_buf_size(),
            r.default_buf_size() == self.default_buf_size(),
    {
        let mut s = self;
        s.max_buf_num = size;
        s
    }

    pub fn with_max_buf_size(self, size: usize) -> (r: MsgBufferPool)
        ensures
            r.pooled() == self.pooled(),
            r.max_buf_num() == self.max_buf_num(),
            r.max_buf_size() == size,
            r.default_buf_size() == self.default_buf_size(),
    {
        let mut s = self;
        s.max_buf_size = size;
        s
    }

    pub fn with_default_buf_size(self, size: usize) -> (r: MsgBufferPool)
        ensures
            r.pooled() == self.pooled(),
            r.max_buf_num() == self.max_buf_num(),
            r.max_buf_size() == self.max_buf_size(),
            r.default_buf_size() == size,
    {
        let mut s = self;
        s.default_buf_size = size;
        s
    }

    /// Whether `get` can hand out a buffer: one is kept, or a fresh one of
    /// the default size can be allocated.
    pub fn get_fits(&self) -> (r: bool)
        ensures
            r == (self.pooled().len() > 0 || self.default_buf_size() <= alloc_limit()),
    {
        self.vec_pool.len() > 0 || self.default_buf_size as u128 <= isize::MAX as u128
    }

    /// The most recently kept buffer, or a fresh one of the pool's default
    /// size when none is kept.
    pub fn get(&mut self) -> (r: MsgBuffer)
        requires
            old(self).wf(),
            old(self).pooled().len() == 0 ==> old(self).default_buf_size() <= alloc_limit(),
        ensures
            final(self).wf(),
            r.wf(),
            final(self).max_buf_num() == old(self).max_buf_num(),
            final(self).max_buf_size() == old(self).max_buf_size(),
            final(self).default_buf_size() == old(self).default_buf_size(),
            old(self).pooled().len() > 0 ==> r == old(self).pooled().last() && final(self).pooled()
                == old(self).pooled().drop_last(),
            old(self).pooled().len() == 0 ==> final(self).pooled() == old(self).pooled() && r.model()
                == (BufModel {
                data: zeros(old(self).default_buf_size() as int),
                pos: 0,
                end: 0,
                limit: old(self).default_buf_size() as int,
            }),
    {
        match self.vec_pool.pop() {
            Some(inner) => {
                assert(old(self).pooled()[old(self).pooled().len() - 1].wf());
                inner
            },
            None => MsgBuffer::new_with_param(self.default_buf_size, self.max_buf_size),
        }
    }

    /// Keeps `inner` for reuse unless `max_buf_num` buffers are kept already.
    pub fn put(&mut self, inner: MsgBuffer)
        requires
            old(self).wf(),
            inner.wf(),
        ensures
            final(self).wf(),
            final(self).max_buf_num() == old(self).max_buf_num(),
            final(self).max_buf_size() == old(self).max_buf_size(),
            final(self).default_buf_size() == old(self).default_buf_size(),
            final(self).pooled() == kept_after_put(
                old(self).pooled(),
                old(self).max_buf_num() as int,
                inner,
            ),
    {
        if self.vec_pool.len() < self.max_buf_num {
            self.vec_pool.push(inner);
            assert(forall|i: int| 0 <= i < old(self).pooled().len() ==> self.pooled()[i] == old(self).pooled()[i]);
        }
    }
}

} // verus!
