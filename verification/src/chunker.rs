//! Partition of a byte buffer into contiguous chunks bounded by a capacity.

use vstd::prelude::*;
use vstd::slice::slice_subrange;

verus! {

/// One contiguous slice `[start, end)` of the input buffer, rendered as the
/// symbol with number `index`.
#[derive(Clone, Copy, Debug, PartialEq, Eq, Structural)]
pub struct Chunk {
    pub index: usize,
    pub start: usize,
    pub end: usize,
}

/// Number of chunks that a buffer of `len` bytes needs at `capacity` bytes per
/// chunk: `len / capacity`, rounded up.
pub open spec fn chunk_count(len: int, capacity: int) -> int {
    (len + capacity - 1) / capacity
}

/// First byte of chunk `i`.
pub open spec fn chunk_start(i: int, capacity: int) -> int {
    i * capacity
}

/// One past the last byte of chunk `i`: a full chunk further on, or the end
/// of the buffer where that comes first.
pub open spec fn chunk_end(i: int, len: int, capacity: int) -> int {
    if (i + 1) * capacity < len {
        (i + 1) * capacity
    } else {
        len
    }
}

impl Chunk {
    /// The number of bytes that the chunk covers.
    pub open spec fn spec_len(self) -> int {
        self.end - self.start
    }

    /// `self` is chunk `i` of a buffer of `len` bytes cut at `capacity`.
    pub open spec fn is_nth(self, i: int, len: int, capacity: int) -> bool {
        &&& self.index == i
        &&& self.start == chunk_start(i, capacity)
        &&& self.end == chunk_end(i, len, capacity)
    }

    /// The number of bytes that the chunk covers.
    pub fn len(&self) -> (n: usize)
        requires
            self.start <= self.end,
        ensures
            n == self.spec_len(),
    {
        self.end - self.start
    }
}

/// Chunk `i` of a buffer of `len` bytes cut at `capacity`.
pub open spec fn spec_nth_chunk(i: int, len: int, capacity: int) -> Chunk {
    Chunk {
        index: i as usize,
        start: chunk_start(i, capacity) as usize,
        end: chunk_end(i, len, capacity) as usize,
    }
}

/// `chunks` is the whole partition of a buffer of `len` bytes at `capacity`.
pub open spec fn is_split(chunks: Seq<Chunk>, len: int, capacity: int) -> bool {
    &&& chunks.len() == chunk_count(len, capacity)
    &&& forall|i: int| 0 <= i < chunks.len() ==> (#[trigger] chunks[i]).is_nth(i, len, capacity)
}

/// The bytes of `chunks`, taken out of `buffer` and joined in order.
pub open spec fn reassemble(buffer: Seq<u8>, chunks: Seq<Chunk>) -> Seq<u8>
    decreases chunks.len(),
{
    if chunks.len() == 0 {
        Seq::empty()
    } else {
        reassemble(buffer, chunks.drop_last()) + buffer.subrange(
            chunks.last().start as int,
            chunks.last().end as int,
        )
    }
}

proof fn lemma_mul_step(i: int, capacity: int)
    ensures
        (i + 1) * capacity == i * capacity + capacity,
        (i - 1) * capacity == i * capacity - capacity,
{
    assert((i + 1) * capacity == i * capacity + capacity) by (nonlinear_arith);
    assert((i - 1) * capacity == i * capacity - capacity) by (nonlinear_arith);
}

proof fn lemma_mul_ordered(i: int, j: int, capacity: int)
    requires
        i <= j,
        capacity > 0,
    ensures
        i * capacity <= j * capacity,
{
    assert(i * capacity <= j * capacity) by (nonlinear_arith)
        requires
            i <= j,
            capacity > 0,
    ;
}

/// The chunk count is the ceiling of `len / capacity`: the one `k` with
/// `(k - 1) * capacity < len <= k * capacity`, and 0 for the empty buffer.
pub proof fn lemma_chunk_count_is_ceiling(len: int, capacity: int)
    requires
        len >= 0,
        capacity > 0,
    ensures
        chunk_count(len, capacity) >= 0,
        len == 0 <==> chunk_count(len, capacity) == 0,
        (chunk_count(len, capacity) - 1) * capacity < len,
        len <= chunk_count(len, capacity) * capacity,
        chunk_count(len, capacity) <= len,
{
    let k = chunk_count(len, capacity);
    let total = len + capacity - 1;
    if k >= 1 {
        assert(k - 1 <= (k - 1) * capacity) by (nonlinear_arith)
            requires
                k >= 1,
                capacity >= 1,
        ;
    }
    assert(total == capacity * (total / capacity) + total % capacity && 0 <= total % capacity
        < capacity) by (nonlinear_arith)
        requires
            capacity > 0,
    ;
    assert(capacity * k == k * capacity) by (nonlinear_arith);
    lemma_mul_step(k, capacity);
    if k < 0 {
        lemma_mul_ordered(k, -1, capacity);
    }
    if k >= 1 {
        lemma_mul_ordered(1, k, capacity);
    }
}

/// Where chunk `i` of a partition lies: it starts inside the buffer, holds at
/// least one byte and at most `capacity`, exactly `capacity` unless it is the
/// last, and the last one ends where the buffer ends.
pub proof fn lemma_chunk_bounds(i: int, len: int, capacity: int)
    requires
        capacity > 0,
        0 <= i < chunk_count(len, capacity),
        len >= 0,
    ensures
        0 <= chunk_start(i, capacity) < chunk_end(i, len, capacity) <= len,
        chunk_end(i, len, capacity) - chunk_start(i, capacity) <= capacity,
        i + 1 < chunk_count(len, capacity) ==> chunk_end(i, len, capacity) - chunk_start(
            i,
            capacity,
        ) == capacity,
        i + 1 == chunk_count(len, capacity) ==> chunk_end(i, len, capacity) == len,
        i + 1 < chunk_count(len, capacity) ==> chunk_end(i, len, capacity) == chunk_start(
            i + 1,
            capacity,
        ),
{
    let k = chunk_count(len, capacity);
    lemma_chunk_count_is_ceiling(len, capacity);
    lemma_mul_step(i, capacity);
    lemma_mul_ordered(0, i, capacity);
    lemma_mul_ordered(i, k - 1, capacity);
    if i + 1 < k {
        lemma_mul_ordered(i + 1, k - 1, capacity);
    } else {
        assert(i + 1 == k);
    }
}

/// Every buffer is the concatenation of its chunks: joined in index order
/// they give back exactly the bytes that were cut.
pub proof fn lemma_split_reassembles(buffer: Seq<u8>, capacity: int, chunks: Seq<Chunk>)
    requires
        capacity > 0,
        is_split(chunks, buffer.len() as int, capacity),
    ensures
        reassemble(buffer, chunks) == buffer,
{
    let len = buffer.len() as int;
    lemma_chunk_count_is_ceiling(len, capacity);
    lemma_reassemble_prefix(buffer, capacity, chunks, chunks.len() as int);
    assert(chunks.take(chunks.len() as int) == chunks);
    if chunks.len() == 0 {
        assert(buffer == Seq::<u8>::empty());
    } else {
        lemma_chunk_bounds(chunks.len() - 1, len, capacity);
        assert(buffer.subrange(0, len) == buffer);
    }
}

proof fn lemma_reassemble_prefix(buffer: Seq<u8>, capacity: int, chunks: Seq<Chunk>, n: int)
    requires
        capacity > 0,
        is_split(chunks, buffer.len() as int, capacity),
        0 <= n <= chunks.len(),
    ensures
        n == 0 ==> reassemble(buffer, chunks.take(n)) == Seq::<u8>::empty(),
        n > 0 ==> reassemble(buffer, chunks.take(n)) == buffer.subrange(
            0,
            chunk_end(n - 1, buffer.len() as int, capacity),
        ),
    decreases n,
{
    let len = buffer.len() as int;
    if n > 0 {
        let prefix = chunks.take(n);
        let last = chunks[n - 1];
        assert(prefix.last() == last);
        assert(prefix.drop_last() == chunks.take(n - 1));
        assert(last.is_nth(n - 1, len, capacity));
        lemma_reassemble_prefix(buffer, capacity, chunks, n - 1);
        lemma_chunk_bounds(n - 1, len, capacity);
        if n == 1 {
            assert(chunk_start(0, capacity) == 0) by (nonlinear_arith);
            assert(Seq::<u8>::empty() + buffer.subrange(0, last.end as int) == buffer.subrange(
                0,
                last.end as int,
            ));
        } else {
            lemma_chunk_bounds(n - 2, len, capacity);
            assert(chunks[n - 2].is_nth(n - 2, len, capacity));
            let mid = chunk_end(n - 2, len, capacity);
            assert(last.start == mid);
            assert(buffer.subrange(0, mid) + buffer.subrange(mid, last.end as int)
                == buffer.subrange(0, last.end as int));
        }
    }
}

/// The chunks of a partition lie end to end: the first starts at byte 0, each
/// starts where the one before it ends, and the last ends with the buffer.
pub proof fn lemma_chunks_contiguous(chunks: Seq<Chunk>, len: int, capacity: int)
    requires
        capacity > 0,
        len >= 0,
        is_split(chunks, len, capacity),
    ensures
        chunks.len() > 0 ==> chunks[0].start == 0 && chunks.last().end == len,
        forall|i: int|
            0 <= i < chunks.len() - 1 ==> (#[trigger] chunks[i]).end == chunks[i + 1].start,
        forall|i: int| 0 <= i < chunks.len() ==> (#[trigger] chunks[i]).start < chunks[i].end,
{
    if chunks.len() > 0 {
        assert(chunks[0].is_nth(0, len, capacity));
        assert(chunk_start(0, capacity) == 0) by (nonlinear_arith);
        assert(chunks.last().is_nth(chunks.len() - 1, len, capacity));
        lemma_chunk_bounds(chunks.len() - 1, len, capacity);
    }
    assert forall|i: int| 0 <= i < chunks.len() - 1 implies (#[trigger] chunks[i]).end
        == chunks[i + 1].start by {
        lemma_chunk_bounds(i, len, capacity);
        assert(chunks[i + 1].is_nth(i + 1, len, capacity));
    }
    assert forall|i: int| 0 <= i < chunks.len() implies (#[trigger] chunks[i]).start
        < chunks[i].end by {
        lemma_chunk_bounds(i, len, capacity);
    }
}

/// Every chunk but the last holds exactly `capacity` bytes, and the last one
/// holds between 1 and `capacity`.
pub proof fn lemma_chunk_lengths(chunks: Seq<Chunk>, len: int, capacity: int)
    requires
        capacity > 0,
        len >= 0,
        is_split(chunks, len, capacity),
    ensures
        forall|i: int|
            0 <= i < chunks.len() - 1 ==> (#[trigger] chunks[i]).spec_len() == capacity,
        chunks.len() > 0 ==> 1 <= chunks.last().spec_len() <= capacity,
{
    assert forall|i: int| 0 <= i < chunks.len() - 1 implies (#[trigger] chunks[i]).spec_len()
        == capacity by {
        lemma_chunk_bounds(i, len, capacity);
    }
    if chunks.len() > 0 {
        assert(chunks.last().is_nth(chunks.len() - 1, len, capacity));
        lemma_chunk_bounds(chunks.len() - 1, len, capacity);
    }
}

/// A buffer of exactly `k` capacities is cut into `k` chunks, and its last
/// chunk is a full one, not an empty one after it.
pub proof fn lemma_exact_multiple(chunks: Seq<Chunk>, k: int, capacity: int)
    requires
        capacity > 0,
        k >= 0,
        is_split(chunks, k * capacity, capacity),
    ensures
        chunks.len() == k,
        k > 0 ==> chunks.last().spec_len() == capacity,
{
    let len = k * capacity;
    lemma_mul_ordered(0, k, capacity);
    lemma_chunk_count_is_ceiling(len, capacity);
    let n = chunk_count(len, capacity);
    if n < k {
        lemma_mul_ordered(n, k - 1, capacity);
        lemma_mul_step(k, capacity);
    }
    if n > k {
        lemma_mul_ordered(k, n - 1, capacity);
    }
    if k > 0 {
        assert(chunks.last().is_nth(k - 1, len, capacity));
        lemma_mul_step(k - 1, capacity);
    }
}

/// The number of chunks that `len` bytes need at `capacity` bytes per chunk.
pub fn count_chunks(len: usize, capacity: usize) -> (count: usize)
    requires
        capacity > 0,
    ensures
        count == chunk_count(len as int, capacity as int),
        count <= len,
{
    let whole = len / capacity;
    proof {
        let l = len as int;
        let c = capacity as int;
        assert(l == c * (l / c) + l % c && l / c <= c * (l / c)) by (nonlinear_arith)
            requires
                c > 0,
                l >= 0,
        ;
    }
    let count = if len % capacity == 0 {
        whole
    } else {
        whole + 1
    };
    proof {
        let l = len as int;
        let c = capacity as int;
        lemma_chunk_count_is_ceiling(l, c);
        let k = chunk_count(l, c);
        assert(l == c * (l / c) + l % c && 0 <= l % c < c) by (nonlinear_arith)
            requires
                c > 0,
                l >= 0,
        ;
        assert(c * (l / c) == (l / c) * c) by (nonlinear_arith);
        let w = l / c;
        lemma_mul_step(w, c);
        if l % c == 0 {
            if k < w {
                lemma_mul_ordered(k, w - 1, c);
            }
            if k > w {
                lemma_mul_ordered(w, k - 1, c);
            }
        } else {
            if k < w + 1 {
                lemma_mul_ordered(k, w, c);
            }
            if k > w + 1 {
                lemma_mul_ordered(w + 1, k - 1, c);
            }
        }
    }
    count
}

/// Chunk `i` of a buffer of `len` bytes cut at `capacity`.
pub fn nth_chunk(len: usize, capacity: usize, i: usize) -> (chunk: Chunk)
    requires
        capacity > 0,
        i < chunk_count(len as int, capacity as int),
    ensures
        chunk == spec_nth_chunk(i as int, len as int, capacity as int),
        chunk.is_nth(i as int, len as int, capacity as int),
        chunk.start < chunk.end <= len,
        chunk.spec_len() <= capacity,
{
    proof {
        lemma_chunk_bounds(i as int, len as int, capacity as int);
        lemma_mul_step(i as int, capacity as int);
    }
    let start = i * capacity;
    let end = if len - start > capacity {
        start + capacity
    } else {
        len
    };
    Chunk { index: i, start, end }
}

/// Cuts `buffer` into its chunks, in index order: chunk `i` covers the bytes
/// from `i * capacity` up to `(i + 1) * capacity`, or up to the end of the
/// buffer where that comes first. An empty buffer has no chunks.
pub fn split(buffer: &[u8], capacity: usize) -> (chunks: Vec<Chunk>)
    requires
        capacity > 0,
    ensures
        is_split(chunks@, buffer@.len() as int, capacity as int),
        buffer@.len() == 0 ==> chunks@.len() == 0,
{
    let len = buffer.len();
    let count = count_chunks(len, capacity);
    let mut chunks: Vec<Chunk> = Vec::new();
    let mut i: usize = 0;
    while i < count
        invariant
            capacity > 0,
            len == buffer@.len(),
            count == chunk_count(len as int, capacity as int),
            i <= count,
            chunks@.len() == i,
            forall|j: int|
                0 <= j < i ==> (#[trigger] chunks@[j]).is_nth(j, len as int, capacity as int),
        decreases count - i,
    {
        let chunk = nth_chunk(len, capacity, i);
        chunks.push(chunk);
        i += 1;
    }
    proof {
        lemma_chunk_count_is_ceiling(len as int, capacity as int);
    }
    chunks
}

/// The bytes of `buffer` that `chunk` covers.
pub fn chunk_bytes<'a>(buffer: &'a [u8], chunk: &Chunk) -> (bytes: &'a [u8])
    requires
        chunk.start <= chunk.end <= buffer@.len(),
    ensures
        bytes@ == buffer@.subrange(chunk.start as int, chunk.end as int),
{
    slice_subrange(buffer, chunk.start, chunk.end)
}

} // verus!
