use crate::encoding::{sha256_digest, spec_sha256, spec_to_hex, to_hex};
use crate::utils::{
    header_value, parse_u64, spec_header_value, spec_parse_u64, spec_u64_string, u64_to_string,
    Locator,
};
use vstd::arithmetic::div_mod::{lemma_fundamental_div_mod, lemma_mod_bound};
use vstd::arithmetic::mul::{lemma_mul_inequality, lemma_mul_is_distributive_add_other_way};
use vstd::prelude::*;
use vstd::std_specs::vec::vec_index_mut;

verus! {

/// One contiguous byte range `[x_offset, y_offset]` (inclusive bounds) of a
/// download, with a counter of the bytes received for it.
///
/// `x_init` remembers the start byte the range was designed with at partition
/// time: resuming advances `x_offset` past bytes already on disk, while
/// completion is always measured against the designed span
/// `y_offset - x_init + 1`.
#[derive(Clone, Copy, Debug, PartialEq, Eq, Structural)]
pub struct Chunk {
    pub x_offset: u64,
    pub y_offset: u64,
    pub x_init: u64,
    pub downloaded: u64,
}

impl Chunk {
    /// The full byte count the chunk was designed to cover.
    pub open spec fn spec_size(self) -> int {
        self.y_offset - self.x_init + 1
    }

    /// The chunk's structural invariant: the current start sits between the
    /// designed start and the end, and the counter accounts at least for the
    /// advance already applied and never exceeds the designed span.
    pub open spec fn wf(self) -> bool {
        &&& self.x_init <= self.x_offset <= self.y_offset
        &&& self.x_offset - self.x_init <= self.downloaded <= self.spec_size()
    }

    /// Whether the chunk's whole designed span has been received.
    pub open spec fn complete(self) -> bool {
        self.downloaded == self.spec_size()
    }

    /// Whether the chunk is still exactly as the partitioner designed it:
    /// nothing received, start not advanced.
    pub open spec fn fresh(self) -> bool {
        self.x_offset == self.x_init && self.downloaded == 0
    }

    pub fn new(x_offset: u64, y_offset: u64) -> (c: Chunk)
        requires
            x_offset <= y_offset,
        ensures
            c == (Chunk { x_offset, y_offset, x_init: x_offset, downloaded: 0 }),
            c.wf(),
            c.fresh(),
    {
        Chunk { x_offset, y_offset, x_init: x_offset, downloaded: 0 }
    }

    /// Reports whether the chunk is complete, so that a resumed fetch can
    /// skip it without issuing a request.
    pub fn is_downloaded(&self) -> (b: bool)
        requires
            self.wf(),
        ensures
            b == self.complete(),
    {
        self.downloaded > self.y_offset - self.x_init
    }
}

/// A task's chunking mode: one explicit range (single-connection but
/// resumable), an ordered list of ranges fetched concurrently, or no range at
/// all (whole-file sequential fetch of a resource of unknown size).
#[derive(Clone, Debug)]
pub enum ChunkType {
    Single(Chunk),
    Multiple(Vec<Chunk>),
    Whole,
}

/// The sum of the chunks' received-byte counters.
pub open spec fn sum_downloaded(chunks: Seq<Chunk>) -> int
    decreases chunks.len(),
{
    if chunks.len() == 0 {
        0
    } else {
        sum_downloaded(chunks.drop_last()) + chunks.last().downloaded
    }
}

/// The sum of the chunks' designed spans.
pub open spec fn sum_sizes(chunks: Seq<Chunk>) -> int
    decreases chunks.len(),
{
    if chunks.len() == 0 {
        0
    } else {
        sum_sizes(chunks.drop_last()) + chunks.last().spec_size()
    }
}

/// The sum of a sequence of measured sizes.
pub open spec fn sum_u64(vals: Seq<u64>) -> int
    decreases vals.len(),
{
    if vals.len() == 0 {
        0
    } else {
        sum_u64(vals.drop_last()) + vals.last()
    }
}

/// The chunks' designed ranges tile `[0, total]` in order: the first starts
/// at byte 0, each later one starts right after its predecessor's end, and
/// the last ends at `total`.
pub open spec fn chunks_contiguous(chunks: Seq<Chunk>, total: u64) -> bool {
    &&& chunks.len() >= 1
    &&& chunks[0].x_init == 0
    &&& chunks[chunks.len() - 1].y_offset == total
    &&& forall|i: int| 0 <= i < chunks.len() ==> #[trigger] chunks[i].x_init <= chunks[i].y_offset
    &&& forall|i: int|
        0 <= i < chunks.len() - 1 ==> #[trigger] chunks[i + 1].x_init == chunks[i].y_offset + 1
}

/// A contiguous tiling of `[0, total]` has designed spans that sum to
/// `total + 1`, the whole byte count under the inclusive bound convention.
pub proof fn lemma_sum_sizes_contiguous(chunks: Seq<Chunk>, total: u64)
    requires
        chunks_contiguous(chunks, total),
    ensures
        sum_sizes(chunks) == total + 1,
    decreases chunks.len(),
{
    if chunks.len() == 1 {
        assert(sum_sizes(chunks.drop_last()) == 0);
    } else {
        let prefix = chunks.drop_last();
        let prev_total = chunks[chunks.len() - 2].y_offset;
        let k = chunks.len() - 2;
        assert(chunks[k + 1].x_init == chunks[k].y_offset + 1);
        assert(forall|i: int|
            0 <= i < prefix.len() - 1 ==> #[trigger] prefix[i + 1].x_init == prefix[i].y_offset
                + 1) by {
            assert(forall|i: int| 0 <= i < prefix.len() ==> prefix[i] == chunks[i]);
        }
        assert(chunks_contiguous(prefix, prev_total));
        lemma_sum_sizes_contiguous(prefix, prev_total);
    }
}

/// When every chunk is complete, the counters sum to exactly the designed
/// spans' sum.
pub proof fn lemma_sum_downloaded_complete(chunks: Seq<Chunk>)
    requires
        forall|i: int| 0 <= i < chunks.len() ==> (#[trigger] chunks[i]).complete(),
    ensures
        sum_downloaded(chunks) == sum_sizes(chunks),
    decreases chunks.len(),
{
    if chunks.len() > 0 {
        assert(forall|i: int|
            0 <= i < chunks.drop_last().len() ==> (#[trigger] chunks.drop_last()[i])
                == chunks[i]);
        lemma_sum_downloaded_complete(chunks.drop_last());
    }
}

// ---------------------------------------------------------------------------
// The partition algorithm's chunk layout, as closed formulas.
// ---------------------------------------------------------------------------
/// The integer chunk size the partition algorithm divides with.
pub open spec fn spec_chunk_size(total: u64, n: u64) -> int {
    total as int / n as int
}

/// The designed start byte of partition chunk `i`.
pub open spec fn spec_chunk_start(total: u64, n: u64, i: int) -> int {
    i * (spec_chunk_size(total, n) + 1)
}

/// The designed end byte of partition chunk `i`: the last chunk absorbs the
/// division remainder and ends at `total`.
pub open spec fn spec_chunk_end(total: u64, n: u64, i: int) -> int {
    if i == n - 1 {
        total as int
    } else {
        spec_chunk_start(total, n, i) + spec_chunk_size(total, n)
    }
}

/// Whether splitting `total` into `n` ranges is feasible: the last range's
/// designed start must not pass `total`. This holds whenever the size is not
/// tiny compared to the thread count (for example whenever
/// `total >= n * (n - 1)`), and fails only for degenerate pairs such as a
/// 9-byte resource split 7 ways.
pub open spec fn partition_feasible(total: u64, n: u64) -> bool {
    (n - 1) * (spec_chunk_size(total, n) + 1) <= total
}

/// Partition chunk `i` as the algorithm designs it.
pub open spec fn spec_partition_chunk(total: u64, n: u64, i: int) -> Chunk {
    Chunk {
        x_offset: spec_chunk_start(total, n, i) as u64,
        y_offset: spec_chunk_end(total, n, i) as u64,
        x_init: spec_chunk_start(total, n, i) as u64,
        downloaded: 0,
    }
}

proof fn lemma_partition_cell(total: u64, n: u64, i: int)
    requires
        1 <= n,
        partition_feasible(total, n),
        0 <= i < n,
    ensures
        0 <= spec_chunk_start(total, n, i),
        spec_chunk_start(total, n, i) <= spec_chunk_end(total, n, i) <= total,
        i < n - 1 ==> spec_chunk_start(total, n, i + 1) == spec_chunk_end(total, n, i) + 1,
{
    let cs = spec_chunk_size(total, n);
    assert(cs >= 0) by (nonlinear_arith)
        requires
            n >= 1,
            total >= 0,
            cs == total as int / n as int,
    ;
    assert(0 <= i * (cs + 1)) by (nonlinear_arith)
        requires
            i >= 0,
            cs >= 0,
    ;
    if i < n - 1 {
        lemma_mul_is_distributive_add_other_way(cs + 1, i, 1);
        assert((i + 1) * (cs + 1) == i * (cs + 1) + (cs + 1));
        lemma_mul_inequality(i + 1, n - 1, cs + 1);
        assert((i + 1) * (cs + 1) <= (n - 1) * (cs + 1));
    } else {
        assert(i * (cs + 1) == (n - 1) * (cs + 1));
    }
}

/// Structural facts of a feasible partition: starts are in range, each range
/// is non-empty and within `[0, total]`, ranges are contiguous, and the edge
/// chunks touch `0` and `total`.
pub proof fn lemma_partition_bounds(total: u64, n: u64)
    requires
        1 <= n,
        partition_feasible(total, n),
    ensures
        forall|i: int|
            0 <= i < n ==> 0 <= #[trigger] spec_chunk_start(total, n, i) <= spec_chunk_end(
                total,
                n,
                i,
            ) <= total,
        forall|i: int|
            0 <= i < n - 1 ==> #[trigger] spec_chunk_start(total, n, i + 1) == spec_chunk_end(
                total,
                n,
                i,
            ) + 1,
        spec_chunk_start(total, n, 0) == 0,
        spec_chunk_end(total, n, (n - 1) as int) == total,
{
    assert forall|i: int| 0 <= i < n implies 0 <= #[trigger] spec_chunk_start(total, n, i)
        <= spec_chunk_end(total, n, i) <= total by {
        lemma_partition_cell(total, n, i);
    }
    assert forall|i: int| 0 <= i < n - 1 implies #[trigger] spec_chunk_start(total, n, i + 1)
        == spec_chunk_end(total, n, i) + 1 by {
        lemma_partition_cell(total, n, i);
    }
}

/// Partition coverage law, existence half: every byte of `[0, total]` lies in
/// some designed range.
pub proof fn lemma_partition_covers_byte(total: u64, n: u64, b: int)
    requires
        total > 0,
        1 <= n <= 8,
        partition_feasible(total, n),
        0 <= b <= total,
    ensures
        exists|i: int|
            0 <= i < n && (#[trigger] spec_chunk_start(total, n, i)) <= b <= spec_chunk_end(
                total,
                n,
                i,
            ),
{
    let cs = spec_chunk_size(total, n);
    lemma_partition_bounds(total, n);
    let q = b / (cs + 1);
    lemma_fundamental_div_mod(b, cs + 1);
    lemma_mod_bound(b, cs + 1);
    assert((cs + 1) * q == q * (cs + 1)) by (nonlinear_arith);
    assert(q >= 0) by (nonlinear_arith)
        requires
            b >= 0,
            cs >= 0,
            q == b / (cs + 1),
    ;
    if q >= n - 1 {
        lemma_mul_inequality(n - 1, q, cs + 1);
        assert((n - 1) * (cs + 1) <= q * (cs + 1));
        assert(spec_chunk_start(total, n, (n - 1) as int) <= b);
        assert(spec_chunk_start(total, n, (n - 1) as int) <= b <= spec_chunk_end(
            total,
            n,
            (n - 1) as int,
        ));
    } else {
        assert(spec_chunk_start(total, n, q) <= b <= spec_chunk_end(total, n, q));
    }
}

/// Partition coverage law, uniqueness half: no byte lies in two distinct
/// designed ranges.
pub proof fn lemma_partition_disjoint(total: u64, n: u64, i: int, j: int, b: int)
    requires
        total > 0,
        1 <= n <= 8,
        partition_feasible(total, n),
        0 <= i < j < n,
        spec_chunk_start(total, n, i) <= b <= spec_chunk_end(total, n, i),
    ensures
        !(spec_chunk_start(total, n, j) <= b <= spec_chunk_end(total, n, j)),
{
    let cs = spec_chunk_size(total, n);
    lemma_partition_cell(total, n, i);
    lemma_mul_inequality(i + 1, j, cs + 1);
    assert((i + 1) * (cs + 1) <= j * (cs + 1));
    lemma_mul_is_distributive_add_other_way(cs + 1, i, 1);
    assert((i + 1) * (cs + 1) == i * (cs + 1) + (cs + 1));
    assert(spec_chunk_end(total, n, i) < spec_chunk_start(total, n, j));
}

/// How the resume planner advances one designed chunk past `m` bytes already
/// on disk: the counter is preset to `m`, and the start offset advances only
/// when the chunk is not already at full span.
pub open spec fn spec_advance(c: Chunk, m: u64) -> Chunk {
    if m < c.spec_size() {
        Chunk {
            x_offset: (c.x_offset + m) as u64,
            downloaded: (c.downloaded + m) as u64,
            ..c
        }
    } else {
        Chunk { downloaded: (c.downloaded + m) as u64, ..c }
    }
}

/// Advances one freshly designed chunk past `m` bytes already on disk.
fn advance_chunk(c: Chunk, m: u64) -> (r: Chunk)
    requires
        c.wf(),
        c.fresh(),
        m <= c.spec_size(),
    ensures
        r == spec_advance(c, m),
        r.wf(),
{
    if m <= c.y_offset - c.x_init {
        Chunk { x_offset: c.x_offset + m, downloaded: c.downloaded + m, ..c }
    } else {
        Chunk { downloaded: c.downloaded + m, ..c }
    }
}

/// Chunk counters that pointwise equal the measured sizes sum to the sizes'
/// sum.
pub proof fn lemma_sum_downloaded_pointwise(post: Seq<Chunk>, sizes: Seq<u64>)
    requires
        post.len() == sizes.len(),
        forall|i: int| 0 <= i < post.len() ==> (#[trigger] post[i]).downloaded == sizes[i],
    ensures
        sum_downloaded(post) == sum_u64(sizes),
    decreases post.len(),
{
    if post.len() > 0 {
        assert(forall|i: int|
            0 <= i < post.drop_last().len() ==> (#[trigger] post.drop_last()[i]) == post[i]);
        assert(forall|i: int|
            0 <= i < sizes.drop_last().len() ==> (#[trigger] sizes.drop_last()[i]) == sizes[i]);
        lemma_sum_downloaded_pointwise(post.drop_last(), sizes.drop_last());
    }
}

proof fn lemma_sum_sizes_pointwise(a: Seq<Chunk>, b: Seq<Chunk>)
    requires
        a.len() == b.len(),
        forall|i: int| 0 <= i < a.len() ==> (#[trigger] a[i]).spec_size() == b[i].spec_size(),
    ensures
        sum_sizes(a) == sum_sizes(b),
    decreases a.len(),
{
    if a.len() > 0 {
        assert(forall|i: int| 0 <= i < a.drop_last().len() ==> (#[trigger] a.drop_last()[i]) == a[i]);
        assert(forall|i: int| 0 <= i < b.drop_last().len() ==> (#[trigger] b.drop_last()[i]) == b[i]);
        lemma_sum_sizes_pointwise(a.drop_last(), b.drop_last());
    }
}

/// Resume correctness law: take a freshly designed contiguous layout covering
/// `[0, total]` and the measured on-disk size of each chunk's artifact, none
/// larger than its chunk's designed span. After the planner advances every
/// chunk, each chunk accounts exactly for its on-disk bytes; a chunk still
/// owed bytes starts its next request exactly past what is on disk (so no
/// byte already present is ever requested again); a chunk is complete, and
/// will be skipped, exactly when its whole span is on disk; and the bytes
/// still owed across all chunks are exactly the designed total minus what is
/// already on disk.
pub proof fn lemma_resume_correctness(pre: Seq<Chunk>, post: Seq<Chunk>, sizes: Seq<u64>, total: u64)
    requires
        chunks_contiguous(pre, total),
        forall|i: int| 0 <= i < pre.len() ==> (#[trigger] pre[i]).fresh(),
        sizes.len() == pre.len(),
        post.len() == pre.len(),
        forall|i: int| 0 <= i < pre.len() ==> sizes[i] <= (#[trigger] pre[i]).spec_size(),
        forall|i: int| 0 <= i < pre.len() ==> #[trigger] post[i] == spec_advance(pre[i], sizes[i]),
    ensures
        forall|i: int| 0 <= i < post.len() ==> (#[trigger] post[i]).downloaded == sizes[i],
        forall|i: int|
            0 <= i < post.len() && sizes[i] < pre[i].spec_size() ==> (#[trigger] post[i]).x_offset
                == pre[i].x_init + sizes[i],
        forall|i: int|
            0 <= i < post.len() ==> ((#[trigger] post[i]).complete() <==> sizes[i]
                == pre[i].spec_size()),
        sum_sizes(post) - sum_downloaded(post) == (total + 1) - sum_u64(sizes),
{
    assert forall|i: int| 0 <= i < post.len() implies (#[trigger] post[i]).downloaded
        == sizes[i] by {
        assert(pre[i].fresh());
    }
    assert forall|i: int| 0 <= i < post.len() implies (#[trigger] post[i]).spec_size()
        == pre[i].spec_size() by {
        assert(post[i] == spec_advance(pre[i], sizes[i]));
    }
    lemma_sum_downloaded_pointwise(post, sizes);
    lemma_sum_sizes_pointwise(post, pre);
    lemma_sum_sizes_contiguous(pre, total);
}

/// Resume correctness law at the task level: a multi-chunk layout the
/// resume planner produced from measured artifact sizes accounts exactly for
/// them — each chunk holds its measured bytes, each still-incomplete chunk's
/// next request starts right past its on-disk bytes, a chunk is complete
/// exactly when its whole span was on disk, and the bytes still owed across
/// the layout are the designed total minus what was already present.
pub proof fn lemma_plan_resume_correctness(chunks: Seq<Chunk>, sizes: Seq<u64>, total: u64, n: u64)
    requires
        2 <= n <= 8,
        total > 0,
        partition_feasible(total, n),
        sizes.len() == n,
        chunks.len() == n,
        forall|i: int|
            0 <= i < n ==> sizes[i] <= (#[trigger] spec_partition_chunk(total, n, i)).spec_size(),
        forall|i: int|
            0 <= i < n ==> #[trigger] chunks[i] == spec_advance(
                spec_partition_chunk(total, n, i),
                sizes[i],
            ),
    ensures
        forall|i: int| 0 <= i < n ==> (#[trigger] chunks[i]).downloaded == sizes[i],
        forall|i: int|
            0 <= i < n && sizes[i] < spec_partition_chunk(total, n, i).spec_size() ==> (
            #[trigger] chunks[i]).x_offset == spec_partition_chunk(total, n, i).x_init + sizes[i],
        forall|i: int|
            0 <= i < n ==> ((#[trigger] chunks[i]).complete() <==> sizes[i]
                == spec_partition_chunk(total, n, i).spec_size()),
        sum_sizes(chunks) - sum_downloaded(chunks) == (total + 1) - sum_u64(sizes),
{
    let pre = Seq::new(n as nat, |i: int| spec_partition_chunk(total, n, i));
    lemma_partition_bounds(total, n);
    assert forall|i: int| 0 <= i < pre.len() - 1 implies #[trigger] pre[i + 1].x_init
        == pre[i].y_offset + 1 by {
        lemma_partition_cell(total, n, i);
    }
    assert(chunks_contiguous(pre, total));
    lemma_resume_correctness(pre, chunks, sizes, total);
}

proof fn lemma_sum_downloaded_update(chunks: Seq<Chunk>, i: int, c2: Chunk)
    requires
        0 <= i < chunks.len(),
    ensures
        sum_downloaded(chunks.update(i, c2)) == sum_downloaded(chunks) - chunks[i].downloaded
            + c2.downloaded,
    decreases chunks.len(),
{
    let updated = chunks.update(i, c2);
    if i == chunks.len() - 1 {
        assert(updated.drop_last() =~= chunks.drop_last());
        assert(updated.last() == c2);
    } else {
        assert(updated.drop_last() =~= chunks.drop_last().update(i, c2));
        assert(updated.last() == chunks.last());
        lemma_sum_downloaded_update(chunks.drop_last(), i, c2);
    }
}

/// The content-length a cached header snapshot reports: the parsed value of
/// the `content-length` header, or 0 (meaning unknown) when the header is
/// absent or malformed.
pub open spec fn spec_content_length(headers: Seq<(String, String)>) -> u64 {
    match spec_header_value(headers, "content-length"@) {
        Some(v) => match spec_parse_u64(v) {
            Some(n) => n,
            None => 0,
        },
        None => 0,
    }
}

/// Whether a cached header snapshot says the server accepts byte ranges: the
/// `accept-ranges` header is present and not `none`.
pub open spec fn spec_allows_partial(headers: Seq<(String, String)>) -> bool {
    match spec_header_value(headers, "accept-ranges"@) {
        Some(v) => v != "none"@,
        None => false,
    }
}

/// One logical download: the locator, the destination filename (relative to
/// the download directory), the task-wide received-byte counter, the chunk
/// layout, extra request headers the caller asked for, the creation
/// timestamp, and a snapshot of the probe response headers (cached so header
/// values can be read without another request).
#[derive(Clone, Debug)]
pub struct HttpTask {
    pub iri: Locator,
    pub filename: String,
    pub total_downloaded: u64,
    pub chunk_data: ChunkType,
    pub additional_headers: Vec<(String, String)>,
    pub timestamp: String,
    pub headers: Vec<(String, String)>,
}

impl HttpTask {
    /// The cached probe response headers.
    pub open spec fn cached_headers(self) -> Seq<(String, String)> {
        self.headers@
    }

    /// The task invariant: every chunk is well formed and the task-wide
    /// counter equals the sum of the chunk counters.
    pub open spec fn wf(self) -> bool {
        match self.chunk_data {
            ChunkType::Whole => true,
            ChunkType::Single(c) => c.wf() && self.total_downloaded == c.downloaded,
            ChunkType::Multiple(cs) => {
                &&& forall|i: int| 0 <= i < cs@.len() ==> (#[trigger] cs@[i]).wf()
                &&& self.total_downloaded == sum_downloaded(cs@)
            },
        }
    }

    /// Builds a task that has no chunk layout yet and nothing downloaded.
    pub fn new(
        iri: Locator,
        filename: String,
        cached_headers: Vec<(String, String)>,
        additional_headers: Vec<(String, String)>,
        timestamp: String,
    ) -> (t: HttpTask)
        requires
            filename@.len() == 0 || filename@[0] != '/',
        ensures
            t.iri == iri,
            t.filename == filename,
            t.cached_headers() == cached_headers@,
            t.additional_headers == additional_headers,
            t.timestamp == timestamp,
            t.total_downloaded == 0,
            t.chunk_data is Whole,
            t.wf(),
    {
        HttpTask {
            iri,
            filename,
            headers: cached_headers,
            total_downloaded: 0,
            chunk_data: ChunkType::Whole,
            additional_headers,
            timestamp,
        }
    }

    /// The total size the probe reported, with 0 meaning "unknown", never
    /// "empty".
    pub fn content_length(&self) -> (r: u64)
        ensures
            r == spec_content_length(self.cached_headers()),
    {
        let key = "content-length".to_owned();
        match header_value(&self.headers, &key) {
            Some(length) => match parse_u64(length.as_str()) {
                Some(n) => n,
                None => 0,
            },
            None => 0,
        }
    }

    /// Whether the probed server accepts byte ranges, which gates concurrent
    /// chunked fetching.
    pub fn allows_partial_content(&self) -> (r: bool)
        ensures
            r == spec_allows_partial(self.cached_headers()),
    {
        let key = "accept-ranges".to_owned();
        let none_marker = "none".to_owned();
        match header_value(&self.headers, &key) {
            Some(value) => !(*value == none_marker),
            None => false,
        }
    }

    /// Installs the empty layout for the requested chunk count: one
    /// placeholder range for a single connection, an empty list otherwise.
    pub fn allocate_chunks(&mut self, number_of_chunks: usize)
        ensures
            *final(self) == (HttpTask { chunk_data: final(self).chunk_data, ..*old(self) }),
            number_of_chunks == 1 ==> final(self).chunk_data == ChunkType::Single(
                Chunk { x_offset: 0, y_offset: 0, x_init: 0, downloaded: 0 },
            ),
            number_of_chunks != 1 ==> (final(self).chunk_data matches ChunkType::Multiple(v)
                && v@.len() == 0),
    {
        if number_of_chunks == 1 {
            self.chunk_data = ChunkType::Single(Chunk::new(0, 0));
        } else {
            self.chunk_data = ChunkType::Multiple(Vec::new());
        }
    }

    /// The partition algorithm: splits `[0, content_length]` into
    /// `number_of_chunks` contiguous inclusive ranges, the integer-division
    /// remainder absorbed by the last; one connection gets the single range
    /// `[0, content_length]`.
    pub fn calculate_chunks(&mut self, number_of_chunks: u64)
        requires
            old(self).total_downloaded == 0,
            1 <= number_of_chunks <= 8,
            number_of_chunks > 1 ==> partition_feasible(
                spec_content_length(old(self).cached_headers()),
                number_of_chunks,
            ),
        ensures
            *final(self) == (HttpTask { chunk_data: final(self).chunk_data, ..*old(self) }),
            final(self).wf(),
            number_of_chunks == 1 ==> final(self).chunk_data == ChunkType::Single(
                Chunk {
                    x_offset: 0,
                    y_offset: spec_content_length(old(self).cached_headers()),
                    x_init: 0,
                    downloaded: 0,
                },
            ),
            number_of_chunks > 1 ==> (final(self).chunk_data matches ChunkType::Multiple(cs)
                && cs@.len() == number_of_chunks && (forall|i: int|
                0 <= i < cs@.len() ==> #[trigger] cs@[i] == spec_partition_chunk(
                    spec_content_length(old(self).cached_headers()),
                    number_of_chunks,
                    i,
                )) && chunks_contiguous(
                cs@,
                spec_content_length(old(self).cached_headers()),
            )),
    {
        let total = self.content_length();
        self.allocate_chunks(number_of_chunks as usize);

        match &mut self.chunk_data {
            ChunkType::Single(chunk) => {
                chunk.x_offset = 0;
                chunk.y_offset = total;
            },
            ChunkType::Multiple(chunks) => {
                let chunk_size = total / number_of_chunks;
                proof {
                    lemma_partition_bounds(total, number_of_chunks);
                }
                let mut i: u64 = 0;
                while i < number_of_chunks
                    invariant
                        2 <= number_of_chunks <= 8,
                        partition_feasible(total, number_of_chunks),
                        chunk_size == spec_chunk_size(total, number_of_chunks),
                        0 <= i <= number_of_chunks,
                        chunks@.len() == i,
                        forall|k: int|
                            0 <= k < i ==> #[trigger] chunks@[k] == spec_partition_chunk(
                                total,
                                number_of_chunks,
                                k,
                            ),
                    decreases number_of_chunks - i,
                {
                    proof {
                        lemma_partition_bounds(total, number_of_chunks);
                        lemma_partition_cell(total, number_of_chunks, i as int);
                        if i > 0 {
                            lemma_partition_cell(total, number_of_chunks, i - 1);
                        }
                    }
                    if i == 0 {
                        chunks.push(Chunk::new(0, chunk_size));
                    } else if i == number_of_chunks - 1 {
                        let start = chunks[(i - 1) as usize].y_offset + 1;
                        chunks.push(Chunk::new(start, total));
                    } else {
                        let start = chunks[(i - 1) as usize].y_offset + 1;
                        chunks.push(Chunk::new(start, start + chunk_size));
                    }
                    i = i + 1;
                }
                proof {
                    lemma_partition_bounds(total, number_of_chunks);
                    let cs = chunks@;
                    let k = cs.len() - 1;
                    assert(cs[k] == spec_partition_chunk(total, number_of_chunks, k));
                    assert forall|j: int| 0 <= j < cs.len() - 1 implies #[trigger] cs[j
                        + 1].x_init == cs[j].y_offset + 1 by {
                        lemma_partition_cell(total, number_of_chunks, j);
                    }
                    lemma_sum_zero_when_fresh(cs);
                }
            },
            ChunkType::Whole => (),
        }
    }

    /// The resume planner's advance step: presets every chunk's counter to
    /// the measured on-disk artifact size and moves its start offset past
    /// those bytes, leaving chunks already at full span in place.
    pub fn calculate_x_offsets(&mut self, offsets: &[u64])
        requires
            match old(self).chunk_data {
                ChunkType::Whole => true,
                ChunkType::Single(c) => {
                    &&& offsets@.len() >= 1
                    &&& c.wf()
                    &&& c.fresh()
                    &&& offsets@[0] <= c.spec_size()
                },
                ChunkType::Multiple(cs) => {
                    &&& offsets@.len() == cs@.len()
                    &&& forall|i: int| 0 <= i < cs@.len() ==> (#[trigger] cs@[i]).wf()
                    &&& forall|i: int| 0 <= i < cs@.len() ==> (#[trigger] cs@[i]).fresh()
                    &&& forall|i: int|
                        0 <= i < cs@.len() ==> offsets@[i] <= (#[trigger] cs@[i]).spec_size()
                },
            },
        ensures
            *final(self) == (HttpTask { chunk_data: final(self).chunk_data, ..*old(self) }),
            match old(self).chunk_data {
                ChunkType::Whole => final(self).chunk_data is Whole,
                ChunkType::Single(c) => final(self).chunk_data == ChunkType::Single(
                    spec_advance(c, offsets@[0]),
                ),
                ChunkType::Multiple(cs) => (final(self).chunk_data matches ChunkType::Multiple(cs2)
                    && cs2@.len() == cs@.len() && forall|i: int|
                    0 <= i < cs@.len() ==> #[trigger] cs2@[i] == spec_advance(cs@[i], offsets@[i])),
            },
    {
        match &mut self.chunk_data {
            ChunkType::Single(chunk) => {
                *chunk = advance_chunk(*chunk, offsets[0]);
            },
            ChunkType::Multiple(chunks) => {
                let ghost pre = chunks@;
                let mut advanced: Vec<Chunk> = Vec::new();
                let mut i: usize = 0;
                while i < chunks.len()
                    invariant
                        chunks@ == pre,
                        offsets@.len() == pre.len(),
                        forall|k: int| 0 <= k < pre.len() ==> (#[trigger] pre[k]).wf(),
                        forall|k: int| 0 <= k < pre.len() ==> (#[trigger] pre[k]).fresh(),
                        forall|k: int|
                            0 <= k < pre.len() ==> offsets@[k] <= (#[trigger] pre[k]).spec_size(),
                        0 <= i <= pre.len(),
                        advanced@.len() == i,
                        forall|k: int|
                            0 <= k < i ==> #[trigger] advanced@[k] == spec_advance(
                                pre[k],
                                offsets@[k],
                            ),
                    decreases pre.len() - i,
                {
                    let c = chunks[i];
                    advanced.push(advance_chunk(c, offsets[i]));
                    i = i + 1;
                }
                *chunks = advanced;
            },
            ChunkType::Whole => (),
        }
    }

    /// Accounts for `amount` freshly received bytes: the owning chunk's
    /// counter and the task-wide counter move together, so the sum invariant
    /// is preserved. A whole-file fetch (no ranges) has only the task-wide
    /// counter.
    pub fn record_downloaded(&mut self, chunk_index: usize, amount: u64)
        requires
            old(self).wf(),
            match old(self).chunk_data {
                ChunkType::Whole => old(self).total_downloaded + amount <= u64::MAX,
                ChunkType::Single(c) => c.downloaded + amount <= c.spec_size() && old(
                    self,
                ).total_downloaded + amount <= u64::MAX,
                ChunkType::Multiple(cs) => {
                    &&& chunk_index < cs@.len()
                    &&& cs@[chunk_index as int].downloaded + amount <= cs@[
                        chunk_index as int
                    ].spec_size()
                    &&& cs@[chunk_index as int].downloaded + amount <= u64::MAX
                    &&& old(self).total_downloaded + amount <= u64::MAX
                },
            },
        ensures
            *final(self) == (HttpTask {
                chunk_data: final(self).chunk_data,
                total_downloaded: final(self).total_downloaded,
                ..*old(self)
            }),
            final(self).wf(),
            final(self).total_downloaded == old(self).total_downloaded + amount,
            match old(self).chunk_data {
                ChunkType::Whole => final(self).chunk_data is Whole,
                ChunkType::Single(c) => final(self).chunk_data == ChunkType::Single(
                    Chunk { downloaded: (c.downloaded + amount) as u64, ..c },
                ),
                ChunkType::Multiple(cs) => (final(self).chunk_data matches ChunkType::Multiple(cs2)
                    && cs2@ == cs@.update(
                    chunk_index as int,
                    Chunk {
                        downloaded: (cs@[chunk_index as int].downloaded + amount) as u64,
                        ..cs@[chunk_index as int]
                    },
                )),
            },
    {
        match &mut self.chunk_data {
            ChunkType::Whole => (),
            ChunkType::Single(chunk) => {
                chunk.downloaded = chunk.downloaded + amount;
            },
            ChunkType::Multiple(chunks) => {
                let chunk = vec_index_mut(chunks, chunk_index);
                chunk.downloaded = chunk.downloaded + amount;
                proof {
                    lemma_sum_downloaded_update(
                        old(self).chunk_data->Multiple_0@,
                        chunk_index as int,
                        Chunk {
                            downloaded: (old(
                                self,
                            ).chunk_data->Multiple_0@[chunk_index as int].downloaded
                                + amount) as u64,
                            ..old(self).chunk_data->Multiple_0@[chunk_index as int]
                        },
                    );
                }
            },
        }
        self.total_downloaded = self.total_downloaded + amount;
    }

    /// The name that keeps concurrent tasks' cache artifacts apart: the
    /// SHA-256 digest, in lowercase hex, of the locator text followed by the
    /// creation timestamp.
    pub fn hashed_file_name(&self) -> (r: String)
        ensures
            r@ == spec_hashed_file_name(self.iri.text@, self.timestamp@),
    {
        let combined = self.iri.text.clone().concat(self.timestamp.as_str());
        let digest = sha256_digest(combined.as_str().as_bytes());
        to_hex(&digest)
    }
}

/// The artifact base name formula: the hex SHA-256 digest of the UTF-8 bytes
/// of the locator text followed by the timestamp.
pub open spec fn spec_hashed_file_name(iri_text: Seq<char>, timestamp: Seq<char>) -> Seq<char> {
    spec_to_hex(spec_sha256(vstd::utf8::encode_utf8(iri_text + timestamp)))
}

/// Sum-invariant law: once every chunk of a well-formed task is complete,
/// the task-wide counter equals the sum of the per-chunk counters, which is
/// the whole designed byte count `total + 1` (the partitioner tiles the
/// inclusive range `[0, total]`).
pub proof fn lemma_sum_invariant(task: HttpTask, total: u64)
    requires
        task.wf(),
        match task.chunk_data {
            ChunkType::Whole => false,
            ChunkType::Single(c) => chunks_contiguous(seq![c], total) && c.complete(),
            ChunkType::Multiple(cs) => chunks_contiguous(cs@, total) && forall|i: int|
                0 <= i < cs@.len() ==> (#[trigger] cs@[i]).complete(),
        },
    ensures
        task.total_downloaded == total + 1,
{
    match task.chunk_data {
        ChunkType::Whole => (),
        ChunkType::Single(c) => {
            lemma_sum_sizes_contiguous(seq![c], total);
            assert(seq![c].drop_last() =~= Seq::<Chunk>::empty());
        },
        ChunkType::Multiple(cs) => {
            lemma_sum_downloaded_complete(cs@);
            lemma_sum_sizes_contiguous(cs@, total);
        },
    }
}

/// The `Range` request header value that asks for exactly the chunk's
/// remaining bytes, `bytes=<x_offset>-<y_offset>`.
pub open spec fn spec_range_header_value(c: Chunk) -> Seq<char> {
    "bytes="@ + spec_u64_string(c.x_offset as nat) + "-"@ + spec_u64_string(c.y_offset as nat)
}

/// Builds the `Range` request header value for one chunk.
pub fn range_header_value(c: &Chunk) -> (r: String)
    ensures
        r@ == spec_range_header_value(*c),
{
    let mut s = "bytes=".to_owned();
    let x = u64_to_string(c.x_offset);
    s.append(x.as_str());
    s.append("-");
    let y = u64_to_string(c.y_offset);
    s.append(y.as_str());
    s
}

/// A prefix of chunks never out-spans the whole list.
pub proof fn lemma_sum_sizes_prefix_le(chunks: Seq<Chunk>, i: int)
    requires
        0 <= i <= chunks.len(),
        forall|k: int| 0 <= k < chunks.len() ==> (#[trigger] chunks[k]).spec_size() >= 0,
    ensures
        sum_sizes(chunks.subrange(0, i)) <= sum_sizes(chunks),
    decreases chunks.len() - i,
{
    if i == chunks.len() {
        assert(chunks.subrange(0, i) =~= chunks);
    } else {
        assert(chunks.subrange(0, i + 1).drop_last() =~= chunks.subrange(0, i));
        assert(chunks.subrange(0, i + 1).last() == chunks[i]);
        lemma_sum_sizes_prefix_le(chunks, i + 1);
    }
}

proof fn lemma_sum_zero_when_fresh(chunks: Seq<Chunk>)
    requires
        forall|i: int| 0 <= i < chunks.len() ==> (#[trigger] chunks[i]).downloaded == 0,
    ensures
        sum_downloaded(chunks) == 0,
    decreases chunks.len(),
{
    if chunks.len() > 0 {
        assert(forall|i: int|
            0 <= i < chunks.drop_last().len() ==> (#[trigger] chunks.drop_last()[i])
                == chunks[i]);
        lemma_sum_zero_when_fresh(chunks.drop_last());
    }
}

} // verus!
