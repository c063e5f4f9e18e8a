use crate::encoding::{base64_standard_encode, be_bytes, spec_base64_standard, spec_be_bytes};
use crate::errors::RawstErr;
use crate::history::{Record, RecordStatus};
use crate::task::{
    chunks_contiguous, lemma_sum_downloaded_pointwise, lemma_sum_sizes_contiguous,
    lemma_sum_sizes_prefix_le, partition_feasible, spec_advance, spec_allows_partial,
    spec_content_length, spec_partition_chunk, sum_sizes, sum_u64, Chunk, ChunkType, HttpTask,
};
use crate::utils::{
    extract_filename_from_header, extract_filename_from_url, spec_contains_char,
    spec_filename_from_header, spec_filename_from_url, spec_u64_string, u64_to_string, Locator,
};
use vstd::prelude::*;

verus! {

/// The fixed ceiling on connections per download, kept low to avoid
/// server-side throttling.
pub const MAX_DOWNLOAD_THREADS: usize = 8;

/// Accepts a requested connection count: zero and anything above the ceiling
/// are rejected before any network work starts.
pub fn validate_thread_count(threads: usize) -> (r: Result<(), RawstErr>)
    ensures
        r is Ok <==> 1 <= threads <= MAX_DOWNLOAD_THREADS,
        r is Err ==> r->Err_0 == RawstErr::InvalidThreadCount,
{
    if 1 <= threads && threads <= MAX_DOWNLOAD_THREADS {
        Ok(())
    } else {
        Err(RawstErr::InvalidThreadCount)
    }
}

/// The history id for one task: the standard base64 rendering of the
/// creation time's seconds as eight big-endian bytes, with the task's
/// position appended when many tasks start at once.
pub open spec fn spec_task_id(timestamp_secs: i64, index: Option<u64>) -> Seq<char> {
    spec_base64_standard(spec_be_bytes(timestamp_secs as u64)) + match index {
        Some(k) => spec_u64_string(k as nat),
        None => Seq::<char>::empty(),
    }
}

/// Builds the history id for a task started at the given time.
pub fn make_task_id(timestamp_secs: i64, index: Option<u64>) -> (r: String)
    ensures
        r@ == spec_task_id(timestamp_secs, index),
{
    let bytes = be_bytes(#[verifier::truncate] (timestamp_secs as u64));
    let mut id = base64_standard_encode(bytes.as_slice());
    match index {
        Some(k) => {
            let digits = u64_to_string(k);
            id.append(digits.as_str());
        },
        None => {
            proof {
                assert(id@ + Seq::<char>::empty() =~= id@);
            }
        },
    }
    id
}

/// Which fetch mode a connection count selects: one connection streams the
/// response sequentially, more run the chunked concurrent path.
#[derive(Clone, Copy, Debug, PartialEq, Eq, Structural)]
pub enum DownloadMode {
    Sequential,
    Concurrent,
}

/// Picks the fetch mode for a connection count.
pub fn download_mode(threads: usize) -> (m: DownloadMode)
    ensures
        m == (if threads == 1 {
            DownloadMode::Sequential
        } else {
            DownloadMode::Concurrent
        }),
{
    match threads {
        1 => DownloadMode::Sequential,
        _ => DownloadMode::Concurrent,
    }
}

/// The connection count the engine actually uses for a probed resource: a
/// request above one is downgraded to one when the server does not accept
/// byte ranges; a resource of unknown size is fetched whole over one
/// connection; and a resource too small to split into the requested count
/// falls back to one connection.
pub open spec fn spec_effective_threads(requested: usize, headers: Seq<(String, String)>) -> usize {
    let gated: usize = if requested > 1 && !spec_allows_partial(headers) {
        1
    } else {
        requested
    };
    let total = spec_content_length(headers);
    if total == 0 {
        1
    } else if gated > 1 && !partition_feasible(total, gated as u64) {
        1
    } else {
        gated
    }
}

/// Capability downgrade law: when the probe response does not allow partial
/// content, any requested parallelism collapses to a single connection — the
/// plan is never split into ranges.
pub proof fn lemma_capability_downgrade(requested: usize, headers: Seq<(String, String)>)
    requires
        1 <= requested,
        !spec_allows_partial(headers),
    ensures
        spec_effective_threads(requested, headers) == 1,
{
    let total = spec_content_length(headers);
    if total != 0 {
        assert(partition_feasible(total, 1u64)) by {
            assert((1u64 - 1) * (spec_content_length(headers) as int / 1int + 1) == 0);
        }
    }
}

/// Whether splitting `total` bytes across `n` connections is feasible.
fn feasible_exec(total: u64, n: u64) -> (b: bool)
    requires
        1 <= n <= 8,
        total > 0,
    ensures
        b == partition_feasible(total, n),
{
    let cs = total / n;
    proof {
        assert((n - 1) * (cs + 1) <= 7 * (cs + 1) && 0 <= (n - 1) * (cs + 1)) by (nonlinear_arith)
            requires
                1 <= n <= 8,
                0 <= cs <= u64::MAX,
        ;
    }
    let lhs: u128 = (n as u128 - 1) * (cs as u128 + 1);
    lhs <= total as u128
}

/// Builds one download task from a probed locator: picks the destination
/// filename (the `Content-Disposition` name, the locator-derived name, or the
/// caller's save-as name carrying the derived extension), downgrades the
/// connection count where ranges are not usable, and lays out the chunks.
/// Returns the task and the connection count the fetch must use.
pub fn create_http_task(
    iri: Locator,
    save_as: Option<&String>,
    cached_headers: Vec<(String, String)>,
    additional_headers: Vec<(String, String)>,
    timestamp: String,
    requested_threads: usize,
) -> (r: Result<(HttpTask, usize), RawstErr>)
    requires
        iri.wf(),
        iri.authority is Some,
        match save_as {
            Some(name) => name@.len() == 0 || name@[0] != '/',
            None => true,
        },
    ensures
        r is Ok <==> 1 <= requested_threads <= MAX_DOWNLOAD_THREADS,
        r is Err ==> r->Err_0 == RawstErr::InvalidThreadCount,
        r is Ok ==> ({
            let task = r->Ok_0.0;
            let eff = r->Ok_0.1;
            let total = spec_content_length(cached_headers@);
            let derived = spec_derived_filename(cached_headers@, iri.path@, iri.authority->0@);
            &&& task.wf()
            &&& task.total_downloaded == 0
            &&& task.iri == iri
            &&& task.cached_headers() == cached_headers@
            &&& task.additional_headers == additional_headers
            &&& task.timestamp == timestamp
            &&& task.filename@ == (match save_as {
                Some(name) => spec_save_as_filename(name@, derived),
                None => derived,
            })
            &&& eff == spec_effective_threads(requested_threads, cached_headers@)
            &&& (total == 0 ==> task.chunk_data is Whole)
            &&& (total > 0 && eff == 1 ==> task.chunk_data == ChunkType::Single(
                Chunk { x_offset: 0, y_offset: total, x_init: 0, downloaded: 0 },
            ))
            &&& (eff > 1 ==> (task.chunk_data matches ChunkType::Multiple(cs) && cs@.len() == eff
                && chunks_contiguous(cs@, total) && (forall|i: int|
                0 <= i < cs@.len() ==> #[trigger] cs@[i] == spec_partition_chunk(
                    total,
                    eff as u64,
                    i,
                ))))
        }),
{
    if requested_threads < 1 || requested_threads > MAX_DOWNLOAD_THREADS {
        return Err(RawstErr::InvalidThreadCount);
    }

    let derived = match extract_filename_from_header(&cached_headers) {
        Some(result) => {
            proof {
                if result@.len() > 0 && result@[0] == '/' {
                    assert(spec_filename_from_header(cached_headers@) is None);
                }
            }
            result
        },
        None => extract_filename_from_url(&iri),
    };

    let filename = match save_as {
        Some(name) => rename_with_extension(name, &derived),
        None => derived,
    };

    let mut task = HttpTask::new(
        iri,
        filename,
        cached_headers,
        additional_headers,
        timestamp,
    );

    let mut effective = requested_threads;
    if effective > 1 && !task.allows_partial_content() {
        effective = 1;
    }
    let total = task.content_length();
    if total == 0 {
        return Ok((task, 1));
    }
    if effective > 1 && !feasible_exec(total, effective as u64) {
        effective = 1;
    }
    proof {
        if effective == 1 {
            assert((1u64 - 1) * (spec_content_length(task.cached_headers()) as int / 1int + 1)
                == 0);
        }
    }
    task.calculate_chunks(effective as u64);

    Ok((task, effective))
}

/// The filename the probe derives before any save-as override: the
/// `Content-Disposition` name when the response carries a usable one, else
/// the locator-derived name.
pub open spec fn spec_derived_filename(
    headers: Seq<(String, String)>,
    path: Seq<char>,
    authority: Seq<char>,
) -> Seq<char> {
    match spec_filename_from_header(headers) {
        Some(name) => name,
        None => spec_filename_from_url(path, authority),
    }
}

/// The index right after the last dot, or 0 when there is none.
pub open spec fn spec_last_dot_end(s: Seq<char>) -> int
    decreases s.len(),
{
    if s.len() == 0 {
        0
    } else if s.last() == '.' {
        s.len() as int
    } else {
        spec_last_dot_end(s.drop_last())
    }
}

/// A save-as name keeps the extension the derived filename carries: the text
/// after the derived name's final dot is appended, with the dot.
pub open spec fn spec_save_as_filename(save_as: Seq<char>, derived: Seq<char>) -> Seq<char> {
    if spec_contains_char(derived, '.') {
        save_as + "."@ + derived.subrange(spec_last_dot_end(derived), derived.len() as int)
    } else {
        save_as
    }
}

/// Appends the derived filename's extension to the caller's chosen name.
fn rename_with_extension(save_as: &String, derived: &String) -> (r: String)
    ensures
        r@ == spec_save_as_filename(save_as@, derived@),
        save_as@.len() == 0 || save_as@[0] != '/' ==> (r@.len() == 0 || r@[0] != '/'),
{
    let d = derived.as_str();
    let n = d.unicode_len();
    let mut has_dot = false;
    let mut dot_end: usize = 0;
    let mut i: usize = 0;
    proof {
        reveal_strlit(".");
        assert(d@.subrange(0, 0) =~= Seq::<char>::empty());
    }
    while i < n
        invariant
            n == d@.len(),
            0 <= dot_end <= i <= n,
            dot_end == spec_last_dot_end(d@.subrange(0, i as int)),
            has_dot == spec_contains_char(d@.subrange(0, i as int), '.'),
        decreases n - i,
    {
        proof {
            assert(d@.subrange(0, i + 1).drop_last() =~= d@.subrange(0, i as int));
            assert(d@.subrange(0, i + 1).last() == d@[i as int]);
            assert(forall|j: int| 0 <= j < i ==> d@.subrange(0, i + 1)[j] == d@.subrange(
                0,
                i as int,
            )[j]);
        }
        if d.get_char(i) == '.' {
            has_dot = true;
            dot_end = i + 1;
        }
        proof {
            if has_dot && spec_contains_char(d@.subrange(0, i as int), '.') {
                let w = choose|j: int|
                    0 <= j < i && d@.subrange(0, i as int)[j] == '.';
                assert(d@.subrange(0, i + 1)[w] == '.');
            }
        }
        i = i + 1;
    }
    proof {
        assert(d@.subrange(0, n as int) =~= d@);
    }
    if !has_dot {
        return save_as.clone();
    }
    let mut name = save_as.clone();
    name.append(".");
    let ext = d.substring_char(dot_end, n);
    proof {
        assert(ext@ =~= d@.subrange(spec_last_dot_end(d@), d@.len() as int));
    }
    name.append(ext);
    proof {
        reveal_strlit(".");
        if name@.len() > 0 && save_as@.len() == 0 {
            assert(name@[0] == '.');
        }
    }
    name
}

/// Whether a resume request still has work to do: only a record still
/// `Pending` is fetched again; a record already `Completed` is reported as
/// already downloaded, with no network request at all.
pub fn record_needs_fetch(record: &Record) -> (b: bool)
    ensures
        b == (record.status is Pending),
{
    matches!(record.status, RecordStatus::Pending)
}

/// The designed span of resume chunk `i` when `total` bytes are split `n`
/// ways: one connection owns the whole inclusive range.
pub open spec fn spec_resume_span(total: u64, n: usize, i: int) -> int {
    if n == 1 {
        total + 1
    } else {
        spec_partition_chunk(total, n as u64, i).spec_size()
    }
}

/// The resume planner: from a still-pending record, a fresh probe of the same
/// locator, and the measured sizes of the on-disk cache artifacts, rebuilds
/// the chunk layout the original download used (keyed by the record's
/// connection count), advances every chunk past the bytes already present,
/// presets the counters, and sets the task total to the sum of the measured
/// sizes — so the fetch engine requests only the missing bytes.
///
/// The fresh probe's content length must equal the recorded size: ranges
/// computed against a different size would be invalid, so a mismatch (or a
/// size of zero, meaning unknown, or one too large to track) is
/// `InvalidArgs`, as is a recorded layout the size cannot carry. A record
/// whose connection count is out of range is `InvalidThreadCount`. Artifacts
/// that do not match the layout — wrong count, or larger than a chunk's
/// designed span — are `FileError`.
pub fn plan_resume(
    record: &Record,
    iri: Locator,
    cached_headers: Vec<(String, String)>,
    additional_headers: Vec<(String, String)>,
    timestamp: String,
    cache_sizes: &[u64],
) -> (r: Result<HttpTask, RawstErr>)
    requires
        record.status is Pending,
    ensures
        ({
            let total = spec_content_length(cached_headers@);
            let n = record.threads_used;
            let c_name = record.file_name@.len() == 0 || record.file_name@[0] != '/';
            let c_threads = 1 <= n <= MAX_DOWNLOAD_THREADS;
            let c_total = total == record.file_size && 0 < total < u64::MAX;
            let c_feas = n > 1 ==> partition_feasible(total, n as u64);
            let c_len = cache_sizes@.len() == n;
            let c_fit = forall|i: int|
                0 <= i < cache_sizes@.len() ==> #[trigger] cache_sizes@[i] <= spec_resume_span(
                    total,
                    n,
                    i,
                );
            &&& (r is Ok <==> c_name && c_threads && c_total && c_feas && c_len && c_fit)
            &&& (!c_name ==> r == Err::<HttpTask, RawstErr>(RawstErr::InvalidArgs))
            &&& (c_name && !c_threads ==> r == Err::<HttpTask, RawstErr>(
                RawstErr::InvalidThreadCount,
            ))
            &&& (c_name && c_threads && !c_total ==> r == Err::<HttpTask, RawstErr>(
                RawstErr::InvalidArgs,
            ))
            &&& (c_name && c_threads && c_total && !c_feas ==> r == Err::<HttpTask, RawstErr>(
                RawstErr::InvalidArgs,
            ))
            &&& (c_name && c_threads && c_total && c_feas && !c_len ==> r == Err::<
                HttpTask,
                RawstErr,
            >(RawstErr::FileError))
            &&& (c_name && c_threads && c_total && c_feas && c_len && !c_fit ==> r == Err::<
                HttpTask,
                RawstErr,
            >(RawstErr::FileError))
        }),
        r is Ok ==> ({
            let task = r->Ok_0;
            let total = spec_content_length(cached_headers@);
            let n = record.threads_used;
            &&& task.wf()
            &&& task.iri == iri
            &&& task.filename@ == record.file_name@
            &&& task.cached_headers() == cached_headers@
            &&& task.additional_headers == additional_headers
            &&& task.timestamp == timestamp
            &&& task.total_downloaded == sum_u64(cache_sizes@)
            &&& (n == 1 ==> task.chunk_data == ChunkType::Single(
                spec_advance(
                    Chunk { x_offset: 0, y_offset: total, x_init: 0, downloaded: 0 },
                    cache_sizes@[0],
                ),
            ))
            &&& (n > 1 ==> (task.chunk_data matches ChunkType::Multiple(cs) && cs@.len() == n && (
            forall|i: int|
                0 <= i < cs@.len() ==> #[trigger] cs@[i] == spec_advance(
                    spec_partition_chunk(total, n as u64, i),
                    cache_sizes@[i],
                ))))
        }),
{
    let fname = record.file_name.as_str();
    if fname.unicode_len() > 0 && fname.get_char(0) == '/' {
        return Err(RawstErr::InvalidArgs);
    }
    let n = record.threads_used;
    if n < 1 || n > MAX_DOWNLOAD_THREADS {
        return Err(RawstErr::InvalidThreadCount);
    }
    let mut task = HttpTask::new(
        iri,
        record.file_name.clone(),
        cached_headers,
        additional_headers,
        timestamp,
    );
    let total = task.content_length();
    if total == 0 || total == u64::MAX || total != record.file_size {
        return Err(RawstErr::InvalidArgs);
    }
    if n > 1 && !feasible_exec(total, n as u64) {
        return Err(RawstErr::InvalidArgs);
    }
    task.calculate_chunks(n as u64);
    if cache_sizes.len() != n {
        return Err(RawstErr::FileError);
    }

    // hold every measured artifact against its chunk's designed span, and
    // collect the ghost layout for the sum bound below
    let ghost layout: Seq<Chunk> = match &task.chunk_data {
        ChunkType::Single(c) => seq![*c],
        ChunkType::Multiple(cs) => cs@,
        ChunkType::Whole => Seq::empty(),
    };
    proof {
        assert(chunks_contiguous(layout, total));
        lemma_sum_sizes_contiguous(layout, total);
    }
    match &task.chunk_data {
        ChunkType::Single(_) => {
            if cache_sizes[0] > total + 1 {
                return Err(RawstErr::FileError);
            }
        },
        ChunkType::Multiple(chunks) => {
            let mut i: usize = 0;
            while i < chunks.len()
                invariant
                    chunks@ == layout,
                    n == cache_sizes@.len() == layout.len(),
                    2 <= n <= 8,
                    total == spec_content_length(cached_headers@),
                    record.file_name@.len() == 0 || record.file_name@[0] != '/',
                    total == record.file_size && 0 < total < u64::MAX,
                    partition_feasible(total, n as u64),
                    record.threads_used == n,
                    forall|k: int| 0 <= k < layout.len() ==> (#[trigger] layout[k]).wf(),
                    forall|k: int|
                        0 <= k < layout.len() ==> #[trigger] layout[k] == spec_partition_chunk(
                            total,
                            n as u64,
                            k,
                        ),
                    0 <= i <= layout.len(),
                    forall|k: int|
                        0 <= k < i ==> #[trigger] cache_sizes@[k] <= layout[k].spec_size(),
                decreases layout.len() - i,
            {
                let c = chunks[i];
                proof {
                    crate::task::lemma_partition_bounds(total, n as u64);
                    assert(layout[i as int] == spec_partition_chunk(total, n as u64, i as int));
                    assert(c.y_offset <= total);
                }
                let span = c.y_offset - c.x_init + 1;
                if cache_sizes[i] > span {
                    assert(!(cache_sizes@[i as int] <= spec_resume_span(total, n, i as int)));
                    return Err(RawstErr::FileError);
                }
                i = i + 1;
            }
        },
        ChunkType::Whole => {
            proof {
                assert(false);
            }
            return Err(RawstErr::InvalidArgs);
        },
    }

    // the measured sizes fit the layout, so their running sum stays within
    // the designed total and never overflows
    let mut downloaded_sum: u64 = 0;
    let mut i: usize = 0;
    proof {
        assert(cache_sizes@.subrange(0, 0) =~= Seq::<u64>::empty());
        assert(layout.subrange(0, 0) =~= Seq::<Chunk>::empty());
    }
    while i < cache_sizes.len()
        invariant
            n == cache_sizes@.len() == layout.len(),
            chunks_contiguous(layout, total),
            sum_sizes(layout) == total + 1,
            total < u64::MAX,
            forall|k: int| 0 <= k < layout.len() ==> (#[trigger] layout[k]).spec_size() >= 0,
            forall|k: int|
                0 <= k < layout.len() ==> #[trigger] cache_sizes@[k] <= layout[k].spec_size(),
            0 <= i <= cache_sizes@.len(),
            downloaded_sum == sum_u64(cache_sizes@.subrange(0, i as int)),
            downloaded_sum <= sum_sizes(layout.subrange(0, i as int)),
        decreases cache_sizes@.len() - i,
    {
        proof {
            assert(cache_sizes@.subrange(0, i + 1).drop_last() =~= cache_sizes@.subrange(
                0,
                i as int,
            ));
            assert(cache_sizes@.subrange(0, i + 1).last() == cache_sizes@[i as int]);
            assert(layout.subrange(0, i + 1).drop_last() =~= layout.subrange(0, i as int));
            assert(layout.subrange(0, i + 1).last() == layout[i as int]);
            lemma_sum_sizes_prefix_le(layout, i + 1);
        }
        downloaded_sum = downloaded_sum + cache_sizes[i];
        i = i + 1;
    }
    proof {
        assert(cache_sizes@.subrange(0, cache_sizes@.len() as int) =~= cache_sizes@);
    }

    task.calculate_x_offsets(cache_sizes);
    task.total_downloaded = downloaded_sum;

    proof {
        if cache_sizes@.len() == 1 {
            assert(cache_sizes@.drop_last() =~= Seq::<u64>::empty());
            assert(cache_sizes@.last() == cache_sizes@[0]);
        }
        match &task.chunk_data {
            ChunkType::Single(c) => {
                assert(task.total_downloaded == sum_u64(cache_sizes@));
                assert(c.downloaded == cache_sizes@[0]);
                assert(task.total_downloaded == c.downloaded);
            },
            ChunkType::Multiple(cs) => {
                assert forall|k: int| 0 <= k < cs@.len() implies (#[trigger] cs@[k]).downloaded
                    == cache_sizes@[k] && cs@[k].wf() by {
                    assert(cs@[k] == spec_advance(layout[k], cache_sizes@[k]));
                }
                lemma_sum_downloaded_pointwise(cs@, cache_sizes@);
            },
            _ => {},
        }
    }
    Ok(task)
}

} // verus!
