use crate::task::{chunks_contiguous, lemma_sum_sizes_contiguous, sum_sizes, Chunk};
use crate::utils::{find_char_from, spec_split, spec_trim, trim_range};
use vstd::prelude::*;

verus! {

/// The views of a list of byte buffers.
pub open spec fn bufs_view(parts: Seq<Vec<u8>>) -> Seq<Seq<u8>> {
    parts.map_values(|v: Vec<u8>| v@)
}

/// The concatenation of the buffers, first to last.
pub open spec fn spec_concat(parts: Seq<Seq<u8>>) -> Seq<u8>
    decreases parts.len(),
{
    if parts.len() == 0 {
        Seq::empty()
    } else {
        spec_concat(parts.drop_last()) + parts.last()
    }
}

/// Concatenation splits at any cut point.
proof fn lemma_concat_split(parts: Seq<Seq<u8>>, k: int)
    requires
        0 <= k <= parts.len(),
    ensures
        spec_concat(parts) =~= spec_concat(parts.subrange(0, k)) + spec_concat(
            parts.subrange(k, parts.len() as int),
        ),
    decreases parts.len(),
{
    if k == parts.len() {
        assert(parts.subrange(0, k) =~= parts);
        assert(spec_concat(parts.subrange(k, parts.len() as int)) =~= Seq::empty());
    } else {
        let shorter = parts.drop_last();
        lemma_concat_split(shorter, k);
        assert(shorter.subrange(0, k) =~= parts.subrange(0, k));
        assert(parts.subrange(k, parts.len() as int).drop_last() =~= shorter.subrange(
            k,
            shorter.len() as int,
        ));
    }
}

/// The merged image is exactly as long as the designed spans the artifacts
/// fill.
proof fn lemma_concat_len_eq_sum(parts: Seq<Seq<u8>>, chunks: Seq<Chunk>)
    requires
        parts.len() == chunks.len(),
        forall|k: int| 0 <= k < parts.len() ==> (#[trigger] parts[k]).len() == chunks[k].spec_size(),
    ensures
        spec_concat(parts).len() == sum_sizes(chunks),
    decreases parts.len(),
{
    if parts.len() > 0 {
        assert(forall|k: int|
            0 <= k < parts.drop_last().len() ==> (#[trigger] parts.drop_last()[k]) == parts[k]);
        assert(forall|k: int|
            0 <= k < chunks.drop_last().len() ==> (#[trigger] chunks.drop_last()[k]) == chunks[k]);
        lemma_concat_len_eq_sum(parts.drop_last(), chunks.drop_last());
    }
}

/// Each chunk artifact starts in the merged image exactly at its chunk's
/// designed start offset.
proof fn lemma_concat_offset(parts: Seq<Seq<u8>>, chunks: Seq<Chunk>, total: u64, i: int)
    requires
        chunks_contiguous(chunks, total),
        parts.len() == chunks.len(),
        forall|k: int| 0 <= k < parts.len() ==> (#[trigger] parts[k]).len() == chunks[k].spec_size(),
        0 <= i < parts.len(),
    ensures
        spec_concat(parts.subrange(0, i)).len() == chunks[i].x_init,
    decreases i,
{
    if i == 0 {
        assert(parts.subrange(0, 0) =~= Seq::<Seq<u8>>::empty());
    } else {
        lemma_concat_offset(parts, chunks, total, i - 1);
        let prev = parts.subrange(0, i - 1);
        let here = parts.subrange(0, i);
        assert(here.drop_last() =~= prev);
        assert(here.last() == parts[i - 1]);
        assert(chunks[(i - 1) + 1].x_init == chunks[i - 1].y_offset + 1);
    }
}

/// Merge ordering law: when artifact `i` holds exactly its chunk's designed
/// span of bytes, the merged image places artifact `i`'s byte `j` at file
/// offset `x_init + j`, inside `[x_init, y_offset]`, and the image is exactly
/// `total + 1` bytes, the whole designed range.
pub proof fn lemma_merge_ordering(
    parts: Seq<Seq<u8>>,
    chunks: Seq<Chunk>,
    total: u64,
    i: int,
    j: int,
)
    requires
        chunks_contiguous(chunks, total),
        parts.len() == chunks.len(),
        forall|k: int| 0 <= k < parts.len() ==> (#[trigger] parts[k]).len() == chunks[k].spec_size(),
        0 <= i < parts.len(),
        0 <= j < parts[i].len(),
    ensures
        spec_concat(parts).len() == total + 1,
        chunks[i].x_init + j <= chunks[i].y_offset,
        spec_concat(parts)[chunks[i].x_init + j] == parts[i][j],
{
    lemma_concat_len_eq_sum(parts, chunks);
    lemma_sum_sizes_contiguous(chunks, total);
    lemma_concat_offset(parts, chunks, total, i);
    lemma_concat_split(parts, i + 1);
    let front = parts.subrange(0, i + 1);
    assert(front.drop_last() =~= parts.subrange(0, i));
    assert(front.last() == parts[i]);
}

/// The merge step's reassembly: concatenates the chunk artifacts' contents
/// in chunk order into the final file image. Reading the artifacts and
/// writing the image are the transport layer's part; the order and placement
/// are decided here.
pub fn merge_buffers(parts: &Vec<Vec<u8>>) -> (out: Vec<u8>)
    ensures
        out@ == spec_concat(bufs_view(parts@)),
{
    let mut out: Vec<u8> = Vec::new();
    let mut i: usize = 0;
    proof {
        assert(bufs_view(parts@).subrange(0, 0) =~= Seq::<Seq<u8>>::empty());
    }
    while i < parts.len()
        invariant
            0 <= i <= parts@.len(),
            out@ == spec_concat(bufs_view(parts@).subrange(0, i as int)),
        decreases parts@.len() - i,
    {
        proof {
            assert(bufs_view(parts@).subrange(0, i + 1).drop_last() =~= bufs_view(
                parts@,
            ).subrange(0, i as int));
            assert(bufs_view(parts@).subrange(0, i + 1).last() == parts@[i as int]@);
        }
        out.extend_from_slice(parts[i].as_slice());
        i = i + 1;
    }
    proof {
        assert(bufs_view(parts@).subrange(0, parts@.len() as int) =~= bufs_view(parts@));
    }
    out
}

/// The locators a link-list file holds: one per line, each line trimmed.
/// Reading the file is the transport layer's part; what each line means is
/// decided here.
pub fn split_links(content: &str) -> (r: Vec<String>)
    ensures
        r@.len() == spec_split(content@, '\n').len(),
        forall|j: int|
            0 <= j < r@.len() ==> (#[trigger] r@[j])@ == spec_trim(spec_split(content@, '\n')[j]),
{
    let n = content.unicode_len();
    let ghost all_parts = spec_split(content@, '\n');
    let mut links: Vec<String> = Vec::new();
    proof {
        assert(content@.subrange(0, n as int) =~= content@);
    }
    let mut start: usize = 0;
    while start <= n
        invariant
            n == content@.len(),
            0 <= start <= n,
            all_parts == spec_split(content@, '\n'),
            spec_split(content@.subrange(start as int, n as int), '\n') =~= all_parts.skip(
                links@.len() as int,
            ),
            links@.len() < all_parts.len(),
            forall|j: int|
                0 <= j < links@.len() ==> (#[trigger] links@[j])@ == spec_trim(all_parts[j]),
        decreases n + 1 - start,
    {
        let k = find_char_from(content, start, '\n');
        let ghost suffix = content@.subrange(start as int, n as int);
        let ghost parts = spec_split(suffix, '\n');
        proof {
            crate::utils::lemma_first_index_bounds(suffix, '\n');
            if k < n {
                assert(suffix.subrange(k - start + 1, suffix.len() as int) =~= content@.subrange(
                    k + 1,
                    n as int,
                ));
            } else {
                assert(suffix =~= content@.subrange(start as int, k as int));
            }
            assert(suffix.subrange(0, k - start) =~= content@.subrange(start as int, k as int));
            assert(parts[0] == content@.subrange(start as int, k as int));
            assert(all_parts[links@.len() as int] == parts[0]);
        }
        let (lo, hi) = trim_range(content, start, k);
        let line = content.substring_char(lo, hi).to_owned();
        links.push(line);
        proof {
            assert(parts.drop_first() =~= if k < n {
                spec_split(content@.subrange(k + 1, n as int), '\n')
            } else {
                Seq::<Seq<char>>::empty()
            });
            assert(all_parts.skip(links@.len() as int) =~= parts.drop_first());
        }
        if k == n {
            proof {
                assert(all_parts.skip(links@.len() as int) =~= Seq::<Seq<char>>::empty());
                assert(links@.len() == all_parts.len());
            }
            return links;
        }
        start = k + 1;
    }
    proof {
        assert(false);
    }
    links
}

} // verus!
