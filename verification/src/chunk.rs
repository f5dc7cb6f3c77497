//! Fixed-size chunk splitter.
//!
//! The input buffer is cut into windows of roughly `chunk_size` bytes, each
//! window extended forward to the byte after the next `\n`, so that no record
//! is split between two chunks.  Every returned slice borrows from the input:
//! no byte is copied.
use vstd::prelude::*;

verus! {

/// Default raw chunk size: 64 MiB.
pub const CHUNK_SIZE_BYTES: usize = 67108864;

/// The byte that ends a record.
pub const NEWLINE: u8 = 10u8;

/// No `\n` among the bytes of `d` in positions `[a, b)`.
pub open spec fn no_newline_in(d: Seq<u8>, a: int, b: int) -> bool {
    forall|j: int| a <= j < b ==> d[j] != NEWLINE
}

/// Number of `\n` bytes in `d`.
pub open spec fn newline_count(d: Seq<u8>) -> nat
    decreases d.len(),
{
    if d.len() == 0 {
        0
    } else {
        newline_count(d.drop_last()) + if d.last() == NEWLINE {
            1nat
        } else {
            0nat
        }
    }
}

/// `e` is where `snap_to_newline` lands when scanning `d` from `pos`: the byte
/// after the first `\n` at or after `pos`, or the end of `d` when none follows.
pub open spec fn is_snap_point(d: Seq<u8>, pos: int, e: int) -> bool {
    if pos >= d.len() {
        e == d.len()
    } else {
        &&& pos < e <= d.len()
        &&& no_newline_in(d, pos, e - 1)
        &&& (d[e - 1] == NEWLINE || (e == d.len() && no_newline_in(d, pos, e)))
    }
}

/// The window length that `fixed_chunks` uses for a `chunk_size` argument.
pub open spec fn window_of(chunk_size: Option<usize>) -> nat {
    match chunk_size {
        Some(w) => if w == 0 {
            1nat
        } else {
            w as nat
        },
        None => CHUNK_SIZE_BYTES as nat,
    }
}

/// The concatenation of a sequence of chunks.
pub open spec fn concat(chunks: Seq<Seq<u8>>) -> Seq<u8>
    decreases chunks.len(),
{
    if chunks.len() == 0 {
        Seq::empty()
    } else {
        concat(chunks.drop_last()) + chunks.last()
    }
}

/// The byte contents of a list of borrowed slices.
pub open spec fn slices_view(v: Seq<&[u8]>) -> Seq<Seq<u8>> {
    v.map_values(|s: &[u8]| s@)
}

/// A chunk that is followed by another one: longer than the window, ending
/// with the first `\n` found at or after the window's end.
pub open spec fn inner_chunk_ok(c: Seq<u8>, window: nat) -> bool {
    &&& c.len() > window
    &&& c.last() == NEWLINE
    &&& no_newline_in(c, window as int, c.len() - 1)
}

/// The final chunk: either it fits in the window, or no `\n` after the
/// window's end comes before its last byte.
pub open spec fn last_chunk_ok(c: Seq<u8>, window: nat) -> bool {
    &&& c.len() > 0
    &&& (c.len() <= window || no_newline_in(c, window as int, c.len() - 1))
}

/// `chunks` is the partition of `data` that `fixed_chunks` produces for `window`.
pub open spec fn chunking_of(data: Seq<u8>, window: nat, chunks: Seq<Seq<u8>>) -> bool {
    &&& concat(chunks) == data
    &&& (data.len() == 0 <==> chunks.len() == 0)
    &&& forall|i: int| 0 <= i < chunks.len() - 1 ==> inner_chunk_ok(#[trigger] chunks[i], window)
    &&& chunks.len() > 0 ==> last_chunk_ok(chunks.last(), window)
}

/// Scan forward from `pos` to the byte after the next `\n`.
/// Returns `data.len()` if no newline follows.
pub fn snap_to_newline(data: &[u8], pos: usize) -> (res: usize)
    ensures
        is_snap_point(data@, pos as int, res as int),
{
    let mut i = pos;
    while i < data.len()
        invariant
            pos <= i,
            no_newline_in(data@, pos as int, i as int),
        decreases data.len() - i,
    {
        if data[i] == NEWLINE {
            return i + 1;
        }
        i += 1;
    }
    data.len()
}

proof fn lemma_newline_count_push(s: Seq<u8>, b: u8)
    ensures
        newline_count(s.push(b)) == newline_count(s) + if b == NEWLINE {
            1nat
        } else {
            0nat
        },
{
    assert(s.push(b).drop_last() =~= s);
}

/// Cheap record-count estimate: the number of `\n` bytes in a chunk.
pub fn count_lines(data: &[u8]) -> (res: usize)
    ensures
        res == newline_count(data@),
{
    let mut count: usize = 0;
    let mut i: usize = 0;
    while i < data.len()
        invariant
            i <= data@.len(),
            count == newline_count(data@.take(i as int)),
            count <= i,
        decreases data.len() - i,
    {
        proof {
            assert(data@.take(i + 1) =~= data@.take(i as int).push(data@[i as int]));
            lemma_newline_count_push(data@.take(i as int), data@[i as int]);
        }
        if data[i] == NEWLINE {
            count += 1;
        }
        i += 1;
    }
    proof {
        assert(data@.take(data@.len() as int) =~= data@);
    }
    count
}

/// Offset just after the first `n` newlines (0 when `n` is 0); the whole
/// length when `data` holds fewer.  Used for file head sampling.
pub fn offset_after_n_lines(data: &[u8], n: usize) -> (res: usize)
    ensures
        res <= data@.len(),
        n == 0 ==> res == 0,
        n > 0 && newline_count(data@) >= n ==> {
            &&& res > 0
            &&& data@[res - 1] == NEWLINE
            &&& newline_count(data@.take(res as int)) == n
        },
        newline_count(data@) < n ==> res == data@.len(),
{
    if n == 0 {
        return 0;
    }
    let mut count: usize = 0;
    let mut i: usize = 0;
    while i < data.len()
        invariant
            0 < n,
            i <= data@.len(),
            count == newline_count(data@.take(i as int)),
            count < n,
            count <= i,
        decreases data.len() - i,
    {
        proof {
            assert(data@.take(i + 1) =~= data@.take(i as int).push(data@[i as int]));
            lemma_newline_count_push(data@.take(i as int), data@[i as int]);
        }
        if data[i] == NEWLINE {
            count += 1;
            if count >= n {
                proof {
                    lemma_newline_count_prefix(data@, i + 1);
                }
                return i + 1;
            }
        }
        i += 1;
    }
    proof {
        assert(data@.take(data@.len() as int) =~= data@);
    }
    data.len()
}

proof fn lemma_newline_count_prefix(d: Seq<u8>, k: int)
    requires
        0 <= k <= d.len(),
    ensures
        newline_count(d.take(k)) <= newline_count(d),
{
    lemma_newline_count_concat(d.take(k), d.skip(k));
    assert(d.take(k) + d.skip(k) =~= d);
}

proof fn lemma_concat_push(chunks: Seq<Seq<u8>>, c: Seq<u8>)
    ensures
        concat(chunks.push(c)) == concat(chunks) + c,
{
    assert(chunks.push(c).drop_last() =~= chunks);
}

/// Partition `data` into sub-slices of about `chunk_size` bytes (64 MiB when
/// `None`, at least one byte), each cut just after a `\n`.
///
/// The slices, in order, make up `data` exactly; every slice but the last ends
/// with `\n`.
pub fn fixed_chunks<'a>(data: &'a [u8], chunk_size: Option<usize>) -> (res: Vec<&'a [u8]>)
    requires
        data@.len() <= isize::MAX,
    ensures
        chunking_of(data@, window_of(chunk_size), slices_view(res@)),
{
    if data.len() == 0 {
        let empty: Vec<&'a [u8]> = Vec::new();
        proof {
            assert(slices_view(empty@) =~= Seq::<Seq<u8>>::empty());
            assert(data@ =~= Seq::<u8>::empty());
        }
        return empty;
    }
    let window: usize = match chunk_size {
        Some(w) => if w == 0 {
            1
        } else {
            w
        },
        None => CHUNK_SIZE_BYTES,
    };
    let ghost win = window as nat;
    assert(win == window_of(chunk_size));
    let mut chunks: Vec<&'a [u8]> = Vec::with_capacity(data.len() / window + 2);
    let mut start: usize = 0;
    proof {
        assert(slices_view(chunks@) =~= Seq::<Seq<u8>>::empty());
        assert(data@.subrange(0, 0) =~= Seq::<u8>::empty());
    }
    loop
        invariant
            data@.len() <= isize::MAX,
            0 < data@.len(),
            window as nat == win,
            win == window_of(chunk_size),
            win > 0,
            start < data@.len(),
            start == 0 || window < start,
            concat(slices_view(chunks@)) == data@.subrange(0, start as int),
            forall|i: int|
                0 <= i < chunks@.len() ==> inner_chunk_ok(#[trigger] slices_view(chunks@)[i], win),
        decreases data@.len() - start,
    {
        let tentative = if start + window < data.len() {
            start + window
        } else {
            data.len()
        };
        let ghost prev = slices_view(chunks@);
        if tentative == data.len() {
            let piece = &data[start..data.len()];
            chunks.push(piece);
            proof {
                assert(slices_view(chunks@) =~= prev.push(piece@));
                lemma_concat_push(prev, piece@);
                assert(data@.subrange(0, start as int) + piece@ =~= data@);
                assert(slices_view(chunks@).drop_last() =~= prev);
            }
            return chunks;
        }
        let end = snap_to_newline(data, tentative);
        let piece = &data[start..end];
        chunks.push(piece);
        proof {
            assert(slices_view(chunks@) =~= prev.push(piece@));
            lemma_concat_push(prev, piece@);
            assert(data@.subrange(0, start as int) + piece@ =~= data@.subrange(0, end as int));
            assert(piece@.len() == end - start);
            assert forall|j: int| win <= j < piece@.len() - 1 implies piece@[j] != NEWLINE by {
                assert(piece@[j] == data@[start + j]);
            }
            assert(piece@.last() == data@[end - 1]);
        }
        if end == data.len() {
            proof {
                assert(data@.subrange(0, end as int) =~= data@);
                assert(slices_view(chunks@).drop_last() =~= prev);
                assert(slices_view(chunks@).last() == piece@);
            }
            return chunks;
        }
        proof {
            assert(piece@.last() == NEWLINE);
            assert(inner_chunk_ok(piece@, win));
        }
        start = end;
    }
}

/// Law: chunking never loses or gains a record separator — the newlines of the
/// input are exactly the newlines of its chunks, counted chunk by chunk.
pub proof fn lemma_chunks_keep_newlines(chunks: Seq<Seq<u8>>)
    ensures
        newline_count(concat(chunks)) == sum_newlines(chunks),
    decreases chunks.len(),
{
    if chunks.len() > 0 {
        lemma_chunks_keep_newlines(chunks.drop_last());
        lemma_newline_count_concat(concat(chunks.drop_last()), chunks.last());
    }
}

/// Sum of the newline counts of a sequence of chunks.
pub open spec fn sum_newlines(chunks: Seq<Seq<u8>>) -> nat
    decreases chunks.len(),
{
    if chunks.len() == 0 {
        0
    } else {
        sum_newlines(chunks.drop_last()) + newline_count(chunks.last())
    }
}

/// Newline counts add up over concatenation.
pub proof fn lemma_newline_count_concat(a: Seq<u8>, b: Seq<u8>)
    ensures
        newline_count(a + b) == newline_count(a) + newline_count(b),
    decreases b.len(),
{
    if b.len() == 0 {
        assert(a + b =~= a);
    } else {
        lemma_newline_count_concat(a, b.drop_last());
        assert((a + b).drop_last() =~= a + b.drop_last());
        assert((a + b).last() == b.last());
    }
}

/// Law: every chunk of `fixed_chunks` except the last ends exactly where
/// `snap_to_newline` lands when started one window past the chunk's start.
pub proof fn lemma_inner_chunk_is_snap(data: Seq<u8>, start: int, c: Seq<u8>, window: nat)
    requires
        0 <= start,
        start + c.len() <= data.len(),
        data.subrange(start, start + c.len()) == c,
        inner_chunk_ok(c, window),
    ensures
        is_snap_point(data, start + window, start + c.len()),
{
    let e = start + c.len();
    assert forall|j: int| start + window <= j < e - 1 implies data[j] != NEWLINE by {
        assert(data[j] == c[j - start]);
    }
    assert(data[e - 1] == c[c.len() - 1]);
}

} // verus!
