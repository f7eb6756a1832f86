use vstd::prelude::*;

verus! {

/// How many items one batch holds.
pub const CHUNK_SIZE: usize = 25;

/// The item ids `lo, lo + 1, ..., hi - 1`.
pub open spec fn id_range(lo: int, hi: int) -> Seq<usize> {
    Seq::new((hi - lo) as nat, |i: int| (lo + i) as usize)
}

/// The ids from `start` up to `end`, cut into consecutive chunks of `size`; the last
/// chunk holds what is left.
pub open spec fn chunks_of(start: int, end: int, size: int) -> Seq<Seq<usize>>
    decreases end - start,
{
    if start >= end || size <= 0 {
        Seq::empty()
    } else {
        let hi = if start + size < end { start + size } else { end };
        seq![id_range(start, hi)] + chunks_of(hi, end, size)
    }
}

/// The chunks of a vector of chunks, as sequences.
pub open spec fn chunk_views(v: Seq<Vec<usize>>) -> Seq<Seq<usize>> {
    v.map_values(|c: Vec<usize>| c@)
}

/// The concatenation of chunks.
pub open spec fn concat_chunks(s: Seq<Seq<usize>>) -> Seq<usize>
    decreases s.len(),
{
    if s.len() == 0 {
        Seq::empty()
    } else {
        s[0] + concat_chunks(s.drop_first())
    }
}

/// Every id the workers are given, worker after worker, batch after batch.
pub open spec fn all_worker_ids(v: Seq<Seq<Seq<usize>>>) -> Seq<usize> {
    concat_chunks(v.map_values(|w: Seq<Seq<usize>>| concat_chunks(w)))
}

proof fn lemma_concat_push(s: Seq<Seq<usize>>, x: Seq<usize>)
    ensures
        concat_chunks(s.push(x)) == concat_chunks(s) + x,
    decreases s.len(),
{
    if s.len() == 0 {
        assert(s.push(x).drop_first() =~= Seq::<Seq<usize>>::empty());
        assert(concat_chunks(Seq::<Seq<usize>>::empty()) == Seq::<usize>::empty());
        assert(s.push(x)[0] == x);
        assert(concat_chunks(s.push(x)) =~= x);
    } else {
        lemma_concat_push(s.drop_first(), x);
        assert(s.push(x).drop_first() =~= s.drop_first().push(x));
        assert(concat_chunks(s.push(x)) =~= s[0] + (concat_chunks(s.drop_first()) + x));
    }
}

/// The ids `lo..hi`.
fn id_vec(lo: usize, hi: usize) -> (r: Vec<usize>)
    requires
        lo <= hi,
    ensures
        r@ == id_range(lo as int, hi as int),
{
    let mut r: Vec<usize> = Vec::new();
    let mut i = lo;
    while i < hi
        invariant
            lo <= i <= hi,
            r@ == id_range(lo as int, i as int),
        decreases hi - i,
    {
        r.push(i);
        assert(r@ =~= id_range(lo as int, i + 1));
        i = i + 1;
    }
    r
}

/// The ids `start..end` cut into chunks of `size`, as `(start..end).collect::<Vec<_>>()
/// .chunks(size)` gives them.
pub fn range_chunks(start: usize, end: usize, size: usize) -> (r: Vec<Vec<usize>>)
    requires
        start <= end,
        size > 0,
    ensures
        chunk_views(r@) == chunks_of(start as int, end as int, size as int),
{
    let mut r: Vec<Vec<usize>> = Vec::new();
    let mut lo = start;
    assert(chunk_views(r@) =~= Seq::<Seq<usize>>::empty());
    while lo < end
        invariant
            start <= lo <= end,
            size > 0,
            chunk_views(r@) + chunks_of(lo as int, end as int, size as int) == chunks_of(
                start as int,
                end as int,
                size as int,
            ),
        decreases end - lo,
    {
        let hi = if end - lo > size {
            lo + size
        } else {
            end
        };
        let chunk = id_vec(lo, hi);
        let ghost before = chunk_views(r@);
        r.push(chunk);
        assert(chunk_views(r@) =~= before.push(id_range(lo as int, hi as int)));
        assert(chunks_of(lo as int, end as int, size as int) =~= seq![id_range(lo as int, hi as int)]
            + chunks_of(hi as int, end as int, size as int));
        assert(before.push(id_range(lo as int, hi as int)) + chunks_of(
            hi as int,
            end as int,
            size as int,
        ) =~= before + chunks_of(lo as int, end as int, size as int));
        lo = hi;
    }
    assert(chunk_views(r@) + chunks_of(lo as int, end as int, size as int) =~= chunk_views(r@));
    r
}

/// The ids `0..item_count` in chunks of one batch each.
pub fn item_chunks(item_count: usize) -> (r: Vec<Vec<usize>>)
    ensures
        chunk_views(r@) == chunks_of(0, item_count as int, CHUNK_SIZE as int),
{
    range_chunks(0, item_count, CHUNK_SIZE)
}

/// Chunking loses no id and adds none: the chunks, put back together, are the range.
pub proof fn lemma_chunks_cover(start: int, end: int, size: int)
    requires
        start <= end,
        size > 0,
    ensures
        concat_chunks(chunks_of(start, end, size)) == id_range(start, end),
    decreases end - start,
{
    if start < end {
        let hi = if start + size < end { start + size } else { end };
        lemma_chunks_cover(hi, end, size);
        let c = chunks_of(start, end, size);
        assert(c.drop_first() =~= chunks_of(hi, end, size));
        assert(id_range(start, hi) + id_range(hi, end) =~= id_range(start, end));
    } else {
        assert(id_range(start, end) =~= Seq::<usize>::empty());
    }
}

/// Every chunk holds at least one id and at most `size`.
pub proof fn lemma_chunk_sizes(start: int, end: int, size: int)
    requires
        size > 0,
    ensures
        forall|k: int|
            0 <= k < chunks_of(start, end, size).len() ==> 0 < #[trigger] chunks_of(
                start,
                end,
                size,
            )[k].len() <= size,
    decreases end - start,
{
    if start < end {
        let hi = if start + size < end { start + size } else { end };
        lemma_chunk_sizes(hi, end, size);
        let c = chunks_of(start, end, size);
        assert forall|k: int| 0 <= k < c.len() implies 0 < #[trigger] c[k].len() <= size by {
            if k > 0 {
                assert(c[k] == chunks_of(hi, end, size)[k - 1]);
            }
        }
    }
}

/// How many chunks of `size` the ids `start..end` make: the quotient, rounded up.
pub proof fn lemma_chunk_count(start: int, end: int, size: int)
    requires
        start <= end,
        size > 0,
    ensures
        chunks_of(start, end, size).len() == (end - start + size - 1) / size,
    decreases end - start,
{
    if start < end {
        let hi = if start + size < end { start + size } else { end };
        lemma_chunk_count(hi, end, size);
        if start + size < end {
            assert((end - start + size - 1) / size == (end - hi + size - 1) / size + 1) by (
            nonlinear_arith)
                requires
                    hi == start + size,
                    size > 0,
            {
                assert(end - start + size - 1 == (end - hi + size - 1) + size);
            }
        } else {
            assert((end - start + size - 1) / size == 1) by (nonlinear_arith)
                requires
                    0 < end - start <= size,
            {
            }
            assert((end - hi + size - 1) / size == 0) by (nonlinear_arith)
                requires
                    hi == end,
                    size > 0,
            {
            }
        }
    } else {
        assert((end - start + size - 1) / size == 0) by (nonlinear_arith)
            requires
                start == end,
                size > 0,
        {
        }
    }
}

/// How many workers share `item_count` items: one per full batch.
pub open spec fn worker_count(item_count: int) -> int {
    item_count / CHUNK_SIZE as int
}

/// How many items each worker is given.
pub open spec fn worker_share(item_count: int) -> int {
    item_count / worker_count(item_count)
}

/// Where worker `i`'s ids start: `i` shares in.
pub open spec fn worker_start(item_count: int, i: int) -> int {
    i * worker_share(item_count)
}

/// Where worker `i`'s ids end: one share on, except for the last worker, which also takes
/// the ids left over, up to the item count.
pub open spec fn worker_end(item_count: int, i: int) -> int {
    if i == worker_count(item_count) - 1 {
        item_count
    } else {
        worker_start(item_count, i) + worker_share(item_count)
    }
}

/// The chunks handed to worker `i`: its ids, in batches.
pub open spec fn worker_chunks(item_count: int, i: int) -> Seq<Seq<usize>> {
    chunks_of(worker_start(item_count, i), worker_end(item_count, i), CHUNK_SIZE as int)
}

/// The chunks of each worker in a vector of workers, as sequences.
pub open spec fn worker_views(v: Seq<Vec<Vec<usize>>>) -> Seq<Seq<Seq<usize>>> {
    v.map_values(|w: Vec<Vec<usize>>| chunk_views(w@))
}

proof fn lemma_worker_bounds(item_count: int, i: int)
    requires
        item_count >= CHUNK_SIZE,
        0 <= i < worker_count(item_count),
    ensures
        worker_count(item_count) >= 1,
        worker_share(item_count) >= 1,
        0 <= i * worker_share(item_count),
        i * worker_share(item_count) + worker_share(item_count) <= item_count,
        (i + 1) * worker_share(item_count) == i * worker_share(item_count) + worker_share(
            item_count,
        ),
{
    let wc = worker_count(item_count);
    let share = worker_share(item_count);
    assert(wc >= 1) by (nonlinear_arith)
        requires
            item_count >= 25,
            wc == item_count / 25,
    {
    }
    assert(share >= 1 && wc * share <= item_count) by (nonlinear_arith)
        requires
            wc >= 1,
            wc <= item_count,
            share == item_count / wc,
    {
    }
    assert(0 <= i * share && i * share + share <= wc * share && (i + 1) * share == i * share
        + share) by (nonlinear_arith)
        requires
            0 <= i < wc,
            share >= 1,
    {
    }
}

/// One worker per full batch: the number of workers is the number of whole batches in
/// the items, so that `25 * workers <= item_count < 25 * (workers + 1)`; and every worker is
/// given at least a batch and less than two batches of ids, the last one included.
pub proof fn lemma_worker_sizes(item_count: int)
    requires
        item_count >= CHUNK_SIZE,
    ensures
        CHUNK_SIZE * worker_count(item_count) <= item_count < CHUNK_SIZE * (worker_count(
            item_count,
        ) + 1),
        CHUNK_SIZE <= worker_share(item_count) < 2 * CHUNK_SIZE,
        forall|i: int|
            0 <= i < worker_count(item_count) ==> CHUNK_SIZE <= #[trigger] worker_end(item_count, i)
                - worker_start(item_count, i) < 2 * CHUNK_SIZE,
{
    let n = item_count;
    let wc = worker_count(n);
    let share = worker_share(n);
    assert(25 * wc <= n < 25 * wc + 25 && wc >= 1) by (nonlinear_arith)
        requires
            n >= 25,
            wc == n / 25,
    {
    }
    assert(wc * share <= n < wc * share + wc) by (nonlinear_arith)
        requires
            wc >= 1,
            share == n / wc,
    {
    }
    assert(share >= 25) by (nonlinear_arith)
        requires
            wc >= 1,
            25 * wc <= n,
            n < wc * share + wc,
    {
    }
    let rest = n - wc * share;
    assert(share + rest < 50) by (nonlinear_arith)
        requires
            wc >= 1,
            share >= 25,
            rest == n - wc * share,
            n < 25 * wc + 25,
    {
        assert(wc * (share - 25) >= share - 25);
    }
    assert forall|i: int| 0 <= i < wc implies CHUNK_SIZE <= #[trigger] worker_end(n, i)
        - worker_start(n, i) < 2 * CHUNK_SIZE by {
        if i == wc - 1 {
            assert(i * share == wc * share - share) by (nonlinear_arith)
                requires
                    i == wc - 1,
            {
            }
        }
    }
}

/// The work of each worker when `item_count` items are shared among `item_count / 25`
/// workers: worker `i` gets the ids from `i * share` on, where `share` is `item_count`
/// divided by the number of workers, in batches of 25; each gets one share, and the last one
/// also the ids left over.
pub fn worker_assignments(item_count: usize) -> (r: Vec<Vec<Vec<usize>>>)
    requires
        item_count >= CHUNK_SIZE,
    ensures
        r@.len() == worker_count(item_count as int),
        forall|i: int|
            0 <= i < r@.len() ==> #[trigger] worker_views(r@)[i] == worker_chunks(
                item_count as int,
                i,
            ),
        r@.len() * CHUNK_SIZE <= item_count < (r@.len() + 1) * CHUNK_SIZE,
        forall|i: int|
            0 <= i < r@.len() ==> CHUNK_SIZE <= (#[trigger] concat_chunks(worker_views(r@)[i])).len()
                < 2 * CHUNK_SIZE,
        concat_chunks(worker_views(r@)[0]).take(1) == seq![0usize],
        all_worker_ids(worker_views(r@)) == id_range(0, item_count as int),
{
    let workers = item_count / CHUNK_SIZE;
    let share = item_count / workers;
    let mut r: Vec<Vec<Vec<usize>>> = Vec::new();
    let mut i: usize = 0;
    let mut start: usize = 0;
    while i < workers
        invariant
            item_count >= CHUNK_SIZE,
            workers == worker_count(item_count as int),
            share == worker_share(item_count as int),
            i <= workers,
            r@.len() == i,
            i < workers ==> start == i * share && start + share <= item_count,
            i < workers ==> start == worker_start(item_count as int, i as int),
            i == workers ==> start == item_count,
            start <= item_count,
            all_worker_ids(worker_views(r@)) == id_range(0, start as int),
            forall|j: int|
                0 <= j < i ==> #[trigger] worker_views(r@)[j] == worker_chunks(
                    item_count as int,
                    j,
                ),
        decreases workers - i,
    {
        proof {
            lemma_worker_bounds(item_count as int, i as int);
        }
        let end = if i + 1 == workers { item_count } else { start + share };
        let chunks = range_chunks(start, end, CHUNK_SIZE);
        let ghost before = r@;
        r.push(chunks);
        proof {
            lemma_chunks_cover(start as int, end as int, CHUNK_SIZE as int);
            let f = |w: Seq<Seq<usize>>| concat_chunks(w);
            assert(worker_views(r@) =~= worker_views(before).push(chunk_views(chunks@)));
            assert(worker_views(r@).map_values(f) =~= worker_views(before).map_values(f).push(
                concat_chunks(chunk_views(chunks@)),
            ));
            lemma_concat_push(worker_views(before).map_values(f), concat_chunks(chunk_views(chunks@)));
            assert(id_range(0, start as int) + id_range(start as int, end as int) =~= id_range(
                0,
                end as int,
            ));
        }
        assert forall|j: int| 0 <= j < i + 1 implies #[trigger] worker_views(r@)[j]
            == worker_chunks(item_count as int, j) by {
            if j < i {
                assert(r@[j] == before[j]);
                assert(worker_views(before)[j] == worker_chunks(item_count as int, j));
            }
        }
        if i + 1 < workers {
            proof {
                lemma_worker_bounds(item_count as int, i + 1);
            }
        }
        i = i + 1;
        start = end;
    }
    proof {
        lemma_worker_sizes(item_count as int);
        lemma_worker_coverage(item_count as int);
        assert forall|i: int| 0 <= i < r@.len() implies CHUNK_SIZE <= (#[trigger] concat_chunks(
            worker_views(r@)[i],
        )).len() < 2 * CHUNK_SIZE by {
            assert(worker_end(item_count as int, i) - worker_start(item_count as int, i) >= 25);
            assert(concat_chunks(worker_chunks(item_count as int, i)) == id_range(
                worker_start(item_count as int, i),
                worker_end(item_count as int, i),
            ));
        }
        assert(concat_chunks(worker_chunks(item_count as int, 0)) == id_range(
            0,
            worker_end(item_count as int, 0),
        ));
        assert(concat_chunks(worker_views(r@)[0]).take(1) =~= seq![0usize]);
    }
    r
}

/// The workers together write every id below the item count exactly once: worker `i`
/// writes the ids from its start to its end, the first starts at 0, each one ends where the
/// next starts, the last ends at the item count, and none is empty.
pub proof fn lemma_worker_coverage(item_count: int)
    requires
        item_count >= CHUNK_SIZE,
    ensures
        worker_count(item_count) >= 1,
        worker_start(item_count, 0) == 0,
        worker_end(item_count, worker_count(item_count) - 1) == item_count,
        forall|i: int|
            0 <= i < worker_count(item_count) - 1 ==> #[trigger] worker_end(item_count, i)
                == worker_start(item_count, i + 1),
        forall|i: int|
            0 <= i < worker_count(item_count) ==> #[trigger] worker_start(item_count, i)
                < worker_end(item_count, i),
        forall|i: int|
            0 <= i < worker_count(item_count) ==> concat_chunks(
                #[trigger] worker_chunks(item_count, i),
            ) == id_range(worker_start(item_count, i), worker_end(item_count, i)),
{
    lemma_worker_bounds(item_count, 0);
    assert(worker_start(item_count, 0) == 0);
    assert forall|i: int| 0 <= i < worker_count(item_count) - 1 implies #[trigger] worker_end(
        item_count,
        i,
    ) == worker_start(item_count, i + 1) by {
        lemma_worker_bounds(item_count, i);
    }
    assert forall|i: int| 0 <= i < worker_count(item_count) implies #[trigger] worker_start(
        item_count,
        i,
    ) < worker_end(item_count, i) by {
        lemma_worker_bounds(item_count, i);
    }
    assert forall|i: int| 0 <= i < worker_count(item_count) implies concat_chunks(
        #[trigger] worker_chunks(item_count, i),
    ) == id_range(worker_start(item_count, i), worker_end(item_count, i)) by {
        lemma_worker_bounds(item_count, i);
        lemma_chunks_cover(worker_start(item_count, i), worker_end(item_count, i), CHUNK_SIZE as int);
    }
}

} // verus!
