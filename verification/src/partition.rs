//! The batch partitioner: a job list cut into consecutive chunks of at most
//! `quota` jobs, one chunk per pacing window.

use vstd::prelude::*;
use vstd::slice::slice_subrange;

verus! {

/// How many chunks a list of `len` jobs has under `quota`: none when the
/// quota is zero, else `len / quota` rounded up.
pub open spec fn chunk_count(len: nat, quota: nat) -> nat {
    if quota == 0 {
        0
    } else {
        ((len + quota - 1) / (quota as int)) as nat
    }
}

/// Index of the first job of chunk `k`.
pub open spec fn chunk_start(quota: nat, k: nat) -> nat {
    k * quota
}

/// Index one past the last job of chunk `k`.
pub open spec fn chunk_end(len: nat, quota: nat, k: nat) -> nat {
    if (k + 1) * quota <= len {
        (k + 1) * quota
    } else {
        len
    }
}

/// The jobs of chunk `k`.
pub open spec fn chunk_of<T>(jobs: Seq<T>, quota: nat, k: nat) -> Seq<T> {
    jobs.subrange(chunk_start(quota, k) as int, chunk_end(jobs.len(), quota, k) as int)
}

/// `chunks` is the partition of `jobs` under `quota`.
pub open spec fn is_partition<T>(chunks: Seq<Seq<T>>, jobs: Seq<T>, quota: nat) -> bool {
    &&& chunks.len() == chunk_count(jobs.len(), quota)
    &&& forall|k: int| 0 <= k < chunks.len() ==> #[trigger] chunks[k] == chunk_of(jobs, quota, k as nat)
}

/// The views of a vector of slices.
pub open spec fn chunk_views<T>(chunks: Seq<&[T]>) -> Seq<Seq<T>> {
    Seq::new(chunks.len(), |k: int| chunks[k]@)
}

/// Arithmetic of the chunk grid: where each chunk begins and ends.
pub proof fn lemma_chunk_bounds(len: nat, quota: nat, k: nat)
    requires
        quota >= 1,
        k < chunk_count(len, quota),
    ensures
        chunk_start(quota, k) < chunk_end(len, quota, k) <= len,
        chunk_end(len, quota, k) - chunk_start(quota, k) <= quota,
        k + 1 < chunk_count(len, quota) ==> chunk_end(len, quota, k) == chunk_start(quota, k + 1)
            && chunk_end(len, quota, k) - chunk_start(quota, k) == quota,
        k + 1 == chunk_count(len, quota) ==> chunk_end(len, quota, k) == len,
{
    let n = chunk_count(len, quota);
    lemma_count_brackets(len, quota);
    assert(k * quota <= (n - 1) * quota) by (nonlinear_arith)
        requires
            k <= n - 1,
            quota >= 1,
    ;
    assert((k + 1) * quota == k * quota + quota) by (nonlinear_arith);
    if k + 1 < n {
        assert((k + 1) * quota <= (n - 1) * quota) by (nonlinear_arith)
            requires
                k + 1 <= n - 1,
                quota >= 1,
        ;
    } else {
        assert((k + 1) * quota == n * quota);
    }
}

/// The chunk count `n` is the one number with `(n - 1) * quota < len <= n * quota`
/// (and zero for an empty list).
pub proof fn lemma_count_brackets(len: nat, quota: nat)
    requires
        quota >= 1,
    ensures
        len == 0 <==> chunk_count(len, quota) == 0,
        len <= chunk_count(len, quota) * quota,
        len > 0 ==> (chunk_count(len, quota) - 1) * quota < len,
{
    let q = quota as int;
    let m = len + quota - 1;
    let n = m / q;
    assert(m == q * n + m % q && 0 <= m % q < q) by (nonlinear_arith)
        requires
            q >= 1,
            n == m / q,
    ;
    assert(q * n == n * q) by (nonlinear_arith);
    assert((n - 1) * q == n * q - q) by (nonlinear_arith);
    if n <= 0 {
        assert(n * q <= 0) by (nonlinear_arith)
            requires
                n <= 0,
                q >= 1,
        ;
    }
}

/// The size of the last chunk: the remainder of `len` by `quota`, or `quota`
/// where `quota` divides `len`.
pub open spec fn last_chunk_len(len: nat, quota: nat) -> nat {
    if len % quota == 0 {
        quota
    } else {
        len % quota
    }
}

/// The first `k` chunks, put end to end, are the jobs in front of chunk `k`.
proof fn lemma_leading_chunks<T>(chunks: Seq<Seq<T>>, jobs: Seq<T>, quota: nat, k: nat)
    requires
        quota >= 1,
        is_partition(chunks, jobs, quota),
        k <= chunks.len(),
    ensures
        k < chunks.len() ==> chunks.take(k as int).flatten() == jobs.subrange(
            0,
            chunk_start(quota, k) as int,
        ) && chunk_start(quota, k) < jobs.len(),
        k == chunks.len() ==> chunks.take(k as int).flatten() == jobs,
    decreases k,
{
    lemma_count_brackets(jobs.len(), quota);
    if k == 0 {
        assert(chunks.take(0) =~= Seq::<Seq<T>>::empty());
        assert(chunks.take(0).flatten() =~= jobs.subrange(0, 0));
        assert(chunk_start(quota, 0) == 0) by (nonlinear_arith);
        if chunks.len() == 0 {
            assert(jobs =~= jobs.subrange(0, 0));
        }
    } else {
        let j = (k - 1) as nat;
        lemma_leading_chunks(chunks, jobs, quota, j);
        lemma_chunk_bounds(jobs.len(), quota, j);
        let done = chunks.take(j as int);
        done.lemma_flatten_push(chunks[j as int]);
        assert(chunks.take(k as int) =~= done.push(chunks[j as int]));
        assert(chunks[j as int] == chunk_of(jobs, quota, j));
        let a = chunk_start(quota, j) as int;
        let b = chunk_end(jobs.len(), quota, j) as int;
        assert(jobs.subrange(0, a) + jobs.subrange(a, b) =~= jobs.subrange(0, b));
        if k == chunks.len() {
            assert(jobs.subrange(0, b) =~= jobs);
        } else {
            lemma_chunk_bounds(jobs.len(), quota, k);
        }
    }
}

/// For a quota of at least one job, the partition has `len / quota` chunks,
/// rounded up; every chunk but the last holds `quota` jobs and the last holds
/// the rest; and the chunks, put end to end in order, are the job list: no
/// job is lost, repeated or moved.
pub proof fn lemma_partition_covers<T>(chunks: Seq<Seq<T>>, jobs: Seq<T>, quota: nat)
    requires
        quota >= 1,
        is_partition(chunks, jobs, quota),
    ensures
        (chunks.len() - 1) * quota < jobs.len() <= chunks.len() * quota || (jobs.len() == 0
            && chunks.len() == 0),
        forall|k: int| 0 <= k < chunks.len() - 1 ==> (#[trigger] chunks[k]).len() == quota,
        chunks.len() > 0 ==> chunks.last().len() == last_chunk_len(jobs.len(), quota),
        forall|k: int| 0 <= k < chunks.len() ==> 1 <= (#[trigger] chunks[k]).len() <= quota,
        chunks.flatten() == jobs,
{
    let len = jobs.len();
    let n = chunks.len();
    lemma_count_brackets(len, quota);
    assert forall|k: int| 0 <= k < n implies 1 <= (#[trigger] chunks[k]).len() <= quota && (k < n
        - 1 ==> chunks[k].len() == quota) by {
        lemma_chunk_bounds(len, quota, k as nat);
        assert(chunks[k] == chunk_of(jobs, quota, k as nat));
    }
    if n > 0 {
        let k = (n - 1) as nat;
        lemma_chunk_bounds(len, quota, k);
        assert(chunks.last() == chunk_of(jobs, quota, k));
        let q = quota as int;
        let l = len as int;
        let r = l % q;
        let m = l / q;
        assert(chunks.last().len() == l - k * q);
        assert(l - k * q == last_chunk_len(len, quota)) by (nonlinear_arith)
            requires
                q >= 1,
                k * q < l,
                l <= (k + 1) * q,
                m == l / q,
                r == l % q,
                last_chunk_len(len, quota) == (if r == 0 { q } else { r }),
                l == len,
                q == quota,
        {
            assert(l == q * m + r && 0 <= r < q);
            if r == 0 {
                assert(m == k + 1);
            } else {
                assert(m == k);
            }
        }
    }
    lemma_leading_chunks(chunks, jobs, quota, n);
    assert(chunks.take(n as int) =~= chunks);
}

/// Partitioning the same job list under the same quota again gives the same
/// chunks, with the same boundaries.
pub proof fn lemma_partition_is_repeatable<T>(
    first: Seq<Seq<T>>,
    second: Seq<Seq<T>>,
    jobs: Seq<T>,
    quota: nat,
)
    requires
        is_partition(first, jobs, quota),
        is_partition(second, jobs, quota),
    ensures
        first == second,
{
    assert(first =~= second);
}

/// With a quota of zero, or with no jobs, there is no chunk at all.
pub proof fn lemma_nothing_to_dispatch(len: nat, quota: nat)
    ensures
        (quota == 0 || len == 0) <==> chunk_count(len, quota) == 0,
{
    if quota >= 1 {
        lemma_count_brackets(len, quota);
    }
}

/// The number of chunks of `len` jobs under `quota`.
pub fn chunk_total(len: usize, quota: usize) -> (n: usize)
    ensures
        n == chunk_count(len as nat, quota as nat),
{
    if quota == 0 {
        return 0;
    }
    let whole: usize = len / quota;
    let rest: usize = len % quota;
    proof {
        let q = quota as int;
        let l = len as int;
        assert(l == q * (l / q) + l % q && 0 <= l % q < q) by (nonlinear_arith)
            requires
                q >= 1,
        ;
        if l % q == 0 {
            assert((l + q - 1) / q == l / q) by (nonlinear_arith)
                requires
                    q >= 1,
                    l == q * (l / q),
            ;
        } else {
            assert((l + q - 1) / q == l / q + 1) by (nonlinear_arith)
                requires
                    q >= 1,
                    l == q * (l / q) + l % q,
                    0 < l % q < q,
            ;
            assert(l / q < l) by (nonlinear_arith)
                requires
                    q >= 1,
                    l == q * (l / q) + l % q,
                    0 < l % q < q,
                    l >= 0,
            ;
        }
    }
    if rest == 0 {
        whole
    } else {
        whole + 1
    }
}

/// The bounds of the chunk that begins at job `start`, as `(start, end)`, or
/// `None` once the list is exhausted or when the quota is zero. Calling it
/// again with the returned `end` walks the chunks one at a time.
pub fn next_chunk(len: usize, quota: usize, start: usize) -> (bounds: Option<(usize, usize)>)
    ensures
        bounds is None <==> (quota == 0 || start >= len),
        bounds matches Some((a, b)) ==> a == start && a < b <= len && b - a <= quota && (b < len
            ==> b - a == quota),
        forall|k: nat|
            bounds is Some && start == chunk_start(quota as nat, k) ==> bounds == Some(
                (start, chunk_end(len as nat, quota as nat, k) as usize),
            ),
{
    if quota == 0 || start >= len {
        return None;
    }
    let room: usize = len - start;
    let end: usize = if room <= quota {
        len
    } else {
        start + quota
    };
    proof {
        assert forall|k: nat| start == chunk_start(quota as nat, k) implies end == chunk_end(
            len as nat,
            quota as nat,
            k,
        ) by {
            assert((k + 1) * quota == k * quota + quota) by (nonlinear_arith);
        }
    }
    Some((start, end))
}

/// Cuts `jobs` into its chunks, in order.
pub fn partition<'a, T>(jobs: &'a [T], quota: usize) -> (chunks: Vec<&'a [T]>)
    ensures
        is_partition(chunk_views(chunks@), jobs@, quota as nat),
        quota >= 1 ==> chunk_views(chunks@).flatten() == jobs@,
{
    let mut chunks: Vec<&'a [T]> = Vec::new();
    let len: usize = jobs.len();
    let total: usize = chunk_total(len, quota);
    let mut start: usize = 0;
    let mut k: usize = 0;
    proof {
        assert(chunk_views(chunks@) =~= Seq::<Seq<T>>::empty());
        assert(jobs@.subrange(0, 0) =~= Seq::<T>::empty());
        if quota >= 1 {
            lemma_count_brackets(len as nat, quota as nat);
        }
    }
    while k < total
        invariant
            len == jobs@.len(),
            total == chunk_count(len as nat, quota as nat),
            k <= total,
            chunks@.len() == k,
            start <= len,
            k < total ==> start == chunk_start(quota as nat, k as nat),
            quota >= 1 && k == total ==> start == len,
            forall|i: int|
                0 <= i < k ==> #[trigger] chunks@[i]@ == chunk_of(jobs@, quota as nat, i as nat),
            chunk_views(chunks@).flatten() == jobs@.subrange(0, start as int),
        decreases total - k,
    {
        proof {
            lemma_chunk_bounds(len as nat, quota as nat, k as nat);
        }
        let room: usize = len - start;
        let end: usize = if room <= quota {
            len
        } else {
            start + quota
        };
        proof {
            assert((k + 1) * quota == k * quota + quota) by (nonlinear_arith);
            assert(end == chunk_end(len as nat, quota as nat, k as nat));
        }
        let piece: &'a [T] = slice_subrange(jobs, start, end);
        let ghost before = chunk_views(chunks@);
        chunks.push(piece);
        proof {
            assert(chunk_views(chunks@) =~= before.push(piece@));
            before.lemma_flatten_push(piece@);
            assert(jobs@.subrange(0, start as int) + piece@ =~= jobs@.subrange(0, end as int));
        }
        start = end;
        k = k + 1;
    }
    proof {
        if quota >= 1 {
            lemma_count_brackets(len as nat, quota as nat);
        }
        assert(jobs@.subrange(0, len as int) =~= jobs@);
        assert forall|i: int| 0 <= i < chunk_views(chunks@).len() implies #[trigger] chunk_views(
            chunks@,
        )[i] == chunk_of(jobs@, quota as nat, i as nat) by {
            assert(chunks@[i]@ == chunk_of(jobs@, quota as nat, i as nat));
        }
    }
    chunks
}

} // verus!
