//! Splitting a list of tasks into one contiguous chunk per worker.

use vstd::prelude::*;

verus! {

/// The number of workers that take part: at least one.
pub open spec fn worker_count(workers: nat) -> nat {
    if workers == 0 {
        1
    } else {
        workers
    }
}

/// The length of a full chunk: `tasks` divided by the number of workers, rounded up.
pub open spec fn chunk_size(tasks: nat, workers: nat) -> nat {
    ((tasks + worker_count(workers) - 1) / (worker_count(workers) as int)) as nat
}

/// Where chunk `k` starts in a list of `tasks` tasks; for `k` past the last chunk, the
/// end of the list.
pub open spec fn chunk_start(tasks: nat, workers: nat, k: int) -> int {
    if k * chunk_size(tasks, workers) <= tasks {
        k * chunk_size(tasks, workers)
    } else {
        tasks as int
    }
}

/// The tasks of worker `k`.
pub open spec fn chunk<T>(tasks: Seq<T>, workers: nat, k: int) -> Seq<T> {
    tasks.subrange(
        chunk_start(tasks.len(), workers, k),
        chunk_start(tasks.len(), workers, k + 1),
    )
}

/// The chunks of all workers, in the order of the workers.
pub open spec fn partition<T>(tasks: Seq<T>, workers: nat) -> Seq<Seq<T>> {
    Seq::new(worker_count(workers), |k: int| chunk(tasks, workers, k))
}

/// What the chunks hold, chunk by chunk.
pub open spec fn chunk_views<T>(chunks: Seq<Vec<T>>) -> Seq<Seq<T>> {
    chunks.map_values(|c: Vec<T>| c@)
}

/// Splits `vec` into one chunk for each of `n` workers (one worker where `n` is 0).
/// Every chunk but the last ones holds `chunk_size` tasks; the chunks keep the order of
/// `vec`, and those that follow the last task are empty.
pub fn split_vec<T>(vec: Vec<T>, n: usize) -> (chunks: Vec<Vec<T>>)
    ensures
        chunk_views(chunks@) == partition(vec@, n as nat),
        chunks@.len() == worker_count(n as nat),
        chunk_views(chunks@).flatten() == vec@,
{
    let workers: usize = if n == 0 {
        1
    } else {
        n
    };
    let len: usize = vec.len();
    let size: usize = if len % workers == 0 {
        len / workers
    } else {
        assert(len / workers < len) by (nonlinear_arith)
            requires
                workers >= 1,
                len % workers != 0,
        ;
        len / workers + 1
    };
    proof {
        lemma_chunk_size(len as nat, n as nat);
    }
    let ghost tasks = vec@;
    let mut rest: Vec<T> = vec;
    let mut chunks: Vec<Vec<T>> = Vec::new();
    let mut k: usize = 0;
    while k < workers
        invariant
            k <= workers,
            workers == worker_count(n as nat),
            size == chunk_size(tasks.len(), n as nat),
            tasks.len() == len,
            chunks@.len() == k,
            rest@ == tasks.skip(chunk_start(tasks.len(), n as nat, k as int)),
            0 <= chunk_start(tasks.len(), n as nat, k as int) <= len,
            forall|j: int| 0 <= j < k ==> (#[trigger] chunks@[j])@ == chunk(tasks, n as nat, j),
        decreases workers - k,
    {
        let take: usize = if size < rest.len() {
            size
        } else {
            rest.len()
        };
        proof {
            lemma_chunk_start_step(len as nat, n as nat, k as int);
        }
        let tail = rest.split_off(take);
        proof {
            let start = chunk_start(tasks.len(), n as nat, k as int);
            assert(rest@ =~= chunk(tasks, n as nat, k as int));
            assert(tail@ =~= tasks.skip(start + take));
        }
        chunks.push(rest);
        rest = tail;
        k = k + 1;
    }
    proof {
        assert(chunk_views(chunks@) =~= partition(tasks, n as nat));
        lemma_partition_complete(tasks, n as nat);
    }
    chunks
}

/// Rounding the quotient up: the chunk size is the quotient, and one more where
/// something is left over. All workers together can take every task.
pub proof fn lemma_chunk_size(tasks: nat, workers: nat)
    ensures
        chunk_size(tasks, workers) == tasks / worker_count(workers) + if tasks % worker_count(
            workers,
        ) == 0 {
            0nat
        } else {
            1nat
        },
        chunk_size(tasks, workers) * worker_count(workers) >= tasks,
        tasks > 0 ==> (chunk_size(tasks, workers) - 1) * worker_count(workers) < tasks,
        tasks > 0 <==> chunk_size(tasks, workers) > 0,
{
    let w = worker_count(workers) as int;
    let t = tasks as int;
    let q = t / w;
    let r = t % w;
    assert(t == q * w + r && 0 <= r < w) by (nonlinear_arith)
        requires
            w > 0,
            q == t / w,
            r == t % w,
    ;
    if r == 0 {
        assert((q * w + w - 1) / w == q) by (nonlinear_arith)
            requires
                w > 0,
        ;
    } else {
        assert((q * w + r + w - 1) / w == q + 1) by (nonlinear_arith)
            requires
                w > 0,
                0 < r < w,
        ;
    }
    let s = chunk_size(tasks, workers) as int;
    assert(s * w >= t && (t > 0 ==> (s - 1) * w < t)) by (nonlinear_arith)
        requires
            w > 0,
            t == q * w + r,
            0 <= r < w,
            s == q + if r == 0 {
                0int
            } else {
                1int
            },
    ;
    assert(t > 0 <==> s > 0) by (nonlinear_arith)
        requires
            w > 0,
            t >= 0,
            t == q * w + r,
            0 <= r < w,
            s == q + if r == 0 {
                0int
            } else {
                1int
            },
    ;
}

/// From the start of one chunk to the start of the next it is a full chunk, or what is
/// left of the list.
pub proof fn lemma_chunk_start_step(tasks: nat, workers: nat, k: int)
    requires
        0 <= k,
    ensures
        0 <= chunk_start(tasks, workers, k) <= chunk_start(tasks, workers, k + 1) <= tasks,
        chunk_start(tasks, workers, k + 1) - chunk_start(tasks, workers, k) == if chunk_size(
            tasks,
            workers,
        ) < tasks - chunk_start(tasks, workers, k) {
            chunk_size(tasks, workers) as int
        } else {
            tasks - chunk_start(tasks, workers, k)
        },
{
    let s = chunk_size(tasks, workers) as int;
    assert((k + 1) * s == k * s + s && k * s >= 0) by (nonlinear_arith)
        requires
            k >= 0,
            s >= 0,
    ;
}

/// The last chunk ends where the list ends.
pub proof fn lemma_chunks_reach_the_end(tasks: nat, workers: nat)
    ensures
        chunk_start(tasks, workers, 0) == 0,
        chunk_start(tasks, workers, worker_count(workers) as int) == tasks,
{
    lemma_chunk_size(tasks, workers);
    let s = chunk_size(tasks, workers) as int;
    let w = worker_count(workers) as int;
    assert(w * s == s * w) by (nonlinear_arith);
    assert(0 * s == 0) by (nonlinear_arith);
}

/// The chunks, one after the other, are the list: nothing is lost, added or moved.
pub proof fn lemma_partition_complete<T>(tasks: Seq<T>, workers: nat)
    ensures
        partition(tasks, workers).flatten() == tasks,
{
    lemma_chunks_join(tasks, workers, worker_count(workers) as int);
    lemma_chunks_reach_the_end(tasks.len(), workers);
    assert(partition(tasks, workers) =~= Seq::new(
        worker_count(workers),
        |k: int| chunk(tasks, workers, k),
    ));
    assert(tasks.take(tasks.len() as int) =~= tasks);
}

/// The first `count` chunks, one after the other, are the tasks before chunk `count`.
pub proof fn lemma_chunks_join<T>(tasks: Seq<T>, workers: nat, count: int)
    requires
        0 <= count,
    ensures
        Seq::new(count as nat, |k: int| chunk(tasks, workers, k)).flatten() == tasks.take(
            chunk_start(tasks.len(), workers, count),
        ),
    decreases count,
{
    let all = Seq::new(count as nat, |k: int| chunk(tasks, workers, k));
    if count == 0 {
        lemma_chunks_reach_the_end(tasks.len(), workers);
        assert(tasks.take(0) =~= Seq::<T>::empty());
    } else {
        let before = Seq::new((count - 1) as nat, |k: int| chunk(tasks, workers, k));
        lemma_chunks_join(tasks, workers, count - 1);
        lemma_chunk_start_step(tasks.len(), workers, count - 1);
        assert(all =~= before.push(chunk(tasks, workers, count - 1)));
        before.lemma_flatten_push(chunk(tasks, workers, count - 1));
        assert(tasks.take(chunk_start(tasks.len(), workers, count)) =~= tasks.take(
            chunk_start(tasks.len(), workers, count - 1),
        ) + chunk(tasks, workers, count - 1));
    }
}

/// Each task stands in exactly one chunk: task `i` is in chunk `k` exactly when `k` is
/// `i` divided by the chunk size.
pub proof fn lemma_one_chunk_per_task(tasks: nat, workers: nat, i: int, k: int)
    requires
        0 <= i < tasks,
        0 <= k,
    ensures
        chunk_size(tasks, workers) > 0,
        i / (chunk_size(tasks, workers) as int) < worker_count(workers),
        chunk_start(tasks, workers, k) <= i < chunk_start(tasks, workers, k + 1) <==> k == i / (
        chunk_size(tasks, workers) as int),
{
    lemma_chunk_size(tasks, workers);
    let s = chunk_size(tasks, workers) as int;
    let w = worker_count(workers) as int;
    let home = i / s;
    assert(home * s <= i < (home + 1) * s && home >= 0) by (nonlinear_arith)
        requires
            s > 0,
            i >= 0,
            home == i / s,
    ;
    assert(home < w) by (nonlinear_arith)
        requires
            home * s <= i,
            i < tasks,
            s * w >= tasks,
            s > 0,
    ;
    if k < home {
        assert((k + 1) * s <= home * s) by (nonlinear_arith)
            requires
                k + 1 <= home,
                s > 0,
        ;
    } else if k > home {
        assert(k * s >= (home + 1) * s) by (nonlinear_arith)
            requires
                k >= home + 1,
                s > 0,
        ;
    } else {
        assert(k * s <= tasks);
    }
}

} // verus!
