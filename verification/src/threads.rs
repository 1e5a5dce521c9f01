//! How work is split among worker threads.
use vstd::prelude::*;
use vstd::arithmetic::div_mod::lemma_fundamental_div_mod;

verus! {

/// The number of tasks given to thread `t` of `threads` when `amount` tasks are
/// shared: an equal part each, the last thread also taking the remainder.
pub open spec fn share_spec(amount: nat, threads: nat, t: nat) -> nat {
    if t + 1 != threads {
        amount / threads
    } else {
        amount / threads + amount % threads
    }
}

/// The tasks given to the first `k` threads.
pub open spec fn shares_total(amount: nat, threads: nat, k: nat) -> nat
    decreases k,
{
    if k == 0 {
        0
    } else {
        shares_total(amount, threads, (k - 1) as nat) + share_spec(amount, threads, (k - 1) as nat)
    }
}

proof fn lemma_parts(amount: nat, threads: nat)
    requires
        threads > 0,
    ensures
        amount == threads * (amount / threads) + amount % threads,
        amount / threads + amount % threads <= amount,
{
    lemma_fundamental_div_mod(amount as int, threads as int);
    assert(threads * (amount / threads) >= amount / threads) by (nonlinear_arith)
        requires
            threads > 0,
    ;
}

/// The number of tasks for thread `t`.
pub fn thread_share(amount: usize, threads: usize, t: usize) -> (n: usize)
    requires
        threads > 0,
    ensures
        n == share_spec(amount as nat, threads as nat, t as nat),
{
    proof {
        lemma_parts(amount as nat, threads as nat);
    }
    if t != threads - 1 {
        amount / threads
    } else {
        amount / threads + amount % threads
    }
}

proof fn lemma_shares_before_last(amount: nat, threads: nat, k: nat)
    requires
        threads > 0,
        k < threads,
    ensures
        shares_total(amount, threads, k) == k * (amount / threads),
    decreases k,
{
    let q = amount / threads;
    if k > 0 {
        let j = (k - 1) as nat;
        lemma_shares_before_last(amount, threads, j);
        assert(shares_total(amount, threads, k) == shares_total(amount, threads, j) + share_spec(amount, threads, j));
        assert(share_spec(amount, threads, j) == q);
        assert(j * q + q == k * q) by (nonlinear_arith)
            requires
                j + 1 == k,
        ;
    } else {
        assert(0 * q == 0) by (nonlinear_arith);
    }
}

/// Shared among all the threads, the tasks are each given out once: the shares
/// add up to the amount.
pub proof fn lemma_shares_cover(amount: nat, threads: nat)
    requires
        threads > 0,
    ensures
        shares_total(amount, threads, threads) == amount,
{
    lemma_shares_before_last(amount, threads, (threads - 1) as nat);
    lemma_parts(amount, threads);
    let q = amount / threads;
    assert((threads - 1) * q + q == threads * q) by (nonlinear_arith)
        requires
            threads > 0,
    ;
}

/// Where the chunk of worker `t` ends, given where it starts, when `ex_count`
/// items are walked in chunks of `gap`: the chunk is `gap` long, and the worker
/// whose number is one less than the number of items also takes the remainder of
/// dividing the items among the `threads` workers.
pub fn chunk_end(start: usize, gap: usize, t: usize, ex_count: usize, threads: usize) -> (end: usize)
    requires
        ex_count > 0,
        threads > 0,
        start + gap + ex_count % threads <= usize::MAX,
    ensures
        end == if t != ex_count - 1 {
            start + gap
        } else {
            start + gap + ex_count % threads
        },
        gap == ex_count / threads ==> end == chunk_end_spec(start as nat, t as nat, ex_count as nat, threads as nat),
{
    if t != ex_count - 1 {
        start + gap
    } else {
        start + gap + ex_count % threads
    }
}

/// Where the chunk of worker `t` ends, given where it starts (what `chunk_end`
/// computes).
pub open spec fn chunk_end_spec(start: nat, t: nat, ex_count: nat, threads: nat) -> nat {
    if t + 1 != ex_count {
        start + ex_count / threads
    } else {
        start + ex_count / threads + ex_count % threads
    }
}

/// Where the chunk of worker `t` starts: the first at 0, each next one where the
/// one before ends.
pub open spec fn chunk_start(ex_count: nat, threads: nat, t: nat) -> nat
    decreases t,
{
    if t == 0 {
        0
    } else {
        chunk_end_spec(chunk_start(ex_count, threads, (t - 1) as nat), (t - 1) as nat, ex_count, threads)
    }
}

proof fn lemma_chunks_even(ex_count: nat, threads: nat, t: nat)
    requires
        threads > 0,
        ex_count % threads == 0,
    ensures
        chunk_start(ex_count, threads, t) == t * (ex_count / threads),
    decreases t,
{
    let q = ex_count / threads;
    if t == 0 {
        assert(0 * q == 0) by (nonlinear_arith);
    } else {
        lemma_chunks_even(ex_count, threads, (t - 1) as nat);
        assert(((t - 1) as nat) * q + q == t * q) by (nonlinear_arith)
            requires
                t > 0,
        ;
    }
}

proof fn lemma_chunks_few(ex_count: nat, threads: nat, t: nat)
    requires
        0 < ex_count < threads,
    ensures
        chunk_start(ex_count, threads, t) == if t < ex_count {
            0
        } else {
            ex_count
        },
    decreases t,
{
    assert(ex_count / threads == 0) by (nonlinear_arith)
        requires
            0 < ex_count < threads,
    ;
    assert(ex_count % threads == ex_count) by (nonlinear_arith)
        requires
            0 < ex_count < threads,
    ;
    if t > 0 {
        lemma_chunks_few(ex_count, threads, (t - 1) as nat);
    }
}

/// The workers' chunks of `r_main` cover every item exactly once: they lie back
/// to back from 0 to the number of items, so each item falls in one chunk
/// `chunk_start(t)..chunk_start(t + 1)`. This holds when the items divide evenly
/// among the workers or are no more than the workers; otherwise the remainder
/// goes to worker number `ex_count - 1`, which does not exist, and is left out.
pub proof fn lemma_chunks_cover(ex_count: nat, threads: nat)
    requires
        threads > 0,
        ex_count > 0,
        ex_count % threads == 0 || ex_count <= threads,
    ensures
        chunk_start(ex_count, threads, 0) == 0,
        forall|t: nat| t < threads ==> chunk_start(ex_count, threads, t) <= #[trigger] chunk_start(ex_count, threads, t + 1),
        chunk_start(ex_count, threads, threads) == ex_count,
{
    if ex_count % threads == 0 {
        let q = ex_count / threads;
        assert forall|t: nat| t < threads implies chunk_start(ex_count, threads, t) <= #[trigger] chunk_start(
            ex_count,
            threads,
            t + 1,
        ) by {
            lemma_chunks_even(ex_count, threads, t);
            lemma_chunks_even(ex_count, threads, t + 1);
            assert(t * q <= (t + 1) * q) by (nonlinear_arith)
                requires
                    q >= 0,
            ;
        }
        lemma_chunks_even(ex_count, threads, threads);
        lemma_fundamental_div_mod(ex_count as int, threads as int);
        assert(threads * q == ex_count);
    } else {
        assert(ex_count < threads) by (nonlinear_arith)
            requires
                ex_count <= threads,
                ex_count % threads != 0,
                threads > 0,
        ;
        assert forall|t: nat| t < threads implies chunk_start(ex_count, threads, t) <= #[trigger] chunk_start(
            ex_count,
            threads,
            t + 1,
        ) by {
            lemma_chunks_few(ex_count, threads, t);
            lemma_chunks_few(ex_count, threads, t + 1);
        }
        lemma_chunks_few(ex_count, threads, threads);
    }
}

} // verus!
