//! The arithmetic of the trial orchestrator.
//!
//! The orchestrator splits the requested trial count into batches for
//! a pool of workers. The planning here is pure arithmetic and
//! verified; the caller owns the threads, the queue and the output
//! sink, and feeds each batch's size from [`partition_trials`].

use crate::methods::results::ElectResult;
use vstd::prelude::*;

verus! {

/// Most trials a single batch may hold.
pub const MAX_TRIALS_PER_JOB: usize = 10000;

/// Largest supported trial count for a run.
pub const MAX_TRIALS: usize = 0x3fff_ffff;

/// The batch count for a run: at least one batch per worker, enough
/// batches that none exceeds [`MAX_TRIALS_PER_JOB`], rounded up to a
/// multiple of the worker count.
pub open spec fn spec_chunks(num_workers: int, trials: int) -> int {
    let by_size = (trials + MAX_TRIALS_PER_JOB - 1) / (MAX_TRIALS_PER_JOB as int);
    let min_chunks = if by_size > num_workers {
        by_size
    } else {
        num_workers
    };
    ((min_chunks + num_workers - 1) / num_workers) * num_workers
}

/// How many batches to run for `trials` trials on `num_workers`
/// workers.
pub fn plan_chunks(num_workers: usize, trials: usize) -> (chunks: usize)
    requires
        1 <= num_workers <= 0x10000,
        trials <= MAX_TRIALS,
    ensures
        chunks == spec_chunks(num_workers as int, trials as int),
        chunks >= num_workers,
        chunks % num_workers == 0,
        chunks >= 1,
        chunks * MAX_TRIALS_PER_JOB >= trials,
{
    let by_size = (trials + MAX_TRIALS_PER_JOB - 1) / MAX_TRIALS_PER_JOB;
    let min_chunks = if by_size > num_workers {
        by_size
    } else {
        num_workers
    };
    let per_worker = (min_chunks + num_workers - 1) / num_workers;
    proof {
        let w = num_workers as int;
        let m = min_chunks as int;
        let q = (m + w - 1) / w;
        vstd::arithmetic::div_mod::lemma_div_pos_is_pos(m + w - 1, w);
        assert(q >= 1) by {
            vstd::arithmetic::div_mod::lemma_div_non_zero(m + w - 1, w);
        }
        assert(q * w >= w && q * w >= m && q * w <= m + w) by {
            vstd::arithmetic::div_mod::lemma_fundamental_div_mod(m + w - 1, w);
            vstd::arithmetic::div_mod::lemma_mod_division_less_than_divisor(m + w - 1, w);
            assert(q * w == (m + w - 1) - (m + w - 1) % w);
        }
        assert((q * w) % w == 0) by {
            vstd::arithmetic::div_mod::lemma_mod_multiples_basic(q, w);
        }
        assert(q * w <= 0x4000_0000 + 0x20000) by (nonlinear_arith)
            requires
                q * w <= m + w,
                m <= 0x3fff_ffff + 0x10000,
                w <= 0x10000,
        ;
        lemma_ceil_div(trials as int, MAX_TRIALS_PER_JOB as int);
        let bs = (trials as int + MAX_TRIALS_PER_JOB - 1) / (MAX_TRIALS_PER_JOB as int);
        assert(q * w * (MAX_TRIALS_PER_JOB as int) >= bs * (MAX_TRIALS_PER_JOB as int)) by (
        nonlinear_arith)
            requires
                q * w >= m,
                m >= bs,
                0 <= bs,
        ;
    }
    per_worker * num_workers
}

/// With the planned batch count, even the largest batch of
/// [`partition_trials`] fits inside [`MAX_TRIALS_PER_JOB`].
pub proof fn lemma_batches_fit(trials: int, chunks: int)
    requires
        1 <= chunks,
        0 <= trials,
        chunks * MAX_TRIALS_PER_JOB >= trials,
    ensures
        (trials + chunks - 1) / chunks <= MAX_TRIALS_PER_JOB,
{
    let m = MAX_TRIALS_PER_JOB as int;
    assert(trials + chunks - 1 <= chunks * m + chunks - 1);
    vstd::arithmetic::div_mod::lemma_div_is_ordered(trials + chunks - 1, chunks * m + chunks - 1, chunks);
    vstd::arithmetic::div_mod::lemma_fundamental_div_mod_converse(
        chunks * m + chunks - 1,
        chunks,
        m,
        chunks - 1,
    );
    assert(m * chunks == chunks * m) by (nonlinear_arith);
}

/// Sum of the first `k` batch sizes.
pub open spec fn parts_total(parts: Seq<usize>, k: int) -> int
    decreases k,
{
    if k <= 0 {
        0
    } else {
        parts_total(parts, k - 1) + parts[k - 1]
    }
}

proof fn lemma_parts_total_push(parts: Seq<usize>, x: usize, k: int)
    requires
        0 <= k <= parts.len(),
    ensures
        parts_total(parts.push(x), k) == parts_total(parts, k),
    decreases k,
{
    if k > 0 {
        lemma_parts_total_push(parts, x, k - 1);
    }
}

/// Split `trials` into exactly `chunks` batch sizes that sum to
/// `trials`, each batch taking the ceiling share of what remains.
/// The sizes are balanced within one: every batch holds either the
/// floor or the ceiling of `trials / chunks`.
pub fn partition_trials(trials: usize, chunks: usize) -> (parts: Vec<usize>)
    requires
        1 <= chunks <= MAX_TRIALS,
        trials <= MAX_TRIALS,
    ensures
        parts@.len() == chunks,
        parts_total(parts@, chunks as int) == trials,
        forall|k: int|
            0 <= k < chunks ==> trials as int / chunks as int <= (#[trigger] parts@[k]) as int
                <= (trials as int + chunks - 1) / chunks as int,
        forall|k1: int, k2: int|
            0 <= k1 < chunks && 0 <= k2 < chunks ==> parts@[k1] <= parts@[k2] + 1,
{
    let ghost lo = trials as int / chunks as int;
    let ghost hi = (trials as int + chunks - 1) / chunks as int;
    proof {
        lemma_ceil_div(trials as int, chunks as int);
    }
    let mut parts: Vec<usize> = Vec::new();
    let mut trials_left = trials;
    let mut chunks_to_do = chunks;
    while chunks_to_do > 0
        invariant
            trials <= MAX_TRIALS,
            chunks <= MAX_TRIALS,
            chunks_to_do <= chunks,
            trials_left <= trials,
            lo == trials as int / chunks as int,
            hi == (trials as int + chunks - 1) / chunks as int,
            0 <= lo <= hi <= lo + 1,
            chunks_to_do > 0 ==> lo * chunks_to_do <= trials_left <= hi * chunks_to_do,
            parts@.len() == chunks - chunks_to_do,
            parts_total(parts@, parts@.len() as int) == trials - trials_left,
            forall|k: int|
                0 <= k < parts@.len() ==> lo <= (#[trigger] parts@[k]) as int <= hi,
            chunks_to_do == 0 ==> trials_left == 0,
        decreases chunks_to_do,
    {
        let task_trials = (trials_left + chunks_to_do - 1) / chunks_to_do;
        proof {
            let l = trials_left as int;
            let c = chunks_to_do as int;
            lemma_ceil_div(l, c);
            let q = l / c;
            let r = l % c;
            vstd::arithmetic::div_mod::lemma_fundamental_div_mod(l, c);
            vstd::arithmetic::div_mod::lemma_mod_division_less_than_divisor(l, c);
            vstd::arithmetic::div_mod::lemma_div_pos_is_pos(l, c);
            // the ceiling share stays between the overall floor and
            // ceiling, and what remains does too
            assert(lo <= q && (r > 0 ==> q + 1 <= hi) && (r == 0 ==> q <= hi)) by (nonlinear_arith)
                requires
                    l == q * c + r,
                    0 <= r < c,
                    0 < c,
                    lo * c <= l <= hi * c,
                    0 <= lo <= hi,
                    0 <= q,
            ;
            if c > 1 {
                if r == 0 {
                    assert(lo * (c - 1) <= q * (c - 1) <= hi * (c - 1)) by (nonlinear_arith)
                        requires
                            lo <= q <= hi,
                            1 < c,
                    ;
                    assert(l - q == q * (c - 1)) by (nonlinear_arith)
                        requires
                            l == q * c + r,
                            r == 0,
                    ;
                } else {
                    assert(lo * (c - 1) <= q * (c - 1) + (r - 1) <= hi * (c - 1)) by (
                    nonlinear_arith)
                        requires
                            lo <= q,
                            q + 1 <= hi,
                            1 <= r < c,
                            1 < c,
                    ;
                    assert(l - (q + 1) == q * (c - 1) + (r - 1)) by (nonlinear_arith)
                        requires
                            l == q * c + r,
                    ;
                }
            }
            if c == 1 {
                assert(lo * c == lo && hi * c == hi) by (nonlinear_arith)
                    requires
                        c == 1,
                ;
                vstd::arithmetic::div_mod::lemma_div_basics(l);
            }
            // the share never exceeds what remains
            assert(q <= q * c && (r > 0 ==> q + 1 <= q * c + r)) by (nonlinear_arith)
                requires
                    0 <= q,
                    1 <= c,
                    0 <= r,
            ;
        }
        let ghost old_parts = parts@;
        parts.push(task_trials);
        proof {
            lemma_parts_total_push(old_parts, task_trials, old_parts.len() as int);
        }
        trials_left = trials_left - task_trials;
        chunks_to_do = chunks_to_do - 1;
    }
    parts
}

/// `(l + c - 1) / c` is the ceiling of `l / c`: the floor plus one
/// exactly when the division leaves a remainder.
proof fn lemma_ceil_div(l: int, c: int)
    requires
        0 <= l,
        1 <= c,
    ensures
        (l + c - 1) / c == l / c + (if l % c == 0 {
            0int
        } else {
            1int
        }),
        l / c * c <= l <= ((l + c - 1) / c) * c,
        0 <= l / c,
{
    let q = l / c;
    let r = l % c;
    vstd::arithmetic::div_mod::lemma_fundamental_div_mod(l, c);
    vstd::arithmetic::div_mod::lemma_mod_division_less_than_divisor(l, c);
    vstd::arithmetic::div_mod::lemma_div_pos_is_pos(l, c);
    if r == 0 {
        vstd::arithmetic::div_mod::lemma_fundamental_div_mod_converse(l + c - 1, c, q, c - 1);
    } else {
        assert((q + 1) * c == q * c + c) by (nonlinear_arith);
        vstd::arithmetic::div_mod::lemma_fundamental_div_mod_converse(l + c - 1, c, q + 1, r - 1);
        assert(((l + c - 1) / c) * c == q * c + c) by (nonlinear_arith)
            requires
                (l + c - 1) / c == q + 1,
        ;
    }
    assert(q * c <= l);
}

/// The contents of `cand_by_regret`, kept only where the candidate is
/// among the listed winners (the regret-ordered surviving candidates
/// after a primary).
pub open spec fn surviving(cbr: Seq<usize>, winners: Seq<ElectResult>) -> Seq<usize>
    decreases cbr.len(),
{
    if cbr.len() == 0 {
        Seq::empty()
    } else {
        let rest = surviving(cbr.drop_last(), winners);
        if exists|k: int| 0 <= k < winners.len() && (#[trigger] winners[k]).cand == cbr.last() {
            rest.push(cbr.last())
        } else {
            rest
        }
    }
}

/// Keep the regret ordering of the primary, dropping every candidate
/// that did not survive into the general election.
pub fn surviving_in_regret_order(cand_by_regret: &Vec<usize>, winners: &Vec<ElectResult>) -> (out:
    Vec<usize>)
    ensures
        out@ == surviving(cand_by_regret@, winners@),
{
    let mut out: Vec<usize> = Vec::new();
    let mut i: usize = 0;
    while i < cand_by_regret.len()
        invariant
            i <= cand_by_regret@.len(),
            out@ == surviving(cand_by_regret@.subrange(0, i as int), winners@),
        decreases cand_by_regret@.len() - i,
    {
        let ghost pre = cand_by_regret@.subrange(0, i as int);
        let ghost post = cand_by_regret@.subrange(0, i as int + 1);
        proof {
            assert(post.drop_last() =~= pre);
            assert(post.last() == cand_by_regret@[i as int]);
        }
        let c = cand_by_regret[i];
        let mut k: usize = 0;
        let mut found = false;
        while k < winners.len() && !found
            invariant
                k <= winners@.len(),
                found ==> exists|k2: int|
                    0 <= k2 < winners@.len() && (#[trigger] winners@[k2]).cand == c,
                !found ==> forall|k2: int|
                    0 <= k2 < k ==> (#[trigger] winners@[k2]).cand != c,
            decreases winners@.len() - k, 1int - if found {
                1int
            } else {
                0int
            },
    {
            if winners[k].cand == c {
                found = true;
            } else {
                k += 1;
            }
        }
        if found {
            out.push(c);
        }
        i += 1;
    }
    proof {
        assert(cand_by_regret@.subrange(0, cand_by_regret@.len() as int) =~= cand_by_regret@);
    }
    out
}

} // verus!
