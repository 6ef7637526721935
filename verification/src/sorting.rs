//! Ordering candidates (or other ids) by an integer key.
//!
//! Several tables of the simulator are "ids sorted by a key, largest key
//! first, ties broken toward the smaller id": each row of the rank table,
//! the regret ordering, the ranked-pairs agenda and the plurality-top-N
//! winner list. [`sorted_ids_desc`] produces that arrangement, and
//! [`id_before`] is the strict total order it realizes.

use vstd::prelude::*;

verus! {

/// `a` comes before `b` when `a`'s key is larger, or the keys are equal
/// and `a` is the smaller id. A strict total order on distinct ids.
pub open spec fn id_before(keys: Seq<i64>, a: int, b: int) -> bool {
    keys[a] > keys[b] || (keys[a] == keys[b] && a < b)
}

/// How many of the first `n` entries of `s` are true.
pub open spec fn count_true(s: Seq<bool>, n: int) -> int
    decreases n,
{
    if n <= 0 {
        0
    } else {
        count_true(s, n - 1) + if s[n - 1] {
            1int
        } else {
            0int
        }
    }
}

pub proof fn lemma_count_true_le(s: Seq<bool>, n: int)
    requires
        0 <= n <= s.len(),
    ensures
        0 <= count_true(s, n) <= n,
    decreases n,
{
    if n > 0 {
        lemma_count_true_le(s, n - 1);
    }
}

pub proof fn lemma_count_true_full(s: Seq<bool>, n: int)
    requires
        0 <= n <= s.len(),
        count_true(s, n) == n,
    ensures
        forall|i: int| 0 <= i < n ==> s[i],
    decreases n,
{
    if n > 0 {
        lemma_count_true_le(s, n - 1);
        lemma_count_true_full(s, n - 1);
    }
}

pub proof fn lemma_count_true_update(s: Seq<bool>, i: int, n: int)
    requires
        0 <= i < n <= s.len(),
        !s[i],
    ensures
        count_true(s.update(i, true), n) == count_true(s, n) + 1,
    decreases n,
{
    if i == n - 1 {
        assert(forall|j: int| 0 <= j < n - 1 ==> s.update(i, true)[j] == s[j]);
        lemma_count_true_same(s, s.update(i, true), n - 1);
    } else {
        lemma_count_true_update(s, i, n - 1);
    }
}

pub proof fn lemma_count_true_same(s1: Seq<bool>, s2: Seq<bool>, n: int)
    requires
        0 <= n <= s1.len(),
        n <= s2.len(),
        forall|j: int| 0 <= j < n ==> s1[j] == s2[j],
    ensures
        count_true(s1, n) == count_true(s2, n),
    decreases n,
{
    if n > 0 {
        lemma_count_true_same(s1, s2, n - 1);
    }
}

/// `ids` is an arrangement of all ids `0..keys.len()`, largest key first,
/// ties broken toward the smaller id. Exactly one sequence satisfies this
/// for given keys.
pub open spec fn sorted_perm(keys: Seq<i64>, ids: Seq<usize>) -> bool {
    &&& ids.len() == keys.len()
    &&& forall|k: int| 0 <= k < ids.len() ==> (#[trigger] ids[k]) < keys.len()
    &&& forall|k1: int, k2: int|
        0 <= k1 < k2 < ids.len() ==> id_before(keys, ids[k1] as int, ids[k2] as int)
    &&& forall|c: usize| c < keys.len() ==> #[trigger] ids.contains(c)
}

/// Only one arrangement satisfies [`sorted_perm`] for given keys, so a
/// contract stated through it pins its table down completely.
pub proof fn lemma_sorted_perm_unique(keys: Seq<i64>, a: Seq<usize>, b: Seq<usize>)
    requires
        sorted_perm(keys, a),
        sorted_perm(keys, b),
    ensures
        a == b,
{
    assert forall|k: int| 0 <= k < a.len() implies a[k] == b[k] by {
        lemma_sorted_perm_agree_upto(keys, a, b, k);
    }
    assert(a =~= b);
}

/// Two sorted arrangements agree on every position up to `k`.
proof fn lemma_sorted_perm_agree_upto(keys: Seq<i64>, a: Seq<usize>, b: Seq<usize>, k: int)
    requires
        sorted_perm(keys, a),
        sorted_perm(keys, b),
        0 <= k < a.len(),
    ensures
        a[k] == b[k],
    decreases k,
{
    assert forall|i: int| 0 <= i < k implies a[i] == b[i] by {
        lemma_sorted_perm_agree_upto(keys, a, b, i);
    }
    if a[k] != b[k] {
        // each side holds the other's entry somewhere; the prefixes
        // coincide and repeat no id, so both must sit later, which
        // orders the two entries both ways at once
        assert(b.contains(a[k]));
        let t = choose|t: int| 0 <= t < b.len() && b[t] == a[k];
        if t < k {
            assert(a[t] == b[t]);
            assert(id_before(keys, a[t] as int, a[k] as int));
            assert(false);
        }
        assert(id_before(keys, b[k] as int, a[k] as int));
        assert(a.contains(b[k]));
        let s = choose|s: int| 0 <= s < a.len() && a[s] == b[k];
        if s < k {
            assert(b[s] == a[s]);
            assert(id_before(keys, b[s] as int, b[k] as int));
            assert(false);
        }
        assert(id_before(keys, a[k] as int, b[k] as int));
        assert(false);
    }
}

/// All ids `0..keys.len()`, arranged so that larger keys come first and
/// equal keys keep the smaller id first.
pub fn sorted_ids_desc(keys: &Vec<i64>) -> (ids: Vec<usize>)
    ensures
        sorted_perm(keys@, ids@),
{
    let n = keys.len();
    let mut used: Vec<bool> = Vec::new();
    let mut i: usize = 0;
    while i < n
        invariant
            used@.len() == i,
            i <= n,
            forall|j: int| 0 <= j < i ==> !used@[j],
        decreases n - i,
    {
        used.push(false);
        i += 1;
    }
    proof {
        assert(count_true(used@, n as int) == 0) by {
            lemma_count_all_false(used@, n as int);
        }
    }
    let mut ids: Vec<usize> = Vec::new();
    while ids.len() < n
        invariant
            keys@.len() == n,
            used@.len() == n,
            ids@.len() <= n,
            count_true(used@, n as int) == ids@.len(),
            forall|k: int|
                0 <= k < ids@.len() ==> (#[trigger] ids@[k]) < n && used@[ids@[k] as int],
            forall|c: usize| c < n && used@[c as int] ==> #[trigger] ids@.contains(c),
            forall|k1: int, k2: int|
                0 <= k1 < k2 < ids@.len() ==> id_before(keys@, ids@[k1] as int, ids@[k2] as int),
            forall|k: int, c: int|
                0 <= k < ids@.len() && 0 <= c < n && !used@[c] ==> id_before(
                    keys@,
                    ids@[k] as int,
                    c,
                ),
        decreases n - ids.len(),
    {
        let mut best: usize = 0;
        let mut found = false;
        let mut c: usize = 0;
        while c < n
            invariant
                keys@.len() == n,
                used@.len() == n,
                c <= n,
                found ==> best < c <= n && !used@[best as int],
                found ==> forall|d: int|
                    0 <= d < c && !used@[d] && d != best ==> id_before(keys@, best as int, d),
                !found ==> forall|d: int| 0 <= d < c ==> used@[d],
            decreases n - c,
        {
            if !used[c] {
                if !found {
                    best = c;
                    found = true;
                } else if keys[c] > keys[best] {
                    best = c;
                }
            }
            c += 1;
        }
        proof {
            if !found {
                lemma_count_all_true(used@, n as int);
                assert(false);
            }
            lemma_count_true_update(used@, best as int, n as int);
        }
        let ghost old_ids = ids@;
        let ghost old_used = used@;
        used.set(best, true);
        ids.push(best);
        proof {
            assert(ids@[ids@.len() - 1] == best);
            assert forall|c2: usize| c2 < n && used@[c2 as int] implies #[trigger] ids@.contains(
                c2,
            ) by {
                if c2 == best {
                    assert(ids@[ids@.len() - 1] == c2);
                } else {
                    assert(old_used[c2 as int]);
                    assert(old_ids.contains(c2));
                    let k = choose|k: int| 0 <= k < old_ids.len() && old_ids[k] == c2;
                    assert(ids@[k] == c2);
                }
            }
        }
    }
    proof {
        lemma_count_true_full(used@, n as int);
    }
    ids
}

pub proof fn lemma_count_all_false(s: Seq<bool>, n: int)
    requires
        0 <= n <= s.len(),
        forall|j: int| 0 <= j < n ==> !s[j],
    ensures
        count_true(s, n) == 0,
    decreases n,
{
    if n > 0 {
        lemma_count_all_false(s, n - 1);
    }
}

pub proof fn lemma_count_all_true(s: Seq<bool>, n: int)
    requires
        0 <= n <= s.len(),
        forall|j: int| 0 <= j < n ==> s[j],
    ensures
        count_true(s, n) == n,
    decreases n,
{
    if n > 0 {
        lemma_count_all_true(s, n - 1);
    }
}

} // verus!
