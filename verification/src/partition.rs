//! How the key space is shared among workers: worker `i` of `n` owns the keys
//! from `i * total / n` up to, and without, `(i + 1) * total / n`. Every key
//! below `total` has exactly one owner.
use vstd::arithmetic::div_mod::{lemma_div_is_ordered, lemma_div_multiples_vanish};
use vstd::arithmetic::mul::lemma_mul_inequality;
use vstd::prelude::*;

verus! {

/// A range of keys: from `start` up to, and without, `end`.
#[derive(Clone, Copy, Debug, PartialEq, Eq, Structural)]
pub struct KeyRange {
    pub start: usize,
    pub end: usize,
}

impl KeyRange {
    /// Whether `key` lies in the range.
    pub open spec fn contains(self, key: int) -> bool {
        self.start <= key < self.end
    }

    /// Whether the range holds no key.
    pub fn is_empty(&self) -> (empty: bool)
        ensures
            empty == (self.start >= self.end),
    {
        self.start >= self.end
    }
}

/// Where the keys of worker `i` begin, when `total` keys are shared among
/// `workers` workers.
pub open spec fn boundary(i: int, workers: int, total: int) -> int
    recommends
        workers > 0,
{
    (i * total) / workers
}

/// The keys of worker `i`.
pub open spec fn share(i: int, workers: int, total: int) -> KeyRange
    recommends
        0 <= i < workers,
        0 <= total <= usize::MAX,
{
    KeyRange {
        start: boundary(i, workers, total) as usize,
        end: boundary(i + 1, workers, total) as usize,
    }
}

/// Whether some worker owns `key`.
pub open spec fn has_owner(key: int, workers: int, total: int) -> bool {
    exists|i: int| 0 <= i < workers && #[trigger] share(i, workers, total).contains(key)
}

/// The boundaries begin at zero, end at `total` and never go back.
pub proof fn lemma_boundaries(i: int, j: int, workers: int, total: int)
    requires
        0 <= i <= j <= workers,
        0 < workers,
        0 <= total,
    ensures
        boundary(0, workers, total) == 0,
        boundary(workers, workers, total) == total,
        0 <= boundary(i, workers, total) <= boundary(j, workers, total) <= total,
{
    assert(0 * total == 0);
    lemma_div_multiples_vanish(total, workers);
    lemma_mul_inequality(0, i, total);
    lemma_mul_inequality(i, j, total);
    lemma_mul_inequality(j, workers, total);
    lemma_div_is_ordered(0 * total, i * total, workers);
    lemma_div_is_ordered(i * total, j * total, workers);
    lemma_div_is_ordered(j * total, workers * total, workers);
}

/// Some worker owns the key: the search for it, from worker `i` upwards.
proof fn lemma_find_owner(key: int, i: int, workers: int, total: int) -> (owner: int)
    requires
        0 <= i < workers,
        0 <= key < total,
        boundary(i, workers, total) <= key,
    ensures
        i <= owner < workers,
        boundary(owner, workers, total) <= key < boundary(owner + 1, workers, total),
    decreases workers - i,
{
    if key < boundary(i + 1, workers, total) {
        i
    } else {
        lemma_boundaries(i + 1, workers, workers, total);
        lemma_find_owner(key, i + 1, workers, total)
    }
}

/// The shares of the workers cover the key space exactly once: every key
/// below `total` lies in the share of one worker and of no other, and no share
/// reaches beyond `total`.
pub proof fn lemma_shares_cover_once(workers: int, total: int)
    requires
        0 < workers,
        0 <= total <= usize::MAX,
    ensures
        forall|key: int| 0 <= key < total ==> #[trigger] has_owner(key, workers, total),
        forall|key: int, i: int, j: int|
            0 <= i < workers && 0 <= j < workers && #[trigger] share(i, workers, total).contains(
                key,
            ) && #[trigger] share(j, workers, total).contains(key) ==> i == j,
        forall|key: int, i: int|
            0 <= i < workers && #[trigger] share(i, workers, total).contains(key) ==> 0 <= key
                < total,
{
    assert forall|key: int| 0 <= key < total implies #[trigger] has_owner(
        key,
        workers,
        total,
    ) by {
        lemma_boundaries(0, 0, workers, total);
        let owner = lemma_find_owner(key, 0, workers, total);
        lemma_boundaries(owner, owner + 1, workers, total);
        assert(share(owner, workers, total).contains(key));
    }
    assert forall|key: int, i: int, j: int|
        0 <= i < workers && 0 <= j < workers && #[trigger] share(i, workers, total).contains(key)
            && #[trigger] share(j, workers, total).contains(key) implies i == j by {
        lemma_boundaries(i, i + 1, workers, total);
        lemma_boundaries(j, j + 1, workers, total);
        if i < j {
            lemma_boundaries(i + 1, j, workers, total);
        }
        if j < i {
            lemma_boundaries(j + 1, i, workers, total);
        }
    }
    assert forall|key: int, i: int|
        0 <= i < workers && #[trigger] share(i, workers, total).contains(key) implies 0 <= key
        < total by {
        lemma_boundaries(i, i + 1, workers, total);
    }
}

/// The keys of worker `i` of `workers`, over a key space of `total` keys.
pub fn partition(i: usize, workers: usize, total: usize) -> (range: KeyRange)
    requires
        i < workers,
    ensures
        range == share(i as int, workers as int, total as int),
        range.start <= range.end <= total,
{
    proof {
        lemma_boundaries(i as int, i + 1, workers as int, total as int);
        lemma_mul_inequality(i as int, usize::MAX as int, total as int);
        lemma_mul_inequality(total as int, usize::MAX as int, usize::MAX as int);
        lemma_mul_inequality(i + 1, usize::MAX as int, total as int);
        assert(usize::MAX * usize::MAX <= u128::MAX) by (nonlinear_arith)
            requires
                usize::MAX <= u64::MAX,
        ;
        assert(usize::MAX * total == total * usize::MAX) by (nonlinear_arith);
    }
    let n: u128 = workers as u128;
    let start = (i as u128 * total as u128) / n;
    let end = ((i as u128 + 1) * total as u128) / n;
    KeyRange { start: start as usize, end: end as usize }
}

/// The shares of all workers, in order.
pub fn plan(workers: usize, total: usize) -> (ranges: Vec<KeyRange>)
    ensures
        ranges@.len() == workers,
        forall|i: int|
            0 <= i < workers ==> #[trigger] ranges@[i] == share(i, workers as int, total as int),
{
    let mut ranges: Vec<KeyRange> = Vec::new();
    let mut i: usize = 0;
    while i < workers
        invariant
            i <= workers,
            ranges@.len() == i,
            forall|j: int| 0 <= j < i ==> #[trigger] ranges@[j] == share(j, workers as int, total as int),
        decreases workers - i,
    {
        ranges.push(partition(i, workers, total));
        i += 1;
    }
    ranges
}

} // verus!
