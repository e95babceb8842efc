//! Specification model of shard probing.
//!
//! A pool is modelled as a sequence of shards, each shard a sequence of
//! items. Pulls and returns probe the shards in a wrapping round-robin
//! order; the spec functions here pin down exactly which shard a probe
//! lands on and how the shard contents change.

use vstd::prelude::*;

verus! {

/// The shard index that follows `i` in probe order, wrapping from
/// `n - 1` back to `0`.
pub open spec fn next_idx(i: int, n: int) -> int {
    if i + 1 == n {
        0
    } else {
        i + 1
    }
}

/// The index of the first non-empty shard reached by probing `left`
/// shards in wrapping order starting at `i`, or `None` if every probed
/// shard is empty.
pub open spec fn first_nonempty<T>(shards: Seq<Seq<T>>, i: int, left: nat) -> Option<int>
    decreases left,
{
    if left == 0 {
        None
    } else if shards[i].len() > 0 {
        Some(i)
    } else {
        first_nonempty(shards, next_idx(i, shards.len() as int), (left - 1) as nat)
    }
}

/// The shard contents after probing `left` shards in wrapping order
/// starting at `i` and pushing `item` onto the first shard found below
/// `cap`; if every probed shard is at capacity the contents are
/// unchanged (the item is shed).
pub open spec fn place_from<T>(shards: Seq<Seq<T>>, cap: nat, i: int, left: nat, item: T) -> Seq<
    Seq<T>,
>
    decreases left,
{
    if left == 0 {
        shards
    } else if shards[i].len() < cap {
        shards.update(i, shards[i].push(item))
    } else {
        place_from(shards, cap, next_idx(i, shards.len() as int), (left - 1) as nat, item)
    }
}

/// Every shard holds no item.
pub open spec fn all_empty<T>(shards: Seq<Seq<T>>) -> bool {
    forall|i: int| 0 <= i < shards.len() ==> (#[trigger] shards[i]).len() == 0
}

/// Every shard is at capacity.
pub open spec fn all_full<T>(shards: Seq<Seq<T>>, cap: nat) -> bool {
    forall|i: int| 0 <= i < shards.len() ==> (#[trigger] shards[i]).len() >= cap
}

/// Some shard in `shards` holds an item equal to `x`.
pub open spec fn contains_item<T>(shards: Seq<Seq<T>>, x: T) -> bool {
    exists|i: int, j: int|
        0 <= i < shards.len() && 0 <= j < shards[i].len() && #[trigger] shards[i][j] == x
}

} // verus!
