//! Laws of the pool, stated and proved over the specification model.

use vstd::prelude::*;
use crate::pool::MemPool;
use crate::probing::{contains_item, next_idx, place_from};

verus! {

/// Capacity invariant: no shard of a well-formed pool ever holds more
/// than the per-shard capacity fixed at construction. Every pool
/// operation requires and re-establishes well-formedness, so the bound
/// holds whenever the pool is observed.
pub proof fn lemma_capacity_invariant<T>(pool: &MemPool<T>, i: int)
    requires
        pool.wf(),
        0 <= i < pool.shard_count(),
    ensures
        pool.shards()[i].len() <= pool.cap(),
{
}

/// One step in the life of a shared lease family: registering one more
/// owner (`clone_ref`) or releasing one owner (`release_owner`).
pub enum ShareOp {
    CloneRef,
    Release,
}

/// The owner count after a sequence of steps, starting from the single
/// owner that a freeze creates.
pub open spec fn count_after(ops: Seq<ShareOp>) -> int
    decreases ops.len(),
{
    if ops.len() == 0 {
        1
    } else {
        count_after(ops.drop_last()) + match ops.last() {
            ShareOp::CloneRef => 1int,
            ShareOp::Release => -1int,
        }
    }
}

/// A sequence of steps is valid when every step is taken while the
/// lease family is still alive: at least one owner exists before each
/// step.
pub open spec fn ops_valid(ops: Seq<ShareOp>) -> bool {
    forall|i: int| 0 <= i < ops.len() ==> count_after(#[trigger] ops.take(i)) >= 1
}

/// How many steps of the sequence hand the item back to the pool:
/// exactly the releases that observe an owner count of one.
pub open spec fn returns_in(ops: Seq<ShareOp>) -> int
    decreases ops.len(),
{
    if ops.len() == 0 {
        0
    } else {
        returns_in(ops.drop_last()) + if ops.last() is Release && count_after(ops.drop_last())
            == 1 {
            1int
        } else {
            0int
        }
    }
}

/// Exactly-once return. For any valid interleaving of clones and
/// releases of one shared lease family, the item is handed back to the
/// pool at most once; it is handed back exactly once when the family
/// dies (the owner count reaches zero), and not at all while owners
/// remain.
pub proof fn lemma_exactly_once_return(ops: Seq<ShareOp>)
    requires
        ops_valid(ops),
    ensures
        count_after(ops) >= 0,
        returns_in(ops) == if count_after(ops) == 0 {
            1int
        } else {
            0int
        },
        returns_in(ops) <= 1,
    decreases ops.len(),
{
    if ops.len() == 0 {
    } else {
        let prefix = ops.drop_last();
        assert forall|i: int| 0 <= i < prefix.len() implies count_after(#[trigger] prefix.take(i))
            >= 1 by {
            assert(prefix.take(i) =~= ops.take(i));
            assert(count_after(ops.take(i)) >= 1);
        }
        lemma_exactly_once_return(prefix);
        assert(ops.take(ops.len() - 1) =~= prefix);
        assert(count_after(prefix) >= 1);
    }
}

/// Taking one more step while the lease family is still alive keeps
/// the history valid, and moves the owner count and the number of
/// hand-backs exactly as the step says.
pub proof fn lemma_valid_history_push(h: Seq<ShareOp>, op: ShareOp)
    requires
        ops_valid(h),
        count_after(h) >= 1,
    ensures
        ops_valid(h.push(op)),
        count_after(h.push(op)) == count_after(h) + (if op is CloneRef {
            1int
        } else {
            -1int
        }),
        returns_in(h.push(op)) == returns_in(h) + (if op is Release && count_after(h) == 1 {
            1int
        } else {
            0int
        }),
{
    let pushed = h.push(op);
    assert(pushed.drop_last() =~= h);
    assert forall|i: int| 0 <= i < pushed.len() implies count_after(#[trigger] pushed.take(i))
        >= 1 by {
        if i < h.len() {
            assert(pushed.take(i) =~= h.take(i));
            assert(count_after(h.take(i)) >= 1);
        } else {
            assert(pushed.take(i) =~= h);
        }
    }
}

/// Exclusivity. A pull hands out the last item of its shard and leaves
/// the rest behind; when the pulled occurrence is the only copy of the
/// item the pool holds, the shards left behind no longer hold it at
/// all. No later pull can then observe the item while its exclusive
/// handle is alive, and only the handle's owner can reach it.
pub proof fn lemma_pulled_item_is_exclusive<T>(shards: Seq<Seq<T>>, i: int)
    requires
        0 <= i < shards.len(),
        shards[i].len() > 0,
        forall|a: int, b: int|
            0 <= a < shards.len() && 0 <= b < shards[a].len() && #[trigger] shards[a][b]
                == shards[i].last() ==> a == i && b == shards[i].len() - 1,
    ensures
        !contains_item(shards.update(i, shards[i].drop_last()), shards[i].last()),
{
    let x = shards[i].last();
    let u = shards.update(i, shards[i].drop_last());
    assert forall|a: int, b: int| 0 <= a < u.len() && 0 <= b < u[a].len() implies u[a][b] != x by {
        if a == i {
            assert(u[a][b] == shards[i][b]);
        }
        if u[a][b] == x {
            assert(shards[a][b] == x);
        }
    }
}

/// A pull can only produce an item the shards held. When an item is
/// absent from every shard — as a detached item is, the pull that
/// created its handle having removed it from its shard — no pull
/// yields that item, and the shards left behind by the pull still do
/// not hold it.
pub proof fn lemma_absent_item_never_pulled<T>(shards: Seq<Seq<T>>, x: T, i: int)
    requires
        !contains_item(shards, x),
        0 <= i < shards.len(),
        shards[i].len() > 0,
    ensures
        shards[i].last() != x,
        !contains_item(shards.update(i, shards[i].drop_last()), x),
{
    if shards[i].last() == x {
        assert(shards[i][shards[i].len() - 1] == x);
        assert(contains_item(shards, x));
    }
    let u = shards.update(i, shards[i].drop_last());
    assert forall|a: int, b: int| 0 <= a < u.len() && 0 <= b < u[a].len() implies u[a][b] != x by {
        if a == i {
            assert(u[a][b] == shards[i][b]);
        }
        if u[a][b] == x {
            assert(shards[a][b] == x);
            assert(contains_item(shards, x));
        }
    }
}

/// A return never smuggles a detached item back in: shards that do not
/// hold `y` still do not hold it after any other item is returned,
/// wherever the probe places that item (or sheds it).
pub proof fn lemma_absent_item_stays_out_on_return<T>(
    shards: Seq<Seq<T>>,
    cap: nat,
    i: int,
    left: nat,
    x: T,
    y: T,
)
    requires
        !contains_item(shards, y),
        x != y,
        0 <= i < shards.len(),
    ensures
        !contains_item(place_from(shards, cap, i, left, x), y),
    decreases left,
{
    if left == 0 {
    } else if shards[i].len() < cap {
        let u = shards.update(i, shards[i].push(x));
        assert forall|a: int, b: int|
            0 <= a < u.len() && 0 <= b < u[a].len() implies u[a][b] != y by {
            if a == i {
                if b < shards[i].len() {
                    assert(u[a][b] == shards[i][b]);
                } else {
                    assert(u[a][b] == x);
                }
            }
            if u[a][b] == y {
                assert(shards[a][b] == y);
                assert(contains_item(shards, y));
            }
        }
    } else {
        lemma_absent_item_stays_out_on_return(
            shards,
            cap,
            next_idx(i, shards.len() as int),
            (left - 1) as nat,
            x,
            y,
        );
    }
}

} // verus!
