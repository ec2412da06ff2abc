//! The order in which the records of two ring buffers are taken.

use vstd::prelude::*;

verus! {

/// Whether record `a` comes before record `b`: by its stamp, and at equal
/// stamps by its place.
pub open spec fn comes_before(stamps: Seq<u64>, a: int, b: int) -> bool {
    stamps[a] < stamps[b] || (stamps[a] == stamps[b] && a < b)
}

/// Whether `order` names record `i`.
pub open spec fn names(order: Seq<usize>, i: int) -> bool {
    exists|k: int| 0 <= k < order.len() && #[trigger] order[k] == i
}

/// Whether `order` names every record once, each before those that come after
/// it.
pub open spec fn is_stamp_order(order: Seq<usize>, stamps: Seq<u64>) -> bool {
    &&& order.len() == stamps.len()
    &&& forall|k: int| 0 <= k < order.len() ==> 0 <= #[trigger] order[k] < stamps.len()
    &&& forall|i: int| 0 <= i < stamps.len() ==> #[trigger] names(order, i)
    &&& forall|j: int, k: int|
        0 <= j < k < order.len() ==> comes_before(
            stamps,
            #[trigger] order[j] as int,
            #[trigger] order[k] as int,
        )
}

/// The records in the order of their stamps.
pub fn stamp_order(stamps: &Vec<u64>) -> (order: Vec<usize>)
    ensures
        is_stamp_order(order@, stamps@),
{
    let mut order: Vec<usize> = Vec::new();
    for i in 0..stamps.len()
        invariant
            is_stamp_order(order@, stamps@.take(i as int)),
    {
        let mut at: usize = order.len();
        while at > 0 && stamps[order[at - 1]] > stamps[i]
            invariant
                i < stamps@.len(),
                order@.len() == i,
                at <= order@.len(),
                is_stamp_order(order@, stamps@.take(i as int)),
                forall|k: int|
                    at <= k < order@.len() ==> stamps@[#[trigger] order@[k] as int] > stamps@[i as int],
            decreases at,
        {
            at = at - 1;
        }
        let ghost before = order@;
        order.insert(at, i);
        proof {
            lemma_inserted_in_order(before, stamps@, i as int, at as int);
            assert(order@ == before.insert(at as int, i));
        }
    }
    assert(stamps@.take(stamps@.len() as int) =~= stamps@);
    order
}

proof fn lemma_inserted_in_order(order: Seq<usize>, stamps: Seq<u64>, i: int, at: int)
    requires
        0 <= i < stamps.len(),
        i <= usize::MAX,
        0 <= at <= order.len(),
        is_stamp_order(order, stamps.take(i)),
        forall|k: int| at <= k < order.len() ==> stamps[#[trigger] order[k] as int] > stamps[i],
        at > 0 ==> stamps[order[at - 1] as int] <= stamps[i],
    ensures
        is_stamp_order(order.insert(at, i as usize), stamps.take(i + 1)),
{
    let old_stamps = stamps.take(i);
    let new_stamps = stamps.take(i + 1);
    let grown = order.insert(at, i as usize);
    assert forall|k: int| 0 <= k < at implies stamps[#[trigger] order[k] as int] <= stamps[i] by {
        if k < at - 1 {
            assert(comes_before(old_stamps, order[k] as int, order[at - 1] as int));
        }
    }
    assert forall|k: int| 0 <= k < grown.len() implies 0 <= #[trigger] grown[k] < i + 1 by {
        if k < at {
            assert(grown[k] == order[k]);
        } else if k > at {
            assert(grown[k] == order[k - 1]);
        }
    }
    assert forall|m: int| 0 <= m < i + 1 implies #[trigger] names(grown, m) by {
        if m == i {
            assert(grown[at] == m);
        } else {
            assert(names(order, m));
            let k = choose|k: int| 0 <= k < order.len() && order[k] == m;
            if k < at {
                assert(grown[k] == m);
            } else {
                assert(grown[k + 1] == m);
            }
        }
    }
    assert forall|j: int, k: int| 0 <= j < k < grown.len() implies comes_before(
        new_stamps,
        #[trigger] grown[j] as int,
        #[trigger] grown[k] as int,
    ) by {
        let oj = if j < at {
            j
        } else {
            j - 1
        };
        let ok = if k < at {
            k
        } else {
            k - 1
        };
        if j != at {
            assert(grown[j] == order[oj]);
        }
        if k != at {
            assert(grown[k] == order[ok]);
        }
        if j != at && k != at {
            assert(comes_before(old_stamps, order[oj] as int, order[ok] as int));
        }
    }
}

/// The order is definite: the stamps leave no choice.
pub proof fn law_stamp_order_is_definite(a: Seq<usize>, b: Seq<usize>, stamps: Seq<u64>)
    requires
        is_stamp_order(a, stamps),
        is_stamp_order(b, stamps),
    ensures
        a == b,
{
    assert forall|k: int| 0 <= k < a.len() implies a[k] == b[k] by {
        lemma_same_until(a, b, stamps, k);
    }
    assert(a =~= b);
}

proof fn lemma_same_until(a: Seq<usize>, b: Seq<usize>, stamps: Seq<u64>, k: int)
    requires
        is_stamp_order(a, stamps),
        is_stamp_order(b, stamps),
        0 <= k < a.len(),
    ensures
        forall|j: int| 0 <= j <= k ==> a[j] == b[j],
    decreases k,
{
    if k > 0 {
        lemma_same_until(a, b, stamps, k - 1);
    }
    if a[k] != b[k] {
        assert(names(b, a[k] as int));
        assert(names(a, b[k] as int));
        let m = choose|m: int| 0 <= m < b.len() && b[m] == a[k];
        let n = choose|n: int| 0 <= n < a.len() && a[n] == b[k];
        if m < k {
            assert(a[m] == b[m]);
            assert(comes_before(stamps, a[m] as int, a[k] as int));
        }
        if n < k {
            assert(a[n] == b[n]);
            assert(comes_before(stamps, b[n] as int, b[k] as int));
        }
        assert(comes_before(stamps, b[k] as int, b[m] as int));
        assert(comes_before(stamps, a[k] as int, a[n] as int));
    }
}

// ------------------------------------------------------------------ two rings

/// The earliest stamp from the `k`th on.
pub open spec fn earliest_from(stamps: Seq<u64>, k: int) -> u64
    decreases stamps.len() - k,
{
    if k + 1 >= stamps.len() {
        stamps[k]
    } else {
        let rest = earliest_from(stamps, k + 1);
        if stamps[k] < rest {
            stamps[k]
        } else {
            rest
        }
    }
}

/// The latest stamp up to the `k`th.
pub open spec fn latest_to(stamps: Seq<u64>, k: int) -> u64
    decreases k,
{
    if k <= 0 {
        stamps[0]
    } else {
        let rest = latest_to(stamps, k - 1);
        if stamps[k] > rest {
            stamps[k]
        } else {
            rest
        }
    }
}

/// What the records of two rings, the openings first, are ordered by: an
/// opening by the earliest stamp from it on, a close by the latest stamp up to
/// it. So each ring keeps its order, and an opening that is stamped no later
/// than a close is taken before it.
pub open spec fn ring_keys(opens: Seq<u64>, closes: Seq<u64>) -> Seq<u64> {
    Seq::new(opens.len(), |k: int| earliest_from(opens, k)) + Seq::new(
        closes.len(),
        |k: int| latest_to(closes, k),
    )
}

/// The records of two rings, given their stamps, in the order in which they are
/// taken.
pub fn ring_order(opens: &Vec<u64>, closes: &Vec<u64>) -> (order: Vec<usize>)
    ensures
        is_stamp_order(order@, ring_keys(opens@, closes@)),
{
    let mut keys: Vec<u64> = opens.clone();
    let mut i: usize = opens.len();
    while i > 0
        invariant
            i <= opens@.len(),
            keys@.len() == opens@.len(),
            forall|k: int| 0 <= k < i ==> #[trigger] keys@[k] == opens@[k],
            forall|k: int| i <= k < keys@.len() ==> #[trigger] keys@[k] == earliest_from(opens@, k),
        decreases i,
    {
        i = i - 1;
        if i + 1 < opens.len() && keys[i + 1] <= keys[i] {
            let rest: u64 = keys[i + 1];
            keys.set(i, rest);
        }
    }
    let ghost front = keys@;
    for j in 0..closes.len()
        invariant
            front.len() == opens@.len(),
            keys@.len() == front.len() + j,
            forall|k: int| 0 <= k < front.len() ==> #[trigger] front[k] == earliest_from(opens@, k),
            forall|k: int| 0 <= k < front.len() ==> #[trigger] keys@[k] == front[k],
            forall|k: int|
                front.len() <= k < keys@.len() ==> #[trigger] keys@[k] == latest_to(
                    closes@,
                    k - front.len(),
                ),
    {
        let mut key: u64 = closes[j];
        if j > 0 {
            let rest: u64 = keys[keys.len() - 1];
            if key <= rest {
                key = rest;
            }
        }
        keys.push(key);
    }
    assert(keys@ =~= ring_keys(opens@, closes@));
    stamp_order(&keys)
}

proof fn lemma_earliest(stamps: Seq<u64>, k: int, m: int)
    requires
        0 <= k <= m < stamps.len(),
    ensures
        earliest_from(stamps, k) <= stamps[m],
        earliest_from(stamps, k) <= earliest_from(stamps, m),
    decreases m - k,
{
    if k < m {
        lemma_earliest(stamps, k + 1, m);
    }
}

proof fn lemma_latest(stamps: Seq<u64>, k: int, m: int)
    requires
        0 <= k <= m < stamps.len(),
    ensures
        stamps[k] <= latest_to(stamps, m),
        latest_to(stamps, k) <= latest_to(stamps, m),
    decreases m - k,
{
    if k < m {
        lemma_latest(stamps, k, m - 1);
    }
}

/// Each ring keeps its order: a record that lies before another in its ring
/// comes before it.
pub proof fn law_rings_keep_their_order(opens: Seq<u64>, closes: Seq<u64>, a: int, b: int)
    requires
        0 <= a < b < opens.len() || opens.len() <= a < b < opens.len() + closes.len(),
    ensures
        comes_before(ring_keys(opens, closes), a, b),
{
    if b < opens.len() {
        lemma_earliest(opens, a, b);
    } else {
        lemma_latest(closes, a - opens.len(), b - opens.len());
    }
}

/// An opening that is stamped no later than a close comes before it.
pub proof fn law_openings_come_before_their_closes(
    opens: Seq<u64>,
    closes: Seq<u64>,
    k: int,
    j: int,
)
    requires
        0 <= k < opens.len(),
        0 <= j < closes.len(),
        opens[k] <= closes[j],
    ensures
        comes_before(ring_keys(opens, closes), k, opens.len() + j),
{
    lemma_earliest(opens, k, k);
    lemma_latest(closes, j, j);
}

/// Rings whose records lie in the order of their stamps are taken by stamp, and
/// at equal stamps the openings first.
pub proof fn law_rings_in_order_are_taken_by_stamp(opens: Seq<u64>, closes: Seq<u64>)
    requires
        forall|a: int, b: int|
            0 <= a <= b < opens.len() ==> #[trigger] opens[a] <= #[trigger] opens[b],
        forall|a: int, b: int|
            0 <= a <= b < closes.len() ==> #[trigger] closes[a] <= #[trigger] closes[b],
    ensures
        ring_keys(opens, closes) == opens + closes,
{
    assert forall|k: int| 0 <= k < opens.len() implies earliest_from(opens, k) == opens[k] by {
        lemma_earliest_reached(opens, k);
    }
    assert forall|k: int| 0 <= k < closes.len() implies latest_to(closes, k) == closes[k] by {
        lemma_latest_reached(closes, k);
    }
    assert(ring_keys(opens, closes) =~= opens + closes);
}

proof fn lemma_earliest_reached(stamps: Seq<u64>, k: int)
    requires
        0 <= k < stamps.len(),
        forall|a: int, b: int|
            0 <= a <= b < stamps.len() ==> #[trigger] stamps[a] <= #[trigger] stamps[b],
    ensures
        earliest_from(stamps, k) == stamps[k],
    decreases stamps.len() - k,
{
    if k + 1 < stamps.len() {
        lemma_earliest_reached(stamps, k + 1);
        assert(stamps[k] <= stamps[k + 1]);
    }
}

proof fn lemma_latest_reached(stamps: Seq<u64>, k: int)
    requires
        0 <= k < stamps.len(),
        forall|a: int, b: int|
            0 <= a <= b < stamps.len() ==> #[trigger] stamps[a] <= #[trigger] stamps[b],
    ensures
        latest_to(stamps, k) == stamps[k],
    decreases k,
{
    if k > 0 {
        lemma_latest_reached(stamps, k - 1);
        assert(stamps[k - 1] <= stamps[k]);
    }
}

// ------------------------------------------------------------------- counting

/// How many records are picked.
pub open spec fn count_picked(picked: Seq<bool>) -> nat
    decreases picked.len(),
{
    if picked.len() == 0 {
        0
    } else {
        count_picked(picked.drop_last()) + (if picked.last() {
            1nat
        } else {
            0
        })
    }
}

/// Whether record `i` is picked.
pub open spec fn is_picked(picked: Seq<bool>, i: int) -> bool {
    0 <= i < picked.len() && picked[i]
}

/// How many of the records that `order` names are picked.
pub open spec fn count_named(order: Seq<usize>, picked: Seq<bool>) -> nat
    decreases order.len(),
{
    if order.len() == 0 {
        0
    } else {
        count_named(order.drop_last(), picked) + (if is_picked(picked, order.last() as int) {
            1nat
        } else {
            0
        })
    }
}

/// No more records are picked than there are.
pub proof fn lemma_count_picked_bounded(picked: Seq<bool>)
    ensures
        count_picked(picked) <= picked.len(),
    decreases picked.len(),
{
    if picked.len() > 0 {
        lemma_count_picked_bounded(picked.drop_last());
    }
}

/// Of the records that are named, each once, no more are picked than of all.
pub proof fn lemma_count_named_bounded(order: Seq<usize>, picked: Seq<bool>)
    requires
        order.no_duplicates(),
    ensures
        count_named(order, picked) <= count_picked(picked),
    decreases picked.len(),
{
    if picked.len() == 0 {
        lemma_nothing_picked(order, picked);
    } else {
        lemma_count_named_bounded(order, picked.drop_last());
        lemma_count_named_step(order, picked);
    }
}

proof fn lemma_nothing_picked(order: Seq<usize>, picked: Seq<bool>)
    requires
        picked.len() == 0,
    ensures
        count_named(order, picked) == 0,
    decreases order.len(),
{
    if order.len() > 0 {
        lemma_nothing_picked(order.drop_last(), picked);
    }
}

proof fn lemma_count_named_step(order: Seq<usize>, picked: Seq<bool>)
    requires
        picked.len() > 0,
        order.no_duplicates(),
    ensures
        count_named(order, picked) <= count_named(order, picked.drop_last()) + (if picked.last() {
            1nat
        } else {
            0
        }),
        (forall|k: int| 0 <= k < order.len() ==> #[trigger] order[k] != picked.len() - 1)
            ==> count_named(order, picked) == count_named(order, picked.drop_last()),
    decreases order.len(),
{
    if order.len() > 0 {
        let rest = order.drop_last();
        lemma_count_named_step(rest, picked);
        assert forall|k: int| 0 <= k < rest.len() implies rest[k] == order[k] && #[trigger] rest[k]
            != order.last() by {
            assert(order[k] != order[order.len() - 1]);
        }
    }
}

} // verus!
