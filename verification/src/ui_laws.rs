//! What holds of the feed, the container list and the keys as a whole.

use crate::clock::Timestamp;
use crate::text::{lemma_text_le_antisymmetric, lowercase};
use crate::ui::{
    activated, closed, connectionless, feed_after_add, feed_after_close, feed_after_prune,
    first_with_key, is_listing, is_target, lemma_first_with_key, listed_as, listed_before,
    outlives, row_after_silence, updated_container, AppView, ConnectionItem, ConnectionStatus,
    ContainerItem, FocusedPane, KeyCode, KeyEvent, IDLE_SECS,
};
use vstd::prelude::*;

verus! {

// -------------------------------------------------------------- the feed

/// Whether no two rows of the feed have the same key.
pub open spec fn keys_distinct(conns: Seq<ConnectionItem>) -> bool {
    forall|i: int, j: int|
        0 <= i < j < conns.len() ==> (#[trigger] conns[i]).key@ != (#[trigger] conns[j]).key@
}

/// Whether a row says when it was closed just when it is closed.
pub open spec fn row_consistent(item: ConnectionItem) -> bool {
    (item.status == ConnectionStatus::Closed) == (item.closed_at is Some)
}

/// Whether every row says when it was closed just when it is closed.
pub open spec fn rows_consistent(conns: Seq<ConnectionItem>) -> bool {
    forall|i: int| 0 <= i < conns.len() ==> row_consistent(#[trigger] conns[i])
}

/// The feed never outgrows its limit: a feed within a limit of at least one
/// row stays within it.
pub proof fn law_feed_is_bounded(
    conns: Seq<ConnectionItem>,
    max: usize,
    item: ConnectionItem,
    now: Timestamp,
)
    requires
        0 < max,
        conns.len() <= max,
    ensures
        feed_after_add(conns, max, item, now).len() <= max,
{
    lemma_first_with_key(conns, item.key@);
}

/// A socket is in the feed once: sightings of it never make a second row.
pub proof fn law_sockets_are_listed_once(
    conns: Seq<ConnectionItem>,
    max: usize,
    item: ConnectionItem,
    now: Timestamp,
)
    requires
        keys_distinct(conns),
    ensures
        keys_distinct(feed_after_add(conns, max, item, now)),
{
    lemma_first_with_key(conns, item.key@);
    let after = feed_after_add(conns, max, item, now);
    match first_with_key(conns, item.key@) {
        Some(at) => {
            assert forall|i: int, j: int| 0 <= i < j < after.len() implies (#[trigger] after[i]).key@
                != (#[trigger] after[j]).key@ by {
                assert(conns[i].key@ != conns[j].key@);
            }
        },
        None => {
            let shift: int = if conns.len() >= max && conns.len() > 0 {
                1
            } else {
                0
            };
            assert forall|i: int, j: int| 0 <= i < j < after.len() implies (#[trigger] after[i]).key@
                != (#[trigger] after[j]).key@ by {
                assert(after[i] == conns[i + shift]);
                if j < after.len() - 1 {
                    assert(after[j] == conns[j + shift]);
                }
            }
        },
    }
}

/// A sighting shows: afterwards some row with the socket's key is active and
/// was last seen then, and a socket that is new to the feed is its newest row.
pub proof fn law_sighting_is_active(
    conns: Seq<ConnectionItem>,
    max: usize,
    item: ConnectionItem,
    now: Timestamp,
)
    ensures
        exists|i: int|
            0 <= i < feed_after_add(conns, max, item, now).len() && {
                let row = #[trigger] feed_after_add(conns, max, item, now)[i];
                row.key@ == item.key@ && row.status == ConnectionStatus::Active
                    && row.closed_at is None && row.last_seen == now
            },
        first_with_key(conns, item.key@) is None ==> feed_after_add(conns, max, item, now).last()
            == activated(item, now),
{
    lemma_first_with_key(conns, item.key@);
    let after = feed_after_add(conns, max, item, now);
    match first_with_key(conns, item.key@) {
        Some(i) => {
            assert(after[i].key@ == item.key@);
        },
        None => {
            assert(after[after.len() - 1].key@ == item.key@);
        },
    }
}

/// A row says when it was closed just when it is closed, through everything
/// that happens to the feed.
pub proof fn law_rows_stay_consistent(
    conns: Seq<ConnectionItem>,
    max: usize,
    item: ConnectionItem,
    skaddr: u64,
    dst_ip: Seq<char>,
    grace: u64,
    now: Timestamp,
    later: Timestamp,
)
    requires
        rows_consistent(conns),
    ensures
        rows_consistent(feed_after_add(conns, max, item, now)),
        rows_consistent(feed_after_close(conns, skaddr, dst_ip, now)),
        rows_consistent(feed_after_prune(conns, grace, now, later)),
{
    lemma_first_with_key(conns, item.key@);
    let added = feed_after_add(conns, max, item, now);
    assert forall|i: int| 0 <= i < added.len() implies row_consistent(#[trigger] added[i]) by {
        match first_with_key(conns, item.key@) {
            Some(at) => {
                if i != at {
                    assert(added[i] == conns[i]);
                }
            },
            None => {
                if i < added.len() - 1 {
                    if conns.len() >= max && conns.len() > 0 {
                        assert(added[i] == conns[i + 1]);
                    } else {
                        assert(added[i] == conns[i]);
                    }
                }
            },
        }
    }
    let after = feed_after_close(conns, skaddr, dst_ip, now);
    assert forall|i: int| 0 <= i < after.len() implies row_consistent(#[trigger] after[i]) by {
        assert(row_consistent(conns[i]));
    }
    lemma_prune_consistent(conns, grace, now, later);
}

proof fn lemma_prune_consistent(conns: Seq<ConnectionItem>, grace: u64, now: Timestamp, later: Timestamp)
    requires
        rows_consistent(conns),
    ensures
        rows_consistent(feed_after_prune(conns, grace, now, later)),
    decreases conns.len(),
{
    if conns.len() > 0 {
        assert forall|i: int| 0 <= i < conns.len() - 1 implies row_consistent(
            #[trigger] conns.drop_last()[i],
        ) by {
            assert(row_consistent(conns[i]));
        }
        lemma_prune_consistent(conns.drop_last(), grace, now, later);
        assert(row_consistent(conns[conns.len() - 1]));
    }
}

/// A close report closes exactly the sockets that it names: each of them is
/// closed afterwards, one that was closed before keeps its time of closing,
/// every other row is untouched, and no row comes, goes or changes place. A
/// report with a socket address names the rows of that socket, and no others.
pub proof fn law_close_is_exact(
    conns: Seq<ConnectionItem>,
    skaddr: u64,
    dst_ip: Seq<char>,
    now: Timestamp,
    i: int,
)
    requires
        0 <= i < conns.len(),
    ensures
        feed_after_close(conns, skaddr, dst_ip, now).len() == conns.len(),
        is_target(conns[i], skaddr, dst_ip) ==> feed_after_close(
            conns,
            skaddr,
            dst_ip,
            now,
        )[i].status == ConnectionStatus::Closed,
        is_target(conns[i], skaddr, dst_ip) && conns[i].status == ConnectionStatus::Closed
            ==> feed_after_close(conns, skaddr, dst_ip, now)[i] == conns[i],
        !is_target(conns[i], skaddr, dst_ip) ==> feed_after_close(conns, skaddr, dst_ip, now)[i]
            == conns[i],
        feed_after_close(conns, skaddr, dst_ip, now)[i].key@ == conns[i].key@,
        skaddr != 0 ==> (is_target(conns[i], skaddr, dst_ip) <==> conns[i].skaddr == skaddr),
        skaddr != 0 ==> feed_after_close(conns, skaddr, dst_ip, now)[i] == (if conns[i].status
            == ConnectionStatus::Active && conns[i].skaddr == skaddr {
            closed(conns[i], now)
        } else {
            conns[i]
        }),
{
}

/// Sockets are told apart by their kernel address: a report that names one
/// never touches a row with another one or with none, wherever both are
/// connected to.
pub proof fn law_close_never_hits_another_socket(
    conns: Seq<ConnectionItem>,
    skaddr: u64,
    dst_ip: Seq<char>,
    now: Timestamp,
    i: int,
)
    requires
        0 <= i < conns.len(),
        skaddr != 0,
        conns[i].skaddr != skaddr,
    ensures
        feed_after_close(conns, skaddr, dst_ip, now)[i] == conns[i],
{
}

/// A second report of the same socket changes nothing, however much later.
pub proof fn law_close_twice_is_close_once(
    conns: Seq<ConnectionItem>,
    skaddr: u64,
    dst_ip: Seq<char>,
    first: Timestamp,
    second: Timestamp,
)
    ensures
        feed_after_close(feed_after_close(conns, skaddr, dst_ip, first), skaddr, dst_ip, second)
            == feed_after_close(conns, skaddr, dst_ip, first),
{
    assert(feed_after_close(
        feed_after_close(conns, skaddr, dst_ip, first),
        skaddr,
        dst_ip,
        second,
    ) =~= feed_after_close(conns, skaddr, dst_ip, first));
}

/// Closing keeps the keys distinct.
pub proof fn law_close_keeps_keys_distinct(
    conns: Seq<ConnectionItem>,
    skaddr: u64,
    dst_ip: Seq<char>,
    now: Timestamp,
)
    requires
        keys_distinct(conns),
    ensures
        keys_distinct(feed_after_close(conns, skaddr, dst_ip, now)),
{
    let after = feed_after_close(conns, skaddr, dst_ip, now);
    assert forall|i: int, j: int| 0 <= i < j < after.len() implies (#[trigger] after[i]).key@ != (
    #[trigger] after[j]).key@ by {
        assert(conns[i].key@ != conns[j].key@);
    }
}

/// Pruning drops rows and closes silent ones, and does nothing else: there is
/// an increasing choice of rows of the old feed of which the new feed is made.
pub proof fn law_prune_keeps_order(
    conns: Seq<ConnectionItem>,
    grace: u64,
    now: Timestamp,
    later: Timestamp,
) -> (from: Seq<int>)
    ensures
        from.len() == feed_after_prune(conns, grace, now, later).len(),
        forall|i: int| 0 <= i < from.len() ==> 0 <= #[trigger] from[i] < conns.len(),
        forall|i: int, j: int| 0 <= i < j < from.len() ==> #[trigger] from[i] < #[trigger] from[j],
        forall|i: int|
            0 <= i < from.len() ==> #[trigger] feed_after_prune(conns, grace, now, later)[i]
                == row_after_silence(conns[from[i]], now, later),
        forall|k: int|
            0 <= k < conns.len() && outlives(
                row_after_silence(#[trigger] conns[k], now, later),
                grace,
                later,
            ) ==> from.contains(k),
    decreases conns.len(),
{
    if conns.len() == 0 {
        seq![]
    } else {
        let shorter = conns.drop_last();
        let before = law_prune_keeps_order(shorter, grace, now, later);
        let row = row_after_silence(conns.last(), now, later);
        assert forall|k: int| 0 <= k < conns.len() - 1 && outlives(
            row_after_silence(#[trigger] conns[k], now, later),
            grace,
            later,
        ) implies before.contains(k) by {
            assert(shorter[k] == conns[k]);
        }
        if outlives(row, grace, later) {
            let from = before.push(conns.len() - 1);
            assert forall|k: int| 0 <= k < conns.len() && outlives(
                row_after_silence(#[trigger] conns[k], now, later),
                grace,
                later,
            ) implies from.contains(k) by {
                if k < conns.len() - 1 {
                    let m = choose|m: int| 0 <= m < before.len() && before[m] == k;
                    assert(from[m] == k);
                } else {
                    assert(from[from.len() - 1] == k);
                }
            }
            from
        } else {
            before
        }
    }
}

/// Every row that pruning leaves was worth keeping, so a closed connection is
/// gone once its grace period is over; and one that is neither closed nor
/// connectionless is never dropped or changed.
pub proof fn law_prune_drops_just_the_expired(
    conns: Seq<ConnectionItem>,
    grace: u64,
    now: Timestamp,
    later: Timestamp,
)
    ensures
        forall|i: int|
            0 <= i < feed_after_prune(conns, grace, now, later).len() ==> outlives(
                #[trigger] feed_after_prune(conns, grace, now, later)[i],
                grace,
                later,
            ),
        forall|k: int|
            0 <= k < conns.len() && (#[trigger] conns[k]).status == ConnectionStatus::Active
                && !connectionless(conns[k].proto@) ==> feed_after_prune(
                conns,
                grace,
                now,
                later,
            ).contains(conns[k]),
        forall|k: int|
            0 <= k < conns.len() && (#[trigger] conns[k]).status == ConnectionStatus::Closed
                && outlives(conns[k], grace, later) ==> feed_after_prune(
                conns,
                grace,
                now,
                later,
            ).contains(conns[k]),
{
    let after = feed_after_prune(conns, grace, now, later);
    let from = law_prune_keeps_order(conns, grace, now, later);
    lemma_pruned_outlive(conns, grace, now, later);
    assert forall|k: int| 0 <= k < conns.len() && ((#[trigger] conns[k]).status
        == ConnectionStatus::Active && !connectionless(conns[k].proto@) || conns[k].status
        == ConnectionStatus::Closed && outlives(conns[k], grace, later)) implies after.contains(
        conns[k],
    ) by {
        assert(row_after_silence(conns[k], now, later) == conns[k]);
        assert(outlives(row_after_silence(conns[k], now, later), grace, later));
        let m = choose|m: int| 0 <= m < from.len() && from[m] == k;
        assert(after[m] == conns[k]);
    }
}

proof fn lemma_pruned_outlive(conns: Seq<ConnectionItem>, grace: u64, now: Timestamp, later: Timestamp)
    ensures
        forall|i: int|
            0 <= i < feed_after_prune(conns, grace, now, later).len() ==> outlives(
                #[trigger] feed_after_prune(conns, grace, now, later)[i],
                grace,
                later,
            ),
    decreases conns.len(),
{
    if conns.len() > 0 {
        lemma_pruned_outlive(conns.drop_last(), grace, now, later);
        let before = feed_after_prune(conns.drop_last(), grace, now, later);
        let after = feed_after_prune(conns, grace, now, later);
        assert forall|i: int| 0 <= i < after.len() implies outlives(
            #[trigger] after[i],
            grace,
            later,
        ) by {
            if i < before.len() {
                assert(after[i] == before[i]);
            }
        }
    }
}

/// Pruning again at the same moments changes nothing.
pub proof fn law_prune_twice_is_prune_once(
    conns: Seq<ConnectionItem>,
    grace: u64,
    now: Timestamp,
    later: Timestamp,
)
    ensures
        feed_after_prune(feed_after_prune(conns, grace, now, later), grace, now, later)
            == feed_after_prune(conns, grace, now, later),
    decreases conns.len(),
{
    if conns.len() > 0 {
        law_prune_twice_is_prune_once(conns.drop_last(), grace, now, later);
        let before = feed_after_prune(conns.drop_last(), grace, now, later);
        let row = row_after_silence(conns.last(), now, later);
        if outlives(row, grace, later) {
            assert(before.push(row).drop_last() =~= before);
            assert(row_after_silence(row, now, later) == row);
        }
    }
}

/// Pruning keeps the keys distinct.
pub proof fn law_prune_keeps_keys_distinct(
    conns: Seq<ConnectionItem>,
    grace: u64,
    now: Timestamp,
    later: Timestamp,
)
    requires
        keys_distinct(conns),
    ensures
        keys_distinct(feed_after_prune(conns, grace, now, later)),
{
    let after = feed_after_prune(conns, grace, now, later);
    let from = law_prune_keeps_order(conns, grace, now, later);
    assert forall|i: int, j: int| 0 <= i < j < after.len() implies (#[trigger] after[i]).key@ != (
    #[trigger] after[j]).key@ by {
        assert(from[i] < from[j]);
        assert(after[i].key@ == conns[from[i]].key@);
        assert(after[j].key@ == conns[from[j]].key@);
    }
}

/// Connectionless sockets live by their activity: pruning keeps one that was
/// seen within the window as it is, and turns one that was silent for longer
/// into a closed row, which it drops at once where the grace period is over
/// before the ages are read.
pub proof fn law_silence_closes_connectionless_rows(
    conns: Seq<ConnectionItem>,
    grace: u64,
    now: Timestamp,
    later: Timestamp,
    k: int,
)
    requires
        0 <= k < conns.len(),
        conns[k].status == ConnectionStatus::Active,
        connectionless(conns[k].proto@),
    ensures
        ({
            let after = feed_after_prune(conns, grace, now, later);
            let silent = !conns[k].last_seen.within(IDLE_SECS as nat, later);
            &&& !silent ==> after.contains(conns[k])
            &&& silent && now.within(grace as nat, later) ==> after.contains(closed(conns[k], now))
            &&& silent && !now.within(grace as nat, later) && keys_distinct(conns) ==> forall|i: int|
                0 <= i < after.len() ==> (#[trigger] after[i]).key@ != conns[k].key@
        }),
{
    let after = feed_after_prune(conns, grace, now, later);
    let from = law_prune_keeps_order(conns, grace, now, later);
    lemma_pruned_outlive(conns, grace, now, later);
    let row = row_after_silence(conns[k], now, later);
    if outlives(row, grace, later) {
        let m = choose|m: int| 0 <= m < from.len() && from[m] == k;
        assert(after[m] == row);
    } else if keys_distinct(conns) {
        assert forall|i: int| 0 <= i < after.len() implies (#[trigger] after[i]).key@
            != conns[k].key@ by {
            assert(after[i].key@ == conns[from[i]].key@);
            assert(outlives(after[i], grace, later));
            if from[i] < k {
                assert(conns[from[i]].key@ != conns[k].key@);
            } else if from[i] > k {
                assert(conns[k].key@ != conns[from[i]].key@);
            } else {
                assert(after[i] == row);
            }
        }
    }
}

/// The life of a connection: a socket that is reported closed stays in the
/// feed, as closed, up to the end of the grace period, and is gone after it.
pub proof fn law_closed_connection_lifecycle(
    conns: Seq<ConnectionItem>,
    skaddr: u64,
    dst_ip: Seq<char>,
    closed_at: Timestamp,
    grace: u64,
    now: Timestamp,
    later: Timestamp,
    i: int,
)
    requires
        0 <= i < conns.len(),
        is_target(conns[i], skaddr, dst_ip),
        conns[i].status == ConnectionStatus::Active,
        keys_distinct(conns),
    ensures
        ({
            let row = closed(conns[i], closed_at);
            let left = feed_after_prune(
                feed_after_close(conns, skaddr, dst_ip, closed_at),
                grace,
                now,
                later,
            );
            &&& closed_at.within(grace as nat, later) ==> left.contains(row)
            &&& !closed_at.within(grace as nat, later) ==> forall|k: int|
                0 <= k < left.len() ==> (#[trigger] left[k]).key@ != conns[i].key@
        }),
{
    let after = feed_after_close(conns, skaddr, dst_ip, closed_at);
    let left = feed_after_prune(after, grace, now, later);
    let from = law_prune_keeps_order(after, grace, now, later);
    law_prune_drops_just_the_expired(after, grace, now, later);
    let row = closed(conns[i], closed_at);
    assert(after[i] == row);
    if closed_at.within(grace as nat, later) {
        assert(left.contains(after[i]));
    } else {
        assert forall|k: int| 0 <= k < left.len() implies (#[trigger] left[k]).key@
            != conns[i].key@ by {
            assert(left[k].key@ == after[from[k]].key@);
            assert(after[from[k]].key@ == conns[from[k]].key@);
            if from[k] == i {
                assert(left[k] == row_after_silence(row, now, later));
                assert(left[k] == row);
                assert(outlives(left[k], grace, later));
            } else if from[k] < i {
                assert(conns[from[k]].key@ != conns[i].key@);
            } else {
                assert(conns[i].key@ != conns[from[k]].key@);
            }
        }
    }
}

/// A closed socket that is seen again is active again.
pub proof fn law_closed_connection_reopens(
    conns: Seq<ConnectionItem>,
    max: usize,
    skaddr: u64,
    dst_ip: Seq<char>,
    closed_at: Timestamp,
    item: ConnectionItem,
    now: Timestamp,
    i: int,
)
    requires
        first_with_key(conns, item.key@) == Some(i),
    ensures
        ({
            let after = feed_after_close(conns, skaddr, dst_ip, closed_at);
            let reopened = feed_after_add(after, max, item, now);
            &&& reopened.len() == conns.len()
            &&& reopened[i].key@ == item.key@
            &&& reopened[i].status == ConnectionStatus::Active
            &&& reopened[i].closed_at is None
        }),
{
    let after = feed_after_close(conns, skaddr, dst_ip, closed_at);
    lemma_first_with_key(conns, item.key@);
    lemma_first_with_key(after, item.key@);
    assert(after[i].key@ == item.key@);
    match first_with_key(after, item.key@) {
        Some(j) => {
            assert(conns[j].key@ == item.key@);
            if i < j {
                assert(after[i].key@ != item.key@);
            }
        },
        None => {},
    }
}

// ------------------------------------------------------- the container list

/// Whether every container stands under its own control group and has counted
/// no more connections than there were in all.
pub open spec fn counters_sound(app: AppView) -> bool {
    forall|c: u64| #[trigger]
        app.containers.contains_key(c) ==> app.containers[c].cgroup_id == c
            && app.containers[c].conn_count <= app.total_conns
}

/// Counters stay sound, and while the total has room every counter has.
pub proof fn law_counters_stay_sound(
    app: AppView,
    item: ConnectionItem,
    now: Timestamp,
    after: AppView,
)
    requires
        counters_sound(app),
        app.total_conns < u64::MAX,
        app.added(item, now, after),
    ensures
        app.can_count(item.cgroup_id),
        counters_sound(after),
{
}

/// An update keeps the counters sound, and the container it names is listed as
/// active.
pub proof fn law_updated_container_is_listed(
    app: AppView,
    cgroup_id: u64,
    name: String,
    service: String,
    image: String,
    after: AppView,
)
    requires
        counters_sound(app),
        after.containers == app.containers.insert(
            cgroup_id,
            updated_container(app.containers, cgroup_id, name, service, image),
        ),
        after.total_conns == app.total_conns,
        is_listing(after.containers, after.sorted_containers),
    ensures
        counters_sound(after),
        after.sorted_containers.len() > 0,
        after.sorted_containers[0].is_active,
        after.sorted_containers.contains(
            updated_container(app.containers, cgroup_id, name, service, image),
        ),
{
    let list = after.sorted_containers;
    let new = updated_container(app.containers, cgroup_id, name, service, image);
    let ids = choose|ids: Seq<u64>| #[trigger] listed_as(after.containers, ids, list);
    assert(after.containers.dom().contains(cgroup_id));
    assert(ids.to_set().contains(cgroup_id));
    let at = choose|at: int| 0 <= at < ids.len() && ids[at] == cgroup_id;
    assert(list[at] == new);
    if at > 0 {
        assert(listed_before(list[0], list[at]));
    }
}

/// The list has as many rows as there are containers.
pub proof fn law_every_container_is_listed(
    map: Map<u64, ContainerItem>,
    list: Seq<ContainerItem>,
    c: u64,
)
    requires
        is_listing(map, list),
        map.contains_key(c),
    ensures
        list.contains(map[c]),
        list.len() == map.dom().len(),
{
    let ids = choose|ids: Seq<u64>| #[trigger] listed_as(map, ids, list);
    assert(ids.to_set().contains(c));
    let at = choose|at: int| 0 <= at < ids.len() && ids[at] == c;
    assert(list[at] == map[c]);
    ids.unique_seq_to_set();
}

// -------------------------------------------------------------- the filters

/// The feed on show holds just the rows that the filters let through.
pub proof fn law_shown_rows_pass_the_filters(
    app: AppView,
    conns: Seq<ConnectionItem>,
    row: ConnectionItem,
)
    ensures
        app.shown_of(conns).contains(row) <==> conns.contains(row) && app.shows(row),
    decreases conns.len(),
{
    if conns.len() > 0 {
        let older = app.shown_of(conns.drop_last());
        let all = app.shown_of(conns);
        law_shown_rows_pass_the_filters(app, conns.drop_last(), row);
        if conns.contains(row) && app.shows(row) {
            let i = choose|i: int| 0 <= i < conns.len() && conns[i] == row;
            if i == conns.len() - 1 {
                assert(all[0] == row);
            } else {
                assert(conns.drop_last()[i] == row);
                let j = choose|j: int| 0 <= j < older.len() && older[j] == row;
                if app.shows(conns.last()) {
                    assert(all[j + 1] == row);
                }
            }
        }
        if all.contains(row) {
            let j = choose|j: int| 0 <= j < all.len() && all[j] == row;
            if app.shows(conns.last()) {
                if j == 0 {
                    assert(conns[conns.len() - 1] == row);
                } else {
                    assert(older[j - 1] == row);
                    let i = choose|i: int|
                        0 <= i < conns.drop_last().len() && conns.drop_last()[i] == row;
                    assert(conns[i] == row);
                }
            } else {
                let i = choose|i: int|
                    0 <= i < conns.drop_last().len() && conns.drop_last()[i] == row;
                assert(conns[i] == row);
            }
        }
    }
}

/// Without filters and with host traffic shown, the whole feed is on show, the
/// newest row first.
pub proof fn law_without_filters_everything_shows(app: AppView, conns: Seq<ConnectionItem>)
    requires
        app.show_host,
        app.selected_cgroup_filter is None,
        lowercase(app.search_query).len() == 0,
    ensures
        app.shown_of(conns) == conns.reverse(),
    decreases conns.len(),
{
    if conns.len() > 0 {
        law_without_filters_everything_shows(app, conns.drop_last());
        assert(app.shown_of(conns) =~= conns.reverse());
    } else {
        assert(app.shown_of(conns) =~= conns.reverse());
    }
}

// ----------------------------------------------------------------- the keys

/// While the search bar is open, keys edit the search and nothing else: in
/// particular they quit nothing and clear nothing.
pub proof fn law_search_keys_only_search(app: AppView, key: KeyEvent)
    requires
        app.is_searching,
    ensures
        app.after_key(key) == (AppView {
            search_query: app.after_key(key).search_query,
            is_searching: app.after_key(key).is_searching,
            ..app
        }),
{
}

/// A character typed into the search bar is taken back by backspace.
pub proof fn law_backspace_undoes_typing(app: AppView, c: char, typed: bool, erased: bool)
    requires
        app.is_searching,
    ensures
        app.after_key(KeyEvent { code: KeyCode::Char(c), control: typed }).after_key(
            KeyEvent { code: KeyCode::Backspace, control: erased },
        ) == app,
{
    assert(app.search_query.push(c).drop_last() =~= app.search_query);
}

/// Only `q` and Control-C, outside the search bar, stop the program.
pub proof fn law_only_quit_keys_stop(app: AppView, key: KeyEvent)
    requires
        app.running,
    ensures
        app.after_key(key).running <==> !(!app.is_searching && (key.code == KeyCode::Char('q') || (
        key.code == KeyCode::Char('c') && key.control))),
{
}

/// The order of the list is definite: two containers that are each listed
/// before the other agree in activity, counter and name.
pub proof fn law_listing_order_is_definite(a: ContainerItem, b: ContainerItem)
    requires
        listed_before(a, b),
        listed_before(b, a),
    ensures
        a.is_active == b.is_active,
        a.conn_count == b.conn_count,
        a.name@ == b.name@,
{
    lemma_text_le_antisymmetric(a.name@, b.name@);
}

/// Toggling host traffic twice, or switching panes with Tab twice, changes
/// nothing.
pub proof fn law_toggles_undo_themselves(app: AppView, control: bool)
    requires
        !app.is_searching,
    ensures
        app.after_key(KeyEvent { code: KeyCode::Char('a'), control }).after_key(
            KeyEvent { code: KeyCode::Char('a'), control },
        ) == app,
        app.after_key(KeyEvent { code: KeyCode::Tab, control }).after_key(
            KeyEvent { code: KeyCode::Tab, control },
        ) == app,
{
}

/// Enter locks the feed to the selected container, whatever other container it
/// was locked to, and Enter again releases it: while it is locked, every row on
/// show belongs to that container.
pub proof fn law_enter_locks_and_releases(app: AppView, control: bool)
    requires
        !app.is_searching,
        app.focused_pane == FocusedPane::Containers,
        app.container_list_state.selected is Some,
        app.container_list_state.selected->0 < app.sorted_containers.len(),
        app.selected_cgroup_filter != Some(
            app.sorted_containers[app.container_list_state.selected->0 as int].cgroup_id,
        ),
    ensures
        ({
            let enter = KeyEvent { code: KeyCode::Enter, control };
            let locked = app.after_key(enter);
            let target = app.sorted_containers[app.container_list_state.selected->0 as int];
            &&& locked.selected_cgroup_filter == Some(target.cgroup_id)
            &&& forall|row: ConnectionItem| #[trigger]
                locked.shows(row) ==> row.cgroup_id == target.cgroup_id
            &&& locked.after_key(enter) == (AppView { selected_cgroup_filter: None, ..app })
        }),
{
}

/// Escape clears the search and the lock, and nothing else.
pub proof fn law_escape_clears_the_filters(app: AppView, control: bool)
    requires
        !app.is_searching,
    ensures
        app.after_key(KeyEvent { code: KeyCode::Esc, control }) == (AppView {
            selected_cgroup_filter: None,
            search_query: Seq::empty(),
            ..app
        }),
{
}

/// The selection stays on the list: moving down from a row of a pane, or from
/// none, leads to a row of it, and so does moving up.
pub proof fn law_moving_stays_on_the_list(app: AppView, control: bool)
    requires
        !app.is_searching,
        app.container_list_state.selected is Some ==> app.container_list_state.selected->0
            < app.sorted_containers.len(),
        app.table_state.selected is Some ==> app.table_state.selected->0 < app.shown().len(),
        app.sorted_containers.len() <= usize::MAX,
        app.shown().len() <= usize::MAX,
    ensures
        ({
            let down = app.after_key(KeyEvent { code: KeyCode::Down, control });
            let up = app.after_key(KeyEvent { code: KeyCode::Up, control });
            &&& down.container_list_state.selected is Some
                ==> down.container_list_state.selected->0 < app.sorted_containers.len()
            &&& up.container_list_state.selected is Some ==> up.container_list_state.selected->0
                < app.sorted_containers.len()
            &&& down.table_state.selected is Some ==> down.table_state.selected->0
                < app.shown().len()
            &&& app.shown().len() > 0 && up.table_state.selected is Some
                ==> up.table_state.selected->0 < app.shown().len()
        }),
{
}

} // verus!
