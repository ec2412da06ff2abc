//! What holds of sockets that open and close, whatever a drain holds.

use crate::addr::recorded_address;
use crate::clock::Timestamp;
use crate::dns::CacheView;
use crate::docker::{ContainerInfo, ManagerView};
use crate::events::{ConnectEvent, DnsPacketEvent, SocketCloseEvent};
use crate::order::{
    comes_before, is_stamp_order, law_openings_come_before_their_closes, names,
};
use crate::session::{
    after_packets, attributed, connect_stamps, drain_keys, drained, lemma_connect_steps, named,
    stream_keys, streamed_drain, streamed_record, streamed_records, took_connect, took_record,
    took_records, with_line,
};
use crate::stream::{active_line, closed_line, columns_of, ColumnsView, StreamView};
use crate::text::utf8_lossy;
use crate::traffic::{
    closed_endpoint_of, key_of, label_of, law_socket_and_destination_keys_differ,
    law_sockets_never_collide, trim_nuls,
};
use crate::ui::{
    activated, feed_after_add, feed_after_close, feed_after_prune, first_with_key,
    lemma_first_with_key, refreshed, AppView, ConnectionItem, ConnectionStatus,
};
use crate::ui_laws::{
    keys_distinct, law_close_keeps_keys_distinct, law_feed_is_bounded, law_prune_keeps_order,
    law_rows_stay_consistent, law_sockets_are_listed_once, row_consistent, rows_consistent,
};
use vstd::prelude::*;

verus! {

// ---------------------------------------------------------------- valid rows

/// Whether a row bears the key of a connection of its socket.
pub open spec fn row_keyed(row: ConnectionItem) -> bool {
    exists|event: ConnectEvent| row.key@ == #[trigger] key_of(event) && row.skaddr == event.skaddr
}

/// Whether every row bears the key of a connection of its socket.
pub open spec fn rows_keyed(conns: Seq<ConnectionItem>) -> bool {
    forall|i: int| 0 <= i < conns.len() ==> row_keyed(#[trigger] conns[i])
}

/// A row with the key of a connection is of the same socket.
proof fn lemma_key_tells_socket(row: ConnectionItem, event: ConnectEvent)
    requires
        row_keyed(row),
        row.key@ == key_of(event),
    ensures
        row.skaddr == event.skaddr,
{
    let other = choose|other: ConnectEvent|
        row.key@ == #[trigger] key_of(other) && row.skaddr == other.skaddr;
    if other.skaddr != 0 && event.skaddr != 0 {
        law_sockets_never_collide(other, event);
    } else if other.skaddr != 0 {
        law_socket_and_destination_keys_differ(other, event);
    } else if event.skaddr != 0 {
        law_socket_and_destination_keys_differ(event, other);
    }
}

proof fn lemma_add_keeps_keyed(
    conns: Seq<ConnectionItem>,
    max: usize,
    item: ConnectionItem,
    now: Timestamp,
)
    requires
        rows_keyed(conns),
        row_keyed(item),
    ensures
        rows_keyed(feed_after_add(conns, max, item, now)),
{
    lemma_first_with_key(conns, item.key@);
    let after = feed_after_add(conns, max, item, now);
    let event = choose|event: ConnectEvent|
        item.key@ == #[trigger] key_of(event) && item.skaddr == event.skaddr;
    assert forall|i: int| 0 <= i < after.len() implies row_keyed(#[trigger] after[i]) by {
        match first_with_key(conns, item.key@) {
            Some(k) => {
                assert(row_keyed(conns[i]));
                let own = choose|own: ConnectEvent|
                    conns[i].key@ == #[trigger] key_of(own) && conns[i].skaddr == own.skaddr;
                assert(after[i].key@ == key_of(own) && after[i].skaddr == own.skaddr);
            },
            None => {
                if i == after.len() - 1 {
                    assert(after[i] == activated(item, now));
                    assert(after[i].key@ == key_of(event) && after[i].skaddr == event.skaddr);
                } else if conns.len() >= max && conns.len() > 0 {
                    assert(after[i] == conns[i + 1]);
                } else {
                    assert(after[i] == conns[i]);
                }
            },
        }
    }
}

proof fn lemma_close_keeps_keyed(
    conns: Seq<ConnectionItem>,
    skaddr: u64,
    dst_ip: Seq<char>,
    now: Timestamp,
)
    requires
        rows_keyed(conns),
    ensures
        rows_keyed(feed_after_close(conns, skaddr, dst_ip, now)),
{
    let after = feed_after_close(conns, skaddr, dst_ip, now);
    assert forall|i: int| 0 <= i < after.len() implies row_keyed(#[trigger] after[i]) by {
        assert(row_keyed(conns[i]));
        let own = choose|own: ConnectEvent|
            conns[i].key@ == #[trigger] key_of(own) && conns[i].skaddr == own.skaddr;
        assert(after[i].key@ == key_of(own) && after[i].skaddr == own.skaddr);
    }
}

/// Rows bear the keys of their sockets through everything that happens to the
/// feed, once those that enter it do.
pub proof fn law_rows_stay_keyed(
    conns: Seq<ConnectionItem>,
    max: usize,
    item: ConnectionItem,
    skaddr: u64,
    dst_ip: Seq<char>,
    grace: u64,
    now: Timestamp,
    later: Timestamp,
)
    requires
        rows_keyed(conns),
        row_keyed(item),
    ensures
        rows_keyed(feed_after_add(conns, max, item, now)),
        rows_keyed(feed_after_close(conns, skaddr, dst_ip, now)),
        rows_keyed(feed_after_prune(conns, grace, now, later)),
{
    lemma_add_keeps_keyed(conns, max, item, now);
    lemma_close_keeps_keyed(conns, skaddr, dst_ip, now);
    let from = law_prune_keeps_order(conns, grace, now, later);
    let after = feed_after_prune(conns, grace, now, later);
    assert forall|i: int| 0 <= i < after.len() implies row_keyed(#[trigger] after[i]) by {
        let was = conns[from[i]];
        assert(row_keyed(was));
        let own = choose|own: ConnectEvent|
            was.key@ == #[trigger] key_of(own) && was.skaddr == own.skaddr;
        assert(after[i].key@ == key_of(own) && after[i].skaddr == own.skaddr);
    }
}

// ------------------------------------------------------------------ the feed

/// Whether every row of a socket is closed.
spec fn socket_closed(conns: Seq<ConnectionItem>, skaddr: u64) -> bool {
    forall|i: int|
        0 <= i < conns.len() && (#[trigger] conns[i]).skaddr == skaddr ==> conns[i].status
            == ConnectionStatus::Closed
}

/// The row that a recorded connection puts into the feed.
proof fn lemma_connect_adds_row(
    manager: Option<ManagerView>,
    event: ConnectEvent,
    time: Seq<char>,
    names_now: Timestamp,
    now: Timestamp,
    app: AppView,
    cache: CacheView,
    app_after: AppView,
    cache_after: CacheView,
) -> (item: ConnectionItem)
    requires
        took_connect(
            manager,
            event,
            time,
            names_now,
            now,
            app,
            cache,
            app_after,
            cache_after,
        ),
    ensures
        item.key@ == key_of(event),
        item.skaddr == event.skaddr,
        app_after.connections == feed_after_add(app.connections, app.max_connections, item, now),
{
    let (container, domain, mid, item) = lemma_connect_steps(
        manager,
        event,
        time,
        names_now,
        now,
        app,
        cache,
        app_after,
        cache_after,
    );
    assert(item@.key == key_of(event));
    assert(item@.skaddr == event.skaddr);
    item
}

/// A connection of another socket reopens no row of this one.
proof fn lemma_connect_leaves_others_closed(
    conns: Seq<ConnectionItem>,
    max: usize,
    item: ConnectionItem,
    event: ConnectEvent,
    now: Timestamp,
    skaddr: u64,
)
    requires
        rows_keyed(conns),
        item.key@ == key_of(event),
        item.skaddr == event.skaddr,
        event.skaddr != skaddr,
        socket_closed(conns, skaddr),
    ensures
        socket_closed(feed_after_add(conns, max, item, now), skaddr),
{
    lemma_first_with_key(conns, item.key@);
    let after = feed_after_add(conns, max, item, now);
    assert forall|i: int|
        0 <= i < after.len() && (#[trigger] after[i]).skaddr
            == skaddr implies after[i].status == ConnectionStatus::Closed by {
        match first_with_key(conns, item.key@) {
            Some(k) => {
                if i == k {
                    lemma_key_tells_socket(conns[k], event);
                    assert(after[k] == refreshed(conns[k], item, now));
                } else {
                    assert(after[i] == conns[i]);
                }
            },
            None => {
                if i == after.len() - 1 {
                    assert(after[i] == activated(item, now));
                } else if conns.len() >= max && conns.len() > 0 {
                    assert(after[i] == conns[i + 1]);
                } else {
                    assert(after[i] == conns[i]);
                }
            },
        }
    }
}

/// The records that `order` names keep rows keyed, and from the close report at
/// `at` on the rows of its socket are closed.
proof fn lemma_records_close_socket(
    manager: Option<ManagerView>,
    connects: Seq<(ConnectEvent, String)>,
    closes: Seq<SocketCloseEvent>,
    order: Seq<usize>,
    names_now: Timestamp,
    now: Timestamp,
    app: AppView,
    cache: CacheView,
    app_after: AppView,
    cache_after: CacheView,
    at: int,
    skaddr: u64,
)
    requires
        took_records(
            manager,
            connects,
            closes,
            order,
            names_now,
            now,
            app,
            cache,
            app_after,
            cache_after,
        ),
        rows_keyed(app.connections),
        skaddr != 0,
        0 <= at,
        at < order.len() ==> order[at] >= connects.len() && closes[order[at]
            - connects.len()].skaddr == skaddr,
        forall|k: int|
            at < k < order.len() && #[trigger] order[k] < connects.len()
                ==> connects[order[k] as int].0.skaddr != skaddr,
    ensures
        rows_keyed(app_after.connections),
        at < order.len() ==> socket_closed(app_after.connections, skaddr),
    decreases order.len(),
{
    if order.len() > 0 {
        let rest = order.drop_last();
        let which = order.last() as int;
        let (mid, mid_cache) = choose|mid: AppView, mid_cache: CacheView|
            {
                &&& took_records(
                    manager,
                    connects,
                    closes,
                    rest,
                    names_now,
                    now,
                    app,
                    cache,
                    mid,
                    mid_cache,
                )
                &&& #[trigger] took_record(
                    manager,
                    connects,
                    closes,
                    which,
                    names_now,
                    now,
                    mid,
                    mid_cache,
                    app_after,
                    cache_after,
                )
            };
        assert(forall|k: int| 0 <= k < rest.len() ==> rest[k] == order[k]);
        lemma_records_close_socket(
            manager,
            connects,
            closes,
            rest,
            names_now,
            now,
            app,
            cache,
            mid,
            mid_cache,
            at,
            skaddr,
        );
        if which < connects.len() {
            let event = connects[which].0;
            let item = lemma_connect_adds_row(
                manager,
                event,
                connects[which].1@,
                names_now,
                now,
                mid,
                mid_cache,
                app_after,
                cache_after,
            );
            assert(row_keyed(item));
            lemma_add_keeps_keyed(mid.connections, mid.max_connections, item, now);
            if at < order.len() - 1 {
                lemma_connect_leaves_others_closed(
                    mid.connections,
                    mid.max_connections,
                    item,
                    event,
                    now,
                    skaddr,
                );
            }
        } else {
            let close = closes[which - connects.len()];
            let endpoint = closed_endpoint_of(close);
            lemma_close_keeps_keyed(mid.connections, close.skaddr, endpoint, now);
            let after = app_after.connections;
            assert(after == feed_after_close(mid.connections, close.skaddr, endpoint, now));
            assert forall|i: int|
                0 <= i < after.len() && (#[trigger] after[i]).skaddr == skaddr && at
                    < order.len() implies after[i].status == ConnectionStatus::Closed by {
                assert(after[i].skaddr == mid.connections[i].skaddr);
            }
        }
    }
}

/// The records that `order` names keep the feed valid.
proof fn lemma_records_keep_feed_valid(
    manager: Option<ManagerView>,
    connects: Seq<(ConnectEvent, String)>,
    closes: Seq<SocketCloseEvent>,
    order: Seq<usize>,
    names_now: Timestamp,
    now: Timestamp,
    app: AppView,
    cache: CacheView,
    app_after: AppView,
    cache_after: CacheView,
)
    requires
        took_records(
            manager,
            connects,
            closes,
            order,
            names_now,
            now,
            app,
            cache,
            app_after,
            cache_after,
        ),
    ensures
        app_after.max_connections == app.max_connections,
        rows_consistent(app.connections) ==> rows_consistent(app_after.connections),
        keys_distinct(app.connections) ==> keys_distinct(app_after.connections),
        0 < app.max_connections && app.connections.len() <= app.max_connections
            ==> app_after.connections.len() <= app.max_connections,
    decreases order.len(),
{
    if order.len() > 0 {
        let rest = order.drop_last();
        let which = order.last() as int;
        let (mid, mid_cache) = choose|mid: AppView, mid_cache: CacheView|
            {
                &&& took_records(
                    manager,
                    connects,
                    closes,
                    rest,
                    names_now,
                    now,
                    app,
                    cache,
                    mid,
                    mid_cache,
                )
                &&& #[trigger] took_record(
                    manager,
                    connects,
                    closes,
                    which,
                    names_now,
                    now,
                    mid,
                    mid_cache,
                    app_after,
                    cache_after,
                )
            };
        lemma_records_keep_feed_valid(
            manager,
            connects,
            closes,
            rest,
            names_now,
            now,
            app,
            cache,
            mid,
            mid_cache,
        );
        let feed = mid.connections;
        if which < connects.len() {
            let item = lemma_connect_adds_row(
                manager,
                connects[which].0,
                connects[which].1@,
                names_now,
                now,
                mid,
                mid_cache,
                app_after,
                cache_after,
            );
            if rows_consistent(feed) {
                law_rows_stay_consistent(
                    feed,
                    mid.max_connections,
                    item,
                    0,
                    seq![],
                    mid.grace_period,
                    now,
                    now,
                );
            }
            if keys_distinct(feed) {
                law_sockets_are_listed_once(feed, mid.max_connections, item, now);
            }
            if 0 < mid.max_connections && feed.len() <= mid.max_connections {
                law_feed_is_bounded(feed, mid.max_connections, item, now);
            }
        } else {
            let close = closes[which - connects.len()];
            let endpoint = closed_endpoint_of(close);
            let after = feed_after_close(feed, close.skaddr, endpoint, now);
            if rows_consistent(feed) {
                assert forall|i: int| 0 <= i < after.len() implies row_consistent(
                    #[trigger] after[i],
                ) by {
                    assert(row_consistent(feed[i]));
                }
            }
            if keys_distinct(feed) {
                law_close_keeps_keys_distinct(feed, close.skaddr, endpoint, now);
            }
        }
    }
}

/// A drain keeps the feed valid: rows say when they were closed just when they
/// are closed, no two rows have the same key, and the feed stays within its
/// limit, which the drain leaves as it is.
pub proof fn law_drains_keep_the_feed_valid(
    manager: Option<ManagerView>,
    packets: Seq<DnsPacketEvent>,
    connects: Seq<(ConnectEvent, String)>,
    closes: Seq<SocketCloseEvent>,
    names_now: Timestamp,
    now: Timestamp,
    app: AppView,
    cache: CacheView,
    app_after: AppView,
    cache_after: CacheView,
)
    requires
        drained(
            manager,
            packets,
            connects,
            closes,
            names_now,
            now,
            app,
            cache,
            app_after,
            cache_after,
        ),
    ensures
        app_after.max_connections == app.max_connections,
        rows_consistent(app.connections) ==> rows_consistent(app_after.connections),
        keys_distinct(app.connections) ==> keys_distinct(app_after.connections),
        0 < app.max_connections && app.connections.len() <= app.max_connections
            ==> app_after.connections.len() <= app.max_connections,
{
    let learnt = after_packets(cache, packets, names_now);
    let order = choose|order: Seq<usize>|
        {
            &&& #[trigger] is_stamp_order(order, drain_keys(connects, closes))
            &&& took_records(
                manager,
                connects,
                closes,
                order,
                names_now,
                now,
                app,
                learnt,
                app_after,
                cache_after,
            )
        };
    lemma_records_keep_feed_valid(
        manager,
        connects,
        closes,
        order,
        names_now,
        now,
        app,
        learnt,
        app_after,
        cache_after,
    );
}

/// Every socket that closes in a drain is closed after it, though it may have
/// opened in the same drain: where no connection of the socket is stamped later
/// than a close report of it, every row of the socket is closed afterwards, and
/// says when.
pub proof fn law_drained_sockets_close(
    manager: Option<ManagerView>,
    packets: Seq<DnsPacketEvent>,
    connects: Seq<(ConnectEvent, String)>,
    closes: Seq<SocketCloseEvent>,
    names_now: Timestamp,
    now: Timestamp,
    app: AppView,
    cache: CacheView,
    app_after: AppView,
    cache_after: CacheView,
    j: int,
)
    requires
        drained(
            manager,
            packets,
            connects,
            closes,
            names_now,
            now,
            app,
            cache,
            app_after,
            cache_after,
        ),
        rows_keyed(app.connections),
        rows_consistent(app.connections),
        0 <= j < closes.len(),
        closes[j].skaddr != 0,
        forall|k: int|
            0 <= k < connects.len() && (#[trigger] connects[k]).0.skaddr == closes[j].skaddr
                ==> connects[k].0.timestamp_ns <= closes[j].timestamp_ns,
    ensures
        forall|r: int|
            0 <= r < app_after.connections.len() && (#[trigger] app_after.connections[r]).skaddr
                == closes[j].skaddr ==> app_after.connections[r].status == ConnectionStatus::Closed
                && app_after.connections[r].closed_at is Some,
        rows_keyed(app_after.connections),
        rows_consistent(app_after.connections),
{
    law_drains_keep_the_feed_valid(
        manager,
        packets,
        connects,
        closes,
        names_now,
        now,
        app,
        cache,
        app_after,
        cache_after,
    );
    let keys = drain_keys(connects, closes);
    let learnt = after_packets(cache, packets, names_now);
    let order = choose|order: Seq<usize>|
        {
            &&& #[trigger] is_stamp_order(order, keys)
            &&& took_records(
                manager,
                connects,
                closes,
                order,
                names_now,
                now,
                app,
                learnt,
                app_after,
                cache_after,
            )
        };
    let own = connects.len() + j;
    assert(names(order, own));
    let at = choose|at: int| 0 <= at < order.len() && order[at] == own;
    let ends = closes.map_values(|c: SocketCloseEvent| c.timestamp_ns);
    assert forall|k: int|
        at < k < order.len() && #[trigger] order[k]
            < connects.len() implies connects[order[k] as int].0.skaddr != closes[j].skaddr by {
        let c = order[k] as int;
        assert(comes_before(keys, order[at] as int, c));
        if connects[c].0.timestamp_ns <= closes[j].timestamp_ns {
            law_openings_come_before_their_closes(connect_stamps(connects), ends, c, j);
        }
    }
    lemma_records_close_socket(
        manager,
        connects,
        closes,
        order,
        names_now,
        now,
        app,
        learnt,
        app_after,
        cache_after,
        at,
        closes[j].skaddr,
    );
    assert forall|r: int|
        0 <= r < app_after.connections.len() && (#[trigger] app_after.connections[r]).skaddr
            == closes[j].skaddr implies app_after.connections[r].status == ConnectionStatus::Closed
        && app_after.connections[r].closed_at is Some by {
        assert(row_consistent(app_after.connections[r]));
    }
}

// ---------------------------------------------------------------- the stream

/// The socket of record `which` of a drain.
pub open spec fn socket_of(
    connects: Seq<(ConnectEvent, String)>,
    closes: Seq<(SocketCloseEvent, String)>,
    which: int,
) -> u64 {
    if which < connects.len() {
        connects[which].0.skaddr
    } else {
        closes[which - connects.len()].0.skaddr
    }
}

/// What a record changes: no socket but its own, and never whether host traffic
/// is shown; a close report forgets its socket, and a line comes behind those
/// that are there.
proof fn lemma_record_is_local(
    manager: Option<ManagerView>,
    connects: Seq<(ConnectEvent, String)>,
    closes: Seq<(SocketCloseEvent, String)>,
    which: int,
    names_now: Timestamp,
    stream: StreamView,
    cache: CacheView,
    line: Option<Seq<char>>,
    stream_after: StreamView,
    cache_after: CacheView,
    skaddr: u64,
)
    requires
        streamed_record(
            manager,
            connects,
            closes,
            which,
            names_now,
            stream,
            cache,
            line,
            stream_after,
            cache_after,
        ),
    ensures
        stream_after.show_host == stream.show_host,
        socket_of(connects, closes, which) != skaddr ==> {
            &&& stream_after.sockets.contains_key(skaddr) == stream.sockets.contains_key(skaddr)
            &&& stream_after.sockets[skaddr] == stream.sockets[skaddr]
        },
        which >= connects.len() && socket_of(connects, closes, which) == skaddr
            ==> !stream_after.sockets.contains_key(skaddr),
{
}

/// From the close report at `at` on, its socket is forgotten.
proof fn lemma_records_forget_socket(
    manager: Option<ManagerView>,
    connects: Seq<(ConnectEvent, String)>,
    closes: Seq<(SocketCloseEvent, String)>,
    order: Seq<usize>,
    names_now: Timestamp,
    stream: StreamView,
    cache: CacheView,
    lines: Seq<Seq<char>>,
    stream_after: StreamView,
    cache_after: CacheView,
    at: int,
    skaddr: u64,
)
    requires
        streamed_records(
            manager,
            connects,
            closes,
            order,
            names_now,
            stream,
            cache,
            lines,
            stream_after,
            cache_after,
        ),
        0 <= at < order.len(),
        order[at] >= connects.len(),
        socket_of(connects, closes, order[at] as int) == skaddr,
        forall|k: int|
            at < k < order.len() && #[trigger] order[k] < connects.len()
                ==> connects[order[k] as int].0.skaddr != skaddr,
    ensures
        !stream_after.sockets.contains_key(skaddr),
    decreases order.len(),
{
    let rest = order.drop_last();
    let which = order.last() as int;
    let (before, mid, mid_cache, line) = choose|
        before: Seq<Seq<char>>,
        mid: StreamView,
        mid_cache: CacheView,
        line: Option<Seq<char>>,
    |
        {
            &&& streamed_records(
                manager,
                connects,
                closes,
                rest,
                names_now,
                stream,
                cache,
                before,
                mid,
                mid_cache,
            )
            &&& #[trigger] streamed_record(
                manager,
                connects,
                closes,
                which,
                names_now,
                mid,
                mid_cache,
                line,
                stream_after,
                cache_after,
            )
            &&& lines == #[trigger] with_line(before, line)
        };
    lemma_record_is_local(
        manager,
        connects,
        closes,
        which,
        names_now,
        mid,
        mid_cache,
        line,
        stream_after,
        cache_after,
        skaddr,
    );
    if at < order.len() - 1 {
        assert(forall|k: int| 0 <= k < rest.len() ==> rest[k] == order[k]);
        lemma_records_forget_socket(
            manager,
            connects,
            closes,
            rest,
            names_now,
            stream,
            cache,
            before,
            mid,
            mid_cache,
            at,
            skaddr,
        );
        assert(order[order.len() - 1] == which);
    }
}

/// The stream forgets every socket that closes in a drain, though it may have
/// opened in the same drain, where no connection of it is stamped later.
pub proof fn law_drained_sockets_are_forgotten(
    manager: Option<ManagerView>,
    packets: Seq<DnsPacketEvent>,
    connects: Seq<(ConnectEvent, String)>,
    closes: Seq<(SocketCloseEvent, String)>,
    names_now: Timestamp,
    stream: StreamView,
    cache: CacheView,
    lines: Seq<Seq<char>>,
    stream_after: StreamView,
    cache_after: CacheView,
    j: int,
)
    requires
        streamed_drain(
            manager,
            packets,
            connects,
            closes,
            names_now,
            stream,
            cache,
            lines,
            stream_after,
            cache_after,
        ),
        0 <= j < closes.len(),
        forall|k: int|
            0 <= k < connects.len() && (#[trigger] connects[k]).0.skaddr == closes[j].0.skaddr
                ==> connects[k].0.timestamp_ns <= closes[j].0.timestamp_ns,
    ensures
        !stream_after.sockets.contains_key(closes[j].0.skaddr),
{
    let keys = stream_keys(connects, closes);
    let learnt = after_packets(cache, packets, names_now);
    let order = choose|order: Seq<usize>|
        {
            &&& #[trigger] is_stamp_order(order, keys)
            &&& streamed_records(
                manager,
                connects,
                closes,
                order,
                names_now,
                stream,
                learnt,
                lines,
                stream_after,
                cache_after,
            )
        };
    let own = connects.len() + j;
    assert(names(order, own));
    let at = choose|at: int| 0 <= at < order.len() && #[trigger] order[at] == own;
    let ends = closes.map_values(|c: (SocketCloseEvent, String)| c.0.timestamp_ns);
    assert forall|k: int|
        at < k < order.len() && #[trigger] order[k]
            < connects.len() implies connects[order[k] as int].0.skaddr != closes[j].0.skaddr by {
        let c = order[k] as int;
        assert(comes_before(keys, order[at] as int, c));
        if connects[c].0.timestamp_ns <= closes[j].0.timestamp_ns {
            law_openings_come_before_their_closes(connect_stamps(connects), ends, c, j);
        }
    }
    lemma_records_forget_socket(
        manager,
        connects,
        closes,
        order,
        names_now,
        stream,
        learnt,
        lines,
        stream_after,
        cache_after,
        at,
        closes[j].0.skaddr,
    );
}

/// Whether line `x` shows a connection with these columns as it opens.
pub open spec fn prints_open(
    lines: Seq<Seq<char>>,
    connect: (ConnectEvent, String),
    columns: ColumnsView,
    x: int,
) -> bool {
    0 <= x < lines.len() && lines[x] == active_line(
        connect.1@,
        columns,
        label_of(connect.0.proto),
    )
}

/// Whether a connection is printed as it opens, and again, with the same
/// columns, as it closes.
pub open spec fn prints_open_and_closed(
    lines: Seq<Seq<char>>,
    connect: (ConnectEvent, String),
    close: (SocketCloseEvent, String),
) -> bool {
    exists|columns: ColumnsView, x: int, y: int|
        {
            &&& #[trigger] prints_open(lines, connect, columns, x)
            &&& x < y < lines.len()
            &&& #[trigger] lines[y] == closed_line(close.1@, columns)
        }
}

/// Whether a connection is printed as it opens, and its socket remembered with
/// the same columns.
spec fn printed_and_open(
    lines: Seq<Seq<char>>,
    connect: (ConnectEvent, String),
    stream: StreamView,
) -> bool {
    exists|columns: ColumnsView, x: int|
        {
            &&& #[trigger] prints_open(lines, connect, columns, x)
            &&& stream.sockets.contains_key(connect.0.skaddr)
            &&& stream.sockets[connect.0.skaddr] == columns
        }
}

/// Along `order`, a connection that is shown at `p` stays remembered up to its
/// close report at `q`, which prints its columns again.
proof fn lemma_records_print_socket(
    manager: Option<ManagerView>,
    connects: Seq<(ConnectEvent, String)>,
    closes: Seq<(SocketCloseEvent, String)>,
    order: Seq<usize>,
    names_now: Timestamp,
    stream: StreamView,
    cache: CacheView,
    lines: Seq<Seq<char>>,
    stream_after: StreamView,
    cache_after: CacheView,
    i: int,
    j: int,
    p: int,
    q: int,
)
    requires
        streamed_records(
            manager,
            connects,
            closes,
            order,
            names_now,
            stream,
            cache,
            lines,
            stream_after,
            cache_after,
        ),
        0 <= i < connects.len(),
        0 <= j < closes.len(),
        connects[i].0.skaddr != 0,
        connects[i].0.skaddr == closes[j].0.skaddr,
        stream.show_host || (manager matches Some(m) && m.lookup(connects[i].0.cgroup_id) is Some),
        0 <= p < q,
        p < order.len() ==> order[p] == i,
        q < order.len() ==> order[q] == connects.len() + j,
        forall|k: int|
            p < k < q && k < order.len() ==> socket_of(connects, closes, #[trigger] order[k] as int)
                != connects[i].0.skaddr,
    ensures
        stream_after.show_host == stream.show_host,
        p < order.len() <= q ==> printed_and_open(lines, connects[i], stream_after),
        q < order.len() ==> prints_open_and_closed(lines, connects[i], closes[j]),
    decreases order.len(),
{
    if order.len() > 0 {
        let rest = order.drop_last();
        let last = order.len() - 1;
        let which = order.last() as int;
        let socket = connects[i].0.skaddr;
        let (before, mid, mid_cache, line) = choose|
            before: Seq<Seq<char>>,
            mid: StreamView,
            mid_cache: CacheView,
            line: Option<Seq<char>>,
        |
            {
                &&& streamed_records(
                    manager,
                    connects,
                    closes,
                    rest,
                    names_now,
                    stream,
                    cache,
                    before,
                    mid,
                    mid_cache,
                )
                &&& #[trigger] streamed_record(
                    manager,
                    connects,
                    closes,
                    which,
                    names_now,
                    mid,
                    mid_cache,
                    line,
                    stream_after,
                    cache_after,
                )
                &&& lines == #[trigger] with_line(before, line)
            };
        assert(forall|k: int| 0 <= k < rest.len() ==> rest[k] == order[k]);
        lemma_records_print_socket(
            manager,
            connects,
            closes,
            rest,
            names_now,
            stream,
            cache,
            before,
            mid,
            mid_cache,
            i,
            j,
            p,
            q,
        );
        lemma_record_is_local(
            manager,
            connects,
            closes,
            which,
            names_now,
            mid,
            mid_cache,
            line,
            stream_after,
            cache_after,
            socket,
        );
        assert(forall|x: int| 0 <= x < before.len() ==> lines[x] == before[x]);
        if last == p {
            let event = connects[i].0;
            let container = choose|container: Option<ContainerInfo>|
                {
                    &&& #[trigger] attributed(manager, event.cgroup_id, container)
                    &&& mid.shows(container) ==> line is Some && exists|domain: Option<Seq<char>>|
                        {
                            let columns = columns_of(
                                event,
                                container,
                                trim_nuls(utf8_lossy(event.comm@)),
                                domain,
                            );
                            &&& #[trigger] named(
                                mid_cache,
                                event.cgroup_id,
                                recorded_address(event.ip_version, event.daddr@),
                                names_now,
                                domain,
                                cache_after,
                            )
                            &&& line == Some(
                                active_line(connects[i].1@, columns, label_of(event.proto)),
                            )
                            &&& stream_after == mid.after_connect(event.skaddr, columns)
                        }
                };
            assert(mid.shows(container));
            let columns = stream_after.sockets[socket];
            assert(lines == before.push(line->0));
            assert(prints_open(lines, connects[i], columns, before.len() as int));
            assert(printed_and_open(lines, connects[i], stream_after));
        } else if p < last < q {
            assert(order[last] == which);
            let (columns, x) = choose|columns: ColumnsView, x: int|
                {
                    &&& #[trigger] prints_open(before, connects[i], columns, x)
                    &&& mid.sockets.contains_key(socket)
                    &&& mid.sockets[socket] == columns
                };
            assert(prints_open(lines, connects[i], columns, x));
            assert(printed_and_open(lines, connects[i], stream_after));
        } else if last == q {
            let (columns, x) = choose|columns: ColumnsView, x: int|
                {
                    &&& #[trigger] prints_open(before, connects[i], columns, x)
                    &&& mid.sockets.contains_key(socket)
                    &&& mid.sockets[socket] == columns
                };
            assert(line == Some(closed_line(closes[j].1@, columns)));
            assert(lines == before.push(line->0));
            assert(prints_open(lines, connects[i], columns, x));
            assert(lines[before.len() as int] == closed_line(closes[j].1@, columns));
        } else if q < last {
            let (columns, x, y) = choose|columns: ColumnsView, x: int, y: int|
                {
                    &&& #[trigger] prints_open(before, connects[i], columns, x)
                    &&& x < y < before.len()
                    &&& #[trigger] before[y] == closed_line(closes[j].1@, columns)
                };
            assert(prints_open(lines, connects[i], columns, x));
            assert(lines[y] == closed_line(closes[j].1@, columns));
        }
    }
}

/// A connection that is shown and its close report, in one drain with no other
/// record of the socket between them, are both printed, in this order and with
/// the same columns.
pub proof fn law_drained_sockets_are_printed(
    manager: Option<ManagerView>,
    packets: Seq<DnsPacketEvent>,
    connects: Seq<(ConnectEvent, String)>,
    closes: Seq<(SocketCloseEvent, String)>,
    names_now: Timestamp,
    stream: StreamView,
    cache: CacheView,
    lines: Seq<Seq<char>>,
    stream_after: StreamView,
    cache_after: CacheView,
    i: int,
    j: int,
)
    requires
        streamed_drain(
            manager,
            packets,
            connects,
            closes,
            names_now,
            stream,
            cache,
            lines,
            stream_after,
            cache_after,
        ),
        0 <= i < connects.len(),
        0 <= j < closes.len(),
        connects[i].0.skaddr != 0,
        connects[i].0.skaddr == closes[j].0.skaddr,
        connects[i].0.timestamp_ns <= closes[j].0.timestamp_ns,
        stream.show_host || (manager matches Some(m) && m.lookup(connects[i].0.cgroup_id) is Some),
        forall|k: int|
            #![trigger socket_of(connects, closes, k)]
            0 <= k < connects.len() + closes.len() && k != i && k != connects.len() + j
                && socket_of(connects, closes, k) == connects[i].0.skaddr ==> comes_before(
                stream_keys(connects, closes),
                k,
                i,
            ) || comes_before(stream_keys(connects, closes), connects.len() + j, k),
    ensures
        prints_open_and_closed(lines, connects[i], closes[j]),
{
    let keys = stream_keys(connects, closes);
    let learnt = after_packets(cache, packets, names_now);
    let order = choose|order: Seq<usize>|
        {
            &&& #[trigger] is_stamp_order(order, keys)
            &&& streamed_records(
                manager,
                connects,
                closes,
                order,
                names_now,
                stream,
                learnt,
                lines,
                stream_after,
                cache_after,
            )
        };
    let own = connects.len() + j;
    assert(names(order, i));
    assert(names(order, own));
    let p = choose|p: int| 0 <= p < order.len() && #[trigger] order[p] == i;
    let q = choose|q: int| 0 <= q < order.len() && #[trigger] order[q] == own;
    let ends = closes.map_values(|c: (SocketCloseEvent, String)| c.0.timestamp_ns);
    law_openings_come_before_their_closes(connect_stamps(connects), ends, i, j);
    if q < p {
        assert(comes_before(keys, order[q] as int, order[p] as int));
    }
    assert forall|k: int| p < k < q && k < order.len() implies socket_of(
        connects,
        closes,
        #[trigger] order[k] as int,
    ) != connects[i].0.skaddr by {
        assert(comes_before(keys, order[p] as int, order[k] as int));
        assert(comes_before(keys, order[k] as int, order[q] as int));
    }
    lemma_records_print_socket(
        manager,
        connects,
        closes,
        order,
        names_now,
        stream,
        learnt,
        lines,
        stream_after,
        cache_after,
        i,
        j,
        p,
        q,
    );
}

} // verus!
