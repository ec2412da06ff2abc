//! From a record to what is seen: the whole way of a connection.

use crate::addr::recorded_address;
use crate::clock::Timestamp;
use crate::commands::{build_args, run_args};
use crate::dns::{packet_bytes, text_of, CacheView, DEFAULT_CAPACITY};
use crate::dns_laws::law_lookups_find_live_names;
use crate::docker::{
    ContainerInfo, DockerManager, InspectError, ManagerView, INSPECT_DELAY_MS, RETRY_DELAY_MS,
};
use crate::events::{
    ConnectEvent, DnsPacketEvent, SocketCloseEvent, CONNECT_EVENT_SIZE, DNS_PACKET_EVENT_SIZE,
    MAX_DNS_PAYLOAD, SOCKET_CLOSE_EVENT_SIZE,
};
use crate::order::{is_stamp_order, ring_keys};
use crate::probe::ALLOW;
use crate::render::{
    frame_color, line_view, lines_view, row_cells, title_cells, Screen, Segment, MAX_ROWS,
};
use crate::session::{
    after_packets, attributed, connect_stamps, drain_keys, drained, known_containers,
    lemma_connect_steps, named, stream_keys, streamed_close, streamed_connect, streamed_drain,
    streamed_record, streamed_records, took_connect, took_record, took_records, with_line,
};
use crate::stream::{
    active_line, closed_line, columns_of, stranger_columns, ColumnsView, StreamView,
};
use crate::text::{decimal, signed_decimal, texts, utf8_lossy};
use crate::traffic::{closed_endpoint_of, event_endpoint, key_of, label_of, trim_nuls};
use crate::ui::{
    first_with_key, lemma_first_with_key, AppView, ConnectionStatus, FocusedPane,
    DEFAULT_MAX_CONNECTIONS, IDLE_SECS,
};
use vstd::prelude::*;

verus! {

// -------------------------------------------------------------- attribution

/// A connection belongs to the container that is known under its control group,
/// and to none where none is known or Docker is not there.
pub proof fn law_control_groups_decide(
    manager: Option<ManagerView>,
    cgroup_id: u64,
    container: Option<ContainerInfo>,
)
    requires
        attributed(manager, cgroup_id, container),
    ensures
        manager is None ==> container is None,
        manager is Some && manager->0.containers.contains_key(cgroup_id) ==> container is Some
            && container->0@ == manager->0.containers[cgroup_id],
        manager is Some && !manager->0.containers.contains_key(cgroup_id) ==> container is None,
{
}

/// What is known of the containers is what the manager holds.
pub proof fn law_managers_are_asked_as_they_are(manager: &DockerManager)
    ensures
        known_containers(Some(manager)) == Some(manager@),
        known_containers(None) is None,
{
}

/// Whether a group's table has a live name for the address of a record.
pub open spec fn knows(cache: CacheView, c: u64, event: ConnectEvent, now: Timestamp) -> bool {
    let key = recorded_address(event.ip_version, event.daddr@).spec_key();
    &&& cache.tables.contains_key(c)
    &&& cache.tables[c].entries.contains_key(key)
    &&& now.nanos - cache.tables[c].entries[key].resolved_at.nanos <= (
    cache.tables[c].entries[key].ttl + 60) * 1_000_000_000
}

/// The name that a group's table has for the address of a record.
pub open spec fn known_name(cache: CacheView, c: u64, event: ConnectEvent) -> Seq<char> {
    cache.tables[c].entries[recorded_address(event.ip_version, event.daddr@).spec_key()].domain
}

/// A name as a destination shows it: with the port behind it, save for pings.
pub open spec fn destination_by_name(name: Seq<char>, event: ConnectEvent) -> Seq<char> {
    if event.proto == 1 || event.proto == 58 {
        name
    } else {
        name + seq![':'] + decimal(event.dport as nat)
    }
}

/// A name that a record is shown under is the one its control group knows, where
/// it knows one, or else one that some group knows; and there is none only where
/// no group knows any.
proof fn lemma_named(
    cache: CacheView,
    event: ConnectEvent,
    now: Timestamp,
    domain: Option<Seq<char>>,
    after: CacheView,
)
    requires
        named(
            cache,
            event.cgroup_id,
            recorded_address(event.ip_version, event.daddr@),
            now,
            domain,
            after,
        ),
    ensures
        knows(cache, event.cgroup_id, event, now) ==> domain == Some(
            known_name(cache, event.cgroup_id, event),
        ),
        domain is Some ==> exists|c: u64| #[trigger]
            knows(cache, c, event, now) && domain->0 == known_name(cache, c, event),
        forall|c: u64| #[trigger] knows(cache, c, event, now) ==> domain is Some,
{
    let key = recorded_address(event.ip_version, event.daddr@).spec_key();
    law_lookups_find_live_names(cache, event.cgroup_id, key, now, domain, after, event.cgroup_id);
    if domain is Some {
        let c = choose|c: u64|
            cache.tables.contains_key(c) && cache.tables[c].entries.contains_key(key) && now.nanos
                - cache.tables[c].entries[key].resolved_at.nanos <= (
            cache.tables[c].entries[key].ttl + 60) * 1_000_000_000 && domain == Some(
                #[trigger] cache.tables[c].entries[key].domain,
            );
        assert(knows(cache, c, event, now));
    }
    assert forall|c: u64| #[trigger] knows(cache, c, event, now) implies domain is Some by {
        law_lookups_find_live_names(cache, event.cgroup_id, key, now, domain, after, c);
    }
}

/// A connection shows in full. Afterwards the feed has an active row of it with
/// its time, its address and its destination: the name that its own control
/// group knows, or else one that another group knows, or a dash where no group
/// knows any. Where the row is new, it bears the name, the Compose service (or a
/// dash) and the image of the container of its control group, or, without one,
/// the mark of the host and the command.
pub proof fn law_connections_show_in_full(
    manager: Option<ManagerView>,
    event: ConnectEvent,
    time: Seq<char>,
    names_now: Timestamp,
    now: Timestamp,
    app: AppView,
    cache: CacheView,
    app_after: AppView,
    cache_after: CacheView,
) -> (at: int)
    requires
        took_connect(
            manager,
            event,
            time,
            names_now,
            now,
            app,
            cache,
            app_after,
            cache_after,
        ),
    ensures
        ({
            let row = app_after.connections[at];
            let known = manager is Some && manager->0.containers.contains_key(event.cgroup_id);
            let info = manager->0.containers[event.cgroup_id];
            let new = forall|i: int|
                0 <= i < app.connections.len() ==> (#[trigger] app.connections[i]).key@ != key_of(
                    event,
                );
            &&& 0 <= at < app_after.connections.len()
            &&& row.key@ == key_of(event)
            &&& row.status == ConnectionStatus::Active
            &&& row.closed_at is None
            &&& row.last_seen == now
            &&& row.time_str@ == time
            &&& row.dst_ip_str@ == event_endpoint(event)
            &&& knows(cache, event.cgroup_id, event, names_now) ==> row.destination@
                == destination_by_name(known_name(cache, event.cgroup_id, event), event)
            &&& row.destination@ == "-"@ || exists|c: u64| #[trigger]
                knows(cache, c, event, names_now) && row.destination@ == destination_by_name(
                    known_name(cache, c, event),
                    event,
                )
            &&& (forall|c: u64| !#[trigger] knows(cache, c, event, names_now)) ==> row.destination@
                == "-"@
            &&& (exists|c: u64| #[trigger] knows(cache, c, event, names_now)) ==> exists|c: u64|
                #[trigger] knows(cache, c, event, names_now) && row.destination@
                    == destination_by_name(known_name(cache, c, event), event)
            &&& new ==> {
                &&& at == app_after.connections.len() - 1
                &&& row.skaddr == event.skaddr
                &&& row.cgroup_id == event.cgroup_id
                &&& row.proto@ == label_of(event.proto)
                &&& row.is_docker == known
                &&& known ==> row.container_name@ == info.name && row.image@ == info.image
                    && row.service@ == (if info.compose_service is Some {
                    info.compose_service->0
                } else {
                    "-"@
                })
                &&& !known ==> row.container_name@ == "[HOST]"@ && row.service@ == "-"@
                    && row.image@ == trim_nuls(utf8_lossy(event.comm@))
            }
        }),
{
    let (container, domain, mid, item) = lemma_connect_steps(
        manager,
        event,
        time,
        names_now,
        now,
        app,
        cache,
        app_after,
        cache_after,
    );
    lemma_named(cache, event, names_now, domain, cache_after);
    lemma_first_with_key(app.connections, key_of(event));
    assert(mid.connections == app.connections);
    assert(item@.key == key_of(event));
    assert(item@.skaddr == event.skaddr);
    assert(item@.time_str == time);
    assert(item@.dst_ip_str == event_endpoint(event));
    assert(item@.proto == label_of(event.proto));
    assert(item@.destination == (if domain is Some {
        destination_by_name(domain->0, event)
    } else {
        "-"@
    }));
    assert(item@.origin.container_name == (if container is Some {
        container->0@.name
    } else {
        "[HOST]"@
    }));
    assert(item@.origin.is_docker == (container is Some));
    assert(item@.origin.image == (if container is Some {
        container->0@.image
    } else {
        trim_nuls(utf8_lossy(event.comm@))
    }));
    assert(item@.origin.service == (if container is Some && container->0@.compose_service is Some {
        container->0@.compose_service->0
    } else {
        "-"@
    }));
    match first_with_key(app.connections, key_of(event)) {
        Some(i) => i,
        None => app_after.connections.len() - 1,
    }
}

// ------------------------------------------------------------------- stream

/// A streamed connection is printed in full: its line has its time and its
/// protocol, its maker and its destination, found as for the feed; a socket with
/// an address is remembered with just these columns. What is not shown prints
/// nothing and changes nothing.
pub proof fn law_streamed_connections_print_in_full(
    manager: Option<ManagerView>,
    event: ConnectEvent,
    time: Seq<char>,
    names_now: Timestamp,
    stream: StreamView,
    cache: CacheView,
    line: Option<Seq<char>>,
    stream_after: StreamView,
    cache_after: CacheView,
) -> (columns: ColumnsView)
    requires
        streamed_connect(
            manager,
            event,
            time,
            names_now,
            stream,
            cache,
            line,
            stream_after,
            cache_after,
        ),
    ensures
        ({
            let known = manager is Some && manager->0.containers.contains_key(event.cgroup_id);
            let info = manager->0.containers[event.cgroup_id];
            let yellow = |name: Seq<char>|
                "\x1b[1;33m"@ + destination_by_name(name, event) + "\x1b[0m"@;
            &&& !known && !stream.show_host ==> line is None && stream_after == stream
                && cache_after == cache
            &&& known || stream.show_host ==> {
                &&& line == Some(active_line(time, columns, label_of(event.proto)))
                &&& columns.endpoint == event_endpoint(event)
                &&& knows(cache, event.cgroup_id, event, names_now) ==> columns.destination
                    == yellow(known_name(cache, event.cgroup_id, event))
                &&& (forall|c: u64| !#[trigger] knows(cache, c, event, names_now))
                    ==> columns.destination == "-"@
                &&& (exists|c: u64| #[trigger] knows(cache, c, event, names_now)) ==> exists|c: u64|
                    #[trigger] knows(cache, c, event, names_now) && columns.destination == yellow(
                        known_name(cache, c, event),
                    )
                &&& known ==> columns.container == "\x1b[1;32m"@ + info.name + "\x1b[0m"@
                    && columns.image == info.image && columns.service == (
                if info.compose_service is Some {
                    info.compose_service->0
                } else {
                    "-"@
                })
                &&& !known ==> columns.container == "\x1b[90m"@ + "[HOST]"@ + "\x1b[0m"@
                    && columns.service == "-"@ && columns.image == "\x1b[90m"@ + trim_nuls(
                    utf8_lossy(event.comm@),
                ) + "\x1b[0m"@
                &&& event.skaddr == 0 ==> stream_after == stream
                &&& event.skaddr != 0 ==> stream_after == (StreamView {
                    sockets: stream.sockets.insert(event.skaddr, columns),
                    ..stream
                })
            }
        }),
{
    let container = choose|container: Option<ContainerInfo>|
        {
            &&& #[trigger] attributed(manager, event.cgroup_id, container)
            &&& if stream.shows(container) {
                exists|domain: Option<Seq<char>>|
                    {
                        let columns = columns_of(
                            event,
                            container,
                            trim_nuls(utf8_lossy(event.comm@)),
                            domain,
                        );
                        &&& #[trigger] named(
                            cache,
                            event.cgroup_id,
                            recorded_address(event.ip_version, event.daddr@),
                            names_now,
                            domain,
                            cache_after,
                        )
                        &&& line == Some(active_line(time, columns, label_of(event.proto)))
                        &&& stream_after == stream.after_connect(event.skaddr, columns)
                    }
            } else {
                line is None && stream_after == stream && cache_after == cache
            }
        };
    law_control_groups_decide(manager, event.cgroup_id, container);
    if stream.shows(container) {
        let domain = choose|domain: Option<Seq<char>>|
            {
                let columns = columns_of(
                    event,
                    container,
                    trim_nuls(utf8_lossy(event.comm@)),
                    domain,
                );
                &&& #[trigger] named(
                    cache,
                    event.cgroup_id,
                    recorded_address(event.ip_version, event.daddr@),
                    names_now,
                    domain,
                    cache_after,
                )
                &&& line == Some(active_line(time, columns, label_of(event.proto)))
                &&& stream_after == stream.after_connect(event.skaddr, columns)
            };
        lemma_named(cache, event, names_now, domain, cache_after);
        columns_of(event, container, trim_nuls(utf8_lossy(event.comm@)), domain)
    } else {
        arbitrary()
    }
}

/// A close report prints the columns of its socket where it is remembered, and
/// forgets it; a socket that is not is printed only where host traffic is shown,
/// as the host's, and nothing else is ever printed.
pub proof fn law_streamed_closes_print_what_opened(
    event: SocketCloseEvent,
    time: Seq<char>,
    names_now: Timestamp,
    stream: StreamView,
    cache: CacheView,
    line: Option<Seq<char>>,
    stream_after: StreamView,
    cache_after: CacheView,
)
    requires
        streamed_close(event, time, names_now, stream, cache, line, stream_after, cache_after),
    ensures
        stream_after == (StreamView { sockets: stream.sockets.remove(event.skaddr), ..stream }),
        stream.sockets.contains_key(event.skaddr) ==> line == Some(
            closed_line(time, stream.sockets[event.skaddr]),
        ) && cache_after == cache,
        !stream.sockets.contains_key(event.skaddr) && !stream.show_host ==> line is None
            && cache_after == cache,
        !stream.sockets.contains_key(event.skaddr) && stream.show_host ==> exists|
            domain: Option<Seq<char>>,
        |
            cache.looked_up(
                event.cgroup_id,
                recorded_address(event.ip_version, event.daddr@).spec_key(),
                names_now,
                domain,
                cache_after,
            ) && line == Some(closed_line(time, #[trigger] stranger_columns(event, domain))),
{
    if !stream.sockets.contains_key(event.skaddr) && stream.show_host {
        let domain = choose|domain: Option<Seq<char>>|
            {
                &&& #[trigger] named(
                    cache,
                    event.cgroup_id,
                    recorded_address(event.ip_version, event.daddr@),
                    names_now,
                    domain,
                    cache_after,
                )
                &&& line == Some(closed_line(time, stranger_columns(event, domain)))
            };
        assert(line == Some(closed_line(time, stranger_columns(event, domain))));
    }
}

// ------------------------------------------------------------------- drains

/// The packets of a drain are learnt from one after another, each for its own
/// control group; an empty one teaches nothing.
pub proof fn law_packets_are_learnt_one_by_one(
    cache: CacheView,
    packets: Seq<DnsPacketEvent>,
    packet: DnsPacketEvent,
    now: Timestamp,
)
    ensures
        after_packets(cache, seq![], now) == cache,
        packet.len == 0 ==> after_packets(cache, packets.push(packet), now) == after_packets(
            cache,
            packets,
            now,
        ),
        packet.len > 0 ==> after_packets(cache, packets.push(packet), now) == after_packets(
            cache,
            packets,
            now,
        ).after_packet(packet.cgroup_id, packet_bytes(packet), now),
{
    assert(packets.push(packet).drop_last() =~= packets);
}

/// Each record of a drain is taken for what it is: the connections, which come
/// first, with their own times, and the close reports behind them by their own
/// sockets and destinations.
pub proof fn law_records_are_taken_for_what_they_are(
    manager: Option<ManagerView>,
    connects: Seq<(ConnectEvent, String)>,
    closes: Seq<SocketCloseEvent>,
    which: int,
    names_now: Timestamp,
    now: Timestamp,
    app: AppView,
    cache: CacheView,
    app_after: AppView,
    cache_after: CacheView,
)
    requires
        took_record(
            manager,
            connects,
            closes,
            which,
            names_now,
            now,
            app,
            cache,
            app_after,
            cache_after,
        ),
    ensures
        which < connects.len() ==> took_connect(
            manager,
            connects[which].0,
            connects[which].1@,
            names_now,
            now,
            app,
            cache,
            app_after,
            cache_after,
        ),
        which >= connects.len() ==> cache_after == cache && app_after == app.after_close(
            closes[which - connects.len()].skaddr,
            closed_endpoint_of(closes[which - connects.len()]),
            now,
        ),
        connect_stamps(connects).len() == connects.len(),
        0 <= which < connects.len() ==> connect_stamps(connects)[which]
            == connects[which].0.timestamp_ns,
        drain_keys(connects, closes) == ring_keys(
            connect_stamps(connects),
            closes.map_values(|c: SocketCloseEvent| c.timestamp_ns),
        ),
{
}

/// Each record of a drain for the stream is taken for what it is, and its line
/// comes behind those before it.
pub proof fn law_streamed_records_are_taken_for_what_they_are(
    manager: Option<ManagerView>,
    connects: Seq<(ConnectEvent, String)>,
    closes: Seq<(SocketCloseEvent, String)>,
    which: int,
    names_now: Timestamp,
    stream: StreamView,
    cache: CacheView,
    line: Option<Seq<char>>,
    stream_after: StreamView,
    cache_after: CacheView,
    lines: Seq<Seq<char>>,
)
    requires
        streamed_record(
            manager,
            connects,
            closes,
            which,
            names_now,
            stream,
            cache,
            line,
            stream_after,
            cache_after,
        ),
    ensures
        which < connects.len() ==> streamed_connect(
            manager,
            connects[which].0,
            connects[which].1@,
            names_now,
            stream,
            cache,
            line,
            stream_after,
            cache_after,
        ),
        which >= connects.len() ==> streamed_close(
            closes[which - connects.len()].0,
            closes[which - connects.len()].1@,
            names_now,
            stream,
            cache,
            line,
            stream_after,
            cache_after,
        ),
        line is Some ==> with_line(lines, line) == lines.push(line->0),
        line is None ==> with_line(lines, line) == lines,
        stream_keys(connects, closes) == ring_keys(
            connect_stamps(connects),
            closes.map_values(|c: (SocketCloseEvent, String)| c.0.timestamp_ns),
        ),
{
}

/// A drain takes every record, one after another: its order names each once, and
/// leads from the state before it, once every packet was learnt from, to the
/// state after it.
pub proof fn law_drains_take_every_record(
    manager: Option<ManagerView>,
    packets: Seq<DnsPacketEvent>,
    connects: Seq<(ConnectEvent, String)>,
    closes: Seq<SocketCloseEvent>,
    names_now: Timestamp,
    now: Timestamp,
    app: AppView,
    cache: CacheView,
    app_after: AppView,
    cache_after: CacheView,
) -> (order: Seq<usize>)
    requires
        drained(
            manager,
            packets,
            connects,
            closes,
            names_now,
            now,
            app,
            cache,
            app_after,
            cache_after,
        ),
    ensures
        order.len() == connects.len() + closes.len(),
        is_stamp_order(order, drain_keys(connects, closes)),
        took_records(
            manager,
            connects,
            closes,
            order,
            names_now,
            now,
            app,
            after_packets(cache, packets, names_now),
            app_after,
            cache_after,
        ),
{
    choose|order: Seq<usize>|
        {
            &&& #[trigger] is_stamp_order(order, drain_keys(connects, closes))
            &&& took_records(
                manager,
                connects,
                closes,
                order,
                names_now,
                now,
                app,
                after_packets(cache, packets, names_now),
                app_after,
                cache_after,
            )
        }
}

/// Records are taken one by one, the last one last.
pub proof fn law_the_last_record_is_taken_last(
    manager: Option<ManagerView>,
    connects: Seq<(ConnectEvent, String)>,
    closes: Seq<SocketCloseEvent>,
    order: Seq<usize>,
    which: usize,
    names_now: Timestamp,
    now: Timestamp,
    app: AppView,
    cache: CacheView,
    app_after: AppView,
    cache_after: CacheView,
) -> (mid: (AppView, CacheView))
    requires
        took_records(
            manager,
            connects,
            closes,
            order.push(which),
            names_now,
            now,
            app,
            cache,
            app_after,
            cache_after,
        ),
    ensures
        took_records(
            manager,
            connects,
            closes,
            order,
            names_now,
            now,
            app,
            cache,
            mid.0,
            mid.1,
        ),
        took_record(
            manager,
            connects,
            closes,
            which as int,
            names_now,
            now,
            mid.0,
            mid.1,
            app_after,
            cache_after,
        ),
        order.len() == 0 ==> mid.0 == app && mid.1 == cache,
{
    assert(order.push(which).drop_last() =~= order);
    assert(order.push(which).last() == which);
    let (mid, mid_cache) = choose|mid: AppView, mid_cache: CacheView|
        {
            &&& took_records(
                manager,
                connects,
                closes,
                order,
                names_now,
                now,
                app,
                cache,
                mid,
                mid_cache,
            )
            &&& #[trigger] took_record(
                manager,
                connects,
                closes,
                which as int,
                names_now,
                now,
                mid,
                mid_cache,
                app_after,
                cache_after,
            )
        };
    (mid, mid_cache)
}

/// The lines of a drain come in the order in which its records are taken.
pub proof fn law_the_last_line_comes_last(
    manager: Option<ManagerView>,
    connects: Seq<(ConnectEvent, String)>,
    closes: Seq<(SocketCloseEvent, String)>,
    order: Seq<usize>,
    which: usize,
    names_now: Timestamp,
    stream: StreamView,
    cache: CacheView,
    lines: Seq<Seq<char>>,
    stream_after: StreamView,
    cache_after: CacheView,
) -> (mid: (Seq<Seq<char>>, StreamView, CacheView, Option<Seq<char>>))
    requires
        streamed_records(
            manager,
            connects,
            closes,
            order.push(which),
            names_now,
            stream,
            cache,
            lines,
            stream_after,
            cache_after,
        ),
    ensures
        streamed_records(
            manager,
            connects,
            closes,
            order,
            names_now,
            stream,
            cache,
            mid.0,
            mid.1,
            mid.2,
        ),
        streamed_record(
            manager,
            connects,
            closes,
            which as int,
            names_now,
            mid.1,
            mid.2,
            mid.3,
            stream_after,
            cache_after,
        ),
        mid.3 is Some ==> lines == mid.0.push(mid.3->0),
        mid.3 is None ==> lines == mid.0,
        order.len() == 0 ==> mid.0.len() == 0 && mid.1 == stream && mid.2 == cache,
{
    assert(order.push(which).drop_last() =~= order);
    assert(order.push(which).last() == which);
    let (before, mid, mid_cache, line) = choose|
        before: Seq<Seq<char>>,
        mid: StreamView,
        mid_cache: CacheView,
        line: Option<Seq<char>>,
    |
        {
            &&& streamed_records(
                manager,
                connects,
                closes,
                order,
                names_now,
                stream,
                cache,
                before,
                mid,
                mid_cache,
            )
            &&& #[trigger] streamed_record(
                manager,
                connects,
                closes,
                which as int,
                names_now,
                mid,
                mid_cache,
                line,
                stream_after,
                cache_after,
            )
            &&& lines == #[trigger] with_line(before, line)
        };
    (before, mid, mid_cache, line)
}

/// A drain for the stream learns from its packets first, and then takes its
/// records.
pub proof fn law_streamed_drains_take_every_record(
    manager: Option<ManagerView>,
    packets: Seq<DnsPacketEvent>,
    connects: Seq<(ConnectEvent, String)>,
    closes: Seq<(SocketCloseEvent, String)>,
    names_now: Timestamp,
    stream: StreamView,
    cache: CacheView,
    lines: Seq<Seq<char>>,
    stream_after: StreamView,
    cache_after: CacheView,
) -> (order: Seq<usize>)
    requires
        streamed_drain(
            manager,
            packets,
            connects,
            closes,
            names_now,
            stream,
            cache,
            lines,
            stream_after,
            cache_after,
        ),
    ensures
        order.len() == connects.len() + closes.len(),
        is_stamp_order(order, stream_keys(connects, closes)),
        streamed_records(
            manager,
            connects,
            closes,
            order,
            names_now,
            stream,
            after_packets(cache, packets, names_now),
            lines,
            stream_after,
            cache_after,
        ),
{
    choose|order: Seq<usize>|
        {
            &&& #[trigger] is_stamp_order(order, stream_keys(connects, closes))
            &&& streamed_records(
                manager,
                connects,
                closes,
                order,
                names_now,
                stream,
                after_packets(cache, packets, names_now),
                lines,
                stream_after,
                cache_after,
            )
        }
}

// ----------------------------------------------------------------- messages

/// A screen shows every part of the state.
pub proof fn law_screens_show_every_part(screen: Screen, app: AppView)
    requires
        screen.shows(app),
    ensures
        line_view(screen.header@) == app.header_line(),
        screen.containers.frame == frame_color(app.focused_pane, FocusedPane::Containers),
        screen.containers.title@ == app.containers_title(),
        lines_view(screen.containers.lines@) == app.container_lines(),
        screen.connections.frame == frame_color(app.focused_pane, FocusedPane::Connections),
        screen.connections.title@ == app.connections_title(),
        line_view(screen.connections.columns@) == title_cells(),
        screen.connections.rows@.len() == app.table_rows().len(),
        forall|i: int|
            0 <= i < app.table_rows().len() ==> line_view(#[trigger] screen.connections.rows@[i]@)
                == row_cells(app.table_rows()[i]),
        app.is_searching <==> screen.footer is Search,
        app.is_searching ==> screen.footer->bar@ == app.search_bar(),
        !app.is_searching ==> line_view(screen.footer->line@) == app.help_line(),
{
    let rows = lines_view(screen.connections.rows@);
    assert(rows.len() == screen.connections.rows@.len());
    assert forall|i: int| 0 <= i < app.table_rows().len() implies line_view(
        #[trigger] screen.connections.rows@[i]@,
    ) == row_cells(app.table_rows()[i]) by {
        assert(rows[i] == line_view(screen.connections.rows@[i]@));
    }
}

/// Lines and lists of text are read item by item.
pub proof fn law_lists_are_read_item_by_item(
    line: Seq<Segment>,
    list: Seq<String>,
    text: String,
    i: int,
)
    ensures
        line_view(line).len() == line.len(),
        0 <= i < line.len() ==> line_view(line)[i] == line[i]@,
        texts(list).len() == list.len(),
        0 <= i < list.len() ==> texts(list)[i] == list[i]@,
        text_of(Some(text)) == Some(text@),
        text_of(None) is None,
{
}

/// The limits: how many rows the feed keeps and the table shows, how many names
/// a group's table holds, when a silent socket closes, how long to wait, and how
/// large the records are.
pub proof fn law_limits()
    ensures
        DEFAULT_MAX_CONNECTIONS == 1000,
        MAX_ROWS == 150,
        DEFAULT_CAPACITY == 256,
        IDLE_SECS == 3,
        INSPECT_DELAY_MS == 50,
        RETRY_DELAY_MS == 1000,
        MAX_DNS_PAYLOAD == 768,
        CONNECT_EVENT_SIZE == 88,
        DNS_PACKET_EVENT_SIZE == 792,
        SOCKET_CLOSE_EVENT_SIZE == 64,
        ALLOW == 1,
{
}

/// What could not be taken in is reported with its id, or with its name and
/// process.
pub proof fn law_failures_are_reported(id: String, name: String, pid: i64)
    ensures
        (InspectError::NotInspected { id }).spec_message() == "Failed to inspect container "@ + id@,
        (InspectError::NoCgroup { name, pid }).spec_message()
            == "Could not resolve cgroup_id for container "@ + name@ + " (PID: "@ + signed_decimal(
            pid as int,
        ) + ")"@,
{
}

/// A release is built and run with one more argument, and what is handed on to
/// the program stands behind a separator.
pub proof fn law_commands_have_their_arguments(release: bool, args: Seq<Seq<char>>)
    ensures
        build_args(false) == seq![
            "+nightly"@,
            "build"@,
            "--manifest-path"@,
            "dsnitch-ebpf/Cargo.toml"@,
            "--target"@,
            "bpfel-unknown-none"@,
            "-Z"@,
            "build-std=core"@,
        ],
        build_args(true) == build_args(false).push("--release"@),
        run_args(false, seq![]) == seq!["run"@, "--package"@, "dsnitch"@],
        run_args(true, seq![]) == seq!["run"@, "--package"@, "dsnitch"@, "--release"@],
        args.len() > 0 ==> run_args(release, args) == run_args(release, seq![]).push("--"@) + args,
{
    assert(build_args(true) =~= build_args(false).push("--release"@));
    if args.len() > 0 {
        assert(run_args(release, args) =~= run_args(release, seq![]).push("--"@) + args);
    }
}

} // verus!
