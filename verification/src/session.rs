//! From a record to what is shown: containers are looked up by control group,
//! names by address, and the feed or the stream takes the result.

use crate::addr::{recorded_address, IpAddr};
use crate::clock::Timestamp;
use crate::dns::{max_capacity, packet_bytes, text_of, CacheView, DnsCache};
use crate::docker::{ContainerInfo, DockerManager, ManagerView, Stopped};
use crate::events::{ConnectEvent, DnsPacketEvent, SocketCloseEvent};
use crate::order::{
    comes_before, count_named, count_picked, is_picked, is_stamp_order,
    lemma_count_named_bounded, lemma_count_picked_bounded, ring_keys, ring_order,
};
use crate::stream::{
    active_line, closed_line, columns_of, stranger_columns, stranger_line, CloseStep, Stream,
    StreamView,
};
use crate::text::{texts, utf8_lossy};
use crate::traffic::{
    closed_endpoint, closed_endpoint_of, destination_of, event_endpoint, key_of, label_of,
    origin_of, row_of, trim_nuls,
};
use crate::ui::{
    activated, feed_after_add, first_with_key, lemma_first_with_key, refreshed, App, AppView,
    ConnectionItem, ConnectionStatus,
};
use vstd::prelude::*;

verus! {

/// What is known of the containers, if Docker is there.
pub open spec fn known_containers(manager: Option<&DockerManager>) -> Option<ManagerView> {
    match manager {
        Some(m) => Some(m@),
        None => None,
    }
}

/// Whether `container` is what `manager` knows of a control group; without
/// Docker nothing is known.
pub open spec fn attributed(
    manager: Option<ManagerView>,
    cgroup_id: u64,
    container: Option<ContainerInfo>,
) -> bool {
    match manager {
        Some(m) => match container {
            Some(info) => m.lookup(cgroup_id) == Some(info@),
            None => m.lookup(cgroup_id) is None,
        },
        None => container is None,
    }
}

fn container_of(manager: Option<&DockerManager>, cgroup_id: u64) -> (container: Option<
    ContainerInfo,
>)
    ensures
        attributed(known_containers(manager), cgroup_id, container),
{
    match manager {
        Some(m) => m.lookup(cgroup_id),
        None => None,
    }
}

/// Whether `domain` is a right answer when the control group of a record looks
/// its address up at `now`, and `after` is the cache it leaves.
pub open spec fn named(
    cache: CacheView,
    cgroup_id: u64,
    ip: IpAddr,
    now: Timestamp,
    domain: Option<Seq<char>>,
    after: CacheView,
) -> bool {
    cache.looked_up(cgroup_id, ip.spec_key(), now, domain, after)
}

/// Whether a recorded connection, with its time as text, leads from `app` and
/// `cache` to `app_after` and `cache_after`, when names are looked up at
/// `names_now` and the row is added at `now`.
pub open spec fn took_connect(
    manager: Option<ManagerView>,
    event: ConnectEvent,
    time: Seq<char>,
    names_now: Timestamp,
    now: Timestamp,
    app: AppView,
    cache: CacheView,
    app_after: AppView,
    cache_after: CacheView,
) -> bool {
    exists|container: Option<ContainerInfo>, domain: Option<Seq<char>>|
        {
            &&& attributed(manager, event.cgroup_id, container)
            &&& named(
                cache,
                event.cgroup_id,
                recorded_address(event.ip_version, event.daddr@),
                names_now,
                domain,
                cache_after,
            )
            &&& #[trigger] app.showed_connect(event, container, domain, time, now, app_after)
        }
}

/// The steps of a recorded connection: its container and its name are found,
/// the container is noted, and the row is added.
pub proof fn lemma_connect_steps(
    manager: Option<ManagerView>,
    event: ConnectEvent,
    time: Seq<char>,
    names_now: Timestamp,
    now: Timestamp,
    app: AppView,
    cache: CacheView,
    app_after: AppView,
    cache_after: CacheView,
) -> (steps: (Option<ContainerInfo>, Option<Seq<char>>, AppView, ConnectionItem))
    requires
        took_connect(
            manager,
            event,
            time,
            names_now,
            now,
            app,
            cache,
            app_after,
            cache_after,
        ),
    ensures
        ({
            let (container, domain, mid, item) = steps;
            &&& attributed(manager, event.cgroup_id, container)
            &&& named(
                cache,
                event.cgroup_id,
                recorded_address(event.ip_version, event.daddr@),
                names_now,
                domain,
                cache_after,
            )
            &&& app.noted(container, mid)
            &&& item@ == row_of(
                event,
                origin_of(container, trim_nuls(utf8_lossy(event.comm@))),
                domain,
                time,
                now,
            )
            &&& mid.added(item, now, app_after)
        }),
{
    let (container, domain) = choose|container: Option<ContainerInfo>, domain: Option<Seq<char>>|
        {
            &&& attributed(manager, event.cgroup_id, container)
            &&& named(
                cache,
                event.cgroup_id,
                recorded_address(event.ip_version, event.daddr@),
                names_now,
                domain,
                cache_after,
            )
            &&& #[trigger] app.showed_connect(event, container, domain, time, now, app_after)
        };
    let who = origin_of(container, trim_nuls(utf8_lossy(event.comm@)));
    let (mid, item) = choose|mid: AppView, item: ConnectionItem|
        {
            &&& #[trigger] app.noted(container, mid)
            &&& item@ == row_of(event, who, domain, time, now)
            &&& #[trigger] mid.added(item, now, app_after)
        };
    (container, domain, mid, item)
}

impl App {
    /// Takes in a recorded connection, with its time as text: names are looked
    /// up at `names_now` on the clock of the cache, and the row is added at
    /// `now`.
    pub fn take_connect_at(
        &mut self,
        manager: Option<&DockerManager>,
        cache: &mut DnsCache,
        event: &ConnectEvent,
        time_str: String,
        names_now: Timestamp,
        now: Timestamp,
    )
        requires
            old(self)@.can_count(event.cgroup_id),
            old(cache).wf(),
        ensures
            final(cache).wf(),
            took_connect(
                known_containers(manager),
                *event,
                time_str@,
                names_now,
                now,
                old(self)@,
                old(cache)@,
                final(self)@,
                final(cache)@,
            ),
    {
        let container = container_of(manager, event.cgroup_id);
        let ip = IpAddr::recorded(event.ip_version, &event.daddr);
        let domain = cache.resolve_at(event.cgroup_id, &ip, names_now);
        self.show_connect_at(event, &container, &domain, time_str, now);
        assert(old(self)@.showed_connect(
            *event,
            container,
            text_of(domain),
            time_str@,
            now,
            self@,
        ));
    }

    /// Takes in a recorded connection, with its time as text, at the present
    /// moment.
    pub fn take_connect(
        &mut self,
        manager: Option<&DockerManager>,
        cache: &mut DnsCache,
        event: &ConnectEvent,
        time_str: String,
    )
        requires
            old(self)@.can_count(event.cgroup_id),
            old(cache).wf(),
        ensures
            final(cache).wf(),
            exists|names_now: Timestamp, now: Timestamp|
                names_now.can_be_present() && now.can_be_present() && #[trigger] took_connect(
                    known_containers(manager),
                    *event,
                    time_str@,
                    names_now,
                    now,
                    old(self)@,
                    old(cache)@,
                    final(self)@,
                    final(cache)@,
                ),
    {
        let names_now = cache.now();
        let now = self.clock.now();
        self.take_connect_at(manager, cache, event, time_str, names_now, now);
    }
}

/// Whether a recorded connection, with its time as text, leads from `stream`
/// and `cache` to `stream_after` and `cache_after` and makes `line` appear, when
/// names are looked up at `names_now`. A connection that is not shown is not
/// looked up either.
pub open spec fn streamed_connect(
    manager: Option<ManagerView>,
    event: ConnectEvent,
    time: Seq<char>,
    names_now: Timestamp,
    stream: StreamView,
    cache: CacheView,
    line: Option<Seq<char>>,
    stream_after: StreamView,
    cache_after: CacheView,
) -> bool {
    exists|container: Option<ContainerInfo>|
        {
            &&& #[trigger] attributed(manager, event.cgroup_id, container)
            &&& if stream.shows(container) {
                exists|domain: Option<Seq<char>>|
                    {
                        let columns = columns_of(
                            event,
                            container,
                            trim_nuls(utf8_lossy(event.comm@)),
                            domain,
                        );
                        &&& #[trigger] named(
                            cache,
                            event.cgroup_id,
                            recorded_address(event.ip_version, event.daddr@),
                            names_now,
                            domain,
                            cache_after,
                        )
                        &&& line == Some(active_line(time, columns, label_of(event.proto)))
                        &&& stream_after == stream.after_connect(event.skaddr, columns)
                    }
            } else {
                line is None && stream_after == stream && cache_after == cache
            }
        }
}

/// Whether a close report, with its time as text, leads from `stream` and
/// `cache` to `stream_after` and `cache_after` and makes `line` appear, when
/// names are looked up at `names_now`. A name is looked up only for the close
/// of a socket that was not seen to open, where host traffic is shown.
pub open spec fn streamed_close(
    event: SocketCloseEvent,
    time: Seq<char>,
    names_now: Timestamp,
    stream: StreamView,
    cache: CacheView,
    line: Option<Seq<char>>,
    stream_after: StreamView,
    cache_after: CacheView,
) -> bool {
    &&& stream_after == stream.after_close(event.skaddr)
    &&& if stream.sockets.contains_key(event.skaddr) {
        line == Some(closed_line(time, stream.sockets[event.skaddr])) && cache_after == cache
    } else if stream.show_host {
        exists|domain: Option<Seq<char>>|
            {
                &&& #[trigger] named(
                    cache,
                    event.cgroup_id,
                    recorded_address(event.ip_version, event.daddr@),
                    names_now,
                    domain,
                    cache_after,
                )
                &&& line == Some(closed_line(time, stranger_columns(event, domain)))
            }
    } else {
        line is None && cache_after == cache
    }
}

impl Stream {
    /// The line for a recorded connection, if it is shown, with its time as
    /// text; names are looked up at `names_now`.
    pub fn take_connect_at(
        &mut self,
        manager: Option<&DockerManager>,
        cache: &mut DnsCache,
        event: &ConnectEvent,
        time_str: &str,
        names_now: Timestamp,
    ) -> (line: Option<String>)
        requires
            old(cache).wf(),
        ensures
            final(cache).wf(),
            streamed_connect(
                known_containers(manager),
                *event,
                time_str@,
                names_now,
                old(self)@,
                old(cache)@,
                text_of(line),
                final(self)@,
                final(cache)@,
            ),
    {
        let container = container_of(manager, event.cgroup_id);
        let mut domain: Option<String> = None;
        if self.shows(&container) {
            let ip = IpAddr::recorded(event.ip_version, &event.daddr);
            domain = cache.resolve_at(event.cgroup_id, &ip, names_now);
        }
        let line = self.on_connect(event, &container, &domain, time_str);
        assert(attributed(known_containers(manager), event.cgroup_id, container));
        assert(old(self)@.shows(container) ==> named(
            old(cache)@,
            event.cgroup_id,
            recorded_address(event.ip_version, event.daddr@),
            names_now,
            text_of(domain),
            cache@,
        ));
        line
    }

    /// The line for a recorded connection, if it is shown, with its time as
    /// text, at the present moment.
    pub fn take_connect(
        &mut self,
        manager: Option<&DockerManager>,
        cache: &mut DnsCache,
        event: &ConnectEvent,
        time_str: &str,
    ) -> (line: Option<String>)
        requires
            old(cache).wf(),
        ensures
            final(cache).wf(),
            exists|names_now: Timestamp|
                names_now.can_be_present() && #[trigger] streamed_connect(
                    known_containers(manager),
                    *event,
                    time_str@,
                    names_now,
                    old(self)@,
                    old(cache)@,
                    text_of(line),
                    final(self)@,
                    final(cache)@,
                ),
    {
        let names_now = cache.now();
        self.take_connect_at(manager, cache, event, time_str, names_now)
    }

    /// The line for a close report, if there is one, with its time as text;
    /// names are looked up at `names_now`.
    pub fn take_close_at(
        &mut self,
        cache: &mut DnsCache,
        event: &SocketCloseEvent,
        time_str: &str,
        names_now: Timestamp,
    ) -> (line: Option<String>)
        requires
            old(cache).wf(),
        ensures
            final(cache).wf(),
            streamed_close(
                *event,
                time_str@,
                names_now,
                old(self)@,
                old(cache)@,
                text_of(line),
                final(self)@,
                final(cache)@,
            ),
    {
        match self.on_close(event, time_str) {
            CloseStep::Print { line } => Some(line),
            CloseStep::LookUp { ip } => {
                let domain = cache.resolve_at(event.cgroup_id, &ip, names_now);
                assert(named(
                    old(cache)@,
                    event.cgroup_id,
                    recorded_address(event.ip_version, event.daddr@),
                    names_now,
                    text_of(domain),
                    cache@,
                ));
                Some(stranger_line(event, &domain, time_str))
            },
            CloseStep::Skip => None,
        }
    }

    /// The line for a close report, if there is one, with its time as text, at
    /// the present moment.
    pub fn take_close(
        &mut self,
        cache: &mut DnsCache,
        event: &SocketCloseEvent,
        time_str: &str,
    ) -> (line: Option<String>)
        requires
            old(cache).wf(),
        ensures
            final(cache).wf(),
            exists|names_now: Timestamp|
                names_now.can_be_present() && #[trigger] streamed_close(
                    *event,
                    time_str@,
                    names_now,
                    old(self)@,
                    old(cache)@,
                    text_of(line),
                    final(self)@,
                    final(cache)@,
                ),
    {
        let names_now = cache.now();
        self.take_close_at(cache, event, time_str, names_now)
    }
}

// ------------------------------------------------------------------- drains

/// The cache after these packets were learnt from, one after another.
pub open spec fn after_packets(
    cache: CacheView,
    packets: Seq<DnsPacketEvent>,
    now: Timestamp,
) -> CacheView
    decreases packets.len(),
{
    if packets.len() == 0 {
        cache
    } else {
        let before = after_packets(cache, packets.drop_last(), now);
        let packet = packets.last();
        if packet.len == 0 {
            before
        } else {
            before.after_packet(packet.cgroup_id, packet_bytes(packet), now)
        }
    }
}

/// Learns from these packets, one after another.
fn learn_from_packets(cache: &mut DnsCache, packets: &Vec<DnsPacketEvent>, now: Timestamp)
    requires
        old(cache).wf(),
        old(cache)@.capacity <= max_capacity(),
    ensures
        final(cache).wf(),
        final(cache)@ == after_packets(old(cache)@, packets@, now),
        final(cache)@.capacity == old(cache)@.capacity,
{
    assert(packets@.take(0) =~= seq![]);
    for i in 0..packets.len()
        invariant
            cache.wf(),
            cache@.capacity == old(cache)@.capacity,
            old(cache)@.capacity <= max_capacity(),
            cache@ == after_packets(old(cache)@, packets@.take(i as int), now),
    {
        assert(packets@.take(i + 1).drop_last() =~= packets@.take(i as int));
        cache.process_packet_at(&packets[i], now);
    }
    assert(packets@.take(packets@.len() as int) =~= packets@);
}

/// The stamps of connections.
pub open spec fn connect_stamps(connects: Seq<(ConnectEvent, String)>) -> Seq<u64> {
    connects.map_values(|c: (ConnectEvent, String)| c.0.timestamp_ns)
}

fn stamps_of(connects: &Vec<(ConnectEvent, String)>) -> (stamps: Vec<u64>)
    ensures
        stamps@ == connect_stamps(connects@),
{
    let mut stamps: Vec<u64> = Vec::new();
    for i in 0..connects.len()
        invariant
            stamps@ == connect_stamps(connects@).take(i as int),
    {
        stamps.push(connects[i].0.timestamp_ns);
        assert(stamps@ =~= connect_stamps(connects@).take(i + 1));
    }
    assert(stamps@ =~= connect_stamps(connects@));
    stamps
}

/// What the records of a drain, the connections first, are ordered by.
pub open spec fn drain_keys(
    connects: Seq<(ConnectEvent, String)>,
    closes: Seq<SocketCloseEvent>,
) -> Seq<u64> {
    ring_keys(connect_stamps(connects), closes.map_values(|c: SocketCloseEvent| c.timestamp_ns))
}

/// Which connections are of a control group.
pub open spec fn of_group(connects: Seq<(ConnectEvent, String)>, cgroup_id: u64) -> Seq<bool> {
    connects.map_values(|c: (ConnectEvent, String)| c.0.cgroup_id == cgroup_id)
}

/// All connections.
spec fn of_any_group(connects: Seq<(ConnectEvent, String)>) -> Seq<bool> {
    connects.map_values(|c: (ConnectEvent, String)| true)
}

/// Whether the counters have room for these connections: that of all, and that
/// of each known container for its own.
pub open spec fn has_room(app: AppView, connects: Seq<(ConnectEvent, String)>) -> bool {
    &&& app.total_conns + connects.len() <= u64::MAX
    &&& forall|id: u64| #[trigger]
        app.containers.contains_key(id) ==> app.containers[id].conn_count + count_picked(
            of_group(connects, id),
        ) <= u64::MAX
}

/// Whether the counters have room for those of these connections that `done`
/// does not name.
spec fn has_room_after(
    app: AppView,
    connects: Seq<(ConnectEvent, String)>,
    done: Seq<usize>,
) -> bool {
    &&& connects.len() <= u64::MAX
    &&& app.total_conns + connects.len() - count_named(done, of_any_group(connects)) <= u64::MAX
    &&& forall|id: u64| #[trigger]
        app.containers.contains_key(id) ==> app.containers[id].conn_count + count_picked(
            of_group(connects, id),
        ) - count_named(done, of_group(connects, id)) <= u64::MAX
}

/// Whether record `which` of a drain leads from `app` and `cache` to
/// `app_after` and `cache_after`.
pub open spec fn took_record(
    manager: Option<ManagerView>,
    connects: Seq<(ConnectEvent, String)>,
    closes: Seq<SocketCloseEvent>,
    which: int,
    names_now: Timestamp,
    now: Timestamp,
    app: AppView,
    cache: CacheView,
    app_after: AppView,
    cache_after: CacheView,
) -> bool {
    if which < connects.len() {
        took_connect(
            manager,
            connects[which].0,
            connects[which].1@,
            names_now,
            now,
            app,
            cache,
            app_after,
            cache_after,
        )
    } else {
        let close = closes[which - connects.len()];
        &&& app_after == app.after_close(close.skaddr, closed_endpoint_of(close), now)
        &&& cache_after == cache
    }
}

/// Whether the records of a drain that `order` names, one after another, lead
/// from `app` and `cache` to `app_after` and `cache_after`.
pub open spec fn took_records(
    manager: Option<ManagerView>,
    connects: Seq<(ConnectEvent, String)>,
    closes: Seq<SocketCloseEvent>,
    order: Seq<usize>,
    names_now: Timestamp,
    now: Timestamp,
    app: AppView,
    cache: CacheView,
    app_after: AppView,
    cache_after: CacheView,
) -> bool
    decreases order.len(),
{
    if order.len() == 0 {
        app_after == app && cache_after == cache
    } else {
        exists|mid: AppView, mid_cache: CacheView|
            {
                &&& took_records(
                    manager,
                    connects,
                    closes,
                    order.drop_last(),
                    names_now,
                    now,
                    app,
                    cache,
                    mid,
                    mid_cache,
                )
                &&& #[trigger] took_record(
                    manager,
                    connects,
                    closes,
                    order.last() as int,
                    names_now,
                    now,
                    mid,
                    mid_cache,
                    app_after,
                    cache_after,
                )
            }
    }
}

/// Whether a drain leads from `app` and `cache` to `app_after` and
/// `cache_after`: every packet is learnt from first, then connections and close
/// reports are taken, each in the order of their ring, and a connection before
/// the close reports that are stamped no earlier.
pub open spec fn drained(
    manager: Option<ManagerView>,
    packets: Seq<DnsPacketEvent>,
    connects: Seq<(ConnectEvent, String)>,
    closes: Seq<SocketCloseEvent>,
    names_now: Timestamp,
    now: Timestamp,
    app: AppView,
    cache: CacheView,
    app_after: AppView,
    cache_after: CacheView,
) -> bool {
    exists|order: Seq<usize>|
        {
            &&& #[trigger] is_stamp_order(order, drain_keys(connects, closes))
            &&& took_records(
                manager,
                connects,
                closes,
                order,
                names_now,
                now,
                app,
                after_packets(cache, packets, names_now),
                app_after,
                cache_after,
            )
        }
}

/// A connection that is next, at `which`, can be counted.
proof fn lemma_next_can_count(
    app: AppView,
    connects: Seq<(ConnectEvent, String)>,
    done: Seq<usize>,
    which: usize,
)
    requires
        0 <= which < connects.len(),
        done.push(which).no_duplicates(),
        has_room_after(app, connects, done),
    ensures
        app.can_count(connects[which as int].0.cgroup_id),
{
    let next = done.push(which);
    let id = connects[which as int].0.cgroup_id;
    assert(next.drop_last() =~= done);
    assert(is_picked(of_any_group(connects), which as int));
    assert(is_picked(of_group(connects, id), which as int));
    lemma_count_named_bounded(next, of_any_group(connects));
    lemma_count_named_bounded(next, of_group(connects, id));
    lemma_count_picked_bounded(of_any_group(connects));
}

/// Once the connection at `which` is counted, there is room for the others.
proof fn lemma_connect_takes_room(
    manager: Option<ManagerView>,
    connects: Seq<(ConnectEvent, String)>,
    names_now: Timestamp,
    now: Timestamp,
    app: AppView,
    cache: CacheView,
    app_after: AppView,
    cache_after: CacheView,
    done: Seq<usize>,
    which: usize,
)
    requires
        0 <= which < connects.len(),
        took_connect(
            manager,
            connects[which as int].0,
            connects[which as int].1@,
            names_now,
            now,
            app,
            cache,
            app_after,
            cache_after,
        ),
        app.can_count(connects[which as int].0.cgroup_id),
        done.push(which).no_duplicates(),
        has_room_after(app, connects, done),
    ensures
        has_room_after(app_after, connects, done.push(which)),
{
    let event = connects[which as int].0;
    let (container, domain, mid, item) = lemma_connect_steps(
        manager,
        event,
        connects[which as int].1@,
        names_now,
        now,
        app,
        cache,
        app_after,
        cache_after,
    );
    let next = done.push(which);
    assert(next.drop_last() =~= done);
    assert(is_picked(of_any_group(connects), which as int));
    let after = app_after.containers;
    assert forall|id: u64| #[trigger] after.contains_key(id) implies after[id].conn_count
        + count_picked(of_group(connects, id)) - count_named(next, of_group(connects, id))
        <= u64::MAX by {
        assert(mid.containers.contains_key(id));
        assert(is_picked(of_group(connects, id), which as int) == (id == event.cgroup_id));
        lemma_count_picked_bounded(of_group(connects, id));
        if app.containers.contains_key(id) {
            assert(mid.containers[id].conn_count == app.containers[id].conn_count);
        } else {
            assert(mid.containers[id].conn_count == 0);
        }
    }
}

impl App {
    /// Takes in what the ring buffers held: learns from every packet, then takes
    /// connections, each with its time as text, and close reports, each in the
    /// order of their ring, and a connection before the close reports that are
    /// stamped no earlier. Names are learnt and looked up at `names_now` on the
    /// clock of the cache, and the feed changes at `now`.
    pub fn take_drain_at(
        &mut self,
        manager: Option<&DockerManager>,
        cache: &mut DnsCache,
        packets: &Vec<DnsPacketEvent>,
        connects: &Vec<(ConnectEvent, String)>,
        closes: &Vec<SocketCloseEvent>,
        names_now: Timestamp,
        now: Timestamp,
    )
        requires
            old(cache).wf(),
            old(cache)@.capacity <= max_capacity(),
            has_room(old(self)@, connects@),
        ensures
            final(cache).wf(),
            drained(
                known_containers(manager),
                packets@,
                connects@,
                closes@,
                names_now,
                now,
                old(self)@,
                old(cache)@,
                final(self)@,
                final(cache)@,
            ),
    {
        learn_from_packets(cache, packets, names_now);
        let ghost learnt = cache@;
        let mut close_stamps: Vec<u64> = Vec::new();
        let ghost all = closes@.map_values(|c: SocketCloseEvent| c.timestamp_ns);
        for j in 0..closes.len()
            invariant
                all == closes@.map_values(|c: SocketCloseEvent| c.timestamp_ns),
                close_stamps@ == all.take(j as int),
        {
            close_stamps.push(closes[j].timestamp_ns);
            assert(close_stamps@ =~= all.take(j + 1));
        }
        assert(close_stamps@ =~= all);
        let order = ring_order(&stamps_of(connects), &close_stamps);
        assert(order@.take(0) =~= seq![]);
        for k in 0..order.len()
            invariant
                is_stamp_order(order@, drain_keys(connects@, closes@)),
                cache.wf(),
                has_room_after(self@, connects@, order@.take(k as int)),
                took_records(
                    known_containers(manager),
                    connects@,
                    closes@,
                    order@.take(k as int),
                    names_now,
                    now,
                    old(self)@,
                    learnt,
                    self@,
                    cache@,
                ),
        {
            let which: usize = order[k];
            let ghost mid = self@;
            let ghost mid_cache = cache@;
            let ghost done = order@.take(k as int);
            proof {
                let next = order@.take(k + 1);
                assert(next.drop_last() =~= done);
                assert(next =~= done.push(which));
                assert forall|a: int, b: int| 0 <= a < b < next.len() implies next[a] != next[b] by {
                    assert(comes_before(
                        drain_keys(connects@, closes@),
                        order@[a] as int,
                        order@[b] as int,
                    ));
                }
                if which < connects@.len() {
                    lemma_next_can_count(self@, connects@, done, which);
                }
            }
            if which < connects.len() {
                let event = connects[which].0;
                let time = connects[which].1.clone();
                self.take_connect_at(manager, cache, &event, time, names_now, now);
                proof {
                    lemma_connect_takes_room(
                        known_containers(manager),
                        connects@,
                        names_now,
                        now,
                        mid,
                        mid_cache,
                        self@,
                        cache@,
                        done,
                        which,
                    );
                }
            } else {
                let close = &closes[which - connects.len()];
                let endpoint = closed_endpoint(close);
                self.close_connection_at(close.skaddr, endpoint.as_str(), now);
            }
            assert(took_record(
                known_containers(manager),
                connects@,
                closes@,
                which as int,
                names_now,
                now,
                mid,
                mid_cache,
                self@,
                cache@,
            ));
        }
        assert(order@.take(order@.len() as int) =~= order@);
    }

    /// Takes in what the ring buffers held, at the present moment.
    pub fn take_drain(
        &mut self,
        manager: Option<&DockerManager>,
        cache: &mut DnsCache,
        packets: &Vec<DnsPacketEvent>,
        connects: &Vec<(ConnectEvent, String)>,
        closes: &Vec<SocketCloseEvent>,
    )
        requires
            old(cache).wf(),
            old(cache)@.capacity <= max_capacity(),
            has_room(old(self)@, connects@),
        ensures
            final(cache).wf(),
            exists|names_now: Timestamp, now: Timestamp|
                names_now.can_be_present() && now.can_be_present() && #[trigger] drained(
                    known_containers(manager),
                    packets@,
                    connects@,
                    closes@,
                    names_now,
                    now,
                    old(self)@,
                    old(cache)@,
                    final(self)@,
                    final(cache)@,
                ),
    {
        let names_now = cache.now();
        let now = self.clock.now();
        self.take_drain_at(manager, cache, packets, connects, closes, names_now, now);
    }
}

/// What the records of a drain for the stream, the connections first, are
/// ordered by.
pub open spec fn stream_keys(
    connects: Seq<(ConnectEvent, String)>,
    closes: Seq<(SocketCloseEvent, String)>,
) -> Seq<u64> {
    ring_keys(
        connect_stamps(connects),
        closes.map_values(|c: (SocketCloseEvent, String)| c.0.timestamp_ns),
    )
}

/// Whether record `which` of a drain leads from `stream` and `cache` to
/// `stream_after` and `cache_after` and makes `line` appear.
pub open spec fn streamed_record(
    manager: Option<ManagerView>,
    connects: Seq<(ConnectEvent, String)>,
    closes: Seq<(SocketCloseEvent, String)>,
    which: int,
    names_now: Timestamp,
    stream: StreamView,
    cache: CacheView,
    line: Option<Seq<char>>,
    stream_after: StreamView,
    cache_after: CacheView,
) -> bool {
    if which < connects.len() {
        streamed_connect(
            manager,
            connects[which].0,
            connects[which].1@,
            names_now,
            stream,
            cache,
            line,
            stream_after,
            cache_after,
        )
    } else {
        streamed_close(
            closes[which - connects.len()].0,
            closes[which - connects.len()].1@,
            names_now,
            stream,
            cache,
            line,
            stream_after,
            cache_after,
        )
    }
}

/// `lines` with one more line behind them, if there is one.
pub open spec fn with_line(lines: Seq<Seq<char>>, line: Option<Seq<char>>) -> Seq<Seq<char>> {
    match line {
        Some(text) => lines.push(text),
        None => lines,
    }
}

/// Whether the records of a drain that `order` names, one after another, lead
/// from `stream` and `cache` to `stream_after` and `cache_after` and make
/// `lines` appear.
pub open spec fn streamed_records(
    manager: Option<ManagerView>,
    connects: Seq<(ConnectEvent, String)>,
    closes: Seq<(SocketCloseEvent, String)>,
    order: Seq<usize>,
    names_now: Timestamp,
    stream: StreamView,
    cache: CacheView,
    lines: Seq<Seq<char>>,
    stream_after: StreamView,
    cache_after: CacheView,
) -> bool
    decreases order.len(),
{
    if order.len() == 0 {
        stream_after == stream && cache_after == cache && lines == Seq::<Seq<char>>::empty()
    } else {
        exists|before: Seq<Seq<char>>, mid: StreamView, mid_cache: CacheView, line: Option<Seq<char>>|
            {
                &&& streamed_records(
                    manager,
                    connects,
                    closes,
                    order.drop_last(),
                    names_now,
                    stream,
                    cache,
                    before,
                    mid,
                    mid_cache,
                )
                &&& #[trigger] streamed_record(
                    manager,
                    connects,
                    closes,
                    order.last() as int,
                    names_now,
                    mid,
                    mid_cache,
                    line,
                    stream_after,
                    cache_after,
                )
                &&& lines == #[trigger] with_line(before, line)
            }
    }
}

/// Whether a drain leads from `stream` and `cache` to `stream_after` and
/// `cache_after` and makes `lines` appear: every packet is learnt from first,
/// then connections and close reports are taken, each in the order of their
/// ring, and a connection before the close reports that are stamped no earlier.
pub open spec fn streamed_drain(
    manager: Option<ManagerView>,
    packets: Seq<DnsPacketEvent>,
    connects: Seq<(ConnectEvent, String)>,
    closes: Seq<(SocketCloseEvent, String)>,
    names_now: Timestamp,
    stream: StreamView,
    cache: CacheView,
    lines: Seq<Seq<char>>,
    stream_after: StreamView,
    cache_after: CacheView,
) -> bool {
    exists|order: Seq<usize>|
        {
            &&& #[trigger] is_stamp_order(order, stream_keys(connects, closes))
            &&& streamed_records(
                manager,
                connects,
                closes,
                order,
                names_now,
                stream,
                after_packets(cache, packets, names_now),
                lines,
                stream_after,
                cache_after,
            )
        }
}

impl Stream {
    /// The lines for what the ring buffers held: learns from every packet, then
    /// takes connections and close reports, each with its time as text and in
    /// the order of their ring, and a connection before the close reports that
    /// are stamped no earlier. Names are learnt and looked up at `names_now`.
    pub fn take_drain_at(
        &mut self,
        manager: Option<&DockerManager>,
        cache: &mut DnsCache,
        packets: &Vec<DnsPacketEvent>,
        connects: &Vec<(ConnectEvent, String)>,
        closes: &Vec<(SocketCloseEvent, String)>,
        names_now: Timestamp,
    ) -> (lines: Vec<String>)
        requires
            old(cache).wf(),
            old(cache)@.capacity <= max_capacity(),
        ensures
            final(cache).wf(),
            streamed_drain(
                known_containers(manager),
                packets@,
                connects@,
                closes@,
                names_now,
                old(self)@,
                old(cache)@,
                texts(lines@),
                final(self)@,
                final(cache)@,
            ),
    {
        learn_from_packets(cache, packets, names_now);
        let ghost learnt = cache@;
        let mut close_stamps: Vec<u64> = Vec::new();
        let ghost all = closes@.map_values(|c: (SocketCloseEvent, String)| c.0.timestamp_ns);
        for j in 0..closes.len()
            invariant
                all == closes@.map_values(|c: (SocketCloseEvent, String)| c.0.timestamp_ns),
                close_stamps@ == all.take(j as int),
        {
            close_stamps.push(closes[j].0.timestamp_ns);
            assert(close_stamps@ =~= all.take(j + 1));
        }
        assert(close_stamps@ =~= all);
        let order = ring_order(&stamps_of(connects), &close_stamps);
        let mut lines: Vec<String> = Vec::new();
        assert(order@.take(0) =~= seq![]);
        assert(texts(lines@) =~= seq![]);
        for k in 0..order.len()
            invariant
                is_stamp_order(order@, stream_keys(connects@, closes@)),
                cache.wf(),
                streamed_records(
                    known_containers(manager),
                    connects@,
                    closes@,
                    order@.take(k as int),
                    names_now,
                    old(self)@,
                    learnt,
                    texts(lines@),
                    self@,
                    cache@,
                ),
        {
            let which: usize = order[k];
            let ghost mid = self@;
            let ghost mid_cache = cache@;
            let ghost before = texts(lines@);
            assert(order@.take(k + 1).drop_last() =~= order@.take(k as int));
            assert(order@.take(k + 1).last() == which);
            let line: Option<String> = if which < connects.len() {
                let one = &connects[which];
                self.take_connect_at(manager, cache, &one.0, one.1.as_str(), names_now)
            } else {
                let one = &closes[which - connects.len()];
                self.take_close_at(cache, &one.0, one.1.as_str(), names_now)
            };
            let ghost shown = text_of(line);
            assert(streamed_record(
                known_containers(manager),
                connects@,
                closes@,
                which as int,
                names_now,
                mid,
                mid_cache,
                shown,
                self@,
                cache@,
            ));
            if let Some(text) = line {
                lines.push(text);
            }
            assert(texts(lines@) =~= with_line(before, shown));
        }
        assert(order@.take(order@.len() as int) =~= order@);
        lines
    }

    /// The lines for what the ring buffers held, at the present moment.
    pub fn take_drain(
        &mut self,
        manager: Option<&DockerManager>,
        cache: &mut DnsCache,
        packets: &Vec<DnsPacketEvent>,
        connects: &Vec<(ConnectEvent, String)>,
        closes: &Vec<(SocketCloseEvent, String)>,
    ) -> (lines: Vec<String>)
        requires
            old(cache).wf(),
            old(cache)@.capacity <= max_capacity(),
        ensures
            final(cache).wf(),
            exists|names_now: Timestamp|
                names_now.can_be_present() && #[trigger] streamed_drain(
                    known_containers(manager),
                    packets@,
                    connects@,
                    closes@,
                    names_now,
                    old(self)@,
                    old(cache)@,
                    texts(lines@),
                    final(self)@,
                    final(cache)@,
                ),
    {
        let names_now = cache.now();
        self.take_drain_at(manager, cache, packets, connects, closes, names_now)
    }
}

/// Forgets a container that went down, and the names that were learnt in its
/// control group.
pub fn forget_container(
    manager: &mut DockerManager,
    cache: &mut DnsCache,
    container_id: &str,
) -> (stopped: Option<Stopped>)
    requires
        old(cache).wf(),
    ensures
        final(cache).wf(),
        final(manager)@ == old(manager)@.without(container_id@),
        match stopped {
            Some(s) => {
                &&& old(manager)@.ids.contains_key(container_id@)
                &&& s.cgroup_id == old(manager)@.ids[container_id@]
                &&& match s.info {
                    Some(info) => old(manager)@.lookup(s.cgroup_id) == Some(info@),
                    None => old(manager)@.lookup(s.cgroup_id) is None,
                }
                &&& final(cache)@ == old(cache)@.without(s.cgroup_id)
            },
            None => !old(manager)@.ids.contains_key(container_id@) && final(cache)@ == old(cache)@,
        },
{
    let stopped = manager.forget(container_id);
    if let Some(s) = &stopped {
        cache.evict_cgroup(s.cgroup_id);
    }
    stopped
}

// -------------------------------------------------------------------- laws

/// Host traffic is streamed on request only: without the request, a connection
/// of no known container prints nothing and changes nothing.
pub proof fn law_host_traffic_is_opt_in(
    manager: Option<ManagerView>,
    event: ConnectEvent,
    time: Seq<char>,
    names_now: Timestamp,
    stream: StreamView,
    cache: CacheView,
    line: Option<Seq<char>>,
    stream_after: StreamView,
    cache_after: CacheView,
)
    requires
        streamed_connect(
            manager,
            event,
            time,
            names_now,
            stream,
            cache,
            line,
            stream_after,
            cache_after,
        ),
    ensures
        ({
            let of_container = manager matches Some(m) && m.lookup(event.cgroup_id) is Some;
            &&& line is Some <==> of_container || stream.show_host
            &&& line is None ==> stream_after == stream && cache_after == cache
        }),
{
}

/// Every recorded connection shows, attributed: afterwards the feed has an
/// active row of it with its address. The row bears the name that its control
/// group knows the address by, if it knows one, and a row that is new to the
/// feed bears the container of its control group, or is marked as host traffic
/// where there is none.
pub proof fn law_connections_are_attributed(
    manager: Option<ManagerView>,
    event: ConnectEvent,
    time: Seq<char>,
    names_now: Timestamp,
    now: Timestamp,
    app: AppView,
    cache: CacheView,
    app_after: AppView,
    cache_after: CacheView,
)
    requires
        took_connect(
            manager,
            event,
            time,
            names_now,
            now,
            app,
            cache,
            app_after,
            cache_after,
        ),
    ensures
        exists|i: int|
            0 <= i < app_after.connections.len() && is_attributed_row(
                #[trigger] app_after.connections[i],
                manager,
                event,
                cache.own_answer(
                    event.cgroup_id,
                    recorded_address(event.ip_version, event.daddr@).spec_key(),
                    names_now,
                ),
                first_with_key(app.connections, key_of(event)) is None,
            ),
{
    let (container, domain, mid, item) = lemma_connect_steps(
        manager,
        event,
        time,
        names_now,
        now,
        app,
        cache,
        app_after,
        cache_after,
    );
    let who = origin_of(container, trim_nuls(utf8_lossy(event.comm@)));
    assert(mid.connections == app.connections);
    lemma_first_with_key(app.connections, key_of(event));
    assert(item@.key == key_of(event));
    assert(item@.origin == who);
    assert(item@.destination == destination_of(domain, event.proto, event.dport));
    assert(item@.dst_ip_str == event_endpoint(event));
    let after = app_after.connections;
    assert(after == feed_after_add(app.connections, app.max_connections, item, now));
    match first_with_key(app.connections, key_of(event)) {
        Some(i) => {
            assert(after[i] == refreshed(app.connections[i], item, now));
        },
        None => {
            let last = after.len() - 1;
            assert(after[last] == activated(item, now));
            assert(after[last].container_name@ == who.container_name);
        },
    }
}

/// Whether a row shows a recorded connection under the name that its own
/// control group knows, if it knows one, and, where the row is new, under its
/// container.
pub open spec fn is_attributed_row(
    row: ConnectionItem,
    manager: Option<ManagerView>,
    event: ConnectEvent,
    own_name: Option<Seq<char>>,
    new: bool,
) -> bool {
    &&& row.key@ == key_of(event)
    &&& row.status == ConnectionStatus::Active
    &&& row.dst_ip_str@ == event_endpoint(event)
    &&& own_name is Some ==> row.destination@ == destination_of(
        own_name,
        event.proto,
        event.dport,
    )
    &&& new ==> match manager {
        Some(m) => match m.lookup(event.cgroup_id) {
            Some(info) => row.is_docker && row.container_name@ == info.name,
            None => !row.is_docker && row.container_name@ == "[HOST]"@,
        },
        None => !row.is_docker && row.container_name@ == "[HOST]"@,
    }
}

} // verus!
