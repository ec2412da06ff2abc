//! The state behind the screen: the feed of connections, the list of
//! containers, and what keys do to them.

use crate::clock::{Clock, Timestamp};
use crate::text::{contains, lowercase, occurs_in, same_text, text_at_most, text_le, to_lowercase};
use std::collections::{HashMap, VecDeque};
use vstd::prelude::*;

verus! {

broadcast use vstd::std_specs::hash::group_hash_axioms;

/// How many connections the feed keeps at most, unless told otherwise.
pub const DEFAULT_MAX_CONNECTIONS: usize = 1000;

/// How long a connectionless socket stays active without traffic, in seconds.
pub const IDLE_SECS: u64 = 3;

// ------------------------------------------------------------------- types

#[derive(Clone, Copy, Debug, PartialEq, Eq, Structural)]
pub enum ConnectionStatus {
    Active,
    Closed,
}

/// A row of the feed.
#[derive(Clone, Debug)]
pub struct ConnectionItem {
    pub key: String,
    pub skaddr: u64,
    pub time_str: String,
    pub container_name: String,
    pub service: String,
    pub image: String,
    pub proto: String,
    pub destination: String,
    pub dst_ip_str: String,
    pub is_docker: bool,
    pub cgroup_id: u64,
    pub status: ConnectionStatus,
    pub closed_at: Option<Timestamp>,
    pub last_seen: Timestamp,
}

/// A row of the container list.
#[derive(Clone, Debug)]
pub struct ContainerItem {
    pub cgroup_id: u64,
    pub name: String,
    pub service: String,
    pub image: String,
    pub conn_count: u64,
    pub is_active: bool,
}

#[derive(Clone, Copy, Debug, PartialEq, Eq, Structural)]
pub enum FocusedPane {
    Containers,
    Connections,
}

/// Which row of a pane is selected, if any.
#[derive(Clone, Copy, Debug, PartialEq, Eq, Structural)]
pub struct Selection {
    pub selected: Option<usize>,
}

/// A key, as far as it means anything here.
#[derive(Clone, Copy, Debug, PartialEq, Eq, Structural)]
pub enum KeyCode {
    Esc,
    Enter,
    Backspace,
    Tab,
    Left,
    Right,
    Up,
    Down,
    Char(char),
    Other,
}

/// A key press.
#[derive(Clone, Copy, Debug, PartialEq, Eq, Structural)]
pub struct KeyEvent {
    pub code: KeyCode,
    /// Whether the control key was held down.
    pub control: bool,
}

/// The state behind the screen.
pub struct App {
    /// The feed, the newest row last.
    pub connections: VecDeque<ConnectionItem>,
    pub max_connections: usize,
    /// The containers by control group.
    pub containers: HashMap<u64, ContainerItem>,
    /// The containers in the order in which they are listed.
    pub sorted_containers: Vec<ContainerItem>,
    pub container_list_state: Selection,
    pub table_state: Selection,
    pub selected_cgroup_filter: Option<u64>,
    pub search_query: String,
    pub is_searching: bool,
    pub focused_pane: FocusedPane,
    pub show_host: bool,
    /// How long a closed connection stays in the feed, in seconds.
    pub grace_period: u64,
    pub total_conns: u64,
    pub running: bool,
    /// The clock that the moments in the feed are read on.
    pub clock: Clock,
}

/// What an `App` holds.
#[verifier::ext_equal]
pub struct AppView {
    pub connections: Seq<ConnectionItem>,
    pub max_connections: usize,
    pub containers: Map<u64, ContainerItem>,
    pub sorted_containers: Seq<ContainerItem>,
    pub container_list_state: Selection,
    pub table_state: Selection,
    pub selected_cgroup_filter: Option<u64>,
    pub search_query: Seq<char>,
    pub is_searching: bool,
    pub focused_pane: FocusedPane,
    pub show_host: bool,
    pub grace_period: u64,
    pub total_conns: u64,
    pub running: bool,
    pub clock: Clock,
}

impl View for App {
    type V = AppView;

    open spec fn view(&self) -> AppView {
        AppView {
            connections: self.connections@,
            max_connections: self.max_connections,
            containers: self.containers@,
            sorted_containers: self.sorted_containers@,
            container_list_state: self.container_list_state,
            table_state: self.table_state,
            selected_cgroup_filter: self.selected_cgroup_filter,
            search_query: self.search_query@,
            is_searching: self.is_searching,
            focused_pane: self.focused_pane,
            show_host: self.show_host,
            grace_period: self.grace_period,
            total_conns: self.total_conns,
            running: self.running,
            clock: self.clock,
        }
    }
}

// ------------------------------------------------------------ the feed, as a model

/// Where the first row with this key is.
pub open spec fn first_with_key(conns: Seq<ConnectionItem>, key: Seq<char>) -> Option<int>
    decreases conns.len(),
{
    if conns.len() == 0 {
        None
    } else {
        match first_with_key(conns.drop_last(), key) {
            Some(i) => Some(i),
            None => if conns.last().key@ == key {
                Some(conns.len() - 1)
            } else {
                None
            },
        }
    }
}

/// A row as it enters the feed at `now`.
pub open spec fn activated(item: ConnectionItem, now: Timestamp) -> ConnectionItem {
    ConnectionItem {
        status: ConnectionStatus::Active,
        closed_at: None,
        last_seen: now,
        ..item
    }
}

/// A row of the feed after its socket was seen again at `now`, as `item`.
pub open spec fn refreshed(
    existing: ConnectionItem,
    item: ConnectionItem,
    now: Timestamp,
) -> ConnectionItem {
    ConnectionItem {
        status: ConnectionStatus::Active,
        closed_at: None,
        last_seen: now,
        time_str: item.time_str,
        destination: item.destination,
        dst_ip_str: item.dst_ip_str,
        ..existing
    }
}

/// The feed after `item` was seen at `now`: the row with its key is refreshed,
/// or else it becomes the newest row and the oldest one leaves a full feed.
pub open spec fn feed_after_add(
    conns: Seq<ConnectionItem>,
    max: usize,
    item: ConnectionItem,
    now: Timestamp,
) -> Seq<ConnectionItem> {
    match first_with_key(conns, item.key@) {
        Some(i) => conns.update(i, refreshed(conns[i], item, now)),
        None => if conns.len() >= max && conns.len() > 0 {
            conns.drop_first().push(activated(item, now))
        } else {
            conns.push(activated(item, now))
        },
    }
}

/// Whether a row is the socket that a close report names: solely by socket
/// address, and by destination only where the report has none.
pub open spec fn is_target(item: ConnectionItem, skaddr: u64, dst_ip: Seq<char>) -> bool {
    if skaddr != 0 {
        item.skaddr == skaddr
    } else {
        item.dst_ip_str@ == dst_ip
    }
}

/// A row after its socket was reported closed at `now`.
pub open spec fn closed(item: ConnectionItem, now: Timestamp) -> ConnectionItem {
    if item.status == ConnectionStatus::Active {
        ConnectionItem { status: ConnectionStatus::Closed, closed_at: Some(now), ..item }
    } else {
        item
    }
}

/// A row after a close report.
pub open spec fn row_after_close(
    item: ConnectionItem,
    skaddr: u64,
    dst_ip: Seq<char>,
    now: Timestamp,
) -> ConnectionItem {
    if is_target(item, skaddr, dst_ip) {
        closed(item, now)
    } else {
        item
    }
}

/// The feed after a close report.
pub open spec fn feed_after_close(
    conns: Seq<ConnectionItem>,
    skaddr: u64,
    dst_ip: Seq<char>,
    now: Timestamp,
) -> Seq<ConnectionItem> {
    Seq::new(conns.len(), |i: int| row_after_close(conns[i], skaddr, dst_ip, now))
}

/// Whether a protocol has no connections that could be seen to close.
pub open spec fn connectionless(proto: Seq<char>) -> bool {
    proto == "UDP"@ || proto == "ICMP"@ || proto == "ICMPv6"@
}

/// A row after the check for silence that `now` begins and `later` is the
/// moment of: a connectionless socket that was silent for too long is closed,
/// as of `now`.
pub open spec fn row_after_silence(
    item: ConnectionItem,
    now: Timestamp,
    later: Timestamp,
) -> ConnectionItem {
    if connectionless(item.proto@) && !item.last_seen.within(IDLE_SECS as nat, later) {
        closed(item, now)
    } else {
        item
    }
}

/// Whether a row outlives pruning at `now`.
pub open spec fn outlives(item: ConnectionItem, grace: u64, now: Timestamp) -> bool {
    match (item.status, item.closed_at) {
        (ConnectionStatus::Closed, Some(at)) => at.within(grace as nat, now),
        _ => true,
    }
}

/// The feed after pruning that began at `now`, when ages were read at `later`.
pub open spec fn feed_after_prune(
    conns: Seq<ConnectionItem>,
    grace: u64,
    now: Timestamp,
    later: Timestamp,
) -> Seq<ConnectionItem>
    decreases conns.len(),
{
    if conns.len() == 0 {
        seq![]
    } else {
        let before = feed_after_prune(conns.drop_last(), grace, now, later);
        let row = row_after_silence(conns.last(), now, later);
        if outlives(row, grace, later) {
            before.push(row)
        } else {
            before
        }
    }
}

// ------------------------------------------------------ the container list, as a model

/// The order of the container list: active ones first, then those with more
/// connections, then by name.
pub open spec fn listed_before(a: ContainerItem, b: ContainerItem) -> bool {
    if a.is_active != b.is_active {
        a.is_active
    } else if a.conn_count != b.conn_count {
        a.conn_count > b.conn_count
    } else {
        text_le(a.name@, b.name@)
    }
}

/// Whether `list` is in the order of the container list.
pub open spec fn in_order(list: Seq<ContainerItem>) -> bool {
    forall|i: int, j: int|
        0 <= i < j < list.len() ==> listed_before(#[trigger] list[i], #[trigger] list[j])
}

/// Whether `list` holds the values of `map` under the keys `ids`, one for one.
pub open spec fn listed_as(
    map: Map<u64, ContainerItem>,
    ids: Seq<u64>,
    list: Seq<ContainerItem>,
) -> bool {
    &&& ids.len() == list.len()
    &&& ids.no_duplicates()
    &&& ids.to_set() == map.dom()
    &&& forall|i: int| 0 <= i < list.len() ==> #[trigger] list[i] == map[ids[i]]
}

/// Whether `list` holds the values of `map`, each once, in the order of the
/// container list. Containers that the order does not tell apart may stand
/// either way round.
pub open spec fn is_listing(map: Map<u64, ContainerItem>, list: Seq<ContainerItem>) -> bool {
    &&& in_order(list)
    &&& exists|ids: Seq<u64>| #[trigger] listed_as(map, ids, list)
}

/// The containers after a connection of `cgroup_id` was counted.
pub open spec fn containers_after_count(
    map: Map<u64, ContainerItem>,
    cgroup_id: u64,
) -> Map<u64, ContainerItem> {
    if map.contains_key(cgroup_id) {
        map.insert(
            cgroup_id,
            ContainerItem {
                conn_count: (map[cgroup_id].conn_count + 1) as u64,
                ..map[cgroup_id]
            },
        )
    } else {
        map
    }
}

/// The container that `cgroup_id` has after an update: its counter goes on.
pub open spec fn updated_container(
    map: Map<u64, ContainerItem>,
    cgroup_id: u64,
    name: String,
    service: String,
    image: String,
) -> ContainerItem {
    if map.contains_key(cgroup_id) {
        ContainerItem { name, service, image, is_active: true, ..map[cgroup_id] }
    } else {
        ContainerItem { cgroup_id, name, service, image, conn_count: 0, is_active: true }
    }
}

// -------------------------------------------------------- filters, as a model

/// The texts of a row that a search looks at, in lower case.
pub open spec fn searched_texts(item: ConnectionItem) -> Seq<Seq<char>> {
    seq![
        lowercase(item.container_name@),
        lowercase(item.service@),
        lowercase(item.destination@),
        lowercase(item.dst_ip_str@),
        lowercase(item.proto@),
        lowercase(item.image@),
    ]
}

/// Whether `q` occurs in one of `texts`.
pub open spec fn occurs_in_any(q: Seq<char>, texts: Seq<Seq<char>>) -> bool {
    exists|i: int| 0 <= i < texts.len() && occurs_in(q, #[trigger] texts[i])
}

impl AppView {
    /// Whether the filters let a row through: host traffic only when it is
    /// shown, only the container that the feed is locked to, and only rows in
    /// which the search text occurs.
    pub open spec fn shows(self, item: ConnectionItem) -> bool {
        &&& self.show_host || item.is_docker
        &&& self.selected_cgroup_filter is Some ==> item.cgroup_id
            == self.selected_cgroup_filter->0
        &&& lowercase(self.search_query).len() > 0 ==> occurs_in_any(
            lowercase(self.search_query),
            searched_texts(item),
        )
    }

    /// The rows of `conns` that the filters let through, the newest first.
    pub open spec fn shown_of(self, conns: Seq<ConnectionItem>) -> Seq<ConnectionItem>
        decreases conns.len(),
    {
        if conns.len() == 0 {
            seq![]
        } else {
            let older = self.shown_of(conns.drop_last());
            if self.shows(conns.last()) {
                seq![conns.last()] + older
            } else {
                older
            }
        }
    }

    /// The rows on show, the newest first.
    pub open spec fn shown(self) -> Seq<ConnectionItem> {
        self.shown_of(self.connections)
    }
}

// ----------------------------------------------------------- keys, as a model

/// The selection one row up.
pub open spec fn moved_up(selection: Selection) -> Selection {
    Selection {
        selected: Some(
            match selection.selected {
                Some(i) => if i > 0 {
                    (i - 1) as usize
                } else {
                    0
                },
                None => 0,
            },
        ),
    }
}

/// The selection one row down in a list of `len` rows, which is not empty.
pub open spec fn moved_down(selection: Selection, len: nat) -> Selection {
    Selection {
        selected: Some(
            match selection.selected {
                Some(i) => if i + 1 < len {
                    (i + 1) as usize
                } else {
                    (len - 1) as usize
                },
                None => 0,
            },
        ),
    }
}

impl AppView {
    /// The state after a key while the search bar is open.
    pub open spec fn after_search_key(self, code: KeyCode) -> AppView {
        match code {
            KeyCode::Esc | KeyCode::Enter => AppView { is_searching: false, ..self },
            KeyCode::Backspace => if self.search_query.len() > 0 {
                AppView { search_query: self.search_query.drop_last(), ..self }
            } else {
                self
            },
            KeyCode::Char(c) => AppView { search_query: self.search_query.push(c), ..self },
            _ => self,
        }
    }

    /// The state after a key that moves up.
    pub open spec fn after_up(self) -> AppView {
        match self.focused_pane {
            FocusedPane::Containers => if self.sorted_containers.len() > 0 {
                AppView { container_list_state: moved_up(self.container_list_state), ..self }
            } else {
                self
            },
            FocusedPane::Connections => AppView {
                table_state: moved_up(self.table_state),
                ..self
            },
        }
    }

    /// The state after a key that moves down.
    pub open spec fn after_down(self) -> AppView {
        match self.focused_pane {
            FocusedPane::Containers => if self.sorted_containers.len() > 0 {
                AppView {
                    container_list_state: moved_down(
                        self.container_list_state,
                        self.sorted_containers.len(),
                    ),
                    ..self
                }
            } else {
                self
            },
            FocusedPane::Connections => if self.shown().len() > 0 {
                AppView { table_state: moved_down(self.table_state, self.shown().len()), ..self }
            } else {
                self
            },
        }
    }

    /// The state after Enter: in the container list, the feed is locked to the
    /// selected container, or released when it was locked to it.
    pub open spec fn after_enter(self) -> AppView {
        match self.container_list_state.selected {
            Some(i) => if self.focused_pane == FocusedPane::Containers && i
                < self.sorted_containers.len() {
                let target = self.sorted_containers[i as int].cgroup_id;
                AppView {
                    selected_cgroup_filter: if self.selected_cgroup_filter == Some(target) {
                        None
                    } else {
                        Some(target)
                    },
                    ..self
                }
            } else {
                self
            },
            None => self,
        }
    }

    /// The state after a key while the search bar is closed.
    pub open spec fn after_command_key(self, key: KeyEvent) -> AppView {
        match key.code {
            KeyCode::Tab => AppView {
                focused_pane: match self.focused_pane {
                    FocusedPane::Containers => FocusedPane::Connections,
                    FocusedPane::Connections => FocusedPane::Containers,
                },
                ..self
            },
            KeyCode::Left => AppView { focused_pane: FocusedPane::Containers, ..self },
            KeyCode::Right => AppView { focused_pane: FocusedPane::Connections, ..self },
            KeyCode::Up => self.after_up(),
            KeyCode::Down => self.after_down(),
            KeyCode::Enter => self.after_enter(),
            KeyCode::Esc => AppView {
                selected_cgroup_filter: None,
                search_query: Seq::empty(),
                ..self
            },
            KeyCode::Char(c) => if c == 'q' || (c == 'c' && key.control) {
                AppView { running: false, ..self }
            } else if c == '/' {
                AppView { is_searching: true, ..self }
            } else if c == 'a' {
                AppView { show_host: !self.show_host, ..self }
            } else if c == 'c' {
                AppView { connections: Seq::empty(), ..self }
            } else if c == 'k' {
                self.after_up()
            } else if c == 'j' {
                self.after_down()
            } else {
                self
            },
            _ => self,
        }
    }

    /// The state after a key.
    pub open spec fn after_key(self, key: KeyEvent) -> AppView {
        if self.is_searching {
            self.after_search_key(key.code)
        } else {
            self.after_command_key(key)
        }
    }

    /// Whether the row after the one selected in the pane in focus can be
    /// numbered.
    pub open spec fn can_move_down(self) -> bool {
        match self.focused_pane {
            FocusedPane::Containers => self.container_list_state.selected != Some(usize::MAX),
            FocusedPane::Connections => self.table_state.selected != Some(usize::MAX),
        }
    }

    /// Whether a key asks to move down.
    pub open spec fn moves_down(self, key: KeyEvent) -> bool {
        !self.is_searching && (key.code == KeyCode::Down || key.code == KeyCode::Char('j'))
    }
}

// ------------------------------------------------------------------ helpers

/// The first row that is found is the first one: rows before it have other
/// keys.
pub proof fn lemma_first_with_key(conns: Seq<ConnectionItem>, key: Seq<char>)
    ensures
        match first_with_key(conns, key) {
            Some(i) => {
                &&& 0 <= i < conns.len()
                &&& conns[i].key@ == key
                &&& forall|j: int| 0 <= j < i ==> (#[trigger] conns[j]).key@ != key
            },
            None => forall|j: int| 0 <= j < conns.len() ==> (#[trigger] conns[j]).key@ != key,
        },
    decreases conns.len(),
{
    if conns.len() > 0 {
        lemma_first_with_key(conns.drop_last(), key);
        assert(forall|j: int| 0 <= j < conns.len() - 1 ==> conns.drop_last()[j] == conns[j]);
    }
}

/// Where the first row with this key is.
fn find_key(conns: &VecDeque<ConnectionItem>, key: &String) -> (found: Option<usize>)
    ensures
        match found {
            Some(i) => first_with_key(conns@, key@) == Some(i as int) && i < conns@.len(),
            None => first_with_key(conns@, key@) is None,
        },
{
    let mut i: usize = 0;
    while i < conns.len()
        invariant
            i <= conns@.len(),
            forall|j: int| 0 <= j < i ==> (#[trigger] conns@[j]).key@ != key@,
        decreases conns@.len() - i,
    {
        if conns[i].key == *key {
            proof {
                lemma_first_with_key(conns@, key@);
                assert(conns@[i as int].key@ == key@);
            }
            return Some(i);
        }
        i += 1;
    }
    proof {
        lemma_first_with_key(conns@, key@);
    }
    None
}

fn copy_of(item: &ContainerItem) -> (copy: ContainerItem)
    ensures
        copy == *item,
{
    ContainerItem {
        cgroup_id: item.cgroup_id,
        name: item.name.clone(),
        service: item.service.clone(),
        image: item.image.clone(),
        conn_count: item.conn_count,
        is_active: item.is_active,
    }
}

fn goes_before(a: &ContainerItem, b: &ContainerItem) -> (yes: bool)
    ensures
        yes == listed_before(*a, *b),
{
    if a.is_active != b.is_active {
        a.is_active
    } else if a.conn_count != b.conn_count {
        a.conn_count > b.conn_count
    } else {
        text_at_most(a.name.as_str(), b.name.as_str())
    }
}

/// Any two containers are ordered one way or the other.
pub proof fn lemma_listed_before_total(a: ContainerItem, b: ContainerItem)
    ensures
        listed_before(a, b) || listed_before(b, a),
{
    crate::text::lemma_text_le_total(a.name@, b.name@);
}

/// The order of the container list is transitive.
pub proof fn lemma_listed_before_transitive(a: ContainerItem, b: ContainerItem, c: ContainerItem)
    requires
        listed_before(a, b),
        listed_before(b, c),
    ensures
        listed_before(a, c),
{
    if a.is_active == b.is_active && b.is_active == c.is_active && a.conn_count == b.conn_count
        && b.conn_count == c.conn_count {
        crate::text::lemma_text_le_transitive(a.name@, b.name@, c.name@);
    }
}

/// Puts `item` at its place in an ordered list; returns that place.
fn insert_in_order(list: &mut Vec<ContainerItem>, item: ContainerItem) -> (at: usize)
    requires
        in_order(old(list)@),
    ensures
        in_order(final(list)@),
        at <= old(list)@.len(),
        final(list)@ == old(list)@.insert(at as int, item),
{
    let mut at: usize = 0;
    while at < list.len() && goes_before(&list[at], &item)
        invariant
            at <= list@.len(),
            forall|j: int| 0 <= j < at ==> listed_before(#[trigger] list@[j], item),
        decreases list@.len() - at,
    {
        at += 1;
    }
    proof {
        assert forall|j: int| at <= j < list@.len() implies listed_before(
            item,
            #[trigger] list@[j],
        ) by {
            lemma_listed_before_total(item, list@[at as int]);
            if j > at {
                lemma_listed_before_transitive(item, list@[at as int], list@[j]);
            }
        }
    }
    list.insert(at, item);
    at
}

/// The values of `map` in the order of the container list.
fn listing_of(map: &HashMap<u64, ContainerItem>) -> (list: Vec<ContainerItem>)
    ensures
        is_listing(map@, list@),
{
    let mut list: Vec<ContainerItem> = Vec::new();
    let mut walked: Vec<u64> = Vec::new();
    let ghost mut ids: Seq<u64> = seq![];
    for id in it: map.keys()
        invariant
            walked@ == it.seq().unref().take(it.index() as int),
            walked@.no_duplicates(),
            it.seq().unref().to_set() == map@.dom(),
            it.index() == it.seq().len() ==> walked@ == it.seq().unref(),
    {
        walked.push(*id);
    }
    for i in 0..walked.len()
        invariant
            walked@.no_duplicates(),
            walked@.to_set() == map@.dom(),
            in_order(list@),
            ids.len() == list@.len(),
            ids.no_duplicates(),
            ids.to_set() == walked@.take(i as int).to_set(),
            forall|j: int| 0 <= j < list@.len() ==> #[trigger] list@[j] == map@[ids[j]],
    {
        let id: u64 = walked[i];
        assert(walked@.to_set().contains(id));
        if let Some(item) = map.get(&id) {
            let ghost before = list@;
            let at = insert_in_order(&mut list, copy_of(item));
            proof {
                let grown = ids.insert(at as int, id);
                assert(!ids.contains(id)) by {
                    if ids.contains(id) {
                        assert(ids.to_set().contains(id));
                        let j = choose|j: int|
                            0 <= j < i && walked@.take(i as int)[j] == id;
                        assert(walked@[j] == walked@[i as int]);
                    }
                }
                assert(grown.no_duplicates());
                assert forall|k: u64| grown.to_set().contains(k) <==> walked@.take(
                    i + 1,
                ).to_set().contains(k) by {
                    let old_walk = walked@.take(i as int);
                    let new_walk = walked@.take(i + 1);
                    if grown.contains(k) && k != id {
                        let j = choose|j: int| 0 <= j < grown.len() && grown[j] == k;
                        let m = if j < at {
                            j
                        } else {
                            j - 1
                        };
                        assert(ids[m] == k);
                        assert(ids.to_set().contains(k));
                        let w = choose|w: int| 0 <= w < old_walk.len() && old_walk[w] == k;
                        assert(new_walk[w] == k);
                    }
                    if k == id {
                        assert(grown[at as int] == k);
                        assert(new_walk[i as int] == k);
                    }
                    if new_walk.contains(k) && k != id {
                        let w = choose|w: int| 0 <= w < new_walk.len() && new_walk[w] == k;
                        assert(old_walk[w] == k);
                        assert(ids.to_set().contains(k));
                        let j = choose|j: int| 0 <= j < ids.len() && ids[j] == k;
                        if j < at {
                            assert(grown[j] == k);
                        } else {
                            assert(grown[j + 1] == k);
                        }
                    }
                }
                assert(grown.to_set() =~= walked@.take(i + 1).to_set());
                ids = grown;
            }
        }
    }
    assert(walked@.take(walked@.len() as int) =~= walked@);
    assert(listed_as(map@, ids, list@));
    list
}

// --------------------------------------------------------------------- app

impl AppView {
    /// Whether the state after `item` was seen at `now` is `after`.
    pub open spec fn added(self, item: ConnectionItem, now: Timestamp, after: AppView) -> bool {
        &&& after == (AppView {
            total_conns: (self.total_conns + 1) as u64,
            containers: containers_after_count(self.containers, item.cgroup_id),
            connections: feed_after_add(self.connections, self.max_connections, item, now),
            sorted_containers: after.sorted_containers,
            ..self
        })
        &&& is_listing(after.containers, after.sorted_containers)
    }

    /// Whether the counters have room for one more connection of `cgroup_id`.
    pub open spec fn can_count(self, cgroup_id: u64) -> bool {
        &&& self.total_conns < u64::MAX
        &&& self.containers.contains_key(cgroup_id) ==> self.containers[cgroup_id].conn_count
            < u64::MAX
    }

    /// The state after a close report at `now`.
    pub open spec fn after_close(self, skaddr: u64, dst_ip: Seq<char>, now: Timestamp) -> AppView {
        AppView { connections: feed_after_close(self.connections, skaddr, dst_ip, now), ..self }
    }

    /// The state after pruning that began at `now`, when ages were read at
    /// `later`.
    pub open spec fn after_prune(self, now: Timestamp, later: Timestamp) -> AppView {
        AppView {
            connections: feed_after_prune(self.connections, self.grace_period, now, later),
            ..self
        }
    }
}

impl App {
    /// The state at the start: nothing seen yet, the feed in focus and the
    /// first container selected.
    pub fn new(show_host: bool, grace_period_secs: u64) -> (app: Self)
        ensures
            app@ == (AppView {
                connections: Seq::empty(),
                max_connections: DEFAULT_MAX_CONNECTIONS,
                containers: Map::empty(),
                sorted_containers: Seq::empty(),
                container_list_state: Selection { selected: Some(0) },
                table_state: Selection { selected: None },
                selected_cgroup_filter: None,
                search_query: Seq::empty(),
                is_searching: false,
                focused_pane: FocusedPane::Connections,
                show_host,
                grace_period: grace_period_secs,
                total_conns: 0,
                running: true,
                clock: app.clock,
            }),
    {
        App {
            connections: VecDeque::with_capacity(DEFAULT_MAX_CONNECTIONS),
            max_connections: DEFAULT_MAX_CONNECTIONS,
            containers: HashMap::new(),
            sorted_containers: Vec::new(),
            container_list_state: Selection { selected: Some(0) },
            table_state: Selection { selected: None },
            selected_cgroup_filter: None,
            search_query: String::new(),
            is_searching: false,
            focused_pane: FocusedPane::Connections,
            show_host,
            grace_period: grace_period_secs,
            total_conns: 0,
            running: true,
            clock: Clock::new(),
        }
    }

    /// Takes a connection that was seen at `now` into the feed.
    pub fn add_connection_at(&mut self, item: ConnectionItem, now: Timestamp)
        requires
            old(self)@.can_count(item.cgroup_id),
        ensures
            old(self)@.added(item, now, final(self)@),
    {
        let ghost before = self@;
        self.total_conns = self.total_conns + 1;
        if let Some(mut c) = self.containers.remove(&item.cgroup_id) {
            c.conn_count = c.conn_count + 1;
            self.containers.insert(item.cgroup_id, c);
        }
        assert(self.containers@ =~= containers_after_count(before.containers, item.cgroup_id));
        match find_key(&self.connections, &item.key) {
            Some(i) => {
                if let Some(mut existing) = self.connections.remove(i) {
                    existing.status = ConnectionStatus::Active;
                    existing.closed_at = None;
                    existing.last_seen = now;
                    existing.time_str = item.time_str;
                    existing.destination = item.destination;
                    existing.dst_ip_str = item.dst_ip_str;
                    self.connections.insert(i, existing);
                }
            },
            None => {
                if self.connections.len() >= self.max_connections {
                    let _ = self.connections.pop_front();
                }
                let mut item = item;
                item.status = ConnectionStatus::Active;
                item.closed_at = None;
                item.last_seen = now;
                self.connections.push_back(item);
            },
        }
        assert(self.connections@ =~= feed_after_add(
            before.connections,
            before.max_connections,
            item,
            now,
        ));
        self.rebuild_sorted_containers();
    }

    /// Takes a connection that was seen just now into the feed.
    pub fn add_connection(&mut self, item: ConnectionItem)
        requires
            old(self)@.can_count(item.cgroup_id),
        ensures
            exists|now: Timestamp|
                now.can_be_present() && #[trigger] old(self)@.added(item, now, final(self)@),
    {
        let now = self.clock.now();
        self.add_connection_at(item, now);
    }

    /// Marks the sockets that a close report names as closed at `now`.
    pub fn close_connection_at(&mut self, skaddr: u64, dst_ip_str: &str, now: Timestamp)
        ensures
            final(self)@ == old(self)@.after_close(skaddr, dst_ip_str@, now),
    {
        let ghost before = self.connections@;
        let n: usize = self.connections.len();
        for i in 0..n
            invariant
                n == before.len(),
                self@ == (AppView { connections: self.connections@, ..old(self)@ }),
                self.connections@.len() == n,
                forall|j: int|
                    0 <= j < n ==> #[trigger] self.connections@[j] == (if j < i {
                        row_after_close(before[j], skaddr, dst_ip_str@, now)
                    } else {
                        before[j]
                    }),
        {
            if let Some(mut item) = self.connections.remove(i) {
                let matched: bool = if skaddr != 0 {
                    item.skaddr == skaddr
                } else {
                    same_text(item.dst_ip_str.as_str(), dst_ip_str)
                };
                if matched && item.status == ConnectionStatus::Active {
                    item.status = ConnectionStatus::Closed;
                    item.closed_at = Some(now);
                }
                self.connections.insert(i, item);
            }
        }
        assert(self.connections@ =~= feed_after_close(before, skaddr, dst_ip_str@, now));
    }

    /// Marks the sockets that a close report names as closed just now.
    pub fn close_connection(&mut self, skaddr: u64, dst_ip_str: &str)
        ensures
            exists|now: Timestamp|
                now.can_be_present() && final(self)@ == #[trigger] old(self)@.after_close(
                    skaddr,
                    dst_ip_str@,
                    now,
                ),
    {
        let now = self.clock.now();
        self.close_connection_at(skaddr, dst_ip_str, now);
    }

    /// Closes connectionless sockets that were silent for too long, as of `now`,
    /// then drops the rows that were closed longer ago than the grace period.
    /// Ages are read at `later`.
    pub fn prune_expired_at(&mut self, now: Timestamp, later: Timestamp)
        ensures
            final(self)@ == old(self)@.after_prune(now, later),
    {
        let ghost before = self.connections@;
        let n: usize = self.connections.len();
        let mut kept: VecDeque<ConnectionItem> = VecDeque::new();
        assert(before.take(0) =~= seq![]);
        for i in 0..n
            invariant
                n == before.len(),
                self@ == (AppView { connections: self.connections@, ..old(self)@ }),
                self.connections@ == before.skip(i as int),
                kept@ == feed_after_prune(before.take(i as int), self.grace_period, now, later),
        {
            assert(before.take(i + 1).drop_last() =~= before.take(i as int));
            if let Some(mut item) = self.connections.pop_front() {
                let idle_kind: bool = same_text(item.proto.as_str(), "UDP") || same_text(
                    item.proto.as_str(),
                    "ICMP",
                ) || same_text(item.proto.as_str(), "ICMPv6");
                if item.status == ConnectionStatus::Active && idle_kind
                    && !item.last_seen.is_within(IDLE_SECS, later) {
                    item.status = ConnectionStatus::Closed;
                    item.closed_at = Some(now);
                }
                assert(item == row_after_silence(before[i as int], now, later));
                let stays: bool = match (item.status, item.closed_at) {
                    (ConnectionStatus::Closed, Some(at)) => at.is_within(self.grace_period, later),
                    _ => true,
                };
                if stays {
                    kept.push_back(item);
                }
            }
        }
        assert(before.take(n as int) =~= before);
        self.connections = kept;
    }

    /// Closes connectionless sockets that were silent for too long, then drops
    /// the rows that were closed longer ago than the grace period.
    pub fn prune_expired(&mut self)
        ensures
            exists|now: Timestamp, later: Timestamp|
                now.can_be_present() && now.nanos <= later.nanos && final(self)@
                    == #[trigger] old(self)@.after_prune(now, later),
    {
        let now = self.clock.now();
        let later = self.clock.now_after(now);
        self.prune_expired_at(now, later);
    }

    /// Takes in what is known of a container: it is active, and its counter of
    /// connections goes on.
    pub fn update_container(
        &mut self,
        cgroup_id: u64,
        name: String,
        service: String,
        image: String,
    )
        ensures
            final(self)@ == (AppView {
                containers: old(self)@.containers.insert(
                    cgroup_id,
                    updated_container(old(self)@.containers, cgroup_id, name, service, image),
                ),
                sorted_containers: final(self)@.sorted_containers,
                ..old(self)@
            }),
            is_listing(final(self)@.containers, final(self)@.sorted_containers),
    {
        let ghost before = self@;
        let item = match self.containers.remove(&cgroup_id) {
            Some(c) => ContainerItem {
                cgroup_id: c.cgroup_id,
                name,
                service,
                image,
                conn_count: c.conn_count,
                is_active: true,
            },
            None => ContainerItem {
                cgroup_id,
                name,
                service,
                image,
                conn_count: 0,
                is_active: true,
            },
        };
        self.containers.insert(cgroup_id, item);
        assert(self.containers@ =~= before.containers.insert(
            cgroup_id,
            updated_container(before.containers, cgroup_id, name, service, image),
        ));
        self.rebuild_sorted_containers();
    }

    /// Lists the containers anew.
    fn rebuild_sorted_containers(&mut self)
        ensures
            final(self)@ == (AppView {
                sorted_containers: final(self)@.sorted_containers,
                ..old(self)@
            }),
            is_listing(final(self)@.containers, final(self)@.sorted_containers),
    {
        self.sorted_containers = listing_of(&self.containers);
    }

    /// The rows that the filters let through, the newest first.
    pub fn filtered_connections(&self) -> (rows: Vec<&ConnectionItem>)
        ensures
            rows@.unref() == self@.shown(),
            lowercase(self@.search_query).len() == 0 <==> self@.search_query.len() == 0,
    {
        let q = to_lowercase(self.search_query.as_str());
        let searching: bool = q.as_str().unicode_len() > 0;
        let mut rows: Vec<&ConnectionItem> = Vec::new();
        let mut n: usize = self.connections.len();
        assert(self.connections@.take(n as int) =~= self.connections@);
        assert(rows@.unref() + self@.shown_of(self.connections@.take(n as int)) =~= self@.shown());
        while n > 0
            invariant
                n <= self.connections@.len(),
                q@ == lowercase(self@.search_query),
                searching == (q@.len() > 0),
                rows@.unref() + self@.shown_of(self.connections@.take(n as int)) == self@.shown(),
            decreases n,
        {
            let item = &self.connections[n - 1];
            let mut visible: bool = self.show_host || item.is_docker;
            if let Some(cg) = self.selected_cgroup_filter {
                if item.cgroup_id != cg {
                    visible = false;
                }
            }
            if searching && !any_contains(&lowered_texts(item), q.as_str()) {
                visible = false;
            }
            assert(visible == self@.shows(*item));
            let ghost conns = self.connections@.take(n as int);
            let ghost before = rows@.unref();
            assert(conns.drop_last() =~= self.connections@.take(n - 1));
            if visible {
                rows.push(item);
                assert(rows@.unref() =~= before.push(*item));
                assert(rows@.unref() + self@.shown_of(conns.drop_last()) =~= before
                    + self@.shown_of(conns));
            }
            n -= 1;
        }
        assert(self.connections@.take(0) =~= seq![]);
        assert(rows@.unref() =~= self@.shown());
        rows
    }

    fn move_up(&mut self)
        ensures
            final(self)@ == old(self)@.after_up(),
    {
        match self.focused_pane {
            FocusedPane::Containers => {
                if self.sorted_containers.len() > 0 {
                    self.container_list_state = self.container_list_state.up();
                }
            },
            FocusedPane::Connections => {
                self.table_state = self.table_state.up();
            },
        }
    }

    fn move_down(&mut self)
        requires
            old(self)@.can_move_down(),
        ensures
            final(self)@ == old(self)@.after_down(),
    {
        match self.focused_pane {
            FocusedPane::Containers => {
                let len: usize = self.sorted_containers.len();
                if len > 0 {
                    self.container_list_state = self.container_list_state.down(len);
                }
            },
            FocusedPane::Connections => {
                let len: usize = self.filtered_connections().len();
                if len > 0 {
                    self.table_state = self.table_state.down(len);
                }
            },
        }
    }

    fn toggle_lock(&mut self)
        ensures
            final(self)@ == old(self)@.after_enter(),
    {
        if self.focused_pane == FocusedPane::Containers {
            if let Some(i) = self.container_list_state.selected {
                if i < self.sorted_containers.len() {
                    let target: u64 = self.sorted_containers[i].cgroup_id;
                    let locked: bool = match self.selected_cgroup_filter {
                        Some(cg) => cg == target,
                        None => false,
                    };
                    self.selected_cgroup_filter = if locked {
                        None
                    } else {
                        Some(target)
                    };
                }
            }
        }
    }

    /// Does what a key asks for.
    pub fn handle_key(&mut self, key: KeyEvent)
        requires
            old(self)@.moves_down(key) ==> old(self)@.can_move_down(),
        ensures
            final(self)@ == old(self)@.after_key(key),
    {
        if self.is_searching {
            match key.code {
                KeyCode::Esc | KeyCode::Enter => {
                    self.is_searching = false;
                },
                KeyCode::Backspace => {
                    let _ = self.search_query.pop();
                },
                KeyCode::Char(c) => {
                    self.search_query.push(c);
                },
                _ => {},
            }
            return;
        }
        match key.code {
            KeyCode::Tab => {
                self.focused_pane = match self.focused_pane {
                    FocusedPane::Containers => FocusedPane::Connections,
                    FocusedPane::Connections => FocusedPane::Containers,
                };
            },
            KeyCode::Left => {
                self.focused_pane = FocusedPane::Containers;
            },
            KeyCode::Right => {
                self.focused_pane = FocusedPane::Connections;
            },
            KeyCode::Up => self.move_up(),
            KeyCode::Down => self.move_down(),
            KeyCode::Enter => self.toggle_lock(),
            KeyCode::Esc => {
                self.selected_cgroup_filter = None;
                self.search_query = String::new();
            },
            KeyCode::Char(c) => {
                if c == 'q' || (c == 'c' && key.control) {
                    self.running = false;
                } else if c == '/' {
                    self.is_searching = true;
                } else if c == 'a' {
                    self.show_host = !self.show_host;
                } else if c == 'c' {
                    self.connections.clear();
                } else if c == 'k' {
                    self.move_up();
                } else if c == 'j' {
                    self.move_down();
                }
            },
            _ => {},
        }
    }
}

impl Selection {
    fn up(self) -> (moved: Selection)
        ensures
            moved == moved_up(self),
    {
        let i: usize = match self.selected {
            Some(i) => if i > 0 {
                i - 1
            } else {
                0
            },
            None => 0,
        };
        Selection { selected: Some(i) }
    }

    fn down(self, len: usize) -> (moved: Selection)
        requires
            len > 0,
            self.selected != Some(usize::MAX),
        ensures
            moved == moved_down(self, len as nat),
    {
        let i: usize = match self.selected {
            Some(i) => if i + 1 < len {
                i + 1
            } else {
                len - 1
            },
            None => 0,
        };
        Selection { selected: Some(i) }
    }
}

/// The texts of a row that a search looks at, in lower case.
fn lowered_texts(item: &ConnectionItem) -> (lowered: Vec<String>)
    ensures
        crate::text::texts(lowered@) == searched_texts(*item),
{
    let mut lowered: Vec<String> = Vec::new();
    lowered.push(to_lowercase(item.container_name.as_str()));
    lowered.push(to_lowercase(item.service.as_str()));
    lowered.push(to_lowercase(item.destination.as_str()));
    lowered.push(to_lowercase(item.dst_ip_str.as_str()));
    lowered.push(to_lowercase(item.proto.as_str()));
    lowered.push(to_lowercase(item.image.as_str()));
    assert(crate::text::texts(lowered@) =~= searched_texts(*item));
    lowered
}

/// Whether `q` occurs in one of `texts`.
pub fn any_contains(texts: &Vec<String>, q: &str) -> (found: bool)
    ensures
        found == occurs_in_any(q@, crate::text::texts(texts@)),
{
    let ghost all = crate::text::texts(texts@);
    for i in 0..texts.len()
        invariant
            all == crate::text::texts(texts@),
            forall|j: int| 0 <= j < i ==> !occurs_in(q@, #[trigger] all[j]),
    {
        if contains(texts[i].as_str(), q) {
            assert(occurs_in(q@, all[i as int]));
            return true;
        }
    }
    false
}

} // verus!
