//! What the feed, its filters, the container list and the keys are for.

use crate::clock::Timestamp;
use crate::text::{lowercase, occurs_in, text_le};
use crate::ui::{
    containers_after_count, feed_after_add, feed_after_close, feed_after_prune, first_with_key,
    is_listing, lemma_first_with_key, listed_as, listed_before, outlives, row_after_silence,
    searched_texts, updated_container, AppView, ConnectionItem, ConnectionStatus, ContainerItem,
    FocusedPane, KeyCode, KeyEvent, Selection,
};
use crate::ui_laws::law_prune_keeps_order;
use vstd::prelude::*;

verus! {

// ------------------------------------------------------------------ filters

/// A search looks at all six texts of a row, and any of them is enough: with a
/// search text, a row passes just when the lowered text occurs in the lowered
/// container name, service, destination, address, protocol or image; besides
/// that, host traffic passes only where it is shown, and a lock lets only its
/// own container through.
pub proof fn law_search_looks_at_six_texts(app: AppView, item: ConnectionItem)
    ensures
        ({
            let sought = lowercase(app.search_query);
            let found = occurs_in(sought, lowercase(item.container_name@)) || occurs_in(
                sought,
                lowercase(item.service@),
            ) || occurs_in(sought, lowercase(item.destination@)) || occurs_in(
                sought,
                lowercase(item.dst_ip_str@),
            ) || occurs_in(sought, lowercase(item.proto@)) || occurs_in(
                sought,
                lowercase(item.image@),
            );
            app.shows(item) <==> {
                &&& item.is_docker || app.show_host
                &&& app.selected_cgroup_filter is None || app.selected_cgroup_filter == Some(
                    item.cgroup_id,
                )
                &&& sought.len() == 0 || found
            }
        }),
{
    let texts = searched_texts(item);
    let sought = lowercase(app.search_query);
    assert(occurs_in(sought, texts[0]) || occurs_in(sought, texts[1]) || occurs_in(sought, texts[2])
        || occurs_in(sought, texts[3]) || occurs_in(sought, texts[4]) || occurs_in(sought, texts[5])
        ==> exists|i: int| 0 <= i < texts.len() && occurs_in(sought, #[trigger] texts[i]));
}

/// The feed on show is the feed read backwards, without the rows that the
/// filters hide: each row on show stands for one of the feed, in falling order,
/// and none that passes is missing.
pub proof fn law_newest_rows_show_first(app: AppView, conns: Seq<ConnectionItem>) -> (from: Seq<int>)
    ensures
        from.len() == app.shown_of(conns).len(),
        forall|i: int| 0 <= i < from.len() ==> 0 <= #[trigger] from[i] < conns.len(),
        forall|i: int, j: int| 0 <= i < j < from.len() ==> #[trigger] from[i] > #[trigger] from[j],
        forall|i: int|
            0 <= i < from.len() ==> #[trigger] app.shown_of(conns)[i] == conns[from[i]],
        forall|k: int|
            0 <= k < conns.len() ==> (app.shows(#[trigger] conns[k]) <==> from.contains(k)),
        app.shown() == app.shown_of(app.connections),
    decreases conns.len(),
{
    if conns.len() == 0 {
        seq![]
    } else {
        let rest = conns.drop_last();
        let last = conns.len() - 1;
        let older = law_newest_rows_show_first(app, rest);
        assert(forall|k: int| 0 <= k < rest.len() ==> rest[k] == conns[k]);
        let from = if app.shows(conns.last()) {
            seq![last] + older
        } else {
            older
        };
        let shift: int = if app.shows(conns.last()) {
            1
        } else {
            0
        };
        assert forall|k: int| 0 <= k < conns.len() implies (app.shows(#[trigger] conns[k])
            <==> from.contains(k)) by {
            if k < last {
                assert(rest[k] == conns[k]);
                if older.contains(k) {
                    let m = choose|m: int| 0 <= m < older.len() && older[m] == k;
                    assert(from[m + shift] == k);
                }
                if from.contains(k) {
                    let m = choose|m: int| 0 <= m < from.len() && from[m] == k;
                    assert(older[m - shift] == k);
                }
            } else {
                if app.shows(conns.last()) {
                    assert(from[0] == k);
                } else if from.contains(k) {
                    let m = choose|m: int| 0 <= m < from.len() && from[m] == k;
                    assert(older[m] < rest.len());
                }
            }
        }
        from
    }
}

// ----------------------------------------------------------------- the feed

/// A connection that is new to the feed becomes its newest row, as it is save
/// that it is active and was seen just now; the other rows stay, and the oldest
/// leaves just when the feed is full.
pub proof fn law_new_connections_become_rows(
    conns: Seq<ConnectionItem>,
    max: usize,
    item: ConnectionItem,
    now: Timestamp,
    i: int,
)
    requires
        forall|k: int| 0 <= k < conns.len() ==> (#[trigger] conns[k]).key@ != item.key@,
    ensures
        ({
            let after = feed_after_add(conns, max, item, now);
            let gone: int = if conns.len() > 0 && conns.len() >= max {
                1
            } else {
                0
            };
            let row = after[after.len() - 1];
            &&& after.len() == conns.len() + 1 - gone
            &&& 0 <= i < after.len() - 1 ==> after[i] == conns[i + gone]
            &&& row == (ConnectionItem {
                status: ConnectionStatus::Active,
                closed_at: None,
                last_seen: now,
                ..item
            })
        }),
{
    lemma_first_with_key(conns, item.key@);
}

/// A connection that the feed has already is refreshed where it stands: it is
/// active, was seen just now, and has the new time and destination; all else of
/// the row, and every other row, stays as it is.
pub proof fn law_known_connections_are_refreshed(
    conns: Seq<ConnectionItem>,
    max: usize,
    item: ConnectionItem,
    now: Timestamp,
    at: int,
    i: int,
)
    requires
        0 <= at < conns.len(),
        conns[at].key@ == item.key@,
        forall|k: int| 0 <= k < at ==> (#[trigger] conns[k]).key@ != item.key@,
    ensures
        ({
            let after = feed_after_add(conns, max, item, now);
            &&& after.len() == conns.len()
            &&& 0 <= i < conns.len() && i != at ==> after[i] == conns[i]
            &&& after[at] == (ConnectionItem {
                status: ConnectionStatus::Active,
                closed_at: None,
                last_seen: now,
                time_str: item.time_str,
                destination: item.destination,
                dst_ip_str: item.dst_ip_str,
                ..conns[at]
            })
        }),
{
    lemma_first_with_key(conns, item.key@);
    match first_with_key(conns, item.key@) {
        Some(k) => {
            if k < at {
                assert(conns[k].key@ != item.key@);
            }
            if at < k {
                assert(conns[at].key@ != item.key@);
            }
        },
        None => {
            assert(conns[at].key@ != item.key@);
        },
    }
}

/// A close report closes, as of its moment, just the active rows that it names,
/// and changes nothing else: by socket where it has one, else by destination.
pub proof fn law_reports_close_what_they_name(
    conns: Seq<ConnectionItem>,
    skaddr: u64,
    dst_ip: Seq<char>,
    now: Timestamp,
    i: int,
)
    requires
        0 <= i < conns.len(),
    ensures
        ({
            let after = feed_after_close(conns, skaddr, dst_ip, now);
            let named = if skaddr == 0 {
                conns[i].dst_ip_str@ == dst_ip
            } else {
                conns[i].skaddr == skaddr
            };
            &&& after.len() == conns.len()
            &&& named && conns[i].status == ConnectionStatus::Active ==> after[i] == (
            ConnectionItem { status: ConnectionStatus::Closed, closed_at: Some(now), ..conns[i] })
            &&& !(named && conns[i].status == ConnectionStatus::Active) ==> after[i] == conns[i]
        }),
{
}

/// What pruning makes of each row. An active UDP, ICMP or ICMPv6 row that was
/// silent for more than three seconds is closed as of `now`, and stays just
/// where the grace period is not over; a closed row stays, as it is, just until
/// its grace period is over; and any other row stays as it is. The rows that
/// stay keep their order, and no other row comes in.
pub proof fn law_pruning_row_by_row(
    conns: Seq<ConnectionItem>,
    grace: u64,
    now: Timestamp,
    later: Timestamp,
    k: int,
) -> (from: Seq<int>)
    requires
        0 <= k < conns.len(),
    ensures
        ({
            let after = feed_after_prune(conns, grace, now, later);
            let row = conns[k];
            let idle = row.proto@ == "UDP"@ || row.proto@ == "ICMP"@ || row.proto@ == "ICMPv6"@;
            let silent = row.status == ConnectionStatus::Active && idle && later.nanos
                - row.last_seen.nanos > 3_000_000_000;
            let over = row.status == ConnectionStatus::Closed && row.closed_at is Some
                && later.nanos - row.closed_at->0.nanos > grace * 1_000_000_000;
            let cut = later.nanos - now.nanos > grace * 1_000_000_000;
            let left = if silent {
                ConnectionItem { status: ConnectionStatus::Closed, closed_at: Some(now), ..row }
            } else {
                row
            };
            &&& from.len() == after.len()
            &&& forall|i: int| 0 <= i < from.len() ==> 0 <= #[trigger] from[i] < conns.len()
            &&& forall|i: int, j: int|
                0 <= i < j < from.len() ==> #[trigger] from[i] < #[trigger] from[j]
            &&& from.contains(k) <==> (if silent {
                !cut
            } else {
                !over
            })
            &&& forall|i: int| 0 <= i < from.len() && #[trigger] from[i] == k ==> after[i] == left
        }),
{
    let after = feed_after_prune(conns, grace, now, later);
    let from = law_prune_keeps_order(conns, grace, now, later);
    lemma_pruned_rows_outlive(conns, grace, now, later);
    let row = row_after_silence(conns[k], now, later);
    if from.contains(k) {
        let i = choose|i: int| 0 <= i < from.len() && from[i] == k;
        assert(after[i] == row);
        assert(outlives(after[i], grace, later));
    }
    assert(from.contains(k) <==> outlives(row, grace, later));
    from
}

proof fn lemma_pruned_rows_outlive(
    conns: Seq<ConnectionItem>,
    grace: u64,
    now: Timestamp,
    later: Timestamp,
)
    ensures
        forall|i: int|
            0 <= i < feed_after_prune(conns, grace, now, later).len() ==> outlives(
                #[trigger] feed_after_prune(conns, grace, now, later)[i],
                grace,
                later,
            ),
{
    crate::ui_laws::law_prune_drops_just_the_expired(conns, grace, now, later);
}

/// Adding, closing and pruning touch nothing but what they are for.
pub proof fn law_the_rest_of_the_screen_stays(
    app: AppView,
    item: ConnectionItem,
    skaddr: u64,
    dst_ip: Seq<char>,
    now: Timestamp,
    later: Timestamp,
    after: AppView,
    other: u64,
)
    requires
        app.added(item, now, after),
        app.total_conns < u64::MAX,
        other != item.cgroup_id,
    ensures
        after == (AppView {
            connections: after.connections,
            containers: after.containers,
            sorted_containers: after.sorted_containers,
            total_conns: after.total_conns,
            ..app
        }),
        after.total_conns == app.total_conns + 1,
        after.connections == feed_after_add(app.connections, app.max_connections, item, now),
        after.containers.contains_key(other) == app.containers.contains_key(other),
        after.containers[other] == app.containers[other],
        after.containers.contains_key(item.cgroup_id) == app.containers.contains_key(
            item.cgroup_id,
        ),
        app.containers.contains_key(item.cgroup_id) && app.containers[item.cgroup_id].conn_count
            < u64::MAX ==> after.containers[item.cgroup_id] == (ContainerItem {
            conn_count: (app.containers[item.cgroup_id].conn_count + 1) as u64,
            ..app.containers[item.cgroup_id]
        }),
        is_listing(after.containers, after.sorted_containers),
        app.after_close(skaddr, dst_ip, now) == (AppView {
            connections: feed_after_close(app.connections, skaddr, dst_ip, now),
            ..app
        }),
        app.after_prune(now, later) == (AppView {
            connections: feed_after_prune(app.connections, app.grace_period, now, later),
            ..app
        }),
{
}

// ------------------------------------------------------- the container list

/// The list puts active containers first, then those with more connections,
/// then those whose name comes first.
pub proof fn law_list_order(a: ContainerItem, b: ContainerItem)
    ensures
        a.is_active && !b.is_active ==> listed_before(a, b) && !listed_before(b, a),
        a.is_active == b.is_active && a.conn_count > b.conn_count ==> listed_before(a, b)
            && !listed_before(b, a),
        a.is_active == b.is_active && a.conn_count == b.conn_count ==> (listed_before(a, b)
            <==> text_le(a.name@, b.name@)),
{
}

/// The list shows each container once and in order: as many rows as there are
/// containers, every container among them, and no row that is none.
pub proof fn law_list_is_complete(
    map: Map<u64, ContainerItem>,
    list: Seq<ContainerItem>,
    c: u64,
    i: int,
    j: int,
)
    requires
        is_listing(map, list),
    ensures
        list.len() == map.dom().len(),
        map.contains_key(c) ==> list.contains(map[c]),
        0 <= i < list.len() ==> exists|id: u64| #[trigger] map.contains_key(id) && list[i] == map[id],
        0 <= i < j < list.len() ==> listed_before(list[i], list[j]),
{
    let ids = choose|ids: Seq<u64>| #[trigger] listed_as(map, ids, list);
    ids.unique_seq_to_set();
    if map.contains_key(c) {
        assert(ids.to_set().contains(c));
        let at = choose|at: int| 0 <= at < ids.len() && ids[at] == c;
        assert(list[at] == map[c]);
    }
    if 0 <= i < list.len() {
        assert(ids.to_set().contains(ids[i]));
        assert(map.contains_key(ids[i]));
    }
}

/// An update gives a container its name, service and image and makes it active;
/// a counter that there is goes on, and a new container starts at zero.
pub proof fn law_updates_describe_the_container(
    map: Map<u64, ContainerItem>,
    cgroup_id: u64,
    name: String,
    service: String,
    image: String,
)
    ensures
        ({
            let item = updated_container(map, cgroup_id, name, service, image);
            &&& item.name == name
            &&& item.service == service
            &&& item.image == image
            &&& item.is_active
            &&& map.contains_key(cgroup_id) ==> item.conn_count == map[cgroup_id].conn_count
                && item.cgroup_id == map[cgroup_id].cgroup_id
            &&& !map.contains_key(cgroup_id) ==> item.conn_count == 0 && item.cgroup_id == cgroup_id
        }),
{
}

/// A connection counts for its own container, by one, and for no other.
pub proof fn law_connections_count_once(map: Map<u64, ContainerItem>, cgroup_id: u64, other: u64)
    requires
        other != cgroup_id,
        map.contains_key(cgroup_id) ==> map[cgroup_id].conn_count < u64::MAX,
    ensures
        ({
            let after = containers_after_count(map, cgroup_id);
            &&& after.dom() == map.dom()
            &&& after[other] == map[other]
            &&& map.contains_key(cgroup_id) ==> after[cgroup_id] == (ContainerItem {
                conn_count: (map[cgroup_id].conn_count + 1) as u64,
                ..map[cgroup_id]
            })
        }),
{
    assert(containers_after_count(map, cgroup_id).dom() =~= map.dom());
}

// --------------------------------------------------------------------- keys

/// While the search bar is open, a character is typed, Backspace takes the last
/// one off, Enter and Escape close the bar, and every other key does nothing.
pub proof fn law_keys_in_the_search_bar(app: AppView, control: bool, c: char)
    requires
        app.is_searching,
    ensures
        app.after_key(KeyEvent { code: KeyCode::Char(c), control }) == (AppView {
            search_query: app.search_query.push(c),
            ..app
        }),
        app.search_query.len() > 0 ==> app.after_key(
            KeyEvent { code: KeyCode::Backspace, control },
        ) == (AppView { search_query: app.search_query.take(app.search_query.len() - 1), ..app }),
        app.search_query.len() == 0 ==> app.after_key(
            KeyEvent { code: KeyCode::Backspace, control },
        ) == app,
        app.after_key(KeyEvent { code: KeyCode::Enter, control }) == (AppView {
            is_searching: false,
            ..app
        }),
        app.after_key(KeyEvent { code: KeyCode::Esc, control }) == (AppView {
            is_searching: false,
            ..app
        }),
        app.after_key(KeyEvent { code: KeyCode::Tab, control }) == app,
        app.after_key(KeyEvent { code: KeyCode::Left, control }) == app,
        app.after_key(KeyEvent { code: KeyCode::Right, control }) == app,
        app.after_key(KeyEvent { code: KeyCode::Up, control }) == app,
        app.after_key(KeyEvent { code: KeyCode::Down, control }) == app,
        app.after_key(KeyEvent { code: KeyCode::Other, control }) == app,
{
    if app.search_query.len() > 0 {
        assert(app.search_query.drop_last() =~= app.search_query.take(app.search_query.len() - 1));
    }
}

/// While the search bar is closed, each command key does one thing and nothing
/// else: quit, open the search bar, toggle host traffic, clear the feed, change
/// the pane; and a key without a meaning does nothing.
pub proof fn law_command_keys(app: AppView, control: bool, c: char)
    requires
        !app.is_searching,
    ensures
        app.after_key(KeyEvent { code: KeyCode::Char('q'), control }) == (AppView {
            running: false,
            ..app
        }),
        app.after_key(KeyEvent { code: KeyCode::Char('c'), control: true }) == (AppView {
            running: false,
            ..app
        }),
        app.after_key(KeyEvent { code: KeyCode::Char('c'), control: false }) == (AppView {
            connections: Seq::empty(),
            ..app
        }),
        app.after_key(KeyEvent { code: KeyCode::Char('/'), control }) == (AppView {
            is_searching: true,
            ..app
        }),
        app.after_key(KeyEvent { code: KeyCode::Char('a'), control }) == (AppView {
            show_host: !app.show_host,
            ..app
        }),
        app.after_key(KeyEvent { code: KeyCode::Left, control }) == (AppView {
            focused_pane: FocusedPane::Containers,
            ..app
        }),
        app.after_key(KeyEvent { code: KeyCode::Right, control }) == (AppView {
            focused_pane: FocusedPane::Connections,
            ..app
        }),
        app.after_key(KeyEvent { code: KeyCode::Tab, control }) == (AppView {
            focused_pane: if app.focused_pane == FocusedPane::Containers {
                FocusedPane::Connections
            } else {
                FocusedPane::Containers
            },
            ..app
        }),
        app.after_key(KeyEvent { code: KeyCode::Esc, control }) == (AppView {
            selected_cgroup_filter: None,
            search_query: Seq::empty(),
            ..app
        }),
        c != 'q' && c != 'c' && c != '/' && c != 'a' && c != 'j' && c != 'k' ==> app.after_key(
            KeyEvent { code: KeyCode::Char(c), control },
        ) == app,
        app.after_key(KeyEvent { code: KeyCode::Backspace, control }) == app,
        app.after_key(KeyEvent { code: KeyCode::Other, control }) == app,
        app.after_key(KeyEvent { code: KeyCode::Char('k'), control }) == app.after_key(
            KeyEvent { code: KeyCode::Up, control },
        ),
        app.after_key(KeyEvent { code: KeyCode::Char('j'), control }) == app.after_key(
            KeyEvent { code: KeyCode::Down, control },
        ),
{
}

/// Up and Down move the selection of the pane in focus by one row, within its
/// rows, and select its first row where none is selected; nothing else changes.
/// An empty container list, and Down in an empty feed, keep their selection.
pub proof fn law_moving_moves_by_one(app: AppView, control: bool, i: usize)
    requires
        !app.is_searching,
        i < usize::MAX,
    ensures
        ({
            let up = app.after_key(KeyEvent { code: KeyCode::Up, control });
            let down = app.after_key(KeyEvent { code: KeyCode::Down, control });
            let above = Selection {
                selected: Some(
                    if i > 0 {
                        (i - 1) as usize
                    } else {
                        0
                    },
                ),
            };
            let first = Selection { selected: Some(0) };
            let rows = app.sorted_containers.len();
            let shown = app.shown().len();
            &&& app.focused_pane == FocusedPane::Containers ==> {
                &&& rows == 0 ==> up == app && down == app
                &&& rows > 0 && app.container_list_state.selected == Some(i) ==> up == (AppView {
                    container_list_state: above,
                    ..app
                })
                &&& rows > 0 && app.container_list_state.selected == Some(i) && i + 1 < rows
                    ==> down == (AppView {
                    container_list_state: Selection { selected: Some((i + 1) as usize) },
                    ..app
                })
                &&& rows > 0 && app.container_list_state.selected == Some(i) && i + 1 >= rows
                    ==> down == (AppView {
                    container_list_state: Selection { selected: Some((rows - 1) as usize) },
                    ..app
                })
                &&& rows > 0 && app.container_list_state.selected is None ==> up == (AppView {
                    container_list_state: first,
                    ..app
                }) && down == up
            }
            &&& app.focused_pane == FocusedPane::Connections ==> {
                &&& app.table_state.selected == Some(i) ==> up == (AppView {
                    table_state: above,
                    ..app
                })
                &&& app.table_state.selected is None ==> up == (AppView {
                    table_state: first,
                    ..app
                })
                &&& shown == 0 ==> down == app
                &&& shown > 0 && app.table_state.selected is None ==> down == (AppView {
                    table_state: first,
                    ..app
                })
                &&& shown > 0 && app.table_state.selected == Some(i) && i + 1 < shown ==> down == (
                AppView {
                    table_state: Selection { selected: Some((i + 1) as usize) },
                    ..app
                })
                &&& shown > 0 && app.table_state.selected == Some(i) && i + 1 >= shown ==> down == (
                AppView {
                    table_state: Selection { selected: Some((shown - 1) as usize) },
                    ..app
                })
            }
        }),
{
}

/// Enter locks the feed to the container that is selected in its pane, releases
/// it where it is locked to that one, and changes nothing else; elsewhere, or
/// with no container there, it does nothing.
pub proof fn law_enter_locks_to_the_selected(app: AppView, control: bool, i: usize)
    requires
        !app.is_searching,
    ensures
        ({
            let after = app.after_key(KeyEvent { code: KeyCode::Enter, control });
            let here = app.focused_pane == FocusedPane::Containers
                && app.container_list_state.selected == Some(i) && i < app.sorted_containers.len();
            let id = app.sorted_containers[i as int].cgroup_id;
            &&& here && app.selected_cgroup_filter == Some(id) ==> after == (AppView {
                selected_cgroup_filter: None,
                ..app
            })
            &&& here && app.selected_cgroup_filter != Some(id) ==> after == (AppView {
                selected_cgroup_filter: Some(id),
                ..app
            })
            &&& app.focused_pane == FocusedPane::Connections ==> after == app
            &&& app.container_list_state.selected is None ==> after == app
            &&& app.container_list_state.selected == Some(i) && i >= app.sorted_containers.len()
                ==> after == app
        }),
{
}

} // verus!
