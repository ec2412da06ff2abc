//! What the screen and the stream show.

use crate::docker::ContainerInfo;
use crate::events::{ConnectEvent, SocketCloseEvent};
use crate::render::{
    frame_color, looks_resolved, row_cells, title_cells, Color, Segment, SegmentView, Style,
};
use crate::stream::{
    active_line, closed_line, columns_of, stranger_columns, title_line, ColumnsView, SocketColumns,
    StreamView,
};
use crate::text::{decimal, numeric, padded};
use crate::traffic::{closed_endpoint_of, event_endpoint};
use crate::ui::{AppView, ConnectionItem, ConnectionStatus, ContainerItem, FocusedPane};
use vstd::prelude::*;

verus! {

/// Text that looks like its surroundings.
pub open spec fn plain(text: Seq<char>) -> SegmentView {
    SegmentView { text, style: Style { fg: None, bg: None, bold: false } }
}

/// Text in a colour.
pub open spec fn tinted(text: Seq<char>, color: Color) -> SegmentView {
    SegmentView { text, style: Style { fg: Some(color), bg: None, bold: false } }
}

/// Bold text in a colour.
pub open spec fn strong(text: Seq<char>, color: Color) -> SegmentView {
    SegmentView { text, style: Style { fg: Some(color), bg: None, bold: true } }
}

// ------------------------------------------------------------------- header

/// The header counts the active containers, all containers, the active rows and
/// all connections there were, each with its words in front of it.
pub open spec fn header_shows(app: AppView, line: Seq<SegmentView>) -> bool {
    let active = app.containers.dom().filter(|id: u64| app.containers[id].is_active).len();
    let open = app.connections.filter(
        |row: ConnectionItem| row.status == ConnectionStatus::Active,
    ).len();
    &&& line.len() == 11
    &&& line[0] == (SegmentView {
        text: " 🕵️ dsnitch "@,
        style: Style { fg: Some(Color::Black), bg: Some(Color::Cyan), bold: true },
    })
    &&& line[1] == plain(" "@)
    &&& line[2] == strong("Docker Network & DNS Egress Inspector"@, Color::White)
    &&& line[3] == plain(" │ "@)
    &&& line[4] == tinted("Active Containers: "@ + decimal(active), Color::Green)
    &&& line[5] == plain(" (Total: "@)
    &&& line[6] == tinted(decimal(app.containers.dom().len()), Color::Yellow)
    &&& line[7] == plain(") │ Active Sockets: "@)
    &&& line[8] == strong(decimal(open), Color::LightGreen)
    &&& line[9] == plain(" │ Total Events: "@)
    &&& line[10] == strong(decimal(app.total_conns as nat), Color::Magenta)
}

/// The header shows the counters.
pub proof fn law_header_shows_the_counters(app: AppView)
    ensures
        header_shows(app, app.header_line()),
{
}

// ----------------------------------------------------------- container list

/// A container's line shows whether it is active, its name, its service where it
/// has one, and its counter; the container that the feed is locked to stands
/// out.
pub proof fn law_container_lines_describe_containers(app: AppView, item: ContainerItem, i: int)
    ensures
        ({
            let line = app.container_line(item);
            let locked = app.selected_cgroup_filter == Some(item.cgroup_id);
            &&& line.len() == 5
            &&& item.is_active ==> line[0] == tinted("● "@, Color::Green)
            &&& !item.is_active ==> line[0] == tinted("○ "@, Color::DarkGray)
            &&& locked ==> line[1] == strong(item.name@, Color::Yellow)
            &&& !locked && item.is_active ==> line[1] == strong(item.name@, Color::White)
            &&& !locked && !item.is_active ==> line[1] == tinted(item.name@, Color::DarkGray)
            &&& item.service@.len() > 0 && item.service@ != "-"@ ==> line[2] == tinted(
                " ("@ + item.service@ + ")"@,
                Color::Cyan,
            )
            &&& item.service@.len() == 0 || item.service@ == "-"@ ==> line[2] == tinted(
                Seq::empty(),
                Color::Cyan,
            )
            &&& line[3] == plain(" "@)
            &&& line[4] == tinted(
                "["@ + decimal(item.conn_count as nat) + " conns]"@,
                Color::DarkGray,
            )
        }),
        app.container_lines().len() == app.sorted_containers.len(),
        0 <= i < app.sorted_containers.len() ==> app.container_lines()[i] == app.container_line(
            app.sorted_containers[i],
        ),
        app.selected_cgroup_filter is None ==> app.containers_title() == " Containers ("@ + decimal(
            app.sorted_containers.len(),
        ) + ") "@,
        app.selected_cgroup_filter is Some ==> app.containers_title() == " Containers ("@ + decimal(
            app.sorted_containers.len(),
        ) + ") (FILTER ACTIVE - [Enter] clear) "@,
{
}

/// The pane in focus is framed in cyan, the other in grey.
pub proof fn law_focus_shows_in_the_frame(focused: FocusedPane, pane: FocusedPane)
    ensures
        focused == pane ==> frame_color(focused, pane) == Color::Cyan,
        focused != pane ==> frame_color(focused, pane) == Color::DarkGray,
{
}

// -------------------------------------------------------------------- table

/// A row shows its status, time, maker, service, image, protocol, destination
/// and address, in this order and each as it is, save that host traffic is
/// marked as such.
pub proof fn law_rows_show_their_fields(item: ConnectionItem)
    ensures
        ({
            let cells = row_cells(item);
            &&& cells.len() == 8
            &&& item.status == ConnectionStatus::Active ==> cells[0] == strong(
                "● ACTIVE"@,
                Color::LightGreen,
            )
            &&& item.status == ConnectionStatus::Closed ==> cells[0] == tinted(
                "○ CLOSED"@,
                Color::DarkGray,
            )
            &&& cells[1] == tinted(item.time_str@, Color::DarkGray)
            &&& item.is_docker ==> cells[2] == strong(item.container_name@, Color::Green)
            &&& !item.is_docker ==> cells[2] == tinted("[HOST]"@, Color::DarkGray)
            &&& cells[3] == tinted(item.service@, Color::LightCyan)
            &&& cells[4] == tinted(item.image@, Color::White)
            &&& cells[5].text == item.proto@
            &&& cells[6].text == item.destination@
            &&& cells[7] == tinted(item.dst_ip_str@, Color::White)
        }),
{
}

/// Protocols have their colours, and a destination stands out unless it starts
/// with a numeric character or a bracket.
pub proof fn law_protocols_and_names_have_colors(item: ConnectionItem)
    ensures
        ({
            let cells = row_cells(item);
            let ping = item.proto@ == "ICMP"@ || item.proto@ == "ICMPv6"@;
            let first = if item.destination@.len() == 0 {
                ' '
            } else {
                item.destination@[0]
            };
            &&& item.proto@ == "TCP"@ ==> cells[5] == tinted(item.proto@, Color::LightGreen)
            &&& item.proto@ == "UDP"@ ==> cells[5] == tinted(item.proto@, Color::LightBlue)
            &&& ping ==> cells[5] == strong(item.proto@, Color::Magenta)
            &&& item.proto@ != "TCP"@ && item.proto@ != "UDP"@ && !ping ==> cells[5] == tinted(
                item.proto@,
                Color::DarkGray,
            )
            &&& looks_resolved(item.destination@) <==> !numeric(first) && first != '['
            &&& looks_resolved(item.destination@) ==> cells[6] == strong(
                item.destination@,
                Color::Yellow,
            )
            &&& !looks_resolved(item.destination@) ==> cells[6] == tinted(
                item.destination@,
                Color::DarkGray,
            )
        }),
{
    reveal_strlit("TCP");
    reveal_strlit("UDP");
    reveal_strlit("ICMP");
    reveal_strlit("ICMPv6");
    assert("TCP"@[0] == 'T' && "UDP"@[0] == 'U' && "ICMP"@[0] == 'I' && "ICMPv6"@[0] == 'I');
}

/// The table takes the first 150 of the rows on show, or all where there are
/// fewer, and its title says how many, how long closed rows stay, and what is
/// searched for.
pub proof fn law_table_takes_the_first_rows(app: AppView, i: int)
    ensures
        app.table_rows().len() == (if app.shown().len() < 150 {
            app.shown().len()
        } else {
            150
        }),
        0 <= i < app.table_rows().len() ==> app.table_rows()[i] == app.shown()[i],
        app.search_query.len() == 0 ==> app.connections_title() == " Live Egress Feed ("@ + decimal(
            app.table_rows().len(),
        ) + " shown, "@ + decimal(app.grace_period as nat) + "s grace)"@ + Seq::<char>::empty()
            + " "@,
        app.search_query.len() > 0 ==> app.connections_title() == " Live Egress Feed ("@ + decimal(
            app.table_rows().len(),
        ) + " shown, "@ + decimal(app.grace_period as nat) + "s grace)"@ + (" (Filtered: \""@
            + app.search_query + "\")"@) + " "@,
{
}

/// The columns have their titles, in order.
pub proof fn law_columns_have_titles()
    ensures
        title_cells() == seq![
            strong("STATUS"@, Color::Cyan),
            strong("TIME"@, Color::Cyan),
            strong("CONTAINER"@, Color::Cyan),
            strong("SERVICE"@, Color::Cyan),
            strong("IMAGE/PROCESS"@, Color::Cyan),
            strong("PROTO"@, Color::Cyan),
            strong("DESTINATION"@, Color::Cyan),
            strong("DST IP"@, Color::Cyan),
        ],
{
}

// ------------------------------------------------------------------- footer

/// The search bar shows what is typed, and the help line shows the keys and
/// whether host traffic is on.
pub proof fn law_footer_shows_search_or_keys(app: AppView)
    ensures
        app.search_bar() == (SegmentView {
            text: " Search Filter: "@ + app.search_query
                + "█ (Press [Enter] or [Esc] to commit)"@,
            style: Style { fg: Some(Color::Black), bg: Some(Color::Yellow), bold: true },
        }),
        app.help_line() == seq![
            strong(" [q]"@, Color::Yellow),
            plain(" Quit  "@),
            strong("[/]"@, Color::Yellow),
            plain(" Filter  "@),
            strong("[Tab/←/→]"@, Color::Yellow),
            plain(" Switch Pane  "@),
            strong("[↑/↓/j/k]"@, Color::Yellow),
            plain(" Navigate  "@),
            strong("[Enter]"@, Color::Yellow),
            plain(" Filter to Container  "@),
            strong("[a]"@, Color::Yellow),
            plain(
                if app.show_host {
                    " Host View (ON)  "@
                } else {
                    " Host View (OFF)  "@
                },
            ),
            strong("[c]"@, Color::Yellow),
            plain(" Clear  "@),
        ],
{
}

/// A segment and a set of columns say what their fields hold.
pub proof fn law_segments_are_read_by_their_fields(segment: Segment, columns: SocketColumns)
    ensures
        segment@ == (SegmentView { text: segment.text@, style: segment.style }),
        columns@ == (ColumnsView {
            container: columns.container@,
            service: columns.service@,
            image: columns.image@,
            destination: columns.destination@,
            endpoint: columns.endpoint@,
        }),
{
}

// ------------------------------------------------------------------- stream

/// The columns of a container's connection are its name in green, its Compose
/// service or a dash, and its image; those of the host are marked as such, with
/// the command in grey.
pub proof fn law_columns_show_the_maker(
    event: ConnectEvent,
    info: ContainerInfo,
    command: Seq<char>,
    domain: Option<Seq<char>>,
)
    ensures
        ({
            let of = columns_of(event, Some(info), command, domain);
            &&& of.container == "\x1b[1;32m"@ + info.name@ + "\x1b[0m"@
            &&& info.compose_service is Some ==> of.service == info.compose_service->0@
            &&& info.compose_service is None ==> of.service == "-"@
            &&& of.image == info.image@
        }),
        ({
            let of = columns_of(event, None, command, domain);
            &&& of.container == "\x1b[90m"@ + "[HOST]"@ + "\x1b[0m"@
            &&& of.service == "-"@
            &&& of.image == "\x1b[90m"@ + command + "\x1b[0m"@
        }),
{
}

/// The destination column of a connection, whoever made it, is the known name in
/// yellow, with its port save for pings, or a dash; the last column is the
/// address.
pub proof fn law_columns_show_the_destination(
    event: ConnectEvent,
    container: Option<ContainerInfo>,
    command: Seq<char>,
    name: Seq<char>,
)
    ensures
        columns_of(event, container, command, None).destination == "-"@,
        event.proto == 1 || event.proto == 58 ==> columns_of(
            event,
            container,
            command,
            Some(name),
        ).destination == "\x1b[1;33m"@ + name + "\x1b[0m"@,
        event.proto != 1 && event.proto != 58 ==> columns_of(
            event,
            container,
            command,
            Some(name),
        ).destination == "\x1b[1;33m"@ + (name + seq![':'] + decimal(event.dport as nat))
            + "\x1b[0m"@,
        columns_of(event, container, command, None).endpoint == event_endpoint(event),
        columns_of(event, container, command, Some(name)).endpoint == event_endpoint(event),
{
}

/// Lines put their columns side by side, each padded to its width: an open
/// connection has its status in green, and the line of a closed one is grey and
/// says TCP.
pub proof fn law_lines_put_columns_side_by_side(
    time: Seq<char>,
    c: ColumnsView,
    proto: Seq<char>,
)
    ensures
        active_line(time, c, proto) == "\x1b[1;32m"@ + padded("● ACTIVE"@, 10) + "\x1b[0m"@ + ((
        seq![' '] + padded(time, 12)) + (seq![' '] + padded(c.container, 33)) + (seq![' '] + padded(
            c.service,
            16,
        )) + (seq![' '] + padded(c.image, 29)) + (seq![' '] + padded(proto, 6)) + (seq![' ']
            + padded(c.destination, 41)) + (seq![' '] + padded(c.endpoint, 24))),
        closed_line(time, c) == "\x1b[90m"@ + (padded("○ CLOSED"@, 10) + ((seq![' '] + padded(
            time,
            12,
        )) + (seq![' '] + padded(c.container, 33)) + (seq![' '] + padded(c.service, 16)) + (
        seq![' '] + padded(c.image, 29)) + (seq![' '] + padded("TCP"@, 6)) + (seq![' '] + padded(
            c.destination,
            41,
        )) + (seq![' '] + padded(c.endpoint, 24)))) + "\x1b[0m"@,
        title_line() == padded("STATUS"@, 10) + (seq![' '] + padded("TIME"@, 12)) + (seq![' ']
            + padded("CONTAINER"@, 24)) + (seq![' '] + padded("SERVICE"@, 16)) + (seq![' ']
            + padded("IMAGE/PROCESS"@, 20)) + (seq![' '] + padded("PROTO"@, 6)) + (seq![' ']
            + padded("DESTINATION"@, 32)) + (seq![' '] + padded("DST IP"@, 24)),
{
}

/// A socket that closes without having been seen to open is the host's: its name
/// with the port where one is known, else a dash, and its address.
pub proof fn law_strangers_are_the_hosts(event: SocketCloseEvent, name: Seq<char>)
    ensures
        ({
            let of = stranger_columns(event, Some(name));
            &&& of.container == "\x1b[90m"@ + "[HOST]"@ + "\x1b[0m"@
            &&& of.service == "-"@
            &&& of.image == "-"@
            &&& of.destination == name + seq![':'] + decimal(event.dport as nat)
            &&& of.endpoint == closed_endpoint_of(event)
            &&& stranger_columns(event, None) == (ColumnsView { destination: "-"@, ..of })
        }),
{
}

/// The stream shows every container, and the host where that is asked for; it
/// remembers the sockets that have an address, each until it closes.
pub proof fn law_stream_remembers_open_sockets(
    stream: StreamView,
    container: Option<ContainerInfo>,
    skaddr: u64,
    columns: ColumnsView,
    other: u64,
)
    requires
        other != skaddr,
    ensures
        stream.shows(container) <==> container is Some || stream.show_host,
        ({
            let after = stream.after_connect(skaddr, columns);
            &&& skaddr == 0 ==> after == stream
            &&& skaddr != 0 ==> after.sockets.contains_key(skaddr) && after.sockets[skaddr]
                == columns
            &&& after.sockets.contains_key(other) == stream.sockets.contains_key(other)
            &&& after.sockets[other] == stream.sockets[other]
            &&& after.show_host == stream.show_host
        }),
        ({
            let after = stream.after_close(skaddr);
            &&& !after.sockets.contains_key(skaddr)
            &&& after.sockets.contains_key(other) == stream.sockets.contains_key(other)
            &&& after.sockets[other] == stream.sockets[other]
            &&& after.show_host == stream.show_host
        }),
{
}

} // verus!
