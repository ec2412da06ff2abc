//! What the screen shows, as styled text.

use crate::clock::Timestamp;
use crate::text::{decimal, decimal_text, is_numeric, join2, join3, numeric, same_text};
use crate::ui::{App, AppView, ConnectionItem, ConnectionStatus, ContainerItem, FocusedPane};
use std::collections::{HashMap, VecDeque};
use vstd::prelude::*;

verus! {

broadcast use vstd::std_specs::hash::group_hash_axioms;

// ------------------------------------------------------------------- styles

/// The colours on the screen.
#[derive(Clone, Copy, Debug, PartialEq, Eq, Structural)]
pub enum Color {
    Black,
    White,
    DarkGray,
    Green,
    LightGreen,
    LightBlue,
    Cyan,
    LightCyan,
    Yellow,
    Magenta,
}

/// How a piece of text looks; without a colour it looks as its surroundings.
#[derive(Clone, Copy, Debug, PartialEq, Eq, Structural)]
pub struct Style {
    pub fg: Option<Color>,
    pub bg: Option<Color>,
    pub bold: bool,
}

/// The style of the surroundings.
pub open spec fn plain() -> Style {
    Style { fg: None, bg: None, bold: false }
}

/// In this colour.
pub open spec fn colored(color: Color) -> Style {
    Style { fg: Some(color), bg: None, bold: false }
}

/// In this colour, and bold.
pub open spec fn bold(color: Color) -> Style {
    Style { fg: Some(color), bg: None, bold: true }
}

/// Bold black on this colour.
pub open spec fn banner(color: Color) -> Style {
    Style { fg: Some(Color::Black), bg: Some(color), bold: true }
}

/// A piece of text in one style.
pub struct Segment {
    pub text: String,
    pub style: Style,
}

/// What a `Segment` says.
#[verifier::ext_equal]
pub struct SegmentView {
    pub text: Seq<char>,
    pub style: Style,
}

impl View for Segment {
    type V = SegmentView;

    open spec fn view(&self) -> SegmentView {
        SegmentView { text: self.text@, style: self.style }
    }
}

/// A piece of text in a style.
pub open spec fn styled(text: Seq<char>, style: Style) -> SegmentView {
    SegmentView { text, style }
}

/// What the segments of a line say.
pub open spec fn line_view(line: Seq<Segment>) -> Seq<SegmentView> {
    line.map_values(|s: Segment| s@)
}

/// What the segments of each line say.
pub open spec fn lines_view(lines: Seq<Vec<Segment>>) -> Seq<Seq<SegmentView>> {
    lines.map_values(|line: Vec<Segment>| line_view(line@))
}

fn raw(text: &str) -> (s: Segment)
    ensures
        s@ == styled(text@, plain()),
{
    Segment { text: text.to_owned(), style: Style { fg: None, bg: None, bold: false } }
}

fn in_color(text: &str, color: Color) -> (s: Segment)
    ensures
        s@ == styled(text@, colored(color)),
{
    Segment { text: text.to_owned(), style: Style { fg: Some(color), bg: None, bold: false } }
}

fn in_bold(text: &str, color: Color) -> (s: Segment)
    ensures
        s@ == styled(text@, bold(color)),
{
    Segment { text: text.to_owned(), style: Style { fg: Some(color), bg: None, bold: true } }
}

fn in_banner(text: &str, color: Color) -> (s: Segment)
    ensures
        s@ == styled(text@, banner(color)),
{
    Segment {
        text: text.to_owned(),
        style: Style { fg: Some(Color::Black), bg: Some(color), bold: true },
    }
}

// ------------------------------------------------------------------- header

/// The control groups of the containers that are active.
pub open spec fn active_groups(containers: Map<u64, ContainerItem>) -> Set<u64> {
    containers.dom().filter(|id: u64| containers[id].is_active)
}

/// The rows of the feed that are active.
pub open spec fn active_rows(conns: Seq<ConnectionItem>) -> Seq<ConnectionItem> {
    conns.filter(|item: ConnectionItem| item.status == ConnectionStatus::Active)
}

/// How many containers are active.
fn count_active_groups(containers: &HashMap<u64, ContainerItem>) -> (n: usize)
    ensures
        n == active_groups(containers@).len(),
{
    let mut walked: Vec<u64> = Vec::new();
    for id in it: containers.keys()
        invariant
            walked@ == it.seq().unref().take(it.index() as int),
            walked@.no_duplicates(),
            it.seq().unref().to_set() == containers@.dom(),
            it.index() == it.seq().len() ==> walked@ == it.seq().unref(),
    {
        walked.push(*id);
    }
    let ghost active = |id: u64| containers@[id].is_active;
    let mut n: usize = 0;
    assert(walked@.take(0).to_set().filter(active) =~= Set::empty());
    for i in 0..walked.len()
        invariant
            walked@.no_duplicates(),
            walked@.to_set() == containers@.dom(),
            active == (|id: u64| containers@[id].is_active),
            n <= i,
            n == walked@.take(i as int).to_set().filter(active).len(),
    {
        let id: u64 = walked[i];
        let ghost seen = walked@.take(i as int);
        proof {
            assert(walked@.to_set().contains(id));
            assert(walked@.take(i + 1) =~= seen.push(id));
            assert(!seen.contains(id));
            assert(seen.push(id).to_set() =~= seen.to_set().insert(id)) by {
                assert(seen.push(id)[i as int] == id);
                assert forall|k: u64| seen.contains(k) implies seen.push(id).contains(k) by {
                    let j = choose|j: int| 0 <= j < seen.len() && seen[j] == k;
                    assert(seen.push(id)[j] == k);
                }
            }
            seen.to_set().lemma_len_filter(active);
            if active(id) {
                assert(seen.to_set().insert(id).filter(active) =~= seen.to_set().filter(
                    active,
                ).insert(id));
            } else {
                assert(seen.to_set().insert(id).filter(active) =~= seen.to_set().filter(active));
            }
        }
        if let Some(item) = containers.get(&id) {
            if item.is_active {
                n = n + 1;
            }
        }
    }
    assert(walked@.take(walked@.len() as int) =~= walked@);
    n
}

/// How many rows are active.
fn count_active_rows(conns: &VecDeque<ConnectionItem>) -> (n: usize)
    ensures
        n == active_rows(conns@).len(),
{
    let mut n: usize = 0;
    assert(active_rows(conns@.take(0)).len() == 0) by {
        reveal(Seq::filter);
    }
    for i in 0..conns.len()
        invariant
            n <= i <= conns@.len(),
            n == active_rows(conns@.take(i as int)).len(),
    {
        assert(conns@.take(i + 1).drop_last() =~= conns@.take(i as int));
        reveal(Seq::filter);
        if conns[i].status == ConnectionStatus::Active {
            n = n + 1;
        }
    }
    assert(conns@.take(conns@.len() as int) =~= conns@);
    n
}

impl AppView {
    /// The line at the top: the name of the program, and its counters.
    pub open spec fn header_line(self) -> Seq<SegmentView> {
        seq![
            styled(" 🕵️ dsnitch "@, banner(Color::Cyan)),
            styled(" "@, plain()),
            styled("Docker Network & DNS Egress Inspector"@, bold(Color::White)),
            styled(" │ "@, plain()),
            styled(
                "Active Containers: "@ + decimal(active_groups(self.containers).len()),
                colored(Color::Green),
            ),
            styled(" (Total: "@, plain()),
            styled(decimal(self.containers.len()), colored(Color::Yellow)),
            styled(") │ Active Sockets: "@, plain()),
            styled(decimal(active_rows(self.connections).len()), bold(Color::LightGreen)),
            styled(" │ Total Events: "@, plain()),
            styled(decimal(self.total_conns as nat), bold(Color::Magenta)),
        ]
    }
}

/// The line at the top: the name of the program, and its counters.
fn render_header(app: &App) -> (line: Vec<Segment>)
    ensures
        line_view(line@) == app@.header_line(),
{
    let active: usize = count_active_groups(&app.containers);
    let total: usize = app.containers.len();
    let rows: usize = count_active_rows(&app.connections);
    let active_text = decimal_text(active as u64);
    let total_text = decimal_text(total as u64);
    let rows_text = decimal_text(rows as u64);
    let events_text = decimal_text(app.total_conns);
    let counted = join2("Active Containers: ", active_text.as_str());
    let line = vec![
        in_banner(" 🕵️ dsnitch ", Color::Cyan),
        raw(" "),
        in_bold("Docker Network & DNS Egress Inspector", Color::White),
        raw(" │ "),
        in_color(counted.as_str(), Color::Green),
        raw(" (Total: "),
        in_color(total_text.as_str(), Color::Yellow),
        raw(") │ Active Sockets: "),
        in_bold(rows_text.as_str(), Color::LightGreen),
        raw(" │ Total Events: "),
        in_bold(events_text.as_str(), Color::Magenta),
    ];
    assert(line_view(line@) =~= app@.header_line());
    line
}

// ----------------------------------------------------------- container list

/// The colour of the frame of a pane.
pub open spec fn frame_color(focused: FocusedPane, pane: FocusedPane) -> Color {
    if focused == pane {
        Color::Cyan
    } else {
        Color::DarkGray
    }
}

fn frame_of(focused: FocusedPane, pane: FocusedPane) -> (color: Color)
    ensures
        color == frame_color(focused, pane),
{
    if focused == pane {
        Color::Cyan
    } else {
        Color::DarkGray
    }
}

impl AppView {
    /// The line of a container: whether it is active, its name, its service if
    /// it has one, and its counter.
    pub open spec fn container_line(self, item: ContainerItem) -> Seq<SegmentView> {
        seq![
            if item.is_active {
                styled("● "@, colored(Color::Green))
            } else {
                styled("○ "@, colored(Color::DarkGray))
            },
            styled(
                item.name@,
                if self.selected_cgroup_filter == Some(item.cgroup_id) {
                    bold(Color::Yellow)
                } else if item.is_active {
                    bold(Color::White)
                } else {
                    colored(Color::DarkGray)
                },
            ),
            styled(
                if item.service@ == "-"@ || item.service@.len() == 0 {
                    seq![]
                } else {
                    " ("@ + item.service@ + ")"@
                },
                colored(Color::Cyan),
            ),
            styled(" "@, plain()),
            styled("["@ + decimal(item.conn_count as nat) + " conns]"@, colored(Color::DarkGray)),
        ]
    }

    /// The lines of the listed containers.
    pub open spec fn container_lines(self) -> Seq<Seq<SegmentView>> {
        self.sorted_containers.map_values(|item: ContainerItem| self.container_line(item))
    }

    /// The title of the container list.
    pub open spec fn containers_title(self) -> Seq<char> {
        " Containers ("@ + decimal(self.sorted_containers.len()) + (if self.selected_cgroup_filter
            is Some {
            ") (FILTER ACTIVE - [Enter] clear) "@
        } else {
            ") "@
        })
    }
}

/// The line of a container.
fn container_segments(app: &App, item: &ContainerItem) -> (line: Vec<Segment>)
    ensures
        line_view(line@) == app@.container_line(*item),
{
    let dot = if item.is_active {
        in_color("● ", Color::Green)
    } else {
        in_color("○ ", Color::DarkGray)
    };
    let chosen: bool = match app.selected_cgroup_filter {
        Some(id) => id == item.cgroup_id,
        None => false,
    };
    let name = if chosen {
        in_bold(item.name.as_str(), Color::Yellow)
    } else if item.is_active {
        in_bold(item.name.as_str(), Color::White)
    } else {
        in_color(item.name.as_str(), Color::DarkGray)
    };
    let service: String = if same_text(item.service.as_str(), "-") || item.service.as_str().unicode_len()
        == 0 {
        String::new()
    } else {
        join3(" (", item.service.as_str(), ")")
    };
    let number = decimal_text(item.conn_count);
    let counter = join3("[", number.as_str(), " conns]");
    let line = vec![
        dot,
        name,
        in_color(service.as_str(), Color::Cyan),
        raw(" "),
        in_color(counter.as_str(), Color::DarkGray),
    ];
    assert(line_view(line@) =~= app@.container_line(*item));
    line
}

/// The list of containers: its frame, its title and its lines.
pub struct ContainersPane {
    pub frame: Color,
    pub title: String,
    pub lines: Vec<Vec<Segment>>,
}

impl ContainersPane {
    /// Whether the pane shows the containers of `app`.
    pub open spec fn shows(self, app: AppView) -> bool {
        &&& self.frame == frame_color(app.focused_pane, FocusedPane::Containers)
        &&& self.title@ == app.containers_title()
        &&& lines_view(self.lines@) == app.container_lines()
    }
}

/// The list of containers.
fn render_containers_pane(app: &App) -> (pane: ContainersPane)
    ensures
        pane.shows(app@),
{
    let mut lines: Vec<Vec<Segment>> = Vec::new();
    for i in 0..app.sorted_containers.len()
        invariant
            lines@.len() == i,
            forall|j: int| 0 <= j < i ==> line_view(#[trigger] lines@[j]@) == app@.container_line(
                app@.sorted_containers[j],
            ),
    {
        let line = container_segments(app, &app.sorted_containers[i]);
        lines.push(line);
    }
    assert(lines_view(lines@) =~= app@.container_lines());
    let number = decimal_text(app.sorted_containers.len() as u64);
    let filtered: bool = app.selected_cgroup_filter.is_some();
    let title = join3(
        " Containers (",
        number.as_str(),
        if filtered {
            ") (FILTER ACTIVE - [Enter] clear) "
        } else {
            ") "
        },
    );
    ContainersPane { frame: frame_of(app.focused_pane, FocusedPane::Containers), title, lines }
}

// -------------------------------------------------------------------- table

/// How many rows of the feed the table takes at most.
pub const MAX_ROWS: usize = 150;

/// Whether a destination is taken for a name: it starts neither with a numeric
/// character nor with a bracket.
pub open spec fn looks_resolved(destination: Seq<char>) -> bool {
    let first = if destination.len() > 0 {
        destination[0]
    } else {
        ' '
    };
    !numeric(first) && first != '['
}

/// The style of a protocol.
pub open spec fn proto_style(proto: Seq<char>) -> Style {
    if proto == "TCP"@ {
        colored(Color::LightGreen)
    } else if proto == "UDP"@ {
        colored(Color::LightBlue)
    } else if proto == "ICMP"@ || proto == "ICMPv6"@ {
        bold(Color::Magenta)
    } else {
        colored(Color::DarkGray)
    }
}

/// The cells of a row of the feed.
pub open spec fn row_cells(item: ConnectionItem) -> Seq<SegmentView> {
    seq![
        match item.status {
            ConnectionStatus::Active => styled("● ACTIVE"@, bold(Color::LightGreen)),
            ConnectionStatus::Closed => styled("○ CLOSED"@, colored(Color::DarkGray)),
        },
        styled(item.time_str@, colored(Color::DarkGray)),
        if item.is_docker {
            styled(item.container_name@, bold(Color::Green))
        } else {
            styled("[HOST]"@, colored(Color::DarkGray))
        },
        styled(item.service@, colored(Color::LightCyan)),
        styled(item.image@, colored(Color::White)),
        styled(item.proto@, proto_style(item.proto@)),
        styled(
            item.destination@,
            if looks_resolved(item.destination@) {
                bold(Color::Yellow)
            } else {
                colored(Color::DarkGray)
            },
        ),
        styled(item.dst_ip_str@, colored(Color::White)),
    ]
}

/// The titles of the columns.
pub open spec fn title_cells() -> Seq<SegmentView> {
    seq![
        styled("STATUS"@, bold(Color::Cyan)),
        styled("TIME"@, bold(Color::Cyan)),
        styled("CONTAINER"@, bold(Color::Cyan)),
        styled("SERVICE"@, bold(Color::Cyan)),
        styled("IMAGE/PROCESS"@, bold(Color::Cyan)),
        styled("PROTO"@, bold(Color::Cyan)),
        styled("DESTINATION"@, bold(Color::Cyan)),
        styled("DST IP"@, bold(Color::Cyan)),
    ]
}

impl AppView {
    /// The rows that fit the table: the first of those that the filters let
    /// through.
    pub open spec fn table_rows(self) -> Seq<ConnectionItem> {
        if self.shown().len() <= MAX_ROWS {
            self.shown()
        } else {
            self.shown().take(MAX_ROWS as int)
        }
    }

    /// The title of the table.
    pub open spec fn connections_title(self) -> Seq<char> {
        " Live Egress Feed ("@ + decimal(self.table_rows().len()) + " shown, "@ + decimal(
            self.grace_period as nat,
        ) + "s grace)"@ + (if self.search_query.len() == 0 {
            seq![]
        } else {
            " (Filtered: \""@ + self.search_query + "\")"@
        }) + " "@
    }
}

fn resolved_look(destination: &str) -> (yes: bool)
    ensures
        yes == looks_resolved(destination@),
{
    let first: char = if destination.unicode_len() > 0 {
        destination.get_char(0)
    } else {
        ' '
    };
    !is_numeric(first) && first != '['
}

/// The cells of a row of the feed.
pub fn row_segments(item: &ConnectionItem) -> (cells: Vec<Segment>)
    ensures
        line_view(cells@) == row_cells(*item),
{
    let status = match item.status {
        ConnectionStatus::Active => in_bold("● ACTIVE", Color::LightGreen),
        ConnectionStatus::Closed => in_color("○ CLOSED", Color::DarkGray),
    };
    let container = if item.is_docker {
        in_bold(item.container_name.as_str(), Color::Green)
    } else {
        in_color("[HOST]", Color::DarkGray)
    };
    let name: &str = item.proto.as_str();
    let proto = if same_text(name, "TCP") {
        in_color(name, Color::LightGreen)
    } else if same_text(name, "UDP") {
        in_color(name, Color::LightBlue)
    } else if same_text(name, "ICMP") || same_text(name, "ICMPv6") {
        in_bold(name, Color::Magenta)
    } else {
        in_color(name, Color::DarkGray)
    };
    let destination = if resolved_look(item.destination.as_str()) {
        in_bold(item.destination.as_str(), Color::Yellow)
    } else {
        in_color(item.destination.as_str(), Color::DarkGray)
    };
    let cells = vec![
        status,
        in_color(item.time_str.as_str(), Color::DarkGray),
        container,
        in_color(item.service.as_str(), Color::LightCyan),
        in_color(item.image.as_str(), Color::White),
        proto,
        destination,
        in_color(item.dst_ip_str.as_str(), Color::White),
    ];
    assert(line_view(cells@) =~= row_cells(*item));
    cells
}

fn title_segments() -> (cells: Vec<Segment>)
    ensures
        line_view(cells@) == title_cells(),
{
    let cells = vec![
        in_bold("STATUS", Color::Cyan),
        in_bold("TIME", Color::Cyan),
        in_bold("CONTAINER", Color::Cyan),
        in_bold("SERVICE", Color::Cyan),
        in_bold("IMAGE/PROCESS", Color::Cyan),
        in_bold("PROTO", Color::Cyan),
        in_bold("DESTINATION", Color::Cyan),
        in_bold("DST IP", Color::Cyan),
    ];
    assert(line_view(cells@) =~= title_cells());
    cells
}

/// The table of connections: its frame, its title, its column titles and its
/// rows.
pub struct ConnectionsPane {
    pub frame: Color,
    pub title: String,
    pub columns: Vec<Segment>,
    pub rows: Vec<Vec<Segment>>,
}

impl ConnectionsPane {
    /// Whether the pane shows the feed of `app`.
    pub open spec fn shows(self, app: AppView) -> bool {
        &&& self.frame == frame_color(app.focused_pane, FocusedPane::Connections)
        &&& self.title@ == app.connections_title()
        &&& line_view(self.columns@) == title_cells()
        &&& lines_view(self.rows@) == app.table_rows().map_values(
            |item: ConnectionItem| row_cells(item),
        )
    }
}

/// The table of connections.
fn render_connections_pane(app: &App) -> (pane: ConnectionsPane)
    ensures
        pane.shows(app@),
{
    let shown = app.filtered_connections();
    let n: usize = if shown.len() < MAX_ROWS {
        shown.len()
    } else {
        MAX_ROWS
    };
    let mut rows: Vec<Vec<Segment>> = Vec::new();
    assert(shown@.unref().len() == shown@.len());
    for i in 0..n
        invariant
            n <= shown@.len(),
            shown@.unref() == app@.shown(),
            rows@.len() == i,
            forall|j: int| 0 <= j < i ==> line_view(#[trigger] rows@[j]@) == row_cells(
                app@.shown()[j],
            ),
    {
        assert(shown@.unref()[i as int] == *shown@[i as int]);
        let cells = row_segments(shown[i]);
        rows.push(cells);
    }
    assert(lines_view(rows@) =~= app@.table_rows().map_values(
        |item: ConnectionItem| row_cells(item),
    ));
    let number = decimal_text(n as u64);
    let grace = decimal_text(app.grace_period);
    let mut title = join3(" Live Egress Feed (", number.as_str(), " shown, ");
    title.append(grace.as_str());
    title.append("s grace)");
    let filter: String = if app.search_query.as_str().unicode_len() == 0 {
        String::new()
    } else {
        join3(" (Filtered: \"", app.search_query.as_str(), "\")")
    };
    title.append(filter.as_str());
    title.append(" ");
    ConnectionsPane {
        frame: frame_of(app.focused_pane, FocusedPane::Connections),
        title,
        columns: title_segments(),
        rows,
    }
}

// ------------------------------------------------------------------- footer

/// The line at the bottom.
pub enum Footer {
    /// The text that is being typed.
    Search { bar: Segment },
    /// The keys.
    Help { line: Vec<Segment> },
}

impl AppView {
    /// The bar with the text that is being typed.
    pub open spec fn search_bar(self) -> SegmentView {
        styled(
            " Search Filter: "@ + self.search_query + "█ (Press [Enter] or [Esc] to commit)"@,
            banner(Color::Yellow),
        )
    }

    /// The keys and what they do.
    pub open spec fn help_line(self) -> Seq<SegmentView> {
        seq![
            styled(" [q]"@, bold(Color::Yellow)),
            styled(" Quit  "@, plain()),
            styled("[/]"@, bold(Color::Yellow)),
            styled(" Filter  "@, plain()),
            styled("[Tab/←/→]"@, bold(Color::Yellow)),
            styled(" Switch Pane  "@, plain()),
            styled("[↑/↓/j/k]"@, bold(Color::Yellow)),
            styled(" Navigate  "@, plain()),
            styled("[Enter]"@, bold(Color::Yellow)),
            styled(" Filter to Container  "@, plain()),
            styled("[a]"@, bold(Color::Yellow)),
            styled(
                if self.show_host {
                    " Host View (ON)  "@
                } else {
                    " Host View (OFF)  "@
                },
                plain(),
            ),
            styled("[c]"@, bold(Color::Yellow)),
            styled(" Clear  "@, plain()),
        ]
    }
}

impl Footer {
    /// Whether this is the line at the bottom for `app`.
    pub open spec fn shows(self, app: AppView) -> bool {
        match self {
            Footer::Search { bar } => app.is_searching && bar@ == app.search_bar(),
            Footer::Help { line } => !app.is_searching && line_view(line@) == app.help_line(),
        }
    }
}

/// The line at the bottom.
fn render_footer(app: &App) -> (footer: Footer)
    ensures
        footer.shows(app@),
{
    if app.is_searching {
        let text = join3(
            " Search Filter: ",
            app.search_query.as_str(),
            "█ (Press [Enter] or [Esc] to commit)",
        );
        return Footer::Search { bar: in_banner(text.as_str(), Color::Yellow) };
    }
    let host = if app.show_host {
        raw(" Host View (ON)  ")
    } else {
        raw(" Host View (OFF)  ")
    };
    let line = vec![
        in_bold(" [q]", Color::Yellow),
        raw(" Quit  "),
        in_bold("[/]", Color::Yellow),
        raw(" Filter  "),
        in_bold("[Tab/←/→]", Color::Yellow),
        raw(" Switch Pane  "),
        in_bold("[↑/↓/j/k]", Color::Yellow),
        raw(" Navigate  "),
        in_bold("[Enter]", Color::Yellow),
        raw(" Filter to Container  "),
        in_bold("[a]", Color::Yellow),
        host,
        in_bold("[c]", Color::Yellow),
        raw(" Clear  "),
    ];
    assert(line_view(line@) =~= app@.help_line());
    Footer::Help { line }
}

// ------------------------------------------------------------------- screen

/// Everything on the screen.
pub struct Screen {
    pub header: Vec<Segment>,
    pub containers: ContainersPane,
    pub connections: ConnectionsPane,
    pub footer: Footer,
}

impl Screen {
    /// Whether this is the screen of `app`.
    pub open spec fn shows(self, app: AppView) -> bool {
        &&& line_view(self.header@) == app.header_line()
        &&& self.containers.shows(app)
        &&& self.connections.shows(app)
        &&& self.footer.shows(app)
    }
}

/// Prunes the feed as of `now`, with ages read at `later`, and composes the
/// screen.
pub fn render_ui_at(app: &mut App, now: Timestamp, later: Timestamp) -> (screen: Screen)
    ensures
        final(app)@ == old(app)@.after_prune(now, later),
        screen.shows(final(app)@),
{
    app.prune_expired_at(now, later);
    Screen {
        header: render_header(app),
        containers: render_containers_pane(app),
        connections: render_connections_pane(app),
        footer: render_footer(app),
    }
}

/// Drops what has expired, and composes the screen.
pub fn render_ui(app: &mut App) -> (screen: Screen)
    ensures
        exists|now: Timestamp, later: Timestamp|
            now.can_be_present() && now.nanos <= later.nanos && final(app)@ == #[trigger] old(
                app,
            )@.after_prune(now, later),
        screen.shows(final(app)@),
{
    let now = app.clock.now();
    let later = app.clock.now_after(now);
    render_ui_at(app, now, later)
}

// --------------------------------------------------------------------- laws

/// The counters of what is active stay within the counters of what there is.
pub proof fn law_active_counts_are_bounded(app: AppView)
    requires
        app.containers.dom().finite(),
    ensures
        active_groups(app.containers).len() <= app.containers.len(),
        active_rows(app.connections).len() <= app.connections.len(),
{
    app.containers.dom().lemma_len_filter(|id: u64| app.containers[id].is_active);
    app.connections.lemma_filter_len(
        |item: ConnectionItem| item.status == ConnectionStatus::Active,
    );
}

/// The table never grows over its size, it shows nothing that the filters hide,
/// and while everything fits it leaves nothing out.
pub proof fn law_table_is_bounded(app: AppView)
    ensures
        app.table_rows().len() <= MAX_ROWS,
        forall|i: int|
            0 <= i < app.table_rows().len() ==> #[trigger] app.table_rows()[i] == app.shown()[i],
        app.shown().len() <= MAX_ROWS ==> app.table_rows() == app.shown(),
{
}

} // verus!
