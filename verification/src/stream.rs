//! Plain-text streaming: one line per connection that opens or closes.

use crate::addr::{recorded_address, IpAddr};
use crate::dns::text_of;
use crate::docker::ContainerInfo;
use crate::events::{ConnectEvent, SocketCloseEvent};
use crate::text::{join3, padded, push_padded, push_repeated, repeated, utf8_lossy};
use crate::traffic::{
    closed_endpoint, closed_endpoint_of, command_name, destination_of, destination_text,
    endpoint_text, event_endpoint, label_of, protocol_label, service_of, service_text, trim_nuls,
    IPPROTO_TCP,
};
use std::collections::HashMap;
use vstd::prelude::*;

verus! {

broadcast use vstd::std_specs::hash::group_hash_axioms;

// ------------------------------------------------------------------ colours

/// `text` in bold green.
pub open spec fn green(text: Seq<char>) -> Seq<char> {
    "\x1b[1;32m"@ + text + "\x1b[0m"@
}

/// `text` in bold yellow.
pub open spec fn yellow(text: Seq<char>) -> Seq<char> {
    "\x1b[1;33m"@ + text + "\x1b[0m"@
}

/// `text` in grey.
pub open spec fn grey(text: Seq<char>) -> Seq<char> {
    "\x1b[90m"@ + text + "\x1b[0m"@
}

fn in_green(text: &str) -> (s: String)
    ensures
        s@ == green(text@),
{
    join3("\x1b[1;32m", text, "\x1b[0m")
}

fn in_yellow(text: &str) -> (s: String)
    ensures
        s@ == yellow(text@),
{
    join3("\x1b[1;33m", text, "\x1b[0m")
}

fn in_grey(text: &str) -> (s: String)
    ensures
        s@ == grey(text@),
{
    join3("\x1b[90m", text, "\x1b[0m")
}

// ------------------------------------------------------------------ columns

/// The columns of a connection that stay the same until it closes.
pub struct SocketColumns {
    pub container: String,
    pub service: String,
    pub image: String,
    pub destination: String,
    pub endpoint: String,
}

/// What `SocketColumns` say.
#[verifier::ext_equal]
pub struct ColumnsView {
    pub container: Seq<char>,
    pub service: Seq<char>,
    pub image: Seq<char>,
    pub destination: Seq<char>,
    pub endpoint: Seq<char>,
}

impl View for SocketColumns {
    type V = ColumnsView;

    open spec fn view(&self) -> ColumnsView {
        ColumnsView {
            container: self.container@,
            service: self.service@,
            image: self.image@,
            destination: self.destination@,
            endpoint: self.endpoint@,
        }
    }
}

/// A column after the first: a space, and `text` padded to `width`.
pub open spec fn cell(text: Seq<char>, width: nat) -> Seq<char> {
    seq![' '] + padded(text, width)
}

/// The columns behind the status of a line, each padded to its width.
pub open spec fn line_tail(time: Seq<char>, columns: ColumnsView, proto: Seq<char>) -> Seq<char> {
    cell(time, 12) + cell(columns.container, 33) + cell(columns.service, 16) + cell(
        columns.image,
        29,
    ) + cell(proto, 6) + cell(columns.destination, 41) + cell(columns.endpoint, 24)
}

/// The line of a connection that opened.
pub open spec fn active_line(time: Seq<char>, columns: ColumnsView, proto: Seq<char>) -> Seq<char> {
    green(padded("● ACTIVE"@, 10)) + line_tail(time, columns, proto)
}

/// The line of a connection that closed.
pub open spec fn closed_line(time: Seq<char>, columns: ColumnsView) -> Seq<char> {
    grey(padded("○ CLOSED"@, 10) + line_tail(time, columns, "TCP"@))
}

fn padded_text(text: &str, width: usize) -> (s: String)
    ensures
        s@ == padded(text@, width as nat),
{
    let mut s = String::new();
    push_padded(&mut s, text, width);
    assert(s@ =~= padded(text@, width as nat));
    s
}

fn push_cell(line: &mut String, text: &str, width: usize)
    ensures
        final(line)@ == old(line)@ + cell(text@, width as nat),
{
    line.push(' ');
    push_padded(line, text, width);
    assert(line@ =~= old(line)@ + cell(text@, width as nat));
}

fn line_tail_text(time: &str, columns: &SocketColumns, proto: &str) -> (tail: String)
    ensures
        tail@ == line_tail(time@, columns@, proto@),
{
    let mut tail = String::new();
    push_cell(&mut tail, time, 12);
    assert(tail@ =~= cell(time@, 12));
    push_cell(&mut tail, columns.container.as_str(), 33);
    push_cell(&mut tail, columns.service.as_str(), 16);
    push_cell(&mut tail, columns.image.as_str(), 29);
    push_cell(&mut tail, proto, 6);
    push_cell(&mut tail, columns.destination.as_str(), 41);
    push_cell(&mut tail, columns.endpoint.as_str(), 24);
    tail
}

fn active_text(time: &str, columns: &SocketColumns, proto: &str) -> (line: String)
    ensures
        line@ == active_line(time@, columns@, proto@),
{
    let status = padded_text("● ACTIVE", 10);
    let mut line = in_green(status.as_str());
    let tail = line_tail_text(time, columns, proto);
    line.append(tail.as_str());
    line
}

fn closed_text(time: &str, columns: &SocketColumns) -> (line: String)
    ensures
        line@ == closed_line(time@, columns@),
{
    let mut line = padded_text("○ CLOSED", 10);
    let tail = line_tail_text(time, columns, "TCP");
    line.append(tail.as_str());
    in_grey(line.as_str())
}

/// The line of column titles.
pub open spec fn title_line() -> Seq<char> {
    padded("STATUS"@, 10) + cell("TIME"@, 12) + cell("CONTAINER"@, 24) + cell("SERVICE"@, 16)
        + cell("IMAGE/PROCESS"@, 20) + cell("PROTO"@, 6) + cell("DESTINATION"@, 32) + cell(
        "DST IP"@,
        24,
    )
}

/// The line of column titles, and the rule below it.
pub fn header() -> (lines: (String, String))
    ensures
        lines.0@ == title_line(),
        lines.1@ == repeated('─', 150),
{
    let mut titles = padded_text("STATUS", 10);
    push_cell(&mut titles, "TIME", 12);
    push_cell(&mut titles, "CONTAINER", 24);
    push_cell(&mut titles, "SERVICE", 16);
    push_cell(&mut titles, "IMAGE/PROCESS", 20);
    push_cell(&mut titles, "PROTO", 6);
    push_cell(&mut titles, "DESTINATION", 32);
    push_cell(&mut titles, "DST IP", 24);
    let mut rule = String::new();
    push_repeated(&mut rule, '─', 150);
    assert(rule@ =~= repeated('─', 150));
    (titles, rule)
}

/// The columns of a connection: who made it, where it goes by name, and by
/// address.
pub open spec fn columns_of(
    event: ConnectEvent,
    container: Option<ContainerInfo>,
    command: Seq<char>,
    domain: Option<Seq<char>>,
) -> ColumnsView {
    let destination = destination_of(domain, event.proto, event.dport);
    ColumnsView {
        container: match container {
            Some(info) => green(info.name@),
            None => grey("[HOST]"@),
        },
        service: match container {
            Some(info) => service_of(info),
            None => "-"@,
        },
        image: match container {
            Some(info) => info.image@,
            None => grey(command),
        },
        destination: match domain {
            Some(_) => yellow(destination),
            None => destination,
        },
        endpoint: event_endpoint(event),
    }
}

/// The columns of a connection by `container`, or else by a command on the
/// host, whose address resolves to `domain`, if to any name.
pub fn connection_columns(
    event: &ConnectEvent,
    container: &Option<ContainerInfo>,
    command: &str,
    domain: &Option<String>,
) -> (columns: SocketColumns)
    ensures
        columns@ == columns_of(*event, *container, command@, text_of(*domain)),
{
    let ip = IpAddr::recorded(event.ip_version, &event.daddr);
    let endpoint = endpoint_text(ip, event.proto, event.dport);
    let plain = destination_text(domain, event.proto, event.dport);
    let destination: String = match domain {
        Some(_) => in_yellow(plain.as_str()),
        None => plain,
    };
    match container {
        Some(info) => SocketColumns {
            container: in_green(info.name.as_str()),
            service: service_text(info),
            image: info.image.clone(),
            destination,
            endpoint,
        },
        None => SocketColumns {
            container: in_grey("[HOST]"),
            service: "-".to_owned(),
            image: in_grey(command),
            destination,
            endpoint,
        },
    }
}

/// The columns of a socket on the host that closed without having been seen to
/// open.
pub open spec fn stranger_columns(event: SocketCloseEvent, domain: Option<Seq<char>>) -> ColumnsView {
    ColumnsView {
        container: grey("[HOST]"@),
        service: "-"@,
        image: "-"@,
        destination: destination_of(domain, IPPROTO_TCP, event.dport),
        endpoint: closed_endpoint_of(event),
    }
}

// ------------------------------------------------------------------- stream

/// The state behind the stream: the sockets that are open, and whether host
/// traffic is shown.
pub struct Stream {
    active_sockets: HashMap<u64, SocketColumns>,
    show_host: bool,
}

/// What a `Stream` holds.
#[verifier::ext_equal]
pub struct StreamView {
    pub sockets: Map<u64, ColumnsView>,
    pub show_host: bool,
}

impl View for Stream {
    type V = StreamView;

    closed spec fn view(&self) -> StreamView {
        StreamView {
            sockets: self.active_sockets@.map_values(|c: SocketColumns| c@),
            show_host: self.show_host,
        }
    }
}

impl StreamView {
    /// Whether a connection of `container`, if it has one, is shown.
    pub open spec fn shows(self, container: Option<ContainerInfo>) -> bool {
        container is Some || self.show_host
    }

    /// The stream after a connection with these columns was shown: a socket
    /// with a kernel address is remembered until it closes.
    pub open spec fn after_connect(self, skaddr: u64, columns: ColumnsView) -> StreamView {
        if skaddr != 0 {
            StreamView { sockets: self.sockets.insert(skaddr, columns), ..self }
        } else {
            self
        }
    }

    /// The stream after a socket closed.
    pub open spec fn after_close(self, skaddr: u64) -> StreamView {
        StreamView { sockets: self.sockets.remove(skaddr), ..self }
    }
}

/// What to do about a close report.
pub enum CloseStep {
    /// Print this line.
    Print { line: String },
    /// Look up the name of this address, then print the line of a stranger.
    LookUp { ip: IpAddr },
    /// Nothing.
    Skip,
}

impl Stream {
    /// A stream on which nothing was seen yet.
    pub fn new(show_host: bool) -> (stream: Self)
        ensures
            stream@.sockets == Map::<u64, ColumnsView>::empty(),
            stream@.show_host == show_host,
    {
        let stream = Stream { active_sockets: HashMap::new(), show_host };
        assert(stream@.sockets =~= Map::<u64, ColumnsView>::empty());
        stream
    }

    /// Whether a connection of `container`, if it has one, is shown.
    pub fn shows(&self, container: &Option<ContainerInfo>) -> (yes: bool)
        ensures
            yes == self@.shows(*container),
    {
        container.is_some() || self.show_host
    }

    /// The line for a recorded connection, if it is shown, given what is known
    /// of its container, the name that its address resolves to, and its time
    /// as text.
    pub fn on_connect(
        &mut self,
        event: &ConnectEvent,
        container: &Option<ContainerInfo>,
        domain: &Option<String>,
        time_str: &str,
    ) -> (line: Option<String>)
        ensures
            ({
                let columns = columns_of(
                    *event,
                    *container,
                    trim_nuls(utf8_lossy(event.comm@)),
                    text_of(*domain),
                );
                if old(self)@.shows(*container) {
                    &&& line is Some
                    &&& line->0@ == active_line(time_str@, columns, label_of(event.proto))
                    &&& final(self)@ == old(self)@.after_connect(event.skaddr, columns)
                } else {
                    line is None && final(self)@ == old(self)@
                }
            }),
    {
        if !self.shows(container) {
            return None;
        }
        let ghost before = self@;
        let command = command_name(&event.comm);
        let columns = connection_columns(event, container, command.as_str(), domain);
        let proto = protocol_label(event.proto);
        let line = active_text(time_str, &columns, proto.as_str());
        if event.skaddr != 0 {
            let ghost view = columns@;
            self.active_sockets.insert(event.skaddr, columns);
            assert(self@.sockets =~= before.sockets.insert(event.skaddr, view));
        }
        Some(line)
    }

    /// What to do about a close report, given its time as text: a socket that
    /// was shown when it opened is shown again; of others only host traffic
    /// matters, and only when it is shown.
    pub fn on_close(&mut self, event: &SocketCloseEvent, time_str: &str) -> (step: CloseStep)
        ensures
            final(self)@ == old(self)@.after_close(event.skaddr),
            match step {
                CloseStep::Print { line } => old(self)@.sockets.contains_key(event.skaddr) && line@
                    == closed_line(time_str@, old(self)@.sockets[event.skaddr]),
                CloseStep::LookUp { ip } => !old(self)@.sockets.contains_key(event.skaddr) && old(
                    self,
                )@.show_host && ip == recorded_address(event.ip_version, event.daddr@),
                CloseStep::Skip => !old(self)@.sockets.contains_key(event.skaddr) && !old(
                    self,
                )@.show_host,
            },
    {
        let ghost before = self@;
        let removed = self.active_sockets.remove(&event.skaddr);
        assert(self@.sockets =~= before.sockets.remove(event.skaddr));
        match removed {
            Some(columns) => CloseStep::Print { line: closed_text(time_str, &columns) },
            None => if self.show_host {
                CloseStep::LookUp { ip: IpAddr::recorded(event.ip_version, &event.daddr) }
            } else {
                CloseStep::Skip
            },
        }
    }
}

/// The line of a socket on the host that closed without having been seen to
/// open, with the name that its address resolves to.
pub fn stranger_line(event: &SocketCloseEvent, domain: &Option<String>, time_str: &str) -> (line:
    String)
    ensures
        line@ == closed_line(time_str@, stranger_columns(*event, text_of(*domain))),
{
    let columns = SocketColumns {
        container: in_grey("[HOST]"),
        service: "-".to_owned(),
        image: "-".to_owned(),
        destination: destination_text(domain, IPPROTO_TCP, event.dport),
        endpoint: closed_endpoint(event),
    };
    closed_text(time_str, &columns)
}

// -------------------------------------------------------------------- laws

/// A socket closes as it opened: a close report of a shown socket finds the
/// columns that were shown, and a second report finds none; other sockets are
/// not affected.
pub proof fn law_socket_closes_as_it_opened(
    stream: StreamView,
    skaddr: u64,
    columns: ColumnsView,
    other: u64,
)
    requires
        skaddr != 0,
    ensures
        stream.after_connect(skaddr, columns).sockets.contains_key(skaddr),
        stream.after_connect(skaddr, columns).sockets[skaddr] == columns,
        !stream.after_connect(skaddr, columns).after_close(skaddr).sockets.contains_key(skaddr),
        other != skaddr ==> {
            let after = stream.after_connect(skaddr, columns).after_close(skaddr);
            &&& after.sockets.contains_key(other) == stream.sockets.contains_key(other)
            &&& stream.sockets.contains_key(other) ==> after.sockets[other]
                == stream.sockets[other]
        },
{
}

} // verus!
