//! From what the probes saw to what the feed shows: labels, endpoints, names
//! and keys of connections.

use crate::addr::{recorded_address, v4_text, v6_text, IpAddr};
use crate::addr_laws::{law_texts_tell_addresses_apart, lemma_v4_text_shape, lemma_v6_text_shape};
use crate::clock::Timestamp;
use crate::dns::text_of;
use crate::docker::ContainerInfo;
use crate::events::{ConnectEvent, SocketCloseEvent};
use crate::text::{
    decimal, from_utf8_lossy, lemma_decimal_digits, lemma_decimal_injective, lemma_decimal_lacks,
    lemma_split_at_first, lemma_split_at_last, push_decimal, trim_end, trim_end_of, trim_start,
    trim_start_of, utf8_lossy,
};
use crate::ui::{
    is_listing, updated_container, App, AppView, ConnectionItem, ConnectionStatus,
};
use vstd::prelude::*;

verus! {

/// The protocol number of ICMP.
pub const IPPROTO_ICMP: u8 = 1;

/// The protocol number of TCP.
pub const IPPROTO_TCP: u8 = 6;

/// The protocol number of UDP.
pub const IPPROTO_UDP: u8 = 17;

/// The protocol number of ICMP for IPv6.
pub const IPPROTO_ICMPV6: u8 = 58;

// ------------------------------------------------------------------ labels

/// What a protocol is called.
pub open spec fn label_of(proto: u8) -> Seq<char> {
    if proto == IPPROTO_ICMP {
        "ICMP"@
    } else if proto == IPPROTO_TCP {
        "TCP"@
    } else if proto == IPPROTO_UDP {
        "UDP"@
    } else if proto == IPPROTO_ICMPV6 {
        "ICMPv6"@
    } else {
        "RAW"@
    }
}

/// What a protocol is called.
pub fn protocol_label(proto: u8) -> (label: String)
    ensures
        label@ == label_of(proto),
{
    if proto == IPPROTO_ICMP {
        "ICMP".to_owned()
    } else if proto == IPPROTO_TCP {
        "TCP".to_owned()
    } else if proto == IPPROTO_UDP {
        "UDP".to_owned()
    } else if proto == IPPROTO_ICMPV6 {
        "ICMPv6".to_owned()
    } else {
        "RAW".to_owned()
    }
}

/// A host with a port behind it.
pub open spec fn with_port(host: Seq<char>, port: u16) -> Seq<char> {
    host + seq![':'] + decimal(port as nat)
}

/// Appends a colon and `port` to `host`.
fn add_port(host: &mut String, port: u16)
    ensures
        final(host)@ == with_port(old(host)@, port),
{
    host.push(':');
    push_decimal(host, port as u64);
    assert(host@ =~= with_port(old(host)@, port));
}

/// An address with its port, as the feed shows it: the protocols for pings
/// have no port, and an IPv6 address stands in brackets.
pub open spec fn endpoint_of(ip: IpAddr, proto: u8, port: u16) -> Seq<char> {
    match ip {
        IpAddr::V4(n) => if proto == IPPROTO_ICMP {
            v4_text(n)
        } else {
            with_port(v4_text(n), port)
        },
        IpAddr::V6(n) => if proto == IPPROTO_ICMPV6 {
            v6_text(n)
        } else {
            with_port(seq!['['] + v6_text(n) + seq![']'], port)
        },
    }
}

/// An address with its port, as the feed shows it.
pub fn endpoint_text(ip: IpAddr, proto: u8, port: u16) -> (text: String)
    ensures
        text@ == endpoint_of(ip, proto, port),
{
    match ip {
        IpAddr::V4(_) => {
            let mut text = ip.text();
            if proto != IPPROTO_ICMP {
                add_port(&mut text, port);
            }
            text
        },
        IpAddr::V6(_) => {
            let plain = ip.text();
            if proto == IPPROTO_ICMPV6 {
                plain
            } else {
                let mut text = String::new();
                text.push('[');
                text.append(plain.as_str());
                text.push(']');
                assert(text@ =~= seq!['['] + plain@ + seq![']']);
                add_port(&mut text, port);
                text
            }
        },
    }
}

/// The destination that a close report names: address and port.
pub open spec fn closed_endpoint_of(event: SocketCloseEvent) -> Seq<char> {
    with_port(recorded_address(event.ip_version, event.daddr@).spec_text(), event.dport)
}

/// The destination that a close report names.
pub fn closed_endpoint(event: &SocketCloseEvent) -> (text: String)
    ensures
        text@ == closed_endpoint_of(*event),
{
    let mut text = IpAddr::recorded(event.ip_version, &event.daddr).text();
    add_port(&mut text, event.dport);
    text
}

/// The destination by name: the resolved domain with its port (pings have
/// none), or a dash when no name is known.
pub open spec fn destination_of(domain: Option<Seq<char>>, proto: u8, port: u16) -> Seq<char> {
    match domain {
        Some(name) => if proto == IPPROTO_ICMP || proto == IPPROTO_ICMPV6 {
            name
        } else {
            with_port(name, port)
        },
        None => "-"@,
    }
}

/// The destination by name.
pub fn destination_text(domain: &Option<String>, proto: u8, port: u16) -> (text: String)
    ensures
        text@ == destination_of(text_of(*domain), proto, port),
{
    match domain {
        Some(name) => {
            let mut text = name.clone();
            if proto != IPPROTO_ICMP && proto != IPPROTO_ICMPV6 {
                add_port(&mut text, port);
            }
            text
        },
        None => "-".to_owned(),
    }
}

// ------------------------------------------------------------- attribution

/// `text` without the zero characters at its ends.
pub open spec fn trim_nuls(text: Seq<char>) -> Seq<char> {
    trim_end(trim_start(text, '\0'), '\0')
}

/// `text` without the zero characters at its ends.
pub fn without_nuls(text: &str) -> (trimmed: String)
    ensures
        trimmed@ == trim_nuls(text@),
{
    let right = trim_start_of(text, '\0');
    trim_end_of(right.as_str(), '\0')
}

/// The name of a command, from the fixed field that the kernel keeps it in.
pub fn command_name(comm: &[u8; 16]) -> (name: String)
    ensures
        name@ == trim_nuls(utf8_lossy(comm@)),
{
    let text = from_utf8_lossy(comm.as_slice());
    without_nuls(text.as_str())
}

/// Who made a connection, as texts.
#[verifier::ext_equal]
pub struct OriginView {
    pub container_name: Seq<char>,
    pub service: Seq<char>,
    pub image: Seq<char>,
    pub is_docker: bool,
}

/// Who made a connection.
pub struct Origin {
    pub container_name: String,
    pub service: String,
    pub image: String,
    pub is_docker: bool,
}

impl View for Origin {
    type V = OriginView;

    open spec fn view(&self) -> OriginView {
        OriginView {
            container_name: self.container_name@,
            service: self.service@,
            image: self.image@,
            is_docker: self.is_docker,
        }
    }
}

/// The Compose service of a container, or a dash.
pub open spec fn service_of(info: ContainerInfo) -> Seq<char> {
    match info.compose_service {
        Some(service) => service@,
        None => "-"@,
    }
}

/// The Compose service of a container, or a dash.
pub fn service_text(info: &ContainerInfo) -> (text: String)
    ensures
        text@ == service_of(*info),
{
    match &info.compose_service {
        Some(service) => service.clone(),
        None => "-".to_owned(),
    }
}

/// Who made a connection: a container, or else a command on the host.
pub open spec fn origin_of(container: Option<ContainerInfo>, command: Seq<char>) -> OriginView {
    match container {
        Some(info) => OriginView {
            container_name: info.name@,
            service: service_of(info),
            image: info.image@,
            is_docker: true,
        },
        None => OriginView {
            container_name: "[HOST]"@,
            service: "-"@,
            image: command,
            is_docker: false,
        },
    }
}

/// Who made a connection: a container, or else a command on the host.
pub fn origin(container: &Option<ContainerInfo>, command: &str) -> (who: Origin)
    ensures
        who@ == origin_of(*container, command@),
{
    match container {
        Some(info) => Origin {
            container_name: info.name.clone(),
            service: service_text(info),
            image: info.image.clone(),
            is_docker: true,
        },
        None => Origin {
            container_name: "[HOST]".to_owned(),
            service: "-".to_owned(),
            image: command.to_owned(),
            is_docker: false,
        },
    }
}

// -------------------------------------------------------------------- keys

/// The destination of a recorded connection.
pub open spec fn event_endpoint(event: ConnectEvent) -> Seq<char> {
    endpoint_of(
        recorded_address(event.ip_version, event.daddr@),
        event.proto,
        event.dport,
    )
}

/// The key of a connection: control group, protocol, and the kernel address of
/// the socket, or the destination when there is none.
pub open spec fn key_of(event: ConnectEvent) -> Seq<char> {
    decimal(event.cgroup_id as nat) + seq![':'] + label_of(event.proto) + seq![':'] + if event.skaddr
        != 0 {
        decimal(event.skaddr as nat)
    } else {
        event_endpoint(event)
    }
}

/// The key of a connection to `endpoint`.
fn connection_key(event: &ConnectEvent, endpoint: &str) -> (key: String)
    requires
        endpoint@ == event_endpoint(*event),
    ensures
        key@ == key_of(*event),
{
    let mut key = String::new();
    push_decimal(&mut key, event.cgroup_id);
    key.push(':');
    let label = protocol_label(event.proto);
    key.append(label.as_str());
    key.push(':');
    if event.skaddr != 0 {
        push_decimal(&mut key, event.skaddr);
    } else {
        key.append(endpoint);
    }
    assert(key@ =~= key_of(*event));
    key
}

// -------------------------------------------------------------------- rows

/// What a `ConnectionItem` says.
#[verifier::ext_equal]
pub struct ItemView {
    pub key: Seq<char>,
    pub skaddr: u64,
    pub time_str: Seq<char>,
    pub origin: OriginView,
    pub proto: Seq<char>,
    pub destination: Seq<char>,
    pub dst_ip_str: Seq<char>,
    pub cgroup_id: u64,
    pub status: ConnectionStatus,
    pub closed_at: Option<Timestamp>,
    pub last_seen: Timestamp,
}

impl View for ConnectionItem {
    type V = ItemView;

    open spec fn view(&self) -> ItemView {
        ItemView {
            key: self.key@,
            skaddr: self.skaddr,
            time_str: self.time_str@,
            origin: OriginView {
                container_name: self.container_name@,
                service: self.service@,
                image: self.image@,
                is_docker: self.is_docker,
            },
            proto: self.proto@,
            destination: self.destination@,
            dst_ip_str: self.dst_ip_str@,
            cgroup_id: self.cgroup_id,
            status: self.status,
            closed_at: self.closed_at,
            last_seen: self.last_seen,
        }
    }
}

/// The row of a connection that was seen at `now`.
pub open spec fn row_of(
    event: ConnectEvent,
    who: OriginView,
    domain: Option<Seq<char>>,
    time: Seq<char>,
    now: Timestamp,
) -> ItemView {
    ItemView {
        key: key_of(event),
        skaddr: event.skaddr,
        time_str: time,
        origin: who,
        proto: label_of(event.proto),
        destination: destination_of(domain, event.proto, event.dport),
        dst_ip_str: event_endpoint(event),
        cgroup_id: event.cgroup_id,
        status: ConnectionStatus::Active,
        closed_at: None,
        last_seen: now,
    }
}

/// The row of a connection by `who`, seen at `now`, with the name that its
/// address resolves to, if any, and its time as text.
pub fn connection_row(
    event: &ConnectEvent,
    who: Origin,
    domain: &Option<String>,
    time_str: String,
    now: Timestamp,
) -> (row: ConnectionItem)
    ensures
        row@ == row_of(*event, who@, text_of(*domain), time_str@, now),
{
    let ip = IpAddr::recorded(event.ip_version, &event.daddr);
    let endpoint = endpoint_text(ip, event.proto, event.dport);
    ConnectionItem {
        key: connection_key(event, endpoint.as_str()),
        skaddr: event.skaddr,
        time_str,
        container_name: who.container_name,
        service: who.service,
        image: who.image,
        proto: protocol_label(event.proto),
        destination: destination_text(domain, event.proto, event.dport),
        dst_ip_str: endpoint,
        is_docker: who.is_docker,
        cgroup_id: event.cgroup_id,
        status: ConnectionStatus::Active,
        closed_at: None,
        last_seen: now,
    }
}

impl AppView {
    /// Whether the state after a connection of `container`, if it has one, was
    /// noted is `after`: the container is updated with its name, service and
    /// image.
    pub open spec fn noted(self, container: Option<ContainerInfo>, after: AppView) -> bool {
        match container {
            Some(info) => {
                &&& exists|service: String|
                    service@ == service_of(info) && after.containers
                        == #[trigger] self.containers.insert(
                        info.cgroup_id,
                        updated_container(
                            self.containers,
                            info.cgroup_id,
                            info.name,
                            service,
                            info.image,
                        ),
                    )
                &&& is_listing(after.containers, after.sorted_containers)
                &&& after == (AppView {
                    containers: after.containers,
                    sorted_containers: after.sorted_containers,
                    ..self
                })
            },
            None => after == self,
        }
    }

    /// Whether the state after a recorded connection was shown at `now` is
    /// `after`: its container is noted, then its row is added.
    pub open spec fn showed_connect(
        self,
        event: ConnectEvent,
        container: Option<ContainerInfo>,
        domain: Option<Seq<char>>,
        time: Seq<char>,
        now: Timestamp,
        after: AppView,
    ) -> bool {
        exists|mid: AppView, item: ConnectionItem|
            {
                &&& #[trigger] self.noted(container, mid)
                &&& item@ == row_of(
                    event,
                    origin_of(container, trim_nuls(utf8_lossy(event.comm@))),
                    domain,
                    time,
                    now,
                )
                &&& #[trigger] mid.added(item, now, after)
            }
    }
}

impl App {
    /// Shows a connection that was recorded at `now`, with what is known of
    /// its container, the name that its address resolves to, and its time as
    /// text.
    pub fn show_connect_at(
        &mut self,
        event: &ConnectEvent,
        container: &Option<ContainerInfo>,
        domain: &Option<String>,
        time_str: String,
        now: Timestamp,
    )
        requires
            old(self)@.can_count(event.cgroup_id),
        ensures
            old(self)@.showed_connect(
                *event,
                *container,
                text_of(*domain),
                time_str@,
                now,
                final(self)@,
            ),
    {
        let ghost before = self@;
        if let Some(info) = container {
            let name = info.name.clone();
            let service = service_text(info);
            let image = info.image.clone();
            self.update_container(info.cgroup_id, name, service, image);
        }
        let ghost mid = self@;
        assert(before.noted(*container, mid));
        let command = command_name(&event.comm);
        let who = origin(container, command.as_str());
        let row = connection_row(event, who, domain, time_str, now);
        self.add_connection_at(row, now);
        assert(mid.added(row, now, self@));
    }

    /// Shows that a socket was reported closed just now.
    pub fn show_close(&mut self, event: &SocketCloseEvent)
        ensures
            exists|now: Timestamp|
                now.can_be_present() && final(self)@ == #[trigger] old(self)@.after_close(
                    event.skaddr,
                    closed_endpoint_of(*event),
                    now,
                ),
    {
        let endpoint = closed_endpoint(event);
        self.close_connection(event.skaddr, endpoint.as_str());
    }
}

// -------------------------------------------------------------------- laws

proof fn lemma_no_colon_in_label(proto: u8)
    ensures
        !label_of(proto).contains(':'),
{
    reveal_strlit("ICMP");
    reveal_strlit("TCP");
    reveal_strlit("UDP");
    reveal_strlit("ICMPv6");
    reveal_strlit("RAW");
}

/// What stands behind the second colon of a key.
pub open spec fn key_tail(event: ConnectEvent) -> Seq<char> {
    if event.skaddr != 0 {
        decimal(event.skaddr as nat)
    } else {
        event_endpoint(event)
    }
}

/// Keys are equal just when control group, protocol label and the rest are.
pub proof fn law_keys_decompose(a: ConnectEvent, b: ConnectEvent)
    ensures
        key_of(a) == key_of(b) <==> a.cgroup_id == b.cgroup_id && label_of(a.proto) == label_of(
            b.proto,
        ) && key_tail(a) == key_tail(b),
{
    if key_of(a) == key_of(b) {
        let rest_a = label_of(a.proto) + seq![':'] + key_tail(a);
        let rest_b = label_of(b.proto) + seq![':'] + key_tail(b);
        assert(key_of(a) =~= decimal(a.cgroup_id as nat) + seq![':'] + rest_a);
        assert(key_of(b) =~= decimal(b.cgroup_id as nat) + seq![':'] + rest_b);
        lemma_decimal_lacks(a.cgroup_id as nat, ':');
        lemma_decimal_lacks(b.cgroup_id as nat, ':');
        lemma_split_at_first(
            decimal(a.cgroup_id as nat),
            rest_a,
            decimal(b.cgroup_id as nat),
            rest_b,
            ':',
        );
        lemma_decimal_injective(a.cgroup_id as nat, b.cgroup_id as nat);
        lemma_no_colon_in_label(a.proto);
        lemma_no_colon_in_label(b.proto);
        lemma_split_at_first(
            label_of(a.proto),
            key_tail(a),
            label_of(b.proto),
            key_tail(b),
            ':',
        );
    }
}

/// Sockets never collide: two connections with kernel addresses have the same
/// key just when they are of the same control group, protocol label and
/// socket.
pub proof fn law_sockets_never_collide(a: ConnectEvent, b: ConnectEvent)
    requires
        a.skaddr != 0,
        b.skaddr != 0,
    ensures
        key_of(a) == key_of(b) <==> a.cgroup_id == b.cgroup_id && label_of(a.proto) == label_of(
            b.proto,
        ) && a.skaddr == b.skaddr,
{
    law_keys_decompose(a, b);
    if key_of(a) == key_of(b) {
        lemma_decimal_injective(a.skaddr as nat, b.skaddr as nat);
    }
}

/// A connection that is told by its socket is never taken for one that is told
/// by its destination.
pub proof fn law_socket_and_destination_keys_differ(a: ConnectEvent, b: ConnectEvent)
    requires
        a.skaddr != 0,
        b.skaddr == 0,
    ensures
        key_of(a) != key_of(b),
{
    law_keys_decompose(a, b);
    if key_of(a) == key_of(b) {
        lemma_endpoint_is_no_number(b);
        lemma_decimal_digits(a.skaddr as nat);
        let i = choose|i: int|
            0 <= i < event_endpoint(b).len() && !('0' <= #[trigger] event_endpoint(b)[i] <= '9');
        assert('0' <= decimal(a.skaddr as nat)[i] <= '9');
    }
}

/// The text of an endpoint has a character that is no digit.
proof fn lemma_endpoint_is_no_number(event: ConnectEvent)
    ensures
        exists|i: int|
            0 <= i < event_endpoint(event).len() && !('0' <= #[trigger] event_endpoint(event)[i]
                <= '9'),
{
    let text = event_endpoint(event);
    match recorded_address(event.ip_version, event.daddr@) {
        IpAddr::V4(n) => {
            lemma_v4_text_shape(n);
            let i = choose|i: int| 0 <= i < v4_text(n).len() && v4_text(n)[i] == '.';
            assert(text[i] == '.');
        },
        IpAddr::V6(n) => {
            if event.proto == IPPROTO_ICMPV6 {
                lemma_v6_text_shape(n);
                let i = choose|i: int| 0 <= i < v6_text(n).len() && v6_text(n)[i] == ':';
                assert(text[i] == ':');
            } else {
                assert(text[0] == '[');
            }
        },
    }
}

/// Whether the endpoint of an address shows its port.
pub open spec fn shows_port(ip: IpAddr, proto: u8) -> bool {
    match ip {
        IpAddr::V4(_) => proto != IPPROTO_ICMP,
        IpAddr::V6(_) => proto != IPPROTO_ICMPV6,
    }
}

proof fn lemma_with_port_injective(a: Seq<char>, p: u16, b: Seq<char>, q: u16)
    requires
        with_port(a, p) == with_port(b, q),
    ensures
        a == b,
        p == q,
{
    lemma_decimal_lacks(p as nat, ':');
    lemma_decimal_lacks(q as nat, ':');
    lemma_split_at_last(a, decimal(p as nat), b, decimal(q as nat), ':');
    lemma_decimal_injective(p as nat, q as nat);
}

proof fn lemma_endpoint_versions_differ(n: u32, x: u128, proto: u8, p: u16, q: u16)
    ensures
        endpoint_of(IpAddr::V4(n), proto, p) != endpoint_of(IpAddr::V6(x), proto, q),
{
    lemma_v4_text_shape(n);
    lemma_v6_text_shape(x);
    let a = endpoint_of(IpAddr::V4(n), proto, p);
    let b = endpoint_of(IpAddr::V6(x), proto, q);
    let i = choose|i: int| 0 <= i < v4_text(n).len() && v4_text(n)[i] == '.';
    assert(a[0] == v4_text(n)[0]);
    assert(a[i] == '.');
    if a == b {
        assert(b.contains('.'));
        if proto != IPPROTO_ICMPV6 {
            assert(b[0] == '[');
        }
    }
}

/// Endpoints tell destinations apart: under one protocol label, two endpoints
/// are the same text just when address and port are the same, or the address
/// where no port is shown.
pub proof fn law_endpoints_tell_destinations_apart(
    a: IpAddr,
    proto_a: u8,
    port_a: u16,
    b: IpAddr,
    proto_b: u8,
    port_b: u16,
)
    requires
        label_of(proto_a) == label_of(proto_b),
    ensures
        endpoint_of(a, proto_a, port_a) == endpoint_of(b, proto_b, port_b) <==> a == b && (
        shows_port(a, proto_a) ==> port_a == port_b),
{
    reveal_strlit("ICMP");
    reveal_strlit("TCP");
    reveal_strlit("UDP");
    reveal_strlit("ICMPv6");
    reveal_strlit("RAW");
    assert("ICMP"@.len() == 4 && "ICMPv6"@.len() == 6);
    assert(proto_a == IPPROTO_ICMP <==> proto_b == IPPROTO_ICMP);
    assert(proto_a == IPPROTO_ICMPV6 <==> proto_b == IPPROTO_ICMPV6);
    if endpoint_of(a, proto_a, port_a) == endpoint_of(b, proto_b, port_b) {
        law_texts_tell_addresses_apart(a, b);
        match (a, b) {
            (IpAddr::V4(m), IpAddr::V4(n)) => {
                if shows_port(a, proto_a) {
                    lemma_with_port_injective(v4_text(m), port_a, v4_text(n), port_b);
                }
            },
            (IpAddr::V6(x), IpAddr::V6(y)) => {
                if shows_port(a, proto_a) {
                    let s = seq!['['] + v6_text(x) + seq![']'];
                    let t = seq!['['] + v6_text(y) + seq![']'];
                    lemma_with_port_injective(s, port_a, t, port_b);
                    assert(v6_text(x) =~= s.subrange(1, s.len() - 1));
                    assert(v6_text(y) =~= t.subrange(1, t.len() - 1));
                }
            },
            (IpAddr::V4(m), IpAddr::V6(y)) => {
                assert(endpoint_of(b, proto_b, port_b) == endpoint_of(b, proto_a, port_b));
                lemma_endpoint_versions_differ(m, y, proto_a, port_a, port_b);
            },
            (IpAddr::V6(x), IpAddr::V4(n)) => {
                assert(endpoint_of(b, proto_b, port_b) == endpoint_of(b, proto_a, port_b));
                lemma_endpoint_versions_differ(n, x, proto_a, port_b, port_a);
            },
        }
    }
}

/// Destinations never collide: two connections without kernel addresses have
/// the same key just when they are of the same control group and protocol label
/// and go to the same address and, where it is shown, port.
pub proof fn law_destinations_never_collide(a: ConnectEvent, b: ConnectEvent)
    requires
        a.skaddr == 0,
        b.skaddr == 0,
    ensures
        ({
            let to_a = recorded_address(a.ip_version, a.daddr@);
            let to_b = recorded_address(b.ip_version, b.daddr@);
            key_of(a) == key_of(b) <==> {
                &&& a.cgroup_id == b.cgroup_id
                &&& label_of(a.proto) == label_of(b.proto)
                &&& to_a == to_b
                &&& shows_port(to_a, a.proto) ==> a.dport == b.dport
            }
        }),
{
    law_keys_decompose(a, b);
    if label_of(a.proto) == label_of(b.proto) {
        law_endpoints_tell_destinations_apart(
            recorded_address(a.ip_version, a.daddr@),
            a.proto,
            a.dport,
            recorded_address(b.ip_version, b.daddr@),
            b.proto,
            b.dport,
        );
    }
}

} // verus!
