//! What attributing a connection and naming its destination is for.

use crate::addr::{be_value, groups, joined, longest_zeros, recorded_address, v4_text, v6_text, IpAddr};
use crate::addr_laws::lemma_longest_zeros;
use crate::clock::Timestamp;
use crate::docker::ContainerInfo;
use crate::events::{ConnectEvent, SocketCloseEvent};
use crate::text::{decimal, hexadecimal};
use crate::text_laws::law_trimming_takes_the_run;
use crate::traffic::{
    closed_endpoint_of, destination_of, endpoint_of, event_endpoint, key_of, label_of, origin_of,
    row_of, service_of, trim_nuls, OriginView,
};
use crate::ui::{AppView, ConnectionItem, ConnectionStatus};
use vstd::prelude::*;

verus! {

// -------------------------------------------------------------- destination

/// A connection to a known name shows the name: with a colon and the port in
/// decimal behind it, whatever the protocol, save that pings (ICMP and ICMPv6)
/// show the name alone.
pub proof fn law_known_names_are_shown_with_their_port(name: Seq<char>, proto: u8, port: u16)
    ensures
        proto != 1 && proto != 58 ==> destination_of(Some(name), proto, port) == name + seq![':']
            + decimal(port as nat),
        proto == 1 || proto == 58 ==> destination_of(Some(name), proto, port) == name,
{
}

/// A connection to an address of no known name shows a dash, whatever else is
/// known of it.
pub proof fn law_unknown_names_are_a_dash(proto: u8, port: u16)
    ensures
        destination_of(None, proto, port) == seq!['-'],
{
    reveal_strlit("-");
}

/// Protocols are called by their names, and all but four are raw.
pub proof fn law_protocols_have_their_names(proto: u8)
    ensures
        label_of(1) == "ICMP"@,
        label_of(6) == "TCP"@,
        label_of(17) == "UDP"@,
        label_of(58) == "ICMPv6"@,
        proto != 1 && proto != 6 && proto != 17 && proto != 58 ==> label_of(proto) == "RAW"@,
{
}

/// An endpoint is the address with its port, where an IPv6 address stands in
/// brackets; an ICMP ping to an IPv4 address and an ICMPv6 ping to an IPv6 one
/// show the address alone.
pub proof fn law_endpoints_show_address_and_port(ip: IpAddr, proto: u8, port: u16)
    ensures
        ip is V4 && proto != 1 ==> endpoint_of(ip, proto, port) == ip.spec_text() + seq![':']
            + decimal(port as nat),
        ip is V4 && proto == 1 ==> endpoint_of(ip, proto, port) == ip.spec_text(),
        ip is V6 && proto != 58 ==> endpoint_of(ip, proto, port) == seq!['['] + ip.spec_text()
            + seq![']'] + seq![':'] + decimal(port as nat),
        ip is V6 && proto == 58 ==> endpoint_of(ip, proto, port) == ip.spec_text(),
{
}

/// A record's endpoint is that of the address that its octets spell, and a close
/// report names address and port without brackets.
pub proof fn law_records_name_their_address(event: ConnectEvent, close: SocketCloseEvent)
    ensures
        event_endpoint(event) == endpoint_of(
            recorded_address(event.ip_version, event.daddr@),
            event.proto,
            event.dport,
        ),
        closed_endpoint_of(close) == recorded_address(close.ip_version, close.daddr@).spec_text()
            + seq![':'] + decimal(close.dport as nat),
{
}

// ------------------------------------------------------------ address texts

/// An IPv4 address is shown as its four octets in decimal, with dots between
/// them, whatever lies behind the first four octets of the record.
pub proof fn law_v4_addresses_show_their_octets(o: Seq<u8>)
    requires
        o.len() >= 4,
    ensures
        recorded_address(4, o).spec_text() == decimal(o[0] as nat) + seq!['.'] + decimal(
            o[1] as nat,
        ) + seq!['.'] + decimal(o[2] as nat) + seq!['.'] + decimal(o[3] as nat),
{
    reveal_with_fuel(be_value, 5);
    let four = o.take(4);
    let n = ((o[0] * 256 + o[1]) * 256 + o[2]) * 256 + o[3];
    assert(be_value(four) == n);
    assert(0 <= n < 0x1_0000_0000);
    assert(n / 0x100_0000 == o[0]);
    assert(n / 0x1_0000 % 0x100 == o[1]);
    assert(n / 0x100 % 0x100 == o[2]);
    assert(n % 0x100 == o[3]);
}

/// The text of an IPv6 address, in terms of its eight groups: an IPv4-mapped
/// address shows the last two as an IPv4 address; else the first of the longest
/// runs of two or more zero groups, if there is one, is a double colon, and
/// every other group is in hexadecimal, with colons between them.
pub proof fn law_v6_addresses_show_their_groups(x: u128)
    ensures
        ({
            let g = groups(x);
            let text = v6_text(x);
            let mapped = g[0] == 0 && g[1] == 0 && g[2] == 0 && g[3] == 0 && g[4] == 0 && g[5]
                == 0xffff;
            &&& g.len() == 8
            &&& mapped ==> text == seq![':', ':', 'f', 'f', 'f', 'f', ':'] + v4_text(
                (g[6] * 0x1_0000 + g[7]) as u32,
            )
            &&& !mapped && (forall|k: int| 0 <= k < 7 ==> !(#[trigger] g[k] == 0 && g[k + 1] == 0))
                ==> text == joined(g)
            &&& !mapped && (exists|k: int| 0 <= k < 7 && #[trigger] g[k] == 0 && g[k + 1] == 0)
                ==> exists|i: int, n: int|
                {
                    &&& #[trigger] shrinks(g, i, n)
                    &&& text == joined(g.take(i)) + seq![':', ':'] + joined(g.skip(i + n))
                }
        }),
{
    let g = groups(x);
    let text = v6_text(x);
    let mapped = g[0] == 0 && g[1] == 0 && g[2] == 0 && g[3] == 0 && g[4] == 0 && g[5] == 0xffff;
    assert((x >> 32 == 0xffff) <==> (((x >> 112) & 0xffff) as u16 == 0 && ((x >> 96) & 0xffff) as u16
        == 0 && ((x >> 80) & 0xffff) as u16 == 0 && ((x >> 64) & 0xffff) as u16 == 0 && ((x >> 48)
        & 0xffff) as u16 == 0 && ((x >> 32) & 0xffff) as u16 == 0xffff)) by (bit_vector);
    assert((x >> 32 == 0xffff) == mapped);
    if mapped {
        assert((x & 0xffff_ffff) as u32 == (((x >> 16) & 0xffff) as u16) * 0x1_0000u32 + (((x >> 0)
            & 0xffff) as u16)) by (bit_vector);
    } else {
        lemma_longest_zeros(g);
        let (i, n) = longest_zeros(g);
        assert(crate::addr::zero_run(g, i, n));
        if n > 1 {
            assert(g[i] == 0 && g[i + 1] == 0);
            assert(shrinks(g, i, n)) by {
                assert forall|k: int, m: int| #[trigger] all_zero(g, k, m) implies m <= n && (m == n
                    ==> i <= k) by {
                    assert(crate::addr::zero_run(g, k, m));
                }
            }
        } else {
            if exists|k: int| 0 <= k < 7 && #[trigger] g[k] == 0 && g[k + 1] == 0 {
                let k = choose|k: int| 0 <= k < 7 && #[trigger] g[k] == 0 && g[k + 1] == 0;
                assert(crate::addr::zero_run(g, k, 2));
            }
        }
    }
}

/// Whether the `n` groups from `i` on are all zero.
pub open spec fn all_zero(g: Seq<u16>, i: int, n: int) -> bool {
    0 <= i && 0 <= n && i + n <= g.len() && forall|j: int| i <= j < i + n ==> #[trigger] g[j] == 0
}

/// Whether the `n` groups from `i` on are the run of zeros that shrinks: no run
/// is longer, and none as long comes before it.
pub open spec fn shrinks(g: Seq<u16>, i: int, n: int) -> bool {
    &&& n > 1
    &&& all_zero(g, i, n)
    &&& forall|k: int, m: int| #[trigger] all_zero(g, k, m) ==> m <= n && (m == n ==> i <= k)
}

/// A record of any version but 4 has an IPv6 address, and the groups of it are
/// its octets, two by two.
pub proof fn law_v6_groups_are_pairs_of_octets(ip_version: u8, o: Seq<u8>, k: int)
    requires
        ip_version != 4,
        o.len() == 16,
        0 <= k < 8,
    ensures
        recorded_address(ip_version, o) is V6,
        recorded_address(ip_version, o).spec_text() == v6_text(
            recorded_address(ip_version, o)->V6_0,
        ),
        groups(recorded_address(ip_version, o)->V6_0)[k] == o[2 * k] * 256 + o[2 * k + 1],
{
    lemma_octets_peel(o, 16);
    lemma_octets_peel(o, 14);
    lemma_octets_peel(o, 12);
    lemma_octets_peel(o, 10);
    lemma_octets_peel(o, 8);
    lemma_octets_peel(o, 6);
    lemma_octets_peel(o, 4);
    lemma_octets_peel(o, 2);
    assert(o.take(16) =~= o);
    assert(o.take(0) =~= seq![]);
    let x = be_value(o);
    lemma_divide_stepwise(x);
    assert(be_value(o.take(0)) == 0);
    assert(0 <= x <= u128::MAX);
    lemma_groups_divide(x as u128);
}

/// The last two of the first `n` octets are what division by their range leaves.
proof fn lemma_octets_peel(o: Seq<u8>, n: int)
    requires
        2 <= n <= o.len(),
    ensures
        be_value(o.take(n)) / 0x1_0000 == be_value(o.take(n - 2)),
        be_value(o.take(n)) % 0x1_0000 == o[n - 2] * 256 + o[n - 1],
{
    let t = o.take(n);
    assert(t.drop_last().drop_last() =~= o.take(n - 2));
    assert(t.drop_last().last() == o[n - 2]);
    assert(be_value(t) == be_value(t.drop_last()) * 256 + o[n - 1]);
    assert(be_value(t.drop_last()) == be_value(t.drop_last().drop_last()) * 256 + o[n - 2]);
}

proof fn lemma_divide_stepwise(x: nat)
    ensures
        x / 0x1_0000_0000 == x / 0x1_0000 / 0x1_0000,
        x / 0x1_0000_0000_0000 == x / 0x1_0000_0000 / 0x1_0000,
        x / 0x1_0000_0000_0000_0000 == x / 0x1_0000_0000_0000 / 0x1_0000,
        x / 0x1_0000_0000_0000_0000_0000 == x / 0x1_0000_0000_0000_0000 / 0x1_0000,
        x / 0x1_0000_0000_0000_0000_0000_0000 == x / 0x1_0000_0000_0000_0000_0000 / 0x1_0000,
        x / 0x1_0000_0000_0000_0000_0000_0000_0000 == x / 0x1_0000_0000_0000_0000_0000_0000
            / 0x1_0000,
{
}

/// The groups of an address are what division by powers of two leaves.
proof fn lemma_groups_divide(x: u128)
    ensures
        groups(x) == seq![
            (x / 0x1_0000_0000_0000_0000_0000_0000_0000 % 0x1_0000) as u16,
            (x / 0x1_0000_0000_0000_0000_0000_0000 % 0x1_0000) as u16,
            (x / 0x1_0000_0000_0000_0000_0000 % 0x1_0000) as u16,
            (x / 0x1_0000_0000_0000_0000 % 0x1_0000) as u16,
            (x / 0x1_0000_0000_0000 % 0x1_0000) as u16,
            (x / 0x1_0000_0000 % 0x1_0000) as u16,
            (x / 0x1_0000 % 0x1_0000) as u16,
            (x % 0x1_0000) as u16,
        ],
{
    assert(((x >> 112) & 0xffff) == x / 0x1_0000_0000_0000_0000_0000_0000_0000 % 0x1_0000 && ((x
        >> 96) & 0xffff) == x / 0x1_0000_0000_0000_0000_0000_0000 % 0x1_0000 && ((x >> 80) & 0xffff)
        == x / 0x1_0000_0000_0000_0000_0000 % 0x1_0000 && ((x >> 64) & 0xffff) == x
        / 0x1_0000_0000_0000_0000 % 0x1_0000) by (bit_vector);
    assert(((x >> 48) & 0xffff) == x / 0x1_0000_0000_0000 % 0x1_0000 && ((x >> 32) & 0xffff) == x
        / 0x1_0000_0000 % 0x1_0000 && ((x >> 16) & 0xffff) == x / 0x1_0000 % 0x1_0000 && ((x >> 0)
        & 0xffff) == x % 0x1_0000) by (bit_vector);
}

/// Joined groups are their hexadecimal numerals with single colons between them.
pub proof fn law_joined_groups_are_hexadecimal(s: Seq<u16>, g: u16)
    ensures
        joined(seq![]).len() == 0,
        joined(seq![g]) == hexadecimal(g as nat),
        s.len() > 0 ==> joined(s.push(g)) == joined(s) + seq![':'] + hexadecimal(g as nat),
{
    if s.len() > 0 {
        assert(s.push(g).drop_last() =~= s);
    }
}

// -------------------------------------------------------------- attribution

/// The service shown for a container is its Compose service, whatever its
/// project, name or image is, and a dash where it has none.
pub proof fn law_service_is_the_compose_service(info: ContainerInfo, other: ContainerInfo)
    ensures
        info.compose_service is Some ==> service_of(info) == info.compose_service->0@,
        info.compose_service is None ==> service_of(info) == seq!['-'],
        info.compose_service == other.compose_service ==> service_of(info) == service_of(other),
{
    reveal_strlit("-");
}

/// A connection of a container is shown as the container's: under its name, its
/// Compose service or a dash, and its image, whatever the command; and one of
/// no container is shown as the host's, under the command.
pub proof fn law_connections_are_shown_as_their_makers(
    info: ContainerInfo,
    command: Seq<char>,
)
    ensures
        ({
            let by = origin_of(Some(info), command);
            &&& by.is_docker
            &&& by.container_name == info.name@
            &&& by.image == info.image@
            &&& info.compose_service is Some ==> by.service == info.compose_service->0@
            &&& info.compose_service is None ==> by.service == "-"@
        }),
        ({
            let by = origin_of(None, command);
            &&& !by.is_docker
            &&& by.container_name == "[HOST]"@
            &&& by.image == command
            &&& by.service == "-"@
        }),
{
}

/// A command's name loses the zero characters at either end, all of them and
/// nothing else.
pub proof fn law_commands_lose_their_padding(text: Seq<char>) -> (cut: (int, int))
    ensures
        0 <= cut.0 <= cut.1 <= text.len(),
        trim_nuls(text) == text.subrange(cut.0, cut.1),
        forall|i: int| 0 <= i < cut.0 ==> #[trigger] text[i] == '\0',
        forall|i: int| cut.1 <= i < text.len() ==> #[trigger] text[i] == '\0',
        cut.0 < cut.1 ==> text[cut.0] != '\0' && text[cut.1 - 1] != '\0',
{
    law_trimming_takes_the_run(text, '\0');
    let right = crate::text::trim_start(text, '\0');
    law_trimming_takes_the_run(right, '\0');
    let from = text.len() - right.len();
    let to = from + trim_nuls(text).len();
    assert(trim_nuls(text) =~= text.subrange(from, to));
    assert forall|i: int| to <= i < text.len() implies #[trigger] text[i] == '\0' by {
        assert(right[i - from] == '\0');
    }
    (from, to)
}

/// The row of a connection says what the record says: its key is made of the
/// control group, the protocol and the socket (or the destination, where there
/// is no socket), and it is active and was last seen just then.
pub proof fn law_rows_say_what_was_recorded(
    event: ConnectEvent,
    who: OriginView,
    domain: Option<Seq<char>>,
    time: Seq<char>,
    now: Timestamp,
)
    ensures
        ({
            let row = row_of(event, who, domain, time, now);
            &&& row.key == decimal(event.cgroup_id as nat) + seq![':'] + label_of(event.proto)
                + seq![':'] + (if event.skaddr == 0 {
                event_endpoint(event)
            } else {
                decimal(event.skaddr as nat)
            })
            &&& row.key == key_of(event)
            &&& row.skaddr == event.skaddr
            &&& row.cgroup_id == event.cgroup_id
            &&& row.time_str == time
            &&& row.origin == who
            &&& row.proto == label_of(event.proto)
            &&& row.destination == destination_of(domain, event.proto, event.dport)
            &&& row.dst_ip_str == event_endpoint(event)
            &&& row.status == ConnectionStatus::Active
            &&& row.closed_at is None
            &&& row.last_seen == now
        }),
{
}

/// A row says of itself what its fields hold.
pub proof fn law_rows_are_read_by_their_fields(item: ConnectionItem, info: ContainerInfo)
    ensures
        item@.key == item.key@,
        item@.skaddr == item.skaddr,
        item@.time_str == item.time_str@,
        item@.origin.container_name == item.container_name@,
        item@.origin.service == item.service@,
        item@.origin.image == item.image@,
        item@.origin.is_docker == item.is_docker,
        item@.proto == item.proto@,
        item@.destination == item.destination@,
        item@.dst_ip_str == item.dst_ip_str@,
        item@.cgroup_id == item.cgroup_id,
        item@.status == item.status,
        item@.closed_at == item.closed_at,
        item@.last_seen == item.last_seen,
        info@.id == info.id@,
        info@.name == info.name@,
        info@.image == info.image@,
        info@.cgroup_id == info.cgroup_id,
        info@.pid == info.pid,
        info@.compose_service is Some <==> info.compose_service is Some,
        info@.compose_project is Some <==> info.compose_project is Some,
        info.compose_service is Some ==> info@.compose_service->0 == info.compose_service->0@,
        info.compose_project is Some ==> info@.compose_project->0 == info.compose_project->0@,
{
}

/// The container of a connection is listed with its name, service and image, as
/// active and with its counter as it was; no other container and nothing else on
/// the screen changes, and a connection of no container changes nothing.
pub proof fn law_containers_of_connections_are_noted(
    app: AppView,
    info: ContainerInfo,
    after: AppView,
    other: u64,
)
    requires
        app.noted(Some(info), after),
        other != info.cgroup_id,
    ensures
        after.containers.contains_key(info.cgroup_id),
        ({
            let item = after.containers[info.cgroup_id];
            &&& item.name@ == info.name@
            &&& info.compose_service is Some ==> item.service@ == info.compose_service->0@
            &&& info.compose_service is None ==> item.service@ == "-"@
            &&& item.image@ == info.image@
            &&& item.is_active
            &&& app.containers.contains_key(info.cgroup_id) ==> item.conn_count
                == app.containers[info.cgroup_id].conn_count
            &&& !app.containers.contains_key(info.cgroup_id) ==> item.conn_count == 0
                && item.cgroup_id == info.cgroup_id
        }),
        after.containers.contains_key(other) == app.containers.contains_key(other),
        after.containers[other] == app.containers[other],
        after.connections == app.connections,
        after.total_conns == app.total_conns,
        app.noted(None, app),
{
}

} // verus!
