//! What the records hold, how the probes make them, and in what order they are
//! taken.

use crate::addr::IpAddr;
use crate::events::{le_bytes, le_value, ConnectEvent, DnsPacketEvent, SocketCloseEvent};
use crate::order::{comes_before, earliest_from, is_stamp_order, latest_to, names};
use crate::probe::{daddr4, daddr6, is_route_lookup, port_of, records, SockAddr, TaskContext};
use vstd::prelude::*;

verus! {

// ------------------------------------------------------------------ layouts

/// Two bytes, the less significant one first.
pub open spec fn two(b: Seq<u8>, at: int) -> int {
    b[at] + 0x100 * b[at + 1]
}

/// Four bytes, the less significant ones first.
pub open spec fn four(b: Seq<u8>, at: int) -> int {
    two(b, at) + 0x1_0000 * two(b, at + 2)
}

/// Eight bytes, the less significant ones first.
pub open spec fn eight(b: Seq<u8>, at: int) -> int {
    four(b, at) + 0x1_0000_0000 * four(b, at + 4)
}

proof fn lemma_two(b: Seq<u8>, at: int)
    requires
        0 <= at,
        at + 2 <= b.len(),
    ensures
        le_value(b.subrange(at, at + 2)) == two(b, at),
{
    reveal_with_fuel(le_value, 3);
}

proof fn lemma_four(b: Seq<u8>, at: int)
    requires
        0 <= at,
        at + 4 <= b.len(),
    ensures
        le_value(b.subrange(at, at + 4)) == four(b, at),
{
    let s = b.subrange(at, at + 4);
    lemma_two(b, at);
    lemma_two(b, at + 2);
    reveal_with_fuel(le_value, 3);
    assert(s.drop_first().drop_first() =~= b.subrange(at + 2, at + 4));
}

proof fn lemma_eight(b: Seq<u8>, at: int)
    requires
        0 <= at,
        at + 8 <= b.len(),
    ensures
        le_value(b.subrange(at, at + 8)) == eight(b, at),
{
    let s = b.subrange(at, at + 8);
    lemma_four(b, at);
    lemma_four(b, at + 4);
    let t = s.drop_first().drop_first().drop_first().drop_first();
    assert(t =~= b.subrange(at + 4, at + 8));
    assert(le_value(s) == s[0] as nat + 256 * le_value(s.drop_first()));
    assert(le_value(s.drop_first()) == s[1] as nat + 256 * le_value(s.drop_first().drop_first()));
    assert(le_value(s.drop_first().drop_first()) == s[2] as nat + 256 * le_value(
        s.drop_first().drop_first().drop_first(),
    ));
    assert(le_value(s.drop_first().drop_first().drop_first()) == s[3] as nat + 256 * le_value(t));
}

/// A record of a connection is read from its 88 bytes: each field from its own
/// place, numbers with their less significant bytes first.
pub proof fn law_connect_records_have_their_layout(event: ConnectEvent, data: Seq<u8>, i: int)
    requires
        data.len() >= 88,
        event.read_from(data),
        0 <= i < 16,
    ensures
        event.timestamp_ns == eight(data, 0),
        event.cgroup_id == eight(data, 8),
        event.skaddr == eight(data, 16),
        event.pid == four(data, 24),
        event.uid == four(data, 28),
        event.saddr@[i] == data[32 + i],
        event.daddr@[i] == data[48 + i],
        event.sport == two(data, 64),
        event.dport == two(data, 66),
        event.proto == data[68],
        event.ip_version == data[69],
        event.comm@[i] == data[70 + i],
{
    lemma_eight(data, 0);
    lemma_eight(data, 8);
    lemma_eight(data, 16);
    lemma_four(data, 24);
    lemma_four(data, 28);
    lemma_two(data, 64);
    lemma_two(data, 66);
}

/// A record of a packet is read from its 792 bytes.
pub proof fn law_packet_records_have_their_layout(event: DnsPacketEvent, data: Seq<u8>, i: int)
    requires
        data.len() >= 792,
        event.read_from(data),
        0 <= i < 768,
    ensures
        event.timestamp_ns == eight(data, 0),
        event.cgroup_id == eight(data, 8),
        event.len == four(data, 16),
        event.payload@[i] == data[20 + i],
{
    lemma_eight(data, 0);
    lemma_eight(data, 8);
    lemma_four(data, 16);
}

/// A close report is read from its 64 bytes.
pub proof fn law_close_records_have_their_layout(event: SocketCloseEvent, data: Seq<u8>, i: int)
    requires
        data.len() >= 64,
        event.read_from(data),
        0 <= i < 16,
    ensures
        event.timestamp_ns == eight(data, 0),
        event.cgroup_id == eight(data, 8),
        event.skaddr == eight(data, 16),
        event.saddr@[i] == data[24 + i],
        event.daddr@[i] == data[40 + i],
        event.sport == two(data, 56),
        event.dport == two(data, 58),
        event.proto == data[60],
        event.ip_version == data[61],
{
    lemma_eight(data, 0);
    lemma_eight(data, 8);
    lemma_eight(data, 16);
    lemma_two(data, 56);
    lemma_two(data, 58);
}

// ------------------------------------------------------------------- probes

/// A record of a call says who made it, when, and where to, whatever the
/// protocol and the port are.
pub proof fn law_calls_are_recorded_in_full(
    event: ConnectEvent,
    addr: SockAddr,
    task: TaskContext,
    daddr: Seq<u8>,
    ip_version: u8,
    i: int,
)
    requires
        records(event, addr, task, daddr, ip_version),
        0 <= i < 16,
    ensures
        event.timestamp_ns == task.timestamp_ns,
        event.cgroup_id == task.cgroup_id,
        event.skaddr == 0,
        event.pid * 0x1_0000_0000 <= task.pid_tgid < (event.pid + 1) * 0x1_0000_0000,
        task.uid_gid % 0x1_0000_0000 == event.uid,
        event.saddr@[i] == 0,
        event.daddr@ == daddr,
        event.sport == 0,
        event.dport == addr.user_port % 0x100 * 0x100 + addr.user_port / 0x100 % 0x100,
        event.proto == addr.protocol % 0x100,
        event.ip_version == ip_version,
        task.comm is Some ==> event.comm@ == task.comm->0@,
        task.comm is None ==> event.comm@[i] == 0,
{
}

/// Only the lookups of routes go unrecorded: calls over UDP to port zero, and no
/// others.
pub proof fn law_only_route_lookups_go_unrecorded(addr: SockAddr)
    ensures
        is_route_lookup(addr) <==> addr.protocol % 0x100 == 17 && addr.user_port % 0x1_0000 == 0,
        port_of(addr.user_port) == addr.user_port % 0x100 * 0x100 + addr.user_port / 0x100 % 0x100,
{
}

/// The destination field holds the octets of the address as they lie in memory:
/// four of them and then zeros, or sixteen.
pub proof fn law_destinations_lie_as_in_memory(ip4: u32, ip6: Seq<u32>, i: int, w: int)
    requires
        ip6.len() == 4,
        4 <= i < 16,
        0 <= w < 4,
    ensures
        daddr4(ip4).len() == 16,
        four(daddr4(ip4), 0) == ip4,
        daddr4(ip4)[i] == 0,
        daddr6(ip6).len() == 16,
        four(daddr6(ip6), 4 * w) == ip6[w],
{
    reveal_with_fuel(le_bytes, 5);
    lemma_word_bytes(ip4);
    lemma_word_bytes(ip6[0]);
    lemma_word_bytes(ip6[1]);
    lemma_word_bytes(ip6[2]);
    lemma_word_bytes(ip6[3]);
    let d = daddr6(ip6);
    assert forall|k: int| 0 <= k < 4 implies four(d, 4 * k) == #[trigger] ip6[k] by {
        let b = le_bytes(ip6[k] as nat, 4);
        assert(k == 0 || k == 1 || k == 2 || k == 3);
        assert(d[4 * k] == b[0] && d[4 * k + 1] == b[1] && d[4 * k + 2] == b[2] && d[4 * k + 3]
            == b[3]);
    }
    assert(daddr4(ip4)[0] == le_bytes(ip4 as nat, 4)[0]);
}

proof fn lemma_word_bytes(n: u32)
    ensures
        le_bytes(n as nat, 4).len() == 4,
        four(le_bytes(n as nat, 4), 0) == n,
{
    reveal_with_fuel(le_bytes, 5);
    let b = le_bytes(n as nat, 4);
    assert(b[0] == n % 256);
    assert(b[1] == n / 256 % 256);
    assert(b[2] == n / 256 / 256 % 256);
    assert(b[3] == n / 256 / 256 / 256 % 256);
}

/// An address is looked up by its version and its number.
pub proof fn law_addresses_are_looked_up_by_number(n: u32, x: u128)
    ensures
        IpAddr::V4(n).spec_key() == (4u8, n as u128),
        IpAddr::V6(x).spec_key() == (6u8, x),
{
}

// -------------------------------------------------------------------- order

/// Records are taken by rising keys, and at equal keys by rising place, each
/// once and none left out.
pub proof fn law_order_rises(order: Seq<usize>, keys: Seq<u64>, j: int, k: int, i: int)
    requires
        is_stamp_order(order, keys),
        0 <= j < k < order.len(),
        0 <= i < keys.len(),
    ensures
        order.len() == keys.len(),
        keys[order[j] as int] <= keys[order[k] as int],
        keys[order[j] as int] == keys[order[k] as int] ==> order[j] < order[k],
        exists|at: int| 0 <= at < order.len() && #[trigger] order[at] == i,
{
    assert(comes_before(keys, order[j] as int, order[k] as int));
    assert(names(order, i));
}

/// The earliest stamp from a place on is one of them, and no later than any; the
/// latest up to a place is one of them, and no earlier than any.
pub proof fn law_earliest_and_latest_are_bounds(stamps: Seq<u64>, k: int, m: int)
    requires
        0 <= k < stamps.len(),
        0 <= m < stamps.len(),
    ensures
        k <= m ==> earliest_from(stamps, k) <= stamps[m],
        exists|i: int| k <= i < stamps.len() && #[trigger] stamps[i] == earliest_from(stamps, k),
        m <= k ==> stamps[m] <= latest_to(stamps, k),
        exists|i: int| 0 <= i <= k && #[trigger] stamps[i] == latest_to(stamps, k),
{
    lemma_earliest_bound(stamps, k, m);
    lemma_latest_bound(stamps, k, m);
}

proof fn lemma_earliest_bound(stamps: Seq<u64>, k: int, m: int)
    requires
        0 <= k < stamps.len(),
        0 <= m < stamps.len(),
    ensures
        k <= m ==> earliest_from(stamps, k) <= stamps[m],
        exists|i: int| k <= i < stamps.len() && #[trigger] stamps[i] == earliest_from(stamps, k),
    decreases stamps.len() - k,
{
    if k + 1 < stamps.len() {
        lemma_earliest_bound(stamps, k + 1, m);
        let i = choose|i: int|
            k + 1 <= i < stamps.len() && #[trigger] stamps[i] == earliest_from(stamps, k + 1);
        assert(stamps[k] == earliest_from(stamps, k) || stamps[i] == earliest_from(stamps, k));
    } else {
        assert(stamps[k] == earliest_from(stamps, k));
    }
}

proof fn lemma_latest_bound(stamps: Seq<u64>, k: int, m: int)
    requires
        0 <= k < stamps.len(),
        0 <= m < stamps.len(),
    ensures
        m <= k ==> stamps[m] <= latest_to(stamps, k),
        exists|i: int| 0 <= i <= k && #[trigger] stamps[i] == latest_to(stamps, k),
    decreases k,
{
    if k > 0 {
        lemma_latest_bound(stamps, k - 1, m);
        let i = choose|i: int| 0 <= i <= k - 1 && #[trigger] stamps[i] == latest_to(stamps, k - 1);
        assert(stamps[k] == latest_to(stamps, k) || stamps[i] == latest_to(stamps, k));
    } else {
        assert(stamps[0] == latest_to(stamps, k));
    }
}

} // verus!
