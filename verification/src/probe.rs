//! What the kernel probes on `connect` record of a call.
//!
//! A probe runs for every outbound `connect` of a control group. It only
//! watches: whatever it sees, the call goes on.

use crate::addr::{be_value, recorded_address, IpAddr};
use crate::events::{le_bytes, ConnectEvent};
use crate::traffic::IPPROTO_UDP;
use vstd::prelude::*;

verus! {

/// The verdict that lets a call go on.
pub const ALLOW: i32 = 1;

/// The socket address that a probe is handed, as the kernel lays it out:
/// addresses and port are in network byte order.
#[derive(Clone, Copy, Debug)]
pub struct SockAddr {
    pub user_ip4: u32,
    pub user_ip6: [u32; 4],
    pub user_port: u32,
    pub protocol: u32,
}

/// What the kernel's helpers say of the calling task.
#[derive(Clone, Copy, Debug)]
pub struct TaskContext {
    pub cgroup_id: u64,
    /// The process in the upper half.
    pub pid_tgid: u64,
    /// The user in the lower half.
    pub uid_gid: u64,
    pub timestamp_ns: u64,
    /// The command name, if the kernel gave it.
    pub comm: Option<[u8; 16]>,
}

/// What a probe comes to.
pub struct ProbeOutcome {
    pub verdict: i32,
    /// The record for the ring buffer, if there is one to write.
    pub event: Option<ConnectEvent>,
}

/// The port that a socket address names, out of network byte order.
pub open spec fn port_of(user_port: u32) -> int {
    (user_port % 256) * 256 + user_port / 256 % 256
}

/// The lookup that glibc makes to learn the route to an address: a UDP
/// `connect` to port zero that sends nothing.
pub open spec fn is_route_lookup(addr: SockAddr) -> bool {
    addr.protocol % 256 == IPPROTO_UDP && port_of(addr.user_port) == 0
}

/// Whether `event` records a call of `task` with the address `addr`, with
/// destination `daddr` of the given IP version.
pub open spec fn records(
    event: ConnectEvent,
    addr: SockAddr,
    task: TaskContext,
    daddr: Seq<u8>,
    ip_version: u8,
) -> bool {
    &&& event.timestamp_ns == task.timestamp_ns
    &&& event.cgroup_id == task.cgroup_id
    &&& event.skaddr == 0
    &&& event.pid == task.pid_tgid / 0x1_0000_0000
    &&& event.uid == task.uid_gid % 0x1_0000_0000
    &&& event.saddr@ == Seq::new(16, |i: int| 0u8)
    &&& event.daddr@ == daddr
    &&& event.sport == 0
    &&& event.dport == port_of(addr.user_port)
    &&& event.proto == addr.protocol % 256
    &&& event.ip_version == ip_version
    &&& event.comm@ == (match task.comm {
        Some(comm) => comm@,
        None => Seq::new(16, |i: int| 0u8),
    })
}

/// The destination field for an IPv4 address: its four octets, then zeros.
pub open spec fn daddr4(user_ip4: u32) -> Seq<u8> {
    le_bytes(user_ip4 as nat, 4) + Seq::new(12, |i: int| 0u8)
}

/// The destination field for an IPv6 address: its sixteen octets.
pub open spec fn daddr6(user_ip6: Seq<u32>) -> Seq<u8> {
    le_bytes(user_ip6[0] as nat, 4) + le_bytes(user_ip6[1] as nat, 4) + le_bytes(
        user_ip6[2] as nat,
        4,
    ) + le_bytes(user_ip6[3] as nat, 4)
}

/// The four bytes of a word as they lie in memory.
fn octets_of(word: u32) -> (octets: [u8; 4])
    ensures
        octets@ == le_bytes(word as nat, 4),
{
    let octets: [u8; 4] = [
        (word % 256) as u8,
        (word / 256 % 256) as u8,
        (word / 256 / 256 % 256) as u8,
        (word / 256 / 256 / 256 % 256) as u8,
    ];
    proof {
        reveal_with_fuel(le_bytes, 5);
    }
    assert(octets@ =~= le_bytes(word as nat, 4));
    octets
}

fn port_number(user_port: u32) -> (port: u16)
    ensures
        port == port_of(user_port),
{
    (user_port % 256) as u16 * 256 + (user_port / 256 % 256) as u16
}

/// Builds the record of a call, or none for a route lookup.
fn record(addr: &SockAddr, task: &TaskContext, daddr: [u8; 16], ip_version: u8) -> (event: Option<
    ConnectEvent,
>)
    ensures
        event is None <==> is_route_lookup(*addr),
        event is Some ==> records(event->0, *addr, *task, daddr@, ip_version),
{
    let dport: u16 = port_number(addr.user_port);
    let proto: u8 = (addr.protocol % 256) as u8;
    if proto == IPPROTO_UDP && dport == 0 {
        return None;
    }
    let comm: [u8; 16] = match task.comm {
        Some(comm) => comm,
        None => [0u8; 16],
    };
    let event = ConnectEvent {
        timestamp_ns: task.timestamp_ns,
        cgroup_id: task.cgroup_id,
        skaddr: 0,
        pid: (task.pid_tgid / 0x1_0000_0000) as u32,
        uid: (task.uid_gid % 0x1_0000_0000) as u32,
        saddr: [0u8; 16],
        daddr,
        sport: 0,
        dport,
        proto,
        ip_version,
        comm,
    };
    assert(event.saddr@ =~= Seq::new(16, |i: int| 0u8));
    assert(task.comm is None ==> event.comm@ =~= Seq::new(16, |i: int| 0u8));
    Some(event)
}

/// The probe on IPv4 `connect`: records the call and lets it go on. Without a
/// socket address, or for a route lookup, there is nothing to record.
pub fn dsnitch_connect4(ctx: &Option<SockAddr>, task: &TaskContext) -> (outcome: ProbeOutcome)
    ensures
        outcome.verdict == ALLOW,
        outcome.event is None <==> *ctx is None || is_route_lookup(ctx->0),
        outcome.event is Some ==> records(
            outcome.event->0,
            ctx->0,
            *task,
            daddr4(ctx->0.user_ip4),
            4,
        ),
{
    let addr = match ctx {
        Some(addr) => addr,
        None => {
            return ProbeOutcome { verdict: ALLOW, event: None };
        },
    };
    let ip = octets_of(addr.user_ip4);
    let daddr: [u8; 16] = [
        ip[0], ip[1], ip[2], ip[3], 0, 0, 0, 0, 0, 0, 0, 0, 0, 0, 0, 0,
    ];
    assert(daddr@ =~= daddr4(addr.user_ip4));
    ProbeOutcome { verdict: ALLOW, event: record(addr, task, daddr, 4) }
}

/// The probe on IPv6 `connect`: records the call and lets it go on. Without a
/// socket address, or for a route lookup, there is nothing to record.
pub fn dsnitch_connect6(ctx: &Option<SockAddr>, task: &TaskContext) -> (outcome: ProbeOutcome)
    ensures
        outcome.verdict == ALLOW,
        outcome.event is None <==> *ctx is None || is_route_lookup(ctx->0),
        outcome.event is Some ==> records(
            outcome.event->0,
            ctx->0,
            *task,
            daddr6(ctx->0.user_ip6@),
            6,
        ),
{
    let addr = match ctx {
        Some(addr) => addr,
        None => {
            return ProbeOutcome { verdict: ALLOW, event: None };
        },
    };
    let a = octets_of(addr.user_ip6[0]);
    let b = octets_of(addr.user_ip6[1]);
    let c = octets_of(addr.user_ip6[2]);
    let d = octets_of(addr.user_ip6[3]);
    let daddr: [u8; 16] = [
        a[0], a[1], a[2], a[3], b[0], b[1], b[2], b[3], c[0], c[1], c[2], c[3], d[0], d[1], d[2],
        d[3],
    ];
    assert(daddr@ =~= daddr6(addr.user_ip6@));
    ProbeOutcome { verdict: ALLOW, event: record(addr, task, daddr, 6) }
}

/// The verdict after so many turns of the loop in which the probes stop when
/// they panic: there is none, however many turns it makes.
pub fn panic(turns: u64) -> (verdict: Option<i32>)
    ensures
        verdict is None,
{
    let verdict: Option<i32> = None;
    for _turn in 0..turns
        invariant
            verdict is None,
    {
    }
    verdict
}

/// User space reads back the address that was dialled: the octets of the
/// socket address, in their order.
pub proof fn law_dialled_address_is_recorded(
    event: ConnectEvent,
    addr: SockAddr,
    task: TaskContext,
)
    ensures
        records(event, addr, task, daddr4(addr.user_ip4), 4) ==> recorded_address(
            event.ip_version,
            event.daddr@,
        ) == IpAddr::V4(be_value(le_bytes(addr.user_ip4 as nat, 4)) as u32),
        records(event, addr, task, daddr6(addr.user_ip6@), 6) ==> recorded_address(
            event.ip_version,
            event.daddr@,
        ) == IpAddr::V6(be_value(daddr6(addr.user_ip6@)) as u128),
{
    reveal_with_fuel(le_bytes, 5);
    assert(daddr4(addr.user_ip4).take(4) =~= le_bytes(addr.user_ip4 as nat, 4));
}

} // verus!
