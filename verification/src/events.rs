//! The records that the kernel probes hand to user space, and their layout on
//! the ring buffers.
//!
//! The probes are compiled for a little-endian target with C layout: fields
//! follow one another at their natural alignment and each record is filled up
//! to a multiple of eight bytes.

use vstd::prelude::*;

verus! {

/// The most bytes of a DNS packet that a probe copies.
pub const MAX_DNS_PAYLOAD: usize = 768;

/// The size of a `ConnectEvent` on the ring buffer.
pub const CONNECT_EVENT_SIZE: usize = 88;

/// The size of a `DnsPacketEvent` on the ring buffer.
pub const DNS_PACKET_EVENT_SIZE: usize = 792;

/// The size of a `SocketCloseEvent` on the ring buffer.
pub const SOCKET_CLOSE_EVENT_SIZE: usize = 64;

/// An outbound connection attempt.
#[derive(Clone, Copy, Debug)]
pub struct ConnectEvent {
    pub timestamp_ns: u64,
    pub cgroup_id: u64,
    pub skaddr: u64,
    pub pid: u32,
    pub uid: u32,
    pub saddr: [u8; 16],
    pub daddr: [u8; 16],
    pub sport: u16,
    pub dport: u16,
    pub proto: u8,
    /// 4 for IPv4, 6 for IPv6.
    pub ip_version: u8,
    pub comm: [u8; 16],
}

/// A DNS packet seen on the wire.
#[derive(Clone, Copy, Debug)]
pub struct DnsPacketEvent {
    pub timestamp_ns: u64,
    pub cgroup_id: u64,
    pub len: u32,
    pub payload: [u8; MAX_DNS_PAYLOAD],
}

/// The end of a TCP socket.
#[derive(Clone, Copy, Debug)]
pub struct SocketCloseEvent {
    pub timestamp_ns: u64,
    pub cgroup_id: u64,
    pub skaddr: u64,
    pub saddr: [u8; 16],
    pub daddr: [u8; 16],
    pub sport: u16,
    pub dport: u16,
    pub proto: u8,
    pub ip_version: u8,
}

// --------------------------------------------------- little-endian numbers

/// The number that `bytes` spell with the least significant byte first.
pub open spec fn le_value(bytes: Seq<u8>) -> nat
    decreases bytes.len(),
{
    if bytes.len() == 0 {
        0
    } else {
        bytes[0] as nat + 256 * le_value(bytes.drop_first())
    }
}

/// The `count` least significant bytes of `n`, least significant first.
pub open spec fn le_bytes(n: nat, count: nat) -> Seq<u8>
    decreases count,
{
    if count == 0 {
        seq![]
    } else {
        seq![(n % 256) as u8] + le_bytes(n / 256, (count - 1) as nat)
    }
}

proof fn lemma_le_value_2(b: Seq<u8>)
    requires
        b.len() == 2,
    ensures
        le_value(b) == b[0] + 256 * b[1],
{
    reveal_with_fuel(le_value, 3);
}

proof fn lemma_le_value_4(b: Seq<u8>)
    requires
        b.len() == 4,
    ensures
        le_value(b) == b[0] + 256 * (b[1] + 256 * (b[2] + 256 * b[3])),
{
    reveal_with_fuel(le_value, 5);
}

proof fn lemma_le_value_8(b: Seq<u8>)
    requires
        b.len() == 8,
    ensures
        le_value(b) == b[0] + 256 * (b[1] + 256 * (b[2] + 256 * (b[3] + 256 * (b[4] + 256 * (b[5]
            + 256 * (b[6] + 256 * b[7])))))),
{
    reveal_with_fuel(le_value, 9);
}

fn u16_at(data: &[u8], at: usize) -> (n: u16)
    requires
        at + 2 <= data.len(),
    ensures
        n == le_value(data@.subrange(at as int, at + 2)),
{
    proof {
        lemma_le_value_2(data@.subrange(at as int, at + 2));
    }
    data[at] as u16 + 256 * (data[at + 1] as u16)
}

fn u32_at(data: &[u8], at: usize) -> (n: u32)
    requires
        at + 4 <= data.len(),
    ensures
        n == le_value(data@.subrange(at as int, at + 4)),
{
    proof {
        lemma_le_value_4(data@.subrange(at as int, at + 4));
    }
    data[at] as u32 + 256 * (data[at + 1] as u32 + 256 * (data[at + 2] as u32 + 256 * (data[at
        + 3] as u32)))
}

fn u64_at(data: &[u8], at: usize) -> (n: u64)
    requires
        at + 8 <= data.len(),
    ensures
        n == le_value(data@.subrange(at as int, at + 8)),
{
    proof {
        lemma_le_value_8(data@.subrange(at as int, at + 8));
    }
    data[at] as u64 + 256 * (data[at + 1] as u64 + 256 * (data[at + 2] as u64 + 256 * (data[at
        + 3] as u64 + 256 * (data[at + 4] as u64 + 256 * (data[at + 5] as u64 + 256 * (data[at
        + 6] as u64 + 256 * (data[at + 7] as u64)))))))
}

fn octets_at(data: &[u8], at: usize) -> (octets: [u8; 16])
    requires
        at + 16 <= data.len(),
    ensures
        octets@ == data@.subrange(at as int, at + 16),
{
    let mut octets: [u8; 16] = [0u8; 16];
    for i in 0..16usize
        invariant
            at + 16 <= data.len(),
            forall|j: int| 0 <= j < i ==> octets@[j] == data@[at + j],
    {
        octets[i] = data[at + i];
    }
    assert(octets@ =~= data@.subrange(at as int, at + 16));
    octets
}

fn payload_at(data: &[u8], at: usize) -> (payload: [u8; MAX_DNS_PAYLOAD])
    requires
        at + MAX_DNS_PAYLOAD <= data.len(),
    ensures
        payload@ == data@.subrange(at as int, at + MAX_DNS_PAYLOAD),
{
    let mut payload: [u8; MAX_DNS_PAYLOAD] = [0u8; 768];
    for i in 0..MAX_DNS_PAYLOAD
        invariant
            at + MAX_DNS_PAYLOAD <= data.len(),
            forall|j: int| 0 <= j < i ==> payload@[j] == data@[at + j],
    {
        payload[i] = data[at + i];
    }
    assert(payload@ =~= data@.subrange(at as int, at + MAX_DNS_PAYLOAD));
    payload
}

// ------------------------------------------------------------------ layout

impl ConnectEvent {
    /// The bytes of this record, up to its last field.
    pub open spec fn wire(self) -> Seq<u8> {
        le_bytes(self.timestamp_ns as nat, 8) + le_bytes(self.cgroup_id as nat, 8) + le_bytes(
            self.skaddr as nat,
            8,
        ) + le_bytes(self.pid as nat, 4) + le_bytes(self.uid as nat, 4) + self.saddr@ + self.daddr@
            + le_bytes(self.sport as nat, 2) + le_bytes(self.dport as nat, 2) + seq![
            self.proto,
            self.ip_version,
        ] + self.comm@
    }

    /// Whether each field of this record has the value found at its place in
    /// `data`.
    pub open spec fn read_from(self, data: Seq<u8>) -> bool {
        &&& self.timestamp_ns == le_value(data.subrange(0, 8))
        &&& self.cgroup_id == le_value(data.subrange(8, 16))
        &&& self.skaddr == le_value(data.subrange(16, 24))
        &&& self.pid == le_value(data.subrange(24, 28))
        &&& self.uid == le_value(data.subrange(28, 32))
        &&& self.saddr@ == data.subrange(32, 48)
        &&& self.daddr@ == data.subrange(48, 64)
        &&& self.sport == le_value(data.subrange(64, 66))
        &&& self.dport == le_value(data.subrange(66, 68))
        &&& self.proto == data[68]
        &&& self.ip_version == data[69]
        &&& self.comm@ == data.subrange(70, 86)
    }

    /// The record at the start of `data`, or `None` when `data` is too short
    /// to hold one.
    pub fn decode(data: &[u8]) -> (event: Option<ConnectEvent>)
        ensures
            event is Some <==> data.len() >= CONNECT_EVENT_SIZE,
            event is Some ==> event->0.read_from(data@),
    {
        if data.len() < CONNECT_EVENT_SIZE {
            return None;
        }
        Some(
            ConnectEvent {
                timestamp_ns: u64_at(data, 0),
                cgroup_id: u64_at(data, 8),
                skaddr: u64_at(data, 16),
                pid: u32_at(data, 24),
                uid: u32_at(data, 28),
                saddr: octets_at(data, 32),
                daddr: octets_at(data, 48),
                sport: u16_at(data, 64),
                dport: u16_at(data, 66),
                proto: data[68],
                ip_version: data[69],
                comm: octets_at(data, 70),
            },
        )
    }
}

impl DnsPacketEvent {
    /// The bytes of this record, up to its last field.
    pub open spec fn wire(self) -> Seq<u8> {
        le_bytes(self.timestamp_ns as nat, 8) + le_bytes(self.cgroup_id as nat, 8) + le_bytes(
            self.len as nat,
            4,
        ) + self.payload@
    }

    /// Whether each field of this record has the value found at its place in
    /// `data`.
    pub open spec fn read_from(self, data: Seq<u8>) -> bool {
        &&& self.timestamp_ns == le_value(data.subrange(0, 8))
        &&& self.cgroup_id == le_value(data.subrange(8, 16))
        &&& self.len == le_value(data.subrange(16, 20))
        &&& self.payload@ == data.subrange(20, 20 + MAX_DNS_PAYLOAD)
    }

    /// The record at the start of `data`, or `None` when `data` is too short
    /// to hold one.
    pub fn decode(data: &[u8]) -> (event: Option<DnsPacketEvent>)
        ensures
            event is Some <==> data.len() >= DNS_PACKET_EVENT_SIZE,
            event is Some ==> event->0.read_from(data@),
    {
        if data.len() < DNS_PACKET_EVENT_SIZE {
            return None;
        }
        Some(
            DnsPacketEvent {
                timestamp_ns: u64_at(data, 0),
                cgroup_id: u64_at(data, 8),
                len: u32_at(data, 16),
                payload: payload_at(data, 20),
            },
        )
    }
}

impl SocketCloseEvent {
    /// The bytes of this record, up to its last field.
    pub open spec fn wire(self) -> Seq<u8> {
        le_bytes(self.timestamp_ns as nat, 8) + le_bytes(self.cgroup_id as nat, 8) + le_bytes(
            self.skaddr as nat,
            8,
        ) + self.saddr@ + self.daddr@ + le_bytes(self.sport as nat, 2) + le_bytes(
            self.dport as nat,
            2,
        ) + seq![self.proto, self.ip_version]
    }

    /// Whether each field of this record has the value found at its place in
    /// `data`.
    pub open spec fn read_from(self, data: Seq<u8>) -> bool {
        &&& self.timestamp_ns == le_value(data.subrange(0, 8))
        &&& self.cgroup_id == le_value(data.subrange(8, 16))
        &&& self.skaddr == le_value(data.subrange(16, 24))
        &&& self.saddr@ == data.subrange(24, 40)
        &&& self.daddr@ == data.subrange(40, 56)
        &&& self.sport == le_value(data.subrange(56, 58))
        &&& self.dport == le_value(data.subrange(58, 60))
        &&& self.proto == data[60]
        &&& self.ip_version == data[61]
    }

    /// The record at the start of `data`, or `None` when `data` is too short
    /// to hold one.
    pub fn decode(data: &[u8]) -> (event: Option<SocketCloseEvent>)
        ensures
            event is Some <==> data.len() >= SOCKET_CLOSE_EVENT_SIZE,
            event is Some ==> event->0.read_from(data@),
    {
        if data.len() < SOCKET_CLOSE_EVENT_SIZE {
            return None;
        }
        Some(
            SocketCloseEvent {
                timestamp_ns: u64_at(data, 0),
                cgroup_id: u64_at(data, 8),
                skaddr: u64_at(data, 16),
                saddr: octets_at(data, 24),
                daddr: octets_at(data, 40),
                sport: u16_at(data, 56),
                dport: u16_at(data, 58),
                proto: data[60],
                ip_version: data[61],
            },
        )
    }
}

// -------------------------------------------------------------------- laws

/// How many numbers fit in `count` bytes.
pub open spec fn byte_range(count: nat) -> nat
    decreases count,
{
    if count == 0 {
        1
    } else {
        256 * byte_range((count - 1) as nat)
    }
}

/// A number that fits in `count` bytes is read back from them.
pub proof fn lemma_le_round_trip(n: nat, count: nat)
    requires
        n < byte_range(count),
    ensures
        le_bytes(n, count).len() == count,
        le_value(le_bytes(n, count)) == n,
    decreases count,
{
    if count > 0 {
        lemma_le_round_trip(n / 256, (count - 1) as nat);
        assert(le_bytes(n, count).drop_first() =~= le_bytes(n / 256, (count - 1) as nat));
    }
}

proof fn lemma_byte_ranges()
    ensures
        byte_range(2) == 0x1_0000,
        byte_range(4) == 0x1_0000_0000,
        byte_range(8) == 0x1_0000_0000_0000_0000,
{
    reveal_with_fuel(byte_range, 9);
}

/// A connection record is read back from its bytes, whatever fills the ring
/// buffer slot behind them.
pub proof fn law_connect_event_round_trip(sent: ConnectEvent, rest: Seq<u8>, read: ConnectEvent)
    requires
        read.read_from(sent.wire() + rest),
    ensures
        sent.wire().len() == 86,
        read == sent,
{
    lemma_byte_ranges();
    lemma_le_round_trip(sent.timestamp_ns as nat, 8);
    lemma_le_round_trip(sent.cgroup_id as nat, 8);
    lemma_le_round_trip(sent.skaddr as nat, 8);
    lemma_le_round_trip(sent.pid as nat, 4);
    lemma_le_round_trip(sent.uid as nat, 4);
    lemma_le_round_trip(sent.sport as nat, 2);
    lemma_le_round_trip(sent.dport as nat, 2);
    let data = sent.wire() + rest;
    assert(data.subrange(0, 8) =~= le_bytes(sent.timestamp_ns as nat, 8));
    assert(data.subrange(8, 16) =~= le_bytes(sent.cgroup_id as nat, 8));
    assert(data.subrange(16, 24) =~= le_bytes(sent.skaddr as nat, 8));
    assert(data.subrange(24, 28) =~= le_bytes(sent.pid as nat, 4));
    assert(data.subrange(28, 32) =~= le_bytes(sent.uid as nat, 4));
    assert(data.subrange(32, 48) =~= sent.saddr@);
    assert(data.subrange(48, 64) =~= sent.daddr@);
    assert(data.subrange(64, 66) =~= le_bytes(sent.sport as nat, 2));
    assert(data.subrange(66, 68) =~= le_bytes(sent.dport as nat, 2));
    assert(data.subrange(70, 86) =~= sent.comm@);
    assert(read.saddr =~= sent.saddr);
    assert(read.daddr =~= sent.daddr);
    assert(read.comm =~= sent.comm);
}

/// A DNS packet record is read back from its bytes, whatever fills the ring
/// buffer slot behind them.
pub proof fn law_dns_packet_event_round_trip(
    sent: DnsPacketEvent,
    rest: Seq<u8>,
    read: DnsPacketEvent,
)
    requires
        read.read_from(sent.wire() + rest),
    ensures
        sent.wire().len() == 788,
        read == sent,
{
    lemma_byte_ranges();
    lemma_le_round_trip(sent.timestamp_ns as nat, 8);
    lemma_le_round_trip(sent.cgroup_id as nat, 8);
    lemma_le_round_trip(sent.len as nat, 4);
    let data = sent.wire() + rest;
    assert(data.subrange(0, 8) =~= le_bytes(sent.timestamp_ns as nat, 8));
    assert(data.subrange(8, 16) =~= le_bytes(sent.cgroup_id as nat, 8));
    assert(data.subrange(16, 20) =~= le_bytes(sent.len as nat, 4));
    assert(data.subrange(20, 788) =~= sent.payload@);
    assert(read.payload =~= sent.payload);
}

/// A close record is read back from its bytes, whatever fills the ring buffer
/// slot behind them.
pub proof fn law_socket_close_event_round_trip(
    sent: SocketCloseEvent,
    rest: Seq<u8>,
    read: SocketCloseEvent,
)
    requires
        read.read_from(sent.wire() + rest),
    ensures
        sent.wire().len() == 62,
        read == sent,
{
    lemma_byte_ranges();
    lemma_le_round_trip(sent.timestamp_ns as nat, 8);
    lemma_le_round_trip(sent.cgroup_id as nat, 8);
    lemma_le_round_trip(sent.skaddr as nat, 8);
    lemma_le_round_trip(sent.sport as nat, 2);
    lemma_le_round_trip(sent.dport as nat, 2);
    let data = sent.wire() + rest;
    assert(data.subrange(0, 8) =~= le_bytes(sent.timestamp_ns as nat, 8));
    assert(data.subrange(8, 16) =~= le_bytes(sent.cgroup_id as nat, 8));
    assert(data.subrange(16, 24) =~= le_bytes(sent.skaddr as nat, 8));
    assert(data.subrange(24, 40) =~= sent.saddr@);
    assert(data.subrange(40, 56) =~= sent.daddr@);
    assert(data.subrange(56, 58) =~= le_bytes(sent.sport as nat, 2));
    assert(data.subrange(58, 60) =~= le_bytes(sent.dport as nat, 2));
    assert(read.saddr =~= sent.saddr);
    assert(read.daddr =~= sent.daddr);
}

} // verus!
