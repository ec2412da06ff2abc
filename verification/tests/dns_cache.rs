use dsnitch::addr::IpAddr;
use dsnitch::clock::Timestamp;
use dsnitch::dns::{DnsAnswer, DnsCache, DnsMessage};
use dsnitch::events::{DnsPacketEvent, MAX_DNS_PAYLOAD};

const SECOND: i64 = 1_000_000_000;

fn at(seconds: i64) -> Timestamp {
    Timestamp { nanos: seconds * SECOND }
}

fn push_name(packet: &mut Vec<u8>, name: &str) {
    for part in name.split('.') {
        packet.push(part.len() as u8);
        packet.extend_from_slice(part.as_bytes());
    }
    packet.push(0x00);
}

fn build_mock_dns_response(domain: &str, ip: [u8; 4], ttl: u32) -> Vec<u8> {
    let mut packet = Vec::new();
    packet.extend_from_slice(&[0x12, 0x34]);
    packet.extend_from_slice(&[0x81, 0x80]);
    packet.extend_from_slice(&[0x00, 0x01]);
    packet.extend_from_slice(&[0x00, 0x01]);
    packet.extend_from_slice(&[0x00, 0x00, 0x00, 0x00]);
    push_name(&mut packet, domain);
    packet.extend_from_slice(&[0x00, 0x01, 0x00, 0x01]);
    packet.extend_from_slice(&[0xc0, 0x0c]);
    packet.extend_from_slice(&[0x00, 0x01, 0x00, 0x01]);
    packet.extend_from_slice(&ttl.to_be_bytes());
    packet.extend_from_slice(&[0x00, 0x04]);
    packet.extend_from_slice(&ip);
    packet
}

/// A question for an alias, answered by a CNAME record, an A record and an
/// AAAA record of the target.
fn build_alias_response() -> Vec<u8> {
    let mut packet = vec![0x12, 0x34, 0x81, 0x80, 0, 1, 0, 3, 0, 0, 0, 0];
    push_name(&mut packet, "www.shop.io");
    packet.extend_from_slice(&[0, 1, 0, 1]);
    packet.extend_from_slice(&[0xc0, 0x0c, 0, 5, 0, 1, 0, 0, 0, 30]);
    let mut target = Vec::new();
    push_name(&mut target, "edge.cdn.net");
    packet.extend_from_slice(&[0, target.len() as u8]);
    packet.extend_from_slice(&target);
    packet.extend_from_slice(&target);
    packet.extend_from_slice(&[0, 1, 0, 1, 0, 0, 0, 30, 0, 4, 104, 16, 1, 2]);
    packet.extend_from_slice(&target);
    packet.extend_from_slice(&[0, 28, 0, 1, 0, 0, 0, 30, 0, 16]);
    packet.extend_from_slice(&[0x26, 0x06, 0x47, 0, 0, 0, 0, 0, 0, 0, 0, 0, 0, 0, 0, 1]);
    packet
}

fn event_of(cgroup_id: u64, wire: &[u8]) -> DnsPacketEvent {
    let mut event = DnsPacketEvent {
        timestamp_ns: 1000,
        cgroup_id,
        len: wire.len() as u32,
        payload: [0u8; MAX_DNS_PAYLOAD],
    };
    event.payload[..wire.len()].copy_from_slice(wire);
    event
}

fn answer(name: &str, ttl: u32, address: Option<IpAddr>) -> DnsAnswer {
    DnsAnswer { name: name.to_string(), ttl, address }
}

fn message(query: Option<&str>, answers: Vec<DnsAnswer>) -> DnsMessage {
    DnsMessage { queries: query.iter().map(|q| q.to_string()).collect(), answers }
}

#[test]
fn test_dns_cache_process_and_resolve() {
    let mut cache = DnsCache::new(10);
    let cgroup_id = 42;
    let domain = "api.github.com";
    let ip_bytes = [20, 207, 73, 85];
    let ip = IpAddr::v4(20, 207, 73, 85);

    let wire_data = build_mock_dns_response(domain, ip_bytes, 120);

    let mut event = DnsPacketEvent {
        timestamp_ns: 1000,
        cgroup_id,
        len: wire_data.len() as u32,
        payload: [0u8; MAX_DNS_PAYLOAD],
    };
    event.payload[..wire_data.len()].copy_from_slice(&wire_data);

    // Before caching
    assert_eq!(cache.resolve(cgroup_id, &ip), None);

    // Process packet
    cache.process_packet(&event);

    // Resolve after caching
    let resolved = cache.resolve(cgroup_id, &ip);
    assert_eq!(resolved, Some("api.github.com".to_string()));

    // Fallback resolution from another cgroup
    let fallback_cgroup = 999;
    let resolved_fallback = cache.resolve(fallback_cgroup, &ip);
    assert_eq!(resolved_fallback, Some("api.github.com".to_string()));

    // Evict cgroup
    cache.evict_cgroup(cgroup_id);
    assert_eq!(cache.resolve(cgroup_id, &ip), None);
}

#[test]
fn test_dns_cache_empty_packet_ignored() {
    let mut cache = DnsCache::new(10);
    let event = DnsPacketEvent {
        timestamp_ns: 1000,
        cgroup_id: 1,
        len: 0,
        payload: [0u8; MAX_DNS_PAYLOAD],
    };
    cache.process_packet(&event);
    assert_eq!(cache.resolve(1, &IpAddr::v4(1, 1, 1, 1)), None);
}

#[test]
fn aliases_resolve_to_the_name_that_was_asked_for() {
    let mut cache = DnsCache::new(10);
    cache.process_packet(&event_of(7, &build_alias_response()));
    let v6 = IpAddr::v6(&[0x26, 0x06, 0x47, 0, 0, 0, 0, 0, 0, 0, 0, 0, 0, 0, 0, 1]);
    assert_eq!(cache.resolve(7, &IpAddr::v4(104, 16, 1, 2)), Some("www.shop.io".to_string()));
    assert_eq!(cache.resolve(7, &v6), Some("www.shop.io".to_string()));
    assert_eq!(cache.resolve(7, &IpAddr::v4(104, 16, 1, 3)), None);
}

#[test]
fn malformed_packet_teaches_nothing() {
    let mut cache = DnsCache::new(10);
    cache.process_packet_at(&event_of(7, &[1, 2, 3]), at(0));
    let full = build_mock_dns_response("a.io", [9, 9, 9, 9], 120);
    cache.process_packet_at(&event_of(7, &full[..full.len() - 2]), at(0));
    assert_eq!(cache.resolve_at(7, &IpAddr::v4(9, 9, 9, 9), at(0)), None);
    cache.process_packet_at(&event_of(7, &full), at(0));
    assert_eq!(
        cache.resolve_at(7, &IpAddr::v4(9, 9, 9, 9), at(0)),
        Some("a.io".to_string()),
    );
}

#[test]
fn length_beyond_the_payload_is_cut() {
    let mut cache = DnsCache::new(10);
    let mut event = event_of(7, &build_mock_dns_response("a.io", [9, 9, 9, 9], 120));
    event.len = u32::MAX;
    cache.process_packet_at(&event, at(0));
    assert_eq!(
        cache.resolve_at(7, &IpAddr::v4(9, 9, 9, 9), at(0)),
        Some("a.io".to_string()),
    );
}

#[test]
fn question_names_the_answers() {
    let mut cache = DnsCache::new(10);
    let ip = IpAddr::v4(1, 2, 3, 4);
    let asked = message(Some("asked.io."), vec![answer("owner.io.", 300, Some(ip))]);
    cache.learn(1, &asked, at(0));
    assert_eq!(cache.resolve_at(1, &ip, at(0)), Some("asked.io".to_string()));
    let unasked = message(None, vec![answer("owner.io.", 300, Some(ip))]);
    cache.learn(1, &unasked, at(0));
    assert_eq!(cache.resolve_at(1, &ip, at(0)), Some("owner.io".to_string()));
}

#[test]
fn the_later_answer_wins() {
    let mut cache = DnsCache::new(10);
    let ip = IpAddr::v4(1, 2, 3, 4);
    let both =
        message(None, vec![answer("one.io.", 300, Some(ip)), answer("two.io.", 300, Some(ip))]);
    cache.learn(1, &both, at(0));
    assert_eq!(cache.resolve_at(1, &ip, at(0)), Some("two.io".to_string()));
}

#[test]
fn entries_last_a_minute_beyond_their_time_to_live() {
    let mut cache = DnsCache::new(10);
    let ip = IpAddr::v4(1, 2, 3, 4);
    cache.learn(1, &message(Some("a.io."), vec![answer("a.io.", 120, Some(ip))]), at(0));
    assert_eq!(cache.resolve_at(1, &ip, at(180)), Some("a.io".to_string()));
    assert_eq!(cache.resolve_at(1, &ip, Timestamp { nanos: 180 * SECOND + 1 }), None);
}

#[test]
fn short_times_to_live_count_as_a_minute() {
    let mut cache = DnsCache::new(10);
    let ip = IpAddr::v4(1, 2, 3, 4);
    cache.learn(1, &message(Some("a.io."), vec![answer("a.io.", 5, Some(ip))]), at(0));
    assert_eq!(cache.resolve_at(1, &ip, at(120)), Some("a.io".to_string()));
    assert_eq!(cache.resolve_at(1, &ip, Timestamp { nanos: 120 * SECOND + 1 }), None);
}

#[test]
fn own_table_comes_first() {
    let mut cache = DnsCache::new(10);
    let ip = IpAddr::v4(104, 16, 0, 1);
    cache.learn(1, &message(Some("one.io."), vec![answer("x.", 300, Some(ip))]), at(0));
    cache.learn(2, &message(Some("two.io."), vec![answer("x.", 300, Some(ip))]), at(0));
    assert_eq!(cache.resolve_at(1, &ip, at(1)), Some("one.io".to_string()));
    assert_eq!(cache.resolve_at(2, &ip, at(1)), Some("two.io".to_string()));
    cache.evict_cgroup(1);
    assert_eq!(cache.resolve_at(1, &ip, at(1)), Some("two.io".to_string()));
    cache.evict_cgroup(2);
    assert_eq!(cache.resolve_at(1, &ip, at(1)), None);
}

#[test]
fn stale_entries_fall_back_to_fresh_ones_elsewhere() {
    let mut cache = DnsCache::new(10);
    let ip = IpAddr::v4(104, 16, 0, 1);
    cache.learn(1, &message(Some("old.io."), vec![answer("x.", 60, Some(ip))]), at(0));
    cache.learn(2, &message(Some("new.io."), vec![answer("x.", 60, Some(ip))]), at(100));
    assert_eq!(cache.resolve_at(1, &ip, at(130)), Some("new.io".to_string()));
}

#[test]
fn least_recently_used_address_is_dropped() {
    let mut cache = DnsCache::new(2);
    let a = IpAddr::v4(10, 0, 0, 1);
    let b = IpAddr::v4(10, 0, 0, 2);
    let c = IpAddr::v4(10, 0, 0, 3);
    cache.learn(1, &message(Some("a.io."), vec![answer("x.", 300, Some(a))]), at(0));
    cache.learn(1, &message(Some("b.io."), vec![answer("x.", 300, Some(b))]), at(0));
    assert_eq!(cache.resolve_at(1, &a, at(0)), Some("a.io".to_string()));
    cache.learn(1, &message(Some("c.io."), vec![answer("x.", 300, Some(c))]), at(0));
    assert_eq!(cache.resolve_at(1, &b, at(0)), None);
    assert_eq!(cache.resolve_at(1, &a, at(0)), Some("a.io".to_string()));
    assert_eq!(cache.resolve_at(1, &c, at(0)), Some("c.io".to_string()));
}

#[test]
fn a_known_address_is_renewed_in_place() {
    let mut cache = DnsCache::new(2);
    let a = IpAddr::v4(10, 0, 0, 1);
    let b = IpAddr::v4(10, 0, 0, 2);
    cache.learn(1, &message(Some("a.io."), vec![answer("x.", 300, Some(a))]), at(0));
    cache.learn(1, &message(Some("b.io."), vec![answer("x.", 300, Some(b))]), at(0));
    cache.learn(1, &message(Some("a2.io."), vec![answer("x.", 300, Some(a))]), at(0));
    assert_eq!(cache.resolve_at(1, &a, at(0)), Some("a2.io".to_string()));
    assert_eq!(cache.resolve_at(1, &b, at(0)), Some("b.io".to_string()));
}

#[test]
fn zero_capacity_means_the_default() {
    let mut cache = DnsCache::new(0);
    for i in 0..=256u32 {
        let ip = IpAddr::V4(i);
        cache.learn(1, &message(Some("n.io."), vec![answer("x.", 300, Some(ip))]), at(0));
    }
    assert_eq!(cache.resolve_at(1, &IpAddr::V4(0), at(0)), None);
    assert_eq!(cache.resolve_at(1, &IpAddr::V4(1), at(0)), Some("n.io".to_string()));
    assert_eq!(cache.resolve_at(1, &IpAddr::V4(256), at(0)), Some("n.io".to_string()));
}

#[test]
fn a_message_without_addresses_teaches_nothing() {
    let mut cache = DnsCache::new(2);
    cache.learn(1, &message(Some("a.io."), vec![answer("a.io.", 300, None)]), at(0));
    assert_eq!(cache.resolve_at(1, &IpAddr::v4(0, 0, 0, 0), at(0)), None);
}

#[test]
fn v4_and_v6_addresses_do_not_mix() {
    let mut cache = DnsCache::new(2);
    let v4 = IpAddr::V4(7);
    let v6 = IpAddr::V6(7);
    cache.learn(1, &message(Some("four.io."), vec![answer("x.", 300, Some(v4))]), at(0));
    assert_eq!(cache.resolve_at(1, &v6, at(0)), None);
    cache.learn(1, &message(Some("six.io."), vec![answer("x.", 300, Some(v6))]), at(0));
    assert_eq!(cache.resolve_at(1, &v4, at(0)), Some("four.io".to_string()));
    assert_eq!(cache.resolve_at(1, &v6, at(0)), Some("six.io".to_string()));
}
