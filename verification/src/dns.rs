//! The names that containers resolved: one bounded table of address and name
//! per control group, filled from the DNS answers seen on the wire.

use crate::addr::{AddressKey, IpAddr};
use crate::clock::{Clock, Timestamp};
use crate::events::{DnsPacketEvent, MAX_DNS_PAYLOAD};
use crate::text::{trim_end, trim_end_of};
use hickory_proto::op::Message;
use hickory_proto::rr::RData;
use lru::LruCache;
use std::collections::HashMap;
use std::num::NonZeroUsize;
use vstd::prelude::*;

verus! {

broadcast use vstd::std_specs::hash::group_hash_axioms;

/// How many entries a table holds when no capacity is given.
pub const DEFAULT_CAPACITY: usize = 256;

/// The least time to live that an entry gets, in seconds.
pub const MIN_TTL_SECS: u32 = 60;

/// How long past its time to live an entry still answers, in seconds.
pub const STALE_SECS: u64 = 60;

// ----------------------------------------------------------------- entries

/// A name learnt for an address.
#[derive(Clone, Debug)]
pub struct DnsEntry {
    pub domain: String,
    pub resolved_at: Timestamp,
    /// In seconds.
    pub ttl: u32,
}

/// What a `DnsEntry` says.
#[verifier::ext_equal]
pub struct EntryView {
    pub domain: Seq<char>,
    pub resolved_at: Timestamp,
    pub ttl: u32,
}

impl View for DnsEntry {
    type V = EntryView;

    open spec fn view(&self) -> EntryView {
        EntryView { domain: self.domain@, resolved_at: self.resolved_at, ttl: self.ttl }
    }
}

impl EntryView {
    /// Whether the entry still answers at `now`.
    pub open spec fn fresh(self, now: Timestamp) -> bool {
        self.resolved_at.within((self.ttl + STALE_SECS) as nat, now)
    }
}

// ------------------------------------------- least-recently-used cache

/// `lru::LruCache`. Opaque: what it holds bears the names `lru_map`,
/// `lru_order` and `lru_cap`.
#[verifier::external_type_specification]
#[verifier::external_body]
#[verifier::reject_recursive_types(K)]
#[verifier::reject_recursive_types(V)]
#[verifier::reject_recursive_types(S)]
pub struct ExLruCache<K, V, S>(lru::LruCache<K, V, S>);

/// `lru::DefaultHasher`, the hasher behind the cache. Opaque.
#[verifier::external_type_specification]
#[verifier::external_body]
pub struct ExDefaultHasher(lru::DefaultHasher);

/// The entry that a cache holds for each of its keys.
pub uninterp spec fn lru_map(cache: LruCache<AddressKey, DnsEntry>) -> Map<AddressKey, DnsEntry>;

/// The keys of a cache, the most recently used one first.
pub uninterp spec fn lru_order(cache: LruCache<AddressKey, DnsEntry>) -> Seq<AddressKey>;

/// The capacity that a cache was made with.
pub uninterp spec fn lru_cap(cache: LruCache<AddressKey, DnsEntry>) -> nat;

/// `order` with `key` moved to the front.
pub open spec fn to_front(order: Seq<AddressKey>, key: AddressKey) -> Seq<AddressKey> {
    seq![key] + order.remove_value(key)
}

/// The order of keys after a put: `key` is in front, and when it is new to a
/// full cache the least recently used key is gone.
pub open spec fn order_after_put(
    order: Seq<AddressKey>,
    cap: nat,
    key: AddressKey,
) -> Seq<AddressKey> {
    if order.contains(key) {
        to_front(order, key)
    } else if order.len() == cap {
        seq![key] + order.drop_last()
    } else {
        seq![key] + order
    }
}

/// The entries after a put: `key` has `entry`, and when it is new to a full
/// cache the least recently used key is gone.
pub open spec fn map_after_put<E>(
    map: Map<AddressKey, E>,
    order: Seq<AddressKey>,
    cap: nat,
    key: AddressKey,
    entry: E,
) -> Map<AddressKey, E> {
    if !order.contains(key) && order.len() == cap {
        map.remove(order.last()).insert(key, entry)
    } else {
        map.insert(key, entry)
    }
}

/// The largest capacity for which a table is made: a hash table that large
/// can still be laid out in the address space.
pub open spec fn max_capacity() -> nat {
    (usize::MAX / 128) as nat
}

/// `LruCache::new`: an empty cache of the given capacity. It reserves room for
/// all its entries at once and panics when no table that large can be laid
/// out, which `requires` leaves out.
#[verifier::external_body]
fn lru_new(cap: usize) -> (cache: LruCache<AddressKey, DnsEntry>)
    requires
        0 < cap <= max_capacity(),
    ensures
        lru_map(cache).is_empty(),
        lru_order(cache).len() == 0,
        lru_cap(cache) == cap,
{
    LruCache::new(NonZeroUsize::new(cap).unwrap())
}

/// `LruCache::put`: gives `key` the entry and makes it the most recently used
/// key; a key that is new to a full cache takes the place of the least
/// recently used one. Returns the entry that `key` had before.
#[verifier::external_body]
fn lru_put(cache: &mut LruCache<AddressKey, DnsEntry>, key: AddressKey, entry: DnsEntry) -> (replaced:
    Option<DnsEntry>)
    ensures
        lru_cap(*final(cache)) == lru_cap(*old(cache)),
        lru_order(*final(cache)) == order_after_put(
            lru_order(*old(cache)),
            lru_cap(*old(cache)),
            key,
        ),
        lru_map(*final(cache)) == map_after_put(
            lru_map(*old(cache)),
            lru_order(*old(cache)),
            lru_cap(*old(cache)),
            key,
            entry,
        ),
        replaced == lru_map(*old(cache)).get(key),
{
    cache.put(key, entry)
}

/// `LruCache::get`: the entry of `key`, which becomes the most recently used
/// key; without an entry nothing changes.
#[verifier::external_body]
fn lru_get<'a>(cache: &'a mut LruCache<AddressKey, DnsEntry>, key: &AddressKey) -> (entry: Option<
    &'a DnsEntry,
>)
    ensures
        lru_map(*final(cache)) == lru_map(*old(cache)),
        lru_cap(*final(cache)) == lru_cap(*old(cache)),
        match entry {
            Some(e) => lru_map(*old(cache)).contains_key(*key) && *e == lru_map(*old(cache))[*key]
                && lru_order(*final(cache)) == to_front(lru_order(*old(cache)), *key),
            None => !lru_map(*old(cache)).contains_key(*key) && lru_order(*final(cache))
                == lru_order(*old(cache)),
        },
{
    cache.get(key)
}

// ---------------------------------------------------------------- messages

/// The parts of a DNS message that matter here.
pub struct DnsMessage {
    /// The names asked for, in the order of the question section.
    pub queries: Vec<String>,
    /// The records of the answer section, in order.
    pub answers: Vec<DnsAnswer>,
}

/// A record of the answer section.
pub struct DnsAnswer {
    pub name: String,
    /// In seconds.
    pub ttl: u32,
    /// The address of an A or AAAA record; `None` for any other record.
    pub address: Option<IpAddr>,
}

/// What a `DnsAnswer` says.
#[verifier::ext_equal]
pub struct AnswerView {
    pub name: Seq<char>,
    pub ttl: u32,
    pub address: Option<IpAddr>,
}

/// What a `DnsMessage` says.
#[verifier::ext_equal]
pub struct MessageView {
    pub queries: Seq<Seq<char>>,
    pub answers: Seq<AnswerView>,
}

impl View for DnsAnswer {
    type V = AnswerView;

    open spec fn view(&self) -> AnswerView {
        AnswerView { name: self.name@, ttl: self.ttl, address: self.address }
    }
}

impl View for DnsMessage {
    type V = MessageView;

    open spec fn view(&self) -> MessageView {
        MessageView {
            queries: self.queries@.map_values(|name: String| name@),
            answers: self.answers@.map_values(|answer: DnsAnswer| answer@),
        }
    }
}

/// The message that `bytes` decode to, if they are a DNS message.
pub uninterp spec fn dns_message(bytes: Seq<u8>) -> Option<MessageView>;

/// `Message::from_vec` of hickory-proto, with the names of the questions and
/// the name, time to live and address of each answer taken out of its result.
/// The result is a function of the bytes alone and bears the name
/// `dns_message`; the grammar behind it is not stated.
#[verifier::external_body]
fn parse_message(bytes: &[u8]) -> (message: Option<DnsMessage>)
    ensures
        match message {
            Some(m) => dns_message(bytes@) == Some(m@),
            None => dns_message(bytes@) is None,
        },
{
    let m = Message::from_vec(bytes).ok()?;
    let queries = m.queries().iter().map(|q| q.name().to_string()).collect();
    let answers = m.answers().iter().map(|r| DnsAnswer {
        name: r.name().to_string(),
        ttl: r.ttl(),
        address: match r.data() {
            RData::A(a) => Some(IpAddr::V4(u32::from(a.0))),
            RData::AAAA(a) => Some(IpAddr::V6(u128::from(a.0))),
            _ => None,
        },
    }).collect();
    Some(DnsMessage { queries, answers })
}

// ------------------------------------------------------------------ model

/// What one control group's table holds.
#[verifier::ext_equal]
pub struct Table {
    /// The entry of each address.
    pub entries: Map<AddressKey, EntryView>,
    /// The addresses, the most recently used one first.
    pub order: Seq<AddressKey>,
}

impl Table {
    /// A table without entries.
    pub open spec fn empty() -> Table {
        Table { entries: Map::empty(), order: Seq::empty() }
    }

    /// Whether the order lists each address once and no more than `cap` of
    /// them.
    pub open spec fn wf(self, cap: nat) -> bool {
        &&& self.order.no_duplicates()
        &&& self.order.len() <= cap
        &&& forall|key: AddressKey|
            #![trigger self.entries.contains_key(key)]
            #![trigger self.order.contains(key)]
            self.entries.contains_key(key) <==> self.order.contains(key)
    }

    /// The table after `key` was looked up.
    pub open spec fn touched(self, key: AddressKey) -> Table {
        if self.entries.contains_key(key) {
            Table { order: to_front(self.order, key), ..self }
        } else {
            self
        }
    }

    /// The table after `key` was given `entry`.
    pub open spec fn put(self, cap: nat, key: AddressKey, entry: EntryView) -> Table {
        Table {
            entries: map_after_put(self.entries, self.order, cap, key, entry),
            order: order_after_put(self.order, cap, key),
        }
    }

    /// The table after each of `updates` was put, in order.
    pub open spec fn put_all(self, cap: nat, updates: Seq<(AddressKey, EntryView)>) -> Table
        decreases updates.len(),
    {
        if updates.len() == 0 {
            self
        } else {
            self.put_all(cap, updates.drop_last()).put(cap, updates.last().0, updates.last().1)
        }
    }
}

/// The name that an answer is remembered under: the first name asked for, or
/// the record's own name when nothing was asked, without trailing dots.
pub open spec fn answer_domain(message: MessageView, i: int) -> Seq<char> {
    if message.queries.len() > 0 {
        trim_end(message.queries[0], '.')
    } else {
        trim_end(message.answers[i].name, '.')
    }
}

/// A time to live, raised to the least one.
pub open spec fn clamped_ttl(ttl: u32) -> u32 {
    if ttl < MIN_TTL_SECS {
        MIN_TTL_SECS
    } else {
        ttl
    }
}

/// What the first `n` answers of a message teach at `now`: an entry for each
/// address record.
pub open spec fn learnt_from(message: MessageView, n: int, now: Timestamp) -> Seq<
    (AddressKey, EntryView),
>
    decreases n,
{
    if n <= 0 {
        seq![]
    } else {
        let before = learnt_from(message, n - 1, now);
        match message.answers[n - 1].address {
            Some(ip) => before.push(
                (
                    ip.spec_key(),
                    EntryView {
                        domain: answer_domain(message, n - 1),
                        resolved_at: now,
                        ttl: clamped_ttl(message.answers[n - 1].ttl),
                    },
                ),
            ),
            None => before,
        }
    }
}

/// What a message teaches at `now`.
pub open spec fn learnt(message: MessageView, now: Timestamp) -> Seq<(AddressKey, EntryView)> {
    learnt_from(message, message.answers.len() as int, now)
}

/// What a `DnsCache` holds.
#[verifier::ext_equal]
pub struct CacheView {
    /// The table of each control group that has one.
    pub tables: Map<u64, Table>,
    /// How many entries a table holds at most.
    pub capacity: nat,
    /// The clock that entries are dated by.
    pub clock: Clock,
}

impl CacheView {
    /// The table of a control group, empty when it has none.
    pub open spec fn table(self, cgroup_id: u64) -> Table {
        if self.tables.contains_key(cgroup_id) {
            self.tables[cgroup_id]
        } else {
            Table::empty()
        }
    }

    /// Whether every table is in order and within the capacity.
    pub open spec fn wf(self) -> bool {
        &&& self.capacity > 0
        &&& forall|c: u64| #[trigger]
            self.tables.contains_key(c) ==> self.tables[c].wf(self.capacity)
    }

    /// The name that a control group's own table gives for an address.
    pub open spec fn own_answer(self, cgroup_id: u64, key: AddressKey, now: Timestamp) -> Option<
        Seq<char>,
    > {
        let table = self.table(cgroup_id);
        if table.entries.contains_key(key) && table.entries[key].fresh(now) {
            Some(table.entries[key].domain)
        } else {
            None
        }
    }

    /// The cache after a control group received `message` at `now`.
    pub open spec fn after_message(
        self,
        cgroup_id: u64,
        message: MessageView,
        now: Timestamp,
    ) -> CacheView {
        let updates = learnt(message, now);
        if updates.len() == 0 {
            self
        } else {
            CacheView {
                tables: self.tables.insert(
                    cgroup_id,
                    self.table(cgroup_id).put_all(self.capacity, updates),
                ),
                ..self
            }
        }
    }

    /// The cache after a packet with these bytes reached a control group at
    /// `now`: what is no DNS message teaches nothing.
    pub open spec fn after_packet(self, cgroup_id: u64, bytes: Seq<u8>, now: Timestamp) -> CacheView {
        match dns_message(bytes) {
            Some(message) => self.after_message(cgroup_id, message, now),
            None => self,
        }
    }

    /// The cache without the table of a control group.
    pub open spec fn without(self, cgroup_id: u64) -> CacheView {
        CacheView { tables: self.tables.remove(cgroup_id), ..self }
    }

    /// Whether `answer` is a right answer when `cgroup_id` looks `key` up at
    /// `now`, and `after` is the cache it leaves. The group's own table
    /// answers first; only where it does not may any other table answer, and
    /// there is no answer only where no table has one. Looking up changes no
    /// entry: it only marks the address as used in the tables that were
    /// asked.
    pub open spec fn looked_up(
        self,
        cgroup_id: u64,
        key: AddressKey,
        now: Timestamp,
        answer: Option<Seq<char>>,
        after: CacheView,
    ) -> bool {
        &&& after.capacity == self.capacity
        &&& after.clock == self.clock
        &&& after.tables.dom() == self.tables.dom()
        &&& forall|c: u64| #[trigger]
            self.tables.contains_key(c) ==> (after.tables[c] == self.tables[c] || after.tables[c]
                == self.tables[c].touched(key))
        &&& self.tables.contains_key(cgroup_id) ==> after.tables[cgroup_id]
            == self.tables[cgroup_id].touched(key)
        &&& match self.own_answer(cgroup_id, key, now) {
            Some(domain) => {
                &&& answer == Some(domain)
                &&& forall|c: u64| #[trigger]
                    self.tables.contains_key(c) && c != cgroup_id ==> after.tables[c]
                        == self.tables[c]
            },
            None => match answer {
                Some(domain) => exists|c: u64|
                    c != cgroup_id && #[trigger] self.own_answer(c, key, now) == Some(domain),
                None => forall|c: u64|
                    {
                        &&& #[trigger] self.own_answer(c, key, now) is None
                        &&& self.tables.contains_key(c) ==> after.tables[c]
                            == self.tables[c].touched(key)
                    },
            },
        }
    }
}

/// What a cache of the outside crate holds, as a table.
pub open spec fn table_of(cache: LruCache<AddressKey, DnsEntry>) -> Table {
    Table { entries: lru_map(cache).map_values(|e: DnsEntry| e@), order: lru_order(cache) }
}

// ------------------------------------------------------------------- cache

/// The names that containers resolved, one table per control group.
pub struct DnsCache {
    cgroups: HashMap<u64, LruCache<AddressKey, DnsEntry>>,
    max_entries_per_cgroup: usize,
    clock: Clock,
}

impl View for DnsCache {
    type V = CacheView;

    closed spec fn view(&self) -> CacheView {
        CacheView {
            tables: self.cgroups@.map_values(|c: LruCache<AddressKey, DnsEntry>| table_of(c)),
            capacity: self.max_entries_per_cgroup as nat,
            clock: self.clock,
        }
    }
}

impl DnsCache {
    /// Whether every table was made with the cache's capacity and is in order.
    pub closed spec fn wf(self) -> bool {
        &&& self@.wf()
        &&& forall|c: u64| #[trigger]
            self.cgroups@.contains_key(c) ==> lru_cap(self.cgroups@[c])
                == self.max_entries_per_cgroup
    }

    /// A well-formed cache has well-formed tables.
    pub proof fn lemma_wf(self)
        requires
            self.wf(),
        ensures
            self@.wf(),
    {
    }

    /// An empty cache whose tables hold `capacity_per_cgroup` entries each;
    /// zero asks for the default capacity.
    pub fn new(capacity_per_cgroup: usize) -> (cache: Self)
        ensures
            cache.wf(),
            cache@.tables == Map::<u64, Table>::empty(),
            cache@.capacity == (if capacity_per_cgroup == 0 {
                DEFAULT_CAPACITY
            } else {
                capacity_per_cgroup
            }),
    {
        let capacity: usize = if capacity_per_cgroup == 0 {
            DEFAULT_CAPACITY
        } else {
            capacity_per_cgroup
        };
        let cache = DnsCache {
            cgroups: HashMap::new(),
            max_entries_per_cgroup: capacity,
            clock: Clock::new(),
        };
        assert(cache@.tables =~= Map::<u64, Table>::empty());
        cache
    }

    /// Learns what `message`, received by a control group at `now`, says: each
    /// address record of the answer section becomes the most recently used
    /// entry of the group's table.
    pub fn learn(&mut self, cgroup_id: u64, message: &DnsMessage, now: Timestamp)
        requires
            old(self).wf(),
            old(self)@.capacity <= max_capacity(),
        ensures
            final(self).wf(),
            final(self)@ == old(self)@.after_message(cgroup_id, message@, now),
    {
        let updates = updates_from(message, now);
        if updates.len() == 0 {
            return;
        }
        let ghost before = *self;
        let cap: usize = self.max_entries_per_cgroup;
        let mut cache = match self.cgroups.remove(&cgroup_id) {
            Some(cache) => cache,
            None => {
                let fresh = lru_new(cap);
                assert(table_of(fresh) =~= Table::empty());
                fresh
            },
        };
        let ghost start = table_of(cache);
        assert(start =~= before@.table(cgroup_id));
        let ghost all = learnt(message@, now);
        assert(all.take(0) =~= seq![]);
        for i in 0..updates.len()
            invariant
                lru_cap(cache) == cap,
                cap > 0,
                table_of(cache).wf(cap as nat),
                all == learnt(message@, now),
                updates_match(updates@, all, now),
                table_of(cache) == start.put_all(cap as nat, all.take(i as int)),
        {
            let update = &updates[i];
            let ghost old_cache = cache;
            let entry = DnsEntry {
                domain: update.1.clone(),
                resolved_at: now,
                ttl: if update.2 < MIN_TTL_SECS {
                    MIN_TTL_SECS
                } else {
                    update.2
                },
            };
            let ghost view = entry@;
            let key = update.0.key();
            let _ = lru_put(&mut cache, key, entry);
            proof {
                lemma_put_keeps_wf(table_of(old_cache), cap as nat, key, view);
                assert(table_of(cache) =~= table_of(old_cache).put(cap as nat, key, view));
                assert(all.take(i + 1).drop_last() =~= all.take(i as int));
                assert(all.take(i + 1).last() == all[i as int]);
                assert(all[i as int] == (key, view));
            }
        }
        assert(all.take(updates.len() as int) =~= all);
        self.cgroups.insert(cgroup_id, cache);
        assert(self@.tables =~= before@.after_message(cgroup_id, message@, now).tables);
    }

    /// Learns from a captured packet, taken as received at `now`. An empty
    /// packet, or one that is no DNS message, teaches nothing.
    pub fn process_packet_at(&mut self, event: &DnsPacketEvent, now: Timestamp)
        requires
            old(self).wf(),
            old(self)@.capacity <= max_capacity(),
        ensures
            final(self).wf(),
            event.len == 0 ==> final(self)@ == old(self)@,
            event.len > 0 ==> final(self)@ == old(self)@.after_packet(
                event.cgroup_id,
                packet_bytes(*event),
                now,
            ),
    {
        if event.len == 0 {
            return;
        }
        let len: usize = if event.len as usize <= MAX_DNS_PAYLOAD {
            event.len as usize
        } else {
            MAX_DNS_PAYLOAD
        };
        let bytes = vstd::slice::slice_subrange(event.payload.as_slice(), 0, len);
        assert(bytes@ =~= packet_bytes(*event));
        if let Some(message) = parse_message(bytes) {
            self.learn(event.cgroup_id, &message, now);
        }
    }

    /// Learns from a captured packet, at the present moment.
    pub fn process_packet(&mut self, event: &DnsPacketEvent)
        requires
            old(self).wf(),
            old(self)@.capacity <= max_capacity(),
        ensures
            final(self).wf(),
            event.len == 0 ==> final(self)@ == old(self)@,
            event.len > 0 ==> exists|now: Timestamp|
                now.can_be_present() && final(self)@ == #[trigger] old(self)@.after_packet(
                    event.cgroup_id,
                    packet_bytes(*event),
                    now,
                ),
    {
        let now = self.clock.now();
        self.process_packet_at(event, now);
    }

    /// The control groups that have a table, in no particular order.
    fn cgroup_ids(&self) -> (ids: Vec<u64>)
        ensures
            ids@.no_duplicates(),
            ids@.to_set() == self.cgroups@.dom(),
    {
        let mut ids: Vec<u64> = Vec::new();
        for id in it: self.cgroups.keys()
            invariant
                ids@ == it.seq().unref().take(it.index() as int),
                it.seq().unref().to_set() == self.cgroups@.dom(),
                it.index() == it.seq().len() ==> ids@ == it.seq().unref(),
        {
            ids.push(*id);
        }
        ids
    }

    /// The name that a control group knows an address by at `now`: from its
    /// own table, or else from any other table.
    pub fn resolve_at(&mut self, cgroup_id: u64, ip: &IpAddr, now: Timestamp) -> (domain: Option<
        String,
    >)
        requires
            old(self).wf(),
        ensures
            final(self).wf(),
            old(self)@.looked_up(
                cgroup_id,
                ip.spec_key(),
                now,
                text_of(domain),
                final(self)@,
            ),
    {
        let key = ip.key();
        let ghost before = *self;
        if let Some(mut cache) = self.cgroups.remove(&cgroup_id) {
            let ghost own = cache;
            let found = fresh_domain(&mut cache, &key, now);
            self.cgroups.insert(cgroup_id, cache);
            proof {
                assert(before@.tables.contains_key(cgroup_id));
                assert(before@.tables[cgroup_id] == table_of(own));
                lemma_touch_keeps_wf(table_of(own), before@.capacity, key);
            }
            if found.is_some() {
                assert(self@.tables.dom() =~= before@.tables.dom());
                return found;
            }
        }
        assert(self@.tables.dom() =~= before@.tables.dom());
        let ids = self.cgroup_ids();
        let mut i: usize = 0;
        while i < ids.len()
            invariant
                before == *old(self),
                key == ip.spec_key(),
                before.wf(),
                self.wf(),
                i <= ids.len(),
                ids@.no_duplicates(),
                ids@.to_set() == before.cgroups@.dom(),
                self.cgroups@.dom() == before.cgroups@.dom(),
                self@.capacity == before@.capacity,
                self@.clock == before@.clock,
                before@.own_answer(cgroup_id, key, now) is None,
                forall|j: int|
                    0 <= j < ids.len() ==> #[trigger] self@.tables[ids@[j]] == (if j < i || ids@[j]
                        == cgroup_id {
                        before@.tables[ids@[j]].touched(key)
                    } else {
                        before@.tables[ids@[j]]
                    }),
                forall|j: int|
                    0 <= j < i ==> before@.own_answer(#[trigger] ids@[j], key, now) is None,
            decreases ids.len() - i,
        {
            let id: u64 = ids[i];
            let ghost prev = *self;
            assert(ids@.to_set().contains(ids@[i as int]));
            assert(self@.tables.contains_key(id));
            if id != cgroup_id {
                if let Some(mut cache) = self.cgroups.remove(&id) {
                    let ghost other = cache;
                    let found = fresh_domain(&mut cache, &key, now);
                    self.cgroups.insert(id, cache);
                    proof {
                        assert(prev@.tables[id] == table_of(other));
                        assert(prev@.tables[id] == before@.tables[id]);
                        lemma_touch_keeps_wf(table_of(other), before@.capacity, key);
                        assert(self@.tables =~= prev@.tables.insert(
                            id,
                            prev@.tables[id].touched(key),
                        ));
                    }
                    if found.is_some() {
                        proof {
                            assert(before@.own_answer(id, key, now) == text_of(found));
                            assert forall|c: u64| #[trigger]
                                before@.tables.contains_key(c) implies (self@.tables[c]
                                == before@.tables[c] || self@.tables[c]
                                == before@.tables[c].touched(key)) && (c == cgroup_id
                                ==> self@.tables[c] == before@.tables[c].touched(key)) by {
                                assert(ids@.to_set().contains(c));
                                let j = choose|j: int| 0 <= j < ids@.len() && ids@[j] == c;
                                assert(prev@.tables[ids@[j]] == self@.tables[c] || c == id);
                            }
                            assert(self@.tables.dom() =~= before@.tables.dom());
                        }
                        return found;
                    }
                }
            }
            assert(self.cgroups@.dom() =~= before.cgroups@.dom());
            assert forall|j: int| 0 <= j < ids.len() implies #[trigger] self@.tables[ids@[j]] == (
            if j < i + 1 || ids@[j] == cgroup_id {
                before@.tables[ids@[j]].touched(key)
            } else {
                before@.tables[ids@[j]]
            }) by {
                assert(prev@.tables[ids@[j]] == (if j < i || ids@[j] == cgroup_id {
                    before@.tables[ids@[j]].touched(key)
                } else {
                    before@.tables[ids@[j]]
                }));
            }
            i += 1;
        }
        proof {
            assert(self@.tables.dom() =~= before@.tables.dom());
            assert forall|c: u64|
                (#[trigger] before@.own_answer(c, key, now) is None) && (
                before@.tables.contains_key(c) ==> self@.tables[c]
                    == before@.tables[c].touched(key)) by {
                if before@.tables.contains_key(c) {
                    assert(ids@.to_set().contains(c));
                    let j = choose|j: int| 0 <= j < ids@.len() && ids@[j] == c;
                    assert(self@.tables[ids@[j]] == before@.tables[ids@[j]].touched(key));
                }
            }
            assert forall|c: u64| #[trigger]
                before@.tables.contains_key(c) implies self@.tables[c]
                == before@.tables[c].touched(key) by {
                assert(before@.own_answer(c, key, now) is None);
            }
        }
        None
    }

    /// The present moment on the clock that entries are dated by.
    pub(crate) fn now(&self) -> (now: Timestamp)
        ensures
            now.can_be_present(),
    {
        self.clock.now()
    }

    /// The name that a control group knows an address by at the present
    /// moment.
    pub fn resolve(&mut self, cgroup_id: u64, ip: &IpAddr) -> (domain: Option<String>)
        requires
            old(self).wf(),
        ensures
            final(self).wf(),
            exists|now: Timestamp|
                now.can_be_present() && #[trigger] old(self)@.looked_up(
                    cgroup_id,
                    ip.spec_key(),
                    now,
                    text_of(domain),
                    final(self)@,
                ),
    {
        let now = self.clock.now();
        self.resolve_at(cgroup_id, ip, now)
    }

    /// Forgets the whole table of a control group.
    pub fn evict_cgroup(&mut self, cgroup_id: u64)
        requires
            old(self).wf(),
        ensures
            final(self).wf(),
            final(self)@ == old(self)@.without(cgroup_id),
    {
        let ghost before = *self;
        let _ = self.cgroups.remove(&cgroup_id);
        assert(self@.tables =~= before@.without(cgroup_id).tables);
    }
}

/// The text of an optional string.
pub open spec fn text_of(s: Option<String>) -> Option<Seq<char>> {
    match s {
        Some(text) => Some(text@),
        None => None,
    }
}

/// The bytes of the packet in a record: as many as it says, and no more than
/// the record holds.
pub open spec fn packet_bytes(event: DnsPacketEvent) -> Seq<u8> {
    if event.len <= MAX_DNS_PAYLOAD {
        event.payload@.take(event.len as int)
    } else {
        event.payload@
    }
}

/// Whether `updates` are the addresses, names and times to live behind
/// `entries`.
spec fn updates_match(
    updates: Seq<(IpAddr, String, u32)>,
    entries: Seq<(AddressKey, EntryView)>,
    now: Timestamp,
) -> bool {
    &&& updates.len() == entries.len()
    &&& forall|i: int|
        0 <= i < entries.len() ==> #[trigger] entries[i] == (
            updates[i].0.spec_key(),
            EntryView {
                domain: updates[i].1@,
                resolved_at: now,
                ttl: clamped_ttl(updates[i].2),
            },
        )
}

/// The address, name and time to live of each address record in a message.
fn updates_from(message: &DnsMessage, now: Timestamp) -> (updates: Vec<(IpAddr, String, u32)>)
    ensures
        updates_match(updates@, learnt(message@, now), now),
{
    let mut updates: Vec<(IpAddr, String, u32)> = Vec::new();
    let asked: Option<String> = if message.queries.len() > 0 {
        Some(trim_end_of(message.queries[0].as_str(), '.'))
    } else {
        None
    };
    for i in 0..message.answers.len()
        invariant
            match asked {
                Some(name) => message@.queries.len() > 0 && name@ == trim_end(
                    message@.queries[0],
                    '.',
                ),
                None => message@.queries.len() == 0,
            },
            updates_match(updates@, learnt_from(message@, i as int, now), now),
    {
        let answer = &message.answers[i];
        assert(message@.answers[i as int] == answer@);
        if let Some(ip) = answer.address {
            let domain = match &asked {
                Some(name) => name.clone(),
                None => trim_end_of(answer.name.as_str(), '.'),
            };
            updates.push((ip, domain, answer.ttl));
        }
    }
    updates
}

/// Looks `key` up in one table: the name of its entry, if that is fresh.
fn fresh_domain(cache: &mut LruCache<AddressKey, DnsEntry>, key: &AddressKey, now: Timestamp) -> (domain:
    Option<String>)
    ensures
        lru_cap(*final(cache)) == lru_cap(*old(cache)),
        table_of(*final(cache)) == table_of(*old(cache)).touched(*key),
        match domain {
            Some(d) => {
                let entries = table_of(*old(cache)).entries;
                entries.contains_key(*key) && entries[*key].fresh(now) && d@ == entries[*key].domain
            },
            None => {
                let entries = table_of(*old(cache)).entries;
                !(entries.contains_key(*key) && entries[*key].fresh(now))
            },
        },
{
    match lru_get(cache, key) {
        Some(entry) => {
            if entry.resolved_at.is_within(entry.ttl as u64 + STALE_SECS, now) {
                Some(entry.domain.clone())
            } else {
                None
            }
        },
        None => None,
    }
}

// -------------------------------------------------------------------- laws

/// Moving a key to the front keeps the keys and their number.
proof fn lemma_to_front(order: Seq<AddressKey>, key: AddressKey)
    requires
        order.no_duplicates(),
        order.contains(key),
    ensures
        to_front(order, key).no_duplicates(),
        to_front(order, key).len() == order.len(),
        forall|k: AddressKey| to_front(order, key).contains(k) <==> order.contains(k),
{
    let i = order.index_of_first(key).unwrap();
    order.index_of_first_ensures(key);
    let rest = order.remove_value(key);
    assert(rest =~= order.remove(i));
    let front = to_front(order, key);
    assert forall|k: AddressKey| front.contains(k) implies order.contains(k) by {
        let j = choose|j: int| 0 <= j < front.len() && front[j] == k;
        if j > 0 {
            let m = if j - 1 < i {
                j - 1
            } else {
                j
            };
            assert(order[m] == k);
        }
    }
    assert forall|k: AddressKey| order.contains(k) implies front.contains(k) by {
        let j = choose|j: int| 0 <= j < order.len() && order[j] == k;
        if j < i {
            assert(front[j + 1] == k);
        } else if j > i {
            assert(front[j] == k);
        } else {
            assert(front[0] == k);
        }
    }
}

/// A put keeps a table in order and within its capacity.
pub proof fn lemma_put_keeps_wf(table: Table, cap: nat, key: AddressKey, entry: EntryView)
    requires
        table.wf(cap),
        cap > 0,
    ensures
        table.put(cap, key, entry).wf(cap),
{
    let after = table.put(cap, key, entry);
    if table.order.contains(key) {
        lemma_to_front(table.order, key);
    } else if table.order.len() == cap {
        let last = table.order.last();
        let kept = table.order.drop_last();
        assert forall|k: AddressKey| after.order.contains(k) <==> (k == key || (
        table.order.contains(k) && k != last)) by {
            if k == key {
                assert(after.order[0] == k);
            }
            if table.order.contains(k) && k != last {
                let j = choose|j: int| 0 <= j < table.order.len() && table.order[j] == k;
                assert(after.order[j + 1] == k);
            }
            if after.order.contains(k) && k != key {
                let j = choose|j: int| 0 <= j < after.order.len() && after.order[j] == k;
                assert(table.order[j - 1] == k);
                assert(table.order[cap - 1] == last);
            }
        }
    } else {
        assert forall|k: AddressKey| after.order.contains(k) <==> (k == key
            || table.order.contains(k)) by {
            if k == key {
                assert(after.order[0] == k);
            }
            if table.order.contains(k) {
                let j = choose|j: int| 0 <= j < table.order.len() && table.order[j] == k;
                assert(after.order[j + 1] == k);
            }
            if after.order.contains(k) && k != key {
                let j = choose|j: int| 0 <= j < after.order.len() && after.order[j] == k;
                assert(table.order[j - 1] == k);
            }
        }
    }
}

/// A lookup keeps a table in order and within its capacity.
pub proof fn lemma_touch_keeps_wf(table: Table, cap: nat, key: AddressKey)
    requires
        table.wf(cap),
    ensures
        table.touched(key).wf(cap),
{
    if table.entries.contains_key(key) {
        assert(table.order.contains(key));
        lemma_to_front(table.order, key);
    }
}

/// Any number of puts keeps a table in order and within its capacity.
pub proof fn lemma_put_all_keeps_wf(table: Table, cap: nat, updates: Seq<(AddressKey, EntryView)>)
    requires
        table.wf(cap),
        cap > 0,
    ensures
        table.put_all(cap, updates).wf(cap),
    decreases updates.len(),
{
    if updates.len() > 0 {
        lemma_put_all_keeps_wf(table, cap, updates.drop_last());
        lemma_put_keeps_wf(
            table.put_all(cap, updates.drop_last()),
            cap,
            updates.last().0,
            updates.last().1,
        );
    }
}

/// No table ever grows past the capacity: learning from a message keeps every
/// table in order and within it.
pub proof fn law_learning_keeps_wf(
    cache: CacheView,
    cgroup_id: u64,
    message: MessageView,
    now: Timestamp,
)
    requires
        cache.wf(),
    ensures
        cache.after_message(cgroup_id, message, now).wf(),
{
    assert(Table::empty().wf(cache.capacity));
    lemma_put_all_keeps_wf(cache.table(cgroup_id), cache.capacity, learnt(message, now));
}

/// Looking an address up keeps every table in order and within the capacity,
/// and changes no entry of any table.
pub proof fn law_lookup_keeps_entries(
    cache: CacheView,
    cgroup_id: u64,
    key: AddressKey,
    now: Timestamp,
    answer: Option<Seq<char>>,
    after: CacheView,
)
    requires
        cache.wf(),
        cache.looked_up(cgroup_id, key, now, answer, after),
    ensures
        after.wf(),
        forall|c: u64| #[trigger] after.table(c).entries == cache.table(c).entries,
{
    assert forall|c: u64| #[trigger] after.tables.contains_key(c) implies after.tables[c].wf(
        after.capacity,
    ) by {
        assert(cache.tables.contains_key(c));
        lemma_touch_keeps_wf(cache.tables[c], cache.capacity, key);
    }
    assert forall|c: u64| #[trigger] after.table(c).entries == cache.table(c).entries by {
        assert(after.tables.contains_key(c) == cache.tables.contains_key(c));
    }
}

/// The addresses that are put after position `i`.
pub open spec fn later_keys(updates: Seq<(AddressKey, EntryView)>, i: int) -> Set<AddressKey>
    decreases updates.len(),
{
    if updates.len() == 0 || i + 1 >= updates.len() {
        Set::empty()
    } else {
        later_keys(updates.drop_last(), i).insert(updates.last().0)
    }
}

/// After its put, an address stands behind exactly the addresses put later,
/// and keeps its entry as long as these leave room for it.
pub proof fn lemma_kept(table: Table, cap: nat, updates: Seq<(AddressKey, EntryView)>, i: int)
    requires
        table.wf(cap),
        0 <= i < updates.len(),
        forall|j: int| i < j < updates.len() ==> (#[trigger] updates[j]).0 != updates[i].0,
        later_keys(updates, i).len() < cap,
    ensures
        later_keys(updates, i).finite(),
        ({
            let after = table.put_all(cap, updates);
            let later = later_keys(updates, i);
            let p = later.len() as int;
            &&& after.wf(cap)
            &&& after.entries.contains_key(updates[i].0)
            &&& after.entries[updates[i].0] == updates[i].1
            &&& p < after.order.len()
            &&& after.order[p] == updates[i].0
            &&& forall|q: int| 0 <= q < p ==> later.contains(#[trigger] after.order[q])
            &&& forall|k: AddressKey| #[trigger]
                later.contains(k) ==> exists|q: int| 0 <= q < p && #[trigger] after.order[q] == k
        }),
    decreases updates.len(),
{
    let key = updates[i].0;
    let before = updates.drop_last();
    let t = table.put_all(cap, before);
    lemma_put_all_keeps_wf(table, cap, before);
    lemma_put_all_keeps_wf(table, cap, updates);
    let after = table.put_all(cap, updates);
    if i + 1 == updates.len() {
        assert(after.order[0] == key);
    } else {
        let k = updates.last().0;
        let smaller = later_keys(before, i);
        let later = later_keys(updates, i);
        lemma_later_finite(before, i);
        assert(smaller.len() <= later.len());
        lemma_kept(table, cap, before, i);
        let p = smaller.len() as int;
        assert(updates[updates.len() - 1].0 != key);
        if t.order.contains(k) {
            t.order.index_of_first_ensures(k);
            let q = t.order.index_of_first(k).unwrap();
            assert(after.order == seq![k] + t.order.remove(q));
            if q < p {
                assert(smaller.contains(t.order[q]));
                assert(later =~= smaller);
                assert forall|x: AddressKey| #[trigger] later.contains(x) implies exists|m: int|
                    0 <= m < p && #[trigger] after.order[m] == x by {
                    let m = choose|m: int| 0 <= m < p && #[trigger] t.order[m] == x;
                    if m < q {
                        assert(after.order[m + 1] == x);
                    } else if m > q {
                        assert(after.order[m] == x);
                    } else {
                        assert(after.order[0] == x);
                    }
                }
                assert forall|m: int| 0 <= m < p implies later.contains(#[trigger] after.order[m]) by {
                    if m > 0 {
                        let n = if m - 1 < q {
                            m - 1
                        } else {
                            m
                        };
                        assert(after.order[m] == t.order[n]);
                        assert(smaller.contains(t.order[n]));
                    }
                }
            } else {
                assert(q != p);
                assert(!smaller.contains(k)) by {
                    if smaller.contains(k) {
                        let m = choose|m: int| 0 <= m < p && #[trigger] t.order[m] == k;
                        assert(t.order[m] == t.order[q]);
                    }
                }
                assert(later.len() == p + 1);
                lemma_shifted(t.order, after.order, smaller, k, p);
            }
        } else {
            assert(!smaller.contains(k)) by {
                if smaller.contains(k) {
                    let m = choose|m: int| 0 <= m < p && #[trigger] t.order[m] == k;
                    assert(t.order.contains(t.order[m]));
                }
            }
            assert(later.len() == p + 1);
            if t.order.len() == cap {
                assert(t.order.last() == t.order[cap - 1]);
                assert(t.order.last() != key);
            }
            lemma_shifted(t.order, after.order, smaller, k, p);
        }
    }
}

proof fn lemma_later_finite(updates: Seq<(AddressKey, EntryView)>, i: int)
    ensures
        later_keys(updates, i).finite(),
    decreases updates.len(),
{
    if updates.len() > 0 && i + 1 < updates.len() {
        lemma_later_finite(updates.drop_last(), i);
    }
}

/// One more address in front shifts those behind it by one.
proof fn lemma_shifted(
    order: Seq<AddressKey>,
    after: Seq<AddressKey>,
    front: Set<AddressKey>,
    k: AddressKey,
    p: int,
)
    requires
        0 <= p < order.len(),
        p + 1 < after.len(),
        after[0] == k,
        forall|m: int| 0 <= m <= p ==> #[trigger] after[m + 1] == order[m],
        forall|m: int| 0 <= m < p ==> front.contains(#[trigger] order[m]),
        forall|x: AddressKey| #[trigger]
            front.contains(x) ==> exists|m: int| 0 <= m < p && #[trigger] order[m] == x,
    ensures
        after[p + 1] == order[p],
        forall|m: int| 0 <= m < p + 1 ==> front.insert(k).contains(#[trigger] after[m]),
        forall|x: AddressKey| #[trigger]
            front.insert(k).contains(x) ==> exists|m: int|
                0 <= m < p + 1 && #[trigger] after[m] == x,
{
    assert forall|m: int| 0 <= m < p + 1 implies front.insert(k).contains(#[trigger] after[m]) by {
        if m > 0 {
            assert(after[(m - 1) + 1] == order[m - 1]);
        }
    }
    assert forall|x: AddressKey| #[trigger] front.insert(k).contains(x) implies exists|m: int|
        0 <= m < p + 1 && #[trigger] after[m] == x by {
        if front.contains(x) {
            let m = choose|m: int| 0 <= m < p && #[trigger] order[m] == x;
            assert(after[m + 1] == x);
        } else {
            assert(after[0] == x);
        }
    }
}

/// What a container was told it can look up: the name learnt from the last
/// record of an address answers every lookup by the same control group while
/// the entry is fresh, as long as the table has room for the addresses that
/// came after it in the message.
pub proof fn law_learnt_name_resolves(
    cache: CacheView,
    cgroup_id: u64,
    message: MessageView,
    i: int,
    learnt_at: Timestamp,
    asked_at: Timestamp,
    answer: Option<Seq<char>>,
    after: CacheView,
)
    requires
        cache.wf(),
        0 <= i < learnt(message, learnt_at).len(),
        forall|j: int|
            i < j < learnt(message, learnt_at).len() ==> (#[trigger] learnt(message, learnt_at)[j]).0
                != learnt(message, learnt_at)[i].0,
        later_keys(learnt(message, learnt_at), i).len() < cache.capacity,
        learnt(message, learnt_at)[i].1.fresh(asked_at),
        cache.after_message(cgroup_id, message, learnt_at).looked_up(
            cgroup_id,
            learnt(message, learnt_at)[i].0,
            asked_at,
            answer,
            after,
        ),
    ensures
        answer == Some(learnt(message, learnt_at)[i].1.domain),
{
    assert(Table::empty().wf(cache.capacity));
    lemma_kept(cache.table(cgroup_id), cache.capacity, learnt(message, learnt_at), i);
}

/// Every address record of a message is learnt, under the name that was asked
/// for (or its own name when none was), with its time to live raised to the
/// least one.
pub proof fn law_every_address_is_learnt(message: MessageView, j: int, n: int, now: Timestamp)
    requires
        0 <= j < n <= message.answers.len(),
        message.answers[j].address is Some,
    ensures
        learnt_from(message, n, now).contains(
            (
                message.answers[j].address->0.spec_key(),
                EntryView {
                    domain: answer_domain(message, j),
                    resolved_at: now,
                    ttl: clamped_ttl(message.answers[j].ttl),
                },
            ),
        ),
    decreases n,
{
    let entry = (
        message.answers[j].address->0.spec_key(),
        EntryView {
            domain: answer_domain(message, j),
            resolved_at: now,
            ttl: clamped_ttl(message.answers[j].ttl),
        },
    );
    let all = learnt_from(message, n, now);
    if n == j + 1 {
        assert(all[all.len() - 1] == entry);
    } else {
        law_every_address_is_learnt(message, j, n - 1, now);
        let before = learnt_from(message, n - 1, now);
        let q = choose|q: int| 0 <= q < before.len() && before[q] == entry;
        assert(all[q] == entry);
    }
}

/// Only address records are learnt, at the moment of the message, for at least
/// the least time to live; so an entry answers for two minutes or more.
pub proof fn law_learnt_entries_last(message: MessageView, n: int, now: Timestamp, i: int)
    requires
        0 <= n <= message.answers.len(),
        0 <= i < learnt_from(message, n, now).len(),
    ensures
        learnt_from(message, n, now)[i].1.resolved_at == now,
        learnt_from(message, n, now)[i].1.ttl >= MIN_TTL_SECS,
        forall|later: Timestamp|
            now.within(120, later) ==> #[trigger] learnt_from(message, n, now)[i].1.fresh(later),
        exists|j: int|
            0 <= j < n && (#[trigger] message.answers[j]).address is Some
                && message.answers[j].address->0.spec_key() == learnt_from(message, n, now)[i].0,
    decreases n,
{
    if n > 0 {
        let before = learnt_from(message, n - 1, now);
        if i < before.len() {
            law_learnt_entries_last(message, n - 1, now, i);
        } else {
            assert(message.answers[n - 1].address is Some);
        }
    }
}

/// Control groups are isolated: what one group learns changes no other
/// group's table, so another group with a fresh entry of its own goes on
/// getting that entry's name.
pub proof fn law_groups_are_isolated(
    cache: CacheView,
    learner: u64,
    message: MessageView,
    learnt_at: Timestamp,
    asker: u64,
    key: AddressKey,
    asked_at: Timestamp,
    answer: Option<Seq<char>>,
    after: CacheView,
)
    requires
        learner != asker,
        cache.own_answer(asker, key, asked_at) is Some,
        cache.after_message(learner, message, learnt_at).looked_up(
            asker,
            key,
            asked_at,
            answer,
            after,
        ),
    ensures
        cache.after_message(learner, message, learnt_at).table(asker) == cache.table(asker),
        answer == cache.own_answer(asker, key, asked_at),
{
}

/// A stopped container's names are gone: after its table was evicted no lookup
/// is answered from it.
pub proof fn law_evicted_names_are_gone(
    cache: CacheView,
    evicted: u64,
    asker: u64,
    key: AddressKey,
    now: Timestamp,
    answer: Option<Seq<char>>,
    after: CacheView,
)
    requires
        cache.without(evicted).looked_up(asker, key, now, answer, after),
    ensures
        !after.tables.contains_key(evicted),
        answer is Some ==> exists|c: u64|
            c != evicted && #[trigger] cache.own_answer(c, key, now) == answer,
        (forall|c: u64| c != evicted ==> #[trigger] cache.own_answer(c, key, now) is None)
            ==> answer is None,
{
    let rest = cache.without(evicted);
    assert(!rest.tables.contains_key(evicted));
    assert(rest.own_answer(evicted, key, now) is None);
    assert forall|c: u64| c != evicted implies #[trigger] rest.own_answer(c, key, now)
        == cache.own_answer(c, key, now) by {
        assert(rest.tables.contains_key(c) == cache.tables.contains_key(c));
    }
    if answer is Some {
        if rest.own_answer(asker, key, now) is Some {
            assert(cache.own_answer(asker, key, now) == answer);
        } else {
            let c = choose|c: u64|
                c != asker && #[trigger] rest.own_answer(c, key, now) == Some(answer->0);
            assert(cache.own_answer(c, key, now) == answer);
        }
    }
}

} // verus!
