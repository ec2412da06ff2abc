//! What learning and looking up names is for.

use crate::addr::AddressKey;
use crate::clock::Timestamp;
use crate::dns::{
    dns_message, later_keys, learnt, learnt_from, lemma_kept,
    lemma_put_all_keeps_wf, packet_bytes, AnswerView, CacheView, EntryView, MessageView, Table,
};
use crate::events::DnsPacketEvent;
use crate::text_laws::law_trimming_takes_the_run;
use vstd::prelude::*;

verus! {

// ------------------------------------------------------------ the answers

/// The addresses of the records behind the `j`th.
pub open spec fn addresses_behind(message: MessageView, j: int) -> Set<AddressKey> {
    Set::new(
        |key: AddressKey|
            exists|k: int|
                j < k < message.answers.len() && (#[trigger] message.answers[k]).address is Some
                    && message.answers[k].address->0.spec_key() == key,
    )
}

/// What more records teach comes behind what fewer teach.
proof fn lemma_learnt_prefix(message: MessageView, a: int, b: int, now: Timestamp)
    requires
        0 <= a <= b <= message.answers.len(),
    ensures
        learnt_from(message, a, now).len() <= learnt_from(message, b, now).len(),
        forall|m: int|
            0 <= m < learnt_from(message, a, now).len() ==> #[trigger] learnt_from(
                message,
                b,
                now,
            )[m] == learnt_from(message, a, now)[m],
    decreases b - a,
{
    if a < b {
        lemma_learnt_prefix(message, a, b - 1, now);
    }
}

/// What is learnt comes from an address record.
proof fn lemma_learnt_source(message: MessageView, n: int, now: Timestamp, m: int) -> (k: int)
    requires
        0 <= n <= message.answers.len(),
        0 <= m < learnt_from(message, n, now).len(),
    ensures
        0 <= k < n,
        message.answers[k].address is Some,
        message.answers[k].address->0.spec_key() == learnt_from(message, n, now)[m].0,
        learnt_from(message, k, now).len() == m,
    decreases n,
{
    let before = learnt_from(message, n - 1, now);
    if m < before.len() {
        lemma_learnt_source(message, n - 1, now, m)
    } else {
        n - 1
    }
}

/// An address record is learnt, next to what those before it teach.
proof fn lemma_learnt_at(message: MessageView, j: int, now: Timestamp)
    requires
        0 <= j < message.answers.len(),
        message.answers[j].address is Some,
    ensures
        ({
            let i = learnt_from(message, j, now).len() as int;
            let all = learnt(message, now);
            &&& 0 <= i < all.len()
            &&& all[i].0 == message.answers[j].address->0.spec_key()
            &&& all[i] == learnt_from(message, j + 1, now)[i]
        }),
{
    lemma_learnt_prefix(message, j + 1, message.answers.len() as int, now);
}

proof fn lemma_later_keys(updates: Seq<(AddressKey, EntryView)>, i: int, key: AddressKey)
    ensures
        later_keys(updates, i).contains(key) <==> exists|m: int|
            i < m < updates.len() && 0 <= m && (#[trigger] updates[m]).0 == key,
    decreases updates.len(),
{
    if updates.len() > 0 && i + 1 < updates.len() {
        let rest = updates.drop_last();
        lemma_later_keys(rest, i, key);
        assert(forall|m: int| 0 <= m < rest.len() ==> rest[m] == updates[m]);
        if later_keys(updates, i).contains(key) {
            if updates.last().0 == key {
                assert(updates[updates.len() - 1].0 == key);
            } else {
                let m = choose|m: int| i < m < rest.len() && 0 <= m && (#[trigger] rest[m]).0 == key;
                assert(updates[m].0 == key);
            }
        }
        if exists|m: int| i < m < updates.len() && 0 <= m && (#[trigger] updates[m]).0 == key {
            let m = choose|m: int|
                i < m < updates.len() && 0 <= m && (#[trigger] updates[m]).0 == key;
            if m < rest.len() {
                assert(rest[m].0 == key);
            }
        }
    }
}

/// The addresses learnt behind a record are those of the records behind it.
proof fn lemma_behind(message: MessageView, j: int, now: Timestamp)
    requires
        0 <= j < message.answers.len(),
        message.answers[j].address is Some,
    ensures
        later_keys(learnt(message, now), learnt_from(message, j, now).len() as int)
            == addresses_behind(message, j),
{
    let all = learnt(message, now);
    let i = learnt_from(message, j, now).len() as int;
    let n = message.answers.len() as int;
    assert forall|key: AddressKey|
        later_keys(all, i).contains(key) <==> addresses_behind(message, j).contains(key) by {
        lemma_later_keys(all, i, key);
        if later_keys(all, i).contains(key) {
            let m = choose|m: int| i < m < all.len() && 0 <= m && (#[trigger] all[m]).0 == key;
            let k = lemma_learnt_source(message, n, now, m);
            if k <= j {
                lemma_learnt_prefix(message, k, j, now);
            }
            assert(message.answers[k].address->0.spec_key() == key);
        }
        if addresses_behind(message, j).contains(key) {
            let k = choose|k: int|
                j < k < message.answers.len() && (#[trigger] message.answers[k]).address is Some
                    && message.answers[k].address->0.spec_key() == key;
            lemma_learnt_at(message, k, now);
            lemma_learnt_prefix(message, j + 1, k, now);
            let m = learnt_from(message, k, now).len() as int;
            assert(all[m].0 == key);
        }
    }
    assert(later_keys(all, i) =~= addresses_behind(message, j));
}

/// Whether `name` is `raw` without its trailing dots.
pub open spec fn is_undotted(name: Seq<char>, raw: Seq<char>) -> bool {
    &&& name.len() <= raw.len()
    &&& name == raw.take(name.len() as int)
    &&& forall|i: int| name.len() <= i < raw.len() ==> #[trigger] raw[i] == '.'
    &&& name.len() > 0 ==> name[name.len() - 1] != '.'
}

/// A name answers for just its time: from the last record of an address in a
/// message, the control group that received it gets the name that was asked
/// for (or the record's own, where none was) until the time to live, counted as
/// a minute at least, and one more minute are over, and from then on its table
/// gives no answer. The table must have room for the addresses behind it.
pub proof fn law_names_answer_for_their_time(
    cache: CacheView,
    cgroup_id: u64,
    message: MessageView,
    j: int,
    learnt_at: Timestamp,
    asked_at: Timestamp,
    answer: Option<Seq<char>>,
    after: CacheView,
)
    requires
        cache.wf(),
        0 <= j < message.answers.len(),
        message.answers[j].address is Some,
        forall|k: int|
            j < k < message.answers.len() ==> (#[trigger] message.answers[k]).address
                != message.answers[j].address,
        addresses_behind(message, j).len() < cache.capacity,
        cache.after_message(cgroup_id, message, learnt_at).looked_up(
            cgroup_id,
            message.answers[j].address->0.spec_key(),
            asked_at,
            answer,
            after,
        ),
    ensures
        ({
            let ttl = message.answers[j].ttl as int;
            let secs = if ttl < 60 {
                120
            } else {
                ttl + 60
            };
            let key = message.answers[j].address->0.spec_key();
            let raw = if message.queries.len() == 0 {
                message.answers[j].name
            } else {
                message.queries[0]
            };
            let in_time = asked_at.nanos - learnt_at.nanos <= secs * 1_000_000_000;
            &&& in_time ==> answer is Some && is_undotted(answer->0, raw)
            &&& !in_time && (forall|c: u64|
                c != cgroup_id && #[trigger] cache.tables.contains_key(c)
                    ==> !cache.tables[c].entries.contains_key(key)) ==> answer is None
        }),
{
    let all = learnt(message, learnt_at);
    let i = learnt_from(message, j, learnt_at).len() as int;
    let key = message.answers[j].address->0.spec_key();
    lemma_learnt_at(message, j, learnt_at);
    lemma_behind(message, j, learnt_at);
    assert forall|m: int| i < m < all.len() implies (#[trigger] all[m]).0 != all[i].0 by {
        let k = lemma_learnt_source(message, message.answers.len() as int, learnt_at, m);
        if k <= j {
            lemma_learnt_prefix(message, k, j, learnt_at);
        }
        assert(message.answers[k].address != message.answers[j].address);
        if message.answers[k].address->0.spec_key() == key {
            assert(message.answers[k].address->0 == message.answers[j].address->0);
        }
    }
    assert(Table::empty().wf(cache.capacity));
    lemma_kept(cache.table(cgroup_id), cache.capacity, all, i);
    let told = cache.after_message(cgroup_id, message, learnt_at);
    let entry = told.tables[cgroup_id].entries[key];
    assert(entry == all[i].1);
    law_trimming_takes_the_run(message.answers[j].name, '.');
    if message.queries.len() > 0 {
        law_trimming_takes_the_run(message.queries[0], '.');
    }
    assert forall|c: u64| c != cgroup_id implies told.tables.contains_key(c)
        == #[trigger] cache.tables.contains_key(c) by {}
}

/// A message teaches nothing but its addresses: an address that none of its
/// records has keeps its entry or loses it to make room, and never gets
/// another; it keeps it where there is room for all records. A message without
/// address records changes nothing, and no message changes another control
/// group's table.
pub proof fn law_messages_teach_only_their_addresses(
    cache: CacheView,
    cgroup_id: u64,
    message: MessageView,
    now: Timestamp,
    key: AddressKey,
    other: u64,
)
    requires
        cache.wf(),
        forall|k: int|
            0 <= k < message.answers.len() && (#[trigger] message.answers[k]).address is Some
                ==> message.answers[k].address->0.spec_key() != key,
        other != cgroup_id,
    ensures
        ({
            let before = cache.table(cgroup_id);
            let told = cache.after_message(cgroup_id, message, now);
            let table = told.table(cgroup_id);
            &&& table.entries.contains_key(key) ==> before.entries.contains_key(key)
                && table.entries[key] == before.entries[key]
            &&& before.entries.contains_key(key) && before.order.len() + message.answers.len()
                <= cache.capacity ==> table.entries.contains_key(key)
            &&& told.tables.contains_key(other) == cache.tables.contains_key(other)
            &&& told.tables[other] == cache.tables[other]
            &&& told.capacity == cache.capacity
            &&& told.clock == cache.clock
            &&& (forall|k: int|
                0 <= k < message.answers.len() ==> (#[trigger] message.answers[k]).address is None)
                ==> told == cache
        }),
{
    let all = learnt(message, now);
    let before = cache.table(cgroup_id);
    assert(Table::empty().wf(cache.capacity));
    assert forall|m: int| 0 <= m < all.len() implies (#[trigger] all[m]).0 != key by {
        let k = lemma_learnt_source(message, message.answers.len() as int, now, m);
    }
    lemma_learnt_is_short(message, message.answers.len() as int, now);
    lemma_puts_keep_others(before, cache.capacity, all, key);
    if all.len() > 0 {
        let k = lemma_learnt_source(message, message.answers.len() as int, now, 0);
    }
}

proof fn lemma_learnt_is_short(message: MessageView, n: int, now: Timestamp)
    requires
        0 <= n <= message.answers.len(),
    ensures
        learnt_from(message, n, now).len() <= n,
    decreases n,
{
    if n > 0 {
        lemma_learnt_is_short(message, n - 1, now);
    }
}

proof fn lemma_puts_keep_others(
    table: Table,
    cap: nat,
    updates: Seq<(AddressKey, EntryView)>,
    key: AddressKey,
)
    requires
        table.wf(cap),
        cap > 0,
        forall|m: int| 0 <= m < updates.len() ==> (#[trigger] updates[m]).0 != key,
    ensures
        ({
            let after = table.put_all(cap, updates);
            &&& after.entries.contains_key(key) ==> table.entries.contains_key(key)
                && after.entries[key] == table.entries[key]
            &&& after.order.len() <= table.order.len() + updates.len()
            &&& table.entries.contains_key(key) && table.order.len() + updates.len() <= cap
                ==> after.entries.contains_key(key)
        }),
    decreases updates.len(),
{
    if updates.len() > 0 {
        let rest = updates.drop_last();
        assert(forall|m: int| 0 <= m < rest.len() ==> rest[m] == updates[m]);
        lemma_puts_keep_others(table, cap, rest, key);
        lemma_put_all_keeps_wf(table, cap, rest);
        let mid = table.put_all(cap, rest);
        assert(updates[updates.len() - 1].0 != key);
        if mid.order.contains(updates.last().0) {
            mid.order.index_of_first_ensures(updates.last().0);
        }
    }
}

/// Records are learnt one by one: a message teaches what it teaches without its
/// last record, and then what that record teaches under the same question.
pub proof fn law_records_are_learnt_one_by_one(
    cache: CacheView,
    cgroup_id: u64,
    message: MessageView,
    record: AnswerView,
    now: Timestamp,
)
    ensures
        cache.after_message(
            cgroup_id,
            MessageView { answers: message.answers.push(record), ..message },
            now,
        ) == cache.after_message(cgroup_id, message, now).after_message(
            cgroup_id,
            MessageView { answers: seq![record], ..message },
            now,
        ),
{
    let longer = MessageView { answers: message.answers.push(record), ..message };
    let single = MessageView { answers: seq![record], ..message };
    let n = message.answers.len() as int;
    lemma_learnt_alike(message, longer, n, now);
    let known = learnt(message, now);
    let all = learnt(longer, now);
    let one = learnt(single, now);
    assert(learnt_from(single, 0, now) =~= seq![]);
    let table = cache.table(cgroup_id);
    if record.address is Some {
        assert(all.drop_last() =~= known);
        assert(one.drop_last() =~= seq![]);
        assert(table.put_all(cache.capacity, known).put_all(cache.capacity, one.drop_last())
            == table.put_all(cache.capacity, known));
        let first = cache.after_message(cgroup_id, message, now);
        assert(first.table(cgroup_id) =~= table.put_all(cache.capacity, known));
        assert(all.last() == one.last());
        assert(cache.after_message(cgroup_id, longer, now).tables
            =~= first.after_message(cgroup_id, single, now).tables);
    } else {
        assert(all =~= known);
    }
}

proof fn lemma_learnt_alike(a: MessageView, b: MessageView, n: int, now: Timestamp)
    requires
        0 <= n <= a.answers.len(),
        n <= b.answers.len(),
        a.queries == b.queries,
        forall|k: int| 0 <= k < n ==> #[trigger] a.answers[k] == b.answers[k],
    ensures
        learnt_from(a, n, now) == learnt_from(b, n, now),
    decreases n,
{
    if n > 0 {
        lemma_learnt_alike(a, b, n - 1, now);
        assert(a.answers[n - 1] == b.answers[n - 1]);
    }
}

/// One address record makes its address the most recently used one of its
/// group's table, before all others in their order; a full table drops the least
/// recently used one for an address that is new to it, and no other entry
/// changes.
pub proof fn law_one_record_moves_to_the_front(
    cache: CacheView,
    cgroup_id: u64,
    message: MessageView,
    now: Timestamp,
    k: AddressKey,
)
    requires
        message.answers.len() == 1,
        message.answers[0].address is Some,
    ensures
        ({
            let key = message.answers[0].address->0.spec_key();
            let before = cache.table(cgroup_id);
            let after = cache.after_message(cgroup_id, message, now).table(cgroup_id);
            let full = before.order.len() == cache.capacity;
            &&& after.order[0] == key
            &&& before.order.contains(key) ==> after.order.skip(1) == before.order.remove_value(key)
            &&& !before.order.contains(key) && full ==> after.order.skip(1)
                == before.order.drop_last()
            &&& !before.order.contains(key) && !full ==> after.order.skip(1) == before.order
            &&& after.entries.contains_key(key)
            &&& after.entries[key].resolved_at == now
            &&& k != key && !(full && !before.order.contains(key) && k == before.order.last())
                ==> after.entries.contains_key(k) == before.entries.contains_key(k)
                && after.entries[k] == before.entries[k]
            &&& k != key && full && !before.order.contains(key) && k == before.order.last()
                ==> !after.entries.contains_key(k)
        }),
{
    let all = learnt(message, now);
    assert(learnt_from(message, 0, now) =~= seq![]);
    assert(all.len() == 1);
    let before = cache.table(cgroup_id);
    assert(all.drop_last() =~= seq![]);
    assert(before.put_all(cache.capacity, all.drop_last()) == before);
    let after = cache.after_message(cgroup_id, message, now).table(cgroup_id);
    let key = message.answers[0].address->0.spec_key();
    assert(after == before.put(cache.capacity, all.last().0, all.last().1));
    assert(before.order.contains(key) ==> after.order.skip(1) =~= before.order.remove_value(key));
    assert(!before.order.contains(key) && before.order.len() == cache.capacity
        ==> after.order.skip(1) =~= before.order.drop_last());
    assert(!before.order.contains(key) && before.order.len() != cache.capacity
        ==> after.order.skip(1) =~= before.order);
}

// ------------------------------------------------------------ the lookups

/// A lookup makes the address the most recently used one of its own group's
/// table, where it is there, and leaves the others in their order.
pub proof fn law_lookups_mark_the_address_as_used(
    cache: CacheView,
    cgroup_id: u64,
    key: AddressKey,
    now: Timestamp,
    answer: Option<Seq<char>>,
    after: CacheView,
)
    requires
        cache.looked_up(cgroup_id, key, now, answer, after),
        cache.tables.contains_key(cgroup_id),
    ensures
        cache.tables[cgroup_id].entries.contains_key(key) ==> after.tables[cgroup_id].order[0]
            == key && after.tables[cgroup_id].order.skip(1)
            == cache.tables[cgroup_id].order.remove_value(key),
        !cache.tables[cgroup_id].entries.contains_key(key) ==> after.tables[cgroup_id]
            == cache.tables[cgroup_id],
        after.capacity == cache.capacity,
        after.clock == cache.clock,
{
    assert(cache.tables[cgroup_id].entries.contains_key(key)
        ==> after.tables[cgroup_id].order.skip(1) =~= cache.tables[cgroup_id].order.remove_value(
        key,
    ));
}

/// A lookup finds a live name where there is one: the asking control group's
/// own, or else that of some other group; an entry is live up to a minute past
/// its time to live. The lookup changes no entry.
pub proof fn law_lookups_find_live_names(
    cache: CacheView,
    cgroup_id: u64,
    key: AddressKey,
    now: Timestamp,
    answer: Option<Seq<char>>,
    after: CacheView,
    other: u64,
)
    requires
        cache.looked_up(cgroup_id, key, now, answer, after),
    ensures
        ({
            let live = |c: u64|
                cache.tables.contains_key(c) && cache.tables[c].entries.contains_key(key)
                    && now.nanos - cache.tables[c].entries[key].resolved_at.nanos <= (
                cache.tables[c].entries[key].ttl + 60) * 1_000_000_000;
            &&& live(cgroup_id) ==> answer == Some(cache.tables[cgroup_id].entries[key].domain)
            &&& !live(cgroup_id) && live(other) ==> answer is Some
            &&& answer is Some ==> exists|c: u64|
                #[trigger] live(c) && answer == Some(cache.tables[c].entries[key].domain)
        }),
        cache.tables.contains_key(other) == after.tables.contains_key(other),
        cache.tables.contains_key(other) ==> after.tables[other].entries
            == cache.tables[other].entries,
{
    let live = |c: u64|
        cache.tables.contains_key(c) && cache.tables[c].entries.contains_key(key) && now.nanos
            - cache.tables[c].entries[key].resolved_at.nanos <= (cache.tables[c].entries[key].ttl
            + 60) * 1_000_000_000;
    assert forall|c: u64| live(c) <==> #[trigger] cache.own_answer(c, key, now) is Some by {
        assert(cache.table(c).entries.contains_key(key) ==> cache.tables.contains_key(c));
    }
    assert(live(cgroup_id) <==> cache.own_answer(cgroup_id, key, now) is Some);
    assert(live(other) <==> cache.own_answer(other, key, now) is Some);
    if answer is Some {
        if cache.own_answer(cgroup_id, key, now) is Some {
            assert(live(cgroup_id));
        } else {
            let c = choose|c: u64|
                c != cgroup_id && #[trigger] cache.own_answer(c, key, now) == Some(answer->0);
            assert(live(c));
        }
    }
}

/// Eviction takes away one control group's table, whatever it holds, and leaves
/// every other as it is.
pub proof fn law_eviction_takes_one_table(cache: CacheView, evicted: u64, other: u64)
    requires
        other != evicted,
    ensures
        !cache.without(evicted).tables.contains_key(evicted),
        cache.without(evicted).tables.contains_key(other) == cache.tables.contains_key(other),
        cache.without(evicted).tables[other] == cache.tables[other],
        cache.without(evicted).capacity == cache.capacity,
        cache.without(evicted).clock == cache.clock,
{
}

// ------------------------------------------------------------ the packets

/// A packet is the bytes that were captured: as many as the record says, up to
/// the 768 that it can hold.
pub proof fn law_packets_are_what_was_captured(event: DnsPacketEvent, i: int)
    ensures
        packet_bytes(event).len() == (if event.len < 768 {
            event.len as int
        } else {
            768
        }),
        0 <= i < packet_bytes(event).len() ==> packet_bytes(event)[i] == event.payload@[i],
{
}

/// A packet teaches its control group what the message in it says, and nothing
/// where it holds no message.
pub proof fn law_packets_teach_their_message(
    cache: CacheView,
    cgroup_id: u64,
    bytes: Seq<u8>,
    now: Timestamp,
)
    ensures
        dns_message(bytes) is None ==> cache.after_packet(cgroup_id, bytes, now) == cache,
        dns_message(bytes) is Some ==> cache.after_packet(cgroup_id, bytes, now)
            == cache.after_message(cgroup_id, dns_message(bytes)->0, now),
{
}

} // verus!
