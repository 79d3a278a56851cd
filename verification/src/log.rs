//! The append-only log as a mathematical object: the records it holds, the
//! index and the contents that follow from them, and what compaction keeps.

use vstd::prelude::*;

verus! {

/// The stale bytes after which the log is rewritten: 1 MiB.
pub const COMPACTION_THRESHOLD: u64 = 1024 * 1024;

/// The name of the log file inside the directory of the store.
pub const DATABASE_FILENAME: &'static str = "kvs.db";

/// One entry of the log.
#[derive(Debug, Clone, PartialEq, Eq)]
pub enum DBInsertion {
    /// Set up value by key into KVS
    Put { key: String, value: String },
    /// Removes value by key
    Rm { key: String },
}

/// A record as a mathematical value: its kind and its texts.
pub enum Insertion {
    Put { key: Seq<char>, value: Seq<char> },
    Rm { key: Seq<char> },
}

impl Insertion {
    /// The key the record is about.
    pub open spec fn key(self) -> Seq<char> {
        match self {
            Insertion::Put { key, .. } => key,
            Insertion::Rm { key } => key,
        }
    }
}

impl View for DBInsertion {
    type V = Insertion;

    open spec fn view(&self) -> Insertion {
        match self {
            DBInsertion::Put { key, value } => Insertion::Put { key: key@, value: value@ },
            DBInsertion::Rm { key } => Insertion::Rm { key: key@ },
        }
    }
}

impl DBInsertion {
    /// The key the record is about.
    pub fn get_key(&self) -> (key: &String)
        ensures
            key@ == self@.key(),
    {
        match self {
            DBInsertion::Rm { key } => key,
            DBInsertion::Put { key, .. } => key,
        }
    }
}

/// Where a record lies in the log: the offset of its first byte and the
/// number of its bytes.
#[derive(Debug, Clone, Copy, PartialEq, Eq, Structural)]
pub struct ItemPosition {
    pub pos: u64,
    pub len: usize,
}

/// A record together with the place where the log holds it.
pub struct LogEntry {
    pub insertion: Insertion,
    pub position: ItemPosition,
}

/// What the engine keeps in memory: for each key that has a value, the place
/// of the record that gave it, and the count of bytes that hold superseded
/// records.
pub struct StoreState {
    pub index: Map<Seq<char>, ItemPosition>,
    pub stale: nat,
}

/// A count of bytes as the 64-bit counter holds it: it stops at the largest
/// value instead of wrapping.
pub open spec fn capped(n: nat) -> nat {
    if n > u64::MAX {
        u64::MAX as nat
    } else {
        n
    }
}

impl StoreState {
    /// The state of an engine over an empty log.
    pub open spec fn empty() -> StoreState {
        StoreState { index: Map::empty(), stale: 0 }
    }

    /// The bytes that become stale when the record of `key` is superseded:
    /// the length of the record the index points to, if there is one.
    pub open spec fn freed(self, key: Seq<char>) -> nat {
        if self.index.contains_key(key) {
            self.index[key].len as nat
        } else {
            0
        }
    }

    /// The state after a `Put` record for `key` was stored at `position`.
    pub open spec fn put(self, key: Seq<char>, position: ItemPosition) -> StoreState {
        StoreState {
            index: self.index.insert(key, position),
            stale: capped(self.stale + self.freed(key)),
        }
    }

    /// The state after an `Rm` record for `key` was stored.
    pub open spec fn rm(self, key: Seq<char>) -> StoreState {
        StoreState { index: self.index.remove(key), stale: capped(self.stale + self.freed(key)) }
    }

    /// The state after one more entry of the log.
    pub open spec fn apply(self, entry: LogEntry) -> StoreState {
        match entry.insertion {
            Insertion::Put { key, .. } => self.put(key, entry.position),
            Insertion::Rm { key } => self.rm(key),
        }
    }

    /// The state after each of `entries` in turn.
    pub open spec fn replay(self, entries: Seq<LogEntry>) -> StoreState
        decreases entries.len(),
    {
        if entries.len() == 0 {
            self
        } else {
            self.apply(entries[0]).replay(entries.drop_first())
        }
    }
}

/// The entries that a scan of the log yields, given each record with the
/// offset at which it ends, the first record starting at `start`. A record
/// that would end before it starts cannot be placed: the scan stops there
/// and what came before it counts.
pub open spec fn scan_entries(records: Seq<(DBInsertion, usize)>, start: usize) -> Seq<LogEntry>
    decreases records.len(),
{
    if records.len() == 0 || records[0].1 < start {
        Seq::empty()
    } else {
        let end = records[0].1;
        let entry = LogEntry {
            insertion: records[0].0@,
            position: ItemPosition { pos: start as u64, len: (end - start) as usize },
        };
        seq![entry] + scan_entries(records.drop_first(), end)
    }
}

/// `entries` are the records of `records` laid end to end from `start`: each
/// entry begins where the one before it ends, and ends at the offset that
/// comes with its record.
pub open spec fn laid_out(
    entries: Seq<LogEntry>,
    records: Seq<(DBInsertion, usize)>,
    start: usize,
) -> bool {
    &&& entries.len() == records.len()
    &&& forall|i: int|
        0 <= i < entries.len() ==> {
            &&& (#[trigger] entries[i]).insertion == records[i].0@
            &&& entries[i].position.pos == if i == 0 {
                start
            } else {
                records[i - 1].1
            }
            &&& entries[i].position.pos + entries[i].position.len == records[i].1
        }
}

/// A scan finds what was written: for entries laid end to end, the scan of
/// their records and end offsets gives back exactly these entries.
pub proof fn lemma_scan_finds_what_was_written(
    entries: Seq<LogEntry>,
    records: Seq<(DBInsertion, usize)>,
    start: usize,
)
    requires
        laid_out(entries, records, start),
    ensures
        scan_entries(records, start) == entries,
    decreases records.len(),
{
    if records.len() > 0 {
        let first = entries[0];
        let later = entries.drop_first();
        let rest = records.drop_first();
        assert forall|i: int| 0 <= i < later.len() implies {
            &&& (#[trigger] later[i]).insertion == rest[i].0@
            &&& later[i].position.pos == if i == 0 {
                records[0].1
            } else {
                rest[i - 1].1
            }
            &&& later[i].position.pos + later[i].position.len == rest[i].1
        } by {
            assert(later[i] == entries[i + 1]);
        }
        lemma_scan_finds_what_was_written(later, rest, records[0].1);
        assert(entries == seq![first] + later);
    } else {
        assert(entries == Seq::<LogEntry>::empty());
    }
}

/// The index of the last of `records` that is about `key`, or -1 where none
/// is.
pub open spec fn last_mention(records: Seq<Insertion>, key: Seq<char>) -> int
    decreases records.len(),
{
    if records.len() == 0 {
        -1
    } else if records.last().key() == key {
        records.len() - 1
    } else {
        last_mention(records.drop_last(), key)
    }
}

/// The record at `i` is live: it is a `Put`, and no later record is about
/// its key.
pub open spec fn is_live(records: Seq<Insertion>, i: int) -> bool {
    &&& 0 <= i < records.len()
    &&& records[i] is Put
    &&& last_mention(records, records[i].key()) == i
}

/// What the store holds after `records`: the reference behaviour of a map,
/// in which a `Put` binds its key and an `Rm` unbinds it.
pub open spec fn contents(records: Seq<Insertion>) -> Map<Seq<char>, Seq<char>>
    decreases records.len(),
{
    if records.len() == 0 {
        Map::empty()
    } else {
        match records.last() {
            Insertion::Put { key, value } => contents(records.drop_last()).insert(key, value),
            Insertion::Rm { key } => contents(records.drop_last()).remove(key),
        }
    }
}

/// The live records among the first `n` of `records`, in the order of the
/// log.
pub open spec fn live_prefix(records: Seq<Insertion>, n: int) -> Seq<Insertion>
    decreases n,
{
    if n <= 0 {
        Seq::empty()
    } else if is_live(records, n - 1) {
        live_prefix(records, n - 1).push(records[n - 1])
    } else {
        live_prefix(records, n - 1)
    }
}

/// The records that compaction keeps: the live ones, in the order of the
/// log.
pub open spec fn live(records: Seq<Insertion>) -> Seq<Insertion> {
    live_prefix(records, records.len() as int)
}

/// The records of a list as mathematical values.
pub open spec fn insertions(records: Seq<DBInsertion>) -> Seq<Insertion> {
    records.map_values(|r: DBInsertion| r@)
}

/// The records that a sequence of entries holds.
pub open spec fn records_of(entries: Seq<LogEntry>) -> Seq<Insertion> {
    entries.map_values(|e: LogEntry| e.insertion)
}

/// The last mention of a key is a mention of it, and no record after it is
/// about the key.
pub proof fn lemma_last_mention(records: Seq<Insertion>, key: Seq<char>)
    ensures
        -1 <= last_mention(records, key) < records.len(),
        last_mention(records, key) >= 0 ==> records[last_mention(records, key)].key() == key,
        forall|i: int|
            last_mention(records, key) < i < records.len() ==> (#[trigger] records[i]).key()
                != key,
    decreases records.len(),
{
    if records.len() > 0 && records.last().key() != key {
        let before = records.drop_last();
        lemma_last_mention(before, key);
        assert forall|i: int| last_mention(records, key) < i < records.len() implies (
        #[trigger] records[i]).key() != key by {
            if i < before.len() {
                assert(before[i] == records[i]);
            }
        }
    }
}

/// Replaying one more entry is applying it to the state replayed so far.
pub proof fn lemma_replay_push(state: StoreState, entries: Seq<LogEntry>, entry: LogEntry)
    ensures
        state.replay(entries.push(entry)) == state.replay(entries).apply(entry),
    decreases entries.len(),
{
    let longer = entries.push(entry);
    if entries.len() == 0 {
        reveal_with_fuel(StoreState::replay, 2);
        assert(longer.drop_first() == Seq::<LogEntry>::empty());
    } else {
        assert(longer[0] == entries[0]);
        assert(longer.drop_first() == entries.drop_first().push(entry));
        lemma_replay_push(state.apply(entries[0]), entries.drop_first(), entry);
    }
}

/// The index points to the latest record of each key: a key is in the index
/// exactly when the last record about it is a `Put`, and the index then
/// holds the place of that record.
pub proof fn lemma_index_points_to_latest(entries: Seq<LogEntry>, key: Seq<char>)
    ensures
        ({
            let index = StoreState::empty().replay(entries).index;
            let at = last_mention(records_of(entries), key);
            &&& index.contains_key(key) <==> at >= 0 && entries[at].insertion is Put
            &&& index.contains_key(key) ==> index[key] == entries[at].position
        }),
    decreases entries.len(),
{
    if entries.len() > 0 {
        let before = entries.drop_last();
        assert(entries == before.push(entries.last()));
        lemma_replay_push(StoreState::empty(), before, entries.last());
        lemma_index_points_to_latest(before, key);
        assert(records_of(entries).drop_last() == records_of(before));
        lemma_last_mention(records_of(before), key);
    }
}

/// The contents are what the latest record of each key says: a key has a
/// value exactly when the last record about it is a `Put`, and the value is
/// the one of that record.
pub proof fn lemma_contents_are_latest(records: Seq<Insertion>, key: Seq<char>)
    ensures
        ({
            let at = last_mention(records, key);
            &&& contents(records).contains_key(key) <==> at >= 0 && records[at] is Put
            &&& contents(records).contains_key(key) ==> records[at] == (Insertion::Put {
                key,
                value: contents(records)[key],
            })
        }),
    decreases records.len(),
{
    if records.len() > 0 {
        let before = records.drop_last();
        lemma_contents_are_latest(before, key);
        lemma_last_mention(before, key);
    }
}

/// Reading through the index gives what a map would give. After any
/// sequence of entries, a key is in the index exactly when the reference
/// map binds it, and the index then holds the place of an entry of the log
/// that is a `Put` of this key with the value the reference map has for it.
pub proof fn lemma_index_agrees_with_contents(entries: Seq<LogEntry>, key: Seq<char>)
    ensures
        ({
            let index = StoreState::empty().replay(entries).index;
            let map = contents(records_of(entries));
            &&& index.contains_key(key) <==> map.contains_key(key)
            &&& index.contains_key(key) ==> exists|i: int|
                0 <= i < entries.len() && (#[trigger] entries[i]).position == index[key]
                    && entries[i].insertion == (Insertion::Put { key, value: map[key] })
        }),
{
    lemma_index_points_to_latest(entries, key);
    lemma_contents_are_latest(records_of(entries), key);
    lemma_last_mention(records_of(entries), key);
    let at = last_mention(records_of(entries), key);
    if at >= 0 {
        assert(records_of(entries)[at] == entries[at].insertion);
    }
}

/// Closing and reopening changes nothing. The state built by scanning a log
/// that ends with `entry` is the state built by scanning the log before it,
/// followed by what the running engine does when it writes `entry`.
pub proof fn lemma_reopen_agrees(entries: Seq<LogEntry>, entry: LogEntry)
    ensures
        StoreState::empty().replay(entries.push(entry)) == StoreState::empty().replay(
            entries,
        ).apply(entry),
        contents(records_of(entries.push(entry))) == match entry.insertion {
            Insertion::Put { key, value } => contents(records_of(entries)).insert(key, value),
            Insertion::Rm { key } => contents(records_of(entries)).remove(key),
        },
{
    lemma_replay_push(StoreState::empty(), entries, entry);
    let longer = records_of(entries.push(entry));
    assert(longer.drop_last() == records_of(entries));
    assert(longer.last() == entry.insertion);
}

/// `record` is one of the live records among the first `n` of `records`.
pub open spec fn is_live_among(records: Seq<Insertion>, n: int, record: Insertion) -> bool {
    exists|i: int| 0 <= i < n && is_live(records, i) && records[i] == record
}

/// What a part of the live records is made of: each of its records is a
/// live record of the log, and each live record among the first `n` is in
/// it.
pub proof fn lemma_live_prefix_members(records: Seq<Insertion>, n: int)
    requires
        0 <= n <= records.len(),
    ensures
        forall|j: int|
            0 <= j < live_prefix(records, n).len() ==> is_live_among(
                records,
                n,
                #[trigger] live_prefix(records, n)[j],
            ),
        forall|i: int|
            0 <= i < n && #[trigger] is_live(records, i) ==> live_prefix(records, n).contains(
                records[i],
            ),
    decreases n,
{
    if n > 0 {
        lemma_live_prefix_members(records, n - 1);
        let shorter = live_prefix(records, n - 1);
        let part = live_prefix(records, n);
        assert forall|j: int| 0 <= j < part.len() implies is_live_among(
            records,
            n,
            #[trigger] part[j],
        ) by {
            if j < shorter.len() {
                assert(is_live_among(records, n - 1, shorter[j]));
                let i = choose|i: int|
                    0 <= i < n - 1 && is_live(records, i) && records[i] == shorter[j];
                assert(0 <= i < n && is_live(records, i) && records[i] == part[j]);
            } else {
                assert(0 <= n - 1 < n && is_live(records, n - 1) && records[n - 1] == part[j]);
            }
        }
        assert forall|i: int| 0 <= i < n && #[trigger] is_live(records, i) implies part.contains(
            records[i],
        ) by {
            if i < n - 1 {
                assert(shorter.contains(records[i]));
                let j = choose|j: int| 0 <= j < shorter.len() && shorter[j] == records[i];
                assert(part[j] == records[i]);
            } else {
                assert(part[part.len() - 1] == records[i]);
            }
        }
    }
}

/// Compaction loses nothing and keeps nothing dead: the records it keeps
/// give the same contents as the whole log.
pub proof fn lemma_compaction_keeps_contents(records: Seq<Insertion>)
    ensures
        contents(live(records)) == contents(records),
{
    let kept = live(records);
    let n = records.len() as int;
    lemma_live_prefix_members(records, n);
    assert forall|key: Seq<char>|
        (#[trigger] contents(kept).contains_key(key) <==> contents(records).contains_key(key)) && (
        contents(kept).contains_key(key) ==> contents(kept)[key] == contents(records)[key]) by {
        lemma_contents_are_latest(records, key);
        lemma_contents_are_latest(kept, key);
        lemma_last_mention(records, key);
        lemma_last_mention(kept, key);
        let at = last_mention(records, key);
        let kept_at = last_mention(kept, key);
        if kept_at >= 0 {
            assert(is_live_among(records, n, kept[kept_at]));
            let i = choose|i: int|
                0 <= i < n && is_live(records, i) && records[i] == kept[kept_at];
            assert(i == at);
        }
        if at >= 0 && records[at] is Put {
            assert(is_live(records, at));
            assert(kept.contains(records[at]));
            let j = choose|j: int| 0 <= j < kept.len() && kept[j] == records[at];
            assert(kept[j].key() == key);
            assert(kept_at >= j);
        }
    }
    assert(contents(kept) =~= contents(records));
}

/// No two of the live records among the first `n` are about the same key.
proof fn lemma_live_prefix_distinct(records: Seq<Insertion>, n: int)
    requires
        0 <= n <= records.len(),
    ensures
        forall|a: int, b: int|
            0 <= a < live_prefix(records, n).len() && 0 <= b < live_prefix(records, n).len() && (
            #[trigger] live_prefix(records, n)[a]).key() == (#[trigger] live_prefix(
                records,
                n,
            )[b]).key() ==> a == b,
    decreases n,
{
    if n > 0 {
        lemma_live_prefix_distinct(records, n - 1);
        lemma_live_prefix_members(records, n - 1);
        let shorter = live_prefix(records, n - 1);
        let part = live_prefix(records, n);
        if is_live(records, n - 1) {
            lemma_last_mention(records, records[n - 1].key());
            assert forall|a: int| 0 <= a < shorter.len() implies (#[trigger] shorter[a]).key()
                != records[n - 1].key() by {
                assert(is_live_among(records, n - 1, shorter[a]));
            }
            assert forall|a: int, b: int|
                0 <= a < part.len() && 0 <= b < part.len() && (#[trigger] part[a]).key() == (
                #[trigger] part[b]).key() implies a == b by {
                if a < shorter.len() {
                    assert(part[a] == shorter[a]);
                }
                if b < shorter.len() {
                    assert(part[b] == shorter[b]);
                }
            }
        }
    }
}

/// Compaction keeps one record for each key: each record it keeps is a
/// `Put`, and no two of them are about the same key.
pub proof fn lemma_compaction_keeps_one_each(records: Seq<Insertion>, i: int, j: int)
    requires
        0 <= i < live(records).len(),
        0 <= j < live(records).len(),
    ensures
        live(records)[i] is Put,
        live(records)[i].key() == live(records)[j].key() ==> i == j,
{
    let kept = live(records);
    let n = records.len() as int;
    lemma_live_prefix_members(records, n);
    lemma_live_prefix_distinct(records, n);
    assert(is_live_among(records, n, kept[i]));
}

/// An index that was built from a log is emptied by the compaction of that
/// log: every key it holds is a key the log speaks of.
pub proof fn lemma_compaction_empties_index(entries: Seq<LogEntry>)
    ensures
        StoreState::empty().replay(entries).index.remove_keys(
            Set::new(|key: Seq<char>| last_mention(records_of(entries), key) >= 0),
        ) == Map::<Seq<char>, ItemPosition>::empty(),
{
    let index = StoreState::empty().replay(entries).index;
    let cleared = index.remove_keys(
        Set::new(|key: Seq<char>| last_mention(records_of(entries), key) >= 0),
    );
    assert forall|key: Seq<char>| !cleared.contains_key(key) by {
        lemma_index_points_to_latest(entries, key);
    }
    assert(cleared =~= Map::<Seq<char>, ItemPosition>::empty());
}

/// Compaction changes no answer. Take an engine whose state was built from
/// the log `entries`. Compacting clears its index and its counter, and
/// writing the kept records as `rewritten` fills the index again: the state
/// is then the one a scan of the new log gives, the new log holds what the
/// old one held, and a key is in the index after compaction exactly when it
/// was before.
pub proof fn lemma_compaction_changes_no_answer(
    entries: Seq<LogEntry>,
    rewritten: Seq<LogEntry>,
    key: Seq<char>,
)
    requires
        records_of(rewritten) == live(records_of(entries)),
    ensures
        ({
            let before = StoreState::empty().replay(entries);
            let cleared = StoreState {
                index: before.index.remove_keys(
                    Set::new(|k: Seq<char>| last_mention(records_of(entries), k) >= 0),
                ),
                stale: 0,
            };
            let after = cleared.replay(rewritten);
            &&& after == StoreState::empty().replay(rewritten)
            &&& contents(records_of(rewritten)) == contents(records_of(entries))
            &&& after.index.contains_key(key) <==> before.index.contains_key(key)
        }),
{
    lemma_compaction_empties_index(entries);
    lemma_compaction_keeps_contents(records_of(entries));
    lemma_index_agrees_with_contents(entries, key);
    lemma_index_agrees_with_contents(rewritten, key);
}

/// The dead bytes among the first `n` entries of a log: the lengths of the
/// records that are not live, which are the superseded `Put` records and
/// every `Rm` record.
pub open spec fn dead_prefix(entries: Seq<LogEntry>, n: int) -> nat
    decreases n,
{
    if n <= 0 {
        0
    } else if is_live(records_of(entries), n - 1) {
        dead_prefix(entries, n - 1)
    } else {
        dead_prefix(entries, n - 1) + entries[n - 1].position.len as nat
    }
}

/// The dead bytes of a log.
pub open spec fn dead_bytes(entries: Seq<LogEntry>) -> nat {
    dead_prefix(entries, entries.len() as int)
}

/// The last mention of each key after one more record.
pub proof fn lemma_last_mention_push(records: Seq<Insertion>, record: Insertion, key: Seq<char>)
    ensures
        last_mention(records.push(record), key) == if record.key() == key {
            records.len() as int
        } else {
            last_mention(records, key)
        },
{
    assert(records.push(record).drop_last() == records);
}

/// One more entry makes dead, among the entries before it, the live record
/// of its key and nothing else.
pub proof fn lemma_dead_prefix_push(entries: Seq<LogEntry>, entry: LogEntry, n: int)
    requires
        0 <= n <= entries.len(),
    ensures
        ({
            let at = last_mention(records_of(entries), entry.insertion.key());
            dead_prefix(entries.push(entry), n) == dead_prefix(entries, n) + if 0 <= at < n
                && entries[at].insertion is Put {
                entries[at].position.len as nat
            } else {
                0
            }
        }),
    decreases n,
{
    if n > 0 {
        lemma_dead_prefix_push(entries, entry, n - 1);
        let records = records_of(entries);
        let longer = entries.push(entry);
        let key = entry.insertion.key();
        assert(records_of(longer) == records.push(entry.insertion));
        assert(longer[n - 1] == entries[n - 1]);
        lemma_last_mention(records, key);
        lemma_last_mention_push(records, entry.insertion, records[n - 1].key());
    }
}

/// The counter of stale bytes is a lower bound of the dead bytes of the
/// log: after any sequence of entries it is no more than the bytes of the
/// records that are not live.
pub proof fn lemma_stale_is_a_lower_bound(entries: Seq<LogEntry>)
    ensures
        StoreState::empty().replay(entries).stale <= dead_bytes(entries),
    decreases entries.len(),
{
    if entries.len() > 0 {
        let before = entries.drop_last();
        let entry = entries.last();
        assert(entries == before.push(entry));
        lemma_stale_is_a_lower_bound(before);
        lemma_replay_push(StoreState::empty(), before, entry);
        lemma_index_points_to_latest(before, entry.insertion.key());
        lemma_last_mention(records_of(before), entry.insertion.key());
        lemma_dead_prefix_push(before, entry, before.len() as int);
    }
}

/// One step of a running engine: a `set` with the place where the log took
/// its record, a `remove` with the place its record would take, or a
/// compaction with the places where the rewritten log took the records that
/// were kept. The engine compacts at the start of a `set`, when its counter
/// is above the threshold; here a compaction may stand anywhere.
pub enum Operation {
    Write { key: Seq<char>, value: Seq<char>, position: ItemPosition },
    Remove { key: Seq<char>, position: ItemPosition },
    Compact { places: Seq<ItemPosition> },
}

/// The log that compaction writes: the kept records, each at its place.
pub open spec fn rewritten(kept: Seq<Insertion>, places: Seq<ItemPosition>) -> Seq<LogEntry> {
    Seq::new(kept.len(), |i: int| LogEntry { insertion: kept[i], position: places[i] })
}

/// The state of the engine once it has compacted `log` and written the
/// kept records back: the index forgets every key of the old log, the
/// counter starts at 0, and every kept record is entered at its new place.
pub open spec fn compacted(
    state: StoreState,
    log: Seq<LogEntry>,
    places: Seq<ItemPosition>,
) -> StoreState {
    (StoreState {
        index: state.index.remove_keys(
            Set::new(|key: Seq<char>| last_mention(records_of(log), key) >= 0),
        ),
        stale: 0,
    }).replay(rewritten(live(records_of(log)), places))
}

/// What a map holds after the operations: the reference behaviour, on which
/// a compaction has no effect.
pub open spec fn reference_after(operations: Seq<Operation>) -> Map<Seq<char>, Seq<char>>
    decreases operations.len(),
{
    if operations.len() == 0 {
        Map::empty()
    } else {
        let before = reference_after(operations.drop_last());
        match operations.last() {
            Operation::Write { key, value, .. } => before.insert(key, value),
            Operation::Remove { key, .. } => before.remove(key),
            Operation::Compact { .. } => before,
        }
    }
}

/// What the engine holds in memory after the operations, starting empty: a
/// `set` enters its record, a `remove` drops its key where the key has a
/// value and changes nothing where it has none, and a compaction leaves the
/// state described by [`compacted`].
pub open spec fn state_after(operations: Seq<Operation>) -> StoreState
    decreases operations.len(), 1int,
{
    if operations.len() == 0 {
        StoreState::empty()
    } else {
        let before = state_after(operations.drop_last());
        match operations.last() {
            Operation::Write { key, position, .. } => before.put(key, position),
            Operation::Remove { key, .. } => if before.index.contains_key(key) {
                before.rm(key)
            } else {
                before
            },
            Operation::Compact { places } => compacted(
                before,
                log_after(operations.drop_last()),
                places,
            ),
        }
    }
}

/// What the log holds after the operations, starting empty: a `set`
/// appends its record, a `remove` appends one only where the key has a
/// value, and a compaction replaces the log by the records it keeps.
pub open spec fn log_after(operations: Seq<Operation>) -> Seq<LogEntry>
    decreases operations.len(), 0int,
{
    if operations.len() == 0 {
        Seq::empty()
    } else {
        let before = log_after(operations.drop_last());
        match operations.last() {
            Operation::Write { key, value, position } => before.push(
                LogEntry { insertion: Insertion::Put { key, value }, position },
            ),
            Operation::Remove { key, position } => if state_after(
                operations.drop_last(),
            ).index.contains_key(key) {
                before.push(LogEntry { insertion: Insertion::Rm { key }, position })
            } else {
                before
            },
            Operation::Compact { places } => rewritten(live(records_of(before)), places),
        }
    }
}

/// The engine behaves as a map. After any sequence of `set` and `remove`
/// on an empty store, with compactions wherever they fall, the state in
/// memory is the one a scan of the log would build, the log holds what the
/// reference map holds, and so a key is in the index exactly when the
/// reference map binds it, the index then pointing to a `Put` record of the
/// log with the value of the map.
pub proof fn lemma_engine_is_a_map(operations: Seq<Operation>, key: Seq<char>)
    ensures
        state_after(operations) == StoreState::empty().replay(log_after(operations)),
        reference_after(operations) == contents(records_of(log_after(operations))),
        state_after(operations).index.contains_key(key) <==> reference_after(
            operations,
        ).contains_key(key),
        state_after(operations).index.contains_key(key) ==> exists|i: int|
            0 <= i < log_after(operations).len() && (#[trigger] log_after(
                operations,
            )[i]).position == state_after(operations).index[key] && log_after(
                operations,
            )[i].insertion == (Insertion::Put { key, value: reference_after(operations)[key] }),
    decreases operations.len(),
{
    if operations.len() > 0 {
        let earlier = operations.drop_last();
        let log = log_after(earlier);
        match operations.last() {
            Operation::Write { key: touched, .. } => {
                lemma_engine_is_a_map(earlier, touched);
                lemma_reopen_agrees(log, log_after(operations).last());
                assert(log_after(operations) == log.push(log_after(operations).last()));
            },
            Operation::Remove { key: touched, .. } => {
                lemma_engine_is_a_map(earlier, touched);
                if state_after(earlier).index.contains_key(touched) {
                    lemma_reopen_agrees(log, log_after(operations).last());
                    assert(log_after(operations) == log.push(log_after(operations).last()));
                } else {
                    assert(reference_after(earlier).remove(touched) == reference_after(
                        earlier,
                    ));
                }
            },
            Operation::Compact { places } => {
                lemma_engine_is_a_map(earlier, key);
                let again = rewritten(live(records_of(log)), places);
                assert(records_of(again) == live(records_of(log)));
                lemma_compaction_changes_no_answer(log, again, key);
            },
        }
    }
    lemma_index_agrees_with_contents(log_after(operations), key);
}

/// Closing and reopening loses nothing. Where the records of the log lie
/// end to end from the start of the file, the state that opening builds
/// from a scan of the file is the state the running engine had, so every
/// `get` finds after reopening what it found before.
pub proof fn lemma_reopened_engine_is_the_same(
    operations: Seq<Operation>,
    records: Seq<(DBInsertion, usize)>,
)
    requires
        laid_out(log_after(operations), records, 0),
    ensures
        StoreState::empty().replay(scan_entries(records, 0)) == state_after(operations),
{
    lemma_scan_finds_what_was_written(log_after(operations), records, 0);
    lemma_engine_is_a_map(operations, Seq::empty());
}

} // verus!
