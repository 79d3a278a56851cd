//! The log-structured engine without its file: the index from key to log
//! position, the count of stale bytes, and every decision the engine takes
//! between two accesses to the log. Whoever holds the file appends, reads and
//! truncates as these functions say, and reports back what it found.

use vstd::hash_map::StringHashMap;
use vstd::prelude::*;
use crate::error::KVSError;
use crate::log::{
    capped, insertions, last_mention, live, live_prefix, scan_entries, DBInsertion, Insertion,
    ItemPosition, LogEntry, StoreState, COMPACTION_THRESHOLD,
};

verus! {

/// The in-memory side of the key/value store: where the latest value of
/// each key lies in the log, and how many bytes of the log are stale.
pub struct KvStore {
    storage: StringHashMap<ItemPosition>,
    possible_compaction: u64,
}

impl View for KvStore {
    type V = StoreState;

    closed spec fn view(&self) -> StoreState {
        StoreState { index: self.storage@, stale: self.possible_compaction as nat }
    }
}

/// What reading the value of a key gives, from what was found at the place
/// the index points to: the value of a `Put` record, and a general error for
/// anything else, since the index and the log then disagree.
pub open spec fn value_read(record: Option<DBInsertion>) -> Result<Option<Seq<char>>, KVSError> {
    match record {
        Some(DBInsertion::Put { value, .. }) => Ok(Some(value@)),
        _ => Err(KVSError::GeneralKVSError),
    }
}

impl KvStore {
    /// Counts the record that the index holds for `key`, if any, as stale.
    fn supersede(&mut self, key: &str)
        ensures
            final(self).storage@ == old(self).storage@,
            final(self)@.stale == capped(old(self)@.stale + old(self)@.freed(key@)),
    {
        if let Some(old_position) = self.storage.get(key) {
            self.possible_compaction = self.possible_compaction.saturating_add(
                old_position.len as u64,
            );
        }
    }

    /// Opens the store over a log that holds `records`, each given with the
    /// offset at which it ends: the state is that of an empty store after
    /// every entry of the scan.
    pub fn new(records: Vec<(DBInsertion, usize)>) -> (r: Result<KvStore, KVSError>)
        ensures
            r matches Ok(store) && store@ == StoreState::empty().replay(
                scan_entries(records@, 0),
            ),
    {
        let mut obj = KvStore { storage: StringHashMap::new(), possible_compaction: 0 };
        obj.create_index(&records);
        Ok(obj)
    }

    /// Takes in the records of a log, each given with the offset at which it
    /// ends and the first starting at offset 0: a `Put` points the index to
    /// its record, an `Rm` drops its key, and either counts the record it
    /// supersedes as stale.
    pub fn create_index(&mut self, records: &Vec<(DBInsertion, usize)>)
        ensures
            final(self)@ == old(self)@.replay(scan_entries(records@, 0)),
    {
        let mut start: usize = 0;
        let mut i: usize = 0;
        assert(records@.skip(0) == records@);
        while i < records.len()
            invariant
                i <= records.len(),
                old(self)@.replay(scan_entries(records@, 0)) == self@.replay(
                    scan_entries(records@.skip(i as int), start),
                ),
            decreases records.len() - i,
        {
            let end: usize = records[i].1;
            if end < start {
                return;
            }
            let position = ItemPosition { pos: start as u64, len: end - start };
            proof {
                let rest = records@.skip(i as int);
                let entry = LogEntry { insertion: rest[0].0@, position };
                let entries = scan_entries(rest, start);
                assert(rest.drop_first() == records@.skip(i + 1));
                assert(entries == seq![entry] + scan_entries(records@.skip(i + 1), end));
                assert(entries.drop_first() == scan_entries(records@.skip(i + 1), end));
            }
            match &records[i].0 {
                DBInsertion::Put { key, .. } => {
                    self.supersede(key.as_str());
                    self.storage.insert(key.clone(), position);
                },
                DBInsertion::Rm { key } => {
                    self.supersede(key.as_str());
                    self.storage.remove(key.as_str());
                },
            }
            start = end;
            i += 1;
        }
    }

    /// The number of bytes of the log that hold superseded records, as far
    /// as the engine has counted them.
    pub fn possible_compaction(&self) -> (stale: u64)
        ensures
            stale == self@.stale,
    {
        self.possible_compaction
    }

    /// Tells whether the log is to be compacted before the next record is
    /// written: when more than [`COMPACTION_THRESHOLD`] bytes are stale.
    pub fn compaction_due(&self) -> (due: bool)
        ensures
            due == (self@.stale > COMPACTION_THRESHOLD),
    {
        self.possible_compaction > COMPACTION_THRESHOLD
    }

    /// Records that a `Put` record for `key` was appended at `position`: the
    /// record it supersedes, if any, counts as stale, and the index points
    /// to the new one.
    pub fn set(&mut self, key: String, position: ItemPosition) -> (r: Result<(), KVSError>)
        ensures
            r is Ok,
            final(self)@ == old(self)@.put(key@, position),
    {
        self.supersede(key.as_str());
        self.storage.insert(key, position);
        Ok(())
    }

    /// Where the record with the value of `key` lies, or `None` where the
    /// key has no value.
    pub fn get(&self, key: String) -> (r: Option<ItemPosition>)
        ensures
            r == if self@.index.contains_key(key@) {
                Some(self@.index[key@])
            } else {
                None
            },
    {
        match self.storage.get(key.as_str()) {
            Some(record) => Some(*record),
            None => None,
        }
    }

    /// The value of a key, from the record found where the index points: the
    /// record has to be a `Put`, and whatever else was found there, or
    /// nothing that could be read as a record, is a general error.
    pub fn read_value(record: Option<DBInsertion>) -> (r: Result<Option<String>, KVSError>)
        ensures
            match r {
                Ok(Some(value)) => value_read(record) == Ok::<Option<Seq<char>>, KVSError>(
                    Some(value@),
                ),
                Ok(None) => false,
                Err(e) => value_read(record) == Err::<Option<Seq<char>>, KVSError>(e),
            },
    {
        match record {
            Some(DBInsertion::Put { value, .. }) => Ok(Some(value)),
            _ => Err(KVSError::GeneralKVSError),
        }
    }

    /// The record to append for the removal of `key`: an `Rm` record where
    /// the key has a value, and otherwise the error that the key was not
    /// found, with nothing to append.
    pub fn removal(&self, key: String) -> (r: Result<DBInsertion, KVSError>)
        ensures
            self@.index.contains_key(key@) ==> (r matches Ok(record) && record@ == (
            Insertion::Rm { key: key@ })),
            !self@.index.contains_key(key@) ==> r == Err::<DBInsertion, KVSError>(
                KVSError::KeyNotFoundError,
            ),
    {
        if self.storage.contains_key(key.as_str()) {
            Ok(DBInsertion::Rm { key })
        } else {
            Err(KVSError::KeyNotFoundError)
        }
    }

    /// Records that an `Rm` record for `key` was appended: the key leaves
    /// the index and its record counts as stale. A key without a value is
    /// an error, and nothing changes.
    pub fn remove(&mut self, key: String) -> (r: Result<(), KVSError>)
        ensures
            old(self)@.index.contains_key(key@) ==> (r is Ok && final(self)@ == old(self)@.rm(
                key@,
            )),
            !old(self)@.index.contains_key(key@) ==> (r == Err::<(), KVSError>(
                KVSError::KeyNotFoundError,
            ) && final(self)@ == old(self)@),
    {
        if self.storage.contains_key(key.as_str()) {
            self.supersede(key.as_str());
            self.storage.remove(key.as_str());
            Ok(())
        } else {
            Err(KVSError::KeyNotFoundError)
        }
    }

    /// Compacts the log that holds `records`. Returned are the records to
    /// write into the emptied log: the live ones, one for each key that has
    /// a value, in the order of the log. The index forgets every key the
    /// log speaks of, so that writing the returned records fills it again,
    /// and no byte counts as stale any more.
    pub fn compaction(&mut self, records: &Vec<DBInsertion>) -> (kept: Vec<DBInsertion>)
        ensures
            insertions(kept@) == live(insertions(records@)),
            final(self)@.stale == 0,
            final(self)@.index == old(self)@.index.remove_keys(
                Set::new(|key: Seq<char>| last_mention(insertions(records@), key) >= 0),
            ),
    {
        let ghost recs = insertions(records@);
        let mut last: StringHashMap<usize> = StringHashMap::new();
        let mut i: usize = 0;
        while i < records.len()
            invariant
                i <= records.len(),
                recs == insertions(records@),
                forall|key: Seq<char>| #[trigger]
                    last@.contains_key(key) <==> last_mention(recs.take(i as int), key) >= 0,
                forall|key: Seq<char>| #[trigger]
                    last@.contains_key(key) ==> last@[key] == last_mention(
                        recs.take(i as int),
                        key,
                    ),
                self.storage@ == old(self).storage@.remove_keys(
                    Set::new(|key: Seq<char>| last_mention(recs.take(i as int), key) >= 0),
                ),
            decreases records.len() - i,
        {
            let key = records[i].get_key();
            proof {
                let before = recs.take(i as int);
                let after = recs.take(i + 1);
                assert(after.drop_last() == before);
                assert(after.last() == recs[i as int]);
                assert(recs[i as int] == records@[i as int]@);
                assert forall|k: Seq<char>|
                    last_mention(after, k) == if k == key@ {
                        i as int
                    } else {
                        last_mention(before, k)
                    } by {}
                assert(old(self).storage@.remove_keys(
                    Set::new(|k: Seq<char>| last_mention(before, k) >= 0),
                ).remove(key@) == old(self).storage@.remove_keys(
                    Set::new(|k: Seq<char>| last_mention(after, k) >= 0),
                ));
            }
            self.storage.remove(key.as_str());
            last.insert(key.clone(), i);
            i += 1;
        }
        assert(recs.take(i as int) == recs);
        self.possible_compaction = 0;

        let mut kept: Vec<DBInsertion> = Vec::new();
        let mut i: usize = 0;
        while i < records.len()
            invariant
                i <= records.len(),
                recs == insertions(records@),
                forall|key: Seq<char>| #[trigger]
                    last@.contains_key(key) <==> last_mention(recs, key) >= 0,
                forall|key: Seq<char>| #[trigger]
                    last@.contains_key(key) ==> last@[key] == last_mention(recs, key),
                insertions(kept@) == live_prefix(recs, i as int),
            decreases records.len() - i,
        {
            assert(recs[i as int] == records@[i as int]@);
            if let DBInsertion::Put { key, value } = &records[i] {
                let is_last: bool = match last.get(key.as_str()) {
                    Some(at) => *at == i,
                    None => false,
                };
                if is_last {
                    let record = DBInsertion::Put { key: key.clone(), value: value.clone() };
                    assert(insertions(kept@.push(record)) == insertions(kept@).push(record@));
                    kept.push(record);
                }
            }
            i += 1;
        }
        kept
    }
}

} // verus!
