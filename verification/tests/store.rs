use kvs::log::COMPACTION_THRESHOLD;
use kvs::{DBInsertion, ItemPosition, KVSError, KvStore, KvsEngine};
use std::collections::HashMap;

// A log file held in memory: the records in the order they were written,
// each with its first byte and its length, as a parser would report them.
struct Disk {
    records: Vec<(DBInsertion, usize, usize)>,
    len: usize,
    writes: usize,
}

// The length the record has in the log, where it is written as JSON.
fn encoded_len(record: &DBInsertion) -> usize {
    match record {
        DBInsertion::Put { key, value } => 29 + key.len() + value.len(),
        DBInsertion::Rm { key } => 17 + key.len(),
    }
}

impl Disk {
    fn new() -> Disk {
        Disk { records: Vec::new(), len: 0, writes: 0 }
    }

    fn append(&mut self, record: DBInsertion) -> ItemPosition {
        let len = encoded_len(&record);
        let position = ItemPosition { pos: self.len as u64, len };
        self.records.push((record, self.len, len));
        self.len += len;
        self.writes += 1;
        position
    }

    fn read(&self, position: ItemPosition) -> Option<DBInsertion> {
        self.records
            .iter()
            .find(|(_, start, len)| *start as u64 == position.pos && *len == position.len)
            .map(|(record, _, _)| record.clone())
    }

    fn scan(&self) -> Vec<(DBInsertion, usize)> {
        self.records.iter().map(|(record, start, len)| (record.clone(), start + len)).collect()
    }

    fn truncate(&mut self) {
        self.records.clear();
        self.len = 0;
    }
}

// The engine as a program assembles it: the file on one side, the
// bookkeeping of the library on the other.
struct Engine {
    disk: Disk,
    core: KvStore,
    compactions: usize,
}

impl Engine {
    fn open(disk: Disk) -> Engine {
        let core = KvStore::new(disk.scan()).unwrap();
        Engine { disk, core, compactions: 0 }
    }

    fn close(self) -> Disk {
        self.disk
    }

    fn compact(&mut self) {
        let records: Vec<DBInsertion> =
            self.disk.records.iter().map(|(record, _, _)| record.clone()).collect();
        let kept = self.core.compaction(&records);
        self.disk.truncate();
        for record in kept {
            let key = record.get_key().clone();
            let position = self.disk.append(record);
            self.core.set(key, position).unwrap();
        }
        self.compactions += 1;
    }
}

impl KvsEngine for Engine {
    fn set(&mut self, key: String, value: String) -> Result<(), KVSError> {
        if self.core.compaction_due() {
            self.compact();
        }
        let position = self.disk.append(DBInsertion::Put { key: key.clone(), value });
        self.core.set(key, position)
    }

    fn get(&mut self, key: String) -> Result<Option<String>, KVSError> {
        match self.core.get(key) {
            None => Ok(None),
            Some(position) => KvStore::read_value(self.disk.read(position)),
        }
    }

    fn remove(&mut self, key: String) -> Result<(), KVSError> {
        let record = self.core.removal(key.clone())?;
        self.disk.append(record);
        self.core.remove(key)
    }
}

fn s(text: &str) -> String {
    text.to_string()
}

fn put(key: &str, value: &str) -> DBInsertion {
    DBInsertion::Put { key: s(key), value: s(value) }
}

fn rm(key: &str) -> DBInsertion {
    DBInsertion::Rm { key: s(key) }
}

fn at(pos: u64, len: usize) -> ItemPosition {
    ItemPosition { pos, len }
}

#[test]
fn set_then_get() {
    let mut engine = Engine::open(Disk::new());
    engine.set(s("k"), s("v1")).unwrap();
    assert_eq!(engine.get(s("k")), Ok(Some(s("v1"))));
}

#[test]
fn set_twice_then_get() {
    let mut engine = Engine::open(Disk::new());
    engine.set(s("k"), s("v1")).unwrap();
    engine.set(s("k"), s("v2")).unwrap();
    assert_eq!(engine.get(s("k")), Ok(Some(s("v2"))));
}

#[test]
fn set_remove_then_get() {
    let mut engine = Engine::open(Disk::new());
    engine.set(s("k"), s("v1")).unwrap();
    assert_eq!(engine.remove(s("k")), Ok(()));
    assert_eq!(engine.get(s("k")), Ok(None));
}

#[test]
fn remove_on_empty_store_fails() {
    let mut engine = Engine::open(Disk::new());
    assert_eq!(engine.remove(s("k")), Err(KVSError::KeyNotFoundError));
}

#[test]
fn remove_of_absent_key_writes_nothing() {
    let mut engine = Engine::open(Disk::new());
    engine.set(s("a"), s("1")).unwrap();
    let before = (engine.disk.len, engine.disk.writes, engine.core.possible_compaction());
    assert_eq!(engine.remove(s("b")), Err(KVSError::KeyNotFoundError));
    assert_eq!(engine.remove(s("")), Err(KVSError::KeyNotFoundError));
    assert_eq!((engine.disk.len, engine.disk.writes, engine.core.possible_compaction()), before);
    assert_eq!(engine.get(s("a")), Ok(Some(s("1"))));
    engine.remove(s("a")).unwrap();
    assert_eq!(engine.remove(s("a")), Err(KVSError::KeyNotFoundError));
    assert_eq!(engine.disk.writes, 2);
}

#[test]
fn set_close_reopen_get() {
    let mut engine = Engine::open(Disk::new());
    engine.set(s("k"), s("v")).unwrap();
    let mut engine = Engine::open(engine.close());
    assert_eq!(engine.get(s("k")), Ok(Some(s("v"))));
}

#[test]
fn get_of_a_key_never_set_is_none() {
    let mut engine = Engine::open(Disk::new());
    assert_eq!(engine.get(s("k")), Ok(None));
    engine.set(s("other"), s("v")).unwrap();
    assert_eq!(engine.get(s("k")), Ok(None));
}

#[test]
fn index_holds_offset_and_length_of_the_latest_put() {
    let mut core = KvStore::new(Vec::new()).unwrap();
    assert_eq!(core.get(s("k")), None);
    core.set(s("k"), at(0, 31)).unwrap();
    assert_eq!(core.get(s("k")), Some(at(0, 31)));
    core.set(s("j"), at(31, 40)).unwrap();
    core.set(s("k"), at(71, 29)).unwrap();
    assert_eq!(core.get(s("k")), Some(at(71, 29)));
    assert_eq!(core.get(s("j")), Some(at(31, 40)));
}

#[test]
fn superseded_records_count_as_stale() {
    let mut core = KvStore::new(Vec::new()).unwrap();
    assert_eq!(core.possible_compaction(), 0);
    core.set(s("k"), at(0, 31)).unwrap();
    assert_eq!(core.possible_compaction(), 0);
    core.set(s("k"), at(31, 100)).unwrap();
    assert_eq!(core.possible_compaction(), 31);
    core.set(s("j"), at(131, 7)).unwrap();
    assert_eq!(core.possible_compaction(), 31);
    core.remove(s("k")).unwrap();
    assert_eq!(core.possible_compaction(), 131);
    assert_eq!(core.remove(s("k")), Err(KVSError::KeyNotFoundError));
    assert_eq!(core.possible_compaction(), 131);
}

#[test]
fn the_counter_stops_at_its_largest_value() {
    let mut core = KvStore::new(Vec::new()).unwrap();
    core.set(s("k"), at(0, usize::MAX)).unwrap();
    core.set(s("k"), at(0, usize::MAX)).unwrap();
    core.set(s("k"), at(0, usize::MAX)).unwrap();
    let twice = (usize::MAX as u128) * 2;
    let expected = if twice > u64::MAX as u128 { u64::MAX } else { twice as u64 };
    assert_eq!(core.possible_compaction(), expected);
}

#[test]
fn compaction_is_due_above_the_threshold_only() {
    assert_eq!(COMPACTION_THRESHOLD, 1_048_576);
    let mut core = KvStore::new(Vec::new()).unwrap();
    assert!(!core.compaction_due());
    core.set(s("k"), at(0, 1_048_576)).unwrap();
    core.set(s("k"), at(1_048_576, 1)).unwrap();
    assert_eq!(core.possible_compaction(), 1_048_576);
    assert!(!core.compaction_due());
    core.set(s("k"), at(1_048_577, 10)).unwrap();
    assert_eq!(core.possible_compaction(), 1_048_577);
    assert!(core.compaction_due());
}

#[test]
fn scan_rebuilds_index_and_counter() {
    let records = vec![
        (put("a", "1"), 30),
        (put("b", "2"), 60),
        (put("a", "3"), 95),
        (rm("b"), 113),
        (rm("zzz"), 133),
        (put("c", ""), 162),
    ];
    let core = KvStore::new(records).unwrap();
    assert_eq!(core.get(s("a")), Some(at(60, 35)));
    assert_eq!(core.get(s("b")), None);
    assert_eq!(core.get(s("c")), Some(at(133, 29)));
    assert_eq!(core.get(s("zzz")), None);
    assert_eq!(core.possible_compaction(), 30 + 30);
}

#[test]
fn scan_stops_at_a_record_that_cannot_be_placed() {
    let records = vec![(put("a", "1"), 30), (put("b", "2"), 20), (put("c", "3"), 90)];
    let core = KvStore::new(records).unwrap();
    assert_eq!(core.get(s("a")), Some(at(0, 30)));
    assert_eq!(core.get(s("b")), None);
    assert_eq!(core.get(s("c")), None);
}

#[test]
fn create_index_adds_to_what_is_there() {
    let mut core = KvStore::new(vec![(put("a", "1"), 30)]).unwrap();
    core.create_index(&vec![(put("a", "2"), 12), (put("b", "2"), 20)]);
    assert_eq!(core.get(s("a")), Some(at(0, 12)));
    assert_eq!(core.get(s("b")), Some(at(12, 8)));
    assert_eq!(core.possible_compaction(), 30);
}

#[test]
fn read_value_wants_a_put_record() {
    assert_eq!(KvStore::read_value(Some(put("k", "v"))), Ok(Some(s("v"))));
    assert_eq!(KvStore::read_value(Some(put("k", ""))), Ok(Some(s(""))));
    assert_eq!(KvStore::read_value(Some(rm("k"))), Err(KVSError::GeneralKVSError));
    assert_eq!(KvStore::read_value(None), Err(KVSError::GeneralKVSError));
}

#[test]
fn removal_gives_the_record_to_append() {
    let mut core = KvStore::new(Vec::new()).unwrap();
    assert_eq!(core.removal(s("k")), Err(KVSError::KeyNotFoundError));
    core.set(s("k"), at(0, 10)).unwrap();
    assert_eq!(core.removal(s("k")), Ok(rm("k")));
    assert_eq!(core.get(s("k")), Some(at(0, 10)));
}

#[test]
fn get_key_names_the_key_of_either_record() {
    assert_eq!(put("a", "b").get_key(), "a");
    assert_eq!(rm("c").get_key(), "c");
}

#[test]
fn compaction_keeps_the_live_records_in_log_order() {
    let log = vec![
        put("a", "1"),
        put("b", "2"),
        put("a", "3"),
        put("c", "4"),
        rm("b"),
        put("d", "5"),
        rm("d"),
        put("d", "6"),
        rm("never"),
    ];
    let scanned: Vec<(DBInsertion, usize)> =
        log.iter().enumerate().map(|(i, r)| (r.clone(), (i + 1) * 10)).collect();
    let mut core = KvStore::new(scanned).unwrap();
    core.set(s("outside"), at(1000, 5)).unwrap();
    assert_eq!(core.possible_compaction(), 30);
    let kept = core.compaction(&log);
    assert_eq!(kept, vec![put("a", "3"), put("c", "4"), put("d", "6")]);
    assert_eq!(core.possible_compaction(), 0);
    assert_eq!(core.get(s("a")), None);
    assert_eq!(core.get(s("c")), None);
    assert_eq!(core.get(s("d")), None);
    assert_eq!(core.get(s("outside")), Some(at(1000, 5)));
}

#[test]
fn compaction_of_an_empty_log_keeps_nothing() {
    let mut core = KvStore::new(Vec::new()).unwrap();
    assert_eq!(core.compaction(&Vec::new()), Vec::new());
    assert_eq!(core.compaction(&vec![rm("a"), put("b", "1"), rm("b")]), Vec::new());
}

#[test]
fn many_sets_fire_compaction_and_keep_every_value() {
    let mut engine = Engine::open(Disk::new());
    let padding = "x".repeat(200);
    let mut largest = 0;
    for i in 0..10_000 {
        let key = format!("k{}", i % 100);
        let value = format!("v{}{}", i, padding);
        engine.set(key, value).unwrap();
        largest = largest.max(engine.disk.len);
    }
    assert!(engine.compactions >= 2);
    let mut live_bytes = 0;
    for k in 0..100 {
        let value = format!("v{}{}", 9_900 + k, padding);
        live_bytes += encoded_len(&DBInsertion::Put { key: format!("k{}", k), value: value.clone() });
        assert_eq!(engine.get(format!("k{}", k)), Ok(Some(value)));
    }
    let bound = 2 * (live_bytes + COMPACTION_THRESHOLD as usize);
    assert!(largest <= bound, "log grew to {} bytes, over {}", largest, bound);
    let mut engine = Engine::open(engine.close());
    assert_eq!(engine.get(s("k7")), Ok(Some(format!("v9907{}", padding))));
}

#[test]
fn ten_thousand_distinct_keys() {
    let mut engine = Engine::open(Disk::new());
    for i in 0..10_000 {
        engine.set(format!("k{}", i), format!("v{}", i)).unwrap();
    }
    for i in 0..10_000 {
        assert_eq!(engine.get(format!("k{}", i)), Ok(Some(format!("v{}", i))));
    }
    assert_eq!(engine.core.possible_compaction(), 0);
}

#[test]
fn compaction_in_a_running_engine_changes_no_answer() {
    let mut engine = Engine::open(Disk::new());
    engine.set(s("a"), s("1")).unwrap();
    engine.set(s("b"), s("2")).unwrap();
    engine.set(s("a"), s("3")).unwrap();
    engine.remove(s("b")).unwrap();
    engine.set(s("c"), s("4")).unwrap();
    let before = engine.disk.len;
    engine.compact();
    assert!(engine.disk.len < before);
    assert_eq!(engine.disk.records.len(), 2);
    assert_eq!(engine.core.possible_compaction(), 0);
    assert_eq!(engine.get(s("a")), Ok(Some(s("3"))));
    assert_eq!(engine.get(s("b")), Ok(None));
    assert_eq!(engine.get(s("c")), Ok(Some(s("4"))));
}

// A small generator of numbers, the same on every run.
fn next(state: &mut u64) -> u64 {
    *state = state.wrapping_mul(6364136223846793005).wrapping_add(1442695040888963407);
    *state >> 33
}

#[test]
fn any_sequence_agrees_with_a_map_before_and_after_reopening() {
    for seed in 0..20u64 {
        let mut state = seed;
        let mut engine = Engine::open(Disk::new());
        let mut reference: HashMap<String, String> = HashMap::new();
        for step in 0..400 {
            let key = format!("key{}", next(&mut state) % 12);
            match next(&mut state) % 4 {
                0 => {
                    let expected = match reference.remove(&key) {
                        Some(_) => Ok(()),
                        None => Err(KVSError::KeyNotFoundError),
                    };
                    assert_eq!(engine.remove(key), expected);
                }
                1 => {
                    assert_eq!(engine.get(key.clone()), Ok(reference.get(&key).cloned()));
                }
                _ => {
                    let value = format!("value{}-{}", step, next(&mut state));
                    engine.set(key.clone(), value.clone()).unwrap();
                    reference.insert(key, value);
                }
            }
            if step % 97 == 96 {
                engine = Engine::open(engine.close());
            }
            if step % 131 == 130 {
                engine.compact();
            }
        }
        let mut reopened = Engine::open(engine.close());
        for k in 0..12 {
            let key = format!("key{}", k);
            assert_eq!(reopened.get(key.clone()), Ok(reference.get(&key).cloned()));
        }
    }
}
