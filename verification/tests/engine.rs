use kvs::{KvStore, KvsError};
use std::collections::HashMap;

/// A log engine with its log held in memory in place of a file.
struct Disk {
    log: Vec<u8>,
    store: KvStore,
    rewrites: usize,
}

impl Disk {
    fn open(log: Vec<u8>) -> Result<Disk, KvsError> {
        let store = KvStore::open(&log)?;
        Ok(Disk { log, store, rewrites: 0 })
    }

    fn set(&mut self, key: &str, value: &str) -> Result<(), KvsError> {
        let outcome = self.store.set(key.to_string(), value.to_string())?;
        self.log.extend_from_slice(&outcome.record);
        self.log.push(b'\n');
        if let Some(from) = outcome.compaction {
            let mut fresh = Vec::new();
            for at in from {
                let start = at.pos as usize;
                let end = start + at.len as usize;
                fresh.extend_from_slice(&self.log[start..end]);
                fresh.push(b'\n');
            }
            self.log = fresh;
            self.rewrites += 1;
        }
        Ok(())
    }

    fn get(&self, key: &str) -> Result<Option<String>, KvsError> {
        match self.store.locate(key) {
            None => Ok(None),
            Some(at) => {
                let start = at.pos as usize;
                let end = start + at.len as usize;
                KvStore::value_of(&self.log[start..end]).map(Some)
            }
        }
    }

    fn remove(&mut self, key: &str) -> Result<(), KvsError> {
        let record = self.store.remove(key.to_string())?;
        self.log.extend_from_slice(&record);
        self.log.push(b'\n');
        Ok(())
    }

    fn reopen(self) -> Disk {
        Disk::open(self.log).expect("a log that the store wrote is a log")
    }
}

fn text(bytes: &[u8]) -> String {
    String::from_utf8(bytes.to_vec()).unwrap()
}

#[test]
fn basic_set_and_get() {
    let mut disk = Disk::open(Vec::new()).unwrap();
    disk.set("a", "1").unwrap();
    disk.set("b", "2").unwrap();
    assert_eq!(disk.get("a").unwrap(), Some("1".to_string()));
    assert_eq!(disk.get("b").unwrap(), Some("2".to_string()));
    assert_eq!(disk.get("c").unwrap(), None);
}

#[test]
fn overwrite_and_persistence() {
    let mut disk = Disk::open(Vec::new()).unwrap();
    disk.set("k", "v1").unwrap();
    disk.set("k", "v2").unwrap();
    let disk = disk.reopen();
    assert_eq!(disk.get("k").unwrap(), Some("v2".to_string()));
}

#[test]
fn remove_and_persistence() {
    let mut disk = Disk::open(Vec::new()).unwrap();
    disk.set("x", "y").unwrap();
    disk.remove("x").unwrap();
    let mut disk = disk.reopen();
    assert_eq!(disk.get("x").unwrap(), None);
    assert_eq!(disk.remove("x"), Err(KvsError::KeyNotFound));
}

#[test]
fn compaction_trigger() {
    let mut disk = Disk::open(Vec::new()).unwrap();
    for i in 0..2000 {
        disk.set(&format!("key{}", i), &format!("value{}", i)).unwrap();
    }
    let first_pass = disk.log.len();
    assert_eq!(disk.rewrites, 0);
    for i in 0..2000 {
        disk.set(&format!("key{}", i), &format!("new{}", i)).unwrap();
    }
    assert!(disk.rewrites > 0);
    assert!(disk.log.len() < 3 * first_pass);
    for i in 0..2000 {
        assert_eq!(disk.get(&format!("key{}", i)).unwrap(), Some(format!("new{}", i)));
    }
}

#[test]
fn recovery_correctness() {
    let mut disk = Disk::open(Vec::new()).unwrap();
    let mut expected: HashMap<String, Option<String>> = HashMap::new();
    let mut live: Vec<String> = Vec::new();
    let mut state: u64 = 0x2545f4914f6cdd1d;
    for step in 0..10_000u64 {
        state = state.wrapping_mul(6364136223846793005).wrapping_add(1442695040888963407);
        let roll = (state >> 33) % 10;
        let pick = ((state >> 13) as usize) % live.len().max(1);
        if roll < 7 || live.is_empty() {
            let key = format!("key{}", step);
            let value = format!("value{}", state >> 40);
            disk.set(&key, &value).unwrap();
            expected.insert(key.clone(), Some(value));
            live.push(key);
        } else if roll < 9 {
            let key = live.swap_remove(pick);
            disk.remove(&key).unwrap();
            expected.insert(key, None);
        } else {
            let key = live[pick].clone();
            let value = format!("again{}", step);
            disk.set(&key, &value).unwrap();
            expected.insert(key, Some(value));
        }
    }
    let size = disk.log.len() as u64;
    let disk = disk.reopen();
    assert_eq!(disk.store.write_position(), size);
    assert_eq!(disk.store.len(), live.len());
    for (key, value) in expected.iter() {
        assert_eq!(&disk.get(key).unwrap(), value);
    }
}

#[test]
fn reopening_gives_the_same_store() {
    let mut disk = Disk::open(Vec::new()).unwrap();
    disk.set("a", "1").unwrap();
    disk.set("b", "2").unwrap();
    disk.set("c", "3").unwrap();
    disk.remove("b").unwrap();
    disk.set("c", "4").unwrap();
    let keys = disk.store.len();
    let redundant = disk.store.redundant_entries();
    let position = disk.store.write_position();
    let at_a = disk.store.locate("a");
    let at_c = disk.store.locate("c");
    let disk = disk.reopen();
    assert_eq!(disk.store.len(), keys);
    assert_eq!(disk.store.redundant_entries(), redundant);
    assert_eq!(disk.store.write_position(), position);
    assert_eq!(disk.store.locate("a"), at_a);
    assert_eq!(disk.store.locate("b"), None);
    assert_eq!(disk.store.locate("c"), at_c);
    assert_eq!(disk.get("a").unwrap(), Some("1".to_string()));
    assert_eq!(disk.get("c").unwrap(), Some("4".to_string()));
}

#[test]
fn removed_key_has_no_value() {
    let mut disk = Disk::open(Vec::new()).unwrap();
    disk.set("k", "v").unwrap();
    disk.remove("k").unwrap();
    assert_eq!(disk.get("k").unwrap(), None);
    assert!(disk.log.ends_with(b"{\"Remove\":{\"key\":\"k\"}}\n"));
    let disk = disk.reopen();
    assert_eq!(disk.get("k").unwrap(), None);
}

#[test]
fn overwrite_leaves_both_records_in_the_log() {
    let mut store = KvStore::open(b"{\"Set\":{\"key\":\"other\",\"value\":\"x\"}}\n").unwrap();
    let mut log = b"{\"Set\":{\"key\":\"other\",\"value\":\"x\"}}\n".to_vec();
    let first = store.set("k".to_string(), "v1".to_string()).unwrap();
    assert_eq!(first.compaction, None);
    log.extend_from_slice(&first.record);
    log.push(b'\n');
    let second = store.set("k".to_string(), "v2".to_string()).unwrap();
    assert_eq!(second.compaction, None);
    let second_at = log.len() as u64;
    log.extend_from_slice(&second.record);
    log.push(b'\n');
    assert_eq!(
        text(&log),
        "{\"Set\":{\"key\":\"other\",\"value\":\"x\"}}\n\
         {\"Set\":{\"key\":\"k\",\"value\":\"v1\"}}\n\
         {\"Set\":{\"key\":\"k\",\"value\":\"v2\"}}\n"
    );
    let at = store.locate("k").unwrap();
    assert_eq!(at.pos, second_at);
    assert_eq!(at.len, second.record.len() as u64);
    let start = at.pos as usize;
    let end = start + at.len as usize;
    assert_eq!(KvStore::value_of(&log[start..end]), Ok("v2".to_string()));
    assert_eq!(store.redundant_entries(), 1);
}

#[test]
fn get_sees_a_set_without_reopening() {
    let mut disk = Disk::open(Vec::new()).unwrap();
    disk.set("k", "v").unwrap();
    assert_eq!(disk.get("k").unwrap(), Some("v".to_string()));
    disk.set("k", "w").unwrap();
    assert_eq!(disk.get("k").unwrap(), Some("w".to_string()));
}

#[test]
fn remove_of_an_absent_key_leaves_the_log_alone() {
    let mut disk = Disk::open(Vec::new()).unwrap();
    disk.set("a", "1").unwrap();
    let before = disk.log.clone();
    let position = disk.store.write_position();
    assert_eq!(disk.remove("b"), Err(KvsError::KeyNotFound));
    assert_eq!(disk.log, before);
    assert_eq!(disk.store.write_position(), position);
    assert_eq!(disk.get("a").unwrap(), Some("1".to_string()));
}

#[test]
fn positions_are_offsets_and_lengths_without_the_line_feed() {
    let mut store = KvStore::new();
    let first = store.set("a".to_string(), "1".to_string()).unwrap();
    assert_eq!(text(&first.record), "{\"Set\":{\"key\":\"a\",\"value\":\"1\"}}");
    assert_eq!(first.record.len(), 31);
    assert_eq!(store.write_position(), 32);
    let second = store.set("bb".to_string(), "22".to_string()).unwrap();
    assert_eq!(second.record.len(), 33);
    assert_eq!(store.write_position(), 66);
    let at_a = store.locate("a").unwrap();
    assert_eq!((at_a.pos, at_a.len), (0, 31));
    let at_b = store.locate("bb").unwrap();
    assert_eq!((at_b.pos, at_b.len), (32, 33));
    let gone = store.remove("a".to_string()).unwrap();
    assert_eq!(text(&gone), "{\"Remove\":{\"key\":\"a\"}}");
    assert_eq!(store.write_position(), 66 + 22 + 1);
    assert_eq!(store.locate("a"), None);
}

#[test]
fn write_position_is_the_length_of_the_log() {
    let mut disk = Disk::open(Vec::new()).unwrap();
    assert_eq!(disk.store.write_position(), 0);
    for i in 0..50 {
        disk.set(&format!("k{}", i % 7), &format!("v{}", i)).unwrap();
        assert_eq!(disk.store.write_position(), disk.log.len() as u64);
        if i % 5 == 0 {
            disk.remove(&format!("k{}", i % 7)).unwrap();
            assert_eq!(disk.store.write_position(), disk.log.len() as u64);
        }
    }
}

#[test]
fn compaction_runs_when_more_than_half_as_many_records_are_superseded() {
    let mut disk = Disk::open(Vec::new()).unwrap();
    disk.set("a", "1").unwrap();
    disk.set("b", "1").unwrap();
    disk.set("a", "2").unwrap();
    assert_eq!(disk.rewrites, 0);
    assert_eq!(disk.store.redundant_entries(), 1);
    disk.set("b", "2").unwrap();
    assert_eq!(disk.rewrites, 1);
    assert_eq!(disk.store.redundant_entries(), 0);
    assert_eq!(disk.store.len(), 2);
    assert_eq!(
        text(&disk.log),
        "{\"Set\":{\"key\":\"a\",\"value\":\"2\"}}\n{\"Set\":{\"key\":\"b\",\"value\":\"2\"}}\n"
    );
    assert_eq!(disk.store.write_position(), disk.log.len() as u64);
    assert_eq!(disk.get("a").unwrap(), Some("2".to_string()));
    assert_eq!(disk.get("b").unwrap(), Some("2".to_string()));
}

#[test]
fn compaction_of_a_single_key_runs_at_its_first_overwrite() {
    let mut store = KvStore::new();
    let first = store.set("k".to_string(), "1".to_string()).unwrap();
    assert_eq!(first.compaction, None);
    let second = store.set("k".to_string(), "2".to_string()).unwrap();
    let from = second.compaction.expect("one superseded record and one key");
    assert_eq!(from.len(), 1);
    assert_eq!((from[0].pos, from[0].len), (32, 31));
    let at = store.locate("k").unwrap();
    assert_eq!((at.pos, at.len), (0, 31));
    assert_eq!(store.write_position(), 32);
}

#[test]
fn compaction_drops_tombstones_and_superseded_records() {
    let mut disk = Disk::open(Vec::new()).unwrap();
    disk.set("a", "1").unwrap();
    disk.set("b", "1").unwrap();
    disk.set("c", "1").unwrap();
    disk.remove("a").unwrap();
    disk.set("b", "2").unwrap();
    assert_eq!(disk.rewrites, 0);
    disk.set("c", "2").unwrap();
    assert_eq!(disk.rewrites, 1);
    let log = text(&disk.log);
    assert_eq!(log.lines().count(), 2);
    assert!(!log.contains("Remove"));
    assert!(log.contains("{\"Set\":{\"key\":\"b\",\"value\":\"2\"}}\n"));
    assert!(log.contains("{\"Set\":{\"key\":\"c\",\"value\":\"2\"}}\n"));
    let disk = disk.reopen();
    assert_eq!(disk.get("a").unwrap(), None);
    assert_eq!(disk.get("b").unwrap(), Some("2".to_string()));
    assert_eq!(disk.get("c").unwrap(), Some("2".to_string()));
}

#[test]
fn after_a_set_at_most_half_as_many_records_are_superseded_as_keys() {
    let mut disk = Disk::open(Vec::new()).unwrap();
    for i in 0..300u64 {
        disk.set(&format!("k{}", (i * 7) % 11), &format!("v{}", i)).unwrap();
        assert!(2 * disk.store.redundant_entries() <= disk.store.len() as u64);
        let longest = 1 + "{\"Set\":{\"key\":\"k10\",\"value\":\"v299\"}}".len();
        assert!(2 * disk.log.len() <= 3 * longest * disk.store.len());
    }
}

#[test]
fn an_empty_log_is_a_store_without_keys() {
    let store = KvStore::open(b"").unwrap();
    assert_eq!(store.len(), 0);
    assert_eq!(store.write_position(), 0);
    assert_eq!(store.redundant_entries(), 0);
    assert_eq!(store.locate("a"), None);
}

#[test]
fn open_counts_superseded_records() {
    let log = b"{\"Set\":{\"key\":\"a\",\"value\":\"1\"}}\n\
                {\"Set\":{\"key\":\"a\",\"value\":\"2\"}}\n\
                {\"Remove\":{\"key\":\"zz\"}}\n\
                {\"Set\":{\"key\":\"b\",\"value\":\"3\"}}\n\
                {\"Remove\":{\"key\":\"b\"}}\n";
    let store = KvStore::open(log).unwrap();
    assert_eq!(store.len(), 1);
    assert_eq!(store.redundant_entries(), 1);
    assert_eq!(store.write_position(), log.len() as u64);
    let at = store.locate("a").unwrap();
    assert_eq!((at.pos, at.len), (32, 31));
    assert_eq!(store.locate("b"), None);
}

#[test]
fn open_rejects_a_get_in_the_log() {
    let log = b"{\"Set\":{\"key\":\"a\",\"value\":\"1\"}}\n{\"Get\":{\"key\":\"a\"}}\n";
    assert!(matches!(KvStore::open(log), Err(KvsError::Corruption)));
}

#[test]
fn open_rejects_a_line_that_is_no_record() {
    assert!(matches!(KvStore::open(b"hello\n"), Err(KvsError::Corruption)));
    assert!(matches!(KvStore::open(b"\n"), Err(KvsError::Corruption)));
    let cut = b"{\"Set\":{\"key\":\"a\",\"value\":\"1\"}}\n{\"Set\":{\"key\":\"b\",\"val\n";
    assert!(matches!(KvStore::open(cut), Err(KvsError::Corruption)));
}

#[test]
fn open_rejects_a_last_line_without_line_feed() {
    let log = b"{\"Set\":{\"key\":\"a\",\"value\":\"1\"}}\n{\"Set\":{\"key\":\"b\",\"value\":\"2\"}}";
    assert!(matches!(KvStore::open(log), Err(KvsError::Corruption)));
}

#[test]
fn value_of_rejects_what_is_not_a_set_record() {
    assert_eq!(
        KvStore::value_of(b"{\"Set\":{\"key\":\"a\",\"value\":\"1\"}}"),
        Ok("1".to_string())
    );
    assert_eq!(KvStore::value_of(b"{\"Remove\":{\"key\":\"a\"}}"), Err(KvsError::Corruption));
    assert_eq!(KvStore::value_of(b"{\"Get\":{\"key\":\"a\"}}"), Err(KvsError::Corruption));
    assert_eq!(KvStore::value_of(b"{\"Set\":{\"key\":\"a\",\"value\":\"1\"}"), Err(KvsError::Corruption));
    assert_eq!(KvStore::value_of(b""), Err(KvsError::Corruption));
}

#[test]
fn keys_and_values_may_hold_any_text() {
    let mut disk = Disk::open(Vec::new()).unwrap();
    let key = "line\nfeed \"quoted\" back\\slash \u{1}\u{1f} tab\t";
    let value = "\u{e9}\u{4e2d}\u{1f600} \r\n\u{0}";
    disk.set(key, value).unwrap();
    assert_eq!(disk.log.iter().filter(|b| **b == b'\n').count(), 1);
    assert_eq!(disk.get(key).unwrap(), Some(value.to_string()));
    let mut disk = disk.reopen();
    assert_eq!(disk.get(key).unwrap(), Some(value.to_string()));
    disk.remove(key).unwrap();
    let disk = disk.reopen();
    assert_eq!(disk.get(key).unwrap(), None);
}

#[test]
fn random_operations_agree_with_a_map() {
    let mut disk = Disk::open(Vec::new()).unwrap();
    let mut expected: HashMap<String, String> = HashMap::new();
    let mut state: u64 = 0x9e3779b97f4a7c15;
    for step in 0..6000u64 {
        state ^= state << 13;
        state ^= state >> 7;
        state ^= state << 17;
        let key = format!("k{}", (state >> 8) % 40);
        match state % 8 {
            0 | 1 | 2 | 3 => {
                let value = format!("v{}\n\"{}\"", step, state % 1000);
                disk.set(&key, &value).unwrap();
                expected.insert(key, value);
                assert!(2 * disk.store.redundant_entries() <= disk.store.len() as u64);
            }
            4 | 5 => {
                let outcome = disk.remove(&key);
                match expected.remove(&key) {
                    Some(_) => assert_eq!(outcome, Ok(())),
                    None => assert_eq!(outcome, Err(KvsError::KeyNotFound)),
                }
            }
            6 => {
                assert_eq!(disk.get(&key).unwrap(), expected.get(&key).cloned());
            }
            _ => {
                let rewrites = disk.rewrites;
                disk = disk.reopen();
                disk.rewrites = rewrites;
            }
        }
        assert_eq!(disk.store.len(), expected.len());
        assert_eq!(disk.store.write_position(), disk.log.len() as u64);
    }
    assert!(disk.rewrites > 0);
    for i in 0..40 {
        let key = format!("k{}", i);
        assert_eq!(disk.get(&key).unwrap(), expected.get(&key).cloned());
    }
}

#[test]
fn tombstones_are_not_counted_as_superseded() {
    let mut disk = Disk::open(Vec::new()).unwrap();
    for _ in 0..2 {
        disk.set("a", "1").unwrap();
        disk.remove("a").unwrap();
    }
    disk.set("b", "2").unwrap();
    assert_eq!(disk.rewrites, 0);
    assert_eq!(disk.store.redundant_entries(), 0);
    assert_eq!(disk.store.len(), 1);
    let live = "{\"Set\":{\"key\":\"b\",\"value\":\"2\"}}\n".len();
    assert_eq!(disk.log.len(), 2 * (32 + 23) + 32);
    assert!(disk.log.len() > 3 * live);
}
