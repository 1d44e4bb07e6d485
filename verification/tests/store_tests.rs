use kvs::engine::KvError;
use kvs::store::{validate_dir, Store, MAX_FILE_BYTES};

fn open_empty() -> Store {
    Store::open(Vec::new()).expect("an empty log must replay")
}

#[test]
fn set_then_get_returns_value() {
    let mut s = open_empty();
    s.set("a".to_string(), "1".to_string()).unwrap();
    assert_eq!(s.get("a".to_string()).unwrap(), Some("1".to_string()));
}

#[test]
fn get_of_absent_key_is_none() {
    let s = open_empty();
    assert_eq!(s.get("missing".to_string()).unwrap(), None);
}

#[test]
fn reopen_preserves_visible_state() {
    let mut s = open_empty();
    s.set("a".to_string(), "1".to_string()).unwrap();
    assert_eq!(s.get("a".to_string()).unwrap(), Some("1".to_string()));
    let log = s.log_chars();
    drop(s);
    let r = Store::open(log).expect("a log written by the store must replay");
    assert_eq!(r.get("a".to_string()).unwrap(), Some("1".to_string()));
}

#[test]
fn reopen_after_mixed_operations() {
    let mut s = open_empty();
    s.set("a".to_string(), "1".to_string()).unwrap();
    s.set("b".to_string(), "2".to_string()).unwrap();
    s.set("a".to_string(), "3".to_string()).unwrap();
    s.remove("b".to_string()).unwrap();
    let log = s.log_chars();
    let r = Store::open(log).unwrap();
    assert_eq!(r.get("a".to_string()).unwrap(), Some("3".to_string()));
    assert_eq!(r.get("b".to_string()).unwrap(), None);
}

#[test]
fn overwrite_then_remove_then_remove_again() {
    let mut s = open_empty();
    s.set("k".to_string(), "v1".to_string()).unwrap();
    s.set("k".to_string(), "v2".to_string()).unwrap();
    assert_eq!(s.get("k".to_string()).unwrap(), Some("v2".to_string()));
    s.remove("k".to_string()).unwrap();
    assert_eq!(s.get("k".to_string()).unwrap(), None);
    assert_eq!(s.remove("k".to_string()), Err(KvError::KeyNotFound));
}

#[test]
fn remove_of_absent_key_is_key_not_found() {
    let mut s = open_empty();
    assert_eq!(s.remove("nothing".to_string()), Err(KvError::KeyNotFound));
}

#[test]
fn empty_key_and_empty_value_are_accepted() {
    let mut s = open_empty();
    s.set("".to_string(), "".to_string()).unwrap();
    assert_eq!(s.get("".to_string()).unwrap(), Some("".to_string()));
    let log = s.log_chars();
    let r = Store::open(log).unwrap();
    assert_eq!(r.get("".to_string()).unwrap(), Some("".to_string()));
}

#[test]
fn large_key_and_value_are_accepted() {
    let key: String = std::iter::repeat('k').take(100_000).collect();
    let value: String = std::iter::repeat('v').take(100_000).collect();
    let mut s = open_empty();
    s.set(key.clone(), value.clone()).unwrap();
    assert_eq!(s.get(key).unwrap(), Some(value));
}

#[test]
fn keys_and_values_with_newlines_and_commas_survive_reopen() {
    let key = "a\nb,c".to_string();
    let value = "v1,\n\nv2".to_string();
    let mut s = open_empty();
    s.set(key.clone(), value.clone()).unwrap();
    let log = s.log_chars();
    let r = Store::open(log).unwrap();
    assert_eq!(r.get(key).unwrap(), Some(value));
}

#[test]
fn opening_a_corrupt_log_fails_with_codec() {
    let log: Vec<char> = "X1,a\n".chars().collect();
    match Store::open(log) {
        Err(KvError::Codec) => {},
        other => panic!("expected a codec failure, got {:?}", other.is_ok()),
    }
}

#[test]
fn opening_a_truncated_log_fails_with_codec() {
    let mut s = open_empty();
    s.set("a".to_string(), "1".to_string()).unwrap();
    let mut log = s.log_chars();
    log.pop();
    match Store::open(log) {
        Err(KvError::Codec) => {},
        other => panic!("expected a codec failure, got {:?}", other.is_ok()),
    }
}

#[test]
fn current_offset_tracks_log_length() {
    let mut s = open_empty();
    assert_eq!(s.current_offset(), 0);
    s.set("a".to_string(), "1".to_string()).unwrap();
    let len = s.log_chars().len() as u64;
    assert_eq!(s.current_offset(), len);
}

#[test]
fn compaction_shrinks_log_and_preserves_contents() {
    let value: String = std::iter::repeat('v').take(1024).collect();
    let mut s = open_empty();
    // Each key written twice: more than 1 MiB of the log is garbage.
    for round in 0..2 {
        for i in 0..4000 {
            let key = format!("key{:05}", i);
            let val = format!("{}{}", round, value);
            s.set(key, val).unwrap();
        }
    }
    let before = s.current_offset();
    assert!(before >= MAX_FILE_BYTES);
    assert!(Store::needs_compaction(before));
    s.compact();
    let after = s.current_offset();
    assert!(after * 2 <= before, "log must shrink substantially");
    for i in 0..4000 {
        let key = format!("key{:05}", i);
        let want = format!("1{}", value);
        assert_eq!(s.get(key).unwrap(), Some(want));
    }
}

#[test]
fn compaction_below_threshold_is_not_asked_for() {
    assert!(!Store::needs_compaction(0));
    assert!(!Store::needs_compaction(MAX_FILE_BYTES - 1));
    assert!(Store::needs_compaction(MAX_FILE_BYTES));
}

#[test]
fn compacted_log_replays_to_the_same_state() {
    let mut s = open_empty();
    s.set("a".to_string(), "1".to_string()).unwrap();
    s.set("b".to_string(), "2".to_string()).unwrap();
    s.set("a".to_string(), "3".to_string()).unwrap();
    s.remove("b".to_string()).unwrap();
    s.compact();
    assert_eq!(s.get("a".to_string()).unwrap(), Some("3".to_string()));
    assert_eq!(s.get("b".to_string()).unwrap(), None);
    let log = s.log_chars();
    let r = Store::open(log).unwrap();
    assert_eq!(r.get("a".to_string()).unwrap(), Some("3".to_string()));
    assert_eq!(r.get("b".to_string()).unwrap(), None);
    assert_eq!(r.len(), 1);
}

#[test]
fn validate_dir_accepts_fresh_and_proper_paths() {
    assert_eq!(validate_dir(false, false, &Vec::new()), Ok(()));
    assert_eq!(validate_dir(true, false, &Vec::new()), Ok(()));
    assert_eq!(validate_dir(true, false, &vec!["data.log".to_string()]), Ok(()));
}

#[test]
fn validate_dir_rejects_a_regular_file() {
    assert_eq!(
        validate_dir(true, true, &Vec::new()),
        Err(KvError::DirPathExpected)
    );
}

#[test]
fn validate_dir_rejects_a_stray_file_beside_the_log() {
    let entries = vec!["data.log".to_string(), "foo.txt".to_string()];
    assert_eq!(
        validate_dir(true, false, &entries),
        Err(KvError::UnexpectedFilesInPath)
    );
}

#[test]
fn validate_dir_rejects_a_single_foreign_file() {
    let entries = vec!["foo.txt".to_string()];
    assert_eq!(
        validate_dir(true, false, &entries),
        Err(KvError::UnexpectedLogFile)
    );
}

#[test]
fn every_error_kind_has_a_message() {
    let kinds = [
        KvError::Io,
        KvError::Codec,
        KvError::KeyNotFound,
        KvError::DirPathExpected,
        KvError::UnexpectedFilesInPath,
        KvError::UnexpectedLogFile,
        KvError::InvalidAddress,
        KvError::EngineBackend,
        KvError::Lock,
    ];
    for kind in kinds {
        assert!(!kind.message().is_empty());
    }
    assert_eq!(KvError::Codec.message(), "malformed record".to_string());
}

#[test]
fn a_log_may_retire_a_key_that_was_never_set() {
    let frame = kvs::codec::encode_entry(&kvs::codec::LogEntry::Remove("z".to_string()));
    let s = Store::open(frame).expect("a lone retire record is a well-formed log");
    assert_eq!(s.get("z".to_string()).unwrap(), None);
    assert_eq!(s.len(), 0);
}

#[test]
fn compacting_an_empty_store_leaves_an_empty_log() {
    let mut s = open_empty();
    s.compact();
    assert_eq!(s.current_offset(), 0);
    assert_eq!(s.log_chars(), Vec::new());
}
