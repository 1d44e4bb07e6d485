use kvs::engine::{KvError, KvsEngine};
use kvs::kvs_engine::KvStore;
use kvs::thread_pool::{worker_step, WorkerStep};

#[test]
fn shared_handles_see_one_store() {
    let a = KvStore::open(Vec::new()).unwrap();
    let b = a.clone();
    a.set("k".to_string(), "v".to_string()).unwrap();
    assert_eq!(b.get("k".to_string()).unwrap(), Some("v".to_string()));
    b.remove("k".to_string()).unwrap();
    assert_eq!(a.get("k".to_string()).unwrap(), None);
    assert_eq!(a.remove("k".to_string()), Err(KvError::KeyNotFound));
}

#[test]
fn the_engine_capability_drives_the_shared_store() {
    fn through_capability<E: KvsEngine>(engine: E) {
        engine.set("x".to_string(), "1".to_string()).unwrap();
        assert_eq!(engine.get("x".to_string()).unwrap(), Some("1".to_string()));
        engine.remove("x".to_string()).unwrap();
        assert_eq!(engine.get("x".to_string()).unwrap(), None);
    }
    through_capability(KvStore::open(Vec::new()).unwrap());
}

#[test]
fn opening_shared_store_on_corrupt_log_fails_with_codec() {
    let log: Vec<char> = "not a log".chars().collect();
    match KvStore::open(log) {
        Err(KvError::Codec) => {},
        _ => panic!("expected a codec failure"),
    }
}

#[test]
fn a_compaction_pass_below_the_threshold_changes_nothing() {
    let a = KvStore::open(Vec::new()).unwrap();
    a.set("k".to_string(), "v1".to_string()).unwrap();
    a.set("k".to_string(), "v2".to_string()).unwrap();
    let before = a.log_chars();
    a.compact_now().unwrap();
    assert_eq!(a.log_chars(), before);
    assert_eq!(a.get("k".to_string()).unwrap(), Some("v2".to_string()));
}

#[test]
fn shared_store_survives_reopen_from_its_log() {
    let a = KvStore::open(Vec::new()).unwrap();
    a.set("a".to_string(), "1".to_string()).unwrap();
    a.set("b".to_string(), "2".to_string()).unwrap();
    a.remove("a".to_string()).unwrap();
    let log = a.log_chars();
    drop(a);
    let b = KvStore::open(log).unwrap();
    assert_eq!(b.get("a".to_string()).unwrap(), None);
    assert_eq!(b.get("b".to_string()).unwrap(), Some("2".to_string()));
    assert_eq!(b.len(), 1);
}

#[test]
fn worker_steps_follow_the_observation() {
    assert_eq!(worker_step(true, true), WorkerStep::Exit);
    assert_eq!(worker_step(true, false), WorkerStep::Exit);
    assert_eq!(worker_step(false, true), WorkerStep::Run);
    assert_eq!(worker_step(false, false), WorkerStep::Wait);
}

/// Eight clients' worth of mixed operations on disjoint key prefixes,
/// interleaved through cloned handles; every set-then-get without an
/// intervening remove yields the set value, every remove-then-get yields
/// nothing.
#[test]
fn interleaved_mixed_workload_on_disjoint_prefixes() {
    let store = KvStore::open(Vec::new()).unwrap();
    let handles: Vec<KvStore> = (0..8).map(|_| store.clone()).collect();
    let rounds = 500;
    for round in 0..rounds {
        for (c, handle) in handles.iter().enumerate() {
            let key = format!("client{}-key{}", c, round % 25);
            match round % 3 {
                0 | 1 => handle.set(key, format!("{}:{}", c, round)).unwrap(),
                _ => {
                    let _ = handle.remove(key);
                }
            }
        }
    }
    for (c, handle) in handles.iter().enumerate() {
        for slot in 0..25 {
            let key = format!("client{}-key{}", c, slot);
            // The last touch of each slot decides its value.
            let mut expect = None;
            for round in (0..rounds).rev() {
                if round % 25 == slot {
                    expect = match round % 3 {
                        0 | 1 => Some(format!("{}:{}", c, round)),
                        _ => None,
                    };
                    break;
                }
            }
            assert_eq!(handle.get(key).unwrap(), expect);
        }
    }
}
