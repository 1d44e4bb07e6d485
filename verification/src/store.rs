//! The log-structured store: an append-only log of records and an in-memory
//! index from each live key to the offset of its most recent `Put` record.
//!
//! The store is modelled by replaying the log: `replay` walks the log from
//! position zero, parsing one record frame at a time, and builds both the
//! index (key to offset) and the semantic map (key to value). A store is
//! well formed when its index equals the replayed index and its current
//! offset equals the log's length; its abstract view is the replayed
//! semantic map. Every mutator preserves well-formedness, and the central
//! invariant — the record at each indexed offset is a `Put` whose key equals
//! the lookup key and whose value is the key's current value — is proved
//! from the replay by induction.

use vstd::prelude::*;
use vstd::hash_map::StringHashMap;
use vstd::pervasive::unreached;

use crate::codec::{
    LogEntry, LogEntryV, enc_entry, entry_fits, parse_entry_at, append_entry, parse_entry,
    lemma_parse_entry_of_enc, lemma_parse_entry_local,
};
use crate::engine::KvError;

verus! {

/// The log file's size, in bytes, beyond which a compaction pass rewrites it.
pub const MAX_FILE_BYTES: u64 = 1024 * 1024;

/// How long the compactor sleeps between passes, in milliseconds.
pub const COMPACTION_INTERVAL_MILLIS: u64 = 5000;

// ---------------------------------------------------------------------------
// Replay
// ---------------------------------------------------------------------------

/// What one record does to the index: a `Put` binds its key to the record's
/// offset, a `Remove` deletes its key.
pub open spec fn apply_entry_idx(
    m: Map<Seq<char>, u64>,
    e: LogEntryV,
    off: u64,
) -> Map<Seq<char>, u64> {
    match e {
        LogEntryV::Put { key, value } => m.insert(key, off),
        LogEntryV::Remove(key) => m.remove(key),
    }
}

/// What one record does to the semantic map: a `Put` binds its key to its
/// value, a `Remove` deletes its key.
pub open spec fn apply_entry_val(
    m: Map<Seq<char>, Seq<char>>,
    e: LogEntryV,
) -> Map<Seq<char>, Seq<char>> {
    match e {
        LogEntryV::Put { key, value } => m.insert(key, value),
        LogEntryV::Remove(key) => m.remove(key),
    }
}

/// Replay the log from position `i` onto the accumulated index and semantic
/// map. Fails where no well-formed record stands at the current position.
pub open spec fn replay_rec(
    log: Seq<char>,
    i: int,
    mi: Map<Seq<char>, u64>,
    mv: Map<Seq<char>, Seq<char>>,
) -> Option<(Map<Seq<char>, u64>, Map<Seq<char>, Seq<char>>)>
    decreases log.len() - i,
{
    if i == log.len() {
        Some((mi, mv))
    } else {
        match parse_entry_at(log, i) {
            None => None,
            Some((e, j)) => if i < j <= log.len() {
                replay_rec(log, j, apply_entry_idx(mi, e, i as u64), apply_entry_val(mv, e))
            } else {
                None
            },
        }
    }
}

/// Replay a whole log into its index and semantic map.
pub open spec fn replay(log: Seq<char>) -> Option<
    (Map<Seq<char>, u64>, Map<Seq<char>, Seq<char>>),
> {
    replay_rec(log, 0, Map::empty(), Map::empty())
}

/// The consistency of an index with its log: the index and the semantic map
/// bind the same keys, and at each indexed offset stands a `Put` record
/// whose key is the lookup key and whose value is the key's current value.
pub open spec fn index_ok(
    log: Seq<char>,
    mi: Map<Seq<char>, u64>,
    mv: Map<Seq<char>, Seq<char>>,
) -> bool {
    &&& mi.dom() == mv.dom()
    &&& forall|k: Seq<char>| #[trigger] mi.contains_key(k) ==> {
        &&& mi[k] < log.len()
        &&& parse_entry_at(log, mi[k] as int) is Some
        &&& parse_entry_at(log, mi[k] as int)->Some_0.0 == (LogEntryV::Put {
            key: k,
            value: mv[k],
        })
    }
}

proof fn lemma_replay_rec_index_ok(
    log: Seq<char>,
    i: int,
    mi: Map<Seq<char>, u64>,
    mv: Map<Seq<char>, Seq<char>>,
)
    requires
        0 <= i <= log.len(),
        log.len() <= u64::MAX,
        index_ok(log, mi, mv),
        replay_rec(log, i, mi, mv) is Some,
    ensures
        index_ok(
            log,
            replay_rec(log, i, mi, mv)->Some_0.0,
            replay_rec(log, i, mi, mv)->Some_0.1,
        ),
    decreases log.len() - i,
{
    if i == log.len() {
    } else {
        let (e, j) = parse_entry_at(log, i)->Some_0;
        let mi2 = apply_entry_idx(mi, e, i as u64);
        let mv2 = apply_entry_val(mv, e);
        assert(index_ok(log, mi2, mv2)) by {
            match e {
                LogEntryV::Put { key, value } => {
                    assert(mi2.dom() =~= mv2.dom());
                    assert(i as u64 as int == i);
                },
                LogEntryV::Remove(key) => {
                    assert(mi2.dom() =~= mv2.dom());
                },
            }
        }
        lemma_replay_rec_index_ok(log, j, mi2, mv2);
    }
}

/// The central invariant, from the replay: whatever a log replays to is
/// consistent with that log.
pub proof fn lemma_replay_index_ok(log: Seq<char>)
    requires
        log.len() <= u64::MAX,
        replay(log) is Some,
    ensures
        index_ok(log, replay(log)->Some_0.0, replay(log)->Some_0.1),
{
    assert(index_ok(log, Map::empty(), Map::empty())) by {
        assert(Map::<Seq<char>, u64>::empty().dom() =~= Map::<Seq<char>, Seq<char>>::empty().dom());
    }
    lemma_replay_rec_index_ok(log, 0, Map::empty(), Map::empty());
}

proof fn lemma_replay_rec_append(
    log: Seq<char>,
    i: int,
    mi: Map<Seq<char>, u64>,
    mv: Map<Seq<char>, Seq<char>>,
    e: LogEntryV,
)
    requires
        0 <= i <= log.len(),
        log.len() <= u64::MAX,
        entry_fits(e),
        replay_rec(log, i, mi, mv) is Some,
    ensures
        replay_rec(log + enc_entry(e), i, mi, mv) == Some(
            (
                apply_entry_idx(replay_rec(log, i, mi, mv)->Some_0.0, e, log.len() as u64),
                apply_entry_val(replay_rec(log, i, mi, mv)->Some_0.1, e),
            ),
        ),
    decreases log.len() - i,
{
    let ext = log + enc_entry(e);
    if i == log.len() {
        assert(ext.subrange(i, i + enc_entry(e).len()) =~= enc_entry(e));
        lemma_parse_entry_of_enc(ext, i, e);
        let j = i + enc_entry(e).len() as int;
        assert(replay_rec(ext, i, mi, mv) == replay_rec(
            ext,
            j,
            apply_entry_idx(mi, e, i as u64),
            apply_entry_val(mv, e),
        ));
        assert(j == ext.len());
    } else {
        let (e0, j) = parse_entry_at(log, i)->Some_0;
        lemma_parse_entry_local(log, enc_entry(e), i);
        lemma_replay_rec_append(
            log,
            j,
            apply_entry_idx(mi, e0, i as u64),
            apply_entry_val(mv, e0),
            e,
        );
    }
}

/// Appending one record to a log that replays extends the replay by exactly
/// that record's effect, the record's offset being the old log's length.
pub proof fn lemma_replay_append(log: Seq<char>, e: LogEntryV)
    requires
        log.len() <= u64::MAX,
        entry_fits(e),
        replay(log) is Some,
    ensures
        replay(log + enc_entry(e)) == Some(
            (
                apply_entry_idx(replay(log)->Some_0.0, e, log.len() as u64),
                apply_entry_val(replay(log)->Some_0.1, e),
            ),
        ),
{
    lemma_replay_rec_append(log, 0, Map::empty(), Map::empty(), e);
}

// ---------------------------------------------------------------------------
// Compaction: the live log
// ---------------------------------------------------------------------------

/// The concatenated frames of one `Put` record per key of `ks`, each key
/// bound to its value in `m`: the log a compaction pass writes.
pub open spec fn live_log(ks: Seq<Seq<char>>, m: Map<Seq<char>, Seq<char>>) -> Seq<char>
    decreases ks.len(),
{
    if ks.len() == 0 {
        Seq::empty()
    } else {
        enc_entry(LogEntryV::Put { key: ks[0], value: m[ks[0]] }) + live_log(ks.drop_first(), m)
    }
}

/// The summed serialized length of the live `Put` records of `ks`.
pub open spec fn live_len(ks: Seq<Seq<char>>, m: Map<Seq<char>, Seq<char>>) -> nat
    decreases ks.len(),
{
    if ks.len() == 0 {
        0
    } else {
        enc_entry(LogEntryV::Put { key: ks[0], value: m[ks[0]] }).len() + live_len(
            ks.drop_first(),
            m,
        )
    }
}

/// The live log's length is the sum of its records' serialized lengths.
pub proof fn lemma_live_log_len(ks: Seq<Seq<char>>, m: Map<Seq<char>, Seq<char>>)
    ensures
        live_log(ks, m).len() == live_len(ks, m),
    decreases ks.len(),
{
    if ks.len() > 0 {
        lemma_live_log_len(ks.drop_first(), m);
    }
}

proof fn lemma_live_log_push(ks: Seq<Seq<char>>, m: Map<Seq<char>, Seq<char>>, k: Seq<char>)
    ensures
        live_log(ks.push(k), m) == live_log(ks, m) + enc_entry(
            LogEntryV::Put { key: k, value: m[k] },
        ),
    decreases ks.len(),
{
    let p = ks.push(k);
    let ek = enc_entry(LogEntryV::Put { key: k, value: m[k] });
    if ks.len() == 0 {
        assert(p[0] == k);
        assert(p.drop_first() =~= Seq::<Seq<char>>::empty());
        assert(live_log(p.drop_first(), m) == Seq::<char>::empty());
        assert(live_log(p, m) == ek + live_log(p.drop_first(), m));
        assert(live_log(ks, m) == Seq::<char>::empty());
        assert(live_log(p, m) =~= live_log(ks, m) + ek);
    } else {
        let e0 = enc_entry(LogEntryV::Put { key: ks[0], value: m[ks[0]] });
        assert(p[0] == ks[0]);
        assert(p.drop_first() =~= ks.drop_first().push(k));
        lemma_live_log_push(ks.drop_first(), m, k);
        assert(live_log(p, m) == e0 + live_log(p.drop_first(), m));
        assert(live_log(p.drop_first(), m) == live_log(ks.drop_first(), m) + ek);
        assert(live_log(ks, m) == e0 + live_log(ks.drop_first(), m));
        assert(live_log(p, m) =~= live_log(ks, m) + ek);
    }
}

/// A key sequence that enumerates exactly the keys of `m`, each once.
pub open spec fn covers(ks: Seq<Seq<char>>, m: Map<Seq<char>, Seq<char>>) -> bool {
    &&& ks.no_duplicates()
    &&& forall|a: int| 0 <= a < ks.len() ==> m.contains_key(#[trigger] ks[a])
    &&& forall|k: Seq<char>| #[trigger] m.contains_key(k) ==> ks.contains(k)
}

// ---------------------------------------------------------------------------
// The key list
// ---------------------------------------------------------------------------

/// The store keeps, beside its index, the list of live keys, so that a
/// compaction pass can walk them. The list holds each key of the index
/// exactly once and nothing else.
pub open spec fn keys_match(ks: Seq<String>, m: Map<Seq<char>, u64>) -> bool {
    &&& forall|a: int, b: int|
        0 <= a < b < ks.len() ==> (#[trigger] ks[a]@) != (#[trigger] ks[b]@)
    &&& forall|a: int| 0 <= a < ks.len() ==> m.contains_key(#[trigger] ks[a]@)
    &&& forall|k: Seq<char>|
        #[trigger] m.contains_key(k) ==> exists|a: int|
            0 <= a < ks.len() && (#[trigger] ks[a]@) == k
}

proof fn lemma_keys_match_insert_new(ks: Seq<String>, m: Map<Seq<char>, u64>, key: String, off: u64)
    requires
        keys_match(ks, m),
        !m.contains_key(key@),
    ensures
        keys_match(ks.push(key), m.insert(key@, off)),
{
    let ks2 = ks.push(key);
    let m2 = m.insert(key@, off);
    assert forall|a: int, b: int| 0 <= a < b < ks2.len() implies (ks2[a]@) != (ks2[b]@) by {
        if b == ks.len() {
            assert(ks2[b]@ == key@);
            assert(m.contains_key(ks[a]@));
        }
    }
    assert forall|k: Seq<char>| #[trigger] m2.contains_key(k) implies exists|a: int|
        0 <= a < ks2.len() && (#[trigger] ks2[a]@) == k by {
        if k == key@ {
            assert(ks2[ks.len() as int]@ == k);
        } else {
            assert(m.contains_key(k));
            let a = choose|a: int| 0 <= a < ks.len() && (#[trigger] ks[a]@) == k;
            assert(ks2[a]@ == k);
        }
    }
}

proof fn lemma_keys_match_insert_old(ks: Seq<String>, m: Map<Seq<char>, u64>, key: String, off: u64)
    requires
        keys_match(ks, m),
        m.contains_key(key@),
    ensures
        keys_match(ks, m.insert(key@, off)),
{
    let m2 = m.insert(key@, off);
    assert forall|k: Seq<char>| #[trigger] m2.contains_key(k) implies exists|a: int|
        0 <= a < ks.len() && (#[trigger] ks[a]@) == k by {
        assert(m.contains_key(k));
    }
}

proof fn lemma_keys_match_swap_remove(ks: Seq<String>, m: Map<Seq<char>, u64>, p: int)
    requires
        keys_match(ks, m),
        0 <= p < ks.len(),
    ensures
        keys_match(ks.update(p, ks.last()).drop_last(), m.remove(ks[p]@)),
{
    let key = ks[p]@;
    let ks2 = ks.update(p, ks.last()).drop_last();
    let m2 = m.remove(key);
    assert forall|a: int, b: int| 0 <= a < b < ks2.len() implies (ks2[a]@) != (ks2[b]@) by {
        assert(ks2[a]@ == if a == p { ks.last()@ } else { ks[a]@ });
        assert(ks2[b]@ == if b == p { ks.last()@ } else { ks[b]@ });
    }
    assert forall|a: int| 0 <= a < ks2.len() implies m2.contains_key(ks2[a]@) by {
        if a == p {
            assert(ks2[a]@ == ks.last()@);
            assert(ks.last()@ != key);
        } else {
            assert(ks2[a]@ == ks[a]@);
            assert(ks[a]@ != key);
        }
    }
    assert forall|k: Seq<char>| #[trigger] m2.contains_key(k) implies exists|a: int|
        0 <= a < ks2.len() && (#[trigger] ks2[a]@) == k by {
        assert(m.contains_key(k));
        let a = choose|a: int| 0 <= a < ks.len() && (#[trigger] ks[a]@) == k;
        assert(k != key);
        assert(a != p);
        if a == ks.len() - 1 {
            assert(p < ks.len() - 1);
            assert(ks2[p]@ == ks.last()@);
            assert(ks2[p]@ == k);
        } else {
            assert(ks2[a]@ == k);
        }
    }
}

/// Find the position of `key` in the key list, by comparing the strings.
fn find_key(ks: &Vec<String>, key: &String) -> (r: Option<usize>)
    ensures
        match r {
            Some(p) => p < ks@.len() && ks@[p as int]@ == key@,
            None => forall|a: int| 0 <= a < ks@.len() ==> (#[trigger] ks@[a]@) != key@,
        },
{
    let mut p: usize = 0;
    let n = ks.len();
    while p < n
        invariant
            p <= n == ks@.len(),
            forall|a: int| 0 <= a < p ==> (#[trigger] ks@[a]@) != key@,
        decreases n - p,
    {
        if ks[p].eq(key) {
            return Some(p);
        }
        p = p + 1;
    }
    None
}

// ---------------------------------------------------------------------------
// The store
// ---------------------------------------------------------------------------

/// The exclusive state of one store: the in-memory log, the index from each
/// live key to the offset of its most recent `Put` record, the list of live
/// keys, and the current write offset.
///
/// The log's characters are what the durable log file holds; reading the
/// file into memory is the caller's step, as is appending each encoded
/// record the mutators produce back to the file.
pub struct Store {
    index: StringHashMap<u64>,
    keys: Vec<String>,
    log: Vec<char>,
    current_offset: u64,
}

impl View for Store {
    type V = Map<Seq<char>, Seq<char>>;

    /// The abstract contents: each live key bound to its most recent value.
    closed spec fn view(&self) -> Map<Seq<char>, Seq<char>> {
        match replay(self.log@) {
            Some(r) => r.1,
            None => Map::empty(),
        }
    }
}

impl Store {
    /// The log's characters.
    pub closed spec fn log_view(self) -> Seq<char> {
        self.log@
    }

    /// The index: each live key bound to the offset of its `Put` record.
    pub closed spec fn index_view(self) -> Map<Seq<char>, u64> {
        self.index@
    }

    /// The current write offset.
    pub closed spec fn offset_view(self) -> u64 {
        self.current_offset
    }

    /// Well-formedness: the index and the view are exactly what the log
    /// replays to, the write offset is the log's length, and the key list
    /// holds each indexed key once.
    pub closed spec fn wf(self) -> bool {
        &&& replay(self.log@) is Some
        &&& replay(self.log@)->Some_0.0 == self.index@
        &&& self.current_offset == self.log@.len()
        &&& keys_match(self.keys@, self.index@)
    }

    /// What well-formedness gives a caller: the log replays to the index and
    /// the view, the offset is the log's length, and the index is consistent
    /// with the log (the record at each indexed offset is a `Put` of the
    /// lookup key and its current value).
    pub proof fn lemma_wf_parts(self)
        requires
            self.wf(),
        ensures
            replay(self.log_view()) == Some((self.index_view(), self@)),
            self.offset_view() == self.log_view().len(),
            self.log_view().len() <= u64::MAX,
            index_ok(self.log_view(), self.index_view(), self@),
    {
        assert(self.log@.len() <= u64::MAX);
        lemma_replay_index_ok(self.log@);
    }

    /// Open a store from the characters of a log file: replay the log into
    /// a fresh index. Fails with `Codec` exactly where some position of the
    /// log holds no well-formed record.
    pub fn open(initial: Vec<char>) -> (r: Result<Store, KvError>)
        ensures
            match r {
                Ok(s) => {
                    &&& replay(initial@) is Some
                    &&& s.wf()
                    &&& s.log_view() == initial@
                    &&& s@ == replay(initial@)->Some_0.1
                },
                Err(e) => e == KvError::Codec && replay(initial@) is None,
            },
    {
        let mut index: StringHashMap<u64> = StringHashMap::new();
        let mut keys: Vec<String> = Vec::new();
        let ghost mut mv: Map<Seq<char>, Seq<char>> = Map::empty();
        let mut i: usize = 0;
        proof {
            assert(replay(initial@) == replay_rec(initial@, i as int, index@, mv));
        }
        while i < initial.len()
            invariant
                i <= initial@.len(),
                replay(initial@) == replay_rec(initial@, i as int, index@, mv),
                keys_match(keys@, index@),
            decreases initial@.len() - i,
        {
            match parse_entry(&initial, i) {
                None => {
                    return Err(KvError::Codec);
                },
                Some((e, j)) => {
                    let ghost old_index = index@;
                    let ghost old_keys = keys@;
                    match e {
                        LogEntry::Put { key, value } => {
                            if !index.contains_key(key.as_str()) {
                                let key2 = key.clone();
                                keys.push(key2);
                                proof {
                                    lemma_keys_match_insert_new(
                                        old_keys,
                                        old_index,
                                        keys@.last(),
                                        i as u64,
                                    );
                                }
                            } else {
                                proof {
                                    lemma_keys_match_insert_old(old_keys, old_index, key, i as u64);
                                }
                            }
                            index.insert(key, i as u64);
                            proof {
                                mv = mv.insert(e@->Put_key, e@->Put_value);
                            }
                        },
                        LogEntry::Remove(key) => {
                            match find_key(&keys, &key) {
                                Some(p) => {
                                    proof {
                                        lemma_keys_match_swap_remove(old_keys, old_index, p as int);
                                    }
                                    keys.swap_remove(p);
                                },
                                None => {
                                    proof {
                                        if old_index.contains_key(key@) {
                                            let a = choose|a: int|
                                                0 <= a < old_keys.len() && (#[trigger] old_keys[a]@)
                                                    == key@;
                                            assert(false);
                                        }
                                    }
                                },
                            }
                            index.remove(key.as_str());
                            proof {
                                mv = mv.remove(e@->Remove_0);
                            }
                        },
                    }
                    i = j;
                },
            }
        }
        let current_offset = i as u64;
        let s = Store { index, keys, log: initial, current_offset };
        Ok(s)
    }

    /// Record the assignment of `value` to `key`: append a `Put` record to
    /// the log, then point the index at the record's offset. The store's
    /// contents become the old contents with `key` bound to `value`.
    pub fn set(&mut self, key: String, value: String) -> (r: Result<(), KvError>)
        requires
            old(self).wf(),
        ensures
            r is Ok,
            final(self).wf(),
            final(self)@ == old(self)@.insert(key@, value@),
            final(self).log_view() == old(self).log_view() + enc_entry(
                LogEntryV::Put { key: key@, value: value@ },
            ),
            final(self).index_view() == old(self).index_view().insert(
                key@,
                old(self).log_view().len() as u64,
            ),
    {
        proof {
            self.lemma_wf_parts();
        }
        let off = self.log.len();
        let entry = LogEntry::Put { key: key.clone(), value };
        append_entry(&mut self.log, &entry);
        let total = self.log.len();
        proof {
            assert(total == old(self).log@.len() + enc_entry(entry@).len());
            assert(entry_fits(entry@));
            lemma_replay_append(old(self).log@, entry@);
        }
        let ghost old_index = self.index@;
        let ghost old_keys = self.keys@;
        if !self.index.contains_key(key.as_str()) {
            let key2 = key.clone();
            self.keys.push(key2);
            proof {
                lemma_keys_match_insert_new(old_keys, old_index, self.keys@.last(), off as u64);
            }
        } else {
            proof {
                lemma_keys_match_insert_old(old_keys, old_index, key, off as u64);
            }
        }
        self.index.insert(key, off as u64);
        self.current_offset = self.log.len() as u64;
        Ok(())
    }

    /// Look a key up: absent keys answer `Ok(None)`; for a present key, read
    /// the one record at the indexed offset, which under well-formedness is
    /// a `Put` of this very key, and return its value.
    pub fn get(&self, key: String) -> (r: Result<Option<String>, KvError>)
        requires
            self.wf(),
        ensures
            match r {
                Ok(Some(v)) => self@.contains_key(key@) && v@ == self@[key@],
                Ok(None) => !self@.contains_key(key@),
                Err(_) => false,
            },
    {
        proof {
            self.lemma_wf_parts();
        }
        match self.index.get(key.as_str()) {
            None => Ok(None),
            Some(off_ref) => {
                let off = *off_ref;
                let loglen = self.log.len();
                proof {
                    assert(self.index_view().contains_key(key@));
                    assert(off == self.index_view()[key@]);
                    assert(off < loglen);
                    assert(off as usize as int == off as int);
                }
                match parse_entry(&self.log, off as usize) {
                    Some((e, _j)) => {
                        match e {
                            LogEntry::Put { key: _k, value } => Ok(Some(value)),
                            LogEntry::Remove(_) => {
                                // Unreachable under well-formedness: a record
                                // of another shape here would mean a corrupt
                                // log.
                                Err(KvError::Codec)
                            },
                        }
                    },
                    None => Err(KvError::Codec),
                }
            },
        }
    }

    /// Remove a present key: delete it from the index and the key list, then
    /// append a `Remove` record. An absent key changes nothing and answers
    /// `KeyNotFound`. The in-memory delete comes first; nothing fallible
    /// stands between it and the append, so either order would give the same
    /// store.
    pub fn remove(&mut self, key: String) -> (r: Result<(), KvError>)
        requires
            old(self).wf(),
        ensures
            match r {
                Ok(()) => {
                    &&& old(self)@.contains_key(key@)
                    &&& final(self).wf()
                    &&& final(self)@ == old(self)@.remove(key@)
                    &&& final(self).log_view() == old(self).log_view() + enc_entry(
                        LogEntryV::Remove(key@),
                    )
                },
                Err(e) => {
                    &&& e == KvError::KeyNotFound
                    &&& !old(self)@.contains_key(key@)
                    &&& *final(self) == *old(self)
                },
            },
    {
        proof {
            self.lemma_wf_parts();
        }
        if !self.index.contains_key(key.as_str()) {
            return Err(KvError::KeyNotFound);
        }
        let ghost old_index = self.index@;
        let ghost old_keys = self.keys@;
        let p = match find_key(&self.keys, &key) {
            Some(p) => p,
            None => {
                proof {
                    let a = choose|a: int|
                        0 <= a < old_keys.len() && (#[trigger] old_keys[a]@) == key@;
                    assert(false);
                }
                0
            },
        };
        proof {
            lemma_keys_match_swap_remove(old_keys, old_index, p as int);
            assert(old_keys[p as int]@ == key@);
        }
        self.keys.swap_remove(p);
        self.index.remove(key.as_str());
        append_entry(&mut self.log, &LogEntry::Remove(key));
        let total = self.log.len();
        proof {
            let ghost e = LogEntryV::Remove(old(self).keys@[p as int]@);
            assert(total == old(self).log@.len() + enc_entry(e).len());
            assert(entry_fits(e));
            lemma_replay_append(old(self).log@, e);
        }
        self.current_offset = self.log.len() as u64;
        Ok(())
    }

    /// The number of live keys.
    pub fn len(&self) -> (n: usize)
        requires
            self.wf(),
        ensures
            n == self@.len(),
    {
        proof {
            self.lemma_wf_parts();
            vstd::hash_map::axiom_string_hash_map_spec_len(&self.index);
            assert(self.index_view().dom() =~= self@.dom());
        }
        self.index.len()
    }

    /// The current write offset, equal to the log's length.
    pub fn current_offset(&self) -> (off: u64)
        ensures
            off == self.offset_view(),
    {
        self.current_offset
    }

    /// A copy of the log's characters, for the caller that persists them.
    pub fn log_chars(&self) -> (out: Vec<char>)
        ensures
            out@ == self.log_view(),
    {
        let out = self.log.clone();
        proof {
            assert(out@ =~= self.log@);
        }
        out
    }

    /// Rewrite the log so that only one `Put` record per live key remains,
    /// and rebuild the index over the new offsets. The store's contents are
    /// unchanged; the new log is exactly the live records of some
    /// enumeration of the keys, so its length is the sum of their serialized
    /// lengths.
    pub fn compact(&mut self)
        requires
            old(self).wf(),
        ensures
            final(self).wf(),
            final(self)@ == old(self)@,
            exists|ks: Seq<Seq<char>>| {
                &&& #[trigger] covers(ks, old(self)@)
                &&& final(self).log_view() == live_log(ks, old(self)@)
                &&& final(self).log_view().len() == live_len(ks, old(self)@)
            },
    {
        proof {
            self.lemma_wf_parts();
        }
        let ghost kviews = self.keys@.map_values(|s: String| s@);
        let mut new_log: Vec<char> = Vec::new();
        let mut new_index: StringHashMap<u64> = StringHashMap::new();
        let ghost mut mv2: Map<Seq<char>, Seq<char>> = Map::empty();
        let mut t: usize = 0;
        let klen = self.keys.len();
        while t < klen
            invariant
                t <= klen == self.keys@.len(),
                *self == *old(self),
                old(self).wf(),
                kviews == self.keys@.map_values(|s: String| s@),
                replay(new_log@) == Some((new_index@, mv2)),
                new_log@ == live_log(kviews.take(t as int), old(self)@),
                forall|k: Seq<char>| #[trigger] mv2.contains_key(k) <==> exists|a: int|
                    0 <= a < t && (#[trigger] kviews[a]) == k,
                forall|k: Seq<char>| #[trigger] mv2.contains_key(k) ==> mv2[k] == old(self)@[k],
            decreases klen - t,
        {
            proof {
                self.lemma_wf_parts();
                assert(self.keys@[t as int]@ == kviews[t as int]);
                assert(self.index_view().contains_key(kviews[t as int]));
                assert(self@.contains_key(kviews[t as int]));
            }
            let kc = self.keys[t].clone();
            let ghost kv = kc@;
            let value = match self.get(kc) {
                Ok(Some(v)) => v,
                _ => unreached(),
            };
            let noff = new_log.len();
            let entry = LogEntry::Put { key: self.keys[t].clone(), value };
            append_entry(&mut new_log, &entry);
            let total = new_log.len();
            proof {
                let ghost prev_log = live_log(kviews.take(t as int), old(self)@);
                assert(total == prev_log.len() + enc_entry(entry@).len());
                assert(entry_fits(entry@));
                lemma_replay_append(prev_log, entry@);
                assert(kviews.take(t + 1 as int) =~= kviews.take(t as int).push(
                    kviews[t as int],
                ));
                lemma_live_log_push(kviews.take(t as int), old(self)@, kviews[t as int]);
                assert(entry@ == (LogEntryV::Put {
                    key: kviews[t as int],
                    value: old(self)@[kviews[t as int]],
                }));
                mv2 = mv2.insert(kv, entry@->Put_value);
            }
            new_index.insert(self.keys[t].clone(), noff as u64);
            t = t + 1;
            proof {
                assert forall|k: Seq<char>| #[trigger] mv2.contains_key(k) implies exists|a: int|
                    0 <= a < t && (#[trigger] kviews[a]) == k by {
                    if k == kv {
                        assert(kviews[t - 1] == k);
                    }
                }
            }
        }
        proof {
            assert(kviews.take(klen as int) =~= kviews);
        }
        self.log = new_log;
        self.index = new_index;
        self.current_offset = self.log.len() as u64;
        proof {
            let m_old = old(self)@;
            lemma_replay_index_ok(self.log@);
            assert(mv2 =~= m_old) by {
                assert forall|k: Seq<char>| #[trigger] m_old.contains_key(k) implies
                    mv2.contains_key(k) by {
                    assert(old(self).index_view().contains_key(k));
                    let a = choose|a: int|
                        0 <= a < old(self).keys@.len() && (#[trigger] old(self).keys@[a]@) == k;
                    assert(kviews[a] == k);
                }
            }
            assert(keys_match(self.keys@, self.index@)) by {
                assert(self.index@.dom() =~= mv2.dom());
                assert forall|a: int| 0 <= a < self.keys@.len() implies self.index@.contains_key(
                    self.keys@[a]@,
                ) by {
                    assert(old(self).index_view().contains_key(self.keys@[a]@));
                    assert(kviews[a] == self.keys@[a]@);
                    assert(mv2.contains_key(self.keys@[a]@));
                }
                assert forall|k: Seq<char>| #[trigger] self.index@.contains_key(k) implies exists|
                    a: int,
                |
                    0 <= a < self.keys@.len() && (#[trigger] self.keys@[a]@) == k by {
                    assert(mv2.contains_key(k));
                    let a = choose|a: int| 0 <= a < klen && (#[trigger] kviews[a]) == k;
                    assert(self.keys@[a]@ == k);
                }
            }
            assert(covers(kviews, m_old)) by {
                assert forall|a: int, b: int|
                    0 <= a < kviews.len() && 0 <= b < kviews.len() && a != b implies kviews[a]
                    != kviews[b] by {
                    assert(old(self).keys@[a]@ == kviews[a]);
                    assert(old(self).keys@[b]@ == kviews[b]);
                }
                assert(kviews.no_duplicates());
                assert forall|a: int| 0 <= a < kviews.len() implies m_old.contains_key(
                    #[trigger] kviews[a],
                ) by {
                    assert(old(self).index_view().contains_key(old(self).keys@[a]@));
                }
                assert forall|k: Seq<char>| #[trigger] m_old.contains_key(k) implies
                    kviews.contains(k) by {
                    assert(old(self).index_view().contains_key(k));
                    let a = choose|a: int|
                        0 <= a < old(self).keys@.len() && (#[trigger] old(self).keys@[a]@) == k;
                    assert(kviews[a] == k);
                }
            }
            lemma_live_log_len(kviews, m_old);
        }
    }

    /// Should a log of this size be compacted?
    pub fn needs_compaction(file_len: u64) -> (b: bool)
        ensures
            b == (file_len >= MAX_FILE_BYTES),
    {
        file_len >= MAX_FILE_BYTES
    }
}


// ---------------------------------------------------------------------------
// Laws
// ---------------------------------------------------------------------------

/// Every key of a well-formed store's index points at a `Put` record of that
/// very key, and the record's value is the key's current value.
pub proof fn lemma_index_points_at_live_put(s: Store, k: Seq<char>)
    requires
        s.wf(),
        s.index_view().contains_key(k),
    ensures
        s@.contains_key(k),
        s.index_view()[k] < s.log_view().len(),
        parse_entry_at(s.log_view(), s.index_view()[k] as int) is Some,
        parse_entry_at(s.log_view(), s.index_view()[k] as int)->Some_0.0 == (LogEntryV::Put {
            key: k,
            value: s@[k],
        }),
{
    s.lemma_wf_parts();
}

/// After a successful `set(k, v)` — which makes the store's view the old
/// view with `k` bound to `v` — an immediate `get(k)`, which answers exactly
/// the view, returns `Some(v)`.
pub proof fn lemma_get_after_set(pre: Store, post: Store, k: Seq<char>, v: Seq<char>)
    requires
        post@ == pre@.insert(k, v),
    ensures
        post@.contains_key(k),
        post@[k] == v,
{
}

/// After a successful `remove(k)` — which makes the store's view the old
/// view without `k` — an immediate `get(k)` returns `None`, and a second
/// `remove(k)` answers `KeyNotFound`.
pub proof fn lemma_get_after_remove(pre: Store, post: Store, k: Seq<char>)
    requires
        post@ == pre@.remove(k),
    ensures
        !post@.contains_key(k),
{
}

/// After `set(k, v1)` followed by `set(k, v2)`, `get(k)` returns `Some(v2)`.
pub proof fn lemma_get_after_two_sets(
    pre: Store,
    mid: Store,
    post: Store,
    k: Seq<char>,
    v1: Seq<char>,
    v2: Seq<char>,
)
    requires
        mid@ == pre@.insert(k, v1),
        post@ == mid@.insert(k, v2),
    ensures
        post@.contains_key(k),
        post@[k] == v2,
{
}

/// A well-formed store's log replays to the store's own contents: a store
/// opened from that log — whose view `open` guarantees to be the replayed
/// map — shows exactly the same `get` results.
pub proof fn lemma_reopen_preserves_view(s: Store)
    requires
        s.wf(),
    ensures
        replay(s.log_view()) is Some,
        replay(s.log_view())->Some_0.1 == s@,
{
    s.lemma_wf_parts();
}

/// The decision at the heart of opening a storage directory, on what a
/// directory listing shows. The path must either not exist yet, or be a
/// directory that is empty or holds exactly the log file: a regular file is
/// refused with `DirPathExpected`, a single entry under any other name with
/// `UnexpectedLogFile`, and more than one entry with `UnexpectedFilesInPath`.
pub open spec fn spec_validate_dir(
    path_exists: bool,
    path_is_file: bool,
    names: Seq<Seq<char>>,
) -> Result<(), KvError> {
    if path_exists && path_is_file {
        Err(KvError::DirPathExpected)
    } else if path_exists && names.len() > 1 {
        Err(KvError::UnexpectedFilesInPath)
    } else if path_exists && names.len() == 1 && names[0] != "data.log"@ {
        Err(KvError::UnexpectedLogFile)
    } else {
        Ok(())
    }
}

/// Validate a storage directory from what a listing of it shows: whether the
/// path exists, whether it is a regular file, and the names of its entries.
pub fn validate_dir(path_exists: bool, path_is_file: bool, entries: &Vec<String>) -> (r: Result<
    (),
    KvError,
>)
    ensures
        r == spec_validate_dir(
            path_exists,
            path_is_file,
            entries@.map_values(|s: String| s@),
        ),
{
    let ghost names = entries@.map_values(|s: String| s@);
    if path_exists && path_is_file {
        return Err(KvError::DirPathExpected);
    }
    if path_exists && entries.len() > 1 {
        proof {
            assert(names.len() == entries@.len());
        }
        return Err(KvError::UnexpectedFilesInPath);
    }
    if path_exists && entries.len() == 1 {
        let log_name = String::from_str("data.log");
        if !entries[0].eq(&log_name) {
            proof {
                assert(names[0] == entries@[0]@);
            }
            return Err(KvError::UnexpectedLogFile);
        }
        proof {
            assert(names[0] == entries@[0]@);
        }
    }
    proof {
        assert(names.len() == entries@.len());
    }
    Ok(())
}

} // verus!
