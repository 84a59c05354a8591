use automerge::transaction::Transactable;
use automerge::{ActorId, AutoCommit, Automerge, Change, ROOT};
use automerge_persistent::{
    compaction_ids, decode_all, record_of, select_actor, ChangeRecord, MemoryPersister,
    PersistentBackend, PersistentBackendError, Persister,
};

const ACTOR_A: [u8; 16] = [0xaa; 16];
const ACTOR_B: [u8; 16] = [0xbb; 16];

/// One change by `actor` that sets `key` to `value` in a fresh document.
fn change_by(actor: &[u8], key: &str, value: &str) -> Change {
    let mut doc = AutoCommit::new().with_actor(ActorId::from(actor));
    doc.put(ROOT, key, value).unwrap();
    doc.get_last_local_change().unwrap().clone()
}

/// Several changes by one actor, each after the previous one.
fn history(actor: &[u8], n: usize) -> Vec<Change> {
    let mut doc = AutoCommit::new().with_actor(ActorId::from(actor));
    for i in 0..n {
        doc.put(ROOT, format!("k{}", i), i as i64).unwrap();
        doc.commit();
    }
    doc.get_changes(&[]).into_iter().cloned().collect()
}

fn entry(c: &Change) -> ChangeRecord {
    record_of(c)
}


fn rec(actor: Vec<u8>, seq: u64, raw: Vec<u8>) -> ChangeRecord {
    ChangeRecord { actor, seq, raw }
}

fn empty_backend() -> PersistentBackend<MemoryPersister> {
    PersistentBackend::load(MemoryPersister::new()).unwrap()
}

#[test]
fn load_empty_store() {
    let backend = empty_backend();
    assert!(backend.get_heads().is_empty());
    assert!(backend.get_changes(&[]).is_empty());
    assert!(backend.get_missing_deps().is_empty());
    assert!(backend.get_patch().unwrap().is_empty());
}

#[test]
fn basic_round_trip() {
    let mut backend = empty_backend();
    let change = change_by(&ACTOR_A, "k", "v1");
    let hash = change.hash();
    let (patches, returned) = backend.apply_local_change(change).unwrap();
    assert!(!patches.is_empty());
    assert_eq!(returned.seq, 1);
    assert_eq!(returned.actor, ACTOR_A.to_vec());
    assert_eq!(Change::from_bytes(returned.raw.clone()).unwrap().hash(), hash);
    let heads = backend.get_heads();
    assert_eq!(heads, vec![hash]);
    assert_eq!(backend.persister().change_count(), 1);

    backend.compact().unwrap();
    let store = backend.into_persister();
    assert_eq!(store.change_count(), 0);
    assert!(store.has_document());

    let fresh = PersistentBackend::load(store).unwrap();
    assert_eq!(fresh.get_heads(), heads);
}

#[test]
fn multi_actor_merge() {
    let mut backend = empty_backend();
    let a = change_by(&ACTOR_A, "a", "1");
    let b = change_by(&ACTOR_B, "b", "1");
    assert_eq!(a.seq(), 1);
    assert_eq!(b.seq(), 1);
    let patches = backend.apply_changes(vec![a.clone(), b.clone()]).unwrap();
    assert_eq!(patches.len(), 2);
    assert!(backend.get_missing_deps().is_empty());
    let of_a = backend.get_changes_for_actor_id(&ACTOR_A).unwrap();
    assert_eq!(of_a.len(), 1);
    assert_eq!(of_a[0].raw, a.raw_bytes().to_vec());
    assert_eq!(of_a[0].seq, 1);
    assert_eq!(backend.persister().change_count(), 2);
    let mut heads = backend.get_heads();
    heads.sort();
    let mut expected = vec![a.hash(), b.hash()];
    expected.sort();
    assert_eq!(heads, expected);
}

#[test]
fn separate_stores_stay_apart() {
    let mut backend1 = empty_backend();
    let backend2 = empty_backend();
    backend1.apply_changes(vec![change_by(&ACTOR_A, "x", "1")]).unwrap();
    assert_eq!(backend1.get_changes(&[]).len(), 1);
    assert!(backend2.get_changes(&[]).is_empty());
    assert_eq!(backend2.persister().change_count(), 0);
}

#[test]
fn stored_change_is_replayed_after_crash() {
    let change = change_by(&ACTOR_A, "k", "v");
    let mut store = MemoryPersister::new();
    // the storage write of `apply_changes` happened, the engine step did not
    store.insert_changes(vec![entry(&change)]).unwrap();
    let backend = PersistentBackend::load(store).unwrap();
    assert_eq!(backend.get_heads(), vec![change.hash()]);
}

#[test]
fn compact_then_load_keeps_heads_and_patch() {
    let mut backend = empty_backend();
    backend.apply_changes(history(&ACTOR_A, 3)).unwrap();
    backend.apply_changes(history(&ACTOR_B, 2)).unwrap();
    let heads = backend.get_heads();
    let patch = backend.get_patch().unwrap();
    assert_eq!(backend.persister().change_count(), 5);
    backend.compact().unwrap();
    assert_eq!(backend.get_heads(), heads);
    let fresh = PersistentBackend::load(backend.into_persister()).unwrap();
    assert_eq!(fresh.get_heads(), heads);
    assert_eq!(fresh.get_patch().unwrap(), patch);
}

#[test]
fn interrupted_compaction_loads_like_a_completed_one() {
    let changes = history(&ACTOR_A, 3);

    let mut completed = empty_backend();
    completed.apply_changes(changes.clone()).unwrap();
    completed.compact().unwrap();
    let completed = PersistentBackend::load(completed.into_persister()).unwrap();

    let mut doc = Automerge::new();
    doc.apply_changes(changes.clone()).unwrap();
    let mut crashed = MemoryPersister::new();
    crashed.insert_changes(changes.iter().map(entry).collect()).unwrap();
    // the snapshot was stored, the removal of the changes never ran
    crashed.set_document(doc.save()).unwrap();
    assert_eq!(crashed.change_count(), 3);
    let crashed = PersistentBackend::load(crashed).unwrap();

    assert_eq!(crashed.get_heads(), completed.get_heads());
    assert_eq!(crashed.get_patch().unwrap(), completed.get_patch().unwrap());
}

#[test]
fn local_change_is_stored_under_its_identity() {
    let mut backend = empty_backend();
    let change = change_by(&ACTOR_A, "k", "v");
    let raw = change.raw_bytes().to_vec();
    let (_, stored) = backend.apply_local_change(change).unwrap();
    assert_eq!(stored.raw, raw);
    assert_eq!(backend.persister().get_changes().unwrap(), vec![raw]);
}

#[test]
fn corrupt_change_fails_load() {
    let mut store = MemoryPersister::new();
    store.insert_changes(vec![rec(vec![1], 1, vec![1, 2, 3])]).unwrap();
    let r = PersistentBackend::load(store);
    assert!(matches!(r, Err(PersistentBackendError::AutomergeError(_))));
}

#[test]
fn corrupt_snapshot_fails_load() {
    let mut store = MemoryPersister::new();
    store.set_document(vec![9, 9, 9]).unwrap();
    let r = PersistentBackend::load(store);
    assert!(matches!(r, Err(PersistentBackendError::AutomergeError(_))));
}

#[test]
fn decode_all_reports_a_bad_blob() {
    assert!(decode_all(&vec![]).unwrap().is_empty());
    let good = change_by(&ACTOR_A, "k", "v").raw_bytes().to_vec();
    assert_eq!(decode_all(&vec![good.clone()]).unwrap().len(), 1);
    assert!(decode_all(&vec![good, vec![0, 1]]).is_err());
}

#[test]
fn compaction_ids_follow_records() {
    let ids = compaction_ids(&vec![rec(vec![1], 1, vec![10]), rec(vec![2, 3], 7, vec![11])]);
    assert_eq!(ids, vec![(vec![1], 1), (vec![2, 3], 7)]);
}

#[test]
fn select_actor_keeps_order() {
    let rs = vec![rec(vec![1], 1, vec![10]), rec(vec![2], 1, vec![20]), rec(vec![1], 2, vec![11])];
    let out = select_actor(rs, &[1]);
    assert_eq!(out.iter().map(|r| r.raw.clone()).collect::<Vec<_>>(), vec![vec![10], vec![11]]);
}

#[test]
fn apply_records_stores_records_as_given() {
    let mut backend = empty_backend();
    let c = change_by(&ACTOR_A, "k", "v");
    backend.apply_records(vec![record_of(&c)]).unwrap();
    assert_eq!(backend.get_heads(), vec![c.hash()]);
    assert_eq!(backend.persister().get_changes().unwrap(), vec![c.raw_bytes().to_vec()]);
}

#[test]
fn record_of_reads_actor_seq_and_bytes() {
    let changes = history(&ACTOR_B, 2);
    let r = record_of(&changes[1]);
    assert_eq!(r.actor, ACTOR_B.to_vec());
    assert_eq!(r.seq, 2);
    assert_eq!(r.raw, changes[1].raw_bytes().to_vec());
}

#[test]
fn actor_filter_returns_only_that_actor() {
    let mut backend = empty_backend();
    backend.apply_changes(history(&ACTOR_A, 2)).unwrap();
    backend.apply_changes(history(&ACTOR_B, 3)).unwrap();
    let of_b = backend.get_changes_for_actor_id(&ACTOR_B).unwrap();
    assert_eq!(of_b.iter().map(|r| r.seq).collect::<Vec<_>>(), vec![1, 2, 3]);
    assert!(of_b.iter().all(|r| r.actor == ACTOR_B.to_vec()));
    assert!(backend.get_changes_for_actor_id(&[0x01]).unwrap().is_empty());
}
