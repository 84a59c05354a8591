use automerge::transaction::Transactable;
use automerge::{ActorId, AutoCommit, Change, ROOT};
use automerge_persistent::{
    ChangeRecord, MemoryPersister, PersistentBackend, PersistentBackendError, Persister,
};

#[derive(Debug, PartialEq)]
struct Refused;

/// A store that refuses the operations switched on, and passes the others to memory.
struct FlakyStore {
    inner: MemoryPersister,
    fail_insert: bool,
    fail_remove: bool,
    fail_set_document: bool,
}

impl FlakyStore {
    fn new() -> Self {
        FlakyStore {
            inner: MemoryPersister::new(),
            fail_insert: false,
            fail_remove: false,
            fail_set_document: false,
        }
    }
}

impl Persister for FlakyStore {
    type Error = Refused;

    fn get_changes(&self) -> Result<Vec<Vec<u8>>, Refused> {
        Ok(self.inner.get_changes().unwrap())
    }

    fn insert_changes(&mut self, changes: Vec<ChangeRecord>) -> Result<(), Refused> {
        if self.fail_insert {
            return Err(Refused);
        }
        self.inner.insert_changes(changes).unwrap();
        Ok(())
    }

    fn remove_changes(&mut self, changes: Vec<(Vec<u8>, u64)>) -> Result<(), Refused> {
        if self.fail_remove {
            return Err(Refused);
        }
        self.inner.remove_changes(changes).unwrap();
        Ok(())
    }

    fn get_document(&self) -> Result<Option<Vec<u8>>, Refused> {
        Ok(self.inner.get_document().unwrap())
    }

    fn set_document(&mut self, data: Vec<u8>) -> Result<(), Refused> {
        if self.fail_set_document {
            return Err(Refused);
        }
        self.inner.set_document(data).unwrap();
        Ok(())
    }
}

fn change_by(actor: &[u8], key: &str, value: &str) -> Change {
    let mut doc = AutoCommit::new().with_actor(ActorId::from(actor));
    doc.put(ROOT, key, value).unwrap();
    doc.get_last_local_change().unwrap().clone()
}

fn loaded(store: FlakyStore) -> PersistentBackend<FlakyStore> {
    match PersistentBackend::load(store) {
        Ok(b) => b,
        Err(_) => panic!("load failed"),
    }
}

#[test]
fn failed_insert_leaves_document_untouched() {
    let mut store = FlakyStore::new();
    store.fail_insert = true;
    let mut backend = loaded(store);
    let r = backend.apply_changes(vec![change_by(&[1; 16], "k", "v")]);
    assert!(matches!(r, Err(PersistentBackendError::PersisterError(Refused))));
    assert!(backend.get_heads().is_empty());
    assert_eq!(backend.persister().inner.change_count(), 0);
}

#[test]
fn failed_insert_of_local_change_keeps_it_in_memory() {
    let mut store = FlakyStore::new();
    store.fail_insert = true;
    let mut backend = loaded(store);
    let change = change_by(&[1; 16], "k", "v");
    let hash = change.hash();
    let r = backend.apply_local_change(change);
    assert!(matches!(r, Err(PersistentBackendError::PersisterError(Refused))));
    assert_eq!(backend.get_heads(), vec![hash]);
    assert_eq!(backend.persister().inner.change_count(), 0);
}

#[test]
fn failed_snapshot_removes_nothing() {
    let mut backend = loaded(FlakyStore::new());
    backend.apply_changes(vec![change_by(&[1; 16], "k", "v")]).unwrap_or_else(|_| panic!());
    let heads = backend.get_heads();
    let mut store = backend.into_persister();
    store.fail_set_document = true;
    let mut backend = loaded(store);
    let r = backend.compact();
    assert!(matches!(r, Err(PersistentBackendError::PersisterError(Refused))));
    assert_eq!(backend.persister().inner.change_count(), 1);
    assert!(!backend.persister().inner.has_document());
    assert_eq!(backend.get_heads(), heads);
}

#[test]
fn failed_removal_keeps_snapshot_and_changes() {
    let mut backend = loaded(FlakyStore::new());
    backend.apply_changes(vec![change_by(&[1; 16], "k", "v")]).unwrap_or_else(|_| panic!());
    let heads = backend.get_heads();
    let mut store = backend.into_persister();
    store.fail_remove = true;
    let mut backend = loaded(store);
    let r = backend.compact();
    assert!(matches!(r, Err(PersistentBackendError::PersisterError(Refused))));
    assert_eq!(backend.persister().inner.change_count(), 1);
    assert!(backend.persister().inner.has_document());
    let mut store = backend.into_persister();
    store.fail_remove = false;
    let mut backend = loaded(store);
    assert_eq!(backend.get_heads(), heads);
    backend.compact().unwrap_or_else(|_| panic!());
    assert_eq!(backend.persister().inner.change_count(), 0);
}
