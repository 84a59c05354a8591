//! A persister that keeps everything in memory.
use vstd::prelude::*;
use crate::keys::append_bytes;
use crate::persister::{
    blobs_of, bytes_opt, entry_id, id_of, insert_entries, lemma_remove_ids_contents, remove_ids, ChangeId, ChangeMap,
    ChangeRecord, Persister,
};

verus! {

/// A persister that keeps changes and the snapshot in memory, for tests and for documents that
/// need not outlive the process.
pub struct MemoryPersister {
    changes: Vec<ChangeRecord>,
    document: Option<Vec<u8>>,
    model: Ghost<ChangeMap>,
}

/// The error of a memory persister, which no operation returns.
#[derive(Debug, Clone, Copy, PartialEq, Eq)]
pub struct MemoryPersisterError;

/// Whether `a` and `b` hold the same bytes.
pub fn bytes_eq(a: &[u8], b: &[u8]) -> (r: bool)
    ensures
        r == (a@ == b@),
{
    if a.len() != b.len() {
        return false;
    }
    let mut i: usize = 0;
    while i < a.len()
        invariant
            a@.len() == b@.len(),
            0 <= i <= a@.len(),
            forall|j: int| 0 <= j < i ==> a@[j] == b@[j],
        decreases a@.len() - i,
    {
        if a[i] != b[i] {
            return false;
        }
        i = i + 1;
    }
    assert(a@ =~= b@);
    true
}

/// A copy of the bytes of `s`.
pub fn copy_bytes(s: &[u8]) -> (r: Vec<u8>)
    ensures
        r@ == s@,
{
    let mut r: Vec<u8> = Vec::new();
    append_bytes(&mut r, s);
    assert(r@ =~= s@);
    r
}

impl MemoryPersister {
    /// The invariant: identities are distinct, and the model maps each identity to its bytes.
    pub closed spec fn inv(&self) -> bool {
        &&& forall|i: int, j: int|
            0 <= i < j < self.changes@.len() ==> entry_id(#[trigger] self.changes@[i])
                != entry_id(#[trigger] self.changes@[j])
        &&& forall|i: int|
            0 <= i < self.changes@.len() ==> #[trigger] self.model@.contains_key(
                entry_id(self.changes@[i]),
            ) && self.model@[entry_id(self.changes@[i])] == self.changes@[i].raw@
        &&& forall|k: ChangeId| #[trigger]
            self.model@.contains_key(k) ==> exists|i: int|
                0 <= i < self.changes@.len() && entry_id(#[trigger] self.changes@[i]) == k
    }

    /// An empty store: no change and no snapshot.
    pub fn new() -> (r: Self)
        ensures
            r.well_formed(),
            r.stored_changes() == ChangeMap::empty(),
            r.stored_document() == None::<Seq<u8>>,
    {
        MemoryPersister { changes: Vec::new(), document: None, model: Ghost(Map::empty()) }
    }

    /// The number of stored changes.
    pub fn change_count(&self) -> (r: usize)
        requires
            self.well_formed(),
        ensures
            r == self.stored_changes().dom().len(),
    {
        proof {
            self.lemma_len();
        }
        self.changes.len()
    }

    /// Whether a snapshot is stored.
    pub fn has_document(&self) -> (r: bool)
        ensures
            r == self.stored_document() is Some,
    {
        self.document.is_some()
    }

    proof fn lemma_len(&self)
        requires
            self.inv(),
        ensures
            self.model@.dom().finite(),
            self.model@.dom().len() == self.changes@.len(),
    {
        let ids = self.changes@.map_values(|e: ChangeRecord| entry_id(e));
        assert forall|i: int, j: int| 0 <= i < j < ids.len() implies ids[i] != ids[j] by {
            assert(entry_id(self.changes@[i]) != entry_id(self.changes@[j]));
        }
        assert(ids.no_duplicates());
        ids.unique_seq_to_set();
        assert forall|k: ChangeId| self.model@.dom().contains(k) <==> ids.to_set().contains(k) by {
            if self.model@.dom().contains(k) {
                let i = choose|i: int|
                    0 <= i < self.changes@.len() && entry_id(#[trigger] self.changes@[i]) == k;
                assert(ids[i] == k);
            }
            if ids.to_set().contains(k) {
                let i = choose|i: int| 0 <= i < ids.len() && ids[i] == k;
                assert(self.model@.contains_key(entry_id(self.changes@[i])));
            }
        }
        assert(self.model@.dom() =~= ids.to_set());
    }

    /// The position of the change `(actor, seq)`, if it is stored.
    fn find(&self, actor: &[u8], seq: u64) -> (r: Option<usize>)
        ensures
            r matches Some(i) ==> i < self.changes@.len() && entry_id(self.changes@[i as int]) == (
            actor@,
            seq,
            ),
            r is None ==> forall|i: int|
                0 <= i < self.changes@.len() ==> entry_id(#[trigger] self.changes@[i]) != (
                actor@,
                seq,
                ),
    {
        let mut i: usize = 0;
        while i < self.changes.len()
            invariant
                0 <= i <= self.changes@.len(),
                forall|j: int|
                    0 <= j < i ==> entry_id(#[trigger] self.changes@[j]) != (actor@, seq),
            decreases self.changes@.len() - i,
        {
            if self.changes[i].seq == seq && bytes_eq(self.changes[i].actor.as_slice(), actor) {
                return Some(i);
            }
            i = i + 1;
        }
        None
    }

    /// Stores `bytes` under `(actor, seq)`.
    fn insert_one(&mut self, actor: Vec<u8>, seq: u64, bytes: Vec<u8>)
        requires
            old(self).inv(),
        ensures
            final(self).inv(),
            final(self).model@ == old(self).model@.insert((actor@, seq), bytes@),
            final(self).document == old(self).document,
    {
        let k: Ghost<ChangeId> = Ghost((actor@, seq));
        let found = self.find(actor.as_slice(), seq);
        let ghost old_changes = self.changes@;
        let entry = ChangeRecord { actor, seq, raw: bytes };
        assert(entry_id(entry) == k@);
        match found {
            Some(i) => {
                self.changes.remove(i);
                self.changes.insert(i, entry);
                assert(self.changes@ =~= old_changes.update(i as int, entry));
            },
            None => {
                self.changes.push(entry);
            },
        }
        self.model = Ghost(self.model@.insert(k@, entry.raw@));
        assert forall|k2: ChangeId| #[trigger] self.model@.contains_key(k2) implies exists|i: int|
            0 <= i < self.changes@.len() && entry_id(#[trigger] self.changes@[i]) == k2 by {
            if k2 == k@ {
                match found {
                    Some(i) => {
                        assert(entry_id(self.changes@[i as int]) == k2);
                    },
                    None => {
                        assert(entry_id(self.changes@[old_changes.len() as int]) == k2);
                    },
                }
            } else {
                let i = choose|i: int|
                    0 <= i < old_changes.len() && entry_id(#[trigger] old_changes[i]) == k2;
                assert(entry_id(self.changes@[i]) == k2);
            }
        }
    }

    /// Removes what is stored under `(actor, seq)`, if anything.
    fn remove_one(&mut self, actor: &[u8], seq: u64)
        requires
            old(self).inv(),
        ensures
            final(self).inv(),
            final(self).model@ == old(self).model@.remove((actor@, seq)),
            final(self).document == old(self).document,
    {
        let k: Ghost<ChangeId> = Ghost((actor@, seq));
        let found = self.find(actor, seq);
        let ghost old_changes = self.changes@;
        match found {
            Some(i) => {
                self.changes.remove(i);
                assert forall|j: int|
                    0 <= j < self.changes@.len() implies entry_id(
                    #[trigger] self.changes@[j],
                ) != k@ by {
                    if j < i {
                        assert(self.changes@[j] == old_changes[j]);
                    } else {
                        assert(self.changes@[j] == old_changes[j + 1]);
                    }
                }
            },
            None => {
                assert(!self.model@.contains_key(k@));
            },
        }
        self.model = Ghost(self.model@.remove(k@));
        assert forall|k2: ChangeId| #[trigger] self.model@.contains_key(k2) implies exists|j: int|
            0 <= j < self.changes@.len() && entry_id(#[trigger] self.changes@[j]) == k2 by {
            let j = choose|j: int|
                0 <= j < old_changes.len() && entry_id(#[trigger] old_changes[j]) == k2;
            match found {
                Some(i) => {
                    assert(j != i);
                    if j < i {
                        assert(entry_id(self.changes@[j]) == k2);
                    } else {
                        assert(entry_id(self.changes@[j - 1]) == k2);
                    }
                },
                None => {
                    assert(entry_id(self.changes@[j]) == k2);
                },
            }
        }
    }
}

impl Default for MemoryPersister {
    fn default() -> (r: Self)
        ensures
            r.well_formed(),
            r.stored_changes() == ChangeMap::empty(),
            r.stored_document() == None::<Seq<u8>>,
    {
        MemoryPersister::new()
    }
}

impl Persister for MemoryPersister {
    type Error = MemoryPersisterError;

    closed spec fn well_formed(&self) -> bool {
        self.inv()
    }

    closed spec fn stored_changes(&self) -> ChangeMap {
        self.model@
    }

    closed spec fn stored_document(&self) -> Option<Seq<u8>> {
        bytes_opt(self.document)
    }

    fn get_changes(&self) -> (r: Result<Vec<Vec<u8>>, MemoryPersisterError>)
        ensures
            r is Ok,
    {
        let mut out: Vec<Vec<u8>> = Vec::new();
        let mut i: usize = 0;
        while i < self.changes.len()
            invariant
                self.inv(),
                0 <= i <= self.changes@.len(),
                out@.len() == i,
                forall|j: int| 0 <= j < i ==> #[trigger] out@[j]@ == self.changes@[j].raw@,
            decreases self.changes@.len() - i,
        {
            out.push(copy_bytes(self.changes[i].raw.as_slice()));
            i = i + 1;
        }
        let ghost m = self.model@;
        let ghost v = out@;
        proof {
            self.lemma_len();
        }
        assert forall|j: int| #![trigger v[j]] 0 <= j < v.len() implies m.values().contains(
            v[j]@,
        ) by {
            let k = entry_id(self.changes@[j]);
            assert(out@[j]@ == self.changes@[j].raw@);
            assert(m.contains_key(k));
            assert(m[k] == v[j]@);
        }
        assert forall|k: ChangeId| #![trigger m.contains_key(k)] m.contains_key(k) implies exists|j: int|
            #![trigger v[j]]
            0 <= j < v.len() && v[j]@ == m[k] by {
            let j = choose|j: int|
                0 <= j < self.changes@.len() && entry_id(#[trigger] self.changes@[j]) == k;
            assert(v[j]@ == m[k]);
        }
        assert(blobs_of(v, m));
        assert(blobs_of(out@, self.stored_changes()));
        Ok(out)
    }

    fn insert_changes(&mut self, changes: Vec<ChangeRecord>) -> (r: Result<
        (),
        MemoryPersisterError,
    >)
        ensures
            r is Ok,
    {
        let ghost start = self.model@;
        let mut i: usize = 0;
        while i < changes.len()
            invariant
                self.inv(),
                self.document == old(self).document,
                0 <= i <= changes@.len(),
                self.model@ == insert_entries(start, changes@.subrange(0, i as int)),
            decreases changes@.len() - i,
        {
            let e = &changes[i];
            self.insert_one(copy_bytes(e.actor.as_slice()), e.seq, copy_bytes(e.raw.as_slice()));
            proof {
                let s = changes@.subrange(0, i + 1);
                assert(s.drop_last() =~= changes@.subrange(0, i as int));
                assert(s.last() == changes@[i as int]);
            }
            i = i + 1;
        }
        assert(changes@.subrange(0, changes@.len() as int) =~= changes@);
        Ok(())
    }

    fn remove_changes(&mut self, changes: Vec<(Vec<u8>, u64)>) -> (r: Result<
        (),
        MemoryPersisterError,
    >)
        ensures
            r is Ok,
    {
        let ghost start = self.model@;
        let mut i: usize = 0;
        while i < changes.len()
            invariant
                self.inv(),
                self.document == old(self).document,
                0 <= i <= changes@.len(),
                self.model@ == remove_ids(start, changes@.subrange(0, i as int)),
            decreases changes@.len() - i,
        {
            self.remove_one(changes[i].0.as_slice(), changes[i].1);
            proof {
                let s = changes@.subrange(0, i + 1);
                assert(s.drop_last() =~= changes@.subrange(0, i as int));
                assert(s.last() == changes@[i as int]);
                assert(id_of(s.last()) == (changes@[i as int].0@, changes@[i as int].1));
            }
            i = i + 1;
        }
        assert(changes@.subrange(0, changes@.len() as int) =~= changes@);
        proof {
            lemma_remove_ids_contents(start, changes@);
        }
        Ok(())
    }

    fn get_document(&self) -> (r: Result<Option<Vec<u8>>, MemoryPersisterError>)
        ensures
            r is Ok,
    {
        match &self.document {
            Some(d) => Ok(Some(copy_bytes(d.as_slice()))),
            None => Ok(None),
        }
    }

    fn set_document(&mut self, data: Vec<u8>) -> (r: Result<(), MemoryPersisterError>)
        ensures
            r is Ok,
    {
        let ghost before = *self;
        self.document = Some(data);
        assert(self.changes == before.changes && self.model == before.model);
        assert forall|k: ChangeId| #[trigger] self.model@.contains_key(k) implies exists|i: int|
            0 <= i < self.changes@.len() && entry_id(#[trigger] self.changes@[i]) == k by {
            let i = choose|i: int|
                0 <= i < before.changes@.len() && entry_id(#[trigger] before.changes@[i]) == k;
            assert(entry_id(self.changes@[i]) == k);
        }
        Ok(())
    }
}

} // verus!
