//! The persistent backend: an automerge document whose changes are made durable through a
//! persister, and compacted into snapshots.
use vstd::prelude::*;
use automerge::{Automerge, AutomergeError, Change, ChangeHash, Patch};
use crate::engine::{
    change_actor_of, change_decodes, change_record, change_seq_of, decode_change,
    engine_apply, engine_changes, engine_diff, engine_heads, engine_init, engine_load,
    engine_missing_deps, engine_save,
};
use crate::memory::{bytes_eq, copy_bytes};
use crate::persister::{
    blob_set, bytes_opt, entry_id, id_of, insert_entries, lemma_blob_set, lemma_insert_single,
    lemma_remove_ids_contents, names, raws_of, remove_ids, ChangeRecord, Persister,
};

verus! {

/// What a persistent backend reports: a failure of the document engine, or of the storage.
#[derive(Debug)]
pub enum PersistentBackendError<E> {
    /// The engine refused a change or a snapshot.
    AutomergeError(AutomergeError),
    /// The persister failed.
    PersisterError(E),
}

/// An automerge document together with the persister that makes its changes durable.
///
/// The document is modelled by what it was built from: the snapshot it was loaded from (none
/// for an empty document) and the encoded changes that were applied on top of it.
pub struct PersistentBackend<P: Persister> {
    backend: Automerge,
    persister: P,
    base: Ghost<Option<Seq<u8>>>,
    applied: Ghost<Set<Seq<u8>>>,
}

/// Decodes each blob into a change, stopping at the first that does not decode.
pub fn decode_all(blobs: &Vec<Vec<u8>>) -> (r: Result<Vec<Change>, AutomergeError>)
    ensures
        r is Ok <==> forall|i: int| 0 <= i < blobs@.len() ==> change_decodes(#[trigger] blobs@[i]@),
        r matches Ok(v) ==> v@.len() == blobs@.len(),
{
    let mut out: Vec<Change> = Vec::new();
    let mut i: usize = 0;
    while i < blobs.len()
        invariant
            0 <= i <= blobs@.len(),
            out@.len() == i,
            forall|j: int| 0 <= j < i ==> change_decodes(#[trigger] blobs@[j]@),
        decreases blobs@.len() - i,
    {
        match decode_change(blobs[i].as_slice()) {
            Ok(c) => out.push(c),
            Err(e) => return Err(e),
        }
        i = i + 1;
    }
    Ok(out)
}

/// The record's actor and sequence number are the ones its encoded change carries.
pub open spec fn named(r: ChangeRecord) -> bool {
    r.actor@ == change_actor_of(r.raw@) && r.seq == change_seq_of(r.raw@)
}

/// Every record of `rs` carries its own identity.
pub open spec fn all_named(rs: Seq<ChangeRecord>) -> bool {
    forall|i: int| 0 <= i < rs.len() ==> named(#[trigger] rs[i])
}

/// Every encoded change of `rs` decodes.
pub open spec fn all_decode(rs: Seq<ChangeRecord>) -> bool {
    forall|i: int| 0 <= i < rs.len() ==> change_decodes(#[trigger] rs[i].raw@)
}

/// The records of `rs` whose actor is `a`, in order.
pub open spec fn of_actor(rs: Seq<ChangeRecord>, a: Seq<u8>) -> Seq<ChangeRecord>
    decreases rs.len(),
{
    if rs.len() == 0 {
        Seq::empty()
    } else if rs[0].actor@ == a {
        seq![rs[0]] + of_actor(rs.drop_first(), a)
    } else {
        of_actor(rs.drop_first(), a)
    }
}

/// The identities `ids` are those of the records `rs`, position by position.
pub open spec fn ids_match(ids: Seq<(Vec<u8>, u64)>, rs: Seq<ChangeRecord>) -> bool {
    &&& ids.len() == rs.len()
    &&& forall|i: int| 0 <= i < ids.len() ==> id_of(#[trigger] ids[i]) == entry_id(rs[i])
}

/// The records of the changes `cs`.
pub fn records_of(cs: &Vec<&Change>) -> (r: Vec<ChangeRecord>)
    ensures
        r@.len() == cs@.len(),
        all_named(r@),
{
    let mut out: Vec<ChangeRecord> = Vec::new();
    let mut i: usize = 0;
    while i < cs.len()
        invariant
            0 <= i <= cs@.len(),
            out@.len() == i,
            all_named(out@),
        decreases cs@.len() - i,
    {
        out.push(change_record(cs[i]));
        i = i + 1;
    }
    out
}

/// The identity `(actor, seq)` of each record, to remove the records from a store.
pub fn compaction_ids(records: &Vec<ChangeRecord>) -> (ids: Vec<(Vec<u8>, u64)>)
    ensures
        ids_match(ids@, records@),
{
    let mut out: Vec<(Vec<u8>, u64)> = Vec::new();
    let mut i: usize = 0;
    while i < records.len()
        invariant
            0 <= i <= records@.len(),
            ids_match(out@, records@.subrange(0, i as int)),
        decreases records@.len() - i,
    {
        out.push((copy_bytes(records[i].actor.as_slice()), records[i].seq));
        i = i + 1;
        assert(ids_match(out@, records@.subrange(0, i as int)));
    }
    assert(records@.subrange(0, records@.len() as int) =~= records@);
    out
}

/// The records of `records` whose actor is `actor`, in order.
pub fn select_actor(records: Vec<ChangeRecord>, actor: &[u8]) -> (r: Vec<ChangeRecord>)
    ensures
        r@ == of_actor(records@, actor@),
{
    let ghost whole = records@;
    let mut rest = records;
    let mut out: Vec<ChangeRecord> = Vec::new();
    while rest.len() > 0
        invariant
            out@ + of_actor(rest@, actor@) == of_actor(whole, actor@),
        decreases rest@.len(),
    {
        let ghost before = rest@;
        let x = rest.remove(0);
        assert(rest@ =~= before.drop_first());
        if bytes_eq(x.actor.as_slice(), actor) {
            let ghost o = out@;
            out.push(x);
            assert(out@ + of_actor(rest@, actor@) =~= o + of_actor(before, actor@));
        }
    }
    out
}

/// The change `c` as plain values: its actor, its sequence number and its encoded bytes.
pub fn record_of(c: &Change) -> (r: ChangeRecord)
    ensures
        r.actor@ == change_actor_of(r.raw@),
        r.seq == change_seq_of(r.raw@),
{
    change_record(c)
}

/// Copies of the encoded changes of `records`.
fn raw_copies(records: &Vec<ChangeRecord>) -> (r: Vec<Vec<u8>>)
    ensures
        r@.len() == records@.len(),
        forall|i: int| 0 <= i < r@.len() ==> #[trigger] r@[i]@ == records@[i].raw@,
{
    let mut out: Vec<Vec<u8>> = Vec::new();
    let mut i: usize = 0;
    while i < records.len()
        invariant
            0 <= i <= records@.len(),
            out@.len() == i,
            forall|j: int| 0 <= j < i ==> #[trigger] out@[j]@ == records@[j].raw@,
        decreases records@.len() - i,
    {
        out.push(copy_bytes(records[i].raw.as_slice()));
        i = i + 1;
    }
    out
}

/// The encoded changes `raws` and the records they came from hold the same bytes.
proof fn lemma_raw_copies(raws: Seq<Vec<u8>>, records: Seq<ChangeRecord>)
    requires
        raws.len() == records.len(),
        forall|i: int| 0 <= i < raws.len() ==> #[trigger] raws[i]@ == records[i].raw@,
    ensures
        blob_set(raws) == raws_of(records),
{
    assert forall|s: Seq<u8>| blob_set(raws).contains(s) <==> raws_of(records).contains(s) by {
        if blob_set(raws).contains(s) {
            let i = choose|i: int| 0 <= i < raws.len() && #[trigger] raws[i]@ == s;
            assert(records[i].raw@ == s);
        }
        if raws_of(records).contains(s) {
            let i = choose|i: int| 0 <= i < records.len() && #[trigger] records[i].raw@ == s;
            assert(raws[i]@ == s);
        }
    }
    assert(blob_set(raws) =~= raws_of(records));
}

impl<P: Persister> PersistentBackend<P> {
    /// The persister.
    pub closed spec fn store(&self) -> P {
        self.persister
    }

    /// The document.
    pub closed spec fn engine(&self) -> Automerge {
        self.backend
    }

    /// The snapshot the document was built from, if any.
    pub closed spec fn base_snapshot(&self) -> Option<Seq<u8>> {
        self.base@
    }

    /// The encoded changes applied to the document on top of its snapshot.
    pub closed spec fn applied(&self) -> Set<Seq<u8>> {
        self.applied@
    }

    /// The invariant: the persister is well formed.
    pub open spec fn well_formed(&self) -> bool {
        self.store().well_formed()
    }

    /// Rebuilds the document from what `persister` holds: the snapshot, if there is one, and then
    /// every stored change, applied in one batch.
    pub fn load(persister: P) -> (r: Result<Self, PersistentBackendError<P::Error>>)
        requires
            persister.well_formed(),
        ensures
            r matches Ok(b) ==> {
                &&& b.well_formed()
                &&& b.store() == persister
                &&& b.base_snapshot() == persister.stored_document()
                &&& b.applied() == persister.stored_changes().values()
            },
            r is Ok ==> forall|raw: Seq<u8>|
                #[trigger] persister.stored_changes().values().contains(raw) ==> change_decodes(raw),
    {
        let document = match persister.get_document() {
            Ok(d) => d,
            Err(e) => return Err(PersistentBackendError::PersisterError(e)),
        };
        let ghost base = bytes_opt(document);
        let mut backend = match document {
            Some(d) => match engine_load(d.as_slice()) {
                Ok(b) => b,
                Err(e) => return Err(PersistentBackendError::AutomergeError(e)),
            },
            None => engine_init(),
        };
        let blobs = match persister.get_changes() {
            Ok(v) => v,
            Err(e) => return Err(PersistentBackendError::PersisterError(e)),
        };
        proof {
            lemma_blob_set(blobs@, persister.stored_changes());
        }
        let changes = match decode_all(&blobs) {
            Ok(v) => v,
            Err(e) => return Err(PersistentBackendError::AutomergeError(e)),
        };
        assert forall|raw: Seq<u8>| #[trigger]
            persister.stored_changes().values().contains(raw) implies change_decodes(raw) by {
            assert(blob_set(blobs@).contains(raw));
            let i = choose|i: int| 0 <= i < blobs@.len() && #[trigger] blobs@[i]@ == raw;
            assert(change_decodes(blobs@[i]@));
        }
        match engine_apply(&mut backend, changes) {
            Ok(()) => Ok(
                PersistentBackend {
                    backend,
                    persister,
                    base: Ghost(base),
                    applied: Ghost(blob_set(blobs@)),
                },
            ),
            Err(e) => Err(PersistentBackendError::AutomergeError(e)),
        }
    }

    /// Applies changes from a peer, given as records that carry their own identity: they are
    /// stored first and applied to the document after. Where the storage fails the document is
    /// untouched; where the engine refuses them they stay stored, to be applied again by the next
    /// `load`. Returns the patches that the changes made to the document.
    pub fn apply_records(&mut self, changes: Vec<ChangeRecord>) -> (r: Result<
        Vec<Patch>,
        PersistentBackendError<P::Error>,
    >)
        requires
            old(self).well_formed(),
            all_named(changes@),
        ensures
            final(self).well_formed(),
            final(self).store().stored_document() == old(self).store().stored_document(),
            final(self).base_snapshot() == old(self).base_snapshot(),
            r matches Err(PersistentBackendError::PersisterError(_)) ==> final(self).engine() == old(self).engine(),
            !(r is Ok) ==> final(self).applied() == old(self).applied(),
            !(r matches Err(PersistentBackendError::PersisterError(_))) ==> final(self).store().stored_changes()
                == insert_entries(old(self).store().stored_changes(), changes@),
            !all_decode(changes@) ==> !(r is Ok),
            r is Ok ==> final(self).applied() == old(self).applied().union(raws_of(changes@)),
    {
        let raws = raw_copies(&changes);
        let ghost records = changes@;
        let before = engine_heads(&self.backend);
        match self.persister.insert_changes(changes) {
            Ok(()) => {},
            Err(e) => return Err(PersistentBackendError::PersisterError(e)),
        }
        let decoded = match decode_all(&raws) {
            Ok(v) => v,
            Err(e) => return Err(PersistentBackendError::AutomergeError(e)),
        };
        assert(all_decode(records)) by {
            assert forall|i: int| 0 <= i < records.len() implies change_decodes(
                #[trigger] records[i].raw@,
            ) by {
                assert(raws@[i]@ == records[i].raw@);
            }
        }
        match engine_apply(&mut self.backend, decoded) {
            Ok(()) => {},
            Err(e) => return Err(PersistentBackendError::AutomergeError(e)),
        }
        let after = engine_heads(&self.backend);
        let patches = engine_diff(&self.backend, before.as_slice(), after.as_slice());
        proof {
            lemma_raw_copies(raws@, records);
        }
        self.applied = Ghost(self.applied@.union(raws_of(records)));
        Ok(patches)
    }

    /// Applies changes from a peer: each is stored under the actor and sequence number that it
    /// carries, and only then applied to the document, as `apply_records` does.
    pub fn apply_changes(&mut self, changes: Vec<Change>) -> (r: Result<
        Vec<Patch>,
        PersistentBackendError<P::Error>,
    >)
        requires
            old(self).well_formed(),
        ensures
            final(self).well_formed(),
            final(self).store().stored_document() == old(self).store().stored_document(),
            final(self).base_snapshot() == old(self).base_snapshot(),
            r matches Err(PersistentBackendError::PersisterError(_)) ==> final(self).engine() == old(self).engine(),
            !(r is Ok) ==> final(self).applied() == old(self).applied(),
            exists|recs: Seq<ChangeRecord>|
                {
                    &&& recs.len() == changes@.len()
                    &&& all_named(recs)
                    &&& !(r matches Err(PersistentBackendError::PersisterError(_))) ==> final(self).store().stored_changes()
                        == insert_entries(old(self).store().stored_changes(), recs)
                    &&& !all_decode(recs) ==> !(r is Ok)
                    &&& r is Ok ==> final(self).applied() == old(self).applied().union(
                        #[trigger] raws_of(recs),
                    )
                },
    {
        let mut refs: Vec<&Change> = Vec::new();
        let mut i: usize = 0;
        while i < changes.len()
            invariant
                0 <= i <= changes@.len(),
                refs@.len() == i,
            decreases changes@.len() - i,
        {
            refs.push(&changes[i]);
            i = i + 1;
        }
        let records = records_of(&refs);
        let ghost recs = records@;
        let r = self.apply_records(records);
        assert(raws_of(recs) == raws_of(recs));
        r
    }

    /// Applies a change made locally: the document takes it first, and it is stored after,
    /// under the actor and sequence number that it carries. Where the engine refuses it nothing
    /// is stored; where the storage fails the change is in the document only. Returns the
    /// patches and the stored record.
    pub fn apply_local_change(&mut self, change: Change) -> (r: Result<
        (Vec<Patch>, ChangeRecord),
        PersistentBackendError<P::Error>,
    >)
        requires
            old(self).well_formed(),
        ensures
            final(self).well_formed(),
            final(self).store().stored_document() == old(self).store().stored_document(),
            final(self).base_snapshot() == old(self).base_snapshot(),
            r matches Err(PersistentBackendError::AutomergeError(_)) ==> final(self).store() == old(self).store()
                && final(self).applied() == old(self).applied(),
            r matches Err(PersistentBackendError::PersisterError(_)) ==> exists|rec: ChangeRecord|
                named(rec) && final(self).applied() == old(self).applied().insert(#[trigger] rec.raw@),
            r matches Ok((_, rec)) ==> {
                &&& named(rec)
                &&& final(self).store().stored_changes() == old(self).store().stored_changes().insert(
                    entry_id(rec),
                    rec.raw@,
                )
                &&& final(self).applied() == old(self).applied().insert(rec.raw@)
            },
    {
        let rec = change_record(&change);
        let before = engine_heads(&self.backend);
        match engine_apply(&mut self.backend, vec![change]) {
            Ok(()) => {},
            Err(e) => return Err(PersistentBackendError::AutomergeError(e)),
        }
        let after = engine_heads(&self.backend);
        let patches = engine_diff(&self.backend, before.as_slice(), after.as_slice());
        self.applied = Ghost(self.applied@.insert(rec.raw@));
        let stored = ChangeRecord {
            actor: copy_bytes(rec.actor.as_slice()),
            seq: rec.seq,
            raw: copy_bytes(rec.raw.as_slice()),
        };
        let batch = vec![stored];
        proof {
            lemma_insert_single(self.store().stored_changes(), batch@);
        }
        match self.persister.insert_changes(batch) {
            Ok(()) => Ok((patches, rec)),
            Err(e) => {
                assert(named(rec) && self.applied() == old(self).applied().insert(rec.raw@));
                Err(PersistentBackendError::PersisterError(e))
            },
        }
    }

    /// Compacts the storage: takes the document's changes, stores a snapshot of the document,
    /// and only once it is stored removes those changes from the storage. The document itself is
    /// untouched; once the snapshot is stored it is modelled by the snapshot alone.
    pub fn compact(&mut self) -> (r: Result<(), PersistentBackendError<P::Error>>)
        requires
            old(self).well_formed(),
        ensures
            final(self).well_formed(),
            final(self).engine() == old(self).engine(),
            final(self).store().stored_changes().submap_of(old(self).store().stored_changes()),
            final(self).store().stored_changes() != old(self).store().stored_changes() ==> {
                &&& final(self).store().stored_document() == final(self).base_snapshot()
                &&& final(self).base_snapshot() is Some
                &&& final(self).applied() == Set::<Seq<u8>>::empty()
            },
            r is Ok ==> {
                &&& final(self).store().stored_document() == final(self).base_snapshot()
                &&& final(self).base_snapshot() is Some
                &&& final(self).applied() == Set::<Seq<u8>>::empty()
                &&& exists|recs: Seq<ChangeRecord>, ids: Seq<(Vec<u8>, u64)>|
                    {
                        &&& all_named(recs)
                        &&& #[trigger] ids_match(ids, recs)
                        &&& final(self).store().stored_changes() == remove_ids(
                            old(self).store().stored_changes(),
                            ids,
                        )
                        &&& forall|i: int|
                            0 <= i < recs.len() ==> !final(self).store().stored_changes().contains_key(
                                entry_id(#[trigger] recs[i]),
                            )
                    }
            },
    {
        let no_deps: Vec<ChangeHash> = Vec::new();
        let all = engine_changes(&self.backend, no_deps.as_slice());
        let records = records_of(&all);
        let ids = compaction_ids(&records);
        let saved = engine_save(&self.backend);
        let ghost snap = saved@;
        let ghost start = self.store().stored_changes();
        let ghost recs = records@;
        let ghost ids_v = ids@;
        match self.persister.set_document(saved) {
            Ok(()) => {},
            Err(e) => {
                assert(self.store().stored_changes() =~= start);
                return Err(PersistentBackendError::PersisterError(e));
            },
        }
        self.base = Ghost(Some(snap));
        self.applied = Ghost(Set::empty());
        match self.persister.remove_changes(ids) {
            Ok(()) => {
                proof {
                    lemma_remove_ids_contents(start, ids_v);
                    assert forall|i: int| 0 <= i < recs.len() implies !self.store().stored_changes().contains_key(
                        entry_id(#[trigger] recs[i]),
                    ) by {
                        assert(id_of(ids_v[i]) == entry_id(recs[i]));
                        assert(names(ids_v, entry_id(recs[i])));
                    }
                }
                Ok(())
            },
            Err(e) => Err(PersistentBackendError::PersisterError(e)),
        }
    }

    /// The patches that populate a fresh view of the document: from the empty state to the
    /// current heads.
    pub fn get_patch(&self) -> (r: Result<Vec<Patch>, PersistentBackendError<P::Error>>)
        ensures
            r is Ok,
    {
        let heads = engine_heads(&self.backend);
        let none: Vec<ChangeHash> = Vec::new();
        Ok(engine_diff(&self.backend, none.as_slice(), heads.as_slice()))
    }

    /// The changes of the document made by the actor whose bytes are `actor_id`, in the
    /// document's order.
    pub fn get_changes_for_actor_id(&self, actor_id: &[u8]) -> (r: Result<
        Vec<ChangeRecord>,
        PersistentBackendError<P::Error>,
    >)
        ensures
            r matches Ok(v) ==> exists|recs: Seq<ChangeRecord>|
                all_named(recs) && v@ == #[trigger] of_actor(recs, actor_id@),
            r is Ok,
    {
        let none: Vec<ChangeHash> = Vec::new();
        let all = engine_changes(&self.backend, none.as_slice());
        let records = records_of(&all);
        let ghost recs = records@;
        let out = select_actor(records, actor_id);
        assert(out@ == of_actor(recs, actor_id@));
        Ok(out)
    }

    /// The changes that are not among `have_deps` or their ancestors.
    pub fn get_changes(&self, have_deps: &[ChangeHash]) -> Vec<&Change> {
        engine_changes(&self.backend, have_deps)
    }

    /// The hashes that changes waiting to be applied depend on and that the document lacks.
    pub fn get_missing_deps(&self) -> Vec<ChangeHash> {
        engine_missing_deps(&self.backend)
    }

    /// The hashes of the changes that no other change depends on.
    pub fn get_heads(&self) -> Vec<ChangeHash> {
        engine_heads(&self.backend)
    }

    /// The persister.
    pub fn persister(&self) -> (r: &P)
        ensures
            *r == self.store(),
    {
        &self.persister
    }

    /// Gives the persister back, to load the document again from it.
    pub fn into_persister(self) -> (r: P)
        ensures
            r == self.store(),
    {
        self.persister
    }
}

} // verus!
