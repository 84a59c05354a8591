//! The storage capability that a persistent backend writes through, and the model of what a store
//! holds.
use vstd::prelude::*;

verus! {

/// The identity of a change: its actor's bytes and its sequence number.
pub type ChangeId = (Seq<u8>, u64);

/// What a store holds of the changes of one namespace: the bytes of each change, by identity.
pub type ChangeMap = Map<ChangeId, Seq<u8>>;

/// One encoded change as plain values: its actor's bytes, its sequence number and its bytes.
pub struct ChangeRecord {
    /// The bytes of the actor that made the change.
    pub actor: Vec<u8>,
    /// The change's sequence number for its actor.
    pub seq: u64,
    /// The encoded change.
    pub raw: Vec<u8>,
}

/// The identity of a stored record.
pub open spec fn entry_id(e: ChangeRecord) -> ChangeId {
    (e.actor@, e.seq)
}

/// The identity named by `(actor, seq)`.
pub open spec fn id_of(i: (Vec<u8>, u64)) -> ChangeId {
    (i.0@, i.1)
}

/// `m` after writing each record of `es` in turn: a later entry with the same identity replaces
/// an earlier one.
pub open spec fn insert_entries(m: ChangeMap, es: Seq<ChangeRecord>) -> ChangeMap
    decreases es.len(),
{
    if es.len() == 0 {
        m
    } else {
        insert_entries(m, es.drop_last()).insert(entry_id(es.last()), es.last().raw@)
    }
}

/// `m` after removing each identity of `ids`; an identity that is absent is passed over.
pub open spec fn remove_ids(m: ChangeMap, ids: Seq<(Vec<u8>, u64)>) -> ChangeMap
    decreases ids.len(),
{
    if ids.len() == 0 {
        m
    } else {
        remove_ids(m, ids.drop_last()).remove(id_of(ids.last()))
    }
}

/// The bytes held by `d`, if any.
pub open spec fn bytes_opt(d: Option<Vec<u8>>) -> Option<Seq<u8>> {
    match d {
        Some(b) => Some(b@),
        None => None,
    }
}

/// The blobs `v` are the stored changes of `m`: one blob for each stored change, each blob the
/// bytes of some stored change, and the bytes of each stored change among the blobs.
pub open spec fn blobs_of(v: Seq<Vec<u8>>, m: ChangeMap) -> bool {
    &&& v.len() == m.dom().len()
    &&& forall|i: int| #![trigger v[i]] 0 <= i < v.len() ==> m.values().contains(v[i]@)
    &&& forall|k: ChangeId|
        #![trigger m.contains_key(k)]
        m.contains_key(k) ==> exists|i: int| #![trigger v[i]] 0 <= i < v.len() && v[i]@ == m[k]
}

/// Durable storage for the changes and the snapshot of one document.
///
/// Changes are keyed by actor and sequence number. Each operation returns only once what it wrote
/// is durable; an `Err` reports a failure of the storage itself.
pub trait Persister: Sized {
    /// The error that the storage reports.
    type Error;

    /// The invariant of the implementation.
    ///
    /// An implementation that does not state its model keeps this default: it is never well
    /// formed, so verified code cannot call it, and no proof rests on what it does.
    open spec fn well_formed(&self) -> bool {
        false
    }

    /// The stored changes.
    open spec fn stored_changes(&self) -> ChangeMap {
        Map::empty()
    }

    /// The stored snapshot, if any.
    open spec fn stored_document(&self) -> Option<Seq<u8>> {
        None
    }

    /// Returns the bytes of every stored change, in no particular order.
    fn get_changes(&self) -> (r: Result<Vec<Vec<u8>>, Self::Error>)
        requires
            self.well_formed(),
        ensures
            r matches Ok(v) ==> blobs_of(v@, self.stored_changes()),
    ;

    /// Stores the bytes of each record under its identity, replacing what was there.
    fn insert_changes(&mut self, changes: Vec<ChangeRecord>) -> (r: Result<
        (),
        Self::Error,
    >)
        requires
            old(self).well_formed(),
        ensures
            final(self).well_formed(),
            final(self).stored_document() == old(self).stored_document(),
            r is Ok ==> final(self).stored_changes() == insert_entries(
                old(self).stored_changes(),
                changes@,
            ),
    ;

    /// Removes the change of each identity `(actor, seq)`; one that is not stored is no error.
    fn remove_changes(&mut self, changes: Vec<(Vec<u8>, u64)>) -> (r: Result<(), Self::Error>)
        requires
            old(self).well_formed(),
        ensures
            final(self).well_formed(),
            final(self).stored_document() == old(self).stored_document(),
            final(self).stored_changes().submap_of(old(self).stored_changes()),
            r is Ok ==> final(self).stored_changes() == remove_ids(
                old(self).stored_changes(),
                changes@,
            ),
    ;

    /// Returns the stored snapshot, or `None` where none was ever stored.
    fn get_document(&self) -> (r: Result<Option<Vec<u8>>, Self::Error>)
        requires
            self.well_formed(),
        ensures
            r matches Ok(d) ==> bytes_opt(d) == self.stored_document(),
    ;

    /// Stores `data` as the snapshot, replacing the previous one.
    fn set_document(&mut self, data: Vec<u8>) -> (r: Result<(), Self::Error>)
        requires
            old(self).well_formed(),
        ensures
            final(self).well_formed(),
            final(self).stored_changes() == old(self).stored_changes(),
            r is Ok ==> final(self).stored_document() == Some(data@),
    ;
}

/// One of `ids` names the identity `k`.
pub open spec fn names(ids: Seq<(Vec<u8>, u64)>, k: ChangeId) -> bool {
    exists|j: int| 0 <= j < ids.len() && #[trigger] id_of(ids[j]) == k
}

/// What `remove_ids` leaves: the changes of `m` whose identity is not among `ids`.
pub proof fn lemma_remove_ids_contents(m: ChangeMap, ids: Seq<(Vec<u8>, u64)>)
    ensures
        forall|k: ChangeId| #[trigger]
            remove_ids(m, ids).contains_key(k) <==> m.contains_key(k) && !names(ids, k),
        forall|k: ChangeId| #[trigger]
            remove_ids(m, ids).contains_key(k) ==> remove_ids(m, ids)[k] == m[k],
    decreases ids.len(),
{
    if ids.len() > 0 {
        let rest = ids.drop_last();
        lemma_remove_ids_contents(m, rest);
        let prev = remove_ids(m, rest);
        assert forall|k: ChangeId| names(ids, k) <==> names(rest, k) || k == id_of(ids.last()) by {
            if names(ids, k) {
                let j = choose|j: int| 0 <= j < ids.len() && #[trigger] id_of(ids[j]) == k;
                if j < rest.len() {
                    assert(id_of(rest[j]) == k);
                }
            }
            if names(rest, k) {
                let j = choose|j: int| 0 <= j < rest.len() && #[trigger] id_of(rest[j]) == k;
                assert(id_of(ids[j]) == k);
            }
            if k == id_of(ids.last()) {
                assert(id_of(ids[ids.len() - 1]) == k);
            }
        }
        assert forall|k: ChangeId| #[trigger] remove_ids(m, ids).contains_key(k) implies remove_ids(
            m,
            ids,
        )[k] == m[k] by {
            assert(prev.contains_key(k));
        }
    }
}

/// Removing the same identities a second time changes nothing.
pub proof fn lemma_remove_ids_idempotent(m: ChangeMap, ids: Seq<(Vec<u8>, u64)>)
    ensures
        remove_ids(remove_ids(m, ids), ids) == remove_ids(m, ids),
{
    let once = remove_ids(m, ids);
    lemma_remove_ids_contents(m, ids);
    lemma_remove_ids_contents(once, ids);
    assert(remove_ids(once, ids) =~= once);
}

/// A compaction interrupted after it stored its snapshot and before it removed the changes
/// `ids` leaves every change that the completed compaction would keep, with the same bytes; the
/// changes beyond those are all among `ids`, the ones the snapshot covers.
pub proof fn lemma_interrupted_compaction(m: ChangeMap, ids: Seq<(Vec<u8>, u64)>)
    ensures
        remove_ids(m, ids).submap_of(m),
        forall|k: ChangeId|
            m.contains_key(k) && !(#[trigger] remove_ids(m, ids).contains_key(k)) ==> names(ids, k),
{
    lemma_remove_ids_contents(m, ids);
}

/// Removing `ids` again after a removal of `ids` that stopped partway, after its first `j`
/// identities, gives the same store as one removal that ran to its end.
pub proof fn lemma_retried_removal(m: ChangeMap, ids: Seq<(Vec<u8>, u64)>, j: int)
    requires
        0 <= j <= ids.len(),
    ensures
        remove_ids(remove_ids(m, ids.subrange(0, j)), ids) == remove_ids(m, ids),
{
    let part = ids.subrange(0, j);
    let mid = remove_ids(m, part);
    lemma_remove_ids_contents(m, part);
    lemma_remove_ids_contents(mid, ids);
    lemma_remove_ids_contents(m, ids);
    assert forall|k: ChangeId| names(part, k) implies names(ids, k) by {
        let i = choose|i: int| 0 <= i < part.len() && #[trigger] id_of(part[i]) == k;
        assert(id_of(ids[i]) == k);
    }
    assert(remove_ids(mid, ids) =~= remove_ids(m, ids));
}

/// The distinct byte strings among the blobs `v`.
pub open spec fn blob_set(v: Seq<Vec<u8>>) -> Set<Seq<u8>> {
    Set::new(|s: Seq<u8>| exists|i: int| 0 <= i < v.len() && #[trigger] v[i]@ == s)
}

/// The encoded changes of the records `rs`.
pub open spec fn raws_of(rs: Seq<ChangeRecord>) -> Set<Seq<u8>> {
    Set::new(|s: Seq<u8>| exists|i: int| 0 <= i < rs.len() && #[trigger] rs[i].raw@ == s)
}

/// Blobs that are the stored changes of `m` hold exactly the bytes stored in `m`.
pub proof fn lemma_blob_set(v: Seq<Vec<u8>>, m: ChangeMap)
    requires
        blobs_of(v, m),
    ensures
        blob_set(v) == m.values(),
{
    assert forall|s: Seq<u8>| blob_set(v).contains(s) <==> m.values().contains(s) by {
        if blob_set(v).contains(s) {
            let i = choose|i: int| 0 <= i < v.len() && #[trigger] v[i]@ == s;
            assert(m.values().contains(v[i]@));
        }
        if m.values().contains(s) {
            let k = choose|k: ChangeId| #[trigger] m.contains_key(k) && m[k] == s;
            assert(m.contains_key(k));
            let i = choose|i: int| #![trigger v[i]] 0 <= i < v.len() && v[i]@ == m[k];
            assert(v[i]@ == s);
        }
    }
    assert(blob_set(v) =~= m.values());
}

/// Writing a single record stores its bytes under its identity.
pub proof fn lemma_insert_single(m: ChangeMap, es: Seq<ChangeRecord>)
    requires
        es.len() == 1,
    ensures
        insert_entries(m, es) == m.insert(entry_id(es[0]), es[0].raw@),
{
    assert(es.drop_last().len() == 0);
    assert(insert_entries(m, es.drop_last()) == m);
}

} // verus!
