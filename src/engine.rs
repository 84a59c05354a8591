//! The calls into the automerge document engine that the backend makes.
use vstd::prelude::*;
use automerge::{Automerge, AutomergeError, Change, ChangeHash, Patch, ReadDoc};
use crate::persister::ChangeRecord;
use automerge::patches::TextRepresentation;

verus! {

#[verifier::external_type_specification]
#[verifier::external_body]
pub struct ExAutomerge(Automerge);

#[verifier::external_type_specification]
#[verifier::external_body]
pub struct ExChange(Change);

#[verifier::external_type_specification]
#[verifier::external_body]
pub struct ExChangeHash(ChangeHash);

#[verifier::external_type_specification]
#[verifier::external_body]
pub struct ExAutomergeError(AutomergeError);

#[verifier::external_type_specification]
#[verifier::external_body]
pub struct ExPatch(Patch);

/// Relies on `Automerge::new`: an empty document with a fresh actor.
#[verifier::external_body]
pub(crate) fn engine_init() -> Automerge {
    Automerge::new()
}

/// Relies on `Automerge::load`: rebuilds a document from a saved snapshot, or reports why the
/// bytes are no snapshot.
#[verifier::external_body]
pub(crate) fn engine_load(data: &[u8]) -> Result<Automerge, AutomergeError> {
    Automerge::load(data)
}

/// Whether the bytes are a well-formed encoded change.
pub uninterp spec fn change_decodes(raw: Seq<u8>) -> bool;

/// Relies on `Change::from_bytes`: decodes one encoded change, which succeeds or fails on the
/// bytes alone; its error is carried as the engine's error through `From`.
#[verifier::external_body]
pub(crate) fn decode_change(bytes: &[u8]) -> (r: Result<Change, AutomergeError>)
    ensures
        r is Ok <==> change_decodes(bytes@),
{
    Change::from_bytes(bytes.to_vec()).map_err(AutomergeError::from)
}

/// Relies on `Automerge::apply_changes`: merges a batch of changes into the document.
#[verifier::external_body]
pub(crate) fn engine_apply(doc: &mut Automerge, changes: Vec<Change>) -> Result<(), AutomergeError> {
    doc.apply_changes(changes)
}

/// Relies on `Automerge::save`: the snapshot of the whole document.
#[verifier::external_body]
pub(crate) fn engine_save(doc: &Automerge) -> Vec<u8> {
    doc.save()
}

/// Relies on `Automerge::get_changes`: the changes that are not among `have_deps` or their
/// ancestors; with no hashes, every change of the document.
#[verifier::external_body]
pub(crate) fn engine_changes<'a>(doc: &'a Automerge, have_deps: &[ChangeHash]) -> Vec<&'a Change> {
    doc.get_changes(have_deps)
}

/// Relies on `Automerge::get_heads`: the hashes of the changes that no other change depends on.
#[verifier::external_body]
pub(crate) fn engine_heads(doc: &Automerge) -> Vec<ChangeHash> {
    doc.get_heads()
}

/// Relies on `ReadDoc::get_missing_deps`: the hashes that queued changes depend on and that the
/// document lacks.
#[verifier::external_body]
pub(crate) fn engine_missing_deps(doc: &Automerge) -> Vec<ChangeHash> {
    doc.get_missing_deps(&[])
}

/// Relies on `Automerge::diff`: the patches that take a document from the state at `before` to
/// the state at `after`.
#[verifier::external_body]
pub(crate) fn engine_diff(doc: &Automerge, before: &[ChangeHash], after: &[ChangeHash]) -> Vec<Patch> {
    doc.diff(before, after, TextRepresentation::default())
}

/// The actor that an encoded change names.
pub uninterp spec fn change_actor_of(raw: Seq<u8>) -> Seq<u8>;

/// The sequence number that an encoded change carries.
pub uninterp spec fn change_seq_of(raw: Seq<u8>) -> u64;

/// Relies on `Change::actor_id` with `ActorId::to_bytes`, `Change::seq` and `Change::raw_bytes`:
/// the change as plain values. Actor and sequence number are read from the encoded change, so
/// they are functions of its bytes.
#[verifier::external_body]
pub(crate) fn change_record(c: &Change) -> (r: ChangeRecord)
    ensures
        r.actor@ == change_actor_of(r.raw@),
        r.seq == change_seq_of(r.raw@),
{
    ChangeRecord { actor: c.actor_id().to_bytes().to_vec(), seq: c.seq(), raw: c.raw_bytes().to_vec() }
}

} // verus!
