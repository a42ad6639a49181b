//! The shared document of `yrs`, as far as the protocol touches it: each access
//! opens a transaction and makes one call in it.

use crate::state_vector::clocks;
use vstd::prelude::*;
use yrs::doc::TransactionAcqError as YrsAcqError;
use yrs::{Doc, ReadTxn, StateVector, Transact, Update};

verus! {

/// The document of `yrs`: a handle to a store that other handles may share.
#[verifier::external_type_specification]
#[verifier::external_body]
pub struct ExDoc(Doc);

/// A decoded document update of `yrs`.
#[verifier::external_type_specification]
#[verifier::external_body]
pub struct ExUpdate(Update);

/// `id` can come out of the document as its client id. A document that is put into
/// another one, through any of its handles, takes over the client id of that one.
pub uninterp spec fn is_client_id(doc: Doc, id: u64) -> bool;

/// `sv` can come out of the document as its state vector. What a document holds
/// changes behind shared handles, so there may be more than one.
pub uninterp spec fn is_state_vector(doc: Doc, sv: Map<u64, u32>) -> bool;

/// `bytes` can come out of the document as the update for a peer whose state
/// vector is `sv`.
pub uninterp spec fn is_update_since(doc: Doc, sv: Map<u64, u32>, bytes: Seq<u8>) -> bool;

/// The document can be encoded as an update for a peer whose state vector is `sv`:
/// there are bytes that come of it.
pub open spec fn is_encodable(doc: Doc, sv: Map<u64, u32>) -> bool {
    exists|bytes: Seq<u8>| #[trigger] is_update_since(doc, sv, bytes)
}

/// `after` is the document `before`, once `update` was applied to it.
pub uninterp spec fn is_doc_after(before: Doc, update: Update, after: Doc) -> bool;

/// `update` can be applied to the document: there is a document that comes of it.
pub open spec fn is_applicable(doc: Doc, update: Update) -> bool {
    exists|after: Doc| #[trigger] is_doc_after(doc, update, after)
}

/// Why a document could not be accessed.
#[derive(Debug, Clone, Copy, PartialEq, Eq)]
pub enum TransactionAcqError {
    /// A transaction that writes is under way.
    SharedAcqFailed,
    /// Another transaction is under way.
    ExclusiveAcqFailed,
    /// The document is gone.
    DocumentDropped,
}

/// Wraps `Doc::new`: an empty document with a random client id.
#[verifier::external_body]
pub(crate) fn new_doc() -> Doc {
    Doc::new()
}

/// Wraps `Doc::client_id`: the client id of this document.
#[verifier::external_body]
pub(crate) fn client_id(doc: &Doc) -> (id: u64)
    ensures
        is_client_id(*doc, id),
{
    doc.client_id()
}

/// Wraps `ReadTxn::state_vector`, in a transaction of its own: the state vector of
/// this document. Whether the transaction can be had depends on the other users
/// of the document; it fails in one way only.
#[verifier::external_body]
pub(crate) fn state_vector(doc: &Doc) -> (sv: Result<StateVector, TransactionAcqError>)
    ensures
        sv matches Ok(sv) ==> is_state_vector(*doc, clocks(sv)),
        sv matches Err(e) ==> e == TransactionAcqError::SharedAcqFailed,
{
    match doc.try_transact() {
        Ok(txn) => Ok(txn.state_vector()),
        Err(YrsAcqError::SharedAcqFailed) => Err(TransactionAcqError::SharedAcqFailed),
        Err(YrsAcqError::ExclusiveAcqFailed) => Err(TransactionAcqError::ExclusiveAcqFailed),
        Err(YrsAcqError::DocumentDropped) => Err(TransactionAcqError::DocumentDropped),
    }
}

/// Wraps `ReadTxn::encode_state_as_update_v1`, in a transaction of its own: what
/// this document holds beyond `sv`. Nothing is said of the bytes but whose they
/// are, since their order follows the walk of hash maps.
///
/// Where a document keeps insertions or deletions that still wait for an earlier
/// update, `yrs` encodes these too, decodes all of it again to merge it, and panics
/// where that fails. It fails for content of the kind JSON, of which one
/// string more is read than was written, and for embedded and formatting values
/// that are nested deeper than its JSON parser goes. There is no test for such a
/// document: whoever asks for the update trusts the peers that filled it.
#[verifier::external_body]
pub(crate) fn encode_state_as_update(doc: &Doc, sv: &StateVector) -> (update: Result<
    Vec<u8>,
    TransactionAcqError,
>)
    requires
        is_encodable(*doc, clocks(*sv)),
    ensures
        update matches Ok(bytes) ==> is_update_since(*doc, clocks(*sv), bytes@),
        update matches Err(e) ==> e == TransactionAcqError::SharedAcqFailed,
{
    match doc.try_transact() {
        Ok(txn) => Ok(txn.encode_state_as_update_v1(sv)),
        Err(YrsAcqError::SharedAcqFailed) => Err(TransactionAcqError::SharedAcqFailed),
        Err(YrsAcqError::ExclusiveAcqFailed) => Err(TransactionAcqError::ExclusiveAcqFailed),
        Err(YrsAcqError::DocumentDropped) => Err(TransactionAcqError::DocumentDropped),
    }
}

/// Wraps `TransactionMut::apply_update`, in a transaction of its own, which is
/// committed on return: hands `update` to this document. Where the transaction
/// cannot be had, the document is left as it was.
///
/// `yrs` panics on an update that cannot be applied, such as one that puts an item
/// into another item that is no shared type. No peer makes such an update by
/// editing a document, and there is no test for it: whoever hands an update in
/// trusts the peer that it came from.
#[verifier::external_body]
pub(crate) fn apply_update(doc: &mut Doc, update: Update) -> (done: Result<
    (),
    TransactionAcqError,
>)
    requires
        is_applicable(*old(doc), update),
    ensures
        done is Ok ==> is_doc_after(*old(doc), update, *final(doc)),
        done matches Err(e) ==> e == TransactionAcqError::ExclusiveAcqFailed && *final(doc)
            == *old(doc),
{
    match doc.try_transact_mut() {
        Ok(mut txn) => Ok(txn.apply_update(update)),
        Err(YrsAcqError::SharedAcqFailed) => Err(TransactionAcqError::SharedAcqFailed),
        Err(YrsAcqError::ExclusiveAcqFailed) => Err(TransactionAcqError::ExclusiveAcqFailed),
        Err(YrsAcqError::DocumentDropped) => Err(TransactionAcqError::DocumentDropped),
    }
}

/// `outcome` is what a call of [state_vector] on this document came back with. Only
/// the call itself can tell.
pub closed spec fn gave_state_vector(
    doc: Doc,
    outcome: Result<StateVector, TransactionAcqError>,
) -> bool {
    call_ensures(state_vector, (&doc,), outcome)
}

/// `outcome` is what a call of [encode_state_as_update] on this document, for a peer
/// with this state vector, came back with. Only the call itself can tell.
pub closed spec fn gave_update(
    doc: Doc,
    sv: StateVector,
    outcome: Result<Vec<u8>, TransactionAcqError>,
) -> bool {
    call_ensures(encode_state_as_update, (&doc, &sv), outcome)
}

/// `outcome` is what a call of [apply_update] on this document, with this update,
/// came back with. Only the call itself can tell.
pub closed spec fn gave_done(
    doc: Doc,
    update: Update,
    outcome: Result<(), TransactionAcqError>,
) -> bool {
    exists|d: &mut Doc| #[trigger] call_ensures(apply_update, (d, update), outcome) && *d == doc
}

/// An outcome of [state_vector] is one exactly where a call came back with it, and
/// it is either a state vector of the document or a failure to read it.
pub(crate) proof fn law_gave_state_vector(
    doc: Doc,
    outcome: Result<StateVector, TransactionAcqError>,
)
    ensures
        gave_state_vector(doc, outcome) <==> call_ensures(state_vector, (&doc,), outcome),
        gave_state_vector(doc, outcome) ==> match outcome {
            Ok(sv) => is_state_vector(doc, clocks(sv)),
            Err(e) => e == TransactionAcqError::SharedAcqFailed,
        },
{
}

/// An outcome of [encode_state_as_update] is one exactly where a call came back with
/// it, and it is either an update for the peer or a failure to read the document.
pub(crate) proof fn law_gave_update(
    doc: Doc,
    sv: StateVector,
    outcome: Result<Vec<u8>, TransactionAcqError>,
)
    ensures
        gave_update(doc, sv, outcome) <==> call_ensures(
            encode_state_as_update,
            (&doc, &sv),
            outcome,
        ),
        gave_update(doc, sv, outcome) ==> match outcome {
            Ok(bytes) => is_update_since(doc, clocks(sv), bytes@),
            Err(e) => e == TransactionAcqError::SharedAcqFailed,
        },
{
}

/// An outcome of [apply_update] is one exactly where a call on this document came back
/// with it.
pub(crate) proof fn law_gave_done(
    doc: Doc,
    update: Update,
    outcome: Result<(), TransactionAcqError>,
)
    ensures
        gave_done(doc, update, outcome) <==> exists|d: &mut Doc| #[trigger]
            call_ensures(apply_update, (d, update), outcome) && *d == doc,
        gave_done(doc, update, outcome) ==> (outcome matches Err(e) ==> e
            == TransactionAcqError::ExclusiveAcqFailed),
{
}

/// A document of which an update came out for a state vector can be encoded for it.
pub proof fn law_encodable(doc: Doc, sv: Map<u64, u32>, bytes: Seq<u8>)
    requires
        is_update_since(doc, sv, bytes),
    ensures
        is_encodable(doc, sv),
{
}

/// An update of which a document came can be applied.
pub proof fn law_applicable(before: Doc, update: Update, after: Doc)
    requires
        is_doc_after(before, update, after),
    ensures
        is_applicable(before, update),
{
}

} // verus!
