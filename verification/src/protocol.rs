//! The protocol: what a peer does when a connection opens and when a message comes
//! in.

use crate::awareness::{is_after_update, lemma_same_map, merged, Awareness, AwarenessView};
use crate::awareness_update::AwarenessUpdate;
use crate::document::{
    apply_update, encode_state_as_update, gave_done, gave_state_vector, gave_update, is_applicable,
    is_client_id, is_doc_after, is_encodable, is_state_vector, is_update_since, law_gave_done,
    law_gave_state_vector, law_gave_update, state_vector, TransactionAcqError,
};
use crate::encoding::{written, ReadError};
use crate::message::{encodes, Message, MessageView, SyncMessage, SyncMessageView};
use crate::reader::{all_read, law_packed};
use crate::round_trip::{fits, law_short_fits};
use crate::state_vector::clocks;
use vstd::prelude::*;
use vstd::std_specs::convert::FromSpec;
use yrs::updates::encoder::EncoderV1;
use yrs::{StateVector, Update};

verus! {

/// What is behind an [Error::Other].
#[derive(Debug)]
pub enum Cause {
    /// The document could not be accessed.
    Transaction(TransactionAcqError),
    /// A failure of the layers around the protocol, in words.
    Message(String),
}

/// An error in response to a message.
#[derive(Debug)]
pub enum Error {
    /// A message could not be decoded.
    EncodingError(ReadError),
    /// An awareness update could not be made or applied.
    AwarenessEncoding(crate::awareness::Error),
    /// Access was denied.
    PermissionDenied { reason: String },
    /// A message came with a tag that has no meaning here.
    Unsupported(u8),
    /// A lock was poisoned.
    PoisonedLock,
    /// There is no next client id.
    NoNextClientId,
    /// Any other failure.
    Other(Cause),
}

impl From<ReadError> for Error {
    fn from(e: ReadError) -> (error: Error) {
        Error::EncodingError(e)
    }
}

impl vstd::std_specs::convert::FromSpecImpl<ReadError> for Error {
    open spec fn obeys_from_spec() -> bool {
        true
    }

    open spec fn from_spec(e: ReadError) -> Error {
        Error::EncodingError(e)
    }
}

impl From<crate::awareness::Error> for Error {
    fn from(e: crate::awareness::Error) -> (error: Error) {
        Error::AwarenessEncoding(e)
    }
}

impl vstd::std_specs::convert::FromSpecImpl<crate::awareness::Error> for Error {
    open spec fn obeys_from_spec() -> bool {
        true
    }

    open spec fn from_spec(e: crate::awareness::Error) -> Error {
        Error::AwarenessEncoding(e)
    }
}

impl From<Cause> for Error {
    fn from(cause: Cause) -> (error: Error) {
        Error::Other(cause)
    }
}

impl vstd::std_specs::convert::FromSpecImpl<Cause> for Error {
    open spec fn obeys_from_spec() -> bool {
        true
    }

    open spec fn from_spec(cause: Cause) -> Error {
        Error::Other(cause)
    }
}

/// `after` is `before` with the two opening messages behind it: the state vector
/// `sv`, and the states of all clients.
pub open spec fn opened(
    awareness: AwarenessView,
    sv: Map<u64, u32>,
    before: Seq<u8>,
    after: Seq<u8>,
) -> bool {
    exists|first: Seq<u8>, second: Seq<u8>|
        {
            &&& #[trigger] encodes(MessageView::Sync(SyncMessageView::SyncStep1(sv)), first)
            &&& #[trigger] encodes(MessageView::Awareness(awareness.entries()), second)
            &&& after == before + first + second
        }
}

/// The error where a client has a state without a clock.
pub open spec fn is_client_not_found(awareness: AwarenessView, e: Error) -> bool {
    e matches Error::AwarenessEncoding(crate::awareness::Error::ClientNotFound(c))
        && awareness.states.contains_key(c) && !awareness.clocks.contains_key(c)
}

/// Opens a connection, once the document was asked for its state vector: appends
/// the state vector, and then the states of all clients, each as a message.
pub fn open_with(
    sv: Result<StateVector, TransactionAcqError>,
    awareness: &Awareness,
    encoder: &mut EncoderV1,
) -> (done: Result<(), Error>)
    ensures
        match sv {
            Ok(sv) => if awareness@.wf() {
                done is Ok && opened(
                    awareness@,
                    clocks(sv),
                    written(*old(encoder)),
                    written(*final(encoder)),
                )
            } else {
                (done matches Err(e) && is_client_not_found(awareness@, e)) && *final(encoder)
                    == *old(encoder)
            },
            Err(e) => done == Err::<(), Error>(Error::Other(Cause::Transaction(e)))
                && *final(encoder) == *old(encoder),
        },
{
    match sv {
        Ok(sv) => match awareness.update() {
            Ok(update) => {
                let ghost m1 = MessageView::Sync(SyncMessageView::SyncStep1(clocks(sv)));
                let ghost m2 = MessageView::Awareness(awareness@.entries());
                Message::Sync(SyncMessage::SyncStep1(sv)).encode(encoder);
                let ghost middle = written(*encoder);
                let ghost first = choose|bytes: Seq<u8>| #[trigger]
                    encodes(m1, bytes) && middle == written(*old(encoder)) + bytes;
                Message::Awareness(update).encode(encoder);
                let ghost second = choose|bytes: Seq<u8>| #[trigger]
                    encodes(m2, bytes) && written(*encoder) == middle + bytes;
                assert(encodes(m1, first) && encodes(m2, second));
                Ok(())
            },
            Err(e) => Err(Error::AwarenessEncoding(e)),
        },
        Err(e) => Err(Error::Other(Cause::Transaction(e))),
    }
}

/// The answer to a state vector, once the document was asked for what the peer is
/// missing.
pub fn sync_step2_reply(update: Result<Vec<u8>, TransactionAcqError>) -> (reply: Result<
    Option<Message>,
    Error,
>)
    ensures
        reply == match update {
            Ok(update) => Ok::<_, Error>(Some(Message::Sync(SyncMessage::SyncStep2(update)))),
            Err(e) => Err(Error::Other(Cause::Transaction(e))),
        },
{
    match update {
        Ok(update) => Ok(Some(Message::Sync(SyncMessage::SyncStep2(update)))),
        Err(e) => Err(Error::Other(Cause::Transaction(e))),
    }
}

/// The answer to an update, once it was handed to the document: none.
pub fn applied_reply(done: Result<(), TransactionAcqError>) -> (reply: Result<
    Option<Message>,
    Error,
>)
    ensures
        reply == match done {
            Ok(_) => Ok::<Option<Message>, Error>(None),
            Err(e) => Err(Error::Other(Cause::Transaction(e))),
        },
{
    match done {
        Ok(_) => Ok(None),
        Err(e) => Err(Error::Other(Cause::Transaction(e))),
    }
}

/// What holds once an update was handed to the document: it was applied, and there
/// is no answer, or else another transaction stood in the way, and nothing
/// changed. Of the awareness, only the document can change.
pub open spec fn is_applied(
    before: AwarenessView,
    update: Update,
    after: AwarenessView,
    reply: Result<Option<Message>, Error>,
) -> bool {
    &&& match reply {
        Ok(msg) => msg is None && is_doc_after(before.doc, update, after.doc),
        Err(e) => e == Error::Other(Cause::Transaction(TransactionAcqError::ExclusiveAcqFailed))
            && after.doc == before.doc,
    }
    &&& after == (AwarenessView { doc: after.doc, ..before })
}

/// The steps of the protocol. Each has a body here, which [DefaultProtocol] takes
/// over; other implementations may change any of them.
pub trait Protocol {
    /// To be called whenever a connection was accepted. Appends the messages to be
    /// sent to the initiator, one after the other: the state vector of the document,
    /// and the states of all clients.
    fn start(&self, awareness: &Awareness, encoder: &mut EncoderV1) -> (done: Result<(), Error>)
        default_ensures
            match done {
                Ok(_) => awareness@.wf() && exists|sv: Map<u64, u32>| #[trigger]
                    is_state_vector(awareness@.doc, sv) && opened(
                        awareness@,
                        sv,
                        written(*old(encoder)),
                        written(*final(encoder)),
                    ),
                Err(e) => {
                    &&& e == Error::Other(Cause::Transaction(TransactionAcqError::SharedAcqFailed))
                        || is_client_not_found(awareness@, e)
                    &&& *final(encoder) == *old(encoder)
                },
            },
            exists|sv: Result<StateVector, TransactionAcqError>|
                #![trigger gave_state_vector(awareness@.doc, sv)]
                gave_state_vector(awareness@.doc, sv) && match sv {
                    Ok(sv) => if awareness@.wf() {
                        done is Ok && opened(
                            awareness@,
                            clocks(sv),
                            written(*old(encoder)),
                            written(*final(encoder)),
                        )
                    } else {
                        done matches Err(e) && is_client_not_found(awareness@, e)
                    },
                    Err(e) => done == Err::<(), Error>(Error::Other(Cause::Transaction(e))),
                },
    {
        let sv = state_vector(awareness.doc());
        proof {
            law_gave_state_vector(awareness@.doc, sv);
        }
        open_with(sv, awareness, encoder)
    }

    /// Answers the state vector of a peer with an update that holds what the peer is
    /// missing. That the document can be encoded is the caller's trust in the peers
    /// that filled it. Left out are documents that keep changes waiting for an earlier
    /// update, and in these or elsewhere hold what does not decode again: content of
    /// the kind JSON, or embedded or formatting values that are nested too deep.
    fn handle_sync_step1(&self, awareness: &Awareness, sv: StateVector) -> (reply: Result<
        Option<Message>,
        Error,
    >)
        requires
            is_encodable(awareness@.doc, clocks(sv)),
        default_ensures
            match reply {
                Ok(msg) => msg matches Some(Message::Sync(SyncMessage::SyncStep2(update)))
                    && is_update_since(awareness@.doc, clocks(sv), update@),
                Err(e) => e == Error::Other(
                    Cause::Transaction(TransactionAcqError::SharedAcqFailed),
                ),
            },
            exists|update: Result<Vec<u8>, TransactionAcqError>|
                #![trigger gave_update(awareness@.doc, sv, update)]
                gave_update(awareness@.doc, sv, update) && reply == match update {
                    Ok(update) => Ok::<_, Error>(
                        Some(Message::Sync(SyncMessage::SyncStep2(update))),
                    ),
                    Err(e) => Err(Error::Other(Cause::Transaction(e))),
                },
    {
        let update = encode_state_as_update(awareness.doc(), &sv);
        proof {
            law_gave_update(awareness@.doc, sv, update);
        }
        sync_step2_reply(update)
    }

    /// Takes the answer to a state vector that was sent from here: applies the update
    /// to the document. That it can be applied there is the caller's trust in the
    /// peer.
    fn handle_sync_step2(&self, awareness: &mut Awareness, update: Update) -> (reply: Result<
        Option<Message>,
        Error,
    >)
        requires
            is_applicable(old(awareness)@.doc, update),
        default_ensures
            is_applied(old(awareness)@, update, final(awareness)@, reply),
            reply is Ok ==> is_doc_after(old(awareness)@.doc, update, final(awareness)@.doc),
            reply is Err ==> final(awareness)@.doc == old(awareness)@.doc,
            final(awareness)@.states == old(awareness)@.states,
            final(awareness)@.clocks == old(awareness)@.clocks,
            exists|done: Result<(), TransactionAcqError>|
                #![trigger gave_done(old(awareness)@.doc, update, done)]
                gave_done(old(awareness)@.doc, update, done) && reply == match done {
                    Ok(_) => Ok::<Option<Message>, Error>(None),
                    Err(e) => Err(Error::Other(Cause::Transaction(e))),
                },
    {
        let done = apply_update(awareness.doc_mut(), update);
        proof {
            law_gave_done(old(awareness)@.doc, update, done);
        }
        applied_reply(done)
    }

    /// Takes an update that a peer sends as its document changes: handled like the
    /// answer to a state vector, with what comes of [Protocol::handle_sync_step2] in
    /// the implementation at hand. That it can be applied to the document is the
    /// caller's trust in the peer.
    fn handle_update(&self, awareness: &mut Awareness, update: Update) -> (reply: Result<
        Option<Message>,
        Error,
    >)
        requires
            is_applicable(old(awareness)@.doc, update),
        default_ensures
            exists|a: &mut Awareness| #[trigger]
                call_ensures(Self::handle_sync_step2, (self, a, update), reply) && *a
                    == *old(awareness) && *final(a) == *final(awareness),
    {
        self.handle_sync_step2(awareness, update)
    }

    /// Takes an authorization message: an error, where access was denied.
    fn handle_auth(&self, _awareness: &Awareness, deny_reason: Option<String>) -> (reply: Result<
        Option<Message>,
        Error,
    >)
        default_ensures
            reply == match deny_reason {
                Some(reason) => Err::<Option<Message>, Error>(Error::PermissionDenied { reason }),
                None => Ok(None),
            },
    {
        if let Some(reason) = deny_reason {
            Err(Error::PermissionDenied { reason })
        } else {
            Ok(None)
        }
    }

    /// Answers the query for the states of all clients.
    fn handle_awareness_query(&self, awareness: &Awareness) -> (reply: Result<
        Option<Message>,
        Error,
    >)
        default_ensures
            reply is Ok <==> awareness@.wf(),
            match reply {
                Ok(msg) => msg matches Some(Message::Awareness(update)) && update@
                    == awareness@.entries(),
                Err(e) => is_client_not_found(awareness@, e),
            },
    {
        match awareness.update() {
            Ok(update) => Ok(Some(Message::Awareness(update))),
            Err(e) => Err(Error::AwarenessEncoding(e)),
        }
    }

    /// Takes states of clients, asked for or not, and merges them into what is known
    /// here.
    fn handle_awareness_update(&self, awareness: &mut Awareness, update: AwarenessUpdate) -> (reply:
        Result<Option<Message>, Error>)
        default_ensures
            reply == Ok::<Option<Message>, Error>(None),
            exists|local: u64| #[trigger]
                is_client_id(old(awareness)@.doc, local) && is_after_update(
                    old(awareness)@,
                    local,
                    update@,
                    final(awareness)@,
                ),
            old(awareness)@.wf() ==> final(awareness)@.wf(),
    {
        match awareness.apply_update(update) {
            Ok(_) => Ok(None),
            Err(e) => Err(Error::AwarenessEncoding(e)),
        }
    }

    /// Takes a message with a tag that the protocol gives no meaning to. There is
    /// nothing to do with it here.
    fn missing_handle(&self, _awareness: &mut Awareness, tag: u8, _data: Vec<u8>) -> (reply: Result<
        Option<Message>,
        Error,
    >)
        default_ensures
            reply == Err::<Option<Message>, Error>(Error::Unsupported(tag)),
            *final(_awareness) == *old(_awareness),
    {
        Err(Error::Unsupported(tag))
    }
}

/// The protocol as it is.
pub struct DefaultProtocol;

impl Protocol for DefaultProtocol {}

/// What is sent when a connection opens comes out of the peer's reader as two
/// messages and no more: the state vector, and then the states of all clients.
pub proof fn law_opening_is_read(
    awareness: AwarenessView,
    sv: Map<u64, u32>,
    first: Seq<u8>,
    second: Seq<u8>,
)
    requires
        encodes(MessageView::Sync(SyncMessageView::SyncStep1(sv)), first),
        fits(MessageView::Sync(SyncMessageView::SyncStep1(sv)), first),
        encodes(MessageView::Awareness(awareness.entries()), second),
        fits(MessageView::Awareness(awareness.entries()), second),
    ensures
        opened(awareness, sv, Seq::empty(), first + second),
        all_read(first + second) == seq![
            Ok::<MessageView, ReadError>(MessageView::Sync(SyncMessageView::SyncStep1(sv))),
            Ok::<MessageView, ReadError>(MessageView::Awareness(awareness.entries())),
        ],
{
    let m1 = MessageView::Sync(SyncMessageView::SyncStep1(sv));
    let m2 = MessageView::Awareness(awareness.entries());
    let parts = seq![first, second];
    let msgs = seq![m1, m2];
    assert(Seq::<u8>::empty() + first + second =~= first + second);
    assert(parts.flatten() =~= first + second) by {
        assert(parts.drop_first() =~= seq![second]);
        assert(parts.drop_first().drop_first() =~= Seq::empty());
        reveal_with_fuel(Seq::flatten, 3);
    }
    law_packed(msgs, parts);
    assert(msgs.map_values(|m: MessageView| Ok::<MessageView, ReadError>(m)) =~= seq![
        Ok::<MessageView, ReadError>(m1),
        Ok::<MessageView, ReadError>(m2),
    ]);
}

/// A state vector is answered with an error only where the document could not be read:
/// the answer is decided by what the document gave, and by nothing that is known of the
/// clients.
pub proof fn law_answer_follows_the_document(
    protocol: DefaultProtocol,
    awareness: Awareness,
    sv: StateVector,
    reply: Result<Option<Message>, Error>,
)
    requires
        call_ensures(DefaultProtocol::handle_sync_step1, (&protocol, &awareness, sv), reply),
    ensures
        reply matches Ok(msg) ==> (msg matches Some(Message::Sync(SyncMessage::SyncStep2(update)))
            && gave_update(awareness@.doc, sv, Ok(update))),
        reply matches Err(e) ==> e == Error::Other(
            Cause::Transaction(TransactionAcqError::SharedAcqFailed),
        ) && gave_update(awareness@.doc, sv, Err(TransactionAcqError::SharedAcqFailed)),
{
    let update = choose|update: Result<Vec<u8>, TransactionAcqError>| #[trigger]
        gave_update(awareness@.doc, sv, update) && reply == match update {
            Ok(update) => Ok::<_, Error>(Some(Message::Sync(SyncMessage::SyncStep2(update)))),
            Err(e) => Err(Error::Other(Cause::Transaction(e))),
        };
    law_gave_update(awareness@.doc, sv, update);
}

/// An update is refused only where the document could not be written to: whether it is
/// taken is decided by what the document gave, and by nothing that is known of the
/// clients. Where it is taken, the document holds it. This is so of the answer to a
/// state vector and of any other update.
pub proof fn law_updates_reach_the_document(protocol: DefaultProtocol, update: Update)
    ensures
        forall|a: &mut Awareness, reply: Result<Option<Message>, Error>| #[trigger]
            call_ensures(DefaultProtocol::handle_sync_step2, (&protocol, a, update), reply) ==> {
                &&& reply is Ok ==> gave_done((*a)@.doc, update, Ok(())) && is_doc_after(
                    (*a)@.doc,
                    update,
                    (*final(a))@.doc,
                )
                &&& reply is Err ==> gave_done(
                    (*a)@.doc,
                    update,
                    Err(TransactionAcqError::ExclusiveAcqFailed),
                ) && (*final(a))@.doc == (*a)@.doc
            },
        forall|a: &mut Awareness, reply: Result<Option<Message>, Error>| #[trigger]
            call_ensures(DefaultProtocol::handle_update, (&protocol, a, update), reply) ==> {
                &&& reply is Ok ==> gave_done((*a)@.doc, update, Ok(())) && is_doc_after(
                    (*a)@.doc,
                    update,
                    (*final(a))@.doc,
                )
                &&& reply is Err ==> gave_done(
                    (*a)@.doc,
                    update,
                    Err(TransactionAcqError::ExclusiveAcqFailed),
                ) && (*final(a))@.doc == (*a)@.doc
            },
{
    assert forall|a: &mut Awareness, reply: Result<Option<Message>, Error>| #[trigger]
        call_ensures(DefaultProtocol::handle_sync_step2, (&protocol, a, update), reply) implies {
        &&& reply is Ok ==> gave_done((*a)@.doc, update, Ok(()))
        &&& reply is Err ==> gave_done(
            (*a)@.doc,
            update,
            Err(TransactionAcqError::ExclusiveAcqFailed),
        )
    } by {
        let done = choose|done: Result<(), TransactionAcqError>| #[trigger]
            gave_done((*a)@.doc, update, done) && reply == match done {
                Ok(_) => Ok::<Option<Message>, Error>(None),
                Err(e) => Err(Error::Other(Cause::Transaction(e))),
            };
        law_gave_done((*a)@.doc, update, done);
        if done is Ok {
            assert(done->Ok_0 == ());
        }
    }
}

/// A connection opens, unless the document could not be read or a client has a state
/// without a clock.
pub proof fn law_start_follows_the_document(protocol: DefaultProtocol, awareness: Awareness)
    ensures
        forall|encoder: &mut EncoderV1, done: Result<(), Error>| #[trigger]
            call_ensures(DefaultProtocol::start, (&protocol, &awareness, encoder), done) ==> {
                done is Ok || !awareness@.wf() || gave_state_vector(
                    awareness@.doc,
                    Err(TransactionAcqError::SharedAcqFailed),
                )
            },
{
    assert forall|encoder: &mut EncoderV1, done: Result<(), Error>| #[trigger]
        call_ensures(DefaultProtocol::start, (&protocol, &awareness, encoder), done) implies {
        done is Ok || !awareness@.wf() || gave_state_vector(
            awareness@.doc,
            Err(TransactionAcqError::SharedAcqFailed),
        )
    } by {
        if awareness@.wf() && done is Err {
            let sv = choose|sv: Result<StateVector, TransactionAcqError>| #[trigger]
                gave_state_vector(awareness@.doc, sv) && sv is Err;
            law_gave_state_vector(awareness@.doc, sv);
        }
    }
}

/// Whatever is sent when a connection opens stands behind what was there before, and
/// is an encoding of the state vector followed by one of the states of all clients,
/// each with its clock. Nothing else counts as an opening.
#[verifier::spinoff_prover]
pub proof fn law_opening_is_two_messages(
    awareness: AwarenessView,
    sv: Map<u64, u32>,
    before: Seq<u8>,
    after: Seq<u8>,
)
    ensures
        opened(awareness, sv, before, after) <==> exists|first: Seq<u8>, second: Seq<u8>|
            {
                &&& #[trigger] encodes(MessageView::Sync(SyncMessageView::SyncStep1(sv)), first)
                &&& #[trigger] encodes(MessageView::Awareness(awareness.entries()), second)
                &&& after == before + first + second
            },
{
}

/// What stands behind `before` is what was appended.
proof fn lemma_appended(before: Seq<u8>, first: Seq<u8>, second: Seq<u8>)
    ensures
        (before + first + second).take(before.len() as int) == before,
        (before + first + second).skip(before.len() as int) == first + second,
{
    assert((before + first + second).take(before.len() as int) =~= before);
    assert((before + first + second).skip(before.len() as int) =~= first + second);
}

/// Whatever is sent when a connection opens, the peer's reader takes exactly two
/// messages out of it: the state vector, and then the states of all clients.
#[verifier::spinoff_prover]
pub proof fn law_opening_reads_as_two_messages(
    awareness: AwarenessView,
    sv: Map<u64, u32>,
    before: Seq<u8>,
    after: Seq<u8>,
)
    requires
        opened(awareness, sv, before, after),
        after.len() - before.len() <= u32::MAX,
    ensures
        before == after.take(before.len() as int),
        all_read(after.skip(before.len() as int)) == seq![
            Ok::<MessageView, ReadError>(MessageView::Sync(SyncMessageView::SyncStep1(sv))),
            Ok::<MessageView, ReadError>(MessageView::Awareness(awareness.entries())),
        ],
{
    let m1 = MessageView::Sync(SyncMessageView::SyncStep1(sv));
    let m2 = MessageView::Awareness(awareness.entries());
    let (first, second) = choose|first: Seq<u8>, second: Seq<u8>|
        {
            &&& #[trigger] encodes(m1, first)
            &&& #[trigger] encodes(m2, second)
            &&& after == before + first + second
        };
    assert(encodes(m1, first) && encodes(m2, second) && after == before + first + second);
    assert(fits(m1, first)) by {
        law_short_fits(m1, first);
    }
    assert(fits(m2, second)) by {
        law_short_fits(m2, second);
    }
    lemma_appended(before, first, second);
    law_opening_is_read(awareness, sv, first, second);
}

/// Where an update was taken, there is no answer, and the document is what it was with
/// the update applied, whatever is known of the clients. Where it was not, another
/// transaction stood in the way, and the document is as it was. What is known of the
/// clients stays in any case.
pub proof fn law_applied(
    before: AwarenessView,
    update: Update,
    after: AwarenessView,
    reply: Result<Option<Message>, Error>,
)
    requires
        is_applied(before, update, after, reply),
    ensures
        reply matches Ok(msg) ==> msg is None && is_doc_after(before.doc, update, after.doc),
        reply matches Err(e) ==> e == Error::Other(
            Cause::Transaction(TransactionAcqError::ExclusiveAcqFailed),
        ) && after.doc == before.doc,
        after.states == before.states,
        after.clocks == before.clocks,
{
}

/// The error of a missing client names one that has a state and no clock.
pub proof fn law_client_not_found(awareness: AwarenessView, e: Error)
    ensures
        is_client_not_found(awareness, e) <==> exists|c: u64|
            #![trigger awareness.states.contains_key(c)]
            awareness.states.contains_key(c) && !awareness.clocks.contains_key(c) && e
                == Error::AwarenessEncoding(crate::awareness::Error::ClientNotFound(c)),
{
    if is_client_not_found(awareness, e) {
        let c = e->AwarenessEncoding_0->ClientNotFound_0;
        assert(awareness.states.contains_key(c));
    }
}

/// An error from another layer is kept as it is, under the variant that is its own.
pub proof fn law_errors_are_kept(
    read: ReadError,
    awareness: crate::awareness::Error,
    cause: Cause,
)
    ensures
        <Error as FromSpec<ReadError>>::from_spec(read) == Error::EncodingError(read),
        <Error as FromSpec<crate::awareness::Error>>::from_spec(awareness)
            == Error::AwarenessEncoding(awareness),
        <Error as FromSpec<Cause>>::from_spec(cause) == Error::Other(cause),
        <Error as FromSpec<ReadError>>::obeys_from_spec(),
        <Error as FromSpec<crate::awareness::Error>>::obeys_from_spec(),
        <Error as FromSpec<Cause>>::obeys_from_spec(),
{
}

/// A peer that knows nothing yet, and gets the answer to its query, knows the
/// states that were known where the answer came from, at the same clocks. (A
/// state whose text withdraws it does not travel.)
pub proof fn law_query_copies(
    known: AwarenessView,
    fresh: AwarenessView,
    local: u64,
    after: AwarenessView,
)
    requires
        known.wf(),
        fresh.states == Map::<u64, Seq<char>>::empty(),
        fresh.clocks == Map::<u64, u32>::empty(),
        is_after_update(fresh, local, known.entries(), after),
    ensures
        after.clocks == known.clocks.restrict(known.states.dom()),
        after.states == known.states.restrict(
            Set::new(|c: u64| known.states.contains_key(c) && known.states[c] != "null"@),
        ),
{
    assert forall|c: u64|
        #![trigger after.known(c)]
        after.known(c) == if known.states.contains_key(c) {
            merged(c == local, fresh.known(c), known.entries()[c])
        } else {
            fresh.known(c)
        } by {
        assert(known.entries().contains_key(c) <==> known.states.contains_key(c));
    }
    let clocks = known.clocks.restrict(known.states.dom());
    assert forall|c: u64| #[trigger] after.clocks.get(c) == clocks.get(c) by {
        assert(after.known(c).clock == after.clocks.get(c));
    }
    lemma_same_map(after.clocks, clocks);
    let states = known.states.restrict(
        Set::new(|c: u64| known.states.contains_key(c) && known.states[c] != "null"@),
    );
    assert forall|c: u64| #[trigger] after.states.get(c) == states.get(c) by {
        assert(after.known(c).state == after.states.get(c));
    }
    lemma_same_map(after.states, states);
}

} // verus!
