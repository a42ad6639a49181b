use std::collections::HashMap;
use y_sync::awareness::{Awareness, AwarenessUpdate, AwarenessUpdateEntry};
use y_sync::document::TransactionAcqError;
use y_sync::encoding::ReadError;
use y_sync::protocol::{applied_reply, open_with, sync_step2_reply};
use y_sync::{
    Cause, DefaultProtocol, Error, Message, MessageReader, Protocol, SyncMessage,
};
use yrs::encoding::read::Cursor;
use yrs::updates::decoder::{Decode, DecoderV1};
use yrs::updates::encoder::{Encoder, EncoderV1};
use yrs::{Doc, GetString, ReadTxn, StateVector, Text, Transact, Update};

#[test]
fn message_encoding() {
    let doc = Doc::new();
    let txt = doc.get_or_insert_text("text");
    txt.push(&mut doc.transact_mut(), "hello world");
    let mut awareness = Awareness::new(doc);
    awareness.set_local_state("{\"user\":{\"name\":\"Anonymous 50\",\"color\":\"#30bced\",\"colorLight\":\"#30bced33\"}}");

    let messages = [
        Message::Sync(SyncMessage::SyncStep1(
            awareness.doc().transact().state_vector(),
        )),
        Message::Sync(SyncMessage::SyncStep2(
            awareness
                .doc()
                .transact()
                .encode_state_as_update_v1(&StateVector::default()),
        )),
        Message::Awareness(awareness.update().unwrap()),
        Message::Auth(Some("reason".to_string())),
        Message::AwarenessQuery,
    ];

    for msg in messages {
        let encoded = msg.encode_v1();
        let decoded = Message::decode_v1(&encoded)
            .unwrap_or_else(|_| panic!("failed to decode {:?}", msg));
        assert_eq!(decoded, msg);
    }
}

#[test]
fn protocol_init() {
    let awareness = Awareness::default();
    let protocol = DefaultProtocol;
    let mut encoder = EncoderV1::new();
    protocol.start(&awareness, &mut encoder).unwrap();
    let data = encoder.to_vec();
    let mut decoder = DecoderV1::new(Cursor::new(&data));
    let mut reader = MessageReader::new(&mut decoder);

    assert_eq!(
        reader.next().unwrap().unwrap(),
        Message::Sync(SyncMessage::SyncStep1(StateVector::default()))
    );

    assert_eq!(
        reader.next().unwrap().unwrap(),
        Message::Awareness(awareness.update().unwrap())
    );

    assert!(reader.next().is_none());
}

#[test]
fn protocol_sync_steps() {
    let protocol = DefaultProtocol;

    let mut a1 = Awareness::new(Doc::with_client_id(1));
    let mut a2 = Awareness::new(Doc::with_client_id(2));

    let expected = {
        let txt = a1.doc_mut().get_or_insert_text("test");
        let mut txn = a1.doc_mut().transact_mut();
        txt.push(&mut txn, "hello");
        txn.encode_state_as_update_v1(&StateVector::default())
    };

    let result = protocol
        .handle_sync_step1(&a1, a2.doc().transact().state_vector())
        .unwrap();

    assert_eq!(
        result,
        Some(Message::Sync(SyncMessage::SyncStep2(expected)))
    );

    if let Some(Message::Sync(SyncMessage::SyncStep2(u))) = result {
        let result2 = protocol
            .handle_sync_step2(&mut a2, Update::decode_v1(&u).unwrap())
            .unwrap();

        assert!(result2.is_none());
    }

    let txt = a2.doc().transact().get_text("test").unwrap();
    assert_eq!(txt.get_string(&a2.doc().transact()), "hello".to_owned());
}

#[test]
fn protocol_sync_step_update() {
    let protocol = DefaultProtocol;

    let mut a1 = Awareness::new(Doc::with_client_id(1));
    let mut a2 = Awareness::new(Doc::with_client_id(2));

    let data = {
        let txt = a1.doc_mut().get_or_insert_text("test");
        let mut txn = a1.doc_mut().transact_mut();
        txt.push(&mut txn, "hello");
        txn.encode_update_v1()
    };

    let result = protocol
        .handle_update(&mut a2, Update::decode_v1(&data).unwrap())
        .unwrap();

    assert!(result.is_none());

    let txt = a2.doc().transact().get_text("test").unwrap();
    assert_eq!(txt.get_string(&a2.doc().transact()), "hello".to_owned());
}

#[test]
fn protocol_awareness_sync() {
    let protocol = DefaultProtocol;

    let mut a1 = Awareness::new(Doc::with_client_id(1));
    let mut a2 = Awareness::new(Doc::with_client_id(2));

    a1.set_local_state("{x:3}");
    let result = protocol.handle_awareness_query(&a1).unwrap();

    assert_eq!(result, Some(Message::Awareness(a1.update().unwrap())));

    if let Some(Message::Awareness(u)) = result {
        let result = protocol.handle_awareness_update(&mut a2, u).unwrap();
        assert!(result.is_none());
    }

    assert_eq!(a2.clients(), &HashMap::from([(1, "{x:3}".to_owned())]));
}

#[test]
fn start_appends_the_state_vector_and_the_states() {
    let mut awareness = Awareness::new(Doc::with_client_id(5));
    {
        let txt = awareness.doc().get_or_insert_text("test");
        txt.push(&mut awareness.doc().transact_mut(), "abc");
    }
    awareness.set_local_state("1");
    let mut encoder = EncoderV1::new();
    DefaultProtocol.start(&awareness, &mut encoder).unwrap();
    assert_eq!(
        encoder.to_vec(),
        vec![
            0, 0, 3, 1, 5, 3, // sync step 1: one client, 5, at clock 3
            1, 5, 1, 5, 1, 1, b'1', // awareness: one client, 5, at clock 1, "1"
        ]
    );
}

#[test]
fn start_needs_the_document() {
    let awareness = Awareness::new(Doc::with_client_id(1));
    let doc = awareness.doc().clone();
    let txn = doc.transact_mut();
    let mut encoder = EncoderV1::new();
    let result = DefaultProtocol.start(&awareness, &mut encoder);
    assert!(matches!(
        result,
        Err(Error::Other(Cause::Transaction(
            TransactionAcqError::SharedAcqFailed
        )))
    ));
    assert!(encoder.to_vec().is_empty());
    let result = DefaultProtocol.handle_sync_step1(&awareness, StateVector::default());
    assert!(matches!(
        result,
        Err(Error::Other(Cause::Transaction(
            TransactionAcqError::SharedAcqFailed
        )))
    ));
    drop(txn);
    let mut encoder = EncoderV1::new();
    assert!(DefaultProtocol.start(&awareness, &mut encoder).is_ok());
}

#[test]
fn updates_need_the_document_alone() {
    let mut a1 = Awareness::new(Doc::with_client_id(1));
    let doc = a1.doc().clone();
    let txn = doc.transact();
    for step in 0..2 {
        let update = Update::decode_v1(&[0, 0]).unwrap();
        let result = if step == 0 {
            DefaultProtocol.handle_sync_step2(&mut a1, update)
        } else {
            DefaultProtocol.handle_update(&mut a1, update)
        };
        assert!(matches!(
            result,
            Err(Error::Other(Cause::Transaction(
                TransactionAcqError::ExclusiveAcqFailed
            )))
        ));
    }
    drop(txn);
    let update = Update::decode_v1(&[0, 0]).unwrap();
    assert_eq!(
        DefaultProtocol.handle_sync_step2(&mut a1, update).unwrap(),
        None
    );
}

#[test]
fn open_with_a_given_state_vector() {
    let awareness = Awareness::default();
    let mut encoder = EncoderV1::new();
    let sv = StateVector::decode_v1(&[1, 5, 3]).unwrap();
    assert!(open_with(Ok(sv), &awareness, &mut encoder).is_ok());
    assert_eq!(encoder.to_vec(), vec![0, 0, 3, 1, 5, 3, 1, 1, 0]);

    let mut encoder = EncoderV1::new();
    let result = open_with(
        Err(TransactionAcqError::DocumentDropped),
        &awareness,
        &mut encoder,
    );
    assert!(matches!(
        result,
        Err(Error::Other(Cause::Transaction(
            TransactionAcqError::DocumentDropped
        )))
    ));
    assert!(encoder.to_vec().is_empty());
}

#[test]
fn replies_follow_the_document() {
    assert_eq!(
        sync_step2_reply(Ok(vec![1, 2])).unwrap(),
        Some(Message::Sync(SyncMessage::SyncStep2(vec![1, 2])))
    );
    assert!(matches!(
        sync_step2_reply(Err(TransactionAcqError::SharedAcqFailed)),
        Err(Error::Other(Cause::Transaction(
            TransactionAcqError::SharedAcqFailed
        )))
    ));
    assert_eq!(applied_reply(Ok(())).unwrap(), None);
    assert!(matches!(
        applied_reply(Err(TransactionAcqError::ExclusiveAcqFailed)),
        Err(Error::Other(Cause::Transaction(
            TransactionAcqError::ExclusiveAcqFailed
        )))
    ));
}

#[test]
fn auth_is_granted_or_denied() {
    let awareness = Awareness::default();
    assert_eq!(DefaultProtocol.handle_auth(&awareness, None).unwrap(), None);
    let result = DefaultProtocol.handle_auth(&awareness, Some("too late".to_owned()));
    assert!(matches!(
        result,
        Err(Error::PermissionDenied { reason }) if reason == "too late"
    ));
}

#[test]
fn unknown_tags_are_unsupported() {
    let mut awareness = Awareness::default();
    awareness.set_local_state("1");
    let result = DefaultProtocol.missing_handle(&mut awareness, 9, vec![1]);
    assert!(matches!(result, Err(Error::Unsupported(9))));
    assert_eq!(awareness.clients().len(), 1);
}

#[test]
fn awareness_update_gets_no_answer() {
    let mut awareness = Awareness::new(Doc::with_client_id(1));
    let update = AwarenessUpdate {
        clients: HashMap::from([(
            8,
            AwarenessUpdateEntry {
                clock: 3,
                json: "{}".to_owned(),
            },
        )]),
    };
    let result = DefaultProtocol.handle_awareness_update(&mut awareness, update);
    assert_eq!(result.unwrap(), None);
    assert_eq!(awareness.clients(), &HashMap::from([(8, "{}".to_owned())]));
}

#[test]
fn errors_convert() {
    assert!(matches!(
        Error::from(ReadError::UnexpectedValue),
        Error::EncodingError(ReadError::UnexpectedValue)
    ));
    assert!(matches!(
        Error::from(y_sync::awareness::Error::ClientNotFound(4)),
        Error::AwarenessEncoding(y_sync::awareness::Error::ClientNotFound(4))
    ));
    assert!(matches!(
        Error::from(Cause::Message("down".to_owned())),
        Error::Other(Cause::Message(_))
    ));
}

#[test]
fn other_protocols_change_single_steps() {
    let mut awareness = Awareness::new(Doc::with_client_id(1));
    let update = Update::decode_v1(&[0, 0]).unwrap();
    let result = Stubborn.handle_update(&mut awareness, update);
    assert!(matches!(result, Err(Error::Unsupported(77))));
    assert_eq!(Stubborn.handle_auth(&awareness, None).unwrap(), None);
}

/// A protocol that takes no answers. What it does with updates follows from that.
struct Stubborn;

impl Protocol for Stubborn {
    fn handle_sync_step2(
        &self,
        _awareness: &mut Awareness,
        _update: Update,
    ) -> Result<Option<Message>, Error> {
        Err(Error::Unsupported(77))
    }
}
