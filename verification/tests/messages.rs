use std::collections::HashMap;
use y_sync::awareness::{AwarenessUpdate, AwarenessUpdateEntry};
use y_sync::encoding::ReadError;
use y_sync::{Message, MessageReader, SyncMessage};
use yrs::encoding::read::Cursor;
use yrs::updates::decoder::{Decode, DecoderV1};
use yrs::updates::encoder::{Encoder, EncoderV1};
use yrs::StateVector;

fn update_of(client: u64, clock: u32, json: &str) -> AwarenessUpdate {
    AwarenessUpdate {
        clients: HashMap::from([(
            client,
            AwarenessUpdateEntry {
                clock,
                json: json.to_owned(),
            },
        )]),
    }
}

#[test]
fn messages_have_fixed_bytes() {
    let sv = StateVector::decode_v1(&[1, 200, 1, 3]).unwrap();
    assert_eq!(sv.get(&200), 3);
    let cases = [
        (
            Message::Sync(SyncMessage::SyncStep1(sv)),
            vec![0, 0, 4, 1, 200, 1, 3],
        ),
        (
            Message::Sync(SyncMessage::SyncStep1(StateVector::default())),
            vec![0, 0, 1, 0],
        ),
        (
            Message::Sync(SyncMessage::SyncStep2(vec![7, 8])),
            vec![0, 1, 2, 7, 8],
        ),
        (
            Message::Sync(SyncMessage::Update(vec![])),
            vec![0, 2, 0],
        ),
        (
            Message::Awareness(update_of(300, 2, "é")),
            vec![1, 7, 1, 172, 2, 2, 2, 195, 169],
        ),
        (
            Message::Auth(Some("no".to_owned())),
            vec![2, 0, 2, b'n', b'o'],
        ),
        (Message::Auth(None), vec![2, 1]),
        (Message::AwarenessQuery, vec![3]),
        (Message::Custom(4, vec![9]), vec![4, 1, 9]),
        (Message::Custom(127, vec![]), vec![127, 0]),
    ];
    for (msg, bytes) in cases {
        assert_eq!(msg.encode_v1(), bytes);
        assert_eq!(Message::decode_v1(&bytes).unwrap(), msg);
    }
}

#[test]
fn long_buffers_have_long_lengths() {
    let data = vec![5u8; 300];
    let msg = Message::Sync(SyncMessage::Update(data));
    let bytes = msg.encode_v1();
    assert_eq!(&bytes[..4], &[0, 2, 172, 2]);
    assert_eq!(bytes.len(), 304);
    assert_eq!(Message::decode_v1(&bytes).unwrap(), msg);
}

#[test]
fn what_follows_a_message_is_left_alone() {
    let mut bytes = Message::Auth(None).encode_v1();
    bytes.extend_from_slice(&[3, 255, 255]);
    let mut decoder = DecoderV1::from(bytes.as_slice());
    assert_eq!(Message::decode(&mut decoder).unwrap(), Message::Auth(None));
    assert_eq!(
        Message::decode(&mut decoder).unwrap(),
        Message::AwarenessQuery
    );
}

#[test]
fn custom_tags_of_the_protocol_read_back_as_something_else() {
    assert_eq!(
        Message::decode_v1(&Message::Custom(3, vec![]).encode_v1()).unwrap(),
        Message::AwarenessQuery
    );
}

#[test]
fn large_custom_tags_take_two_bytes() {
    let msg = Message::Custom(200, vec![0]);
    assert_eq!(msg.encode_v1(), vec![200, 1, 1, 0]);
    assert_eq!(Message::decode_v1(&[200, 1, 1, 0]).unwrap(), msg);
    let msg = Message::Custom(200, vec![9]);
    assert_eq!(msg.encode_v1(), vec![200, 1, 1, 9]);
    assert_eq!(Message::decode_v1(&[200, 1, 1, 9]).unwrap(), msg);
}

#[test]
fn custom_tags_survive() {
    for tag in 4..=255u8 {
        let msg = Message::Custom(tag, vec![tag, 0, 7]);
        assert_eq!(Message::decode_v1(&msg.encode_v1()).unwrap(), msg);
    }
}

#[test]
fn any_other_permission_grants() {
    assert_eq!(Message::decode_v1(&[2, 7]).unwrap(), Message::Auth(None));
}

#[test]
fn truncated_messages_end_early() {
    assert!(matches!(
        Message::decode_v1(&[]),
        Err(ReadError::EndOfBuffer(1))
    ));
    assert!(matches!(
        Message::decode_v1(&[0]),
        Err(ReadError::EndOfBuffer(1))
    ));
    assert!(matches!(
        Message::decode_v1(&[0, 1, 5, 1]),
        Err(ReadError::EndOfBuffer(5))
    ));
    assert!(matches!(
        Message::decode_v1(&[2, 0, 4, b'n']),
        Err(ReadError::EndOfBuffer(4))
    ));
    assert!(matches!(
        Message::decode_v1(&[1, 2, 1, 5]),
        Err(ReadError::EndOfBuffer(1))
    ));
}

#[test]
fn unknown_sync_messages_are_refused() {
    assert!(matches!(
        Message::decode_v1(&[0, 3, 0]),
        Err(ReadError::UnexpectedValue)
    ));
    assert!(matches!(
        SyncMessage::decode_v1(&[9]),
        Err(ReadError::UnexpectedValue)
    ));
}

#[test]
fn strings_have_to_be_utf8() {
    assert!(matches!(
        Message::decode_v1(&[2, 0, 2, 0xc3, 0x28]),
        Err(ReadError::UnexpectedValue)
    ));
    assert!(matches!(
        AwarenessUpdate::decode_v1(&[1, 1, 1, 1, 0xff]),
        Err(ReadError::UnexpectedValue)
    ));
}

#[test]
fn tags_have_to_fit_in_a_byte() {
    // 300
    assert!(matches!(
        Message::decode_v1(&[172, 2, 0]),
        Err(ReadError::InvalidVarInt)
    ));
    // eleven bytes without an end
    assert!(matches!(
        Message::decode_v1(&[255; 12]),
        Err(ReadError::InvalidVarInt)
    ));
    // a tag in two bytes that still fits
    assert_eq!(
        Message::decode_v1(&[131, 0]).unwrap(),
        Message::AwarenessQuery
    );
}

#[test]
fn integers_wrap_at_their_width() {
    // the fifth byte is shifted by 28 bits, so only four of its seven bits stay
    let update = AwarenessUpdate::decode_v1(&[1, 1, 0x80, 0x80, 0x80, 0x80, 0x7f, 0]).unwrap();
    assert_eq!(update, update_of(1, 0xf000_0000, ""));
    // the sixth byte is shifted by 35 bits, which is 3 modulo 32
    let update =
        AwarenessUpdate::decode_v1(&[1, 1, 0x81, 0x80, 0x80, 0x80, 0x80, 0x01, 0]).unwrap();
    assert_eq!(update, update_of(1, 9, ""));
    // a 64-bit client takes ten bytes
    let widest = update_of(u64::MAX, u32::MAX, "x");
    let bytes = widest.encode_v1();
    assert_eq!(
        bytes,
        vec![1, 255, 255, 255, 255, 255, 255, 255, 255, 255, 1, 255, 255, 255, 255, 15, 1, b'x']
    );
    assert_eq!(AwarenessUpdate::decode_v1(&bytes).unwrap(), widest);
}

#[test]
fn state_vectors_survive() {
    let sv = StateVector::decode_v1(&[2, 1, 5, 200, 1, 7]).unwrap();
    let msg = SyncMessage::SyncStep1(sv);
    assert_eq!(SyncMessage::decode_v1(&msg.encode_v1()).unwrap(), msg);
}

#[test]
fn state_vectors_announce_no_more_than_they_hold() {
    // four billion entries announced, one there
    assert!(matches!(
        Message::decode_v1(&[0, 0, 7, 255, 255, 255, 255, 15, 1, 1]),
        Err(ReadError::EndOfBuffer(1))
    ));
    // an entry that is no integer, before the end
    assert!(matches!(
        SyncMessage::decode_v1(&[
            0, 13, 100, 255, 255, 255, 255, 255, 255, 255, 255, 255, 255, 255, 255
        ]),
        Err(ReadError::InvalidVarInt)
    ));
    // the later entry of a client counts, and what follows the last is ignored
    let msg = SyncMessage::decode_v1(&[0, 6, 2, 1, 5, 1, 4, 9]).unwrap();
    match msg {
        SyncMessage::SyncStep1(sv) => {
            assert_eq!(sv.get(&1), 4);
            assert_eq!(sv.len(), 1);
        }
        _ => panic!("not a state vector"),
    }
}

#[test]
fn updates_of_many_clients_survive() {
    let mut clients = HashMap::new();
    for i in 0..200u64 {
        clients.insert(
            i * 1000,
            AwarenessUpdateEntry {
                clock: i as u32,
                json: format!("{{\"n\":{}}}", i),
            },
        );
    }
    let update = AwarenessUpdate { clients };
    let bytes = update.encode_v1();
    assert_eq!(AwarenessUpdate::decode_v1(&bytes).unwrap(), update);
    let msg = Message::Awareness(update);
    assert_eq!(Message::decode_v1(&msg.encode_v1()).unwrap(), msg);
}

#[test]
fn messages_come_out_in_order() {
    let messages = vec![
        Message::AwarenessQuery,
        Message::Sync(SyncMessage::Update(vec![1, 2, 3])),
        Message::Auth(Some("x".to_owned())),
        Message::Custom(50, vec![0; 130]),
        Message::AwarenessQuery,
    ];
    let mut encoder = EncoderV1::new();
    for msg in &messages {
        msg.encode(&mut encoder);
    }
    let data = encoder.to_vec();
    let mut decoder = DecoderV1::from(data.as_slice());
    let mut reader = MessageReader::new(&mut decoder);
    for msg in messages {
        assert_eq!(reader.next().unwrap().unwrap(), msg);
    }
    assert!(reader.next().is_none());
    assert!(reader.next().is_none());
}

#[test]
fn the_reader_goes_on_behind_an_error() {
    let mut decoder = DecoderV1::from([0u8, 5, 3, 2, 0, 9].as_slice());
    let mut reader = MessageReader::new(&mut decoder);
    assert!(matches!(
        reader.next(),
        Some(Err(ReadError::UnexpectedValue))
    ));
    assert_eq!(reader.next().unwrap().unwrap(), Message::AwarenessQuery);
    // the reason is cut off
    assert!(reader.next().is_none());
    assert!(reader.next().is_none());
}

#[test]
fn the_reader_consumes_the_decoder() {
    let mut decoder = DecoderV1::from([3u8, 2, 1].as_slice());
    {
        let mut reader = MessageReader::new(&mut decoder);
        assert_eq!(reader.next().unwrap().unwrap(), Message::AwarenessQuery);
    }
    assert_eq!(Message::decode(&mut decoder).unwrap(), Message::Auth(None));
}

fn samples() -> Vec<Message> {
    vec![
        Message::Sync(SyncMessage::SyncStep1(
            StateVector::decode_v1(&[1, 200, 1, 3]).unwrap(),
        )),
        Message::Sync(SyncMessage::SyncStep2(vec![7; 200])),
        Message::Sync(SyncMessage::Update(vec![])),
        Message::Auth(Some("é".to_owned())),
        Message::Auth(None),
        Message::AwarenessQuery,
        Message::Awareness(update_of(300, 2, "{}")),
        Message::Custom(4, vec![1]),
        Message::Custom(255, vec![1, 2]),
    ]
}

#[test]
fn cut_off_messages_end_early() {
    for msg in samples() {
        let bytes = msg.encode_v1();
        for k in 0..bytes.len() {
            assert!(matches!(
                Message::decode_v1(&bytes[..k]),
                Err(ReadError::EndOfBuffer(_))
            ));
            let mut decoder = DecoderV1::from(&bytes[..k]);
            assert!(MessageReader::new(&mut decoder).next().is_none());
        }
    }
}

#[test]
fn encoding_appends() {
    for msg in samples() {
        let mut encoder = EncoderV1::new();
        Message::Custom(9, vec![255]).encode(&mut encoder);
        msg.encode(&mut encoder);
        let mut expected = vec![9, 1, 255];
        expected.extend_from_slice(&msg.encode_v1());
        assert_eq!(encoder.to_vec(), expected);
    }
}

#[test]
fn sync_messages_add_their_tag() {
    for msg in [
        SyncMessage::SyncStep1(StateVector::decode_v1(&[1, 5, 3]).unwrap()),
        SyncMessage::SyncStep2(vec![1, 2]),
        SyncMessage::Update(vec![3]),
    ] {
        let alone = msg.encode_v1();
        let bytes = Message::Sync(msg).encode_v1();
        assert_eq!(bytes[0], 0);
        assert_eq!(&bytes[1..], alone.as_slice());
    }
}

#[test]
fn announced_lengths_are_held_against_the_bytes() {
    // a buffer of 4 GiB less one byte, one byte there
    let bytes = [9u8, 255, 255, 255, 255, 15, 3];
    let mut decoder = DecoderV1::from(bytes.as_slice());
    assert!(matches!(
        Message::decode(&mut decoder),
        Err(ReadError::EndOfBuffer(0xffff_ffff))
    ));
    // only the length was consumed
    assert_eq!(
        Message::decode(&mut decoder).unwrap(),
        Message::AwarenessQuery
    );
    // a buffer that ends where the bytes do
    assert_eq!(
        Message::decode_v1(&[9, 0]).unwrap(),
        Message::Custom(9, vec![])
    );
}

#[test]
fn a_decoder_beyond_its_end_is_at_its_end() {
    let bytes = [3u8];
    let mut decoder = DecoderV1::new(Cursor {
        buf: &bytes,
        next: 5,
    });
    assert!(matches!(
        Message::decode(&mut decoder),
        Err(ReadError::EndOfBuffer(1))
    ));
}
