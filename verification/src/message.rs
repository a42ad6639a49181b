//! The messages of the protocol and their byte format.
//!
//! A message is its tag, as a variable-length integer, and then what its kind
//! prescribes. A message does not name the document that it is about; that is for
//! the layer above to handle.

use crate::awareness_update::{encodes_update, update_read, AwarenessUpdate, EntryView};
use crate::encoding::{
    buf_bytes, buf_read, into_bytes, new_decoder, new_encoder, read_buf, read_string, read_var_u8,
    string_bytes, string_read, unread, var_bytes, var_u8_read, write_buf, write_string,
    write_var, written, ReadError,
};
use crate::state_vector::{
    clocks, clocks_read, decode_state_vector, encode_state_vector, encodes_clocks,
};
use vstd::prelude::*;
use yrs::updates::decoder::DecoderV1;
use yrs::updates::encoder::EncoderV1;
use yrs::StateVector;

verus! {

/// Tag id for [Message::Sync].
pub const MSG_SYNC: u8 = 0;

/// Tag id for [Message::Awareness].
pub const MSG_AWARENESS: u8 = 1;

/// Tag id for [Message::Auth].
pub const MSG_AUTH: u8 = 2;

/// Tag id for [Message::AwarenessQuery].
pub const MSG_QUERY_AWARENESS: u8 = 3;

/// What stands in [Message::Auth] before the reason for a denial.
pub const PERMISSION_DENIED: u8 = 0;

/// What stands in [Message::Auth] where access was granted.
pub const PERMISSION_GRANTED: u8 = 1;

/// Tag id for [SyncMessage::SyncStep1].
pub const MSG_SYNC_STEP_1: u8 = 0;

/// Tag id for [SyncMessage::SyncStep2].
pub const MSG_SYNC_STEP_2: u8 = 1;

/// Tag id for [SyncMessage::Update].
pub const MSG_SYNC_UPDATE: u8 = 2;

/// A message about the document.
#[derive(Debug, PartialEq, Eq)]
pub enum SyncMessage {
    /// The state vector of the sender. Whoever receives it answers with a
    /// [SyncMessage::SyncStep2].
    SyncStep1(StateVector),
    /// An encoded update with all that the receiver was missing.
    SyncStep2(Vec<u8>),
    /// An encoded update, sent as the document changes.
    Update(Vec<u8>),
}

/// A message from one peer to another.
#[derive(Debug, PartialEq, Eq)]
pub enum Message {
    /// A message about the document.
    Sync(SyncMessage),
    /// Whether access is granted, or else why it is denied.
    Auth(Option<String>),
    /// Asks for the states of all clients.
    AwarenessQuery,
    /// States of clients.
    Awareness(AwarenessUpdate),
    /// A message with a tag that the protocol gives no meaning to.
    Custom(u8, Vec<u8>),
}

/// What a [SyncMessage] holds.
pub enum SyncMessageView {
    SyncStep1(Map<u64, u32>),
    SyncStep2(Seq<u8>),
    Update(Seq<u8>),
}

/// What a [Message] holds.
pub enum MessageView {
    Sync(SyncMessageView),
    Auth(Option<Seq<char>>),
    AwarenessQuery,
    Awareness(Map<u64, EntryView>),
    Custom(u8, Seq<u8>),
}

impl View for SyncMessage {
    type V = SyncMessageView;

    open spec fn view(&self) -> SyncMessageView {
        match self {
            SyncMessage::SyncStep1(sv) => SyncMessageView::SyncStep1(clocks(*sv)),
            SyncMessage::SyncStep2(u) => SyncMessageView::SyncStep2(u@),
            SyncMessage::Update(u) => SyncMessageView::Update(u@),
        }
    }
}

impl View for Message {
    type V = MessageView;

    open spec fn view(&self) -> MessageView {
        match self {
            Message::Sync(msg) => MessageView::Sync(msg@),
            Message::Auth(Some(reason)) => MessageView::Auth(Some(reason@)),
            Message::Auth(None) => MessageView::Auth(None),
            Message::AwarenessQuery => MessageView::AwarenessQuery,
            Message::Awareness(update) => MessageView::Awareness(update@),
            Message::Custom(tag, data) => MessageView::Custom(*tag, data@),
        }
    }
}

/// `bytes` encode the message `m`: its tag, and then a buffer. State vectors have
/// more than one encoding, since their entries come in any order.
pub open spec fn encodes_sync(m: SyncMessageView, bytes: Seq<u8>) -> bool {
    match m {
        SyncMessageView::SyncStep1(sv) => exists|body: Seq<u8>| #[trigger]
            encodes_clocks(sv, body) && bytes == var_bytes(MSG_SYNC_STEP_1 as nat) + buf_bytes(
                body,
            ),
        SyncMessageView::SyncStep2(u) => bytes == var_bytes(MSG_SYNC_STEP_2 as nat) + buf_bytes(u),
        SyncMessageView::Update(u) => bytes == var_bytes(MSG_SYNC_UPDATE as nat) + buf_bytes(u),
    }
}

/// `bytes` encode the message `m`: its tag, and then what its kind prescribes.
pub open spec fn encodes(m: MessageView, bytes: Seq<u8>) -> bool {
    match m {
        MessageView::Sync(msg) => exists|body: Seq<u8>| #[trigger]
            encodes_sync(msg, body) && bytes == var_bytes(MSG_SYNC as nat) + body,
        MessageView::Auth(Some(reason)) => bytes == var_bytes(MSG_AUTH as nat) + var_bytes(
            PERMISSION_DENIED as nat,
        ) + string_bytes(reason),
        MessageView::Auth(None) => bytes == var_bytes(MSG_AUTH as nat) + var_bytes(
            PERMISSION_GRANTED as nat,
        ),
        MessageView::AwarenessQuery => bytes == var_bytes(MSG_QUERY_AWARENESS as nat),
        MessageView::Awareness(update) => exists|body: Seq<u8>| #[trigger]
            encodes_update(update, body) && bytes == var_bytes(MSG_AWARENESS as nat) + buf_bytes(
                body,
            ),
        MessageView::Custom(tag, data) => bytes == var_bytes(tag as nat) + buf_bytes(data),
    }
}

/// The message about the document at the front of `s`, or why there is none, and
/// the bytes left unread.
pub open spec fn sync_read(s: Seq<u8>) -> (Result<SyncMessageView, ReadError>, Seq<u8>) {
    let (tag, s1) = var_u8_read(s);
    let (body, s2) = buf_read(s1);
    match tag {
        Err(e) => (Err(e), s1),
        Ok(tag) => if tag > MSG_SYNC_UPDATE {
            (Err(ReadError::UnexpectedValue), s1)
        } else {
            match body {
                Err(e) => (Err(e), s2),
                Ok(body) => if tag == MSG_SYNC_STEP_1 {
                    match clocks_read(body) {
                        Err(e) => (Err(e), s2),
                        Ok(sv) => (Ok(SyncMessageView::SyncStep1(sv)), s2),
                    }
                } else if tag == MSG_SYNC_STEP_2 {
                    (Ok(SyncMessageView::SyncStep2(body)), s2)
                } else {
                    (Ok(SyncMessageView::Update(body)), s2)
                },
            }
        },
    }
}

/// What follows the tag of an authorization message: the reason, where access is
/// denied, and nothing otherwise.
pub open spec fn auth_read(s: Seq<u8>) -> (Result<Option<Seq<char>>, ReadError>, Seq<u8>) {
    let (permission, s1) = var_u8_read(s);
    match permission {
        Err(e) => (Err(e), s1),
        Ok(permission) => if permission == PERMISSION_DENIED {
            let (reason, s2) = string_read(s1);
            match reason {
                Err(e) => (Err(e), s2),
                Ok(reason) => (Ok(Some(reason)), s2),
            }
        } else {
            (Ok(None), s1)
        },
    }
}

/// The message at the front of `s`, or why there is none, and the bytes left
/// unread. A tag without a meaning makes a custom message.
pub open spec fn message_read(s: Seq<u8>) -> (Result<MessageView, ReadError>, Seq<u8>) {
    let (tag, s1) = var_u8_read(s);
    match tag {
        Err(e) => (Err(e), s1),
        Ok(tag) => if tag == MSG_SYNC {
            let (msg, s2) = sync_read(s1);
            match msg {
                Err(e) => (Err(e), s2),
                Ok(msg) => (Ok(MessageView::Sync(msg)), s2),
            }
        } else if tag == MSG_AUTH {
            let (reason, s2) = auth_read(s1);
            match reason {
                Err(e) => (Err(e), s2),
                Ok(reason) => (Ok(MessageView::Auth(reason)), s2),
            }
        } else if tag == MSG_QUERY_AWARENESS {
            (Ok(MessageView::AwarenessQuery), s1)
        } else {
            let (body, s2) = buf_read(s1);
            match body {
                Err(e) => (Err(e), s2),
                Ok(body) => if tag == MSG_AWARENESS {
                    match update_read(body).0 {
                        Err(e) => (Err(e), s2),
                        Ok(update) => (Ok(MessageView::Awareness(update)), s2),
                    }
                } else {
                    (Ok(MessageView::Custom(tag, body)), s2)
                },
            }
        },
    }
}

/// What a result of a message about the document holds, taken by its view.
pub open spec fn sync_result(r: Result<SyncMessage, ReadError>) -> Result<
    SyncMessageView,
    ReadError,
> {
    match r {
        Ok(msg) => Ok(msg@),
        Err(e) => Err(e),
    }
}

/// What a result of a message holds, taken by its view.
pub open spec fn message_result(r: Result<Message, ReadError>) -> Result<MessageView, ReadError> {
    match r {
        Ok(msg) => Ok(msg@),
        Err(e) => Err(e),
    }
}

impl SyncMessage {
    /// Appends the message to what the encoder holds.
    pub fn encode(&self, encoder: &mut EncoderV1)
        ensures
            exists|bytes: Seq<u8>| #[trigger]
                encodes_sync(self@, bytes) && written(*final(encoder)) == written(*old(encoder))
                    + bytes,
    {
        match self {
            SyncMessage::SyncStep1(sv) => {
                write_var(encoder, MSG_SYNC_STEP_1 as u64);
                let body = encode_state_vector(sv);
                write_buf(encoder, body.as_slice());
                proof {
                    let bytes = var_bytes(MSG_SYNC_STEP_1 as nat) + buf_bytes(body@);
                    assert(encodes_clocks(self@->SyncStep1_0, body@));
                    assert(encodes_sync(self@, bytes));
                    assert(written(*encoder) =~= written(*old(encoder)) + bytes);
                }
            },
            SyncMessage::SyncStep2(u) => {
                write_var(encoder, MSG_SYNC_STEP_2 as u64);
                write_buf(encoder, u.as_slice());
                proof {
                    let bytes = var_bytes(MSG_SYNC_STEP_2 as nat) + buf_bytes(u@);
                    assert(encodes_sync(self@, bytes));
                    assert(written(*encoder) =~= written(*old(encoder)) + bytes);
                }
            },
            SyncMessage::Update(u) => {
                write_var(encoder, MSG_SYNC_UPDATE as u64);
                write_buf(encoder, u.as_slice());
                proof {
                    let bytes = var_bytes(MSG_SYNC_UPDATE as nat) + buf_bytes(u@);
                    assert(encodes_sync(self@, bytes));
                    assert(written(*encoder) =~= written(*old(encoder)) + bytes);
                }
            },
        }
    }

    /// Reads a message off the front of the decoder.
    pub fn decode(decoder: &mut DecoderV1) -> (msg: Result<SyncMessage, ReadError>)
        ensures
            (sync_result(msg), unread(*final(decoder))) == sync_read(unread(*old(decoder))),
    {
        let tag: u8 = match read_var_u8(decoder) {
            Ok(tag) => tag,
            Err(e) => return Err(e),
        };
        if tag == MSG_SYNC_STEP_1 {
            match read_buf(decoder) {
                Ok(body) => match decode_state_vector(body.as_slice()) {
                    Ok(sv) => Ok(SyncMessage::SyncStep1(sv)),
                    Err(e) => Err(e),
                },
                Err(e) => Err(e),
            }
        } else if tag == MSG_SYNC_STEP_2 {
            match read_buf(decoder) {
                Ok(body) => Ok(SyncMessage::SyncStep2(body)),
                Err(e) => Err(e),
            }
        } else if tag == MSG_SYNC_UPDATE {
            match read_buf(decoder) {
                Ok(body) => Ok(SyncMessage::Update(body)),
                Err(e) => Err(e),
            }
        } else {
            Err(ReadError::UnexpectedValue)
        }
    }

    /// The message as a byte string of its own.
    pub fn encode_v1(&self) -> (bytes: Vec<u8>)
        ensures
            encodes_sync(self@, bytes@),
    {
        let mut encoder = new_encoder();
        self.encode(&mut encoder);
        proof {
            let bytes = choose|bytes: Seq<u8>| #[trigger]
                encodes_sync(self@, bytes) && written(encoder) == Seq::<u8>::empty() + bytes;
            assert(written(encoder) =~= bytes);
        }
        into_bytes(encoder)
    }

    /// Reads the message at the front of `data`. Bytes behind it are ignored.
    pub fn decode_v1(data: &[u8]) -> (msg: Result<SyncMessage, ReadError>)
        ensures
            sync_result(msg) == sync_read(data@).0,
    {
        let mut decoder = new_decoder(data);
        SyncMessage::decode(&mut decoder)
    }
}

impl Message {
    /// Appends the message to what the encoder holds.
    pub fn encode(&self, encoder: &mut EncoderV1)
        ensures
            exists|bytes: Seq<u8>| #[trigger]
                encodes(self@, bytes) && written(*final(encoder)) == written(*old(encoder))
                    + bytes,
    {
        let ghost start = written(*encoder);
        let ghost mut bytes = Seq::<u8>::empty();
        match self {
            Message::Sync(msg) => {
                write_var(encoder, MSG_SYNC as u64);
                let ghost tagged = written(*encoder);
                msg.encode(encoder);
                proof {
                    let body = choose|body: Seq<u8>| #[trigger]
                        encodes_sync(msg@, body) && written(*encoder) == tagged + body;
                    bytes = var_bytes(MSG_SYNC as nat) + body;
                }
            },
            Message::Auth(reason) => {
                write_var(encoder, MSG_AUTH as u64);
                if let Some(reason) = reason {
                    write_var(encoder, PERMISSION_DENIED as u64);
                    write_string(encoder, reason.as_str());
                    proof {
                        bytes = var_bytes(MSG_AUTH as nat) + var_bytes(PERMISSION_DENIED as nat)
                            + string_bytes(reason@);
                    }
                } else {
                    write_var(encoder, PERMISSION_GRANTED as u64);
                    proof {
                        bytes = var_bytes(MSG_AUTH as nat) + var_bytes(PERMISSION_GRANTED as nat);
                    }
                }
            },
            Message::AwarenessQuery => {
                write_var(encoder, MSG_QUERY_AWARENESS as u64);
                proof {
                    bytes = var_bytes(MSG_QUERY_AWARENESS as nat);
                }
            },
            Message::Awareness(update) => {
                write_var(encoder, MSG_AWARENESS as u64);
                let body = update.encode_v1();
                write_buf(encoder, body.as_slice());
                proof {
                    bytes = var_bytes(MSG_AWARENESS as nat) + buf_bytes(body@);
                    assert(encodes_update(self@->Awareness_0, body@));
                }
            },
            Message::Custom(tag, data) => {
                write_var(encoder, *tag as u64);
                write_buf(encoder, data.as_slice());
                proof {
                    bytes = var_bytes(*tag as nat) + buf_bytes(data@);
                }
            },
        }
        assert(encodes(self@, bytes));
        assert(written(*encoder) =~= start + bytes);
    }

    /// Reads a message off the front of the decoder.
    pub fn decode(decoder: &mut DecoderV1) -> (msg: Result<Message, ReadError>)
        ensures
            (message_result(msg), unread(*final(decoder))) == message_read(unread(*old(decoder))),
    {
        let tag: u8 = match read_var_u8(decoder) {
            Ok(tag) => tag,
            Err(e) => return Err(e),
        };
        if tag == MSG_SYNC {
            match SyncMessage::decode(decoder) {
                Ok(msg) => Ok(Message::Sync(msg)),
                Err(e) => Err(e),
            }
        } else if tag == MSG_AWARENESS {
            match read_buf(decoder) {
                Ok(body) => match AwarenessUpdate::decode_v1(body.as_slice()) {
                    Ok(update) => Ok(Message::Awareness(update)),
                    Err(e) => Err(e),
                },
                Err(e) => Err(e),
            }
        } else if tag == MSG_AUTH {
            match read_var_u8(decoder) {
                Ok(permission) => if permission == PERMISSION_DENIED {
                    match read_string(decoder) {
                        Ok(reason) => Ok(Message::Auth(Some(reason))),
                        Err(e) => Err(e),
                    }
                } else {
                    Ok(Message::Auth(None))
                },
                Err(e) => Err(e),
            }
        } else if tag == MSG_QUERY_AWARENESS {
            Ok(Message::AwarenessQuery)
        } else {
            match read_buf(decoder) {
                Ok(data) => Ok(Message::Custom(tag, data)),
                Err(e) => Err(e),
            }
        }
    }

    /// The message as a byte string of its own.
    pub fn encode_v1(&self) -> (bytes: Vec<u8>)
        ensures
            encodes(self@, bytes@),
    {
        let mut encoder = new_encoder();
        self.encode(&mut encoder);
        proof {
            let bytes = choose|bytes: Seq<u8>| #[trigger]
                encodes(self@, bytes) && written(encoder) == Seq::<u8>::empty() + bytes;
            assert(written(encoder) =~= bytes);
        }
        into_bytes(encoder)
    }

    /// Reads the message at the front of `data`. Bytes behind it are ignored.
    pub fn decode_v1(data: &[u8]) -> (msg: Result<Message, ReadError>)
        ensures
            message_result(msg) == message_read(data@).0,
    {
        let mut decoder = new_decoder(data);
        Message::decode(&mut decoder)
    }
}

} // verus!
