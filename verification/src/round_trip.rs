//! What is written can be read back: the laws that tie the encoders of the messages
//! to their decoders.

use crate::awareness_update::{
    encodes_update, law_update_round_trip, lemma_update_len, lemma_update_one_encoding,
};
use crate::encoding::{
    buf_bytes, buf_read, ends_early, lemma_buf_read, lemma_buf_read_prefix, lemma_string_read,
    lemma_string_read_prefix, lemma_take_of_two, lemma_var_u8_read, lemma_var_u8_read_prefix,
    string_bytes, var_bytes, var_u8_read, ReadError,
};
use crate::message::{
    encodes, encodes_sync, message_read, sync_read, MessageView, SyncMessageView, MSG_AUTH,
    MSG_AWARENESS, MSG_QUERY_AWARENESS, MSG_SYNC, MSG_SYNC_STEP_1, MSG_SYNC_STEP_2,
    MSG_SYNC_UPDATE, PERMISSION_DENIED, PERMISSION_GRANTED,
};
use crate::state_vector::{
    encodes_clocks, law_clocks_round_trip, lemma_clocks_len, lemma_clocks_one_encoding,
};
use vstd::prelude::*;
use vstd::utf8::encode_utf8;

verus! {

/// The lengths in the encoding `bytes` of `m` fit in the 32 bits that a reader
/// allows for them.
pub open spec fn sync_fits(m: SyncMessageView, bytes: Seq<u8>) -> bool {
    match m {
        SyncMessageView::SyncStep1(sv) => exists|body: Seq<u8>| #[trigger]
            encodes_clocks(sv, body) && bytes == var_bytes(MSG_SYNC_STEP_1 as nat) + buf_bytes(
                body,
            ) && body.len() <= u32::MAX,
        SyncMessageView::SyncStep2(u) => u.len() <= u32::MAX,
        SyncMessageView::Update(u) => u.len() <= u32::MAX,
    }
}

/// The lengths in the encoding `bytes` of `m` fit in the 32 bits that a reader
/// allows for them, and the tag of a custom message is none of the protocol's own.
pub open spec fn fits(m: MessageView, bytes: Seq<u8>) -> bool {
    match m {
        MessageView::Sync(msg) => exists|body: Seq<u8>| #[trigger]
            encodes_sync(msg, body) && bytes == var_bytes(MSG_SYNC as nat) + body && sync_fits(
                msg,
                body,
            ),
        MessageView::Auth(Some(reason)) => encode_utf8(reason).len() <= u32::MAX,
        MessageView::Auth(None) => true,
        MessageView::AwarenessQuery => true,
        MessageView::Awareness(update) => exists|body: Seq<u8>| #[trigger]
            encodes_update(update, body) && bytes == var_bytes(MSG_AWARENESS as nat) + buf_bytes(
                body,
            ) && body.len() <= u32::MAX,
        MessageView::Custom(tag, data) => MSG_QUERY_AWARENESS < tag && data.len() <= u32::MAX,
    }
}

/// A message that takes less than 4 GiB fits, but for custom messages with a tag
/// that has another meaning.
pub proof fn law_short_fits(m: MessageView, bytes: Seq<u8>)
    requires
        encodes(m, bytes),
        bytes.len() <= u32::MAX,
        m matches MessageView::Custom(tag, _) ==> MSG_QUERY_AWARENESS < tag,
    ensures
        fits(m, bytes),
{
    match m {
        MessageView::Sync(msg) => {
            let body = choose|body: Seq<u8>| #[trigger]
                encodes_sync(msg, body) && bytes == var_bytes(MSG_SYNC as nat) + body;
            if let SyncMessageView::SyncStep1(sv) = msg {
                let inner = choose|inner: Seq<u8>| #[trigger]
                    encodes_clocks(sv, inner) && body == var_bytes(MSG_SYNC_STEP_1 as nat)
                        + buf_bytes(inner);
                assert(encodes_clocks(msg->SyncStep1_0, inner));
            }
            assert(sync_fits(msg, body));
            assert(encodes_sync(m->Sync_0, body));
        },
        MessageView::Awareness(update) => {
            let body = choose|body: Seq<u8>| #[trigger]
                encodes_update(update, body) && bytes == var_bytes(MSG_AWARENESS as nat)
                    + buf_bytes(body);
            assert(encodes_update(m->Awareness_0, body));
        },
        _ => {},
    }
}

/// Decoding what a message about the document was encoded to gives the message
/// back, whatever follows it, and leaves just what follows it.
pub proof fn law_sync_round_trip(m: SyncMessageView, bytes: Seq<u8>, tail: Seq<u8>)
    requires
        encodes_sync(m, bytes),
        sync_fits(m, bytes),
    ensures
        sync_read(bytes + tail) == (Ok::<SyncMessageView, ReadError>(m), tail),
{
    match m {
        SyncMessageView::SyncStep1(sv) => {
            let body = choose|body: Seq<u8>| #[trigger]
                encodes_clocks(sv, body) && bytes == var_bytes(MSG_SYNC_STEP_1 as nat) + buf_bytes(
                    body,
                ) && body.len() <= u32::MAX;
            lemma_tagged_buf(MSG_SYNC_STEP_1, body, tail);
            lemma_clocks_len(sv, body);
            law_clocks_round_trip(sv, body, Seq::empty());
            assert(body + Seq::<u8>::empty() =~= body);
        },
        SyncMessageView::SyncStep2(u) => {
            lemma_tagged_buf(MSG_SYNC_STEP_2, u, tail);
        },
        SyncMessageView::Update(u) => {
            lemma_tagged_buf(MSG_SYNC_UPDATE, u, tail);
        },
    }
}

/// A tag and a buffer, read one after the other.
proof fn lemma_tagged_buf(tag: u8, body: Seq<u8>, tail: Seq<u8>)
    requires
        body.len() <= u32::MAX,
    ensures
        ({
            let s = var_bytes(tag as nat) + buf_bytes(body) + tail;
            let rest = buf_bytes(body) + tail;
            &&& var_u8_read(s) == (Ok::<u8, ReadError>(tag), rest)
            &&& buf_read(rest) == (Ok::<Seq<u8>, ReadError>(body), tail)
        }),
{
    lemma_var_u8_read(tag, buf_bytes(body) + tail);
    assert(var_bytes(tag as nat) + buf_bytes(body) + tail =~= var_bytes(tag as nat) + (buf_bytes(
        body,
    ) + tail));
    lemma_buf_read(body, tail);
}

/// Decoding what a message was encoded to gives the message back, whatever follows
/// it, and leaves just what follows it.
pub proof fn law_round_trip(m: MessageView, bytes: Seq<u8>, tail: Seq<u8>)
    requires
        encodes(m, bytes),
        fits(m, bytes),
    ensures
        message_read(bytes + tail) == (Ok::<MessageView, ReadError>(m), tail),
{
    match m {
        MessageView::Sync(msg) => {
            let body = choose|body: Seq<u8>| #[trigger]
                encodes_sync(msg, body) && bytes == var_bytes(MSG_SYNC as nat) + body && sync_fits(
                    msg,
                    body,
                );
            lemma_var_u8_read(MSG_SYNC, body + tail);
            assert(bytes + tail =~= var_bytes(MSG_SYNC as nat) + (body + tail));
            law_sync_round_trip(msg, body, tail);
        },
        MessageView::Auth(Some(reason)) => {
            let text = string_bytes(reason) + tail;
            let rest = var_bytes(PERMISSION_DENIED as nat) + text;
            assert(bytes + tail =~= var_bytes(MSG_AUTH as nat) + rest);
            lemma_var_u8_read(MSG_AUTH, rest);
            lemma_var_u8_read(PERMISSION_DENIED, text);
            lemma_string_read(reason, tail);
        },
        MessageView::Auth(None) => {
            let rest = var_bytes(PERMISSION_GRANTED as nat) + tail;
            assert(bytes + tail =~= var_bytes(MSG_AUTH as nat) + rest);
            lemma_var_u8_read(MSG_AUTH, rest);
            lemma_var_u8_read(PERMISSION_GRANTED, tail);
        },
        MessageView::AwarenessQuery => {
            lemma_var_u8_read(MSG_QUERY_AWARENESS, tail);
        },
        MessageView::Awareness(update) => {
            let body = choose|body: Seq<u8>| #[trigger]
                encodes_update(update, body) && bytes == var_bytes(MSG_AWARENESS as nat)
                    + buf_bytes(body) && body.len() <= u32::MAX;
            lemma_tagged_buf(MSG_AWARENESS, body, tail);
            lemma_update_len(update, body);
            law_update_round_trip(update, body, Seq::empty());
            assert(body + Seq::<u8>::empty() =~= body);
        },
        MessageView::Custom(tag, data) => {
            lemma_tagged_buf(tag, data, tail);
        },
    }
}

/// No byte string encodes two messages, and none is the beginning of another.
pub proof fn law_unambiguous(
    m1: MessageView,
    bytes1: Seq<u8>,
    tail1: Seq<u8>,
    m2: MessageView,
    bytes2: Seq<u8>,
    tail2: Seq<u8>,
)
    requires
        encodes(m1, bytes1),
        fits(m1, bytes1),
        encodes(m2, bytes2),
        fits(m2, bytes2),
        bytes1 + tail1 == bytes2 + tail2,
    ensures
        m1 == m2,
        bytes1 == bytes2,
        tail1 == tail2,
{
    law_round_trip(m1, bytes1, tail1);
    law_round_trip(m2, bytes2, tail2);
    assert(bytes1 =~= (bytes1 + tail1).take(bytes1.len() as int));
    assert(bytes2 =~= (bytes2 + tail2).take(bytes2.len() as int));
}

/// A tag and a buffer that were cut off.
proof fn lemma_tagged_buf_prefix(tag: u8, body: Seq<u8>, k: int)
    requires
        body.len() <= u32::MAX,
        0 <= k < (var_bytes(tag as nat) + buf_bytes(body)).len(),
    ensures
        ({
            let (read, rest) = var_u8_read((var_bytes(tag as nat) + buf_bytes(body)).take(k));
            ends_early(read) || read == Ok::<u8, ReadError>(tag) && ends_early(buf_read(rest).0)
        }),
{
    let front = var_bytes(tag as nat);
    lemma_take_of_two(front, buf_bytes(body), k);
    if k < front.len() {
        lemma_var_u8_read_prefix(tag, k);
    } else {
        let cut = k - front.len();
        lemma_var_u8_read(tag, buf_bytes(body).take(cut));
        lemma_buf_read_prefix(body, cut);
    }
}

/// A message about the document that was cut off anywhere does not decode: the bytes
/// end too early.
pub proof fn law_sync_cut_off(m: SyncMessageView, bytes: Seq<u8>, k: int)
    requires
        encodes_sync(m, bytes),
        sync_fits(m, bytes),
        0 <= k < bytes.len(),
    ensures
        sync_read(bytes.take(k)).0 matches Err(ReadError::EndOfBuffer(_)),
{
    match m {
        SyncMessageView::SyncStep1(sv) => {
            let body = choose|body: Seq<u8>| #[trigger]
                encodes_clocks(sv, body) && bytes == var_bytes(MSG_SYNC_STEP_1 as nat) + buf_bytes(
                    body,
                ) && body.len() <= u32::MAX;
            lemma_tagged_buf_prefix(MSG_SYNC_STEP_1, body, k);
        },
        SyncMessageView::SyncStep2(u) => {
            lemma_tagged_buf_prefix(MSG_SYNC_STEP_2, u, k);
        },
        SyncMessageView::Update(u) => {
            lemma_tagged_buf_prefix(MSG_SYNC_UPDATE, u, k);
        },
    }
}

/// A message that was cut off anywhere does not decode: the bytes end too early.
pub proof fn law_cut_off(m: MessageView, bytes: Seq<u8>, k: int)
    requires
        encodes(m, bytes),
        fits(m, bytes),
        0 <= k < bytes.len(),
    ensures
        message_read(bytes.take(k)).0 matches Err(ReadError::EndOfBuffer(_)),
{
    match m {
        MessageView::Sync(msg) => {
            let body = choose|body: Seq<u8>| #[trigger]
                encodes_sync(msg, body) && bytes == var_bytes(MSG_SYNC as nat) + body && sync_fits(
                    msg,
                    body,
                );
            let front = var_bytes(MSG_SYNC as nat);
            lemma_take_of_two(front, body, k);
            if k < front.len() {
                lemma_var_u8_read_prefix(MSG_SYNC, k);
            } else {
                lemma_var_u8_read(MSG_SYNC, body.take(k - front.len()));
                law_sync_cut_off(msg, body, k - front.len());
            }
        },
        MessageView::Auth(Some(reason)) => {
            let front = var_bytes(MSG_AUTH as nat);
            let middle = var_bytes(PERMISSION_DENIED as nat);
            let text = string_bytes(reason);
            assert(bytes =~= front + (middle + text));
            lemma_take_of_two(front, middle + text, k);
            if k < front.len() {
                lemma_var_u8_read_prefix(MSG_AUTH, k);
            } else {
                let cut = k - front.len();
                lemma_var_u8_read(MSG_AUTH, (middle + text).take(cut));
                lemma_take_of_two(middle, text, cut);
                if cut < middle.len() {
                    lemma_var_u8_read_prefix(PERMISSION_DENIED, cut);
                } else {
                    lemma_var_u8_read(PERMISSION_DENIED, text.take(cut - middle.len()));
                    lemma_string_read_prefix(reason, cut - middle.len());
                }
            }
        },
        MessageView::Auth(None) => {
            let front = var_bytes(MSG_AUTH as nat);
            let permission = var_bytes(PERMISSION_GRANTED as nat);
            lemma_take_of_two(front, permission, k);
            if k < front.len() {
                lemma_var_u8_read_prefix(MSG_AUTH, k);
            } else {
                lemma_var_u8_read(MSG_AUTH, permission.take(k - front.len()));
                lemma_var_u8_read_prefix(PERMISSION_GRANTED, k - front.len());
            }
        },
        MessageView::AwarenessQuery => {
            lemma_var_u8_read_prefix(MSG_QUERY_AWARENESS, k);
        },
        MessageView::Awareness(update) => {
            let body = choose|body: Seq<u8>| #[trigger]
                encodes_update(update, body) && bytes == var_bytes(MSG_AWARENESS as nat)
                    + buf_bytes(body) && body.len() <= u32::MAX;
            lemma_tagged_buf_prefix(MSG_AWARENESS, body, k);
        },
        MessageView::Custom(tag, data) => {
            lemma_tagged_buf_prefix(tag, data, k);
        },
    }
}

/// The message about the document has one encoding. Only state vectors of several
/// clients have more, since their entries come in any order.
pub open spec fn sync_has_one_encoding(m: SyncMessageView) -> bool {
    m matches SyncMessageView::SyncStep1(sv) ==> sv.dom().len() <= 1
}

/// The message has one encoding. Only state vectors and awareness updates of several
/// clients have more, since their entries come in any order.
pub open spec fn has_one_encoding(m: MessageView) -> bool {
    match m {
        MessageView::Sync(msg) => sync_has_one_encoding(msg),
        MessageView::Awareness(update) => update.dom().len() <= 1,
        _ => true,
    }
}

/// Whatever encodes one message about the document encodes it to the same bytes.
pub proof fn law_sync_one_encoding(m: SyncMessageView, bytes1: Seq<u8>, bytes2: Seq<u8>)
    requires
        sync_has_one_encoding(m),
        encodes_sync(m, bytes1),
        encodes_sync(m, bytes2),
    ensures
        bytes1 == bytes2,
{
    if let SyncMessageView::SyncStep1(sv) = m {
        let front = var_bytes(MSG_SYNC_STEP_1 as nat);
        let body1 = choose|body: Seq<u8>| #[trigger]
            encodes_clocks(sv, body) && bytes1 == front + buf_bytes(body);
        let body2 = choose|body: Seq<u8>| #[trigger]
            encodes_clocks(sv, body) && bytes2 == front + buf_bytes(body);
        lemma_clocks_one_encoding(sv, body1, body2);
    }
}

/// Whatever encodes one message encodes it to the same bytes.
pub proof fn law_one_encoding(m: MessageView, bytes1: Seq<u8>, bytes2: Seq<u8>)
    requires
        has_one_encoding(m),
        encodes(m, bytes1),
        encodes(m, bytes2),
    ensures
        bytes1 == bytes2,
{
    match m {
        MessageView::Sync(msg) => {
            let front = var_bytes(MSG_SYNC as nat);
            let body1 = choose|body: Seq<u8>| #[trigger]
                encodes_sync(msg, body) && bytes1 == front + body;
            let body2 = choose|body: Seq<u8>| #[trigger]
                encodes_sync(msg, body) && bytes2 == front + body;
            law_sync_one_encoding(msg, body1, body2);
        },
        MessageView::Awareness(update) => {
            let front = var_bytes(MSG_AWARENESS as nat);
            let body1 = choose|body: Seq<u8>| #[trigger]
                encodes_update(update, body) && bytes1 == front + buf_bytes(body);
            let body2 = choose|body: Seq<u8>| #[trigger]
                encodes_update(update, body) && bytes2 == front + buf_bytes(body);
            lemma_update_one_encoding(update, body1, body2);
        },
        _ => {},
    }
}

/// Encoding into an encoder that holds `before` keeps it, and appends just the bytes
/// `alone` that the message is encoded to on its own, whatever `before` is.
pub proof fn law_encode_appends(
    m: MessageView,
    before: Seq<u8>,
    after: Seq<u8>,
    alone: Seq<u8>,
)
    requires
        has_one_encoding(m),
        exists|bytes: Seq<u8>| #[trigger] encodes(m, bytes) && after == before + bytes,
        encodes(m, alone),
    ensures
        after == before + alone,
{
    let bytes = choose|bytes: Seq<u8>| #[trigger] encodes(m, bytes) && after == before + bytes;
    law_one_encoding(m, bytes, alone);
}

/// The encodings of a message about the document as a [Message](crate::Message) are
/// the tag 0, and right behind it the encodings of the message itself.
pub proof fn law_sync_is_tagged(m: SyncMessageView, body: Seq<u8>)
    ensures
        encodes_sync(m, body) <==> encodes(MessageView::Sync(m), seq![0u8] + body),
{
    let front = var_bytes(MSG_SYNC as nat);
    assert(front =~= seq![0u8]);
    let outer = MessageView::Sync(m);
    if encodes_sync(m, body) {
        assert(encodes_sync(outer->Sync_0, body));
    }
    if encodes(outer, seq![0u8] + body) {
        let inner = choose|inner: Seq<u8>| #[trigger]
            encodes_sync(outer->Sync_0, inner) && seq![0u8] + body == front + inner;
        assert(inner =~= (front + inner).skip(1));
        assert(body =~= (seq![0u8] + body).skip(1));
    }
}

/// A message about the document that is `alone` on its own, and `bytes` as a
/// [Message](crate::Message): the tag 0 is all that comes on top.
pub proof fn law_sync_adds_its_tag(m: SyncMessageView, alone: Seq<u8>, bytes: Seq<u8>)
    requires
        sync_has_one_encoding(m),
        encodes_sync(m, alone),
        encodes(MessageView::Sync(m), bytes),
    ensures
        bytes == seq![0u8] + alone,
{
    law_sync_is_tagged(m, alone);
    law_one_encoding(MessageView::Sync(m), bytes, seq![0u8] + alone);
}

} // verus!
