//! Reading several messages that were packed into one payload.

use crate::encoding::{
    buf_read, is_tail_of, lemma_buf_read_tail, lemma_tail_of_tail, lemma_var_u8_read_tail, unread,
    var_u8_read, ReadError,
};
use crate::message::{encodes, message_read, sync_read, Message, MessageView};
use crate::round_trip::{fits, law_cut_off, law_round_trip};
use vstd::prelude::*;
use yrs::updates::decoder::DecoderV1;

verus! {

/// Reads messages off a decoder, one by one.
pub struct MessageReader<'a, 'b>(pub &'a mut DecoderV1<'b>);

/// What the reader hands out at `s`, and the bytes left unread: the next message,
/// or what is wrong with it, or nothing, where the bytes end before the message
/// does.
pub open spec fn next_read(s: Seq<u8>) -> (Option<Result<MessageView, ReadError>>, Seq<u8>) {
    let (msg, rest) = message_read(s);
    match msg {
        Ok(msg) => (Some(Ok(msg)), rest),
        Err(ReadError::EndOfBuffer(_)) => (None, rest),
        Err(e) => (Some(Err(e)), rest),
    }
}

/// What the reader hands out, taken by the views of the messages.
pub open spec fn next_result(r: Option<Result<Message, ReadError>>) -> Option<
    Result<MessageView, ReadError>,
> {
    match r {
        Some(Ok(msg)) => Some(Ok(msg@)),
        Some(Err(e)) => Some(Err(e)),
        None => None,
    }
}

impl<'a, 'b> MessageReader<'a, 'b> {
    /// The bytes that are still to be read.
    pub open spec fn view(&self) -> Seq<u8> {
        unread(*self.0)
    }

    /// A reader at the position of the decoder. What it consumes is consumed of the
    /// decoder.
    pub fn new(decoder: &'a mut DecoderV1<'b>) -> (reader: MessageReader<'a, 'b>)
        ensures
            reader@ == unread(*old(decoder)),
            *final(reader.0) == *final(decoder),
    {
        MessageReader(decoder)
    }

    /// The next message, or what is wrong with it; `None` where the bytes end
    /// before the message does.
    pub fn next(&mut self) -> (msg: Option<Result<Message, ReadError>>)
        ensures
            (next_result(msg), final(self)@) == next_read(old(self)@),
            (next_result(msg), unread(*final(self).0)) == next_read(unread(*old(self).0)),
            *final(final(self).0) == *final(old(self).0),
    {
        match Message::decode(self.0) {
            Ok(msg) => Some(Ok(msg)),
            Err(ReadError::EndOfBuffer(_)) => None,
            Err(e) => Some(Err(e)),
        }
    }
}

/// Reading a message about the document takes bytes off the front.
proof fn lemma_sync_read_tail(s: Seq<u8>)
    ensures
        is_tail_of(sync_read(s).1, s),
{
    let (_, s1) = var_u8_read(s);
    let s2 = buf_read(s1).1;
    lemma_var_u8_read_tail(s);
    lemma_buf_read_tail(s1);
    lemma_tail_of_tail(s2, s1, s);
}

/// Reading goes forward: what is left unread is the end of what there was, and
/// where there was a byte, at least one is consumed, whether or not a message came
/// of it. Where there was none, the reader is at its end.
pub proof fn law_progress(s: Seq<u8>)
    ensures
        is_tail_of(next_read(s).1, s),
        s.len() > 0 ==> next_read(s).1.len() < s.len(),
        s.len() == 0 ==> next_read(s).0 is None,
{
    let (tag, s1) = var_u8_read(s);
    lemma_var_u8_read_tail(s);
    if tag is Ok {
        lemma_sync_read_tail(s1);
        lemma_buf_read_tail(s1);
        lemma_var_u8_read_tail(s1);
        let s2 = var_u8_read(s1).1;
        lemma_buf_read_tail(s2);
        lemma_tail_of_tail(buf_read(s2).1, s2, s1);
        assert(s1 =~= s1.skip(0));
        lemma_tail_of_tail(message_read(s).1, s1, s);
    }
}

/// A message that was cut off anywhere ends the reading.
pub proof fn law_cut_off_ends(m: MessageView, bytes: Seq<u8>, k: int)
    requires
        encodes(m, bytes),
        fits(m, bytes),
        0 <= k < bytes.len(),
    ensures
        next_read(bytes.take(k)).0 is None,
{
    law_cut_off(m, bytes, k);
}

/// All that the reader hands out from `s` on, up to its first `None`.
pub open spec fn all_read(s: Seq<u8>) -> Seq<Result<MessageView, ReadError>>
    decreases s.len(),
{
    proof {
        law_progress(s);
    }
    match next_read(s) {
        (None, _) => Seq::empty(),
        (Some(msg), rest) => seq![msg] + all_read(rest),
    }
}

/// Messages that were packed into one payload, one after the other, come out of
/// the reader in that order, all of them and nothing else.
pub proof fn law_packed(msgs: Seq<MessageView>, parts: Seq<Seq<u8>>)
    requires
        msgs.len() == parts.len(),
        forall|i: int|
            0 <= i < msgs.len() ==> encodes(#[trigger] msgs[i], parts[i]) && fits(
                msgs[i],
                parts[i],
            ),
    ensures
        all_read(parts.flatten()) == msgs.map_values(
            |m: MessageView| Ok::<MessageView, ReadError>(m),
        ),
    decreases msgs.len(),
{
    let f = |m: MessageView| Ok::<MessageView, ReadError>(m);
    if msgs.len() == 0 {
        law_progress(parts.flatten());
        assert(msgs.map_values(f) =~= Seq::empty());
    } else {
        let s = parts.flatten();
        let rest = parts.drop_first().flatten();
        assert(s == parts.first() + rest);
        assert(encodes(msgs[0], parts[0]) && fits(msgs[0], parts[0]));
        law_round_trip(msgs[0], parts[0], rest);
        law_packed(msgs.drop_first(), parts.drop_first());
        assert(msgs.map_values(f) =~= seq![f(msgs[0])] + msgs.drop_first().map_values(f));
    }
}

} // verus!
