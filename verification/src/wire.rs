//! The bytes on the wire, message by message: what any other peer of the protocol
//! sends and expects, written out down to the integers, the buffers and the text.

use crate::awareness_update::{
    encodes_update, entry_bytes, update_entries, update_entries_read,
    update_read, update_result, AwarenessUpdate, EntryView,
};
use crate::encoding::{
    buf_read, bytes_result, string_read, string_result, var_bytes, var_u32_read,
    var_u64_read, var_u8_read, ReadError,
};
use crate::message::{
    encodes, encodes_sync, message_read, message_result, sync_read, sync_result,
    Message, MessageView, SyncMessage, SyncMessageView,
};
use crate::reader::{next_read, next_result};
use crate::state_vector::{
    clock_entries, clock_entries_read, clocks, clocks_read, clocks_result, encodes_clocks,
    lemma_lists_len, lists,
};
use vstd::prelude::*;
use vstd::utf8::{decode_utf8, encode_utf8, valid_utf8};
use yrs::StateVector;

verus! {

/// An integer below 128 is one byte; a larger one is its lowest seven bits with the
/// high bit set, and then the rest.
pub proof fn law_integer_bytes(n: nat)
    ensures
        n < 128 ==> var_bytes(n) == seq![n as u8],
        n >= 128 ==> var_bytes(n) == seq![(n % 128 + 128) as u8] + var_bytes(n / 128),
{
}

/// An update message is 0, 2, the length of the update, and the update as it is.
pub proof fn law_update_message_bytes(u: Seq<u8>, bytes: Seq<u8>)
    ensures
        encodes(MessageView::Sync(SyncMessageView::Update(u)), bytes) <==> bytes == seq![0u8, 2u8]
            + var_bytes(u.len()) + u,
        encodes_sync(SyncMessageView::Update(u), bytes) <==> bytes == seq![2u8] + var_bytes(u.len())
            + u,
        u.len() < 128 ==> var_bytes(u.len()) == seq![u.len() as u8],
{
    lemma_sync_bytes(SyncMessageView::Update(u), 2, u, bytes);
}

/// A message of the second sync step is 0, 1, the length of the update, and the update
/// as it is.
pub proof fn law_step2_message_bytes(u: Seq<u8>, bytes: Seq<u8>)
    ensures
        encodes(MessageView::Sync(SyncMessageView::SyncStep2(u)), bytes) <==> bytes == seq![
            0u8,
            1u8,
        ] + var_bytes(u.len()) + u,
        encodes_sync(SyncMessageView::SyncStep2(u), bytes) <==> bytes == seq![1u8] + var_bytes(
            u.len(),
        ) + u,
{
    lemma_sync_bytes(SyncMessageView::SyncStep2(u), 1, u, bytes);
}

/// The bytes of a message with a buffer of its own.
proof fn lemma_sync_bytes(m: SyncMessageView, tag: u8, u: Seq<u8>, bytes: Seq<u8>)
    requires
        m == SyncMessageView::SyncStep2(u) && tag == 1 || m == SyncMessageView::Update(u) && tag
            == 2,
    ensures
        encodes(MessageView::Sync(m), bytes) <==> bytes == seq![0u8, tag] + var_bytes(u.len()) + u,
        encodes_sync(m, bytes) <==> bytes == seq![tag] + var_bytes(u.len()) + u,
{
    let body = seq![tag] + var_bytes(u.len()) + u;
    assert(var_bytes(0) =~= seq![0u8]);
    assert(var_bytes(tag as nat) =~= seq![tag]);
    assert(body =~= var_bytes(tag as nat) + (var_bytes(u.len()) + u));
    assert(seq![0u8, tag] + var_bytes(u.len()) + u =~= seq![0u8] + body);
    assert(encodes_sync(m, body));
    let outer = MessageView::Sync(m);
    assert(encodes_sync(outer->Sync_0, body));
}

/// A message of the first sync step is 0, 0, the length of the encoded state vector,
/// and the state vector.
pub proof fn law_step1_message_bytes(sv: Map<u64, u32>, bytes: Seq<u8>)
    ensures
        encodes(MessageView::Sync(SyncMessageView::SyncStep1(sv)), bytes) <==> exists|
            body: Seq<u8>,
        | #[trigger]
            encodes_clocks(sv, body) && bytes == seq![0u8, 0u8] + var_bytes(body.len()) + body,
        encodes_sync(SyncMessageView::SyncStep1(sv), bytes) <==> exists|body: Seq<u8>| #[trigger]
            encodes_clocks(sv, body) && bytes == seq![0u8] + var_bytes(body.len()) + body,
{
    let m = SyncMessageView::SyncStep1(sv);
    let outer = MessageView::Sync(m);
    assert(var_bytes(0) =~= seq![0u8]);
    assert forall|body: Seq<u8>|
        #![trigger encodes_clocks(sv, body)]
        seq![0u8] + (var_bytes(body.len()) + body) == seq![0u8] + var_bytes(body.len()) + body
            && seq![0u8] + (seq![0u8] + var_bytes(body.len()) + body) == seq![0u8, 0u8] + var_bytes(
            body.len(),
        ) + body by {
        assert(seq![0u8] + (var_bytes(body.len()) + body) =~= seq![0u8] + var_bytes(body.len())
            + body);
        assert(seq![0u8] + (seq![0u8] + var_bytes(body.len()) + body) =~= seq![0u8, 0u8]
            + var_bytes(body.len()) + body);
    }
    if encodes(outer, bytes) {
        let inner = choose|inner: Seq<u8>| #[trigger]
            encodes_sync(outer->Sync_0, inner) && bytes == var_bytes(0) + inner;
        assert(encodes_sync(m, inner));
        let body = choose|body: Seq<u8>| #[trigger]
            encodes_clocks(sv, body) && inner == var_bytes(0) + (var_bytes(body.len()) + body);
        assert(encodes_clocks(sv, body) && bytes == seq![0u8, 0u8] + var_bytes(body.len()) + body);
    }
    if exists|body: Seq<u8>| #[trigger]
        encodes_clocks(sv, body) && bytes == seq![0u8, 0u8] + var_bytes(body.len()) + body {
        let body = choose|body: Seq<u8>| #[trigger]
            encodes_clocks(sv, body) && bytes == seq![0u8, 0u8] + var_bytes(body.len()) + body;
        let inner = seq![0u8] + var_bytes(body.len()) + body;
        assert(encodes_clocks(m->SyncStep1_0, body));
        assert(encodes_sync(m, inner));
        assert(encodes_sync(outer->Sync_0, inner));
    }
    if exists|body: Seq<u8>| #[trigger]
        encodes_clocks(sv, body) && bytes == seq![0u8] + var_bytes(body.len()) + body {
        let body = choose|body: Seq<u8>| #[trigger]
            encodes_clocks(sv, body) && bytes == seq![0u8] + var_bytes(body.len()) + body;
        assert(encodes_clocks(m->SyncStep1_0, body));
    }
}

/// A denial is 2, 0, and the reason with the length of its UTF-8 bytes in front; a
/// permission is 2, 1.
pub proof fn law_auth_message_bytes(reason: Seq<char>, bytes: Seq<u8>)
    ensures
        encodes(MessageView::Auth(Some(reason)), bytes) <==> bytes == seq![2u8, 0u8] + var_bytes(
            encode_utf8(reason).len(),
        ) + encode_utf8(reason),
        encodes(MessageView::Auth(None), bytes) <==> bytes == seq![2u8, 1u8],
{
    let text = encode_utf8(reason);
    assert(var_bytes(0) =~= seq![0u8]);
    assert(var_bytes(1) =~= seq![1u8]);
    assert(var_bytes(2) =~= seq![2u8]);
    assert(seq![2u8] + seq![0u8] + (var_bytes(text.len()) + text) =~= seq![2u8, 0u8] + var_bytes(
        text.len(),
    ) + text);
    assert(seq![2u8] + seq![1u8] =~= seq![2u8, 1u8]);
}

/// A query is 3.
pub proof fn law_query_message_bytes(bytes: Seq<u8>)
    ensures
        encodes(MessageView::AwarenessQuery, bytes) <==> bytes == seq![3u8],
{
    assert(var_bytes(3) =~= seq![3u8]);
}

/// An awareness message is 1, the length of the encoded update, and the update.
pub proof fn law_awareness_message_bytes(update: Map<u64, EntryView>, bytes: Seq<u8>)
    ensures
        encodes(MessageView::Awareness(update), bytes) <==> exists|body: Seq<u8>| #[trigger]
            encodes_update(update, body) && bytes == seq![1u8] + var_bytes(body.len()) + body,
{
    let m = MessageView::Awareness(update);
    assert(var_bytes(1) =~= seq![1u8]);
    assert forall|body: Seq<u8>|
        #![trigger encodes_update(update, body)]
        seq![1u8] + (var_bytes(body.len()) + body) == seq![1u8] + var_bytes(body.len()) + body by {
        assert(seq![1u8] + (var_bytes(body.len()) + body) =~= seq![1u8] + var_bytes(body.len())
            + body);
    }
    if exists|body: Seq<u8>| #[trigger]
        encodes_update(update, body) && bytes == seq![1u8] + var_bytes(body.len()) + body {
        let body = choose|body: Seq<u8>| #[trigger]
            encodes_update(update, body) && bytes == seq![1u8] + var_bytes(body.len()) + body;
        assert(encodes_update(m->Awareness_0, body));
    }
}

/// A custom message is its tag as an integer, the length of its data, and the data as
/// they are.
pub proof fn law_custom_message_bytes(tag: u8, data: Seq<u8>, bytes: Seq<u8>)
    ensures
        encodes(MessageView::Custom(tag, data), bytes) <==> bytes == var_bytes(tag as nat)
            + var_bytes(data.len()) + data,
{
    assert(var_bytes(tag as nat) + (var_bytes(data.len()) + data) =~= var_bytes(tag as nat)
        + var_bytes(data.len()) + data);
}

/// An encoded state vector is the number of its clients, and then each client once, in
/// any order, followed by its clock.
pub proof fn law_state_vector_bytes(m: Map<u64, u32>, bytes: Seq<u8>)
    ensures
        encodes_clocks(m, bytes) <==> exists|order: Seq<u64>|
            {
                &&& #[trigger] order.no_duplicates()
                &&& order.to_set() == m.dom()
                &&& bytes == var_bytes(order.len()) + order.map_values(
                    |c: u64| var_bytes(c as nat) + var_bytes(m[c] as nat),
                ).flatten()
            },
{
    let f = |c: u64| var_bytes(c as nat) + var_bytes(m[c] as nat);
    if encodes_clocks(m, bytes) {
        let order = choose|order: Seq<u64>| #[trigger]
            lists(order, m.dom()) && bytes == var_bytes(order.len()) + clock_entries(order, m);
        lemma_lists_len(order, m.dom());
        lemma_clock_entries_flat(order, m);
        assert(order.no_duplicates());
    }
    if exists|order: Seq<u64>| #[trigger]
        order.no_duplicates() && order.to_set() == m.dom() && bytes == var_bytes(order.len())
            + order.map_values(f).flatten() {
        let order = choose|order: Seq<u64>| #[trigger]
            order.no_duplicates() && order.to_set() == m.dom() && bytes == var_bytes(order.len())
                + order.map_values(f).flatten();
        lemma_clock_entries_flat(order, m);
        assert forall|k: u64| order.contains(k) <==> m.dom().contains(k) by {
            assert(order.to_set().contains(k) <==> order.contains(k));
        }
        assert(lists(order, m.dom()));
    }
}

/// The entries of a state vector, one after the other.
proof fn lemma_clock_entries_flat(order: Seq<u64>, m: Map<u64, u32>)
    ensures
        clock_entries(order, m) == order.map_values(
            |c: u64| var_bytes(c as nat) + var_bytes(m[c] as nat),
        ).flatten(),
    decreases order.len(),
{
    let f = |c: u64| var_bytes(c as nat) + var_bytes(m[c] as nat);
    if order.len() > 0 {
        lemma_clock_entries_flat(order.drop_first(), m);
        assert(order.map_values(f).drop_first() =~= order.drop_first().map_values(f));
        assert(order.map_values(f).first() == f(order[0]));
    }
}

/// An encoded awareness update is the number of its clients, and then each client once,
/// in any order, followed by its clock, and its state with the length of its UTF-8
/// bytes in front.
pub proof fn law_awareness_update_bytes(m: Map<u64, EntryView>, bytes: Seq<u8>)
    ensures
        encodes_update(m, bytes) <==> exists|order: Seq<u64>|
            {
                &&& #[trigger] order.no_duplicates()
                &&& order.to_set() == m.dom()
                &&& bytes == var_bytes(order.len()) + order.map_values(
                    |c: u64|
                        var_bytes(c as nat) + var_bytes(m[c].clock as nat) + var_bytes(
                            encode_utf8(m[c].json).len(),
                        ) + encode_utf8(m[c].json),
                ).flatten()
            },
{
    let f = |c: u64|
        var_bytes(c as nat) + var_bytes(m[c].clock as nat) + var_bytes(
            encode_utf8(m[c].json).len(),
        ) + encode_utf8(m[c].json);
    if encodes_update(m, bytes) {
        let order = choose|order: Seq<u64>| #[trigger]
            lists(order, m.dom()) && bytes == var_bytes(order.len()) + update_entries(order, m);
        lemma_lists_len(order, m.dom());
        lemma_update_entries_flat(order, m);
        assert(order.no_duplicates());
    }
    if exists|order: Seq<u64>| #[trigger]
        order.no_duplicates() && order.to_set() == m.dom() && bytes == var_bytes(order.len())
            + order.map_values(f).flatten() {
        let order = choose|order: Seq<u64>| #[trigger]
            order.no_duplicates() && order.to_set() == m.dom() && bytes == var_bytes(order.len())
                + order.map_values(f).flatten();
        lemma_update_entries_flat(order, m);
        assert forall|k: u64| order.contains(k) <==> m.dom().contains(k) by {
            assert(order.to_set().contains(k) <==> order.contains(k));
        }
        assert(lists(order, m.dom()));
    }
}

/// The entries of an awareness update, one after the other.
proof fn lemma_update_entries_flat(order: Seq<u64>, m: Map<u64, EntryView>)
    ensures
        update_entries(order, m) == order.map_values(
            |c: u64|
                var_bytes(c as nat) + var_bytes(m[c].clock as nat) + var_bytes(
                    encode_utf8(m[c].json).len(),
                ) + encode_utf8(m[c].json),
        ).flatten(),
    decreases order.len(),
{
    let f = |c: u64|
        var_bytes(c as nat) + var_bytes(m[c].clock as nat) + var_bytes(
            encode_utf8(m[c].json).len(),
        ) + encode_utf8(m[c].json);
    if order.len() > 0 {
        lemma_update_entries_flat(order.drop_first(), m);
        assert(order.map_values(f).drop_first() =~= order.drop_first().map_values(f));
        assert(order.map_values(f).first() == f(order[0]));
        assert(entry_bytes(order[0], m[order[0]]) =~= f(order[0]));
    }
}

/// Where no tag can be read, there is no message, and the reason is that of the tag.
pub proof fn law_no_tag_no_message(s: Seq<u8>, e: ReadError)
    requires
        var_u8_read(s).0 == Err::<u8, ReadError>(e),
    ensures
        message_read(s) == (Err::<MessageView, ReadError>(e), var_u8_read(s).1),
        sync_read(s) == (Err::<SyncMessageView, ReadError>(e), var_u8_read(s).1),
{
}

/// Behind the tag 0 stands a message about the document.
pub proof fn law_reads_sync(s: Seq<u8>, s1: Seq<u8>)
    requires
        var_u8_read(s) == (Ok::<u8, ReadError>(0), s1),
    ensures
        message_read(s).1 == sync_read(s1).1,
        sync_read(s1).0 matches Ok(m) ==> message_read(s).0 == Ok::<MessageView, ReadError>(
            MessageView::Sync(m),
        ),
        sync_read(s1).0 matches Err(e) ==> message_read(s).0 == Err::<MessageView, ReadError>(e),
{
}

/// Behind the tags 0 and 0, 1 or 2 stands a length and as many bytes: an encoded state
/// vector, the update of the second sync step, or an update. The bytes are handed on
/// as they are. Where there are fewer than announced, the bytes end too early.
pub proof fn law_reads_sync_body(
    s: Seq<u8>,
    s1: Seq<u8>,
    tag: u8,
    s2: Seq<u8>,
    n: u32,
    s3: Seq<u8>,
)
    requires
        var_u8_read(s) == (Ok::<u8, ReadError>(0), s1),
        var_u8_read(s1) == (Ok::<u8, ReadError>(tag), s2),
        var_u32_read(s2) == (Ok::<u32, ReadError>(n), s3),
    ensures
        tag == 1 && n <= s3.len() ==> message_read(s) == (
            Ok::<MessageView, ReadError>(
                MessageView::Sync(SyncMessageView::SyncStep2(s3.take(n as int))),
            ),
            s3.skip(n as int),
        ),
        tag == 2 && n <= s3.len() ==> message_read(s) == (
            Ok::<MessageView, ReadError>(
                MessageView::Sync(SyncMessageView::Update(s3.take(n as int))),
            ),
            s3.skip(n as int),
        ),
        tag == 0 && n <= s3.len() ==> message_read(s) == (
            match clocks_read(s3.take(n as int)) {
                Ok(sv) => Ok::<MessageView, ReadError>(
                    MessageView::Sync(SyncMessageView::SyncStep1(sv)),
                ),
                Err(e) => Err(e),
            },
            s3.skip(n as int),
        ),
        tag <= 2 && n > s3.len() ==> message_read(s) == (
            Err::<MessageView, ReadError>(ReadError::EndOfBuffer(n as usize)),
            s3,
        ),
{
}

/// Behind the tag 0, any other tag is refused, and so is what holds no tag or no
/// length.
pub proof fn law_reads_no_sync(s: Seq<u8>, s1: Seq<u8>)
    requires
        var_u8_read(s) == (Ok::<u8, ReadError>(0), s1),
    ensures
        ({
            let (tag, s2) = var_u8_read(s1);
            let (len, s3) = var_u32_read(s2);
            &&& tag matches Err(e) ==> message_read(s) == (Err::<MessageView, ReadError>(e), s2)
            &&& tag matches Ok(tag) ==> tag > 2 ==> message_read(s) == (
                Err::<MessageView, ReadError>(ReadError::UnexpectedValue),
                s2,
            )
            &&& tag matches Ok(tag) ==> tag <= 2 ==> (len matches Err(e) ==> message_read(s) == (
                Err::<MessageView, ReadError>(e),
                s3,
            ))
        }),
{
}

/// Behind the tag 2 stands 0 and a reason, or anything else, which grants access.
pub proof fn law_reads_auth(s: Seq<u8>, s1: Seq<u8>)
    requires
        var_u8_read(s) == (Ok::<u8, ReadError>(2), s1),
    ensures
        ({
            let (permission, s2) = var_u8_read(s1);
            let (len, s3) = var_u32_read(s2);
            &&& permission matches Err(e) ==> message_read(s) == (
                Err::<MessageView, ReadError>(e),
                s2,
            )
            &&& permission matches Ok(p) ==> p != 0 ==> message_read(s) == (
                Ok::<MessageView, ReadError>(MessageView::Auth(None)),
                s2,
            )
            &&& permission == Ok::<u8, ReadError>(0) ==> match len {
                Err(e) => message_read(s) == (Err::<MessageView, ReadError>(e), s3),
                Ok(n) => {
                    let text = s3.take(n as int);
                    &&& n > s3.len() ==> message_read(s) == (
                        Err::<MessageView, ReadError>(ReadError::EndOfBuffer(n as usize)),
                        s3,
                    )
                    &&& n <= s3.len() && valid_utf8(text) ==> message_read(s) == (
                        Ok::<MessageView, ReadError>(MessageView::Auth(Some(decode_utf8(text)))),
                        s3.skip(n as int),
                    )
                    &&& n <= s3.len() && !valid_utf8(text) ==> message_read(s) == (
                        Err::<MessageView, ReadError>(ReadError::UnexpectedValue),
                        s3.skip(n as int),
                    )
                },
            }
        }),
{
}

/// Behind the tag 3 stands nothing.
pub proof fn law_reads_query(s: Seq<u8>, s1: Seq<u8>)
    requires
        var_u8_read(s) == (Ok::<u8, ReadError>(3), s1),
    ensures
        message_read(s) == (Ok::<MessageView, ReadError>(MessageView::AwarenessQuery), s1),
{
}

/// Behind the tag 1, and behind any tag that has no meaning, stands a length and as many
/// bytes: an encoded awareness update, or data that are handed on as they are. Where
/// there are fewer than announced, the bytes end too early.
pub proof fn law_reads_body(s: Seq<u8>, tag: u8, s1: Seq<u8>)
    requires
        var_u8_read(s) == (Ok::<u8, ReadError>(tag), s1),
        tag == 1 || tag > 3,
    ensures
        ({
            let (len, s2) = var_u32_read(s1);
            match len {
                Err(e) => message_read(s) == (Err::<MessageView, ReadError>(e), s2),
                Ok(n) => {
                    let body = s2.take(n as int);
                    &&& n > s2.len() ==> message_read(s) == (
                        Err::<MessageView, ReadError>(ReadError::EndOfBuffer(n as usize)),
                        s2,
                    )
                    &&& n <= s2.len() && tag > 3 ==> message_read(s) == (
                        Ok::<MessageView, ReadError>(MessageView::Custom(tag, body)),
                        s2.skip(n as int),
                    )
                    &&& n <= s2.len() && tag == 1 ==> message_read(s) == (
                        match update_read(body).0 {
                            Ok(update) => Ok::<MessageView, ReadError>(
                                MessageView::Awareness(update),
                            ),
                            Err(e) => Err(e),
                        },
                        s2.skip(n as int),
                    )
                },
            }
        }),
{
}

/// A string is a length and as many bytes, which have to be UTF-8.
pub proof fn law_reads_string(s: Seq<u8>)
    ensures
        ({
            let (len, s1) = var_u32_read(s);
            match len {
                Err(e) => string_read(s) == (Err::<Seq<char>, ReadError>(e), s1) && buf_read(s) == (
                    Err::<Seq<u8>, ReadError>(e),
                    s1,
                ),
                Ok(n) => {
                    let data = s1.take(n as int);
                    let rest = s1.skip(n as int);
                    &&& n > s1.len() ==> {
                        &&& buf_read(s) == (
                            Err::<Seq<u8>, ReadError>(ReadError::EndOfBuffer(n as usize)),
                            s1,
                        )
                        &&& string_read(s) == (
                            Err::<Seq<char>, ReadError>(ReadError::EndOfBuffer(n as usize)),
                            s1,
                        )
                    }
                    &&& n <= s1.len() ==> {
                        &&& buf_read(s) == (Ok::<Seq<u8>, ReadError>(data), rest)
                        &&& valid_utf8(data) ==> string_read(s) == (
                            Ok::<Seq<char>, ReadError>(decode_utf8(data)),
                            rest,
                        )
                        &&& !valid_utf8(data) ==> string_read(s) == (
                            Err::<Seq<char>, ReadError>(ReadError::UnexpectedValue),
                            rest,
                        )
                    }
                },
            }
        }),
{
}

/// An awareness update is a number, and as many entries.
pub proof fn law_reads_awareness_update(s: Seq<u8>)
    ensures
        ({
            let (n, s1) = var_u64_read(s);
            match n {
                Err(e) => update_read(s) == (Err::<Map<u64, EntryView>, ReadError>(e), s1),
                Ok(n) => update_read(s) == update_entries_read(s1, n as nat, Map::empty()),
            }
        }),
{
}

/// An entry is a client, a clock and a state; it takes the place of an earlier entry of
/// the same client. The first thing that is wrong ends the reading.
pub proof fn law_reads_entry(s: Seq<u8>, n: nat, m: Map<u64, EntryView>)
    ensures
        update_entries_read(s, 0, m) == (Ok::<Map<u64, EntryView>, ReadError>(m), s),
        ({
            let (client, s1) = var_u64_read(s);
            let (clock, s2) = var_u32_read(s1);
            let (json, s3) = string_read(s2);
            &&& client matches Err(e) ==> update_entries_read(s, n + 1, m) == (
                Err::<Map<u64, EntryView>, ReadError>(e),
                s1,
            )
            &&& client is Ok ==> (clock matches Err(e) ==> update_entries_read(s, n + 1, m) == (
                Err::<Map<u64, EntryView>, ReadError>(e),
                s2,
            ))
            &&& client is Ok && clock is Ok ==> (json matches Err(e) ==> update_entries_read(
                s,
                n + 1,
                m,
            ) == (Err::<Map<u64, EntryView>, ReadError>(e), s3))
            &&& client is Ok && clock is Ok && json is Ok ==> update_entries_read(s, n + 1, m)
                == update_entries_read(
                s3,
                n,
                m.insert(
                    client->Ok_0,
                    (EntryView { clock: clock->Ok_0, json: json->Ok_0 }),
                ),
            )
        }),
{
}

/// A state vector is a number, and as many entries, each a client and a clock. A later
/// entry takes the place of an earlier one of the same client, and the first thing that
/// is wrong ends the reading.
pub proof fn law_reads_state_vector(s: Seq<u8>, n: nat, m: Map<u64, u32>)
    ensures
        var_u32_read(s).0 matches Err(e) ==> clocks_read(s) == Err::<Map<u64, u32>, ReadError>(e),
        var_u32_read(s).0 matches Ok(count) ==> clocks_read(s) == clock_entries_read(
            var_u32_read(s).1,
            count as nat,
            Map::empty(),
        ),
        clock_entries_read(s, 0, m) == Ok::<Map<u64, u32>, ReadError>(m),
        ({
            let (client, s1) = var_u64_read(s);
            let (clock, s2) = var_u32_read(s1);
            &&& client matches Err(e) ==> clock_entries_read(s, n + 1, m) == Err::<
                Map<u64, u32>,
                ReadError,
            >(e)
            &&& client is Ok ==> (clock matches Err(e) ==> clock_entries_read(s, n + 1, m) == Err::<
                Map<u64, u32>,
                ReadError,
            >(e))
            &&& client is Ok && clock is Ok ==> clock_entries_read(s, n + 1, m)
                == clock_entries_read(s2, n, m.insert(client->Ok_0, clock->Ok_0))
        }),
{
}

/// The reader hands out what can be decoded and what is wrong, and stops only where the
/// bytes end too early. What it consumes is what decoding consumes.
pub proof fn law_reader_hands_out(s: Seq<u8>)
    ensures
        next_read(s).1 == message_read(s).1,
        message_read(s).0 matches Ok(m) ==> next_read(s).0 == Some(Ok::<MessageView, ReadError>(m)),
        message_read(s).0 matches Err(ReadError::EndOfBuffer(_)) ==> next_read(s).0 is None,
        message_read(s).0 matches Err(e) ==> !(e is EndOfBuffer) ==> next_read(s).0 == Some(
            Err::<MessageView, ReadError>(e),
        ),
{
}

/// What a message about the document holds is what is in it.
pub proof fn law_sync_message_holds(sv: StateVector, u: Vec<u8>)
    ensures
        SyncMessage::SyncStep1(sv)@ == SyncMessageView::SyncStep1(clocks(sv)),
        SyncMessage::SyncStep2(u)@ == SyncMessageView::SyncStep2(u@),
        SyncMessage::Update(u)@ == SyncMessageView::Update(u@),
{
}

/// What a message holds is what is in it.
pub proof fn law_message_holds(
    msg: SyncMessage,
    reason: String,
    update: AwarenessUpdate,
    tag: u8,
    data: Vec<u8>,
)
    ensures
        Message::Sync(msg)@ == MessageView::Sync(msg@),
        Message::Auth(Some(reason))@ == MessageView::Auth(Some(reason@)),
        Message::Auth(None)@ == MessageView::Auth(None),
        Message::AwarenessQuery@ == MessageView::AwarenessQuery,
        Message::Awareness(update)@ == MessageView::Awareness(update@),
        Message::Custom(tag, data)@ == MessageView::Custom(tag, data@),
{
}

/// What an awareness update holds is the clock and the state of each client in it.
pub proof fn law_awareness_update_holds(update: AwarenessUpdate, c: u64)
    ensures
        update@.contains_key(c) <==> update.clients@.contains_key(c),
        update.clients@.contains_key(c) ==> update@[c].clock == update.clients@[c].clock
            && update@[c].json == update.clients@[c].json@,
{
}

/// Taking a result by what it holds keeps whether it is one, and which error it is
/// otherwise.
pub proof fn law_results_hold(
    msg: Message,
    sync: SyncMessage,
    update: AwarenessUpdate,
    bytes: Vec<u8>,
    text: String,
    sv: StateVector,
    e: ReadError,
)
    ensures
        message_result(Ok(msg)) == Ok::<MessageView, ReadError>(msg@),
        message_result(Err(e)) == Err::<MessageView, ReadError>(e),
        sync_result(Ok(sync)) == Ok::<SyncMessageView, ReadError>(sync@),
        sync_result(Err(e)) == Err::<SyncMessageView, ReadError>(e),
        update_result(Ok(update)) == Ok::<Map<u64, EntryView>, ReadError>(update@),
        update_result(Err(e)) == Err::<Map<u64, EntryView>, ReadError>(e),
        bytes_result(Ok(bytes)) == Ok::<Seq<u8>, ReadError>(bytes@),
        bytes_result(Err(e)) == Err::<Seq<u8>, ReadError>(e),
        string_result(Ok(text)) == Ok::<Seq<char>, ReadError>(text@),
        string_result(Err(e)) == Err::<Seq<char>, ReadError>(e),
        clocks_result(Ok(sv)) == Ok::<Map<u64, u32>, ReadError>(clocks(sv)),
        clocks_result(Err(e)) == Err::<Map<u64, u32>, ReadError>(e),
        next_result(Some(Ok(msg))) == Some(Ok::<MessageView, ReadError>(msg@)),
        next_result(Some(Err(e))) == Some(Err::<MessageView, ReadError>(e)),
        next_result(None) is None,
{
}

} // verus!
