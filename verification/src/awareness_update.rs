//! Awareness updates: the states of some clients, as one peer sends them to
//! another.

use crate::encoding::{
    into_bytes, lemma_string_read, lemma_var_u32_read, lemma_var_u64_read, new_decoder,
    new_encoder, read_string, read_var_u32, read_var_u64, string_bytes, string_read, unread,
    var_bytes, var_u32_read, var_u64_read, write_string, write_var, written, ReadError,
};
use crate::state_vector::{lemma_lists_len, lemma_one_listing, lemma_union_step, lists};
use std::collections::HashMap;
use vstd::prelude::*;
use vstd::std_specs::iter::IteratorSpec;
use vstd::utf8::encode_utf8;
use yrs::updates::decoder::DecoderV1;
use yrs::updates::encoder::EncoderV1;

verus! {

broadcast use vstd::std_specs::hash::group_hash_axioms;

/// What an update says of one client.
#[derive(Debug, PartialEq, Eq)]
pub struct AwarenessUpdateEntry {
    /// Grows with each change; tells which of two states is the later one.
    pub clock: u32,
    /// The client's state, as JSON. The text `null` withdraws it.
    pub json: String,
}

/// States of some clients, as one peer sends them to another.
#[derive(Debug, PartialEq, Eq)]
pub struct AwarenessUpdate {
    /// The entry of each client.
    pub clients: HashMap<u64, AwarenessUpdateEntry>,
}

/// What an [AwarenessUpdateEntry] holds.
pub struct EntryView {
    pub clock: u32,
    pub json: Seq<char>,
}

impl View for AwarenessUpdateEntry {
    type V = EntryView;

    open spec fn view(&self) -> EntryView {
        EntryView { clock: self.clock, json: self.json@ }
    }
}

impl View for AwarenessUpdate {
    type V = Map<u64, EntryView>;

    open spec fn view(&self) -> Map<u64, EntryView> {
        self.clients@.map_values(|e: AwarenessUpdateEntry| e@)
    }
}

/// The encoding of one entry: the client, its clock, its state.
pub open spec fn entry_bytes(client: u64, e: EntryView) -> Seq<u8> {
    var_bytes(client as nat) + var_bytes(e.clock as nat) + string_bytes(e.json)
}

/// The entries of `m` for the clients of `order`, one after the other.
pub open spec fn update_entries(order: Seq<u64>, m: Map<u64, EntryView>) -> Seq<u8>
    decreases order.len(),
{
    if order.len() == 0 {
        Seq::empty()
    } else {
        entry_bytes(order[0], m[order[0]]) + update_entries(order.drop_first(), m)
    }
}

/// `bytes` encode `m`: the number of clients, and then their entries in some order.
pub open spec fn encodes_update(m: Map<u64, EntryView>, bytes: Seq<u8>) -> bool {
    exists|order: Seq<u64>| #[trigger]
        lists(order, m.dom()) && bytes == var_bytes(order.len()) + update_entries(order, m)
}

/// Reads `n` entries off the front of `s` into `m`; a client that comes twice keeps
/// the later entry.
pub open spec fn update_entries_read(s: Seq<u8>, n: nat, m: Map<u64, EntryView>) -> (
    Result<Map<u64, EntryView>, ReadError>,
    Seq<u8>,
)
    decreases n,
{
    if n == 0 {
        (Ok(m), s)
    } else {
        let (client, s1) = var_u64_read(s);
        let (clock, s2) = var_u32_read(s1);
        let (json, s3) = string_read(s2);
        match (client, clock, json) {
            (Ok(client), Ok(clock), Ok(json)) => update_entries_read(
                s3,
                (n - 1) as nat,
                m.insert(client, EntryView { clock, json }),
            ),
            (Ok(_), Ok(_), Err(e)) => (Err(e), s3),
            (Ok(_), Err(e), _) => (Err(e), s2),
            (Err(e), _, _) => (Err(e), s1),
        }
    }
}

/// The update at the front of `s`.
pub open spec fn update_read(s: Seq<u8>) -> (Result<Map<u64, EntryView>, ReadError>, Seq<u8>) {
    let (n, rest) = var_u64_read(s);
    match n {
        Ok(n) => update_entries_read(rest, n as nat, Map::empty()),
        Err(e) => (Err(e), rest),
    }
}

/// What a result of an update holds, taken by its view.
pub open spec fn update_result(r: Result<AwarenessUpdate, ReadError>) -> Result<
    Map<u64, EntryView>,
    ReadError,
> {
    match r {
        Ok(update) => Ok(update@),
        Err(e) => Err(e),
    }
}

/// An entry at the end of the order comes at the end of the bytes.
proof fn lemma_update_entries_push(order: Seq<u64>, client: u64, m: Map<u64, EntryView>)
    ensures
        update_entries(order.push(client), m) == update_entries(order, m) + entry_bytes(
            client,
            m[client],
        ),
    decreases order.len(),
{
    let longer = order.push(client);
    if order.len() == 0 {
        assert(longer.drop_first() =~= order);
        assert(update_entries(longer, m) =~= update_entries(order, m) + entry_bytes(
            client,
            m[client],
        ));
    } else {
        lemma_update_entries_push(order.drop_first(), client, m);
        assert(longer.drop_first() =~= order.drop_first().push(client));
        assert(update_entries(longer, m) =~= update_entries(order, m) + entry_bytes(
            client,
            m[client],
        ));
    }
}

/// A walk over the keys of a hash map names each of them once.
pub proof fn lemma_keys<V>(m: &HashMap<u64, V>, keys: Seq<u64>)
    requires
        keys == m.keys().remaining().unref(),
    ensures
        lists(keys, m@.dom()),
        keys.len() == m@.dom().len(),
{
}

impl AwarenessUpdate {
    /// Appends the update to what the encoder holds.
    pub fn encode(&self, encoder: &mut EncoderV1)
        ensures
            exists|bytes: Seq<u8>| #[trigger]
                encodes_update(self@, bytes) && written(*final(encoder)) == written(*old(encoder))
                    + bytes,
    {
        let ghost m = self@;
        let ghost keys = self.clients.keys().remaining().unref();
        proof {
            lemma_keys(&self.clients, keys);
        }
        write_var(encoder, self.clients.len() as u64);
        let ghost start = written(*encoder);
        let ghost mut order = Seq::<u64>::empty();
        assert(start =~= start + update_entries(order, m));
        for client in iter: self.clients.keys()
            invariant
                m == self@,
                iter.seq().unref() == keys,
                order =~= keys.take(iter.index() as int),
                written(*encoder) == start + update_entries(order, m),
        {
            let ghost before = order;
            match self.clients.get(client) {
                Some(entry) => {
                    write_var(encoder, *client);
                    write_var(encoder, entry.clock as u64);
                    write_string(encoder, entry.json.as_str());
                    proof {
                        lemma_update_entries_push(before, *client, m);
                        order = before.push(*client);
                    }
                },
                None => {
                    assert(false);
                },
            }
        }
        proof {
            assert(order =~= keys);
            let bytes = var_bytes(keys.len()) + update_entries(keys, m);
            assert(m.dom() =~= self.clients@.dom());
            assert(lists(keys, m.dom()));
            assert(encodes_update(m, bytes));
            assert(written(*encoder) =~= written(*old(encoder)) + bytes);
        }
    }

    /// Reads an update off the front of the decoder.
    pub fn decode(decoder: &mut DecoderV1) -> (update: Result<AwarenessUpdate, ReadError>)
        ensures
            (update_result(update), unread(*final(decoder))) == update_read(
                unread(*old(decoder)),
            ),
    {
        let len = match read_var_u64(decoder) {
            Ok(len) => len,
            Err(e) => return Err(e),
        };
        let ghost start = unread(*decoder);
        let mut update = AwarenessUpdate { clients: HashMap::new() };
        assert(update@ =~= Map::empty());
        let mut i: u64 = 0;
        while i < len
            invariant
                i <= len,
                update_entries_read(start, len as nat, Map::empty()) == update_entries_read(
                    unread(*decoder),
                    (len - i) as nat,
                    update@,
                ),
                update_read(unread(*old(decoder))) == update_entries_read(
                    start,
                    len as nat,
                    Map::empty(),
                ),
            decreases len - i,
        {
            let client = match read_var_u64(decoder) {
                Ok(client) => client,
                Err(e) => return Err(e),
            };
            let clock = match read_var_u32(decoder) {
                Ok(clock) => clock,
                Err(e) => return Err(e),
            };
            let json = match read_string(decoder) {
                Ok(json) => json,
                Err(e) => return Err(e),
            };
            let ghost before = update@;
            let entry = AwarenessUpdateEntry { clock, json };
            update.clients.insert(client, entry);
            assert(update@ =~= before.insert(client, entry@));
            i += 1;
        }
        Ok(update)
    }

    /// The update as a byte string of its own.
    pub fn encode_v1(&self) -> (bytes: Vec<u8>)
        ensures
            encodes_update(self@, bytes@),
    {
        let mut encoder = new_encoder();
        self.encode(&mut encoder);
        proof {
            let bytes = choose|bytes: Seq<u8>| #[trigger]
                encodes_update(self@, bytes) && written(encoder) == Seq::<u8>::empty() + bytes;
            assert(written(encoder) =~= bytes);
        }
        into_bytes(encoder)
    }

    /// Reads the update at the front of `data`. Bytes behind it are ignored.
    pub fn decode_v1(data: &[u8]) -> (update: Result<AwarenessUpdate, ReadError>)
        ensures
            update_result(update) == update_read(data@).0,
    {
        let mut decoder = new_decoder(data);
        AwarenessUpdate::decode(&mut decoder)
    }
}

/// No entry is empty.
proof fn lemma_update_entries_len(order: Seq<u64>, m: Map<u64, EntryView>)
    ensures
        update_entries(order, m).len() >= order.len(),
        forall|k: u64|
            order.contains(k) ==> encode_utf8(#[trigger] m[k].json).len() <= update_entries(
                order,
                m,
            ).len(),
    decreases order.len(),
{
    if order.len() > 0 {
        let others = order.drop_first();
        assert(var_bytes(order[0] as nat).len() > 0);
        lemma_update_entries_len(others, m);
        assert forall|k: u64| order.contains(k) implies encode_utf8(#[trigger] m[k].json).len()
            <= update_entries(order, m).len() by {
            if k != order[0] {
                let i = choose|i: int| 0 <= i < order.len() && order[i] == k;
                assert(others[i - 1] == k);
            }
        }
    }
}

/// Reading one entry adds it to what was there.
proof fn lemma_entry_read(
    client: u64,
    e: EntryView,
    n: nat,
    before: Map<u64, EntryView>,
    rest: Seq<u8>,
)
    requires
        encode_utf8(e.json).len() <= u32::MAX,
        n > 0,
    ensures
        update_entries_read(entry_bytes(client, e) + rest, n, before) == update_entries_read(
            rest,
            (n - 1) as nat,
            before.insert(client, e),
        ),
{
    let text = string_bytes(e.json) + rest;
    lemma_string_read(e.json, rest);
    lemma_var_u32_read(e.clock, text);
    lemma_var_u64_read(client, var_bytes(e.clock as nat) + text);
    assert(entry_bytes(client, e) + rest =~= var_bytes(client as nat) + (var_bytes(
        e.clock as nat,
    ) + text));
}

/// Reading the entries of `order` adds them to what was there.
proof fn lemma_update_entries_read(
    order: Seq<u64>,
    m: Map<u64, EntryView>,
    before: Map<u64, EntryView>,
    tail: Seq<u8>,
)
    requires
        forall|k: u64| order.contains(k) ==> m.contains_key(k),
        forall|k: u64| order.contains(k) ==> encode_utf8(#[trigger] m[k].json).len() <= u32::MAX,
    ensures
        update_entries_read(update_entries(order, m) + tail, order.len(), before) == (
            Ok::<Map<u64, EntryView>, ReadError>(
                before.union_prefer_right(m.restrict(order.to_set())),
            ),
            tail,
        ),
    decreases order.len(),
{
    if order.len() == 0 {
        assert(before.union_prefer_right(m.restrict(order.to_set())) =~= before);
        assert(update_entries(order, m) + tail =~= tail);
    } else {
        let client = order[0];
        let others = order.drop_first();
        let rest = update_entries(others, m) + tail;
        lemma_union_step(order, m, before);
        assert(order.contains(client));
        lemma_entry_read(client, m[client], order.len(), before, rest);
        assert(update_entries(order, m) + tail =~= entry_bytes(client, m[client]) + rest);
        lemma_update_entries_read(others, m, before.insert(client, m[client]), tail);
    }
}

/// An encoding of an update has at least a byte for each client, and the bytes of
/// each state.
pub proof fn lemma_update_len(m: Map<u64, EntryView>, bytes: Seq<u8>)
    requires
        encodes_update(m, bytes),
    ensures
        m.dom().len() <= bytes.len(),
        forall|c: u64|
            m.contains_key(c) ==> encode_utf8(#[trigger] m[c].json).len() <= bytes.len(),
{
    let order = choose|order: Seq<u64>| #[trigger]
        lists(order, m.dom()) && bytes == var_bytes(order.len()) + update_entries(order, m);
    lemma_lists_len(order, m.dom());
    lemma_update_entries_len(order, m);
}

/// An update survives its encoding, whatever the order of its entries, and reading
/// it stops right behind it, as long as the lengths in it fit in their fields.
pub proof fn law_update_round_trip(m: Map<u64, EntryView>, bytes: Seq<u8>, tail: Seq<u8>)
    requires
        encodes_update(m, bytes),
        m.dom().len() <= u64::MAX,
        forall|c: u64| m.contains_key(c) ==> encode_utf8(#[trigger] m[c].json).len() <= u32::MAX,
    ensures
        update_read(bytes + tail) == (Ok::<Map<u64, EntryView>, ReadError>(m), tail),
{
    let order = choose|order: Seq<u64>| #[trigger]
        lists(order, m.dom()) && bytes == var_bytes(order.len()) + update_entries(order, m);
    let entries = update_entries(order, m);
    lemma_lists_len(order, m.dom());
    lemma_var_u64_read(order.len() as u64, entries + tail);
    assert(bytes + tail =~= var_bytes(order.len()) + (entries + tail));
    lemma_update_entries_read(order, m, Map::empty(), tail);
    assert(Map::<u64, EntryView>::empty().union_prefer_right(m.restrict(order.to_set())) =~= m);
}

/// An update of at most one client has one encoding.
pub proof fn lemma_update_one_encoding(
    m: Map<u64, EntryView>,
    bytes1: Seq<u8>,
    bytes2: Seq<u8>,
)
    requires
        m.dom().len() <= 1,
        encodes_update(m, bytes1),
        encodes_update(m, bytes2),
    ensures
        bytes1 == bytes2,
{
    let order1 = choose|order: Seq<u64>| #[trigger]
        lists(order, m.dom()) && bytes1 == var_bytes(order.len()) + update_entries(order, m);
    let order2 = choose|order: Seq<u64>| #[trigger]
        lists(order, m.dom()) && bytes2 == var_bytes(order.len()) + update_entries(order, m);
    lemma_one_listing(order1, order2, m.dom());
}

} // verus!
