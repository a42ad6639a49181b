//! State vectors of `yrs`: how much of each client's history a document holds.

use crate::encoding::{
    lemma_var_u32_read, lemma_var_u32_read_tail, lemma_var_u64_read, lemma_var_u64_read_tail,
    new_decoder, read_var_u32, read_var_u64, unread, var_bytes, var_u32_read, var_u64_read,
    ReadError,
};
use vstd::prelude::*;
use yrs::encoding::read::Error as YrsError;
use yrs::updates::decoder::Decode;
use yrs::updates::encoder::Encode;
use yrs::StateVector;

verus! {

/// The state vector of `yrs`: a map from client to clock.
#[verifier::external_type_specification]
#[verifier::external_body]
pub struct ExStateVector(StateVector);

/// The clock of each client in a state vector.
pub uninterp spec fn clocks(sv: StateVector) -> Map<u64, u32>;

/// `order` names each of `keys` once.
pub open spec fn lists(order: Seq<u64>, keys: Set<u64>) -> bool {
    &&& order.no_duplicates()
    &&& forall|k: u64| order.contains(k) <==> keys.contains(k)
}

/// The entries of `m` for the clients of `order`, one after the other: the client,
/// then its clock.
pub open spec fn clock_entries(order: Seq<u64>, m: Map<u64, u32>) -> Seq<u8>
    decreases order.len(),
{
    if order.len() == 0 {
        Seq::empty()
    } else {
        var_bytes(order[0] as nat) + var_bytes(m[order[0]] as nat) + clock_entries(
            order.drop_first(),
            m,
        )
    }
}

/// `bytes` encode `m`: the number of clients, and then their entries in some order.
pub open spec fn encodes_clocks(m: Map<u64, u32>, bytes: Seq<u8>) -> bool {
    exists|order: Seq<u64>| #[trigger]
        lists(order, m.dom()) && bytes == var_bytes(order.len()) + clock_entries(order, m)
}

/// Reads `n` entries off the front of `s` into `m`; a client that comes twice keeps
/// the later clock.
pub open spec fn clock_entries_read(s: Seq<u8>, n: nat, m: Map<u64, u32>) -> Result<
    Map<u64, u32>,
    ReadError,
>
    decreases n,
{
    if n == 0 {
        Ok(m)
    } else {
        let (client, s1) = var_u64_read(s);
        let (clock, s2) = var_u32_read(s1);
        match (client, clock) {
            (Ok(client), Ok(clock)) => clock_entries_read(
                s2,
                (n - 1) as nat,
                m.insert(client, clock),
            ),
            (Ok(_), Err(e)) => Err(e),
            (Err(e), _) => Err(e),
        }
    }
}

/// The state vector that `s` encodes. Bytes behind it are ignored.
pub open spec fn clocks_read(s: Seq<u8>) -> Result<Map<u64, u32>, ReadError> {
    let (n, rest) = var_u32_read(s);
    match n {
        Ok(n) => clock_entries_read(rest, n as nat, Map::empty()),
        Err(e) => Err(e),
    }
}

/// What a result of a state vector holds, taken by its clocks.
pub open spec fn clocks_result(r: Result<StateVector, ReadError>) -> Result<
    Map<u64, u32>,
    ReadError,
> {
    match r {
        Ok(sv) => Ok(clocks(sv)),
        Err(e) => Err(e),
    }
}

/// Wraps `Encode::encode_v1` on a state vector: the number of its entries, and
/// then the entries, in the order in which its map is walked.
#[verifier::external_body]
pub(crate) fn encode_state_vector(sv: &StateVector) -> (bytes: Vec<u8>)
    ensures
        encodes_clocks(clocks(*sv), bytes@),
{
    sv.encode_v1()
}

/// Wraps `Decode::decode_v1` at `StateVector`: reads the announced number of
/// entries. It reserves room for that number first, so the number must not exceed
/// the number of bytes.
#[verifier::external_body]
fn decode_announced(data: &[u8]) -> (sv: Result<StateVector, ReadError>)
    requires
        var_u32_read(data@).0 matches Ok(n) ==> n <= data@.len(),
    ensures
        clocks_result(sv) == clocks_read(data@),
{
    match StateVector::decode_v1(data) {
        Ok(sv) => Ok(sv),
        Err(YrsError::InvalidVarInt) => Err(ReadError::InvalidVarInt),
        Err(YrsError::EndOfBuffer(n)) => Err(ReadError::EndOfBuffer(n)),
        Err(YrsError::UnexpectedValue) => Err(ReadError::UnexpectedValue),
        Err(other) => Err(ReadError::Other(other)),
    }
}

/// Reads a state vector. Where more entries are announced than there are bytes, no
/// room is reserved for them; the bytes are only searched for what goes wrong
/// first.
pub(crate) fn decode_state_vector(data: &[u8]) -> (sv: Result<StateVector, ReadError>)
    ensures
        clocks_result(sv) == clocks_read(data@),
{
    let mut decoder = new_decoder(data);
    let count: u32 = match read_var_u32(&mut decoder) {
        Ok(count) => count,
        Err(e) => return Err(e),
    };
    if count as u64 <= data.len() as u64 {
        return decode_announced(data);
    }
    let ghost mut read = Map::<u64, u32>::empty();
    let ghost mut i: nat = 0;
    proof {
        lemma_var_u32_read_tail(data@);
    }
    loop
        invariant
            i + unread(decoder).len() <= data@.len() < count,
            clocks_read(data@) == clock_entries_read(unread(decoder), (count - i) as nat, read),
        decreases count - i,
    {
        let ghost s1 = unread(decoder);
        let ghost (client, s2) = var_u64_read(s1);
        let ghost (clock, s3) = var_u32_read(s2);
        proof {
            lemma_var_u64_read_tail(s1);
            lemma_var_u32_read_tail(s2);
        }
        if let Err(e) = read_var_u64(&mut decoder) {
            return Err(e);
        }
        if let Err(e) = read_var_u32(&mut decoder) {
            return Err(e);
        }
        proof {
            read = read.insert(client->Ok_0, clock->Ok_0);
            i = i + 1;
        }
    }
}

/// No entry is empty.
proof fn lemma_clock_entries_len(order: Seq<u64>, m: Map<u64, u32>)
    ensures
        clock_entries(order, m).len() >= order.len(),
    decreases order.len(),
{
    if order.len() > 0 {
        assert(var_bytes(order[0] as nat).len() > 0);
        lemma_clock_entries_len(order.drop_first(), m);
    }
}

/// The first client of `order` and the others, taken one after the other, are all
/// of them.
pub proof fn lemma_union_step<V>(order: Seq<u64>, m: Map<u64, V>, before: Map<u64, V>)
    requires
        order.len() > 0,
        forall|k: u64| order.contains(k) ==> m.contains_key(k),
    ensures
        forall|k: u64| #[trigger] order.drop_first().contains(k) ==> order.contains(k),
        before.insert(order[0], m[order[0]]).union_prefer_right(
            m.restrict(order.drop_first().to_set()),
        ) == before.union_prefer_right(m.restrict(order.to_set())),
{
    let others = order.drop_first();
    assert forall|k: u64| order.contains(k) <==> k == order[0] || others.contains(k) by {
        if order.contains(k) && k != order[0] {
            let i = choose|i: int| 0 <= i < order.len() && order[i] == k;
            assert(others[i - 1] == k);
        }
        if others.contains(k) {
            let i = choose|i: int| 0 <= i < others.len() && others[i] == k;
            assert(order[i + 1] == k);
        }
    }
    assert(order.contains(order[0]));
    assert(before.insert(order[0], m[order[0]]).union_prefer_right(m.restrict(others.to_set()))
        =~= before.union_prefer_right(m.restrict(order.to_set())));
}

/// Reading the entries of `order` adds them to what was there.
proof fn lemma_clock_entries_read(
    order: Seq<u64>,
    m: Map<u64, u32>,
    before: Map<u64, u32>,
    tail: Seq<u8>,
)
    requires
        forall|k: u64| order.contains(k) ==> m.contains_key(k),
    ensures
        clock_entries_read(clock_entries(order, m) + tail, order.len(), before) == Ok::<
            Map<u64, u32>,
            ReadError,
        >(before.union_prefer_right(m.restrict(order.to_set()))),
    decreases order.len(),
{
    if order.len() == 0 {
        assert(before.union_prefer_right(m.restrict(order.to_set())) =~= before);
    } else {
        let client = order[0];
        let others = order.drop_first();
        let rest = clock_entries(others, m) + tail;
        lemma_var_u32_read(m[client], rest);
        lemma_var_u64_read(client, var_bytes(m[client] as nat) + rest);
        assert(clock_entries(order, m) + tail =~= var_bytes(client as nat) + (var_bytes(
            m[client] as nat,
        ) + rest));
        lemma_union_step(order, m, before);
        lemma_clock_entries_read(others, m, before.insert(client, m[client]), tail);
    }
}

/// A listing is as long as what it lists.
pub proof fn lemma_lists_len(order: Seq<u64>, keys: Set<u64>)
    requires
        lists(order, keys),
    ensures
        order.to_set() == keys,
        order.len() == keys.len(),
{
    order.unique_seq_to_set();
    assert(order.to_set() =~= keys);
}

/// An encoding of a state vector has at least a byte for each client.
pub proof fn lemma_clocks_len(m: Map<u64, u32>, bytes: Seq<u8>)
    requires
        encodes_clocks(m, bytes),
    ensures
        m.dom().len() <= bytes.len(),
{
    let order = choose|order: Seq<u64>| #[trigger]
        lists(order, m.dom()) && bytes == var_bytes(order.len()) + clock_entries(order, m);
    lemma_lists_len(order, m.dom());
    lemma_clock_entries_len(order, m);
}

/// A state vector survives its encoding, whatever the order of its entries and
/// whatever follows, as long as the number of its clients fits in 32 bits.
pub proof fn law_clocks_round_trip(m: Map<u64, u32>, bytes: Seq<u8>, tail: Seq<u8>)
    requires
        encodes_clocks(m, bytes),
        m.dom().len() <= u32::MAX,
    ensures
        clocks_read(bytes + tail) == Ok::<Map<u64, u32>, ReadError>(m),
{
    let order = choose|order: Seq<u64>| #[trigger]
        lists(order, m.dom()) && bytes == var_bytes(order.len()) + clock_entries(order, m);
    let entries = clock_entries(order, m);
    lemma_lists_len(order, m.dom());
    lemma_var_u32_read(order.len() as u32, entries + tail);
    assert(bytes + tail =~= var_bytes(order.len()) + (entries + tail));
    lemma_clock_entries_read(order, m, Map::empty(), tail);
    assert(Map::<u64, u32>::empty().union_prefer_right(m.restrict(order.to_set())) =~= m);
}

/// Where there is at most one client, there is one way to list them.
pub proof fn lemma_one_listing(order1: Seq<u64>, order2: Seq<u64>, keys: Set<u64>)
    requires
        lists(order1, keys),
        lists(order2, keys),
        keys.len() <= 1,
    ensures
        order1 == order2,
{
    lemma_lists_len(order1, keys);
    lemma_lists_len(order2, keys);
    if keys.len() == 1 {
        assert(order1.contains(order1[0]));
        assert(order2.contains(order1[0]));
    }
    assert(order1 =~= order2);
}

/// A state vector of at most one client has one encoding.
pub proof fn lemma_clocks_one_encoding(m: Map<u64, u32>, bytes1: Seq<u8>, bytes2: Seq<u8>)
    requires
        m.dom().len() <= 1,
        encodes_clocks(m, bytes1),
        encodes_clocks(m, bytes2),
    ensures
        bytes1 == bytes2,
{
    let order1 = choose|order: Seq<u64>| #[trigger]
        lists(order, m.dom()) && bytes1 == var_bytes(order.len()) + clock_entries(order, m);
    let order2 = choose|order: Seq<u64>| #[trigger]
        lists(order, m.dom()) && bytes2 == var_bytes(order.len()) + clock_entries(order, m);
    lemma_one_listing(order1, order2, m.dom());
}

} // verus!
