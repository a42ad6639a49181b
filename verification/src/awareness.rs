//! Awareness: short-lived state of each client (a cursor, a user name), kept next
//! to the document and replaced by whatever its owner sends with a higher clock.

use crate::awareness_update::{lemma_keys, EntryView};
use crate::document::{client_id, is_client_id, new_doc};
use crate::state_vector::lists;
use std::collections::HashMap;
use vstd::prelude::*;
use vstd::std_specs::iter::IteratorSpec;
use yrs::Doc;

pub use crate::awareness_update::{AwarenessUpdate, AwarenessUpdateEntry};

verus! {

broadcast use vstd::std_specs::hash::group_hash_axioms;

/// What can go wrong in an [Awareness].
#[derive(Debug, Clone, Copy, PartialEq, Eq)]
pub enum Error {
    /// A client has a state, but no clock was ever recorded for it.
    ClientNotFound(u64),
}

/// The states of all clients that are known here, and the document that they
/// belong to.
pub struct Awareness {
    doc: Doc,
    states: HashMap<u64, String>,
    clocks: HashMap<u64, u32>,
}

/// What an [Awareness] holds.
#[verifier::ext_equal]
pub struct AwarenessView {
    /// The document.
    pub doc: Doc,
    /// The state of each client that has one, as JSON.
    pub states: Map<u64, Seq<char>>,
    /// The highest clock seen of each client, whether or not it still has a state.
    pub clocks: Map<u64, u32>,
}

/// What is known of one client.
pub struct ClientView {
    pub clock: Option<u32>,
    pub state: Option<Seq<char>>,
}

impl AwarenessView {
    /// No client has a state without a clock.
    pub open spec fn wf(self) -> bool {
        self.states.dom().subset_of(self.clocks.dom())
    }

    /// What is known of the client `c`.
    pub open spec fn known(self, c: u64) -> ClientView {
        ClientView { clock: self.clocks.get(c), state: self.states.get(c) }
    }

    /// The states with their clocks.
    pub open spec fn entries(self) -> Map<u64, EntryView> {
        self.states.map_entries(
            |c: u64, json: Seq<char>| EntryView { clock: self.clocks[c], json },
        )
    }

    /// The same, once the client `c` was given the state `json`, at its next clock.
    pub open spec fn with_state(self, c: u64, json: Seq<char>) -> AwarenessView {
        let clock = match self.clocks.get(c) {
            Some(clock) => next_clock(clock),
            None => 1,
        };
        AwarenessView {
            doc: self.doc,
            states: self.states.insert(c, json),
            clocks: self.clocks.insert(c, clock),
        }
    }
}

/// The clock after `clock`; the last one is kept.
pub open spec fn next_clock(clock: u32) -> u32 {
    if clock == u32::MAX {
        u32::MAX
    } else {
        (clock + 1) as u32
    }
}

/// An entry with this text withdraws the state of its client.
pub open spec fn withdraws(e: EntryView) -> bool {
    e.json == "null"@
}

/// What is known of a client once the entry `e` came in for it.
///
/// An entry counts where the client was not known, where its clock is higher than
/// the one recorded, and where it withdraws a state at the same clock. The local
/// state cannot be withdrawn by others: it stays, with a clock above theirs.
pub open spec fn merged(local: bool, known: ClientView, e: EntryView) -> ClientView {
    let counts = match known.clock {
        None => true,
        Some(clock) => clock < e.clock || (clock == e.clock && withdraws(e) && known.state is Some),
    };
    if !counts {
        known
    } else if !withdraws(e) {
        ClientView { clock: Some(e.clock), state: Some(e.json) }
    } else if known.clock is Some && local && known.state is Some {
        ClientView { clock: Some(next_clock(e.clock)), state: known.state }
    } else if known.clock is Some {
        ClientView { clock: Some(e.clock), state: None }
    } else {
        ClientView { clock: Some(e.clock), state: known.state }
    }
}

/// `after` is what `before` becomes when `update` is applied at the client `local`:
/// each client that the update names is merged, and nothing else changes.
pub open spec fn is_after_update(
    before: AwarenessView,
    local: u64,
    update: Map<u64, EntryView>,
    after: AwarenessView,
) -> bool {
    &&& after.doc == before.doc
    &&& forall|c: u64| #[trigger]
        after.known(c) == if update.contains_key(c) {
            merged(c == local, before.known(c), update[c])
        } else {
            before.known(c)
        }
}

impl View for Awareness {
    type V = AwarenessView;

    closed spec fn view(&self) -> AwarenessView {
        AwarenessView {
            doc: self.doc,
            states: self.states@.map_values(|json: String| json@),
            clocks: self.clocks@,
        }
    }
}

impl Awareness {
    /// An awareness of no clients, around the given document.
    pub fn new(doc: Doc) -> (awareness: Awareness)
        ensures
            awareness@ == (AwarenessView { doc, states: Map::empty(), clocks: Map::empty() }),
    {
        let awareness = Awareness { doc, states: HashMap::new(), clocks: HashMap::new() };
        assert(awareness@.states =~= Map::empty());
        awareness
    }

    /// The document.
    pub fn doc(&self) -> (doc: &Doc)
        ensures
            *doc == self@.doc,
    {
        &self.doc
    }

    /// The document, to be changed in place.
    pub fn doc_mut(&mut self) -> (doc: &mut Doc)
        ensures
            *doc == old(self)@.doc,
            final(self)@ == (AwarenessView { doc: *final(doc), ..old(self)@ }),
    {
        &mut self.doc
    }

    /// The state of each client that has one, as JSON.
    pub fn clients(&self) -> (clients: &HashMap<u64, String>)
        ensures
            clients@.map_values(|json: String| json@) == self@.states,
    {
        &self.states
    }

    /// Gives the client `local` the state `json`, at its next clock.
    pub fn set_state_of(&mut self, local: u64, json: &str)
        ensures
            final(self)@ == old(self)@.with_state(local, json@),
            old(self)@.wf() ==> final(self)@.wf(),
    {
        let clock: u32 = match self.clocks.get(&local) {
            Some(clock) => clock.saturating_add(1),
            None => 1,
        };
        self.clocks.insert(local, clock);
        self.states.insert(local, json.to_owned());
        assert(self@.states =~= old(self)@.states.insert(local, json@));
    }

    /// Gives the client of the document the state `json`, at its next clock.
    pub fn set_local_state(&mut self, json: &str)
        ensures
            exists|local: u64| #[trigger]
                is_client_id(old(self)@.doc, local) && final(self)@ == old(self)@.with_state(
                    local,
                    json@,
                ),
            old(self)@.wf() ==> final(self)@.wf(),
    {
        let local = client_id(&self.doc);
        self.set_state_of(local, json)
    }

    /// The states of all clients, as an update for a peer. A state without a clock
    /// cannot be sent.
    pub fn update(&self) -> (update: Result<AwarenessUpdate, Error>)
        ensures
            update is Ok <==> self@.wf(),
            update matches Ok(update) ==> update@ == self@.entries(),
            update matches Err(Error::ClientNotFound(c)) ==> self@.states.contains_key(c)
                && !self@.clocks.contains_key(c),
    {
        let mut clients: HashMap<u64, AwarenessUpdateEntry> = HashMap::new();
        let ghost keys = self.states.keys().remaining().unref();
        proof {
            lemma_keys(&self.states, keys);
        }
        let ghost mut order = Seq::<u64>::empty();
        for client in iter: self.states.keys()
            invariant
                iter.seq().unref() == keys,
                lists(keys, self.states@.dom()),
                order =~= keys.take(iter.index() as int),
                forall|c: u64| clients@.contains_key(c) <==> order.contains(c),
                forall|c: u64| #[trigger]
                    clients@.contains_key(c) ==> self@.clocks.contains_key(c) && clients@[c]@
                        == self@.entries()[c],
        {
            let ghost before = order;
            proof {
                order = before.push(*client);
                lemma_push_contains(before, *client);
            }
            match (self.clocks.get(client), self.states.get(client)) {
                (Some(clock), Some(json)) => {
                    clients.insert(
                        *client,
                        AwarenessUpdateEntry { clock: *clock, json: json.clone() },
                    );
                },
                _ => {
                    return Err(Error::ClientNotFound(*client));
                },
            }
        }
        let update = AwarenessUpdate { clients };
        assert(order =~= keys);
        assert(update@ =~= self@.entries());
        Ok(update)
    }

    /// Merges one entry of an update.
    fn merge(&mut self, local: u64, client: u64, entry: &AwarenessUpdateEntry)
        ensures
            final(self)@.doc == old(self)@.doc,
            forall|c: u64| #[trigger]
                final(self)@.known(c) == if c == client {
                    merged(c == local, old(self)@.known(c), entry@)
                } else {
                    old(self)@.known(c)
                },
    {
        let null = entry.json == "null".to_owned();
        let present = self.states.contains_key(&client);
        match self.clocks.get(&client) {
            Some(known) => {
                let known: u32 = *known;
                if known < entry.clock || (known == entry.clock && null && present) {
                    let mut clock: u32 = entry.clock;
                    if !null {
                        self.states.insert(client, entry.json.clone());
                    } else if client == local && present {
                        clock = clock.saturating_add(1);
                    } else {
                        self.states.remove(&client);
                    }
                    self.clocks.insert(client, clock);
                }
            },
            None => {
                self.clocks.insert(client, entry.clock);
                if !null {
                    self.states.insert(client, entry.json.clone());
                }
            },
        }
    }

    /// Applies what a peer sent to the client `local`: each entry is merged into what
    /// is known of its client.
    pub fn apply_update_at(&mut self, local: u64, update: AwarenessUpdate) -> (done: Result<
        (),
        Error,
    >)
        ensures
            done is Ok,
            is_after_update(old(self)@, local, update@, final(self)@),
            old(self)@.wf() ==> final(self)@.wf(),
    {
        let ghost m = update@;
        let ghost keys = update.clients.keys().remaining().unref();
        proof {
            lemma_keys(&update.clients, keys);
        }
        let ghost mut order = Seq::<u64>::empty();
        for client in iter: update.clients.keys()
            invariant
                m == update@,
                iter.seq().unref() == keys,
                lists(keys, update.clients@.dom()),
                order =~= keys.take(iter.index() as int),
                self@.doc == old(self)@.doc,
                forall|c: u64| #[trigger]
                    self@.known(c) == if order.contains(c) {
                        merged(c == local, old(self)@.known(c), m[c])
                    } else {
                        old(self)@.known(c)
                    },
        {
            let ghost before = order;
            proof {
                order = before.push(*client);
                lemma_push_contains(before, *client);
                assert(!before.contains(*client));
            }
            match update.clients.get(client) {
                Some(entry) => {
                    self.merge(local, *client, entry);
                },
                None => {
                    assert(false);
                },
            }
        }
        assert(order =~= keys);
        assert(forall|c: u64| m.contains_key(c) <==> order.contains(c));
        proof {
            if old(self)@.wf() {
                law_update_keeps_clocks(old(self)@, local, m, self@);
            }
        }
        Ok(())
    }

    /// Applies what a peer sent to the client of the document: each entry is merged
    /// into what is known of its client.
    pub fn apply_update(&mut self, update: AwarenessUpdate) -> (done: Result<(), Error>)
        ensures
            done is Ok,
            exists|local: u64| #[trigger]
                is_client_id(old(self)@.doc, local) && is_after_update(
                    old(self)@,
                    local,
                    update@,
                    final(self)@,
                ),
            old(self)@.wf() ==> final(self)@.wf(),
    {
        let local = client_id(&self.doc);
        self.apply_update_at(local, update)
    }
}

/// A client at the end of the order.
proof fn lemma_push_contains(order: Seq<u64>, client: u64)
    ensures
        forall|c: u64| #[trigger]
            order.push(client).contains(c) <==> order.contains(c) || c == client,
{
    assert(order.push(client)[order.len() as int] == client);
    assert forall|c: u64| #[trigger]
        order.push(client).contains(c) <==> order.contains(c) || c == client by {
        if order.contains(c) {
            let i = choose|i: int| 0 <= i < order.len() && order[i] == c;
            assert(order.push(client)[i] == c);
        }
    }
}

/// Applying an update never leaves a state without a clock.
pub proof fn law_update_keeps_clocks(
    before: AwarenessView,
    local: u64,
    update: Map<u64, EntryView>,
    after: AwarenessView,
)
    requires
        before.wf(),
        is_after_update(before, local, update, after),
    ensures
        after.wf(),
{
    assert forall|c: u64| after.states.contains_key(c) implies after.clocks.contains_key(c) by {
        assert(after.known(c).state is Some);
        assert(before.states.contains_key(c) ==> before.clocks.contains_key(c));
    }
}

impl Default for Awareness {
    /// An awareness of no clients, around a new document.
    fn default() -> (awareness: Awareness)
        ensures
            awareness@.states == Map::<u64, Seq<char>>::empty(),
            awareness@.clocks == Map::<u64, u32>::empty(),
    {
        Awareness::new(new_doc())
    }
}

/// All is well where each client that has a state has a clock.
pub proof fn law_wf(a: AwarenessView)
    ensures
        a.wf() <==> forall|c: u64| #[trigger]
            a.states.contains_key(c) ==> a.clocks.contains_key(c),
{
    if a.wf() {
        assert forall|c: u64| #[trigger] a.states.contains_key(c) implies a.clocks.contains_key(
            c,
        ) by {
            assert(a.states.dom().contains(c));
        }
    } else {
        assert(exists|c: u64| a.states.dom().contains(c) && !a.clocks.dom().contains(c));
        let c = choose|c: u64| a.states.dom().contains(c) && !a.clocks.dom().contains(c);
        assert(a.states.contains_key(c));
    }
}

/// An update for a peer has every client that has a state, and no other, each with
/// its state and its clock.
pub proof fn law_entries(a: AwarenessView, c: u64)
    ensures
        a.entries().contains_key(c) <==> a.states.contains_key(c),
        a.states.contains_key(c) ==> a.entries()[c].json == a.states[c] && a.entries()[c].clock
            == a.clocks[c],
{
}

/// Setting the state of a client gives it that state, under a clock that is higher by
/// one than before, or 1 where there was none, and touches nothing else. The last
/// clock of all cannot be passed.
pub proof fn law_state_is_set(before: AwarenessView, c: u64, json: Seq<char>, other: u64)
    requires
        other != c,
    ensures
        ({
            let after = before.with_state(c, json);
            &&& after.doc == before.doc
            &&& after.states.contains_key(c) && after.states[c] == json
            &&& after.clocks.contains_key(c)
            &&& !before.clocks.contains_key(c) ==> after.clocks[c] == 1
            &&& before.clocks.contains_key(c) && before.clocks[c] < u32::MAX ==> after.clocks[c]
                == before.clocks[c] + 1
            &&& before.clocks.contains_key(c) && before.clocks[c] == u32::MAX ==> after.clocks[c]
                == u32::MAX
            &&& after.states.contains_key(other) <==> before.states.contains_key(other)
            &&& before.states.contains_key(other) ==> after.states[other] == before.states[other]
            &&& after.clocks.contains_key(other) <==> before.clocks.contains_key(other)
            &&& before.clocks.contains_key(other) ==> after.clocks[other] == before.clocks[other]
        }),
{
}

/// A state that was newly set reaches any peer that knew no more of the client than
/// was known where it was set: once the peer has applied the update made there, it
/// knows the new state. This goes on for as long as the clock can grow.
pub proof fn law_new_state_reaches_peers(
    before: AwarenessView,
    c: u64,
    json: Seq<char>,
    peer: AwarenessView,
    local: u64,
    after: AwarenessView,
)
    requires
        json != "null"@,
        before.clocks.contains_key(c) ==> before.clocks[c] < u32::MAX,
        peer.clocks.contains_key(c) ==> before.clocks.contains_key(c) && peer.clocks[c]
            <= before.clocks[c],
        is_after_update(peer, local, before.with_state(c, json).entries(), after),
    ensures
        after.states.contains_key(c),
        after.states[c] == json,
        after.clocks.contains_key(c),
        after.clocks[c] == before.with_state(c, json).clocks[c],
        peer.clocks.contains_key(c) ==> peer.clocks[c] < after.clocks[c],
{
    let update = before.with_state(c, json).entries();
    assert(update.contains_key(c));
    assert(after.known(c) == merged(c == local, peer.known(c), update[c]));
    assert(after.known(c).state == after.states.get(c));
    assert(after.known(c).clock == after.clocks.get(c));
}

/// A state under a higher clock than the one known, or of a client that was not known,
/// is taken over with its clock.
pub proof fn law_newer_state_is_taken(
    before: AwarenessView,
    local: u64,
    update: Map<u64, EntryView>,
    after: AwarenessView,
    c: u64,
)
    requires
        is_after_update(before, local, update, after),
        update.contains_key(c),
        update[c].json != "null"@,
        before.clocks.contains_key(c) ==> before.clocks[c] < update[c].clock,
    ensures
        after.states.contains_key(c),
        after.states[c] == update[c].json,
        after.clocks.contains_key(c),
        after.clocks[c] == update[c].clock,
{
    assert(after.known(c).state == after.states.get(c));
    assert(after.known(c).clock == after.clocks.get(c));
}

/// What an update says of a client under a lower clock than the one known changes
/// nothing, nor does a state under the same clock, nor the withdrawal under the same
/// clock of a state that is not there.
pub proof fn law_older_state_is_ignored(
    before: AwarenessView,
    local: u64,
    update: Map<u64, EntryView>,
    after: AwarenessView,
    c: u64,
)
    requires
        is_after_update(before, local, update, after),
        update.contains_key(c),
        before.clocks.contains_key(c),
        update[c].clock < before.clocks[c] || update[c].clock == before.clocks[c] && (
        update[c].json != "null"@ || !before.states.contains_key(c)),
    ensures
        after.states.contains_key(c) <==> before.states.contains_key(c),
        before.states.contains_key(c) ==> after.states[c] == before.states[c],
        after.clocks.contains_key(c),
        after.clocks[c] == before.clocks[c],
{
    assert(after.known(c).state == after.states.get(c));
    assert(after.known(c).clock == after.clocks.get(c));
}

/// The text `null`, under a clock that is not lower than the one known, withdraws the
/// state of a client: of a remote one for good; the local one stays, under the clock
/// after that of the update. Of a client that was not known, the clock is recorded.
pub proof fn law_null_withdraws(
    before: AwarenessView,
    local: u64,
    update: Map<u64, EntryView>,
    after: AwarenessView,
    c: u64,
)
    requires
        is_after_update(before, local, update, after),
        update.contains_key(c),
        update[c].json == "null"@,
        before.clocks.contains_key(c) ==> before.clocks[c] < update[c].clock || before.clocks[c]
            == update[c].clock && before.states.contains_key(c),
    ensures
        after.clocks.contains_key(c),
        before.clocks.contains_key(c) && (c != local || !before.states.contains_key(c)) ==> {
            &&& !after.states.contains_key(c)
            &&& after.clocks[c] == update[c].clock
        },
        before.clocks.contains_key(c) && c == local && before.states.contains_key(c) ==> {
            &&& after.states.contains_key(c)
            &&& after.states[c] == before.states[c]
            &&& update[c].clock < u32::MAX ==> after.clocks[c] == update[c].clock + 1
            &&& update[c].clock == u32::MAX ==> after.clocks[c] == u32::MAX
        },
        !before.clocks.contains_key(c) ==> {
            &&& after.clocks[c] == update[c].clock
            &&& after.states.contains_key(c) <==> before.states.contains_key(c)
            &&& before.states.contains_key(c) ==> after.states[c] == before.states[c]
        },
{
    assert(after.known(c).state == after.states.get(c));
    assert(after.known(c).clock == after.clocks.get(c));
}

/// An update touches neither the document nor a client that it does not name.
pub proof fn law_others_are_untouched(
    before: AwarenessView,
    local: u64,
    update: Map<u64, EntryView>,
    after: AwarenessView,
    c: u64,
)
    requires
        is_after_update(before, local, update, after),
    ensures
        after.doc == before.doc,
        !update.contains_key(c) ==> {
            &&& after.states.contains_key(c) <==> before.states.contains_key(c)
            &&& before.states.contains_key(c) ==> after.states[c] == before.states[c]
            &&& after.clocks.contains_key(c) <==> before.clocks.contains_key(c)
            &&& before.clocks.contains_key(c) ==> after.clocks[c] == before.clocks[c]
        },
{
    assert(after.known(c).state == after.states.get(c));
    assert(after.known(c).clock == after.clocks.get(c));
}

/// Clocks never go back, and no client is forgotten.
pub proof fn law_clocks_grow(
    before: AwarenessView,
    local: u64,
    update: Map<u64, EntryView>,
    after: AwarenessView,
    c: u64,
)
    requires
        is_after_update(before, local, update, after),
        before.clocks.contains_key(c),
    ensures
        after.clocks.contains_key(c),
        before.clocks[c] <= after.clocks[c],
{
    assert(after.known(c).clock is Some);
}

/// No update takes the local state away.
pub proof fn law_local_state_stays(
    before: AwarenessView,
    local: u64,
    update: Map<u64, EntryView>,
    after: AwarenessView,
)
    requires
        before.wf(),
        before.states.contains_key(local),
        is_after_update(before, local, update, after),
    ensures
        after.states.contains_key(local),
{
    assert(after.known(local).state is Some);
}

/// An update that comes twice does no more than the first time.
pub proof fn law_update_twice(
    before: AwarenessView,
    local: u64,
    update: Map<u64, EntryView>,
    once: AwarenessView,
    twice: AwarenessView,
)
    requires
        before.wf(),
        is_after_update(before, local, update, once),
        is_after_update(once, local, update, twice),
    ensures
        twice == once,
{
    assert forall|c: u64| #[trigger] twice.known(c) == once.known(c) by {
        assert(once.known(c) == if update.contains_key(c) {
            merged(c == local, before.known(c), update[c])
        } else {
            before.known(c)
        });
        assert(before.states.contains_key(c) ==> before.clocks.contains_key(c));
    }
    lemma_same_known(once, twice);
}

/// Two updates can come in either order, as long as they do not tell different
/// states of one client at one clock, and of the local client either both or
/// neither withdraw the state.
pub proof fn law_update_order(
    before: AwarenessView,
    local: u64,
    update1: Map<u64, EntryView>,
    update2: Map<u64, EntryView>,
    after1: AwarenessView,
    after2: AwarenessView,
    after12: AwarenessView,
    after21: AwarenessView,
)
    requires
        before.wf(),
        update1.contains_key(local) && update2.contains_key(local) ==> withdraws(
            update1[local],
        ) == withdraws(update2[local]),
        forall|c: u64| #[trigger]
            update1.contains_key(c) && update2.contains_key(c) && update1[c].clock
                == update2[c].clock ==> update1[c].json == update2[c].json || withdraws(update1[c])
                || withdraws(update2[c]),
        is_after_update(before, local, update1, after1),
        is_after_update(after1, local, update2, after12),
        is_after_update(before, local, update2, after2),
        is_after_update(after2, local, update1, after21),
    ensures
        after12 == after21,
{
    assert forall|c: u64| #[trigger] after12.known(c) == after21.known(c) by {
        assert(after1.known(c) == if update1.contains_key(c) {
            merged(c == local, before.known(c), update1[c])
        } else {
            before.known(c)
        });
        assert(after2.known(c) == if update2.contains_key(c) {
            merged(c == local, before.known(c), update2[c])
        } else {
            before.known(c)
        });
        assert(after21.known(c) == if update1.contains_key(c) {
            merged(c == local, after2.known(c), update1[c])
        } else {
            after2.known(c)
        });
        assert(before.states.contains_key(c) ==> before.clocks.contains_key(c));
    }
    lemma_same_known(after12, after21);
}

/// Two maps that answer alike are the same.
pub proof fn lemma_same_map<V>(a: Map<u64, V>, b: Map<u64, V>)
    requires
        forall|c: u64| #[trigger] a.get(c) == b.get(c),
    ensures
        a == b,
{
    assert forall|c: u64| #[trigger] a.dom().contains(c) == b.dom().contains(c) by {
        assert(a.get(c) == b.get(c));
    }
    assert forall|c: u64| #![trigger a[c]] a.dom().contains(c) implies a[c] == b[c] by {
        assert(a.get(c) == b.get(c));
    }
    assert(a =~= b);
}

/// What is known of each client is all that there is to know.
proof fn lemma_same_known(a: AwarenessView, b: AwarenessView)
    requires
        a.doc == b.doc,
        forall|c: u64| #[trigger] b.known(c) == a.known(c),
    ensures
        a == b,
{
    assert forall|c: u64| #[trigger] a.states.get(c) == b.states.get(c) by {
        assert(b.known(c) == a.known(c));
    }
    lemma_same_map(a.states, b.states);
    assert forall|c: u64| #[trigger] a.clocks.get(c) == b.clocks.get(c) by {
        assert(b.known(c) == a.known(c));
    }
    lemma_same_map(a.clocks, b.clocks);
}

} // verus!
