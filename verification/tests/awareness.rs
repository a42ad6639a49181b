use std::collections::HashMap;
use y_sync::awareness::{Awareness, AwarenessUpdate, AwarenessUpdateEntry};
use yrs::Doc;

fn update_of(client: u64, clock: u32, json: &str) -> AwarenessUpdate {
    AwarenessUpdate {
        clients: HashMap::from([(
            client,
            AwarenessUpdateEntry {
                clock,
                json: json.to_owned(),
            },
        )]),
    }
}

fn state(awareness: &Awareness, client: u64) -> Option<&str> {
    awareness.clients().get(&client).map(|json| json.as_str())
}

#[test]
fn the_local_state_has_a_growing_clock() {
    let mut awareness = Awareness::new(Doc::with_client_id(7));
    assert!(awareness.clients().is_empty());
    assert_eq!(
        awareness.update().unwrap(),
        AwarenessUpdate {
            clients: HashMap::new()
        }
    );
    awareness.set_local_state("1");
    assert_eq!(awareness.update().unwrap(), update_of(7, 1, "1"));
    awareness.set_local_state("2");
    assert_eq!(awareness.update().unwrap(), update_of(7, 2, "2"));
}

#[test]
fn the_local_state_belongs_to_the_document() {
    let mut awareness = Awareness::new(Doc::with_client_id(7));
    *awareness.doc_mut() = Doc::with_client_id(8);
    assert_eq!(awareness.doc().client_id(), 8);
    awareness.set_local_state("1");
    assert_eq!(awareness.update().unwrap(), update_of(8, 1, "1"));
}

#[test]
fn higher_clocks_replace() {
    let mut awareness = Awareness::new(Doc::with_client_id(7));
    awareness.apply_update(update_of(1, 4, "a")).unwrap();
    assert_eq!(state(&awareness, 1), Some("a"));
    awareness.apply_update(update_of(1, 4, "b")).unwrap();
    assert_eq!(state(&awareness, 1), Some("a"));
    awareness.apply_update(update_of(1, 3, "b")).unwrap();
    assert_eq!(state(&awareness, 1), Some("a"));
    awareness.apply_update(update_of(1, 5, "c")).unwrap();
    assert_eq!(awareness.update().unwrap(), update_of(1, 5, "c"));
}

#[test]
fn null_withdraws() {
    let mut awareness = Awareness::new(Doc::with_client_id(7));
    // at the same clock
    awareness.apply_update(update_of(1, 4, "a")).unwrap();
    awareness.apply_update(update_of(1, 4, "null")).unwrap();
    assert_eq!(state(&awareness, 1), None);
    // the clock is remembered
    awareness.apply_update(update_of(1, 4, "a")).unwrap();
    assert_eq!(state(&awareness, 1), None);
    awareness.apply_update(update_of(1, 5, "b")).unwrap();
    assert_eq!(state(&awareness, 1), Some("b"));
    // at a higher one
    awareness.apply_update(update_of(1, 6, "null")).unwrap();
    assert_eq!(state(&awareness, 1), None);
    // at a lower one
    awareness.apply_update(update_of(1, 8, "c")).unwrap();
    awareness.apply_update(update_of(1, 7, "null")).unwrap();
    assert_eq!(state(&awareness, 1), Some("c"));
}

#[test]
fn null_of_an_unknown_client_is_remembered() {
    let mut awareness = Awareness::new(Doc::with_client_id(7));
    awareness.apply_update(update_of(1, 4, "null")).unwrap();
    assert!(awareness.clients().is_empty());
    awareness.apply_update(update_of(1, 4, "a")).unwrap();
    assert!(awareness.clients().is_empty());
}

#[test]
fn others_cannot_withdraw_the_local_state() {
    let mut awareness = Awareness::new(Doc::with_client_id(7));
    awareness.set_local_state("mine");
    awareness.apply_update(update_of(7, 9, "null")).unwrap();
    assert_eq!(awareness.update().unwrap(), update_of(7, 10, "mine"));
    // but they can bring back a later one
    awareness.apply_update(update_of(7, 11, "theirs")).unwrap();
    assert_eq!(awareness.update().unwrap(), update_of(7, 11, "theirs"));
}

#[test]
fn the_last_clock_is_kept() {
    let mut awareness = Awareness::new(Doc::with_client_id(7));
    awareness
        .apply_update(update_of(7, u32::MAX, "a"))
        .unwrap();
    awareness.set_local_state("b");
    assert_eq!(awareness.update().unwrap(), update_of(7, u32::MAX, "b"));
    awareness
        .apply_update(update_of(7, u32::MAX, "null"))
        .unwrap();
    assert_eq!(awareness.update().unwrap(), update_of(7, u32::MAX, "b"));
}

#[test]
fn an_update_counts_once() {
    let mut awareness = Awareness::new(Doc::with_client_id(7));
    awareness.set_local_state("mine");
    awareness.apply_update(update_of(7, 3, "null")).unwrap();
    let once = awareness.update().unwrap();
    awareness.apply_update(update_of(7, 3, "null")).unwrap();
    assert_eq!(awareness.update().unwrap(), once);
    assert_eq!(once, update_of(7, 4, "mine"));
}

#[test]
fn updates_come_in_either_order() {
    let mut forth = Awareness::new(Doc::with_client_id(7));
    forth.apply_update(update_of(1, 4, "a")).unwrap();
    forth.apply_update(update_of(1, 5, "b")).unwrap();
    let mut back = Awareness::new(Doc::with_client_id(7));
    back.apply_update(update_of(1, 5, "b")).unwrap();
    back.apply_update(update_of(1, 4, "a")).unwrap();
    assert_eq!(forth.update().unwrap(), back.update().unwrap());
    assert_eq!(state(&back, 1), Some("b"));
}

#[test]
fn states_are_copied_with_their_clocks() {
    let mut known = Awareness::new(Doc::with_client_id(7));
    known.set_local_state("mine");
    known.apply_update(update_of(1, 4, "a")).unwrap();
    known.apply_update(update_of(2, 6, "b")).unwrap();
    known.apply_update(update_of(2, 7, "null")).unwrap();
    let mut fresh = Awareness::default();
    fresh.apply_update(known.update().unwrap()).unwrap();
    assert_eq!(fresh.clients(), known.clients());
    assert_eq!(fresh.update().unwrap(), known.update().unwrap());
    assert_eq!(fresh.clients().len(), 2);
    // a state whose text is null stays where it is
    known.set_local_state("null");
    let mut fresh = Awareness::default();
    fresh.apply_update(known.update().unwrap()).unwrap();
    assert_eq!(fresh.clients(), &HashMap::from([(1, "a".to_owned())]));
}

#[test]
fn any_client_can_be_the_local_one() {
    let mut awareness = Awareness::new(Doc::with_client_id(7));
    awareness.set_state_of(1, "a");
    awareness.set_state_of(1, "b");
    assert_eq!(awareness.update().unwrap(), update_of(1, 2, "b"));
    awareness
        .apply_update_at(1, update_of(1, 2, "null"))
        .unwrap();
    assert_eq!(awareness.update().unwrap(), update_of(1, 3, "b"));
    awareness
        .apply_update_at(7, update_of(1, 3, "null"))
        .unwrap();
    assert!(awareness.clients().is_empty());
}
