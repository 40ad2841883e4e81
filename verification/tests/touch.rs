use switch_drivers::input::touch::{
    after_round, decode, queued, supported_chip, Contacts, Event,
};

#[test]
fn packed_coordinates_and_contact_ids() {
    assert_eq!(
        decode([0x93, 0x4f, 0x2c, 0x0f, 0, 0, 0, 0]),
        Event::Contact {
            slot: 9,
            x: 1264,
            y: 719
        }
    );
    assert_eq!(decode([0xa3, 0, 0, 0, 0, 0, 0, 0]), Event::Nothing);
    assert_eq!(decode([0x94, 0, 0, 0, 0, 0, 0, 0]), Event::Leave(9));
}

#[test]
fn two_fingers_move_independently_and_reused_slot_has_new_tracking_id() {
    let mut state = Contacts::new();
    state.apply(Event::Contact {
        slot: 0,
        x: 100,
        y: 200,
    });
    state.apply(Event::Contact {
        slot: 1,
        x: 300,
        y: 400,
    });
    let first = state.slots[0].unwrap().tracking;
    state.apply(Event::Contact {
        slot: 0,
        x: 110,
        y: 210,
    });
    assert_eq!(state.slots[0].unwrap().tracking, first);
    assert_eq!(state.slots[1].unwrap().x, 300);
    state.apply(Event::Leave(0));
    state.apply(Event::Contact {
        slot: 0,
        x: 120,
        y: 220,
    });
    assert_ne!(state.slots[0].unwrap().tracking, first);
    state.apply(decode([0x0f, 0, 0, 0, 0, 0, 0, 0]));
    assert!(state.slots.iter().all(Option::is_none));
}

#[test]
fn three_failed_rounds_let_every_finger_go() {
    let mut state = Contacts::new();
    state.apply(Event::Contact {
        slot: 3,
        x: 1,
        y: 2,
    });
    let mut failures = 0;
    failures = after_round(&mut state, failures, true);
    failures = after_round(&mut state, failures, true);
    assert_eq!(failures, 2);
    assert!(state.slots[3].is_some());
    assert_eq!(after_round(&mut state, failures, false), 0);
    assert!(state.slots[3].is_some());
    assert_eq!(after_round(&mut state, failures, true), 3);
    assert!(state.slots[3].is_none());
}

#[test]
fn the_queue_counts_events_and_is_read_in_parts() {
    assert_eq!(queued(0), 0);
    assert_eq!(queued(9), 4);
    assert_eq!(queued(255), 32);
    assert!(supported_chip([0, 0x36, 0x70, 1, 0, 0x65, 0]));
    assert!(!supported_chip([0, 0x70, 0x36, 1, 0, 0x65, 0]));
}
