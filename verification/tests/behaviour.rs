use crdt::{
    apply_event, Rga, RgaDeserializer, RgaInsertQuery, RgaSerializer, RgaStoreUnit, RgaUnit,
    RealtimeEvent, RealtimeEventKind,
};

fn typed(actor_id: u64, text: &str) -> Rga<char> {
    let mut rga = Rga::new(actor_id);
    let mut prev = (actor_id, 0);
    for c in text.chars() {
        prev = rga.insert(RgaInsertQuery::Right(prev), c, None, None).unwrap();
    }
    rga
}

#[test]
fn new_array_holds_only_its_root() {
    let rga: Rga<char> = Rga::new(7);
    assert_eq!(rga.root().id, (7, 0));
    assert!(!rga.root().is_tombstone);
    assert!(rga.root().next.is_none());
    assert_eq!(rga.clock(), 0);
    assert_eq!(rga.to_string(), "");
}

#[test]
fn local_insert_advances_clock_and_names_unit() {
    let mut rga: Rga<char> = Rga::new(3);
    assert_eq!(rga.insert(RgaInsertQuery::Right((3, 0)), 'x', None, None), Some((3, 1)));
    assert_eq!(rga.clock(), 1);
    assert_eq!(rga.insert(RgaInsertQuery::Right((3, 1)), 'y', None, None), Some((3, 2)));
    assert_eq!(rga.clock(), 2);
    assert_eq!(rga.to_string(), "xy");
}

#[test]
fn insert_with_given_clock_keeps_clock() {
    let mut rga: Rga<char> = Rga::new(0);
    assert_eq!(rga.insert(RgaInsertQuery::Right((0, 0)), 'q', Some(9), Some(40)), Some((9, 40)));
    assert_eq!(rga.clock(), 0);
    assert_eq!(rga.root().next.as_ref().unwrap().id, (9, 40));
}

#[test]
fn insert_after_unknown_unit_finds_no_place() {
    let mut rga = typed(0, "ab");
    assert_eq!(rga.insert(RgaInsertQuery::Right((5, 5)), 'z', None, None), None);
    assert_eq!(rga.insert(RgaInsertQuery::Middle((5, 5), (0, 1)), 'z', None, None), None);
    assert_eq!(rga.clock(), 2);
    assert_eq!(rga.to_string(), "ab");
}

#[test]
fn middle_insert_after_last_unit_finds_no_place() {
    let mut rga = typed(0, "ab");
    assert_eq!(rga.insert(RgaInsertQuery::Middle((0, 2), (0, 1)), 'z', None, None), None);
    assert_eq!(rga.to_string(), "ab");
}

#[test]
fn middle_insert_runs_off_the_end_without_right_unit() {
    // The right unit is not behind the left one, and every following unit
    // has a lower actor: the search reaches the end.
    let mut rga = typed(0, "ab");
    assert_eq!(rga.insert(RgaInsertQuery::Middle((0, 1), (0, 0)), 'z', Some(1), Some(1)), None);
    assert_eq!(rga.to_string(), "ab");
}

#[test]
fn right_insert_passes_units_of_lower_actors() {
    let mut rga = typed(0, "ab");
    // A unit of actor 5 goes after 'a' but past 'b' (actor 0).
    assert_eq!(rga.insert(RgaInsertQuery::Right((0, 1)), 'c', Some(5), Some(1)), Some((5, 1)));
    assert_eq!(rga.to_string(), "abc");
    // A unit of actor 0 stops before 'b'.
    assert_eq!(rga.insert(RgaInsertQuery::Right((0, 1)), 'd', None, None), Some((0, 3)));
    assert_eq!(rga.to_string(), "adbc");
}

#[test]
fn delete_of_root_or_unknown_unit_changes_nothing() {
    let mut rga = typed(0, "abc");
    rga.delete((0, 0));
    rga.delete((4, 4));
    assert_eq!(rga.to_string(), "abc");
    assert!(!rga.root().is_tombstone);
}

#[test]
fn deletes_commute_and_repeat_harmlessly() {
    let mut one = typed(0, "abcd");
    let mut two = one.clone();
    one.delete((0, 2));
    one.delete((0, 4));
    two.delete((0, 4));
    two.delete((0, 2));
    two.delete((0, 2));
    assert_eq!(one.to_string(), "ac");
    assert_eq!(two.to_string(), "ac");
}

#[test]
fn compaction_keeps_document_and_drops_deleted_units() {
    let mut rga = typed(0, "abc");
    rga.delete((0, 2));
    rga.compact();
    assert_eq!(rga.to_string(), "ac");
    let first = rga.root().next.as_ref().unwrap();
    assert_eq!(first.id, (0, 1));
    assert_eq!(first.next.as_ref().unwrap().id, (0, 3));
    assert!(first.next.as_ref().unwrap().next.is_none());
    // The compacted unit can no longer be named.
    assert_eq!(rga.insert(RgaInsertQuery::Right((0, 2)), 'x', None, None), None);
}

#[test]
fn concurrent_remote_inserts_converge() {
    let base = typed(0, "ac");
    let mut one = base.clone();
    let mut two = base.clone();
    let q = RgaInsertQuery::Middle((0, 1), (0, 2));
    one.insert(q, 'x', Some(2), Some(10));
    one.insert(q, 'y', Some(1), Some(11));
    two.insert(q, 'y', Some(1), Some(11));
    two.insert(q, 'x', Some(2), Some(10));
    assert_eq!(one.to_string(), "ayxc");
    assert_eq!(two.to_string(), "ayxc");
}

#[test]
fn clone_keeps_document() {
    let rga = typed(4, "clone");
    let copy = rga.clone();
    assert_eq!(copy.to_string(), "clone");
    assert_eq!(copy.clock(), rga.clock());
}

#[test]
fn insert_last_appends() {
    let mut rga = typed(0, "ab");
    rga.insert_last(RgaUnit { next: None, is_tombstone: false, contents: 'z', id: (8, 8) });
    rga.insert_last(RgaUnit { next: None, is_tombstone: true, contents: 'w', id: (8, 9) });
    assert_eq!(rga.to_string(), "abz");
    assert_eq!(rga.clock(), 2);
}

#[test]
fn store_round_trip_keeps_units() {
    let mut rga = typed(0, "hey");
    rga.delete((0, 2));
    let stored = RgaSerializer::to_vec(rga);
    assert_eq!(stored.len(), 3);
    assert_eq!(stored[0].id, (0, 1));
    assert_eq!(stored[0].contents, 'h');
    assert!(stored[1].is_tombstone);
    assert_eq!(stored[2].contents, 'y');
    let rebuilt = RgaDeserializer::from_vec(stored, 5);
    assert_eq!(rebuilt.to_string(), "hy");
    assert_eq!(rebuilt.root().id, (5, 0));
    assert_eq!(rebuilt.clock(), 0);
}

#[test]
fn from_vec_of_nothing_is_empty() {
    let rebuilt: Rga<char> = RgaDeserializer::from_vec(Vec::<RgaStoreUnit<char>>::new(), 1);
    assert_eq!(rebuilt.to_string(), "");
}

#[test]
fn remote_insert_event_is_applied_and_renamed() {
    let mut rga = typed(0, "ac");
    let event = RealtimeEvent {
        actor: 3,
        version: 0,
        kind: RealtimeEventKind::Insert {
            id: (99, 20),
            contents: 'b',
            query: RgaInsertQuery::Middle((0, 1), (0, 2)),
        },
    };
    let out = apply_event(&mut rga, 3, event).unwrap();
    assert_eq!(rga.to_string(), "abc");
    assert_eq!(out.actor, 3);
    assert_eq!(out.version, 2);
    match out.kind {
        RealtimeEventKind::Insert { id, contents, .. } => {
            assert_eq!(id, (3, 20));
            assert_eq!(contents, 'b');
        }
        _ => panic!("the insert should be passed on"),
    }
}

#[test]
fn remote_delete_event_is_applied() {
    let mut rga = typed(0, "abc");
    let event = RealtimeEvent { actor: 2, version: 0, kind: RealtimeEventKind::Delete { id: (0, 2) } };
    let out = apply_event(&mut rga, 2, event).unwrap();
    assert_eq!(rga.to_string(), "ac");
    assert!(matches!(out.kind, RealtimeEventKind::Delete { id: (0, 2) }));
}

#[test]
fn other_events_are_not_passed_on() {
    let mut rga = typed(0, "abc");
    let event = RealtimeEvent { actor: 2, version: 0, kind: RealtimeEventKind::Compact };
    assert!(apply_event(&mut rga, 2, event).is_none());
    let event = RealtimeEvent {
        actor: 2,
        version: 0,
        kind: RealtimeEventKind::StateSync { state: Vec::new() },
    };
    assert!(apply_event(&mut rga, 2, event).is_none());
    assert_eq!(rga.to_string(), "abc");
}

#[test]
fn insert_and_delete_of_another_unit_commute() {
    let base = typed(0, "abc");
    let mut one = base.clone();
    let mut two = base.clone();
    one.insert(RgaInsertQuery::Right((0, 2)), 'x', Some(4), Some(1));
    one.delete((0, 3));
    two.delete((0, 3));
    two.insert(RgaInsertQuery::Right((0, 2)), 'x', Some(4), Some(1));
    assert_eq!(one.to_string(), "abx");
    assert_eq!(two.to_string(), "abx");
}

#[test]
fn edits_from_two_clients_converge_through_events() {
    let base = typed(0, "ac");
    let insert = |actor: u64, c: char| RealtimeEvent {
        actor,
        version: 0,
        kind: RealtimeEventKind::Insert {
            id: (actor, 1),
            contents: c,
            query: RgaInsertQuery::Middle((0, 1), (0, 2)),
        },
    };
    let mut one = base.clone();
    apply_event(&mut one, 1, insert(1, 'x'));
    apply_event(&mut one, 2, insert(2, 'y'));
    let mut two = base.clone();
    apply_event(&mut two, 2, insert(2, 'y'));
    apply_event(&mut two, 1, insert(1, 'x'));
    assert_eq!(one.to_string(), two.to_string());
    assert_eq!(one.to_string(), "axyc");
}

#[test]
fn event_clone_keeps_fields() {
    let event = RealtimeEvent {
        actor: 1,
        version: 2,
        kind: RealtimeEventKind::StateSync {
            state: vec![RgaStoreUnit { id: (1, 1), contents: 'k', is_tombstone: true }],
        },
    };
    let copy = event.clone();
    assert_eq!(copy.actor, 1);
    assert_eq!(copy.version, 2);
    match copy.kind {
        RealtimeEventKind::StateSync { state } => {
            assert_eq!(state.len(), 1);
            assert_eq!(state[0].id, (1, 1));
            assert_eq!(state[0].contents, 'k');
            assert!(state[0].is_tombstone);
        }
        _ => panic!("the copy should be a state sync"),
    }
}

#[test]
fn long_document_is_edited_in_place() {
    let mut rga: Rga<char> = Rga::new(0);
    for _ in 0..3000 {
        // Each unit of actor 0 goes right after the root.
        assert!(rga.insert(RgaInsertQuery::Right((0, 0)), 'a', None, None).is_some());
    }
    rga.delete((0, 1));
    rga.delete((0, 3000));
    assert_eq!(rga.to_string().len(), 2998);
    rga.compact();
    assert_eq!(rga.to_string().len(), 2998);
    assert_eq!(rga.insert(RgaInsertQuery::Right((0, 1)), 'b', None, None), None);
    assert_eq!(rga.insert(RgaInsertQuery::Right((0, 2)), 'b', None, None), Some((0, 3001)));
    assert!(rga.to_string().ends_with("ab"));
}
