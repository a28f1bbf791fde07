use tic_tac_toe_server::fanout::{send_join_announcements, send_leave_announcements, send_relay};
use tic_tac_toe_server::response::PlayerMark;
use tic_tac_toe_server::server::{AppState, RoomFull};
use tokio::sync::mpsc::error::TryRecvError;
use tokio::sync::mpsc::unbounded_channel;

#[test]
fn first_join_creates_room_with_mark_x() {
    let mut state = AppState::new();
    let (tx1, mut rx1) = unbounded_channel::<String>();
    let (id1, mark1) = state.reserve("r1", tx1).unwrap();
    assert_eq!(id1, 0);
    assert_eq!(mark1, PlayerMark::X);
    assert!(state.contains_room("r1"));
    assert_eq!(state.num_connections("r1"), 1);

    let snapshot = state.snapshot("r1");
    assert_eq!(snapshot.len(), 1);
    let dead = send_join_announcements("r1", &snapshot);
    assert!(dead.is_empty());
    let received = rx1.try_recv().unwrap();
    assert_eq!(
        received,
        "{\"response_type\":\"room_state\",\"response\":{\"room_id\":\"r1\",\
         \"num_connections\":1,\"message\":\"Someone joined the room\",\
         \"success\":true,\"my_mark\":\"x\"}}"
    );
}

#[test]
fn second_join_notifies_both_with_own_marks() {
    let mut state = AppState::new();
    let (tx1, mut rx1) = unbounded_channel::<String>();
    let (tx2, mut rx2) = unbounded_channel::<String>();
    let (_id1, mark1) = state.reserve("r1", tx1).unwrap();
    assert_eq!(mark1, PlayerMark::X);
    let dead = send_join_announcements("r1", &state.snapshot("r1"));
    assert!(dead.is_empty());
    let _ = rx1.try_recv().unwrap();

    let (id2, mark2) = state.reserve("r1", tx2).unwrap();
    assert_eq!(id2, 1);
    assert_eq!(mark2, PlayerMark::O);
    assert_eq!(state.num_connections("r1"), 2);

    let dead = send_join_announcements("r1", &state.snapshot("r1"));
    assert!(dead.is_empty());
    let to_c1 = rx1.try_recv().unwrap();
    let to_c2 = rx2.try_recv().unwrap();
    assert!(to_c1.contains("\"num_connections\":2"));
    assert!(to_c2.contains("\"num_connections\":2"));
    assert!(to_c1.contains("\"my_mark\":\"x\""));
    assert!(to_c2.contains("\"my_mark\":\"o\""));
    assert!(to_c1.contains("\"message\":\"Someone joined the room\""));
    assert!(to_c1.contains("\"success\":true"));
}

#[test]
fn third_join_is_rejected_and_room_unaffected() {
    let mut state = AppState::new();
    let (tx1, _rx1) = unbounded_channel::<String>();
    let (tx2, _rx2) = unbounded_channel::<String>();
    let (tx3, _rx3) = unbounded_channel::<String>();
    let (id1, _) = state.reserve("r1", tx1).unwrap();
    let (id2, _) = state.reserve("r1", tx2).unwrap();
    let err = state.reserve("r1", tx3).unwrap_err();
    assert_eq!(err, RoomFull { num_connections: 2 });

    // The room keeps exactly its two original members.
    assert_eq!(state.num_connections("r1"), 2);
    let snapshot = state.snapshot("r1");
    let ids: Vec<u64> = snapshot.iter().map(|r| r.connection_id).collect();
    assert_eq!(ids, vec![id1, id2]);
}

#[test]
fn relay_passes_text_verbatim_in_order() {
    let mut state = AppState::new();
    let (tx1, mut rx1) = unbounded_channel::<String>();
    let (tx2, mut rx2) = unbounded_channel::<String>();
    state.reserve("r1", tx1).unwrap();
    state.reserve("r1", tx2).unwrap();

    let snapshot = state.snapshot("r1");
    let dead = send_relay("move:4", &snapshot);
    assert!(dead.is_empty());
    let dead = send_relay("move:7", &snapshot);
    assert!(dead.is_empty());

    assert_eq!(rx1.try_recv().unwrap(), "move:4");
    assert_eq!(rx1.try_recv().unwrap(), "move:7");
    assert_eq!(rx2.try_recv().unwrap(), "move:4");
    assert_eq!(rx2.try_recv().unwrap(), "move:7");
}

#[test]
fn leave_announcement_names_departing_mark_and_room_shrinks() {
    let mut state = AppState::new();
    let (tx1, _rx1) = unbounded_channel::<String>();
    let (tx2, mut rx2) = unbounded_channel::<String>();
    let (id1, mark1) = state.reserve("r1", tx1).unwrap();
    let (id2, _mark2) = state.reserve("r1", tx2).unwrap();

    // C1 disconnects: announce to the others, then remove it.
    let others = state.snapshot_excluding("r1", id1);
    assert_eq!(others.len(), 1);
    assert_eq!(others[0].connection_id, id2);
    let dead = send_leave_announcements("r1", &others, mark1);
    assert!(dead.is_empty());
    state.remove("r1", id1);

    let to_c2 = rx2.try_recv().unwrap();
    assert_eq!(
        to_c2,
        "{\"response_type\":\"room_state\",\"response\":{\"room_id\":\"r1\",\
         \"num_connections\":1,\"message\":\"Player x left the room\",\
         \"success\":true,\"my_mark\":\"o\"}}"
    );
    assert_eq!(state.num_connections("r1"), 1);

    // C2 disconnects too: the room disappears entirely.
    state.remove("r1", id2);
    assert!(!state.contains_room("r1"));
    assert_eq!(state.num_connections("r1"), 0);
}

#[test]
fn dead_member_is_detected_and_reaped_lazily() {
    let mut state = AppState::new();
    let (tx1, mut rx1) = unbounded_channel::<String>();
    let (tx2, rx2) = unbounded_channel::<String>();
    let (_id1, _) = state.reserve("r1", tx1).unwrap();
    let (id2, _) = state.reserve("r1", tx2).unwrap();

    // C2's session is gone; the next broadcast discovers it.
    drop(rx2);
    let snapshot = state.snapshot("r1");
    let dead = send_join_announcements("r1", &snapshot);
    assert_eq!(dead, vec![id2]);
    rx1.try_recv().unwrap();

    state.cleanup_dead_connections("r1", &dead);
    assert_eq!(state.num_connections("r1"), 1);
    let remaining = state.snapshot("r1");
    assert_eq!(remaining.len(), 1);
    assert!(remaining[0].connection_id != id2);
}

#[test]
fn cleanup_of_fully_dead_room_deletes_it_and_repeats_safely() {
    let mut state = AppState::new();
    let (tx1, rx1) = unbounded_channel::<String>();
    let (tx2, rx2) = unbounded_channel::<String>();
    let (id1, _) = state.reserve("r1", tx1).unwrap();
    let (id2, _) = state.reserve("r1", tx2).unwrap();
    drop(rx1);
    drop(rx2);

    let snapshot = state.snapshot("r1");
    let dead = send_relay("hello", &snapshot);
    assert_eq!(dead, vec![id1, id2]);

    state.cleanup_dead_connections("r1", &dead);
    assert!(!state.contains_room("r1"));

    // Running the same cleanup again is a no-op.
    state.cleanup_dead_connections("r1", &dead);
    assert!(!state.contains_room("r1"));
    assert_eq!(state.num_connections("r1"), 0);
}

#[test]
fn removal_is_idempotent_per_connection() {
    let mut state = AppState::new();
    let (tx1, _rx1) = unbounded_channel::<String>();
    let (tx2, _rx2) = unbounded_channel::<String>();
    let (id1, _) = state.reserve("r1", tx1).unwrap();
    let (_id2, _) = state.reserve("r1", tx2).unwrap();

    state.remove("r1", id1);
    assert_eq!(state.num_connections("r1"), 1);
    state.remove("r1", id1);
    assert_eq!(state.num_connections("r1"), 1);
    state.remove("nosuchroom", id1);
    assert_eq!(state.num_connections("r1"), 1);
}

#[test]
fn connection_ids_are_unique_across_rooms() {
    let mut state = AppState::new();
    let (tx1, _rx1) = unbounded_channel::<String>();
    let (tx2, _rx2) = unbounded_channel::<String>();
    let (tx3, _rx3) = unbounded_channel::<String>();
    let (a, _) = state.reserve("alpha", tx1).unwrap();
    let (b, _) = state.reserve("beta", tx2).unwrap();
    let (c, _) = state.reserve("alpha", tx3).unwrap();
    assert_eq!((a, b, c), (0, 1, 2));
    assert_eq!(state.num_connections("alpha"), 2);
    assert_eq!(state.num_connections("beta"), 1);
}

#[test]
fn empty_snapshot_of_absent_room_sends_nothing() {
    let state = AppState::new();
    let snapshot = state.snapshot("ghost");
    assert!(snapshot.is_empty());
    let dead = send_relay("x", &snapshot);
    assert!(dead.is_empty());
}

#[test]
fn rooms_with_prefix_names_stay_separate() {
    let mut state = AppState::new();
    let (tx1, mut rx1) = unbounded_channel::<String>();
    let (tx2, mut rx2) = unbounded_channel::<String>();
    state.reserve("a", tx1).unwrap();
    state.reserve("ab", tx2).unwrap();
    assert_eq!(state.num_connections("a"), 1);
    assert_eq!(state.num_connections("ab"), 1);
    assert_eq!(state.num_connections("b"), 0);

    let dead = send_relay("only a", &state.snapshot("a"));
    assert!(dead.is_empty());
    assert_eq!(rx1.try_recv().unwrap(), "only a");
    assert!(matches!(rx2.try_recv(), Err(TryRecvError::Empty)));
}

#[test]
fn unicode_room_identifier_reaches_its_members() {
    let mut state = AppState::new();
    let (tx1, mut rx1) = unbounded_channel::<String>();
    let room = "sch\u{f6}ner \u{2603} raum";
    let (_, mark) = state.reserve(room, tx1).unwrap();
    assert_eq!(mark, PlayerMark::X);
    assert!(state.contains_room(room));

    let dead = send_join_announcements(room, &state.snapshot(room));
    assert!(dead.is_empty());
    let received = rx1.try_recv().unwrap();
    assert!(received.contains("\"room_id\":\"sch\u{f6}ner \u{2603} raum\""));
}

#[test]
fn dead_receiver_buffer_order_is_fifo() {
    // A member's channel delivers enqueued payloads in enqueue order even
    // when drained later.
    let mut state = AppState::new();
    let (tx1, mut rx1) = unbounded_channel::<String>();
    state.reserve("r1", tx1).unwrap();
    let snapshot = state.snapshot("r1");
    send_relay("first", &snapshot);
    send_relay("second", &snapshot);
    send_relay("third", &snapshot);
    assert_eq!(rx1.try_recv().unwrap(), "first");
    assert_eq!(rx1.try_recv().unwrap(), "second");
    assert_eq!(rx1.try_recv().unwrap(), "third");
    assert!(matches!(rx1.try_recv(), Err(TryRecvError::Empty)));
}
