use hyperion::backfill::{
    backfill_batch_is_empty, complete_empty_backfill, next_backfill_action, record_indexed_batch,
    rooms_to_backfill, start_room_backfill_pass, RoomBackfillAction, SearchBackfillCoordinator,
    BACKFILL_MAX_ROOM_BATCHES_PER_TICK, BACKFILL_SESSION_EVENT_BUDGET,
};
use hyperion::search::{new_backfill_progress, SearchBackfillState};

#[test]
fn tasks_are_tracked_per_account_and_room() {
    let mut coordinator: SearchBackfillCoordinator<u8> = SearchBackfillCoordinator::new();
    assert_eq!(coordinator.active_account_backfill_count("a"), 0);
    coordinator.record_task("a", "!1", 1);
    coordinator.record_task("a", "!1", 9);
    coordinator.record_task("a", "!2", 2);
    coordinator.record_task("ab", "!3", 3);
    assert_eq!(coordinator.active_account_backfill_count("a"), 2);
    assert!(coordinator.is_scheduled("a", "!1"));
    assert_eq!(coordinator.finish_task("a", "!1"), Some(1));
    assert!(!coordinator.is_scheduled("a", "!1"));
    let stopped = coordinator.stop_account("a");
    assert_eq!(stopped, vec![(String::from("a::!2"), 2)]);
    assert!(coordinator.is_scheduled("ab", "!3"));
    assert_eq!(coordinator.stop_all().len(), 1);
    assert_eq!(coordinator.active_account_backfill_count("ab"), 0);
}

#[test]
fn only_free_slots_get_the_most_recent_rooms() {
    let candidates = vec![(String::from("!old"), 1), (String::from("!new"), 9)];
    assert_eq!(rooms_to_backfill(0, &candidates), vec![String::from("!new")]);
    assert!(rooms_to_backfill(1, &candidates).is_empty());
    assert!(rooms_to_backfill(0, &[]).is_empty());
}

#[test]
fn a_pass_moves_the_progress_along() {
    assert!(start_room_backfill_pass(
        Some({
            let mut p = new_backfill_progress("a", "!r");
            p.backfill_state = SearchBackfillState::Complete;
            p
        }),
        "a",
        "!r",
        5
    )
    .is_none());
    let mut pass = start_room_backfill_pass(None, "a", "!r", 5).expect("a pass");
    assert_eq!(pass.progress.backfill_state, SearchBackfillState::Indexing);
    assert_eq!(pass.progress.last_indexed_at_unix_ms, Some(5));
    match next_backfill_action(&mut pass) {
        RoomBackfillAction::FetchBatch { token } => assert!(token.is_none()),
        _ => panic!("fetch"),
    }
    assert!(!backfill_batch_is_empty(3, 0, &None));
    assert!(record_indexed_batch(&mut pass, 3, Some(String::from("t1")), 6));
    assert_eq!(pass.progress.indexed_event_count, 3);
    match next_backfill_action(&mut pass) {
        RoomBackfillAction::FetchBatch { token } => assert_eq!(token.as_deref(), Some("t1")),
        _ => panic!("fetch"),
    }
    assert!(record_indexed_batch(&mut pass, 2, Some(String::from("t2")), 7));
    assert_eq!(pass.batches, BACKFILL_MAX_ROOM_BATCHES_PER_TICK);
    assert!(matches!(next_backfill_action(&mut pass), RoomBackfillAction::SaveProgress));
    assert_eq!(pass.progress.backfill_state, SearchBackfillState::Queued);
    assert_eq!(pass.progress.backfill_token.as_deref(), Some("t2"));
}

#[test]
fn a_pass_stops_at_the_end_or_the_budget() {
    let mut pass = start_room_backfill_pass(None, "a", "!r", 1).expect("a pass");
    assert!(backfill_batch_is_empty(0, 0, &None));
    complete_empty_backfill(&mut pass);
    assert!(matches!(next_backfill_action(&mut pass), RoomBackfillAction::SaveProgress));
    assert_eq!(pass.progress.backfill_state, SearchBackfillState::Complete);
    let mut pass = start_room_backfill_pass(None, "a", "!r", 1).expect("a pass");
    assert!(!record_indexed_batch(&mut pass, 4, None, 2));
    assert_eq!(pass.progress.backfill_state, SearchBackfillState::Complete);
    let mut pass = start_room_backfill_pass(None, "a", "!r", 1).expect("a pass");
    record_indexed_batch(&mut pass, BACKFILL_SESSION_EVENT_BUDGET as usize, Some(String::from("t")), 2);
    assert!(matches!(next_backfill_action(&mut pass), RoomBackfillAction::SaveProgress));
    assert_eq!(pass.progress.backfill_state, SearchBackfillState::Queued);
}
