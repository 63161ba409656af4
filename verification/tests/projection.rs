use hyperion::paging::RoomTimelineIdentity;
use hyperion::projection::{ActivePublications, OrderedProjection, TimelineDiff};

fn select(publications: &mut ActivePublications, identity: &RoomTimelineIdentity) {
    let generation = publications.reserve(&identity.account_key);
    assert!(publications.activate(identity, generation));
}

fn view(account: &str, room: &str, instance: &str, focused: Option<&str>) -> RoomTimelineIdentity {
    RoomTimelineIdentity {
        account_key: account.into(),
        room_id: room.into(),
        instance_id: instance.into(),
        focused_event_id: focused.map(String::from),
    }
}

#[test]
fn late_timeline_creation_cannot_reopen_a_replaced_or_closed_view() {
    let mut publications = ActivePublications::new();
    let identity = view("account", "A", "1", None);
    let stale_generation = publications.reserve("account");
    let current_generation = publications.reserve("account");
    assert!(!publications.activate(&identity, stale_generation));
    assert!(publications.activate(&identity, current_generation));
    publications.close_all();
    assert!(!publications.activate(&identity, current_generation));
}

#[test]
fn publication_gate_isolates_accounts_and_room_a_b_a() {
    let mut publications = ActivePublications::new();
    let room_a = view("account", "A", "1", None);
    let room_b = view("account", "B", "2", None);
    select(&mut publications, &room_a);
    select(&mut publications, &room_b);
    assert!(!publications.accepts(&room_a));
    select(&mut publications, &room_a);
    assert!(!publications.accepts(&room_b));
    assert!(publications.accepts(&room_a));
    let other_account = view("other", "A", "1", None);
    assert!(!publications.accepts(&other_account));
    publications.close_account("account");
    assert!(!publications.accepts(&room_a));
}

#[test]
fn publication_gate_rejects_replaced_context_and_closed_account() {
    let mut publications = ActivePublications::new();
    let live = view("account", "room", "1", None);
    let focused = view("account", "room", "2", Some("$anchor"));
    select(&mut publications, &live);
    assert!(publications.accepts(&live));
    select(&mut publications, &focused);
    assert!(!publications.accepts(&live));
    assert!(publications.accepts(&focused));
    publications.close_account("account");
    assert!(!publications.accepts(&focused));
    let recreated = view("account", "room", "3", None);
    select(&mut publications, &recreated);
    assert!(!publications.accepts(&live));
    assert!(publications.accepts(&recreated));
}

#[test]
fn subscription_projection_preserves_initial_items_and_batch_order() {
    let mut projection = OrderedProjection::new(vec!["echo", "latest"]);
    assert_eq!(projection.revision, 0);
    projection.apply(vec![
        TimelineDiff::PushFront { value: "older" },
        TimelineDiff::Update { index: 1, value: "sent" },
    ]);
    assert_eq!(projection.items, vec!["older", "sent", "latest"]);
    assert_eq!(projection.revision, 1);
    projection.apply(vec![TimelineDiff::Remove { index: 1 }]);
    assert_eq!(projection.items, vec!["older", "latest"]);
    assert_eq!(projection.revision, 2);
}

#[test]
fn reset_and_identical_messages_follow_sdk_membership() {
    let mut projection = OrderedProjection::new(vec!["same", "same"]);
    projection.apply(vec![TimelineDiff::Reset { values: vec!["edited"] }]);
    assert_eq!(projection.items, vec!["edited"]);
    projection.apply(vec![]);
    assert_eq!(projection.revision, 1);
}

#[test]
fn every_diff_kind_applies() {
    let mut projection = OrderedProjection::new(vec![1, 2, 3]);
    projection.apply(vec![
        TimelineDiff::Append { values: vec![4, 5] },
        TimelineDiff::PopFront,
        TimelineDiff::PopBack,
        TimelineDiff::Insert { index: 3, value: 9 },
        TimelineDiff::PushBack { value: 7 },
        TimelineDiff::Truncate { length: 10 },
    ]);
    assert_eq!(projection.items, vec![2, 3, 4, 9, 7]);
    projection.apply(vec![TimelineDiff::Truncate { length: 2 }, TimelineDiff::Clear, TimelineDiff::PopBack]);
    assert!(projection.items.is_empty());
    assert_eq!(projection.revision, 2);
}

#[test]
fn snapshot_revision_only_advances_when_subscription_batch_is_consumed() {
    let mut projection: OrderedProjection<&str> = OrderedProjection::new(Vec::new());
    let before = projection.revision;
    // Completion/status does not manufacture a subscription revision.
    projection.apply(vec![]);
    assert_eq!(projection.revision, before);
    projection.apply(vec![TimelineDiff::Clear]);
    assert_eq!(projection.revision, before + 1);
    assert!(projection.items.is_empty());
}
