use hyperion::paging::{
    pagination_response, timeline_page_token, PaginateRoomTimelineRequest, RoomTimelineIdentity,
};
use hyperion::timeline::{
    loaded_timeline_page, preserve_sdk_order, project_timeline_content, relation_kind,
    reply_preview_from_focused_items, RoomTimelineDecryptionState, RoomTimelineEventContentKind,
    RoomTimelineItem, RoomTimelineReplyPreviewState, RoomTimelineSendState,
    TimelineContentProjection, TimelineRelationKind,
};

#[test]
fn projection_retains_placeholder_states_and_safe_capabilities() {
    let pending = project_timeline_content(TimelineContentProjection::PendingDecryption);
    assert_eq!(
        pending.kind,
        RoomTimelineEventContentKind::PendingDecryption
    );
    assert_eq!(
        pending.decryption_state,
        RoomTimelineDecryptionState::Pending
    );
    assert_eq!(pending.body, "Message is waiting to be decrypted");
    assert!(!pending.capabilities.can_edit);
    assert!(!pending.capabilities.can_redact);
    assert!(!pending.capabilities.can_reply);
    assert!(!pending.capabilities.can_react);

    let unable = project_timeline_content(TimelineContentProjection::UnableToDecrypt);
    assert_eq!(unable.kind, RoomTimelineEventContentKind::UnableToDecrypt);
    assert_eq!(
        unable.decryption_state,
        RoomTimelineDecryptionState::UnableToDecrypt
    );

    let redacted = project_timeline_content(TimelineContentProjection::Redacted);
    assert_eq!(redacted.kind, RoomTimelineEventContentKind::Redacted);
    assert!(redacted.is_redacted);
    assert_eq!(redacted.body, "Message removed");

    let unsupported = project_timeline_content(TimelineContentProjection::Unsupported);
    assert_eq!(unsupported.kind, RoomTimelineEventContentKind::Unsupported);
    assert_eq!(unsupported.body, "Unsupported message type");
}

#[test]
fn text_projection_keeps_edit_flag_and_allows_actions() {
    let text = project_timeline_content(TimelineContentProjection::Text { is_edited: true });
    assert_eq!(text.kind, RoomTimelineEventContentKind::Text);
    assert!(text.is_edited);
    assert!(text.capabilities_allow_actions);
    assert_eq!(text.body, "");
    let non_text = project_timeline_content(TimelineContentProjection::NonText);
    assert_eq!(non_text.body, "Message type is not supported yet");
    assert!(!non_text.capabilities_allow_actions);
}

#[test]
fn projection_order_is_never_sorted_by_timestamp() {
    let source_order = ["$newer", "$missing", "$older"];
    let timestamps = [20_u64, 0, 10];
    let projected = preserve_sdk_order(&source_order, &timestamps);

    assert_eq!(projected, source_order);
}

#[test]
fn thread_replies_are_distinct_from_ordinary_replies() {
    assert_eq!(
        relation_kind(None, Some("$ordinary")),
        TimelineRelationKind::OrdinaryReply
    );
    assert_eq!(
        relation_kind(Some("$root"), Some("$fallback")),
        TimelineRelationKind::ThreadReply
    );
    assert!(relation_kind(Some("$root"), None).is_thread_reply());
    assert_eq!(relation_kind(None, None), TimelineRelationKind::Unrelated);
}

fn test_timeline_item(event_id: String) -> RoomTimelineItem {
    RoomTimelineItem::text_message(
        event_id,
        String::from("@alice:example.org"),
        None,
        String::from("body"),
        0,
        false,
        false,
    )
}

#[test]
fn loaded_timeline_page_reveals_existing_older_windows_before_paginating() {
    let loaded_items = (0..80)
        .map(|index| test_timeline_item(format!("${index}")))
        .collect::<Vec<_>>();

    let first_older_page = loaded_timeline_page(&loaded_items, 1, 30).unwrap();
    assert_eq!(first_older_page.first().unwrap().event_id(), "$20");
    assert_eq!(first_older_page.last().unwrap().event_id(), "$49");

    let second_older_page = loaded_timeline_page(&loaded_items, 2, 30).unwrap();
    assert_eq!(second_older_page.first().unwrap().event_id(), "$0");
    assert_eq!(second_older_page.last().unwrap().event_id(), "$19");

    assert!(loaded_timeline_page(&loaded_items, 3, 30).is_none());
}

#[test]
fn loaded_timeline_page_rejects_zero_page_and_limit() {
    let loaded_items = vec![test_timeline_item(String::from("$1"))];
    assert!(loaded_timeline_page(&loaded_items, 0, 30).is_none());
    assert!(loaded_timeline_page(&loaded_items, 1, 0).is_none());
    assert!(loaded_timeline_page(&loaded_items, usize::MAX, 2).is_none());
}

fn preview_item(event_id: &str, body: &str) -> RoomTimelineItem {
    let mut item = RoomTimelineItem::text_message(
        event_id.to_owned(),
        String::from("@alice:example.org"),
        Some(String::from("Alice")),
        body.to_owned(),
        1,
        false,
        false,
    );
    item.matrix.send_state = RoomTimelineSendState::Sent;
    item
}

#[test]
fn reply_preview_resolution_reports_inaccessible_target() {
    let preview = reply_preview_from_focused_items(String::from("$missing"), &[]);

    assert_eq!(preview.state, RoomTimelineReplyPreviewState::Inaccessible);
    assert_eq!(preview.event_id, "$missing");
    assert!(preview.body.is_none());
}

#[test]
fn reply_preview_resolution_reports_deleted_target() {
    let mut item = preview_item("$deleted", "Deleted body");
    item.matrix.content.is_redacted = true;

    let preview = reply_preview_from_focused_items(String::from("$deleted"), &[item]);

    assert_eq!(
        preview.state,
        RoomTimelineReplyPreviewState::DeletedRedacted
    );
    assert!(preview.is_redacted);
    assert!(preview.body.is_none());
}

#[test]
fn reply_preview_resolution_reports_resolved_target() {
    let preview = reply_preview_from_focused_items(
        String::from("$target"),
        &[preview_item("$target", "Original body")],
    );

    assert_eq!(preview.state, RoomTimelineReplyPreviewState::Resolved);
    assert_eq!(preview.sender_id.as_deref(), Some("@alice:example.org"));
    assert_eq!(preview.body.as_deref(), Some("Original body"));
}

#[test]
fn reply_preview_of_blank_body_is_an_invalid_relation() {
    let preview = reply_preview_from_focused_items(
        String::from("$target"),
        &[preview_item("$other", "x"), preview_item("$target", "   ")],
    );
    assert_eq!(preview.state, RoomTimelineReplyPreviewState::InvalidRelation);
    assert!(preview.body.is_none());
    let trimmed = reply_preview_from_focused_items(
        String::from("$target"),
        &[preview_item("$target", "  hi  ")],
    );
    assert_eq!(trimmed.body.as_deref(), Some("hi"));
}

#[test]
fn completion_uses_sdk_terminal_status_even_without_visible_items() {
    for reached_start in [false, true] {
        let request = PaginateRoomTimelineRequest {
            timeline_identity: RoomTimelineIdentity {
                account_key: "account".into(),
                room_id: "room".into(),
                instance_id: "instance".into(),
                focused_event_id: None,
            },
            room_id: "room".into(),
            before: Some(timeline_page_token(1)),
            limit: None,
            request_id: "request".into(),
            known_event_ids: vec!["ignored".into()],
        };
        let response = pagination_response(request, reached_start, 7);
        assert_eq!(response.reached_start, reached_start);
        assert_eq!(response.next_before.is_none(), reached_start);
        assert!(response.items.is_empty());
        assert_eq!(response.revision, 7);
    }
}
