use hyperion::timeline::{
    redacted_event_id_from_timeline_item, sender_avatar_url, sender_display_name,
    timeline_content_projection, timeline_event_body, timeline_item_id_kind, timeline_item_to_shell_item, TimelineItemIdKind,
    timeline_reaction, timeline_reactions, timeline_receipt, timeline_receipts, timeline_reply_preview, timeline_send_state,
    timeline_thread_summary, ContentReport, EmbeddedEventReport, EventReport, InReplyToReport,
    MessageReport, MessageTypeClass, ProfileDetails, ReactionGroupReport, ReactionStatusReport,
    RoomTimelineDecryptionState, RoomTimelineEventContentKind, RoomTimelineReplyPreviewState,
    RoomTimelineSendState, SendStateReport, TimelineContentProjection,
};

fn text(body: &str, edited: bool) -> ContentReport {
    ContentReport {
        is_redacted: false,
        is_unable_to_decrypt: false,
        message: Some(MessageReport {
            class: MessageTypeClass::TextLike,
            body: String::from(body),
            is_edited: edited,
            formatted: None,
        }),
    }
}

fn profile(name: &str) -> ProfileDetails {
    ProfileDetails::Ready { display_name: Some(String::from(name)), avatar_url: None }
}

#[test]
fn content_is_projected_by_kind() {
    assert_eq!(
        timeline_content_projection(&text("hi", true), None),
        TimelineContentProjection::Text { is_edited: true }
    );
    assert_eq!(
        timeline_content_projection(&text("hi", false), Some(RoomTimelineDecryptionState::Pending)),
        TimelineContentProjection::PendingDecryption
    );
    let redacted = ContentReport { is_redacted: true, is_unable_to_decrypt: true, message: None };
    assert_eq!(timeline_content_projection(&redacted, None), TimelineContentProjection::Redacted);
    let utd = ContentReport { is_redacted: false, is_unable_to_decrypt: true, message: None };
    assert_eq!(timeline_content_projection(&utd, None), TimelineContentProjection::UnableToDecrypt);
    assert_eq!(
        timeline_event_body(&utd),
        Some((String::from("Unable to decrypt this message"), false))
    );
    let image = ContentReport {
        is_redacted: false,
        is_unable_to_decrypt: false,
        message: Some(MessageReport {
            class: MessageTypeClass::NonTextLike,
            body: String::from("pic.png"),
            is_edited: false,
            formatted: None,
        }),
    };
    assert_eq!(timeline_content_projection(&image, None), TimelineContentProjection::NonText);
    let state = ContentReport { is_redacted: false, is_unable_to_decrypt: false, message: None };
    assert_eq!(timeline_content_projection(&state, None), TimelineContentProjection::Unsupported);
    assert_eq!(timeline_event_body(&state), None);
    assert_eq!(timeline_send_state(Some(SendStateReport::NotSentYet)), RoomTimelineSendState::Sending);
    assert_eq!(timeline_send_state(Some(SendStateReport::SendingFailed)), RoomTimelineSendState::Failed);
    assert_eq!(timeline_send_state(None), RoomTimelineSendState::Sent);
    assert_eq!(sender_display_name(&profile("Ann")).as_deref(), Some("Ann"));
    assert_eq!(sender_display_name(&ProfileDetails::Unavailable), None);
    assert_eq!(sender_avatar_url(&profile("Ann")), None);
}

#[test]
fn reply_previews_follow_the_embedded_event() {
    assert!(timeline_reply_preview(None, None).is_none());
    let loading = timeline_reply_preview(
        Some(InReplyToReport { event_id: String::from("$t"), event: None }),
        None,
    )
    .unwrap();
    assert_eq!(loading.state, RoomTimelineReplyPreviewState::Loading);
    assert!(timeline_reply_preview(
        Some(InReplyToReport { event_id: String::from("$t"), event: None }),
        Some("$root"),
    )
    .is_none());
    let resolved = timeline_reply_preview(
        Some(InReplyToReport {
            event_id: String::from("$t"),
            event: Some(EmbeddedEventReport {
                sender: String::from("@ann:example.org"),
                profile: profile("Ann"),
                content: text("original", false),
            }),
        }),
        None,
    )
    .unwrap();
    assert_eq!(resolved.state, RoomTimelineReplyPreviewState::Resolved);
    assert_eq!(resolved.body.as_deref(), Some("original"));
    assert_eq!(resolved.sender_display_name.as_deref(), Some("Ann"));
    let deleted = timeline_reply_preview(
        Some(InReplyToReport {
            event_id: String::from("$t"),
            event: Some(EmbeddedEventReport {
                sender: String::from("@ann:example.org"),
                profile: ProfileDetails::Unavailable,
                content: ContentReport { is_redacted: true, is_unable_to_decrypt: false, message: None },
            }),
        }),
        None,
    )
    .unwrap();
    assert_eq!(deleted.state, RoomTimelineReplyPreviewState::DeletedRedacted);
    assert!(deleted.is_redacted);
    let invalid = timeline_reply_preview(
        Some(InReplyToReport {
            event_id: String::from("$t"),
            event: Some(EmbeddedEventReport {
                sender: String::from("@ann:example.org"),
                profile: ProfileDetails::Unavailable,
                content: ContentReport { is_redacted: false, is_unable_to_decrypt: false, message: None },
            }),
        }),
        None,
    )
    .unwrap();
    assert_eq!(invalid.state, RoomTimelineReplyPreviewState::InvalidRelation);
}

#[test]
fn events_become_shell_items() {
    let shell = timeline_item_to_shell_item(EventReport {
        event_id: None,
        identifier: String::from("txn-1"),
        sender: String::from("@ann:example.org"),
        profile: profile("Ann"),
        content: text("hello", true),
        timestamp_unix_ms: 5,
        is_own: true,
        send_state: Some(SendStateReport::NotSentYet),
        is_editable: true,
        can_be_replied_to: false,
        transaction_id: Some(String::from("txn-1")),
        reactions: Vec::new(),
        receipts: Vec::new(),
        thread_summary: None,
        thread_root: None,
        in_reply_to: None,
    });
    let item = shell.item;
    let capabilities = shell.capabilities;
    assert_eq!(shell.transaction_id, Some(String::from("txn-1")));
    assert_eq!(shell.rich_text.map(|nodes| nodes.len()), Some(1));
    assert_eq!(item.event_id, "txn-1");
    assert_eq!(item.body, "hello");
    assert_eq!(item.is_edited, Some(true));
    assert_eq!(item.matrix.send_state, RoomTimelineSendState::Sending);
    assert_eq!(item.matrix.content.kind, RoomTimelineEventContentKind::Text);
    assert!(capabilities.can_edit && !capabilities.can_reply && !capabilities.can_redact);

    let redacted_shell = timeline_item_to_shell_item(EventReport {
        event_id: Some(String::from("$e")),
        identifier: String::from("$e"),
        sender: String::from("@ann:example.org"),
        profile: ProfileDetails::Unavailable,
        content: ContentReport { is_redacted: true, is_unable_to_decrypt: false, message: None },
        timestamp_unix_ms: 5,
        is_own: false,
        send_state: None,
        is_editable: true,
        can_be_replied_to: true,
        transaction_id: None,
        reactions: Vec::new(),
        receipts: Vec::new(),
        thread_summary: None,
        thread_root: None,
        in_reply_to: None,
    });
    let caps = redacted_shell.capabilities;
    assert!(redacted_shell.rich_text.is_none());
    let redacted = redacted_shell.item;
    assert_eq!(redacted.body, "Message removed");
    assert!(redacted.matrix.content.is_redacted);
    assert!(!caps.can_edit && !caps.can_reply);

    assert_eq!(
        redacted_event_id_from_timeline_item(true, true, None, String::from("txn")),
        Some(String::from("txn"))
    );
    assert_eq!(redacted_event_id_from_timeline_item(true, false, None, String::from("txn")), None);
    let reaction = timeline_reaction(ReactionGroupReport {
        key: String::from("👍"),
        statuses: vec![ReactionStatusReport::RemoteToRemote, ReactionStatusReport::LocalToRemote],
    });
    assert_eq!(reaction.count, 2);
    assert!(reaction.reacted_by_me);
    let receipt = timeline_receipt(String::from("@bob:example.org"), Some(3));
    assert_eq!(receipt.timestamp_unix_ms, Some(3));
    assert!(receipt.display_name.is_none());
    let thread = timeline_thread_summary("$root", None, 4);
    assert_eq!(thread.reply_count, 4);
    assert_eq!(thread.root_event_id, "$root");
}

#[test]
fn reactions_and_receipts_keep_the_sdk_order() {
    let groups = vec![
        ReactionGroupReport {
            key: String::from("👍"),
            statuses: vec![ReactionStatusReport::RemoteToRemote, ReactionStatusReport::LocalToRemote],
        },
        ReactionGroupReport {
            key: String::from("🎉"),
            statuses: vec![ReactionStatusReport::RemoteToRemote],
        },
    ];
    let shown = timeline_reactions(groups);
    assert_eq!(shown.len(), 2);
    assert_eq!(shown[0].key, "👍");
    assert_eq!(shown[0].count, 2);
    assert!(shown[0].reacted_by_me);
    assert!(!shown[1].reacted_by_me);
    let receipts = timeline_receipts(vec![
        (String::from("@a:x"), Some(5)),
        (String::from("@b:x"), None),
    ]);
    assert_eq!(receipts.len(), 2);
    assert_eq!(receipts[0].user_id, "@a:x");
    assert_eq!(receipts[0].timestamp_unix_ms, Some(5));
    assert_eq!(receipts[1].timestamp_unix_ms, None);
    assert!(receipts[1].display_name.is_none());
}

#[test]
fn item_identifiers_name_events_or_local_echoes() {
    assert_eq!(timeline_item_id_kind("$event:example.org"), TimelineItemIdKind::EventId);
    assert_eq!(timeline_item_id_kind("txn-1"), TimelineItemIdKind::TransactionId);
    assert_eq!(timeline_item_id_kind(""), TimelineItemIdKind::TransactionId);
}

#[test]
fn shell_items_carry_rich_text_reactions_receipts_threads_and_replies() {
    let content = ContentReport {
        is_redacted: false,
        is_unable_to_decrypt: false,
        message: Some(MessageReport {
            class: MessageTypeClass::TextLike,
            body: String::from("hello world"),
            is_edited: false,
            formatted: Some((String::from("<b>hello</b> world"), String::from("org.matrix.custom.html"))),
        }),
    };
    let shell = timeline_item_to_shell_item(EventReport {
        event_id: Some(String::from("$e")),
        identifier: String::from("$e"),
        sender: String::from("@ann:example.org"),
        profile: ProfileDetails::Ready {
            display_name: Some(String::from("Ann")),
            avatar_url: Some(String::from("mxc://example.org/ann")),
        },
        content,
        timestamp_unix_ms: 9,
        is_own: false,
        send_state: None,
        is_editable: false,
        can_be_replied_to: true,
        transaction_id: None,
        reactions: vec![ReactionGroupReport {
            key: String::from("+1"),
            statuses: vec![ReactionStatusReport::LocalToLocal],
        }],
        receipts: vec![
            (String::from("@a:x"), Some(1)),
            (String::from("@b:x"), None),
            (String::from("@c:x"), Some(3)),
            (String::from("@d:x"), Some(4)),
        ],
        thread_summary: Some((Some(String::from("$latest")), 2)),
        thread_root: None,
        in_reply_to: Some(InReplyToReport { event_id: String::from("$target"), event: None }),
    });
    assert_eq!(shell.formatted_body, Some(String::from("<b>hello</b> world")));
    assert_eq!(shell.formatted_body_format, Some(String::from("org.matrix.custom.html")));
    assert_eq!(shell.rich_text.map(|nodes| nodes.len()), Some(2));
    assert_eq!(shell.avatar_url, Some(String::from("mxc://example.org/ann")));
    assert_eq!(shell.reactions.len(), 1);
    assert!(shell.reactions[0].reacted_by_me);
    assert_eq!(shell.receipts.len(), 4);
    assert_eq!(shell.compact_receipts.len(), 3);
    assert_eq!(shell.compact_receipts[2].user_id, "@c:x");
    let thread = shell.thread.expect("a thread");
    assert_eq!(thread.root_event_id, "$e");
    assert_eq!(thread.latest_event_id, Some(String::from("$latest")));
    assert_eq!(thread.reply_count, 2);
    assert_eq!(shell.thread_reply_to, None);
    let preview = shell.reply_preview.expect("a reply preview");
    assert_eq!(preview.event_id, "$target");
    assert_eq!(preview.state, RoomTimelineReplyPreviewState::Loading);
    assert!(shell.capabilities.can_reply);
}
