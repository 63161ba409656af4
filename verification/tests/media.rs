use hyperion::media::{
    attachments_from_message_type, attachments_from_sticker, caption_text, image_like_thumbnail_handle, media_body_for_message_kind, media_protocol_reply,
    media_token, media_url, message_attachment, parse_byte_range, prepare_served_media_response,
    requested_byte_range, resolve_mime_type, sniff_mime_type, sticker_attachment,
    AttachmentMessageKind, MediaContentReport, MediaInfoReport, MediaProtocolReply, MediaRegistry,
    MediaSourceRef, MessageMediaKind, RegisteredMedia, RegisteredMediaFormat,
    RoomTimelineAttachmentType, ServedMedia, SERVED_MEDIA_ITEM_LIMIT,
};

fn plain_source(url: &str) -> MediaSourceRef<String> {
    MediaSourceRef { source: String::from(url), url: String::from(url), is_plain: true }
}

#[test]
fn parses_open_ended_byte_range() {
    let range = parse_byte_range("3-", 10).unwrap();

    assert_eq!(range.start, 3);
    assert_eq!(range.end, 9);
}

#[test]
fn parses_suffix_byte_range() {
    let range = parse_byte_range("-4", 10).unwrap();

    assert_eq!(range.start, 6);
    assert_eq!(range.end, 9);
}

#[test]
fn byte_ranges_are_checked() {
    let range = parse_byte_range("2-20", 10).unwrap();
    assert_eq!((range.start, range.end), (2, 9));
    let whole = parse_byte_range("-40", 10).unwrap();
    assert_eq!((whole.start, whole.end), (0, 9));
    assert!(parse_byte_range("10-", 10).is_err());
    assert!(parse_byte_range("5-3", 10).is_err());
    assert!(parse_byte_range("-0", 10).is_err());
    assert!(parse_byte_range("abc", 10).is_err());
    assert!(parse_byte_range("0-1", 0).is_err());
    assert!(parse_byte_range("x-1", 10).is_err());
    assert_eq!(requested_byte_range(None, 10), Ok(None));
    assert_eq!(requested_byte_range(Some(None), 10), Err(()));
    assert_eq!(requested_byte_range(Some(Some("items=0-1")), 10), Err(()));
    let first = requested_byte_range(Some(Some("bytes=1-2,5-6")), 10).unwrap().unwrap();
    assert_eq!((first.start, first.end), (1, 2));
}

#[test]
fn mime_types_are_sniffed() {
    assert_eq!(sniff_mime_type(b"\x89PNG\r\n\x1A\nrest"), Some("image/png"));
    assert_eq!(sniff_mime_type(b"\xFF\xD8\xFFxx"), Some("image/jpeg"));
    assert_eq!(sniff_mime_type(b"GIF89a"), Some("image/gif"));
    assert_eq!(sniff_mime_type(b"RIFF\0\0\0\0WEBPxxxx"), Some("image/webp"));
    assert_eq!(sniff_mime_type(b"\0\0\0\x18ftypmp42"), Some("video/mp4"));
    assert_eq!(sniff_mime_type(b"RIFF\0\0\0\0WAVEfmt "), Some("audio/wav"));
    assert_eq!(sniff_mime_type(b"ID3\x04"), Some("audio/mpeg"));
    assert_eq!(sniff_mime_type(b"%PDF-1.7"), Some("application/pdf"));
    assert_eq!(sniff_mime_type(b"plain text"), None);
    assert_eq!(resolve_mime_type(Some("image/heic"), b"GIF89a"), Some(String::from("image/heic")));
    assert_eq!(resolve_mime_type(Some("  "), b"GIF89a"), Some(String::from("image/gif")));
    assert_eq!(resolve_mime_type(None, b"??"), None);
    assert_eq!(caption_text(Some("  hi ")), Some(String::from("hi")));
    assert_eq!(caption_text(Some("   ")), None);
}

#[test]
fn image_body_uses_caption_only() {
    assert_eq!(media_body_for_message_kind(MessageMediaKind::Image), Some(String::new()));
}

#[test]
fn image_body_is_empty_when_body_is_filename() {
    assert_eq!(media_body_for_message_kind(MessageMediaKind::Image), Some(String::new()));
    assert_eq!(media_body_for_message_kind(MessageMediaKind::Other), None);
}

#[test]
fn handles_and_urls() {
    assert_eq!(media_token("mxc://a/b", false), "file-bXhjOi8vYS9i");
    assert_eq!(media_token("mxc://a/b", true), "thumb-480-bXhjOi8vYS9i");
    assert_eq!(media_url("tok", false), "hyperion-media://localhost/tok");
    assert_eq!(media_url("tok", true), "http://hyperion-media.localhost/tok");
}

#[test]
fn plain_media_without_dedicated_thumbnail_uses_homeserver_preview() {
    let mut registry: MediaRegistry<RegisteredMedia<String>> = MediaRegistry::new();
    let source = plain_source("mxc://example.org/image");

    let handle = image_like_thumbnail_handle(&mut registry, &source, None, None)
        .expect("plain MXC media should provide a generated thumbnail handle");
    let media = registry
        .registered_media(&handle)
        .expect("generated thumbnail handle should be registered");

    assert!(media.format == RegisteredMediaFormat::Thumbnail);
    let encrypted = MediaSourceRef {
        source: String::from("enc"),
        url: String::from("mxc://example.org/secret"),
        is_plain: false,
    };
    assert!(image_like_thumbnail_handle(&mut registry, &encrypted, None, None).is_none());
}

#[test]
fn served_media_registry_stays_bounded() {
    let mut media_service: MediaRegistry<RegisteredMedia<String>> = MediaRegistry::new();
    let mut tokens = Vec::new();
    for index in 0..=SERVED_MEDIA_ITEM_LIMIT {
        let byte = u8::try_from(index).expect("test registry limit should fit in one byte");
        tokens.push(media_service.store_served_media(vec![byte], None).expect("a random token"));
    }

    assert!(media_service.served_media(&tokens[0]).is_none());
    assert!(media_service
        .served_media(tokens.last().expect("latest token should exist"))
        .is_some());
}

#[test]
fn clearing_media_service_removes_registered_and_served_media() {
    let mut media_service: MediaRegistry<RegisteredMedia<String>> = MediaRegistry::new();
    let served_token = media_service.store_served_media(vec![1], None).expect("a random token");

    media_service.clear();

    assert!(media_service.served_media(&served_token).is_none());
}

#[test]
fn media_protocol_answers_ranges() {
    let mut registry: MediaRegistry<RegisteredMedia<String>> = MediaRegistry::new();
    registry.store_served_media_with_token(
        String::from("tok"),
        ServedMedia { bytes: (0u8..10).collect(), mime_type: Some(String::from("video/mp4")) },
    );
    match media_protocol_reply(&registry, "/tok", None) {
        MediaProtocolReply::Full { body, mime_type } => {
            assert_eq!(body.len(), 10);
            assert_eq!(mime_type.as_deref(), Some("video/mp4"));
        }
        other => panic!("unexpected {other:?}"),
    }
    match media_protocol_reply(&registry, "//tok", Some(Some("bytes=2-4"))) {
        MediaProtocolReply::Partial { body, content_range, .. } => {
            assert_eq!(body, vec![2, 3, 4]);
            assert_eq!(content_range, "bytes 2-4/10");
        }
        other => panic!("unexpected {other:?}"),
    }
    match media_protocol_reply(&registry, "/tok", Some(Some("bytes=20-"))) {
        MediaProtocolReply::RangeNotSatisfiable { content_range } => {
            assert_eq!(content_range, "bytes */10")
        }
        other => panic!("unexpected {other:?}"),
    }
    assert!(matches!(
        media_protocol_reply(&registry, "/missing", None),
        MediaProtocolReply::NotFound
    ));
}

#[test]
fn prepared_media_is_served() {
    let mut registry: MediaRegistry<RegisteredMedia<String>> = MediaRegistry::new();
    let response = prepare_served_media_response(&mut registry, b"GIF89a..".to_vec(), None, false)
        .expect("a random token");
    assert_eq!(response.size_bytes, 8);
    assert_eq!(response.mime_type.as_deref(), Some("image/gif"));
    let token = response
        .media_url
        .strip_prefix("hyperion-media://localhost/")
        .expect("protocol URL");
    assert_eq!(registry.served_media(token).map(|m| m.bytes.len()), Some(8));
}

#[test]
fn attachments_describe_media_messages() {
    let mut registry: MediaRegistry<RegisteredMedia<String>> = MediaRegistry::new();
    let content = MediaContentReport {
        source: plain_source("mxc://a/b"),
        filename: String::from("clip.mp4"),
        caption: Some(String::from(" look ")),
        info: Some(MediaInfoReport {
            mimetype: Some(String::from("video/mp4")),
            thumbnail_source: None,
            thumbnail_mimetype: None,
            width: Some(640),
            height: Some(5_000_000_000),
            duration_ms: Some(1_500),
            size: Some(99),
            blurhash: Some(String::from("LKO2")),
        }),
    };
    let video = message_attachment(&mut registry, "$e", AttachmentMessageKind::Video, &content);
    assert_eq!(video.media_type, RoomTimelineAttachmentType::Video);
    assert_eq!(video.media_handle, "file-bXhjOi8vYS9i");
    assert_eq!(video.thumbnail_handle.as_deref(), Some("thumb-480-bXhjOi8vYS9i"));
    assert_eq!(video.display_caption.as_deref(), Some("look"));
    assert_eq!(video.width, Some(640));
    assert_eq!(video.height, None);
    assert_eq!(video.duration_unix_ms, Some(1_500));
    assert!(video.filename.is_none());
    let audio = message_attachment(&mut registry, "$e", AttachmentMessageKind::Audio, &content);
    assert!(audio.thumbnail_handle.is_none());
    assert_eq!(audio.filename.as_deref(), Some("clip.mp4"));
    assert!(audio.blurhash.is_none());
    let file = message_attachment(&mut registry, "$e", AttachmentMessageKind::File, &content);
    assert!(file.thumbnail_handle.is_none());
    assert!(file.duration_unix_ms.is_none());
    let info = content.info.as_ref().expect("info");
    let sticker = sticker_attachment(&mut registry, "$s", &content.source, info);
    assert_eq!(sticker.media_type, RoomTimelineAttachmentType::Sticker);
    assert!(sticker.display_caption.is_none());
    assert_eq!(
        registry.registered_media("file-bXhjOi8vYS9i").map(|m| m.format),
        Ok(RegisteredMediaFormat::File)
    );
}

#[test]
fn only_media_messages_and_stickers_carry_attachments() {
    let mut registry: MediaRegistry<RegisteredMedia<String>> = MediaRegistry::new();
    let content = MediaContentReport {
        source: plain_source("mxc://a/img"),
        filename: String::from("cat.png"),
        caption: None,
        info: None,
    };
    let none = attachments_from_message_type::<String>(&mut registry, "$t", None);
    assert!(none.is_empty());
    let one = attachments_from_message_type(
        &mut registry,
        "$i",
        Some((AttachmentMessageKind::Image, &content)),
    );
    assert_eq!(one.len(), 1);
    assert_eq!(one[0].media_type, RoomTimelineAttachmentType::Image);
    assert_eq!(one[0].event_id, "$i");
    let info = MediaInfoReport {
        mimetype: None,
        thumbnail_source: None,
        thumbnail_mimetype: None,
        width: None,
        height: None,
        duration_ms: None,
        size: None,
        blurhash: None,
    };
    let sticker = attachments_from_sticker(&mut registry, "$s", &content.source, &info);
    assert_eq!(sticker.len(), 1);
    assert_eq!(sticker[0].media_type, RoomTimelineAttachmentType::Sticker);
}
