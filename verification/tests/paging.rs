use hyperion::paging::{
    live_first_page_next_before, next_page_token, timeline_page_target, TimelinePageTarget,
    focused_timeline_page_token, parse_focused_timeline_page_token, parse_timeline_page_token,
    timeline_page_token,
};

#[test]
fn live_page_tokens_round_trip() {
    assert_eq!(timeline_page_token(1), "timeline-ui-page:1");
    assert_eq!(timeline_page_token(42), "timeline-ui-page:42");
    assert_eq!(parse_timeline_page_token(&timeline_page_token(7)), Some(7));
    assert_eq!(parse_timeline_page_token("timeline-ui-page:x"), None);
    assert_eq!(parse_timeline_page_token("other:1"), None);
}

#[test]
fn focused_page_tokens_round_trip() {
    let token = focused_timeline_page_token("$event:example.org", 3);
    assert!(token.starts_with("timeline-ui-event:"));
    assert_eq!(
        parse_focused_timeline_page_token(&token),
        Some((String::from("$event:example.org"), 3))
    );
    assert_eq!(parse_focused_timeline_page_token("timeline-ui-event:!!!:1"), None);
    assert_eq!(parse_focused_timeline_page_token("timeline-ui-page:1"), None);
}

#[test]
fn before_tokens_name_the_timeline_to_page() {
    let focused = focused_timeline_page_token("$ev:x", 2);
    match timeline_page_target(&focused) {
        Ok(TimelinePageTarget::Focused { event_id, page_index }) => {
            assert_eq!(event_id, "$ev:x");
            assert_eq!(page_index, 2);
            let next = next_page_token(&TimelinePageTarget::Focused { event_id, page_index }, false);
            assert_eq!(next, Some(focused_timeline_page_token("$ev:x", 3)));
        }
        _ => panic!("a focused page"),
    }
    match timeline_page_target(&timeline_page_token(4)) {
        Ok(TimelinePageTarget::Live { page_index }) => assert_eq!(page_index, 4),
        _ => panic!("a live page"),
    }
    assert_eq!(
        timeline_page_target("nonsense").unwrap_err(),
        "Unsupported timeline pagination token"
    );
    assert_eq!(next_page_token(&TimelinePageTarget::Live { page_index: 1 }, true), None);
    assert_eq!(
        next_page_token(&TimelinePageTarget::Live { page_index: 1 }, false),
        Some(timeline_page_token(2))
    );
    assert_eq!(live_first_page_next_before(false), Some(String::from("timeline-ui-page:1")));
    assert_eq!(live_first_page_next_before(true), None);
}
