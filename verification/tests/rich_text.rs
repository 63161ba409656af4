use hyperion::rich_text::{linkify_text, project_timeline_rich_text, RoomTimelineRichTextNode};

#[test]
fn projects_matrix_html_into_safe_typed_nodes() {
    assert_eq!(
        project_timeline_rich_text(
            "fallback",
            Some("<strong>Hello</strong>"),
            Some("org.matrix.custom.html")
        )
        .len(),
        1
    );
}

#[test]
fn rejects_unsafe_formatted_html_in_favour_of_plain_text() {
    assert!(
        project_timeline_rich_text(
            "Plain fallback",
            Some("<script>window.stolen = true</script>"),
            Some("org.matrix.custom.html")
        )
        .is_empty()
    );
}

#[test]
fn linkifies_all_permitted_plain_text_schemes() {
    assert_eq!(project_timeline_rich_text("https://matrix.org http://matrix.org ftp://matrix.org mailto:hello@matrix.org magnet:?xt=urn:btih:example", None, None).len(), 9);
}

#[test]
fn link_trailing_punctuation_stays_text() {
    let nodes = project_timeline_rich_text("see https://matrix.org.", None, None);
    assert_eq!(nodes.len(), 3);
    match &nodes[1] {
        RoomTimelineRichTextNode::Element { tag, attributes, children } => {
            assert_eq!(tag, "a");
            assert_eq!(attributes.href.as_deref(), Some("https://matrix.org"));
            assert_eq!(children.len(), 1);
        }
        _ => panic!("expected a link element"),
    }
    match &nodes[2] {
        RoomTimelineRichTextNode::Text { text } => assert_eq!(text, "."),
        _ => panic!("expected trailing text"),
    }
}

#[test]
fn unbalanced_html_falls_back_to_plain_body() {
    let nodes = project_timeline_rich_text(
        "plain",
        Some("<strong>open"),
        Some("org.matrix.custom.html"),
    );
    assert_eq!(nodes.len(), 1);
    match &nodes[0] {
        RoomTimelineRichTextNode::Text { text } => assert_eq!(text, "plain"),
        _ => panic!("expected the plain body"),
    }
}

#[test]
fn unsupported_format_uses_plain_body() {
    let nodes = project_timeline_rich_text("plain", Some("<b>x</b>"), Some("text/html"));
    assert_eq!(nodes.len(), 1);
}

#[test]
fn entities_are_decoded_and_nesting_is_kept() {
    let nodes = project_timeline_rich_text(
        "x",
        Some("<p>a &amp; <em>b</em></p><br/>"),
        Some("org.matrix.custom.html"),
    );
    assert_eq!(nodes.len(), 2);
    match &nodes[0] {
        RoomTimelineRichTextNode::Element { tag, children, .. } => {
            assert_eq!(tag, "p");
            assert_eq!(children.len(), 2);
            match &children[0] {
                RoomTimelineRichTextNode::Text { text } => assert_eq!(text, "a & "),
                _ => panic!("expected text"),
            }
        }
        _ => panic!("expected a paragraph"),
    }
}

#[test]
fn quoted_attributes_reject_the_html() {
    // The attribute reader takes a value from the second character of the
    // attribute text, so a quoted `href` leaves an unparsable remainder.
    let nodes = project_timeline_rich_text(
        "fallback",
        Some("<a href=\"https://matrix.org\">x</a>"),
        Some("org.matrix.custom.html"),
    );
    assert_eq!(nodes.len(), 1);
    match &nodes[0] {
        RoomTimelineRichTextNode::Text { text } => assert_eq!(text, "fallback"),
        _ => panic!("expected the plain body"),
    }
}

#[test]
fn projection_is_defined_for_ascii_attributes() {
    assert!(hyperion::rich_text::rich_text_projection_defined(
        "b",
        Some("<a x='1'>t</a>"),
        Some("org.matrix.custom.html")
    ));
    assert!(!hyperion::rich_text::rich_text_projection_defined(
        "b",
        Some("<a é='1'>t</a>"),
        Some("org.matrix.custom.html")
    ));
}

fn visit(nodes: &[RoomTimelineRichTextNode], seen: &mut Vec<(String, Option<String>, Option<String>)>) {
    for node in nodes {
        if let RoomTimelineRichTextNode::Element { tag, attributes, children } = node {
            seen.push((tag.clone(), attributes.href.clone(), attributes.color.clone()));
            visit(children, seen);
        }
    }
}

#[test]
fn projected_elements_keep_only_supported_tags_and_safe_attributes() {
    let nodes = project_timeline_rich_text(
        "fallback",
        Some("<p><marquee>hi</marquee><span>c</span> see https://matrix.org</p>"),
        Some("org.matrix.custom.html"),
    );
    let mut seen = Vec::new();
    visit(&nodes, &mut seen);
    assert_eq!(
        seen,
        vec![
            (String::from("p"), None, None),
            (String::from("span"), None, None),
            (String::from("a"), Some(String::from("https://matrix.org")), None),
        ]
    );

    let rejected = project_timeline_rich_text(
        "see javascript:alert(1)",
        Some("<a href=\"javascript:alert(1)\">x</a>"),
        Some("org.matrix.custom.html"),
    );
    let mut seen = Vec::new();
    visit(&rejected, &mut seen);
    assert!(seen.is_empty());
}

#[test]
fn a_bare_scheme_in_plain_text_links_its_own_text() {
    let nodes = project_timeline_rich_text("write to mailto: now", None, None);
    assert_eq!(nodes.len(), 3);
    match &nodes[1] {
        RoomTimelineRichTextNode::Element { tag, attributes, children } => {
            assert_eq!(tag, "a");
            assert_eq!(attributes.href.as_deref(), Some("mailto"));
            assert_eq!(children.len(), 1);
        }
        _ => panic!("expected a link"),
    }
}

fn shown_text(nodes: &[RoomTimelineRichTextNode]) -> String {
    let mut out = String::new();
    for node in nodes {
        match node {
            RoomTimelineRichTextNode::Text { text } => out.push_str(text),
            RoomTimelineRichTextNode::Element { children, .. } => out.push_str(&shown_text(children)),
        }
    }
    out
}

#[test]
fn linkified_text_gives_back_the_text() {
    let body = "see https://matrix.org. or write mailto: now, (ftp://x.org)";
    let nodes = linkify_text(body);
    assert_eq!(shown_text(&nodes), body);
    for node in &nodes {
        if let RoomTimelineRichTextNode::Element { attributes, children, .. } = node {
            assert_eq!(attributes.href.as_deref(), Some(shown_text(children).as_str()));
        }
    }
}
