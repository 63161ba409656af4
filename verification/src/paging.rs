//! Opaque pagination tokens for timelines, and the answer to a pagination
//! request. Live timelines page by index; focused timelines carry their
//! anchor event, base64url-encoded, inside the token.
use vstd::prelude::*;

use crate::text::{
    chars_of, concat2, decimal_seq, decimal_string, digit_char, digit_value, digits_value,
    is_ascii_digit, opt_view, parse_usize, parse_usize_spec, push_char, starts_with,
    starts_with_chars, string_from_range,
};
use vstd::utf8::{decode_utf8, encode_utf8, valid_utf8};

use base64::Engine as _;

use crate::timeline::RoomTimelineItem;

verus! {

broadcast use vstd::utf8::group_utf8_lib;

// ---------------------------------------------------------------------------
// base64url and UTF-8
// ---------------------------------------------------------------------------

/// What base64's `URL_SAFE_NO_PAD.encode` returns for some bytes.
pub uninterp spec fn base64_url_encode(bytes: Seq<u8>) -> Seq<char>;

/// What base64's `URL_SAFE_NO_PAD.decode` returns for some text: the bytes,
/// or `None` for its error.
pub uninterp spec fn base64_url_decode(text: Seq<char>) -> Option<Seq<u8>>;

/// A character of the URL-safe base64 alphabet.
pub open spec fn url_safe_char(c: char) -> bool {
    ||| 'A' <= c <= 'Z'
    ||| 'a' <= c <= 'z'
    ||| '0' <= c <= '9'
    ||| c == '-'
    ||| c == '_'
}

/// Calls `URL_SAFE_NO_PAD.encode` of the base64 crate. The result is named
/// `base64_url_encode`; the crate's documentation further gives that it is
/// written in the URL-safe alphabet without padding and that decoding it
/// with the same engine gives the bytes back.
#[verifier::external_body]
pub(crate) fn encode_base64_url(bytes: &[u8]) -> (r: String)
    ensures
        r@ == base64_url_encode(bytes@),
        forall|i: int| 0 <= i < r@.len() ==> url_safe_char(#[trigger] r@[i]),
        base64_url_decode(r@) == Some(bytes@),
{
    base64::engine::general_purpose::URL_SAFE_NO_PAD.encode(bytes)
}

/// Calls `URL_SAFE_NO_PAD.decode` of the base64 crate; an error becomes
/// `None`. The result is named `base64_url_decode`.
#[verifier::external_body]
pub(crate) fn decode_base64_url(text: &str) -> (r: Option<Vec<u8>>)
    ensures
        match r {
            Some(b) => base64_url_decode(text@) == Some(b@),
            None => base64_url_decode(text@) is None,
        },
{
    base64::engine::general_purpose::URL_SAFE_NO_PAD.decode(text).ok()
}

/// Calls `String::from_utf8`: a string exactly when the bytes are valid
/// UTF-8, holding the characters they encode.
#[verifier::external_body]
pub(crate) fn string_from_utf8(bytes: Vec<u8>) -> (r: Option<String>)
    ensures
        r is Some <==> valid_utf8(bytes@),
        r matches Some(s) ==> s@ == decode_utf8(bytes@),
{
    String::from_utf8(bytes).ok()
}

// ---------------------------------------------------------------------------
// Tokens
// ---------------------------------------------------------------------------

pub open spec fn page_token_prefix() -> Seq<char> {
    "timeline-ui-page:"@
}

pub open spec fn event_page_token_prefix() -> Seq<char> {
    "timeline-ui-event:"@
}

/// The token of a live-timeline page.
pub open spec fn timeline_page_token_spec(page_index: nat) -> Seq<char> {
    page_token_prefix() + decimal_seq(page_index)
}

/// The token of a focused-timeline page.
pub open spec fn focused_timeline_page_token_spec(event_id: Seq<char>, page_index: nat) -> Seq<
    char,
> {
    event_page_token_prefix() + base64_url_encode(encode_utf8(event_id)) + ":"@ + decimal_seq(
        page_index,
    )
}

/// Reading a live-timeline page token.
pub open spec fn parse_timeline_page_token_spec(token: Seq<char>) -> Option<usize> {
    if starts_with(token, page_token_prefix()) {
        parse_usize_spec(token.skip(page_token_prefix().len() as int))
    } else {
        None
    }
}

/// The position of the last `c` in `v`, if any.
pub open spec fn last_char_index(v: Seq<char>, c: char) -> Option<int>
    decreases v.len(),
{
    if v.len() == 0 {
        None
    } else if v.last() == c {
        Some(v.len() - 1)
    } else {
        last_char_index(v.drop_last(), c)
    }
}

/// Reading a focused-timeline page token: the prefix, then the encoded
/// event id up to the last `:`, then the page index.
pub open spec fn parse_focused_timeline_page_token_spec(token: Seq<char>) -> Option<(Seq<char>, usize)> {
    let prefix = event_page_token_prefix();
    if !starts_with(token, prefix) {
        None
    } else {
        let rest = token.skip(prefix.len() as int);
        match last_char_index(rest, ':') {
            None => None,
            Some(colon) => match base64_url_decode(rest.take(colon)) {
                None => None,
                Some(bytes) => if !valid_utf8(bytes) {
                    None
                } else {
                    match parse_usize_spec(rest.skip(colon + 1)) {
                        None => None,
                        Some(page) => Some((decode_utf8(bytes), page)),
                    }
                },
            },
        }
    }
}

/// The token of a live-timeline page.
pub fn timeline_page_token(page_index: usize) -> (r: String)
    ensures
        r@ == timeline_page_token_spec(page_index as nat),
        parse_timeline_page_token_spec(r@) == Some(page_index),
{
    proof {
        lemma_timeline_page_token_round_trip(page_index);
    }
    let digits = decimal_string(page_index as u64);
    concat2("timeline-ui-page:", digits.as_str())
}

/// The token of a focused-timeline page.
pub fn focused_timeline_page_token(event_id: &str, page_index: usize) -> (r: String)
    ensures
        r@ == focused_timeline_page_token_spec(event_id@, page_index as nat),
        parse_focused_timeline_page_token_spec(r@) == Some((event_id@, page_index)),
{
    let encoded = encode_base64_url(event_id.as_bytes());
    proof {
        lemma_focused_timeline_page_token_round_trip(event_id@, page_index);
    }
    let digits = decimal_string(page_index as u64);
    let a = concat2("timeline-ui-event:", encoded.as_str());
    let b = concat2(a.as_str(), ":");
    concat2(b.as_str(), digits.as_str())
}

/// Reads a live-timeline page token.
pub fn parse_timeline_page_token(token: &str) -> (r: Option<usize>)
    ensures
        r == parse_timeline_page_token_spec(token@),
{
    let t = chars_of(token);
    let prefix = chars_of("timeline-ui-page:");
    if !starts_with_chars(&t, &prefix) {
        return None;
    }
    let rest = crate::rich_text::subvec(&t, prefix.len(), t.len());
    assert(rest@ == t@.skip(prefix@.len() as int));
    parse_usize(&rest)
}

fn find_last_char(v: &[char], c: char) -> (r: Option<usize>)
    ensures
        match r {
            Some(i) => last_char_index(v@, c) == Some(i as int) && i < v@.len(),
            None => last_char_index(v@, c) is None,
        },
{
    let mut i = v.len();
    assert(v@.take(v@.len() as int) == v@);
    while i > 0
        invariant
            i <= v@.len(),
            last_char_index(v@, c) == last_char_index(v@.take(i as int), c),
        decreases i,
    {
        assert(v@.take(i as int).drop_last() == v@.take(i - 1));
        if v[i - 1] == c {
            return Some(i - 1);
        }
        i = i - 1;
    }
    None
}

/// Reads a focused-timeline page token.
pub fn parse_focused_timeline_page_token(token: &str) -> (r: Option<(String, usize)>)
    ensures
        match r {
            Some((event_id, page)) => parse_focused_timeline_page_token_spec(token@) == Some(
                (event_id@, page),
            ),
            None => parse_focused_timeline_page_token_spec(token@) is None,
        },
{
    let t = chars_of(token);
    let prefix = chars_of("timeline-ui-event:");
    if !starts_with_chars(&t, &prefix) {
        return None;
    }
    let rest = crate::rich_text::subvec(&t, prefix.len(), t.len());
    assert(rest@ == t@.skip(prefix@.len() as int));
    let colon = match find_last_char(&rest, ':') {
        Some(c) => c,
        None => {
            return None;
        },
    };
    let encoded = string_from_range(&rest, 0, colon);
    assert(encoded@ == rest@.take(colon as int));
    let bytes = match decode_base64_url(encoded.as_str()) {
        Some(b) => b,
        None => {
            return None;
        },
    };
    let event_id = match string_from_utf8(bytes) {
        Some(s) => s,
        None => {
            return None;
        },
    };
    let page_chars = crate::rich_text::subvec(&rest, colon + 1, rest.len());
    assert(page_chars@ == rest@.skip(colon + 1));
    match parse_usize(&page_chars) {
        Some(page) => Some((event_id, page)),
        None => None,
    }
}

// ---------------------------------------------------------------------------
// Laws of the tokens
// ---------------------------------------------------------------------------

proof fn lemma_decimal_digits(n: nat)
    ensures
        decimal_seq(n).len() > 0,
        forall|i: int| 0 <= i < decimal_seq(n).len() ==> is_ascii_digit(#[trigger] decimal_seq(n)[i]),
        digits_value(decimal_seq(n)) == n,
    decreases n,
{
    if n < 10 {
        let s = decimal_seq(n);
        assert(s == seq![digit_char(n)]);
        assert(s.drop_last() == Seq::<char>::empty());
        assert(n % 10 == n);
        assert(digit_value(digit_char(n)) == n);
        assert(digits_value(s) == digits_value(s.drop_last()) * 10 + digit_value(s.last()));
        assert(digits_value(Seq::<char>::empty()) == 0);
    } else {
        lemma_decimal_digits(n / 10);
        let s = decimal_seq(n);
        let p = decimal_seq(n / 10);
        assert(s == p.push(digit_char(n % 10)));
        assert(s.drop_last() == p);
        assert(digit_value(digit_char(n % 10)) == n % 10);
        assert((n / 10) * 10 + n % 10 == n) by (nonlinear_arith);
        assert(digits_value(s) == digits_value(p) * 10 + digit_value(s.last()));
        assert forall|i: int| 0 <= i < s.len() implies is_ascii_digit(#[trigger] s[i]) by {
            if i < p.len() {
                assert(s[i] == p[i]);
            }
        }
    }
}

/// Reading the token of a live-timeline page gives back its index.
pub proof fn lemma_timeline_page_token_round_trip(page_index: usize)
    ensures
        parse_timeline_page_token_spec(timeline_page_token_spec(page_index as nat)) == Some(
            page_index,
        ),
{
    let t = timeline_page_token_spec(page_index as nat);
    let d = decimal_seq(page_index as nat);
    lemma_decimal_digits(page_index as nat);
    assert(t.take(page_token_prefix().len() as int) == page_token_prefix());
    assert(t.skip(page_token_prefix().len() as int) == d);
    reveal_strlit("timeline-ui-page:");
    assert(d[0] != '+');
}

proof fn lemma_last_char_index_concat(a: Seq<char>, b: Seq<char>, c: char)
    requires
        forall|i: int| 0 <= i < b.len() ==> b[i] != c,
    ensures
        last_char_index(a + seq![c] + b, c) == Some(a.len() as int),
    decreases b.len(),
{
    let s = a + seq![c] + b;
    if b.len() == 0 {
        assert(s.last() == c);
    } else {
        assert(s.drop_last() == a + seq![c] + b.drop_last());
        assert(s.last() == b.last());
        lemma_last_char_index_concat(a, b.drop_last(), c);
    }
}

/// Reading the token of a focused-timeline page gives back its anchor
/// event and its index, given the base64 facts that the encoder states.
proof fn lemma_focused_timeline_page_token_round_trip(event_id: Seq<char>, page_index: usize)
    requires
        base64_url_decode(base64_url_encode(encode_utf8(event_id))) == Some(encode_utf8(event_id)),
        forall|i: int|
            0 <= i < base64_url_encode(encode_utf8(event_id)).len() ==> url_safe_char(
                #[trigger] base64_url_encode(encode_utf8(event_id))[i],
            ),
    ensures
        parse_focused_timeline_page_token_spec(
            focused_timeline_page_token_spec(event_id, page_index as nat),
        ) == Some((event_id, page_index)),
{
    let enc = base64_url_encode(encode_utf8(event_id));
    let d = decimal_seq(page_index as nat);
    lemma_decimal_digits(page_index as nat);
    reveal_strlit("timeline-ui-event:");
    reveal_strlit(":");
    let prefix = event_page_token_prefix();
    let t = focused_timeline_page_token_spec(event_id, page_index as nat);
    assert(t == prefix + (enc + seq![':'] + d));
    assert(t.take(prefix.len() as int) == prefix);
    let rest = t.skip(prefix.len() as int);
    assert(rest == enc + seq![':'] + d);
    assert forall|i: int| 0 <= i < d.len() implies d[i] != ':' by {
        assert(is_ascii_digit(d[i]));
    }
    lemma_last_char_index_concat(enc, d, ':');
    assert(rest.take(enc.len() as int) == enc);
    assert(rest.skip(enc.len() + 1 as int) == d);
    assert(d[0] != '+');
    vstd::utf8::encode_utf8_valid_utf8(event_id);
    vstd::utf8::encode_utf8_decode_utf8(event_id);
}

// ---------------------------------------------------------------------------
// Pagination responses
// ---------------------------------------------------------------------------

/// Which timeline view a request or snapshot belongs to.
#[derive(Debug)]
pub struct RoomTimelineIdentity {
    pub account_key: String,
    pub room_id: String,
    pub instance_id: String,
    pub focused_event_id: Option<String>,
}

/// A request to page a timeline further back.
#[derive(Debug)]
pub struct PaginateRoomTimelineRequest {
    pub timeline_identity: RoomTimelineIdentity,
    pub room_id: String,
    pub before: Option<String>,
    pub limit: Option<u16>,
    pub request_id: String,
    pub known_event_ids: Vec<String>,
}

/// The answer to a pagination request.
#[derive(Debug)]
pub struct RoomTimelinePaginationResponse {
    pub timeline_identity: RoomTimelineIdentity,
    pub revision: u64,
    pub room_id: String,
    pub items: Vec<RoomTimelineItem>,
    pub token_changed: bool,
    pub next_before: Option<String>,
    pub request_id: String,
    pub had_new_items: bool,
    pub returned_item_count: usize,
    pub new_item_count: usize,
    pub duplicate_item_count: usize,
    pub continuation_attempt_count: usize,
    pub reached_start: bool,
    pub reason: Option<String>,
}

/// Which timeline a request for older items pages back in.
#[derive(Debug)]
pub enum TimelinePageTarget {
    /// The timeline focused on an event, at a page counted back from it.
    Focused { event_id: String, page_index: usize },
    /// The live timeline, at a page counted back from its newest end.
    Live { page_index: usize },
}

/// The timeline a `before` token names: a focused-timeline page when it
/// reads as one, else a live-timeline page; any other token is refused.
pub fn timeline_page_target(before: &str) -> (r: Result<TimelinePageTarget, String>)
    ensures
        match parse_focused_timeline_page_token_spec(before@) {
            Some((event_id, page)) => r matches Ok(TimelinePageTarget::Focused { event_id: e, page_index })
                && e@ == event_id && page_index == page,
            None => match parse_timeline_page_token_spec(before@) {
                Some(page) => r matches Ok(TimelinePageTarget::Live { page_index }) && page_index == page,
                None => r matches Err(e) && e@ == "Unsupported timeline pagination token"@,
            },
        },
{
    match parse_focused_timeline_page_token(before) {
        Some((event_id, page_index)) => Ok(TimelinePageTarget::Focused { event_id, page_index }),
        None => match parse_timeline_page_token(before) {
            Some(page_index) => Ok(TimelinePageTarget::Live { page_index }),
            None => Err("Unsupported timeline pagination token".to_owned()),
        },
    }
}

/// The token of the page after the target's: none once the start of the
/// room was reached.
pub fn next_page_token(target: &TimelinePageTarget, hit_start: bool) -> (r: Option<String>)
    requires
        match target {
            TimelinePageTarget::Focused { page_index, .. } => page_index < usize::MAX,
            TimelinePageTarget::Live { page_index } => page_index < usize::MAX,
        },
    ensures
        hit_start ==> r is None,
        !hit_start ==> match target {
            TimelinePageTarget::Focused { event_id, page_index } => r matches Some(t) && t@
                == focused_timeline_page_token_spec(event_id@, (page_index + 1) as nat),
            TimelinePageTarget::Live { page_index } => r matches Some(t) && t@ == timeline_page_token_spec(
                (page_index + 1) as nat,
            ),
        },
{
    if hit_start {
        return None;
    }
    match target {
        TimelinePageTarget::Focused { event_id, page_index } => Some(
            focused_timeline_page_token(event_id.as_str(), *page_index + 1),
        ),
        TimelinePageTarget::Live { page_index } => Some(timeline_page_token(*page_index + 1)),
    }
}

/// The token after the first live page: the next page back, none once the
/// start of the room was reached.
pub fn live_first_page_next_before(hit_start: bool) -> (r: Option<String>)
    ensures
        hit_start ==> r is None,
        !hit_start ==> (r matches Some(t) && t@ == timeline_page_token_spec(1)),
{
    if hit_start {
        None
    } else {
        Some(timeline_page_token(1))
    }
}

/// The token that continues a timeline after one more page: none once the
/// start is reached, else the first page token of the live or focused view.
pub open spec fn continuation_token(identity: RoomTimelineIdentity, reached_start: bool) -> Option<
    Seq<char>,
> {
    if reached_start {
        None
    } else {
        match identity.focused_event_id {
            Some(event) => Some(focused_timeline_page_token_spec(event@, 1)),
            None => Some(timeline_page_token_spec(1)),
        }
    }
}

pub(crate) fn opt_string_eq(a: &Option<String>, b: &Option<String>) -> (r: bool)
    ensures
        r == (opt_view(*a) == opt_view(*b)),
{
    match (a, b) {
        (Some(x), Some(y)) => crate::text::str_eq(x.as_str(), y.as_str()),
        (None, None) => true,
        _ => false,
    }
}

/// The answer to a pagination request once the SDK has paged: it carries
/// the request's identity, room and id, the SDK's revision and terminal
/// status, no items, and a continuation token; the known event ids are
/// not consulted.
pub fn pagination_response(request: PaginateRoomTimelineRequest, reached_start: bool, revision: u64) -> (r:
    RoomTimelinePaginationResponse)
    ensures
        r.timeline_identity == request.timeline_identity,
        r.room_id == request.room_id,
        r.request_id == request.request_id,
        r.revision == revision,
        r.reached_start == reached_start,
        r.items@.len() == 0,
        opt_view(r.next_before) == continuation_token(request.timeline_identity, reached_start),
        r.token_changed == (opt_view(request.before) != opt_view(r.next_before)),
        !r.had_new_items,
        r.returned_item_count == 0,
        r.new_item_count == 0,
        r.duplicate_item_count == 0,
        r.continuation_attempt_count == 0,
        r.reason is None,
{
    let next_before = if reached_start {
        None
    } else {
        match &request.timeline_identity.focused_event_id {
            Some(event) => Some(focused_timeline_page_token(event.as_str(), 1)),
            None => Some(timeline_page_token(1)),
        }
    };
    let token_changed = !opt_string_eq(&request.before, &next_before);
    RoomTimelinePaginationResponse {
        timeline_identity: request.timeline_identity,
        revision,
        room_id: request.room_id,
        items: Vec::new(),
        token_changed,
        next_before,
        request_id: request.request_id,
        had_new_items: false,
        returned_item_count: 0,
        new_item_count: 0,
        duplicate_item_count: 0,
        continuation_attempt_count: 0,
        reached_start,
        reason: None,
    }
}

} // verus!
