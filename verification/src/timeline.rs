//! Timeline items as the shell shows them: what each kind of event content
//! projects to, how replies and thread replies are told apart, pages of an
//! already loaded timeline, and reply previews.
use vstd::prelude::*;

use crate::rich_text::{
    nodes_view, project_timeline_rich_text, rich_text_projection, NodeView, RoomTimelineRichTextNode,
};
use crate::text::{is_blank, opt_view, str_eq, str_starts_with, trim, trim_seq};


verus! {

// ---------------------------------------------------------------------------
// Types
// ---------------------------------------------------------------------------

#[derive(Clone, Copy, Debug, PartialEq, Eq, Structural)]
pub enum RoomTimelineEventContentKind {
    Text,
    PendingDecryption,
    UnableToDecrypt,
    Redacted,
    NonText,
    Unsupported,
}

#[derive(Clone, Copy, Debug, PartialEq, Eq, Structural)]
pub enum RoomTimelineDecryptionState {
    Unencrypted,
    Pending,
    UnableToDecrypt,
}

#[derive(Clone, Copy, Debug, PartialEq, Eq, Structural)]
pub enum RoomTimelineSendState {
    Sending,
    Failed,
    Sent,
}

/// What the user may do with a timeline item.
#[derive(Clone, Copy, Debug, PartialEq, Eq, Structural)]
pub struct RoomTimelineItemCapabilities {
    pub can_edit: bool,
    pub can_redact: bool,
    pub can_reply: bool,
    pub can_react: bool,
}

/// The content facts of an item that the shell logic reads.
#[derive(Clone, Copy, Debug, PartialEq, Eq, Structural)]
pub struct RoomTimelineContent {
    pub kind: RoomTimelineEventContentKind,
    pub is_redacted: bool,
}

/// The Matrix-level state of an item.
#[derive(Clone, Copy, Debug, PartialEq, Eq, Structural)]
pub struct RoomTimelineMatrixState {
    pub content: RoomTimelineContent,
    pub send_state: RoomTimelineSendState,
    pub decryption_state: RoomTimelineDecryptionState,
}

/// One timeline item.
#[derive(Debug)]
pub struct RoomTimelineItem {
    pub event_id: String,
    pub sender_id: String,
    pub sender_display_name: Option<String>,
    pub body: String,
    pub timestamp_unix_ms: u64,
    pub is_edited: Option<bool>,
    pub is_own_message: bool,
    pub matrix: RoomTimelineMatrixState,
}

pub fn clone_opt_string(o: &Option<String>) -> (r: Option<String>)
    ensures
        r == *o,
{
    match o {
        Some(s) => Some(s.clone()),
        None => None,
    }
}

impl RoomTimelineItem {
    /// A sent, unencrypted text message.
    pub fn text_message(
        event_id: String,
        sender_id: String,
        sender_display_name: Option<String>,
        body: String,
        timestamp_unix_ms: u64,
        is_edited: bool,
        is_own_message: bool,
    ) -> (r: Self)
        ensures
            r.event_id == event_id,
            r.sender_id == sender_id,
            r.sender_display_name == sender_display_name,
            r.body == body,
            r.timestamp_unix_ms == timestamp_unix_ms,
            r.is_edited == Some(is_edited),
            r.is_own_message == is_own_message,
            r.matrix == (RoomTimelineMatrixState {
                content: RoomTimelineContent {
                    kind: RoomTimelineEventContentKind::Text,
                    is_redacted: false,
                },
                send_state: RoomTimelineSendState::Sent,
                decryption_state: RoomTimelineDecryptionState::Unencrypted,
            }),
    {
        RoomTimelineItem {
            event_id,
            sender_id,
            sender_display_name,
            body,
            timestamp_unix_ms,
            is_edited: Some(is_edited),
            is_own_message,
            matrix: RoomTimelineMatrixState {
                content: RoomTimelineContent {
                    kind: RoomTimelineEventContentKind::Text,
                    is_redacted: false,
                },
                send_state: RoomTimelineSendState::Sent,
                decryption_state: RoomTimelineDecryptionState::Unencrypted,
            },
        }
    }

    /// An equal copy of the item.
    pub fn duplicate(&self) -> (r: Self)
        ensures
            r == *self,
    {
        RoomTimelineItem {
            event_id: self.event_id.clone(),
            sender_id: self.sender_id.clone(),
            sender_display_name: clone_opt_string(&self.sender_display_name),
            body: self.body.clone(),
            timestamp_unix_ms: self.timestamp_unix_ms,
            is_edited: self.is_edited,
            is_own_message: self.is_own_message,
            matrix: self.matrix,
        }
    }

    pub fn event_id(&self) -> (r: &str)
        ensures
            r@ == self.event_id@,
    {
        self.event_id.as_str()
    }

    pub fn sender_id(&self) -> (r: &str)
        ensures
            r@ == self.sender_id@,
    {
        self.sender_id.as_str()
    }

    pub fn body(&self) -> (r: &str)
        ensures
            r@ == self.body@,
    {
        self.body.as_str()
    }
}

// ---------------------------------------------------------------------------
// Content projection
// ---------------------------------------------------------------------------

/// The kinds of event content a timeline item may show.
#[derive(Clone, Copy, Debug, PartialEq, Eq, Structural)]
pub enum TimelineContentProjection {
    Text { is_edited: bool },
    PendingDecryption,
    UnableToDecrypt,
    Redacted,
    NonText,
    Unsupported,
}

/// What a kind of content projects to.
pub struct ProjectedTimelineContent {
    pub kind: RoomTimelineEventContentKind,
    pub body: String,
    pub is_edited: bool,
    pub is_redacted: bool,
    pub decryption_state: RoomTimelineDecryptionState,
    pub capabilities: RoomTimelineItemCapabilities,
    pub capabilities_allow_actions: bool,
}

/// No action is allowed.
pub open spec fn safe_capabilities() -> RoomTimelineItemCapabilities {
    RoomTimelineItemCapabilities { can_edit: false, can_redact: false, can_reply: false, can_react: false }
}

/// The placeholder body shown for a kind of content (empty for text, whose
/// body comes from the message itself).
pub open spec fn placeholder_body(p: TimelineContentProjection) -> Seq<char> {
    match p {
        TimelineContentProjection::Text { .. } => Seq::empty(),
        TimelineContentProjection::PendingDecryption => "Message is waiting to be decrypted"@,
        TimelineContentProjection::UnableToDecrypt => "Unable to decrypt this message"@,
        TimelineContentProjection::Redacted => "Message removed"@,
        TimelineContentProjection::NonText => "Message type is not supported yet"@,
        TimelineContentProjection::Unsupported => "Unsupported message type"@,
    }
}

pub open spec fn projected_kind(p: TimelineContentProjection) -> RoomTimelineEventContentKind {
    match p {
        TimelineContentProjection::Text { .. } => RoomTimelineEventContentKind::Text,
        TimelineContentProjection::PendingDecryption => RoomTimelineEventContentKind::PendingDecryption,
        TimelineContentProjection::UnableToDecrypt => RoomTimelineEventContentKind::UnableToDecrypt,
        TimelineContentProjection::Redacted => RoomTimelineEventContentKind::Redacted,
        TimelineContentProjection::NonText => RoomTimelineEventContentKind::NonText,
        TimelineContentProjection::Unsupported => RoomTimelineEventContentKind::Unsupported,
    }
}

pub open spec fn projected_decryption_state(p: TimelineContentProjection) -> RoomTimelineDecryptionState {
    match p {
        TimelineContentProjection::PendingDecryption => RoomTimelineDecryptionState::Pending,
        TimelineContentProjection::UnableToDecrypt => RoomTimelineDecryptionState::UnableToDecrypt,
        _ => RoomTimelineDecryptionState::Unencrypted,
    }
}

/// Projects a kind of content: text keeps its edit flag and may later gain
/// actions; every placeholder kind shows its fixed body and allows nothing.
pub fn project_timeline_content(projection: TimelineContentProjection) -> (r: ProjectedTimelineContent)
    ensures
        r.kind == projected_kind(projection),
        r.body@ == placeholder_body(projection),
        r.is_edited == (match projection {
            TimelineContentProjection::Text { is_edited } => is_edited,
            _ => false,
        }),
        r.is_redacted == (projection == TimelineContentProjection::Redacted),
        r.decryption_state == projected_decryption_state(projection),
        r.capabilities == safe_capabilities(),
        r.capabilities_allow_actions == (projection is Text),
{
    let safe = RoomTimelineItemCapabilities {
        can_edit: false,
        can_redact: false,
        can_reply: false,
        can_react: false,
    };
    match projection {
        TimelineContentProjection::Text { is_edited } => ProjectedTimelineContent {
            kind: RoomTimelineEventContentKind::Text,
            body: String::new(),
            is_edited,
            is_redacted: false,
            decryption_state: RoomTimelineDecryptionState::Unencrypted,
            capabilities: safe,
            capabilities_allow_actions: true,
        },
        TimelineContentProjection::PendingDecryption => ProjectedTimelineContent {
            kind: RoomTimelineEventContentKind::PendingDecryption,
            body: "Message is waiting to be decrypted".to_owned(),
            is_edited: false,
            is_redacted: false,
            decryption_state: RoomTimelineDecryptionState::Pending,
            capabilities: safe,
            capabilities_allow_actions: false,
        },
        TimelineContentProjection::UnableToDecrypt => ProjectedTimelineContent {
            kind: RoomTimelineEventContentKind::UnableToDecrypt,
            body: "Unable to decrypt this message".to_owned(),
            is_edited: false,
            is_redacted: false,
            decryption_state: RoomTimelineDecryptionState::UnableToDecrypt,
            capabilities: safe,
            capabilities_allow_actions: false,
        },
        TimelineContentProjection::Redacted => ProjectedTimelineContent {
            kind: RoomTimelineEventContentKind::Redacted,
            body: "Message removed".to_owned(),
            is_edited: false,
            is_redacted: true,
            decryption_state: RoomTimelineDecryptionState::Unencrypted,
            capabilities: safe,
            capabilities_allow_actions: false,
        },
        TimelineContentProjection::NonText => ProjectedTimelineContent {
            kind: RoomTimelineEventContentKind::NonText,
            body: "Message type is not supported yet".to_owned(),
            is_edited: false,
            is_redacted: false,
            decryption_state: RoomTimelineDecryptionState::Unencrypted,
            capabilities: safe,
            capabilities_allow_actions: false,
        },
        TimelineContentProjection::Unsupported => ProjectedTimelineContent {
            kind: RoomTimelineEventContentKind::Unsupported,
            body: "Unsupported message type".to_owned(),
            is_edited: false,
            is_redacted: false,
            decryption_state: RoomTimelineDecryptionState::Unencrypted,
            capabilities: safe,
            capabilities_allow_actions: false,
        },
    }
}

// ---------------------------------------------------------------------------
// Relations and ordering
// ---------------------------------------------------------------------------

#[derive(Clone, Copy, Debug, PartialEq, Eq, Structural)]
pub enum TimelineRelationKind {
    Unrelated,
    OrdinaryReply,
    ThreadReply,
}

impl TimelineRelationKind {
    pub fn is_thread_reply(self) -> (r: bool)
        ensures
            r == (self == TimelineRelationKind::ThreadReply),
    {
        match self {
            TimelineRelationKind::ThreadReply => true,
            _ => false,
        }
    }
}

/// A thread root makes an event a thread reply, whatever reply fallback it
/// carries; otherwise a reply target makes it an ordinary reply.
pub fn relation_kind(thread_root_event_id: Option<&str>, reply_event_id: Option<&str>) -> (r:
    TimelineRelationKind)
    ensures
        r == (if thread_root_event_id is Some {
            TimelineRelationKind::ThreadReply
        } else if reply_event_id is Some {
            TimelineRelationKind::OrdinaryReply
        } else {
            TimelineRelationKind::Unrelated
        }),
{
    if thread_root_event_id.is_some() {
        TimelineRelationKind::ThreadReply
    } else if reply_event_id.is_some() {
        TimelineRelationKind::OrdinaryReply
    } else {
        TimelineRelationKind::Unrelated
    }
}

/// The event ids in the order the SDK gave them; timestamps never reorder
/// them. Pairs stop where either list ends.
pub fn preserve_sdk_order<'event>(event_ids: &[&'event str], timestamps: &[u64]) -> (r: Vec<
    &'event str,
>)
    ensures
        r@ == event_ids@.take(
            if event_ids@.len() <= timestamps@.len() {
                event_ids@.len() as int
            } else {
                timestamps@.len() as int
            },
        ),
{
    let n = if event_ids.len() <= timestamps.len() {
        event_ids.len()
    } else {
        timestamps.len()
    };
    let mut r: Vec<&'event str> = Vec::new();
    let mut i: usize = 0;
    while i < n
        invariant
            i <= n <= event_ids@.len(),
            r@ == event_ids@.take(i as int),
        decreases n - i,
    {
        r.push(event_ids[i]);
        assert(event_ids@.take(i + 1) == event_ids@.take(i as int).push(event_ids@[i as int]));
        i = i + 1;
    }
    r
}

// ---------------------------------------------------------------------------
// Pages of a loaded timeline
// ---------------------------------------------------------------------------

/// The page `page_index` pages back from the newest end of the loaded
/// items: the `limit` items that end `page_index * limit` items before the
/// end, clipped at the start. `None` for page 0, a zero limit, or a page
/// that lies wholly before the loaded items.
pub open spec fn loaded_page_bounds(len: int, page_index: int, limit: int) -> Option<(int, int)> {
    if page_index == 0 || limit == 0 || page_index * limit > usize::MAX {
        None
    } else if len - page_index * limit <= 0 {
        None
    } else {
        let end = len - page_index * limit;
        Some((if end >= limit { end - limit } else { 0 }, end))
    }
}

/// Copies `items[from..to]`.
pub fn copy_items(items: &[RoomTimelineItem], from: usize, to: usize) -> (r: Vec<RoomTimelineItem>)
    requires
        from <= to <= items@.len(),
    ensures
        r@ == items@.subrange(from as int, to as int),
{
    let mut r: Vec<RoomTimelineItem> = Vec::new();
    let mut i = from;
    while i < to
        invariant
            from <= i <= to <= items@.len(),
            r@ == items@.subrange(from as int, i as int),
        decreases to - i,
    {
        r.push(items[i].duplicate());
        assert(items@.subrange(from as int, i + 1) == items@.subrange(from as int, i as int).push(
            items@[i as int],
        ));
        i = i + 1;
    }
    r
}

/// An older page of items that are already loaded, newest page last.
pub fn loaded_timeline_page(loaded_items: &[RoomTimelineItem], page_index: usize, limit: usize) -> (r:
    Option<Vec<RoomTimelineItem>>)
    ensures
        match loaded_page_bounds(loaded_items@.len() as int, page_index as int, limit as int) {
            None => r is None,
            Some((from, to)) => r is Some && r.unwrap()@ == loaded_items@.subrange(from, to),
        },
{
    if page_index == 0 || limit == 0 {
        return None;
    }
    let offset = match page_index.checked_mul(limit) {
        Some(o) => o,
        None => {
            return None;
        },
    };
    if offset >= loaded_items.len() {
        return None;
    }
    let end_index = loaded_items.len() - offset;
    let start_index = if end_index >= limit {
        end_index - limit
    } else {
        0
    };
    Some(copy_items(loaded_items, start_index, end_index))
}

// ---------------------------------------------------------------------------
// Reply previews
// ---------------------------------------------------------------------------

#[derive(Clone, Copy, Debug, PartialEq, Eq, Structural)]
pub enum RoomTimelineReplyPreviewState {
    Loading,
    Resolved,
    Inaccessible,
    DeletedRedacted,
    InvalidRelation,
    FailedToLoad,
}

/// What a reply shows of its target.
#[derive(Debug)]
pub struct RoomTimelineReplyPreview {
    pub event_id: String,
    pub state: RoomTimelineReplyPreviewState,
    pub sender_id: Option<String>,
    pub sender_display_name: Option<String>,
    pub body: Option<String>,
    pub is_redacted: bool,
}

/// A preview that could not resolve its target.
pub open spec fn unresolved_preview(
    p: RoomTimelineReplyPreview,
    event_id: Seq<char>,
    state: RoomTimelineReplyPreviewState,
) -> bool {
    &&& p.event_id@ == event_id
    &&& p.state == state
    &&& p.sender_id is None
    &&& p.sender_display_name is None
    &&& p.body is None
    &&& !p.is_redacted
}

/// The preview of a found target: redacted targets show no body, targets
/// whose body is blank are an invalid relation, others show the trimmed
/// body; all show the sender.
pub open spec fn preview_of_item(p: RoomTimelineReplyPreview, event_id: Seq<char>, item: RoomTimelineItem) -> bool {
    &&& p.event_id@ == event_id
    &&& opt_view(p.sender_id) == Some(item.sender_id@)
    &&& opt_view(p.sender_display_name) == opt_view(item.sender_display_name)
    &&& p.is_redacted == item.matrix.content.is_redacted
    &&& if item.matrix.content.is_redacted {
        p.state == RoomTimelineReplyPreviewState::DeletedRedacted && p.body is None
    } else if trim_seq(item.body@).len() == 0 {
        p.state == RoomTimelineReplyPreviewState::InvalidRelation && p.body is None
    } else {
        p.state == RoomTimelineReplyPreviewState::Resolved && opt_view(p.body) == Some(
            trim_seq(item.body@),
        )
    }
}

/// The preview of a reply target from the item found for it.
pub fn reply_preview_from_timeline_item(event_id: String, item: &RoomTimelineItem) -> (r:
    RoomTimelineReplyPreview)
    ensures
        preview_of_item(r, event_id@, *item),
{
    if item.matrix.content.is_redacted {
        return RoomTimelineReplyPreview {
            event_id,
            state: RoomTimelineReplyPreviewState::DeletedRedacted,
            sender_id: Some(item.sender_id.clone()),
            sender_display_name: clone_opt_string(&item.sender_display_name),
            body: None,
            is_redacted: true,
        };
    }
    if is_blank(item.body.as_str()) {
        return RoomTimelineReplyPreview {
            event_id,
            state: RoomTimelineReplyPreviewState::InvalidRelation,
            sender_id: Some(item.sender_id.clone()),
            sender_display_name: clone_opt_string(&item.sender_display_name),
            body: None,
            is_redacted: false,
        };
    }
    RoomTimelineReplyPreview {
        event_id,
        state: RoomTimelineReplyPreviewState::Resolved,
        sender_id: Some(item.sender_id.clone()),
        sender_display_name: clone_opt_string(&item.sender_display_name),
        body: Some(trim(item.body.as_str())),
        is_redacted: false,
    }
}

/// The first item with the given event id, if any.
pub open spec fn first_item_with_id(items: Seq<RoomTimelineItem>, event_id: Seq<char>) -> Option<int> {
    if exists|i: int| 0 <= i < items.len() && (#[trigger] items[i]).event_id@ == event_id {
        Some(choose|i: int| 0 <= i < items.len() && (#[trigger] items[i]).event_id@ == event_id
            && forall|j: int| 0 <= j < i ==> (#[trigger] items[j]).event_id@ != event_id)
    } else {
        None
    }
}

/// The preview of a reply target among the items loaded around it: the
/// first item with its event id, or an inaccessible target.
pub fn reply_preview_from_focused_items(event_id: String, focused_items: &[RoomTimelineItem]) -> (r:
    RoomTimelineReplyPreview)
    ensures
        match first_item_with_id(focused_items@, event_id@) {
            Some(i) => preview_of_item(r, event_id@, focused_items@[i]),
            None => unresolved_preview(r, event_id@, RoomTimelineReplyPreviewState::Inaccessible),
        },
{
    let mut i: usize = 0;
    while i < focused_items.len()
        invariant
            i <= focused_items@.len(),
            forall|j: int| 0 <= j < i ==> (#[trigger] focused_items@[j]).event_id@ != event_id@,
        decreases focused_items.len() - i,
    {
        if str_eq(focused_items[i].event_id.as_str(), event_id.as_str()) {
            proof {
                let w = choose|w: int| 0 <= w < focused_items@.len() && (
                #[trigger] focused_items@[w]).event_id@ == event_id@ && forall|j: int|
                    0 <= j < w ==> (#[trigger] focused_items@[j]).event_id@ != event_id@;
                if w < i {
                } else if w > i {
                    assert(focused_items@[i as int].event_id@ == event_id@);
                }
            }
            return reply_preview_from_timeline_item(event_id, &focused_items[i]);
        }
        i = i + 1;
    }
    RoomTimelineReplyPreview {
        event_id,
        state: RoomTimelineReplyPreviewState::Inaccessible,
        sender_id: None,
        sender_display_name: None,
        body: None,
        is_redacted: false,
    }
}

// ---------------------------------------------------------------------------
// Events as the SDK reports them
// ---------------------------------------------------------------------------

/// How the timeline classes a message type: text, notice and emote are
/// text; audio, file, image, video, location, server notices, verification
/// requests, galleries and custom types are media and others; the rest is
/// not supported.
#[derive(Clone, Copy, Debug, PartialEq, Eq, Structural)]
pub enum MessageTypeClass {
    TextLike,
    NonTextLike,
    Unknown,
}

/// What the SDK reports of a message.
#[derive(Debug)]
pub struct MessageReport {
    pub class: MessageTypeClass,
    pub body: String,
    pub is_edited: bool,
    /// The formatted body and its format, where the message has one.
    pub formatted: Option<(String, String)>,
}

/// What the SDK reports of an event's content.
#[derive(Debug)]
pub struct ContentReport {
    pub is_redacted: bool,
    pub is_unable_to_decrypt: bool,
    pub message: Option<MessageReport>,
}

/// The kind of content an event projects to: pending decryption when
/// reported so, then redacted, undecryptable, and by the message type.
pub open spec fn content_projection(
    content: ContentReport,
    reported_decryption_state: Option<RoomTimelineDecryptionState>,
) -> TimelineContentProjection {
    if reported_decryption_state == Some(RoomTimelineDecryptionState::Pending) {
        TimelineContentProjection::PendingDecryption
    } else if content.is_redacted {
        TimelineContentProjection::Redacted
    } else if content.is_unable_to_decrypt {
        TimelineContentProjection::UnableToDecrypt
    } else {
        match content.message {
            None => TimelineContentProjection::Unsupported,
            Some(m) => match m.class {
                MessageTypeClass::TextLike => TimelineContentProjection::Text { is_edited: m.is_edited },
                MessageTypeClass::NonTextLike => TimelineContentProjection::NonText,
                MessageTypeClass::Unknown => TimelineContentProjection::Unsupported,
            },
        }
    }
}

/// The kind of content an event projects to.
pub fn timeline_content_projection(
    content: &ContentReport,
    reported_decryption_state: Option<RoomTimelineDecryptionState>,
) -> (r: TimelineContentProjection)
    ensures
        r == content_projection(*content, reported_decryption_state),
{
    if reported_decryption_state == Some(RoomTimelineDecryptionState::Pending) {
        return TimelineContentProjection::PendingDecryption;
    }
    if content.is_redacted {
        return TimelineContentProjection::Redacted;
    }
    if content.is_unable_to_decrypt {
        return TimelineContentProjection::UnableToDecrypt;
    }
    match &content.message {
        None => TimelineContentProjection::Unsupported,
        Some(m) => match m.class {
            MessageTypeClass::TextLike => TimelineContentProjection::Text { is_edited: m.is_edited },
            MessageTypeClass::NonTextLike => TimelineContentProjection::NonText,
            MessageTypeClass::Unknown => TimelineContentProjection::Unsupported,
        },
    }
}

/// The body of an event and whether it was edited: a message's own body,
/// the undecryptable placeholder, or none.
pub fn timeline_event_body(content: &ContentReport) -> (r: Option<(String, bool)>)
    ensures
        match content.message {
            Some(m) => r matches Some((b, e)) && b == m.body && e == m.is_edited,
            None => if content.is_unable_to_decrypt {
                r matches Some((b, e)) && b@ == "Unable to decrypt this message"@ && !e
            } else {
                r is None
            },
        },
{
    if let Some(m) = &content.message {
        return Some((m.body.clone(), m.is_edited));
    }
    if content.is_unable_to_decrypt {
        return Some(("Unable to decrypt this message".to_owned(), false));
    }
    None
}

/// Where the SDK reports a local echo's sending stands.
#[derive(Clone, Copy, Debug, PartialEq, Eq, Structural)]
pub enum SendStateReport {
    NotSentYet,
    SendingFailed,
    Sent,
}

/// The send state shown: sending, failed, or sent (also for remote
/// events, which have none).
pub fn timeline_send_state(send_state: Option<SendStateReport>) -> (r: RoomTimelineSendState)
    ensures
        r == match send_state {
            Some(SendStateReport::NotSentYet) => RoomTimelineSendState::Sending,
            Some(SendStateReport::SendingFailed) => RoomTimelineSendState::Failed,
            _ => RoomTimelineSendState::Sent,
        },
{
    match send_state {
        Some(SendStateReport::NotSentYet) => RoomTimelineSendState::Sending,
        Some(SendStateReport::SendingFailed) => RoomTimelineSendState::Failed,
        _ => RoomTimelineSendState::Sent,
    }
}

/// A sender's profile as the SDK has it: loaded, or not (yet).
#[derive(Debug)]
pub enum ProfileDetails {
    Ready { display_name: Option<String>, avatar_url: Option<String> },
    Unavailable,
}

/// The sender's display name, when the profile is loaded.
pub fn sender_display_name(profile: &ProfileDetails) -> (r: Option<String>)
    ensures
        r == match *profile {
            ProfileDetails::Ready { display_name, .. } => display_name,
            ProfileDetails::Unavailable => None,
        },
{
    match profile {
        ProfileDetails::Ready { display_name, .. } => clone_opt_string(display_name),
        ProfileDetails::Unavailable => None,
    }
}

/// The sender's avatar URL, when the profile is loaded.
pub fn sender_avatar_url(profile: &ProfileDetails) -> (r: Option<String>)
    ensures
        r == match *profile {
            ProfileDetails::Ready { avatar_url, .. } => avatar_url,
            ProfileDetails::Unavailable => None,
        },
{
    match profile {
        ProfileDetails::Ready { avatar_url, .. } => clone_opt_string(avatar_url),
        ProfileDetails::Unavailable => None,
    }
}

/// The event that a reply is embedded with, as the SDK reports it.
#[derive(Debug)]
pub struct EmbeddedEventReport {
    pub sender: String,
    pub profile: ProfileDetails,
    pub content: ContentReport,
}

/// The target of a reply: its event id, and the event once it is loaded.
#[derive(Debug)]
pub struct InReplyToReport {
    pub event_id: String,
    pub event: Option<EmbeddedEventReport>,
}

/// The preview of a reply target, as `timeline_reply_preview` gives it.
pub open spec fn reply_preview_spec(
    in_reply_to: Option<InReplyToReport>,
    has_thread_root: bool,
    r: Option<RoomTimelineReplyPreview>,
) -> bool {
        match in_reply_to {
            None => r is None,
            Some(reply) => if has_thread_root {
                r is None
            } else {
                r matches Some(p) && p.event_id == reply.event_id && match reply.event {
                    None => p.state == RoomTimelineReplyPreviewState::Loading && p.sender_id is None
                        && p.sender_display_name is None && p.body is None && !p.is_redacted,
                    Some(e) => p.sender_id == Some(e.sender) && p.sender_display_name == match e.profile {
                        ProfileDetails::Ready { display_name, .. } => display_name,
                        ProfileDetails::Unavailable => None,
                    } && if e.content.is_redacted {
                        p.state == RoomTimelineReplyPreviewState::DeletedRedacted && p.body is None && p.is_redacted
                    } else {
                        match e.content.message {
                            Some(m) => p.state == RoomTimelineReplyPreviewState::Resolved && p.body == Some(m.body)
                                && !p.is_redacted,
                            None => if e.content.is_unable_to_decrypt {
                                p.state == RoomTimelineReplyPreviewState::Resolved && opt_view(p.body) == Some(
                                    "Unable to decrypt this message"@,
                                ) && !p.is_redacted
                            } else {
                                p.state == RoomTimelineReplyPreviewState::InvalidRelation && p.body is None
                                    && !p.is_redacted
                            },
                        }
                    },
                }
            },
        }
}

/// The preview of an event's reply target: none without one or for a
/// thread reply; loading until the target is there; deleted when it was
/// redacted; an invalid relation when it has no body; else resolved with
/// its body.
pub fn timeline_reply_preview(in_reply_to: Option<InReplyToReport>, thread_root: Option<&str>) -> (r: Option<
    RoomTimelineReplyPreview,
>)
    ensures
        reply_preview_spec(in_reply_to, thread_root is Some, r),
{
    let reply = match in_reply_to {
        None => {
            return None;
        },
        Some(r) => r,
    };
    let kind = relation_kind(thread_root, Some(reply.event_id.as_str()));
    if kind.is_thread_reply() {
        return None;
    }
    let event = match reply.event {
        None => {
            return Some(
                RoomTimelineReplyPreview {
                    event_id: reply.event_id,
                    state: RoomTimelineReplyPreviewState::Loading,
                    sender_id: None,
                    sender_display_name: None,
                    body: None,
                    is_redacted: false,
                },
            );
        },
        Some(e) => e,
    };
    let display_name = sender_display_name(&event.profile);
    if event.content.is_redacted {
        return Some(
            RoomTimelineReplyPreview {
                event_id: reply.event_id,
                state: RoomTimelineReplyPreviewState::DeletedRedacted,
                sender_id: Some(event.sender),
                sender_display_name: display_name,
                body: None,
                is_redacted: true,
            },
        );
    }
    match timeline_event_body(&event.content) {
        None => Some(
            RoomTimelineReplyPreview {
                event_id: reply.event_id,
                state: RoomTimelineReplyPreviewState::InvalidRelation,
                sender_id: Some(event.sender),
                sender_display_name: display_name,
                body: None,
                is_redacted: false,
            },
        ),
        Some((body, _is_edited)) => Some(
            RoomTimelineReplyPreview {
                event_id: reply.event_id,
                state: RoomTimelineReplyPreviewState::Resolved,
                sender_id: Some(event.sender),
                sender_display_name: display_name,
                body: Some(body),
                is_redacted: event.content.is_redacted,
            },
        ),
    }
}

/// The id of a timeline entry that is a redacted event: its event id, or
/// its local identifier before it has one; none for other entries.
pub fn redacted_event_id_from_timeline_item(
    is_event: bool,
    is_redacted: bool,
    event_id: Option<String>,
    identifier: String,
) -> (r: Option<String>)
    ensures
        r == if is_event && is_redacted {
            match event_id {
                Some(id) => Some(id),
                None => Some(identifier),
            }
        } else {
            None::<String>
        },
{
    if !is_event || !is_redacted {
        return None;
    }
    match event_id {
        Some(id) => Some(id),
        None => Some(identifier),
    }
}

/// A reaction as shown under an item.
#[derive(Debug)]
pub struct RoomTimelineReaction {
    pub key: String,
    pub count: u64,
    pub reacted_by_me: bool,
}

/// Where one sender's reaction stands, as the SDK reports it: sent from
/// this device (echo or sent), or received from the server.
#[derive(Clone, Copy, Debug, PartialEq, Eq, Structural)]
pub enum ReactionStatusReport {
    LocalToLocal,
    LocalToRemote,
    RemoteToRemote,
}

/// One reaction key and the statuses of its senders.
#[derive(Debug)]
pub struct ReactionGroupReport {
    pub key: String,
    pub statuses: Vec<ReactionStatusReport>,
}

/// Whether one of the senders' reactions comes from this device.
pub open spec fn reacted_by_me(statuses: Seq<ReactionStatusReport>) -> bool {
    exists|i: int|
        0 <= i < statuses.len() && (#[trigger] statuses[i] == ReactionStatusReport::LocalToLocal || statuses[i]
            == ReactionStatusReport::LocalToRemote)
}

/// The reaction shown for a group: its key, how many reacted, and whether
/// one of them is a reaction of this device.
pub open spec fn shown_reaction(group: ReactionGroupReport) -> RoomTimelineReaction {
    RoomTimelineReaction {
        key: group.key,
        count: group.statuses@.len() as u64,
        reacted_by_me: reacted_by_me(group.statuses@),
    }
}

/// The reaction shown for a group.
pub fn timeline_reaction(group: ReactionGroupReport) -> (r: RoomTimelineReaction)
    ensures
        r == shown_reaction(group),
        r.count == group.statuses@.len(),
{
    let mut mine = false;
    let mut i: usize = 0;
    while i < group.statuses.len()
        invariant
            i <= group.statuses@.len(),
            mine == reacted_by_me(group.statuses@.take(i as int)),
        decreases group.statuses.len() - i,
    {
        let status = group.statuses[i];
        if status == ReactionStatusReport::LocalToLocal || status == ReactionStatusReport::LocalToRemote {
            mine = true;
            assert(group.statuses@.take(i + 1)[i as int] == status);
        }
        i = i + 1;
        assert(forall|j: int| 0 <= j < i - 1 ==> group.statuses@.take(i as int)[j] == group.statuses@.take(i - 1)[j]);
    }
    assert(group.statuses@.take(group.statuses@.len() as int) == group.statuses@);
    RoomTimelineReaction { key: group.key, count: group.statuses.len() as u64, reacted_by_me: mine }
}

/// A read receipt as shown under an item.
#[derive(Debug)]
pub struct RoomTimelineReceipt {
    pub user_id: String,
    pub display_name: Option<String>,
    pub avatar_url: Option<String>,
    pub timestamp_unix_ms: Option<u64>,
}

/// The receipt of a user; names and avatars are filled in later.
pub fn timeline_receipt(user_id: String, timestamp_unix_ms: Option<u64>) -> (r: RoomTimelineReceipt)
    ensures
        r.user_id == user_id,
        r.display_name is None,
        r.avatar_url is None,
        r.timestamp_unix_ms == timestamp_unix_ms,
{
    RoomTimelineReceipt { user_id, display_name: None, avatar_url: None, timestamp_unix_ms }
}

/// The reactions shown under an item, one per key, in the SDK's order.
pub fn timeline_reactions(groups: Vec<ReactionGroupReport>) -> (r: Vec<RoomTimelineReaction>)
    ensures
        r@.len() == groups@.len(),
        forall|i: int| 0 <= i < r@.len() ==> #[trigger] r@[i] == shown_reaction(groups@[i]),
{
    let ghost all = groups@;
    let total: usize = groups.len();
    let mut rest = groups;
    let mut out: Vec<RoomTimelineReaction> = Vec::new();
    assert(rest@ == all.skip(0));
    while rest.len() > 0
        invariant
            out@.len() + rest@.len() == all.len(),
            all.len() == total,
            rest@ == all.skip(out@.len() as int),
            forall|i: int| 0 <= i < out@.len() ==> #[trigger] out@[i] == shown_reaction(all[i]),
        decreases rest.len(),
    {
        let group = rest.remove(0);
        let reaction = timeline_reaction(group);
        out.push(reaction);
        assert(rest@ == all.skip(out@.len() as int));
    }
    out
}

/// The read receipts shown under an item, in the SDK's order: each user
/// with the time of the receipt, when known.
pub fn timeline_receipts(receipts: Vec<(String, Option<u64>)>) -> (r: Vec<RoomTimelineReceipt>)
    ensures
        r@.len() == receipts@.len(),
        forall|i: int|
            0 <= i < r@.len() ==> #[trigger] r@[i] == (RoomTimelineReceipt {
                user_id: receipts@[i].0,
                display_name: None,
                avatar_url: None,
                timestamp_unix_ms: receipts@[i].1,
            }),
{
    let ghost all = receipts@;
    let total: usize = receipts.len();
    let mut rest = receipts;
    let mut out: Vec<RoomTimelineReceipt> = Vec::new();
    assert(rest@ == all.skip(0));
    while rest.len() > 0
        invariant
            out@.len() + rest@.len() == all.len(),
            all.len() == total,
            rest@ == all.skip(out@.len() as int),
            forall|i: int|
                0 <= i < out@.len() ==> #[trigger] out@[i] == (RoomTimelineReceipt {
                    user_id: all[i].0,
                    display_name: None,
                    avatar_url: None,
                    timestamp_unix_ms: all[i].1,
                }),
        decreases rest.len(),
    {
        let (user_id, timestamp) = rest.remove(0);
        out.push(timeline_receipt(user_id, timestamp));
        assert(rest@ == all.skip(out@.len() as int));
    }
    out
}

/// A thread rooted at an item.
#[derive(Debug)]
pub struct RoomTimelineThreadRelation {
    pub root_event_id: String,
    pub latest_event_id: Option<String>,
    pub reply_count: u64,
}

/// The thread rooted at an item: its root, its latest event when loaded,
/// and how many replies it has.
pub fn timeline_thread_summary(event_id: &str, latest_event_id: Option<String>, num_replies: u32) -> (r:
    RoomTimelineThreadRelation)
    ensures
        r.root_event_id@ == event_id@,
        r.latest_event_id == latest_event_id,
        r.reply_count == num_replies,
{
    RoomTimelineThreadRelation {
        root_event_id: event_id.to_owned(),
        latest_event_id,
        reply_count: num_replies as u64,
    }
}

/// What the SDK reports of one event of a timeline.
#[derive(Debug)]
pub struct EventReport {
    pub event_id: Option<String>,
    pub identifier: String,
    pub sender: String,
    pub profile: ProfileDetails,
    pub content: ContentReport,
    pub timestamp_unix_ms: u64,
    pub is_own: bool,
    pub send_state: Option<SendStateReport>,
    pub is_editable: bool,
    pub can_be_replied_to: bool,
    pub transaction_id: Option<String>,
    pub reactions: Vec<ReactionGroupReport>,
    /// The read receipts on the event: user id and receipt time.
    pub receipts: Vec<(String, Option<u64>)>,
    /// The thread the event roots, if any: its latest event id when loaded,
    /// and how many replies it has.
    pub thread_summary: Option<(Option<String>, u32)>,
    /// The root of the thread the event replies in, if any.
    pub thread_root: Option<String>,
    pub in_reply_to: Option<InReplyToReport>,
}

/// A timeline item as the shell shows it: the item, its rich text and
/// formatted body, its local transaction id, its reactions and read
/// receipts (the first three of them shown compactly), the thread it roots
/// and the one it replies in, its sender's avatar, the preview of the event
/// it replies to, and the actions allowed on it.
#[derive(Debug)]
pub struct ShellTimelineItem {
    pub item: RoomTimelineItem,
    pub rich_text: Option<Vec<RoomTimelineRichTextNode>>,
    pub formatted_body: Option<String>,
    pub formatted_body_format: Option<String>,
    pub transaction_id: Option<String>,
    pub avatar_url: Option<String>,
    pub reactions: Vec<RoomTimelineReaction>,
    pub receipts: Vec<RoomTimelineReceipt>,
    pub compact_receipts: Vec<RoomTimelineReceipt>,
    pub thread: Option<RoomTimelineThreadRelation>,
    pub thread_reply_to: Option<String>,
    pub reply_preview: Option<RoomTimelineReplyPreview>,
    pub capabilities: RoomTimelineItemCapabilities,
}

/// The formatted body of text-like message content, and its format.
pub open spec fn formatted_of(content: ContentReport) -> Option<(String, String)> {
    match content.message {
        Some(m) => if m.class == MessageTypeClass::TextLike {
            m.formatted
        } else {
            None
        },
        None => None,
    }
}

/// The body the shell shows for an event: a text message's own body, else
/// the placeholder of its content kind.
pub open spec fn shell_body(event: EventReport) -> Seq<char> {
    let p = content_projection(event.content, None);
    match p {
        TimelineContentProjection::Text { .. } => event.content.message.unwrap().body@,
        _ => placeholder_body(p),
    }
}

/// The rich text of an event, where it has one: its formatted body
/// projected, else its plain text body linkified; `Some(None)` where the
/// projection is not defined.
pub open spec fn shell_rich_text(event: EventReport) -> Option<Option<Seq<NodeView>>> {
    match formatted_of(event.content) {
        Some((f, k)) => Some(rich_text_projection(shell_body(event), Some(f@), Some(k@))),
        None => if content_projection(event.content, None) is Text {
            Some(rich_text_projection(shell_body(event), None, None))
        } else {
            None
        },
    }
}

/// A copy of a receipt.
fn clone_receipt(x: &RoomTimelineReceipt) -> (r: RoomTimelineReceipt)
    ensures
        r == *x,
{
    RoomTimelineReceipt {
        user_id: x.user_id.clone(),
        display_name: clone_opt_string(&x.display_name),
        avatar_url: clone_opt_string(&x.avatar_url),
        timestamp_unix_ms: x.timestamp_unix_ms,
    }
}

/// The receipts shown compactly: the first three.
fn compact_receipts_of(receipts: &Vec<RoomTimelineReceipt>) -> (r: Vec<RoomTimelineReceipt>)
    ensures
        r@ == receipts@.take(if receipts@.len() < 3 { receipts@.len() as int } else { 3 }),
{
    let n: usize = if receipts.len() < 3 { receipts.len() } else { 3 };
    let mut out: Vec<RoomTimelineReceipt> = Vec::new();
    let mut i: usize = 0;
    while i < n
        invariant
            i <= n,
            n <= receipts@.len(),
            out@ == receipts@.take(i as int),
        decreases n - i,
    {
        out.push(clone_receipt(&receipts[i]));
        i = i + 1;
    }
    out
}

/// The shell item of an event: the content projection gives the kind, the
/// placeholder body (a text message shows its own body), the edit flag and
/// the decryption state; the event id falls back to the local identifier;
/// actions are allowed for text only, editing and replying as the SDK says.
/// The formatted body of text-like content is projected into rich text, and
/// a text message without one has its body linkified; reactions, receipts,
/// the thread, the thread reply target and the reply preview follow the
/// SDK's report.
pub fn timeline_item_to_shell_item(event: EventReport) -> (r: ShellTimelineItem)
    requires
        shell_rich_text(event) matches Some(o) ==> o is Some,
    ensures
        ({
            let p = content_projection(event.content, None);
            &&& r.item.event_id == match event.event_id {
                Some(id) => id,
                None => event.identifier,
            }
            &&& r.item.sender_id == event.sender
            &&& r.item.sender_display_name == match event.profile {
                ProfileDetails::Ready { display_name, .. } => display_name,
                ProfileDetails::Unavailable => None,
            }
            &&& r.item.body@ == shell_body(event)
            &&& r.item.timestamp_unix_ms == event.timestamp_unix_ms
            &&& r.item.is_edited == Some(
                match p {
                    TimelineContentProjection::Text { is_edited } => is_edited,
                    _ => false,
                },
            )
            &&& r.item.is_own_message == event.is_own
            &&& r.item.matrix.content.kind == projected_kind(p)
            &&& r.item.matrix.content.is_redacted == (p == TimelineContentProjection::Redacted)
            &&& r.item.matrix.decryption_state == projected_decryption_state(p)
            &&& r.item.matrix.send_state == match event.send_state {
                Some(SendStateReport::NotSentYet) => RoomTimelineSendState::Sending,
                Some(SendStateReport::SendingFailed) => RoomTimelineSendState::Failed,
                _ => RoomTimelineSendState::Sent,
            }
            &&& r.capabilities == if p is Text {
                RoomTimelineItemCapabilities {
                    can_edit: event.is_editable,
                    can_reply: event.can_be_replied_to,
                    ..safe_capabilities()
                }
            } else {
                safe_capabilities()
            }
        }),
        match shell_rich_text(event) {
            Some(o) => r.rich_text matches Some(v) && o == Some(nodes_view(v@)),
            None => r.rich_text is None,
        },
        r.formatted_body == match formatted_of(event.content) {
            Some((b, _)) => Some(b),
            None => None,
        },
        r.formatted_body_format == match formatted_of(event.content) {
            Some((_, f)) => Some(f),
            None => None,
        },
        r.transaction_id == event.transaction_id,
        r.avatar_url == match event.profile {
            ProfileDetails::Ready { avatar_url, .. } => avatar_url,
            ProfileDetails::Unavailable => None,
        },
        r.reactions@.len() == event.reactions@.len(),
        forall|i: int| 0 <= i < r.reactions@.len() ==> #[trigger] r.reactions@[i] == shown_reaction(event.reactions@[i]),
        r.receipts@.len() == event.receipts@.len(),
        forall|i: int|
            0 <= i < r.receipts@.len() ==> #[trigger] r.receipts@[i] == (RoomTimelineReceipt {
                user_id: event.receipts@[i].0,
                display_name: None,
                avatar_url: None,
                timestamp_unix_ms: event.receipts@[i].1,
            }),
        r.compact_receipts@ == r.receipts@.take(if r.receipts@.len() < 3 { r.receipts@.len() as int } else { 3 }),
        match event.thread_summary {
            Some((latest, n)) => r.thread matches Some(t) && t.root_event_id@ == r.item.event_id@
                && t.latest_event_id == latest && t.reply_count == n,
            None => r.thread is None,
        },
        r.thread_reply_to == event.thread_root,
        reply_preview_spec(event.in_reply_to, event.thread_root is Some, r.reply_preview),
{
    let projection_kind = timeline_content_projection(&event.content, None);
    let projection = project_timeline_content(projection_kind);
    let body = match projection_kind {
        TimelineContentProjection::Text { .. } => match &event.content.message {
            Some(m) => m.body.clone(),
            None => projection.body,
        },
        _ => projection.body,
    };
    let formatted: Option<(String, String)> = match &event.content.message {
        Some(m) => if m.class == MessageTypeClass::TextLike {
            match &m.formatted {
                Some((b, f)) => Some((b.clone(), f.clone())),
                None => None,
            }
        } else {
            None
        },
        None => None,
    };
    let event_id = match event.event_id {
        Some(id) => id,
        None => event.identifier,
    };
    let display_name = sender_display_name(&event.profile);
    let avatar_url = sender_avatar_url(&event.profile);
    let mut item = RoomTimelineItem::text_message(
        event_id,
        event.sender,
        display_name,
        body,
        event.timestamp_unix_ms,
        projection.is_edited,
        event.is_own,
    );
    item.matrix.content.kind = projection.kind;
    item.matrix.content.is_redacted = projection.is_redacted;
    item.matrix.decryption_state = projection.decryption_state;
    item.matrix.send_state = timeline_send_state(event.send_state);
    let mut capabilities = projection.capabilities;
    if projection.capabilities_allow_actions {
        capabilities.can_edit = event.is_editable;
        capabilities.can_reply = event.can_be_replied_to;
    }
    let is_text = match projection_kind {
        TimelineContentProjection::Text { .. } => true,
        _ => false,
    };
    let rich_text = match &formatted {
        Some((b, f)) => Some(project_timeline_rich_text(item.body.as_str(), Some(b.as_str()), Some(f.as_str()))),
        None => if is_text {
            Some(project_timeline_rich_text(item.body.as_str(), None, None))
        } else {
            None
        },
    };
    let (formatted_body, formatted_body_format) = match formatted {
        Some((b, f)) => (Some(b), Some(f)),
        None => (None, None),
    };
    let reactions = timeline_reactions(event.reactions);
    let receipts = timeline_receipts(event.receipts);
    let compact_receipts = compact_receipts_of(&receipts);
    let thread = match event.thread_summary {
        Some((latest, n)) => Some(timeline_thread_summary(item.event_id.as_str(), latest, n)),
        None => None,
    };
    let thread_root: Option<&str> = match &event.thread_root {
        Some(t) => Some(t.as_str()),
        None => None,
    };
    let reply_preview = timeline_reply_preview(event.in_reply_to, thread_root);
    ShellTimelineItem {
        item,
        rich_text,
        formatted_body,
        formatted_body_format,
        transaction_id: event.transaction_id,
        avatar_url,
        reactions,
        receipts,
        compact_receipts,
        thread,
        thread_reply_to: event.thread_root,
        reply_preview,
        capabilities,
    }
}

/// What a timeline item identifier given by the shell names: an event id
/// when it starts with `$`, otherwise the transaction id of a local echo.
#[derive(Clone, Copy, Debug, PartialEq, Eq, Structural)]
pub enum TimelineItemIdKind {
    EventId,
    TransactionId,
}

/// Tells an event id from a transaction id, by its leading `$`.
pub fn timeline_item_id_kind(value: &str) -> (r: TimelineItemIdKind)
    ensures
        r == if value@.len() > 0 && value@[0] == '$' {
            TimelineItemIdKind::EventId
        } else {
            TimelineItemIdKind::TransactionId
        },
{
    let leading = str_starts_with(value, "$");
    proof {
        reveal_strlit("$");
        if value@.len() > 0 && value@[0] == '$' {
            assert(value@.take(1) =~= "$"@);
        }
        if leading {
            assert(value@[0] == value@.take(1)[0]);
        }
    }
    if leading {
        TimelineItemIdKind::EventId
    } else {
        TimelineItemIdKind::TransactionId
    }
}

} // verus!
