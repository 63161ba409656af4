//! Global search: the hits shown per group, the documents of the local
//! search index and their ids, how user queries are split into terms and
//! matched, labels for the age of an activity, and the state of the
//! per-room index backfill.
use vstd::prelude::*;

use crate::discovery::{RoomThreadSummary, SpaceSummary};
use crate::text::{
    ascii_lower_seq, chars_of, concat2, concat3, decimal_seq, decimal_string, is_blank,
    is_unicode_alphanumeric, lower_ascii, opt_view, seq_contains, starts_with, str_contains, str_eq,
    str_starts_with, string_from_chars, strings_view, to_unicode_lowercase, to_unicode_uppercase,
    trim, trim_end_seq, trim_seq, trim_start_seq, is_ws, unicode_alphanumeric, unicode_lowercase,
    unicode_uppercase,
};
use crate::timeline::{clone_opt_string, RoomTimelineItem};

verus! {

broadcast use vstd::seq_lib::group_seq_properties;

// ---------------------------------------------------------------------------
// Hits and requests
// ---------------------------------------------------------------------------

/// A global search.
#[derive(Debug)]
pub struct GlobalSearchRequest {
    pub query: String,
    pub limit_per_group: Option<usize>,
}

/// A room that matched a search.
#[derive(Debug)]
pub struct GlobalSearchRoomHit {
    pub room_id: String,
    pub title: String,
    pub description: String,
}

/// A space that matched a search.
#[derive(Debug)]
pub struct GlobalSearchSpaceHit {
    pub space_id: String,
    pub title: String,
    pub description: String,
}

/// A message that matched a search.
#[derive(Debug)]
pub struct GlobalSearchMessageHit {
    pub result_id: String,
    pub room_id: String,
    pub title: String,
    pub description: String,
    pub event_id: Option<String>,
}

/// The hits of a global search, per group.
#[derive(Debug)]
pub struct GlobalSearchResponse {
    pub rooms: Vec<GlobalSearchRoomHit>,
    pub spaces: Vec<GlobalSearchSpaceHit>,
    pub messages: Vec<GlobalSearchMessageHit>,
}

/// How many hits each group shows unless the request says otherwise.
pub const DEFAULT_SEARCH_LIMIT_PER_GROUP: usize = 5;

/// From how many rooms on the homeserver searches unencrypted rooms.
pub const SERVER_BACKED_SEARCH_ROOM_THRESHOLD: usize = 20;

/// How many message hits one room contributes by scanning its history.
pub const MESSAGE_SEARCH_HITS_PER_ROOM: usize = 5;

/// The id of a message hit: the room id, `::`, the event id.
pub open spec fn message_result_id(room_id: Seq<char>, event_id: Seq<char>) -> Seq<char> {
    room_id + "::"@ + event_id
}

/// The hit for a recent message found in a room's history.
pub fn message_search_hit(room_id: &str, room_title: &str, item: RoomTimelineItem) -> (r: GlobalSearchMessageHit)
    ensures
        r.result_id@ == message_result_id(room_id@, item.event_id@),
        r.room_id@ == room_id@,
        r.title@ == "Recent message in "@ + room_title@,
        r.description == item.body,
        opt_view(r.event_id) == Some(item.event_id@),
{
    let result_id = concat3(room_id, "::", item.event_id.as_str());
    let title = concat2("Recent message in ", room_title);
    GlobalSearchMessageHit {
        result_id,
        room_id: room_id.to_owned(),
        title,
        description: item.body,
        event_id: Some(item.event_id),
    }
}

/// The title of a room by its id, from the room titles known: the last one
/// given for it, else the id itself.
pub open spec fn room_title_of(room_titles: Seq<(String, String)>, room_id: Seq<char>) -> Seq<char>
    decreases room_titles.len(),
{
    if room_titles.len() == 0 {
        room_id
    } else if room_titles.last().0@ == room_id {
        room_titles.last().1@
    } else {
        room_title_of(room_titles.drop_last(), room_id)
    }
}

fn find_room_title(room_titles: &[(String, String)], room_id: &str) -> (r: String)
    ensures
        r@ == room_title_of(room_titles@, room_id@),
{
    let mut i = room_titles.len();
    assert(room_titles@.take(i as int) == room_titles@);
    while i > 0
        invariant
            i <= room_titles@.len(),
            room_title_of(room_titles@, room_id@) == room_title_of(room_titles@.take(i as int), room_id@),
        decreases i,
    {
        assert(room_titles@.take(i as int).drop_last() == room_titles@.take(i - 1));
        assert(room_titles@.take(i as int).last() == room_titles@[i - 1]);
        if str_eq(room_titles[i - 1].0.as_str(), room_id) {
            return room_titles[i - 1].1.clone();
        }
        i = i - 1;
    }
    room_id.to_owned()
}

/// The hit for a message that the server's search found: none unless its
/// body, lowercased, holds the query; titled by its room.
pub fn server_backed_search_hit(
    event_id: String,
    room_id: String,
    body: String,
    room_titles: &[(String, String)],
    query: &str,
) -> (r: Option<GlobalSearchMessageHit>)
    ensures
        match r {
            None => !seq_contains(unicode_lowercase(body@), query@),
            Some(h) => seq_contains(unicode_lowercase(body@), query@) && h.result_id@ == message_result_id(
                room_id@,
                event_id@,
            ) && h.room_id == room_id && h.title@ == "Message in "@ + room_title_of(room_titles@, room_id@)
                && h.description == body && h.event_id == Some(event_id),
        },
{
    let lowered = to_unicode_lowercase(body.as_str());
    if !str_contains(lowered.as_str(), query) {
        return None;
    }
    let title = find_room_title(room_titles, room_id.as_str());
    let result_id = concat3(room_id.as_str(), "::", event_id.as_str());
    let title = concat2("Message in ", title.as_str());
    Some(GlobalSearchMessageHit { result_id, room_id, title, description: body, event_id: Some(event_id) })
}

/// The hits kept when `hits` are added to `target`: each whose result id
/// was not seen yet, until the target holds `limit` hits.
pub open spec fn pushed_hits(
    target: Seq<GlobalSearchMessageHit>,
    seen: Set<Seq<char>>,
    hits: Seq<GlobalSearchMessageHit>,
    limit: usize,
) -> (Seq<GlobalSearchMessageHit>, Set<Seq<char>>)
    decreases hits.len(),
{
    if hits.len() == 0 {
        (target, seen)
    } else {
        let h = hits[0];
        let (t, s) = if seen.contains(h.result_id@) {
            (target, seen)
        } else {
            (target.push(h), seen.insert(h.result_id@))
        };
        if t.len() >= limit {
            (t, s)
        } else {
            pushed_hits(t, s, hits.drop_first(), limit)
        }
    }
}

fn seen_contains(seen: &Vec<String>, id: &str) -> (r: bool)
    ensures
        r == strings_view(seen@).contains(id@),
{
    let mut i: usize = 0;
    while i < seen.len()
        invariant
            i <= seen@.len(),
            forall|j: int| 0 <= j < i ==> (#[trigger] seen@[j])@ != id@,
        decreases seen.len() - i,
    {
        if str_eq(seen[i].as_str(), id) {
            assert(strings_view(seen@)[i as int] == id@);
            return true;
        }
        i = i + 1;
    }
    proof {
        if strings_view(seen@).contains(id@) {
            let j = choose|j: int| 0 <= j < strings_view(seen@).len() && strings_view(seen@)[j] == id@;
            assert(seen@[j]@ == id@);
        }
    }
    false
}

/// Adds message hits to `target`: each hit whose result id was not seen
/// yet, until `target` holds `limit` hits; `seen_message_ids` records the
/// ids taken.
pub fn push_message_hits(
    target: &mut Vec<GlobalSearchMessageHit>,
    seen_message_ids: &mut Vec<String>,
    hits: Vec<GlobalSearchMessageHit>,
    limit: usize,
)
    ensures
        (final(target)@, strings_view(final(seen_message_ids)@).to_set()) == pushed_hits(
            old(target)@,
            strings_view(old(seen_message_ids)@).to_set(),
            hits@,
            limit,
        ),
        hits_distinct_and_seen(old(target)@, strings_view(old(seen_message_ids)@).to_set()) ==> hits_distinct_and_seen(
            final(target)@,
            strings_view(final(seen_message_ids)@).to_set(),
        ),
{
    proof {
        if hits_distinct_and_seen(old(target)@, strings_view(old(seen_message_ids)@).to_set()) {
            lemma_pushed_hits_distinct(old(target)@, strings_view(old(seen_message_ids)@).to_set(), hits@, limit);
        }
    }
    let ghost all = hits@;
    let total: usize = hits.len();
    let mut rest = hits;
    let mut taken: usize = 0;
    let mut done = false;
    assert(rest@ == all.skip(0));
    while rest.len() > 0 && !done
        invariant
            taken + rest@.len() == all.len(),
            all.len() == total,
            rest@ == all.skip(taken as int),
            done ==> pushed_hits(old(target)@, strings_view(old(seen_message_ids)@).to_set(), all, limit) == (
                target@,
                strings_view(seen_message_ids@).to_set(),
            ),
            !done ==> pushed_hits(old(target)@, strings_view(old(seen_message_ids)@).to_set(), all, limit)
                == pushed_hits(target@, strings_view(seen_message_ids@).to_set(), rest@, limit),
        decreases rest.len(),
    {
        let ghost rest_before = rest@;
        let hit = rest.remove(0);
        let ghost remaining = rest@;
        assert(rest_before[0] == hit);
        assert(rest_before.drop_first() == remaining);
        let ghost t0 = target@;
        let ghost s0 = strings_view(seen_message_ids@).to_set();
        if !seen_contains(seen_message_ids, hit.result_id.as_str()) {
            let ghost before_ids = seen_message_ids@;
            seen_message_ids.push(hit.result_id.clone());
            assert(strings_view(seen_message_ids@) == strings_view(before_ids).push(hit.result_id@));
            assert(strings_view(seen_message_ids@).to_set() =~= s0.insert(hit.result_id@));
            target.push(hit);
        } else {
            assert(s0.contains(hit.result_id@));
        }
        taken = taken + 1;
        assert(pushed_hits(t0, s0, rest_before, limit) == if target@.len() >= limit {
            (target@, strings_view(seen_message_ids@).to_set())
        } else {
            pushed_hits(target@, strings_view(seen_message_ids@).to_set(), remaining, limit)
        });
        if target.len() >= limit {
            done = true;
        }
    }
    proof {
        if !done {
            assert(rest@.len() == 0);
        }
    }
}

// ---------------------------------------------------------------------------
// Query handling
// ---------------------------------------------------------------------------

/// A query as searches use it: trimmed and lowercased; none when blank.
pub fn normalize_query(query: Option<&str>) -> (r: Option<String>)
    ensures
        opt_view(r) == match query {
            Some(q) => if trim_seq(q@).len() > 0 {
                Some(unicode_lowercase(trim_seq(q@)))
            } else {
                None
            },
            None => None,
        },
{
    match query {
        Some(q) => {
            if is_blank(q) {
                None
            } else {
                let t = trim(q);
                Some(to_unicode_lowercase(t.as_str()))
            }
        },
        None => None,
    }
}

/// Whether one of the texts, lowercased, holds the query; any text matches
/// no query.
pub fn matches_query(query: Option<&str>, haystacks: &[&str]) -> (r: bool)
    ensures
        r == match query {
            None => true,
            Some(q) => exists|i: int|
                0 <= i < haystacks@.len() && seq_contains(unicode_lowercase((#[trigger] haystacks@[i])@), q@),
        },
{
    let q = match query {
        None => {
            return true;
        },
        Some(q) => q,
    };
    let mut i: usize = 0;
    while i < haystacks.len()
        invariant
            i <= haystacks@.len(),
            query == Some(q),
            forall|j: int| 0 <= j < i ==> !seq_contains(unicode_lowercase((#[trigger] haystacks@[j])@), q@),
        decreases haystacks.len() - i,
    {
        let lowered = to_unicode_lowercase(haystacks[i]);
        if str_contains(lowered.as_str(), q) {
            return true;
        }
        i = i + 1;
    }
    false
}

/// The first character of the trimmed text, uppercased, as an avatar
/// label; none for a blank text.
pub fn first_visible_grapheme(value: &str) -> (r: Option<String>)
    ensures
        opt_view(r) == if trim_seq(value@).len() > 0 {
            Some(unicode_uppercase(trim_seq(value@)[0]))
        } else {
            None
        },
{
    let t = chars_of(trim(value).as_str());
    if t.len() == 0 {
        return None;
    }
    Some(to_unicode_uppercase(t[0]))
}

// ---------------------------------------------------------------------------
// Relative time
// ---------------------------------------------------------------------------

/// The age of an activity in words, `now_unix_ms` being the current time.
pub open spec fn relative_time(timestamp_unix_ms: u64, now_unix_ms: u64) -> Seq<char> {
    if timestamp_unix_ms == 0 {
        "No recent activity"@
    } else {
        let delta: int = if now_unix_ms > timestamp_unix_ms {
            now_unix_ms - timestamp_unix_ms
        } else {
            0
        };
        let minutes = delta / 60_000;
        let hours = delta / 3_600_000;
        let days = delta / 86_400_000;
        if minutes < 1 {
            "Just now"@
        } else if minutes < 60 {
            decimal_seq(minutes as nat) + (if minutes == 1 {
                " minute ago"@
            } else {
                " minutes ago"@
            })
        } else if hours < 24 {
            decimal_seq(hours as nat) + (if hours == 1 {
                " hour ago"@
            } else {
                " hours ago"@
            })
        } else if days == 1 {
            "Yesterday"@
        } else {
            decimal_seq(days as nat) + " days ago"@
        }
    }
}

/// The age of an activity in words.
pub fn relative_time_label(timestamp_unix_ms: u64, now_unix_ms: u64) -> (r: String)
    ensures
        r@ == relative_time(timestamp_unix_ms, now_unix_ms),
{
    if timestamp_unix_ms == 0 {
        return "No recent activity".to_owned();
    }
    let delta = if now_unix_ms > timestamp_unix_ms {
        now_unix_ms - timestamp_unix_ms
    } else {
        0
    };
    let minutes = delta / 60_000;
    let hours = delta / 3_600_000;
    let days = delta / 86_400_000;
    if minutes < 1 {
        "Just now".to_owned()
    } else if minutes < 60 {
        let n = decimal_string(minutes);
        if minutes == 1 {
            concat2(n.as_str(), " minute ago")
        } else {
            concat2(n.as_str(), " minutes ago")
        }
    } else if hours < 24 {
        let n = decimal_string(hours);
        if hours == 1 {
            concat2(n.as_str(), " hour ago")
        } else {
            concat2(n.as_str(), " hours ago")
        }
    } else if days == 1 {
        "Yesterday".to_owned()
    } else {
        let n = decimal_string(days);
        concat2(n.as_str(), " days ago")
    }
}

// ---------------------------------------------------------------------------
// Query terms
// ---------------------------------------------------------------------------

/// The maximal runs of alphanumeric characters of a text, in order.
pub open spec fn alnum_runs(s: Seq<char>) -> Seq<Seq<char>>
    decreases s.len(),
{
    if s.len() == 0 {
        Seq::empty()
    } else {
        let prev = alnum_runs(s.drop_last());
        let c = s.last();
        if !unicode_alphanumeric(c) {
            prev
        } else if s.len() > 1 && unicode_alphanumeric(s[s.len() - 2]) {
            prev.update(prev.len() - 1, prev.last().push(c))
        } else {
            prev.push(seq![c])
        }
    }
}

/// The runs trimmed, the blank ones left out, the others lowercased.
pub open spec fn terms_from_runs(runs: Seq<Seq<char>>) -> Seq<Seq<char>>
    decreases runs.len(),
{
    if runs.len() == 0 {
        Seq::empty()
    } else {
        let prev = terms_from_runs(runs.drop_last());
        let t = trim_seq(runs.last());
        if t.len() == 0 {
            prev
        } else {
            prev.push(unicode_lowercase(t))
        }
    }
}

/// The search terms of a text: its alphanumeric runs, lowercased.
pub open spec fn normalized_terms_spec(s: Seq<char>) -> Seq<Seq<char>> {
    terms_from_runs(alnum_runs(s))
}

/// The parts joined with the separator between them.
pub open spec fn joined(parts: Seq<Seq<char>>, sep: Seq<char>) -> Seq<char>
    decreases parts.len(),
{
    if parts.len() == 0 {
        Seq::empty()
    } else if parts.len() == 1 {
        parts[0]
    } else {
        joined(parts.drop_last(), sep) + sep + parts.last()
    }
}

/// Each term followed by `*`, the prefix marker of the full-text index.
pub open spec fn starred(terms: Seq<Seq<char>>) -> Seq<Seq<char>>
    decreases terms.len(),
{
    if terms.len() == 0 {
        Seq::empty()
    } else {
        starred(terms.drop_last()).push(terms.last() + "*"@)
    }
}

proof fn lemma_alnum_runs_nonempty(s: Seq<char>)
    ensures
        s.len() > 0 && unicode_alphanumeric(s.last()) ==> alnum_runs(s).len() > 0,
    decreases s.len(),
{
    if s.len() > 0 {
        lemma_alnum_runs_nonempty(s.drop_last());
        if s.len() > 1 {
            assert(s.drop_last().last() == s[s.len() - 2]);
        }
    }
}

fn alnum_runs_of(s: &str) -> (r: Vec<String>)
    ensures
        strings_view(r@) == alnum_runs(s@),
{
    let v = chars_of(s);
    let mut runs: Vec<String> = Vec::new();
    let mut cur: Vec<char> = Vec::new();
    let mut i: usize = 0;
    while i < v.len()
        invariant
            i <= v@.len(),
            v@ == s@,
            (cur@.len() > 0) == (i > 0 && unicode_alphanumeric(v@[i - 1])),
            alnum_runs(v@.take(i as int)) == if cur@.len() > 0 {
                strings_view(runs@).push(cur@)
            } else {
                strings_view(runs@)
            },
        decreases v.len() - i,
    {
        let c = v[i];
        let ghost t = v@.take(i + 1);
        assert(t.drop_last() == v@.take(i as int));
        assert(t.last() == c);
        if i > 0 {
            assert(t[t.len() - 2] == v@[i - 1]);
        }
        if !is_unicode_alphanumeric(c) {
            if cur.len() > 0 {
                let ghost before = runs@;
                runs.push(string_from_chars(&cur));
                assert(strings_view(runs@) == strings_view(before).push(cur@));
                cur = Vec::new();
            }
        } else {
            if cur.len() > 0 {
                let ghost r0 = alnum_runs(v@.take(i as int));
                let ghost c0 = cur@;
                cur.push(c);
                assert(r0.update(r0.len() - 1, r0.last().push(c)) == strings_view(runs@).push(cur@));
            } else {
                cur.push(c);
                assert(cur@ == seq![c]);
            }
        }
        i = i + 1;
    }
    assert(v@.take(v@.len() as int) == v@);
    if cur.len() > 0 {
        let ghost before = runs@;
        runs.push(string_from_chars(&cur));
        assert(strings_view(runs@) == strings_view(before).push(cur@));
    }
    runs
}

/// The search terms of a text: its alphanumeric runs, lowercased.
pub fn normalized_terms(query: &str) -> (r: Vec<String>)
    ensures
        strings_view(r@) == normalized_terms_spec(query@),
{
    let runs = alnum_runs_of(query);
    let mut terms: Vec<String> = Vec::new();
    let mut i: usize = 0;
    while i < runs.len()
        invariant
            i <= runs@.len(),
            strings_view(terms@) == terms_from_runs(strings_view(runs@).take(i as int)),
        decreases runs.len() - i,
    {
        let ghost rs = strings_view(runs@).take(i + 1);
        assert(rs.drop_last() == strings_view(runs@).take(i as int));
        assert(rs.last() == runs@[i as int]@);
        if !is_blank(runs[i].as_str()) {
            let t = trim(runs[i].as_str());
            let lowered = to_unicode_lowercase(t.as_str());
            let ghost before = terms@;
            terms.push(lowered);
            assert(strings_view(terms@) == strings_view(before).push(unicode_lowercase(trim_seq(runs@[i as int]@))));
        }
        i = i + 1;
    }
    assert(strings_view(runs@).take(runs@.len() as int) == strings_view(runs@));
    terms
}

fn join_with(parts: &Vec<String>, sep: &str, suffix: &str) -> (r: String)
    ensures
        r@ == joined(
            Seq::new(parts@.len(), |i: int| parts@[i]@ + suffix@),
            sep@,
        ),
{
    let ghost whole = Seq::new(parts@.len(), |i: int| parts@[i]@ + suffix@);
    let mut out = String::new();
    let mut i: usize = 0;
    assert(out@ == Seq::<char>::empty());
    while i < parts.len()
        invariant
            i <= parts@.len(),
            whole == Seq::new(parts@.len(), |i: int| parts@[i]@ + suffix@),
            out@ == joined(whole.take(i as int), sep@),
        decreases parts.len() - i,
    {
        let ghost w = whole.take(i + 1);
        assert(w.drop_last() == whole.take(i as int));
        assert(w.last() == parts@[i as int]@ + suffix@);
        let piece = concat2(parts[i].as_str(), suffix);
        if i == 0 {
            assert(w.len() == 1);
            out = piece;
        } else {
            let with_sep = concat2(out.as_str(), sep);
            out = concat2(with_sep.as_str(), piece.as_str());
        }
        i = i + 1;
    }
    assert(whole.take(parts@.len() as int) == whole);
    out
}

proof fn lemma_starred(terms: Seq<Seq<char>>)
    ensures
        starred(terms) == Seq::new(terms.len(), |i: int| terms[i] + "*"@),
    decreases terms.len(),
{
    if terms.len() > 0 {
        lemma_starred(terms.drop_last());
        assert(starred(terms) =~= Seq::new(terms.len(), |i: int| terms[i] + "*"@));
    } else {
        assert(starred(terms) =~= Seq::new(terms.len(), |i: int| terms[i] + "*"@));
    }
}

/// The full-text query for a user's query: each term as a prefix, all
/// required; none when the query has no terms.
pub fn fts_query_for_user_query(query: &str) -> (r: Option<String>)
    ensures
        opt_view(r) == if normalized_terms_spec(query@).len() == 0 {
            None
        } else {
            Some(joined(starred(normalized_terms_spec(query@)), " AND "@))
        },
{
    let terms = normalized_terms(query);
    if terms.len() == 0 {
        return None;
    }
    let r = join_with(&terms, " AND ", "*");
    proof {
        lemma_starred(strings_view(terms@));
        assert(Seq::new(terms@.len(), |i: int| terms@[i]@ + "*"@) =~= Seq::new(
            strings_view(terms@).len(),
            |i: int| strings_view(terms@)[i] + "*"@,
        ));
    }
    Some(r)
}

/// A user's query as the index stores it: its terms joined by spaces.
pub fn normalized_query_text(query: &str) -> (r: String)
    ensures
        r@ == joined(normalized_terms_spec(query@), " "@),
{
    let terms = normalized_terms(query);
    let r = join_with(&terms, " ", "");
    proof {
        reveal_strlit("");
        assert forall|i: int| 0 <= i < terms@.len() implies terms@[i]@ + ""@ == terms@[i]@ by {
            assert(terms@[i]@ + ""@ =~= terms@[i]@);
        }
        assert(Seq::new(terms@.len(), |i: int| terms@[i]@ + ""@) =~= strings_view(terms@));
    }
    r
}

/// The texts of some string slices.
pub open spec fn texts_view(v: Seq<&str>) -> Seq<Seq<char>> {
    Seq::new(v.len(), |i: int| v[i]@)
}

/// The terms of several fields, field after field.
pub open spec fn fields_terms(fields: Seq<Seq<char>>) -> Seq<Seq<char>>
    decreases fields.len(),
{
    if fields.len() == 0 {
        Seq::empty()
    } else {
        fields_terms(fields.drop_last()) + normalized_terms_spec(fields.last())
    }
}

/// Some term of the fields begins with the term.
pub open spec fn term_found(field_terms: Seq<Seq<char>>, term: Seq<char>) -> bool {
    exists|j: int| 0 <= j < field_terms.len() && starts_with(#[trigger] field_terms[j], term)
}

/// Every term of the query begins some term of the fields, and the query
/// has a term.
pub open spec fn terms_match(field_terms: Seq<Seq<char>>, query_terms: Seq<Seq<char>>) -> bool {
    query_terms.len() > 0 && forall|i: int|
        0 <= i < query_terms.len() ==> term_found(field_terms, #[trigger] query_terms[i])
}

/// Whether some field term begins with the term.
fn some_term_starts_with(field_terms: &Vec<String>, term: &str) -> (r: bool)
    ensures
        r == term_found(strings_view(field_terms@), term@),
{
    let mut j: usize = 0;
    while j < field_terms.len()
        invariant
            j <= field_terms@.len(),
            forall|k: int| 0 <= k < j ==> !starts_with(#[trigger] field_terms@[k]@, term@),
        decreases field_terms.len() - j,
    {
        if str_starts_with(field_terms[j].as_str(), term) {
            assert(strings_view(field_terms@)[j as int] == field_terms@[j as int]@);
            return true;
        }
        j = j + 1;
    }
    proof {
        if term_found(strings_view(field_terms@), term@) {
            let j = choose|j: int| 0 <= j < strings_view(field_terms@).len() && starts_with(
                #[trigger] strings_view(field_terms@)[j],
                term@,
            );
            assert(strings_view(field_terms@)[j] == field_terms@[j]@);
        }
    }
    false
}

/// Whether the fields match a user's query: every query term begins some
/// term of the fields.
pub fn fields_match_user_query(fields: &[&str], query: &str) -> (r: bool)
    ensures
        r == terms_match(
            fields_terms(texts_view(fields@)),
            normalized_terms_spec(query@),
        ),
{
    let ghost fs = texts_view(fields@);
    let mut field_terms: Vec<String> = Vec::new();
    let mut i: usize = 0;
    while i < fields.len()
        invariant
            i <= fields@.len(),
            fs == texts_view(fields@),
            strings_view(field_terms@) == fields_terms(fs.take(i as int)),
        decreases fields.len() - i,
    {
        let ghost f = fs.take(i + 1);
        assert(f.drop_last() == fs.take(i as int));
        assert(f.last() == fields@[i as int]@);
        let mut terms = normalized_terms(fields[i]);
        let ghost a = strings_view(field_terms@);
        let ghost b = strings_view(terms@);
        field_terms.append(&mut terms);
        assert(strings_view(field_terms@) =~= a + b);
        i = i + 1;
    }
    assert(fs.take(fields@.len() as int) == fs);
    let ghost ft = strings_view(field_terms@);
    let query_terms = normalized_terms(query);
    if query_terms.len() == 0 {
        return false;
    }
    let mut k: usize = 0;
    while k < query_terms.len()
        invariant
            k <= query_terms@.len(),
            ft == strings_view(field_terms@),
            fs == texts_view(fields@),
            ft == fields_terms(fs),
            strings_view(query_terms@) == normalized_terms_spec(query@),
            query_terms@.len() > 0,
            forall|m: int| 0 <= m < k ==> term_found(ft, #[trigger] strings_view(query_terms@)[m]),
        decreases query_terms.len() - k,
    {
        assert(strings_view(query_terms@)[k as int] == query_terms@[k as int]@);
        if !some_term_starts_with(&field_terms, query_terms[k].as_str()) {
            return false;
        }
        k = k + 1;
    }
    true
}

/// Whether a message body matches a user's query.
pub fn body_matches_user_query(body: &str, query: &str) -> (r: bool)
    ensures
        r == terms_match(normalized_terms_spec(body@), normalized_terms_spec(query@)),
{
    let fields: [&str; 1] = [body];
    let r = fields_match_user_query(&fields, query);
    proof {
        let fs = texts_view(fields@);
        assert(fs.drop_last() =~= Seq::<Seq<char>>::empty());
        assert(fs.last() == body@);
        assert(fields_terms(fs.drop_last()) == Seq::<Seq<char>>::empty());
        assert(fields_terms(fs) == fields_terms(fs.drop_last()) + normalized_terms_spec(body@));
        assert(fields_terms(fs) =~= normalized_terms_spec(body@));
    }
    r
}

// ---------------------------------------------------------------------------
// The local search index
// ---------------------------------------------------------------------------

/// What a search document stands for.
#[derive(Debug, Clone, Copy, PartialEq, Eq, Structural)]
pub enum SearchEntityType {
    Room,
    Space,
    Message,
}

impl SearchEntityType {
    /// The name of the entity type in the index.
    pub fn as_str(self) -> (r: &'static str)
        ensures
            r@ == match self {
                SearchEntityType::Room => "room"@,
                SearchEntityType::Space => "space"@,
                SearchEntityType::Message => "message"@,
            },
    {
        match self {
            SearchEntityType::Room => "room",
            SearchEntityType::Space => "space",
            SearchEntityType::Message => "message",
        }
    }

    /// The entity type with the given name, if any.
    pub fn from_str(value: &str) -> (r: Option<Self>)
        ensures
            r == if value@ == "room"@ {
                Some(SearchEntityType::Room)
            } else if value@ == "space"@ {
                Some(SearchEntityType::Space)
            } else if value@ == "message"@ {
                Some(SearchEntityType::Message)
            } else {
                None
            },
    {
        if str_eq(value, "room") {
            Some(SearchEntityType::Room)
        } else if str_eq(value, "space") {
            Some(SearchEntityType::Space)
        } else if str_eq(value, "message") {
            Some(SearchEntityType::Message)
        } else {
            None
        }
    }
}

/// Where the backfill of a room's search index stands.
#[derive(Debug, Clone, Copy, PartialEq, Eq, Structural)]
pub enum SearchBackfillState {
    NotStarted,
    Queued,
    Indexing,
    PausedPower,
    PausedNetwork,
    RateLimited,
    Complete,
    Error,
}

pub open spec fn backfill_state_name(state: SearchBackfillState) -> Seq<char> {
    match state {
        SearchBackfillState::NotStarted => "not_started"@,
        SearchBackfillState::Queued => "queued"@,
        SearchBackfillState::Indexing => "indexing"@,
        SearchBackfillState::PausedPower => "paused_power"@,
        SearchBackfillState::PausedNetwork => "paused_network"@,
        SearchBackfillState::RateLimited => "rate_limited"@,
        SearchBackfillState::Complete => "complete"@,
        SearchBackfillState::Error => "error"@,
    }
}

impl SearchBackfillState {
    /// The name of the state in the index.
    pub fn as_str(self) -> (r: &'static str)
        ensures
            r@ == backfill_state_name(self),
    {
        match self {
            SearchBackfillState::NotStarted => "not_started",
            SearchBackfillState::Queued => "queued",
            SearchBackfillState::Indexing => "indexing",
            SearchBackfillState::PausedPower => "paused_power",
            SearchBackfillState::PausedNetwork => "paused_network",
            SearchBackfillState::RateLimited => "rate_limited",
            SearchBackfillState::Complete => "complete",
            SearchBackfillState::Error => "error",
        }
    }

    /// The state with the given name, if any.
    pub fn from_str(value: &str) -> (r: Option<Self>)
        ensures
            match r {
                Some(state) => backfill_state_name(state) == value@,
                None => forall|state: SearchBackfillState| backfill_state_name(state) != value@,
            },
    {
        proof {
            reveal_strlit("not_started");
            reveal_strlit("queued");
            reveal_strlit("indexing");
            reveal_strlit("paused_power");
            reveal_strlit("paused_network");
            reveal_strlit("rate_limited");
            reveal_strlit("complete");
            reveal_strlit("error");
        }
        if str_eq(value, "not_started") {
            Some(SearchBackfillState::NotStarted)
        } else if str_eq(value, "queued") {
            Some(SearchBackfillState::Queued)
        } else if str_eq(value, "indexing") {
            Some(SearchBackfillState::Indexing)
        } else if str_eq(value, "paused_power") {
            Some(SearchBackfillState::PausedPower)
        } else if str_eq(value, "paused_network") {
            Some(SearchBackfillState::PausedNetwork)
        } else if str_eq(value, "rate_limited") {
            Some(SearchBackfillState::RateLimited)
        } else if str_eq(value, "complete") {
            Some(SearchBackfillState::Complete)
        } else if str_eq(value, "error") {
            Some(SearchBackfillState::Error)
        } else {
            None
        }
    }
}

/// Reading back the name of a backfill state gives the state.
pub proof fn lemma_backfill_state_round_trip(state: SearchBackfillState, other: SearchBackfillState)
    ensures
        backfill_state_name(state) == backfill_state_name(other) ==> state == other,
{
    reveal_strlit("not_started");
    reveal_strlit("queued");
    reveal_strlit("indexing");
    reveal_strlit("paused_power");
    reveal_strlit("paused_network");
    reveal_strlit("rate_limited");
    reveal_strlit("complete");
    reveal_strlit("error");
    if backfill_state_name(state) == backfill_state_name(other) && state != other {
        let a = backfill_state_name(state);
        let b = backfill_state_name(other);
        assert(a.len() != b.len() || a[0] != b[0] || a[1] != b[1] || a[2] != b[2] || a[7] != b[7]);
    }
}

/// A document of the local search index.
#[derive(Debug)]
pub struct SearchDocument {
    pub account_key: String,
    pub document_id: String,
    pub entity_type: SearchEntityType,
    pub room_id: Option<String>,
    pub space_id: Option<String>,
    pub event_id: Option<String>,
    pub sender_id: Option<String>,
    pub user_id: Option<String>,
    pub title: String,
    pub subtitle: String,
    pub body: String,
    pub timestamp_unix_ms: u64,
    pub sort_timestamp_unix_ms: u64,
    pub is_deleted: bool,
    pub updated_at_unix_ms: u64,
}

/// The id of a room's document.
pub fn room_document_id(account_key: &str, room_id: &str) -> (r: String)
    ensures
        r@ == "room::"@ + account_key@ + "::"@ + room_id@,
{
    let a = concat3("room::", account_key, "::");
    concat2(a.as_str(), room_id)
}

/// The id of a space's document.
pub fn space_document_id(account_key: &str, space_id: &str) -> (r: String)
    ensures
        r@ == "space::"@ + account_key@ + "::"@ + space_id@,
{
    let a = concat3("space::", account_key, "::");
    concat2(a.as_str(), space_id)
}

/// The id of a message's document.
pub fn message_document_id(account_key: &str, room_id: &str, event_id: &str) -> (r: String)
    ensures
        r@ == "message::"@ + account_key@ + "::"@ + room_id@ + "::"@ + event_id@,
{
    let a = concat3("message::", account_key, "::");
    let b = concat3(a.as_str(), room_id, "::");
    concat2(b.as_str(), event_id)
}

/// The document of a room, indexed at `now_unix_ms`: titled by the room,
/// subtitled by its participants, its body the participants, the
/// homeserver and the room id; dated by its last activity.
pub fn room_document(account_key: &str, summary: &RoomThreadSummary, now_unix_ms: u64) -> (r: SearchDocument)
    ensures
        r.account_key@ == account_key@,
        r.document_id@ == "room::"@ + account_key@ + "::"@ + summary.room_id@,
        r.entity_type == SearchEntityType::Room,
        r.room_id == Some(summary.room_id),
        r.space_id is None,
        r.event_id is None,
        r.sender_id is None,
        r.user_id is None,
        r.title == summary.title,
        r.subtitle == summary.participant_label,
        r.body@ == summary.participant_label@ + " "@ + summary.homeserver_label@ + " "@ + summary.room_id@,
        r.timestamp_unix_ms == summary.last_activity_unix_ms,
        r.sort_timestamp_unix_ms == summary.last_activity_unix_ms,
        !r.is_deleted,
        r.updated_at_unix_ms == now_unix_ms,
{
    let a = concat3(summary.participant_label.as_str(), " ", summary.homeserver_label.as_str());
    let body = concat3(a.as_str(), " ", summary.room_id.as_str());
    SearchDocument {
        account_key: account_key.to_owned(),
        document_id: room_document_id(account_key, summary.room_id.as_str()),
        entity_type: SearchEntityType::Room,
        room_id: Some(summary.room_id.clone()),
        space_id: None,
        event_id: None,
        sender_id: None,
        user_id: None,
        title: summary.title.clone(),
        subtitle: summary.participant_label.clone(),
        body,
        timestamp_unix_ms: summary.last_activity_unix_ms,
        sort_timestamp_unix_ms: summary.last_activity_unix_ms,
        is_deleted: false,
        updated_at_unix_ms: now_unix_ms,
    }
}

/// The document of a space, indexed and dated at `now_unix_ms`: titled by
/// its name, subtitled by its members, its body the description, the
/// members and the space id.
pub fn space_document(account_key: &str, summary: &SpaceSummary, now_unix_ms: u64) -> (r: SearchDocument)
    ensures
        r.account_key@ == account_key@,
        r.document_id@ == "space::"@ + account_key@ + "::"@ + summary.space_id@,
        r.entity_type == SearchEntityType::Space,
        r.room_id is None,
        r.space_id == Some(summary.space_id),
        r.event_id is None,
        r.sender_id is None,
        r.user_id is None,
        r.title == summary.name,
        r.subtitle == summary.member_label,
        r.body@ == summary.description@ + " "@ + summary.member_label@ + " "@ + summary.space_id@,
        r.timestamp_unix_ms == now_unix_ms,
        r.sort_timestamp_unix_ms == now_unix_ms,
        !r.is_deleted,
        r.updated_at_unix_ms == now_unix_ms,
{
    let a = concat3(summary.description.as_str(), " ", summary.member_label.as_str());
    let body = concat3(a.as_str(), " ", summary.space_id.as_str());
    SearchDocument {
        account_key: account_key.to_owned(),
        document_id: space_document_id(account_key, summary.space_id.as_str()),
        entity_type: SearchEntityType::Space,
        room_id: None,
        space_id: Some(summary.space_id.clone()),
        event_id: None,
        sender_id: None,
        user_id: None,
        title: summary.name.clone(),
        subtitle: summary.member_label.clone(),
        body,
        timestamp_unix_ms: now_unix_ms,
        sort_timestamp_unix_ms: now_unix_ms,
        is_deleted: false,
        updated_at_unix_ms: now_unix_ms,
    }
}

/// The document of a message, indexed at `now_unix_ms`; none for a blank
/// body or one that could not be decrypted.
pub fn message_document(
    account_key: &str,
    room_id: &str,
    room_title: &str,
    item: &RoomTimelineItem,
    now_unix_ms: u64,
) -> (r: Option<SearchDocument>)
    ensures
        (trim_seq(item.body@).len() == 0 || item.body@ == "Unable to decrypt this message"@) <==> r is None,
        r matches Some(d) ==> {
            &&& d.account_key@ == account_key@
            &&& d.document_id@ == "message::"@ + account_key@ + "::"@ + room_id@ + "::"@ + item.event_id@
            &&& d.entity_type == SearchEntityType::Message
            &&& opt_view(d.room_id) == Some(room_id@)
            &&& d.space_id is None
            &&& d.event_id == Some(item.event_id)
            &&& d.sender_id == Some(item.sender_id)
            &&& d.user_id is None
            &&& d.title@ == "Message in "@ + room_title@
            &&& d.subtitle@ == match item.sender_display_name {
                Some(n) => n@,
                None => item.sender_id@,
            }
            &&& d.body == item.body
            &&& d.timestamp_unix_ms == item.timestamp_unix_ms
            &&& d.sort_timestamp_unix_ms == item.timestamp_unix_ms
            &&& !d.is_deleted
            &&& d.updated_at_unix_ms == now_unix_ms
        },
{
    if is_blank(item.body.as_str()) || str_eq(item.body.as_str(), "Unable to decrypt this message") {
        return None;
    }
    let subtitle = match &item.sender_display_name {
        Some(n) => n.clone(),
        None => item.sender_id.clone(),
    };
    Some(
        SearchDocument {
            account_key: account_key.to_owned(),
            document_id: message_document_id(account_key, room_id, item.event_id.as_str()),
            entity_type: SearchEntityType::Message,
            room_id: Some(room_id.to_owned()),
            space_id: None,
            event_id: Some(item.event_id.clone()),
            sender_id: Some(item.sender_id.clone()),
            user_id: None,
            title: concat2("Message in ", room_title),
            subtitle,
            body: item.body.clone(),
            timestamp_unix_ms: item.timestamp_unix_ms,
            sort_timestamp_unix_ms: item.timestamp_unix_ms,
            is_deleted: false,
            updated_at_unix_ms: now_unix_ms,
        },
    )
}

/// The title indexed for full-text search: none for messages.
pub fn fts_title(document: &SearchDocument) -> (r: &str)
    ensures
        r@ == if document.entity_type == SearchEntityType::Message {
            Seq::<char>::empty()
        } else {
            document.title@
        },
{
    if document.entity_type == SearchEntityType::Message {
        proof {
            reveal_strlit("");
        }
        return "";
    }
    document.title.as_str()
}

/// The subtitle indexed for full-text search: none for messages.
pub fn fts_subtitle(document: &SearchDocument) -> (r: &str)
    ensures
        r@ == if document.entity_type == SearchEntityType::Message {
            Seq::<char>::empty()
        } else {
            document.subtitle@
        },
{
    if document.entity_type == SearchEntityType::Message {
        proof {
            reveal_strlit("");
        }
        return "";
    }
    document.subtitle.as_str()
}

/// The body indexed for full-text search: none for rooms.
pub fn fts_body(document: &SearchDocument) -> (r: &str)
    ensures
        r@ == if document.entity_type == SearchEntityType::Room {
            Seq::<char>::empty()
        } else {
            document.body@
        },
{
    if document.entity_type == SearchEntityType::Room {
        proof {
            reveal_strlit("");
        }
        return "";
    }
    document.body.as_str()
}

/// The room id indexed for full-text search: none for messages or without
/// a room.
pub fn fts_room_id(document: &SearchDocument) -> (r: &str)
    ensures
        r@ == if document.entity_type == SearchEntityType::Message {
            Seq::<char>::empty()
        } else {
            match document.room_id {
                Some(id) => id@,
                None => Seq::<char>::empty(),
            }
        },
{
    proof {
        reveal_strlit("");
    }
    if document.entity_type == SearchEntityType::Message {
        return "";
    }
    match &document.room_id {
        Some(id) => id.as_str(),
        None => "",
    }
}

/// Whether an index hit matches a user's query: a room by its title,
/// subtitle and id, a message by its body; a space always.
pub fn search_hit_matches_query(
    entity_type: SearchEntityType,
    title: &str,
    subtitle: &str,
    room_id: Option<&str>,
    body: &str,
    query: &str,
) -> (r: bool)
    ensures
        r == match entity_type {
            SearchEntityType::Room => terms_match(
                fields_terms(
                    seq![
                        title@,
                        subtitle@,
                        match room_id {
                            Some(id) => id@,
                            None => Seq::<char>::empty(),
                        },
                    ],
                ),
                normalized_terms_spec(query@),
            ),
            SearchEntityType::Message => terms_match(normalized_terms_spec(body@), normalized_terms_spec(query@)),
            SearchEntityType::Space => true,
        },
{
    match entity_type {
        SearchEntityType::Room => {
            proof {
                reveal_strlit("");
            }
            let id: &str = match room_id {
                Some(id) => id,
                None => "",
            };
            let fields: [&str; 3] = [title, subtitle, id];
            let r = fields_match_user_query(&fields, query);
            proof {
                assert(id@ == match room_id {
                    Some(i) => i@,
                    None => Seq::<char>::empty(),
                });
                let expected = seq![
                    title@,
                    subtitle@,
                    match room_id {
                        Some(i) => i@,
                        None => Seq::<char>::empty(),
                    },
                ];
                assert(texts_view(fields@) =~= expected);
                assert(fields_terms(texts_view(fields@)) == fields_terms(expected));
            }
            r
        },
        SearchEntityType::Message => body_matches_user_query(body, query),
        SearchEntityType::Space => true,
    }
}

// ---------------------------------------------------------------------------
// Index backfill
// ---------------------------------------------------------------------------

/// How far the backfill of one room's index got.
#[derive(Debug)]
pub struct SearchRoomBackfillProgress {
    pub account_key: String,
    pub room_id: String,
    pub room_kind: String,
    pub backfill_token: Option<String>,
    pub backfill_state: SearchBackfillState,
    pub indexed_event_count: u64,
    pub last_indexed_at_unix_ms: Option<u64>,
    pub last_error: Option<String>,
}

/// The progress of a conversation whose backfill was just queued.
pub fn new_backfill_progress(account_key: &str, room_id: &str) -> (r: SearchRoomBackfillProgress)
    ensures
        r.account_key@ == account_key@,
        r.room_id@ == room_id@,
        r.room_kind@ == "conversation"@,
        r.backfill_token is None,
        r.backfill_state == SearchBackfillState::Queued,
        r.indexed_event_count == 0,
        r.last_indexed_at_unix_ms is None,
        r.last_error is None,
{
    SearchRoomBackfillProgress {
        account_key: account_key.to_owned(),
        room_id: room_id.to_owned(),
        room_kind: "conversation".to_owned(),
        backfill_token: None,
        backfill_state: SearchBackfillState::Queued,
        indexed_event_count: 0,
        last_indexed_at_unix_ms: None,
        last_error: None,
    }
}

/// The key of a room's backfill task.
pub fn task_key(account_key: &str, room_id: &str) -> (r: String)
    ensures
        r@ == account_key@ + "::"@ + room_id@,
{
    concat3(account_key, "::", room_id)
}

/// Whether an error text, ASCII-lowercased, says the server limits the rate.
pub open spec fn is_rate_limit_error(error: Seq<char>) -> bool {
    let e = ascii_lower_seq(error);
    seq_contains(e, "m_limit_exceeded"@) || seq_contains(e, "too many requests"@) || seq_contains(
        e,
        "rate limit"@,
    ) || seq_contains(e, "rate_limit"@) || seq_contains(e, "429"@)
}

/// The state a backfill takes after an error: rate limited when the error
/// says so, else failed.
pub fn state_for_backfill_error(error: &str) -> (r: SearchBackfillState)
    ensures
        r == if is_rate_limit_error(error@) {
            SearchBackfillState::RateLimited
        } else {
            SearchBackfillState::Error
        },
{
    let lowered = string_from_chars(&lower_ascii(&chars_of(error)));
    let e = lowered.as_str();
    if str_contains(e, "m_limit_exceeded") || str_contains(e, "too many requests") || str_contains(e, "rate limit")
        || str_contains(e, "rate_limit") || str_contains(e, "429") {
        return SearchBackfillState::RateLimited;
    }
    SearchBackfillState::Error
}

/// How long, in seconds, a backfill waits before it retries.
pub const BACKFILL_RATE_LIMIT_RETRY_DELAY_SECS: u64 = 60;

/// The delay, in seconds, before a backfill in `state` retries: a minute
/// when rate limited, else none.
pub fn retry_delay_for_backfill_state(state: SearchBackfillState) -> (r: Option<u64>)
    ensures
        r == if state == SearchBackfillState::RateLimited {
            Some(BACKFILL_RATE_LIMIT_RETRY_DELAY_SECS)
        } else {
            None::<u64>
        },
{
    if state == SearchBackfillState::RateLimited {
        return Some(BACKFILL_RATE_LIMIT_RETRY_DELAY_SECS);
    }
    None
}

// ---------------------------------------------------------------------------
// Global search steps
// ---------------------------------------------------------------------------

/// A global search query: trimmed and lowercased; none when that leaves
/// nothing.
pub fn global_search_query(query: &str) -> (r: Option<String>)
    ensures
        opt_view(r) == if unicode_lowercase(trim_seq(query@)).len() == 0 {
            None
        } else {
            Some(unicode_lowercase(trim_seq(query@)))
        },
{
    let t = trim(query);
    let lowered = to_unicode_lowercase(t.as_str());
    if lowered.as_str().unicode_len() == 0 {
        return None;
    }
    Some(lowered)
}

/// How many hits each group shows.
pub fn search_limit_per_group(limit_per_group: Option<usize>) -> (r: usize)
    ensures
        r == match limit_per_group {
            Some(l) => l,
            None => DEFAULT_SEARCH_LIMIT_PER_GROUP,
        },
{
    match limit_per_group {
        Some(l) => l,
        None => DEFAULT_SEARCH_LIMIT_PER_GROUP,
    }
}

/// The hit for a space whose name or description, lowercased, holds the
/// query; none otherwise.
pub fn global_search_space_hit(summary: SpaceSummary, query: &str) -> (r: Option<GlobalSearchSpaceHit>)
    ensures
        match r {
            Some(h) => (seq_contains(unicode_lowercase(summary.name@), query@) || seq_contains(
                unicode_lowercase(summary.description@),
                query@,
            )) && h.space_id == summary.space_id && h.title == summary.name && h.description == summary.description,
            None => !seq_contains(unicode_lowercase(summary.name@), query@) && !seq_contains(
                unicode_lowercase(summary.description@),
                query@,
            ),
        },
{
    let in_name = str_contains(to_unicode_lowercase(summary.name.as_str()).as_str(), query);
    let in_description = str_contains(to_unicode_lowercase(summary.description.as_str()).as_str(), query);
    if in_name || in_description {
        Some(GlobalSearchSpaceHit { space_id: summary.space_id, title: summary.name, description: summary.description })
    } else {
        None
    }
}

/// The hit for a room whose title or preview, lowercased, holds the query;
/// none otherwise.
pub fn global_search_room_hit(summary: &RoomThreadSummary, query: &str) -> (r: Option<GlobalSearchRoomHit>)
    ensures
        match r {
            Some(h) => (seq_contains(unicode_lowercase(summary.title@), query@) || seq_contains(
                unicode_lowercase(summary.preview@),
                query@,
            )) && h.room_id == summary.room_id && h.title == summary.title && h.description == summary.preview,
            None => !seq_contains(unicode_lowercase(summary.title@), query@) && !seq_contains(
                unicode_lowercase(summary.preview@),
                query@,
            ),
        },
{
    let in_title = str_contains(to_unicode_lowercase(summary.title.as_str()).as_str(), query);
    let in_preview = str_contains(to_unicode_lowercase(summary.preview.as_str()).as_str(), query);
    if in_title || in_preview {
        Some(
            GlobalSearchRoomHit {
                room_id: summary.room_id.clone(),
                title: summary.title.clone(),
                description: summary.preview.clone(),
            },
        )
    } else {
        None
    }
}

/// Whether a space's name or description, lowercased, holds the query.
pub open spec fn space_matches(summary: SpaceSummary, query: Seq<char>) -> bool {
    seq_contains(unicode_lowercase(summary.name@), query) || seq_contains(
        unicode_lowercase(summary.description@),
        query,
    )
}

/// The hit that shows a space.
pub open spec fn space_hit_of(summary: SpaceSummary) -> GlobalSearchSpaceHit {
    GlobalSearchSpaceHit { space_id: summary.space_id, title: summary.name, description: summary.description }
}

/// Whether a room's title or preview, lowercased, holds the query.
pub open spec fn room_matches(summary: RoomThreadSummary, query: Seq<char>) -> bool {
    seq_contains(unicode_lowercase(summary.title@), query) || seq_contains(
        unicode_lowercase(summary.preview@),
        query,
    )
}

/// The hit that shows a room.
pub open spec fn room_hit_of(summary: RoomThreadSummary) -> GlobalSearchRoomHit {
    GlobalSearchRoomHit { room_id: summary.room_id, title: summary.title, description: summary.preview }
}

/// The length of a group of hits: what matches, at most `limit`.
pub open spec fn group_len(matching: nat, limit: usize) -> nat {
    if matching < limit {
        matching
    } else {
        limit as nat
    }
}

/// Filtering one more item keeps what was kept and adds that item when it
/// is kept.
pub proof fn lemma_filter_take_next<A>(s: Seq<A>, keep: spec_fn(A) -> bool, n: int)
    requires
        0 <= n < s.len(),
    ensures
        s.take(n + 1).filter(keep) == if keep(s[n]) {
            s.take(n).filter(keep).push(s[n])
        } else {
            s.take(n).filter(keep)
        },
{
    reveal(Seq::filter);
    assert(s.take(n + 1).drop_last() == s.take(n));
}

/// What a prefix keeps is a prefix of what the whole keeps.
pub proof fn lemma_filter_take_prefix<A>(s: Seq<A>, keep: spec_fn(A) -> bool, n: int)
    requires
        0 <= n <= s.len(),
    ensures
        s.take(n).filter(keep).len() <= s.filter(keep).len(),
        forall|i: int|
            0 <= i < s.take(n).filter(keep).len() ==> #[trigger] s.take(n).filter(keep)[i] == s.filter(
                keep,
            )[i],
    decreases s.len() - n,
{
    if n < s.len() {
        lemma_filter_take_prefix(s, keep, n + 1);
        lemma_filter_take_next(s, keep, n);
        let short = s.take(n).filter(keep);
        let long = s.take(n + 1).filter(keep);
        assert forall|i: int| 0 <= i < short.len() implies #[trigger] short[i] == s.filter(keep)[i] by {
            assert(short[i] == long[i]);
        }
    } else {
        assert(s.take(n) == s);
    }
}

/// The space hits of a global search: the first `limit` spaces that
/// match, in order.
pub fn global_search_space_hits(summaries: Vec<SpaceSummary>, query: &str, limit: usize) -> (r: Vec<
    GlobalSearchSpaceHit,
>)
    ensures
        ({
            let m = summaries@.filter(|s: SpaceSummary| space_matches(s, query@));
            &&& r@.len() == group_len(m.len(), limit)
            &&& forall|i: int| 0 <= i < r@.len() ==> r@[i] == space_hit_of(#[trigger] m[i])
        }),
{
    let ghost all = summaries@;
    let ghost keep = |s: SpaceSummary| space_matches(s, query@);
    let total: usize = summaries.len();
    let mut rest = summaries;
    let mut taken: usize = 0;
    let mut out: Vec<GlobalSearchSpaceHit> = Vec::new();
    assert(rest@ == all.skip(0));
    while rest.len() > 0 && out.len() < limit
        invariant
            taken + rest@.len() == all.len(),
            all.len() == total,
            rest@ == all.skip(taken as int),
            keep == (|s: SpaceSummary| space_matches(s, query@)),
            out@.len() <= limit,
            out@.len() == all.take(taken as int).filter(keep).len(),
            forall|i: int|
                0 <= i < out@.len() ==> out@[i] == space_hit_of(
                    #[trigger] all.take(taken as int).filter(keep)[i],
                ),
        decreases rest.len(),
    {
        let summary = rest.remove(0);
        proof {
            lemma_filter_take_next(all, keep, taken as int);
        }
        let ghost prev = all.take(taken as int).filter(keep);
        let ghost s0 = summary;
        match global_search_space_hit(summary, query) {
            Some(h) => {
                let ghost before = out@;
                out.push(h);
                assert forall|i: int| 0 <= i < out@.len() implies out@[i] == space_hit_of(
                    #[trigger] all.take(taken + 1).filter(keep)[i],
                ) by {
                    if i < before.len() {
                        assert(all.take(taken + 1).filter(keep)[i] == prev[i]);
                    } else {
                        assert(all.take(taken + 1).filter(keep)[i] == s0);
                    }
                }
            },
            None => {},
        }
        taken = taken + 1;
        assert(rest@ == all.skip(taken as int));
    }
    proof {
        lemma_filter_take_prefix(all, keep, taken as int);
        if rest@.len() == 0 {
            assert(all.take(taken as int) == all);
        }
        assert(all.take(taken as int).filter(keep).len() <= all.filter(keep).len());
        assert(out@.len() == group_len(all.filter(keep).len(), limit));
        let short = all.take(taken as int).filter(keep);
        assert forall|i: int| 0 <= i < out@.len() implies out@[i] == space_hit_of(
            #[trigger] all.filter(keep)[i],
        ) by {
            assert(short[i] == all.filter(keep)[i]);
        }
    }
    out
}

/// The room hits of a global search: the first `limit` rooms that match,
/// in order.
pub fn global_search_room_hits(summaries: &[RoomThreadSummary], query: &str, limit: usize) -> (r: Vec<
    GlobalSearchRoomHit,
>)
    ensures
        ({
            let m = summaries@.filter(|s: RoomThreadSummary| room_matches(s, query@));
            &&& r@.len() == group_len(m.len(), limit)
            &&& forall|i: int| 0 <= i < r@.len() ==> r@[i] == room_hit_of(#[trigger] m[i])
        }),
{
    let ghost all = summaries@;
    let ghost keep = |s: RoomThreadSummary| room_matches(s, query@);
    let mut i: usize = 0;
    let mut out: Vec<GlobalSearchRoomHit> = Vec::new();
    while i < summaries.len()
        invariant
            i <= all.len(),
            all == summaries@,
            keep == (|s: RoomThreadSummary| room_matches(s, query@)),
            out@.len() <= limit,
            out@.len() == group_len(all.take(i as int).filter(keep).len(), limit),
            forall|j: int|
                0 <= j < out@.len() ==> out@[j] == room_hit_of(#[trigger] all.take(i as int).filter(keep)[j]),
        decreases summaries.len() - i,
    {
        proof {
            lemma_filter_take_next(all, keep, i as int);
        }
        let ghost prev = all.take(i as int).filter(keep);
        if out.len() < limit {
            match global_search_room_hit(&summaries[i], query) {
                Some(h) => {
                    let ghost before = out@;
                    out.push(h);
                    assert forall|j: int| 0 <= j < out@.len() implies out@[j] == room_hit_of(
                        #[trigger] all.take(i + 1).filter(keep)[j],
                    ) by {
                        if j < before.len() {
                            assert(all.take(i + 1).filter(keep)[j] == prev[j]);
                        } else {
                            assert(all.take(i + 1).filter(keep)[j] == all[i as int]);
                        }
                    }
                },
                None => {},
            }
        } else {
            assert forall|j: int| 0 <= j < out@.len() implies out@[j] == room_hit_of(
                #[trigger] all.take(i + 1).filter(keep)[j],
            ) by {
                assert(all.take(i + 1).filter(keep)[j] == prev[j]);
            }
        }
        i = i + 1;
    }
    assert(all.take(all.len() as int) == all);
    out
}

/// Which rooms a global search asks for message hits, and how. With
/// `SERVER_BACKED_SEARCH_ROOM_THRESHOLD` rooms or more, the server searches
/// the unencrypted rooms first, the encrypted ones are searched locally,
/// and the unencrypted ones locally after that; with fewer, every room is
/// searched locally, in order.
#[derive(Debug)]
pub struct MessageSearchPlan {
    pub server_backed: bool,
    pub local_rooms: Vec<usize>,
    pub fallback_rooms: Vec<usize>,
}

/// The positions of the rooms whose flag is `flag`, in order.
pub open spec fn positions_with(flags: Seq<bool>, flag: bool) -> Seq<usize>
    decreases flags.len(),
{
    if flags.len() == 0 {
        Seq::empty()
    } else if flags.last() == flag {
        positions_with(flags.drop_last(), flag).push((flags.len() - 1) as usize)
    } else {
        positions_with(flags.drop_last(), flag)
    }
}

/// All positions of the rooms, in order.
pub open spec fn all_positions(n: nat) -> Seq<usize> {
    Seq::new(n, |i: int| i as usize)
}

fn positions_of(flags: &[bool], flag: bool) -> (r: Vec<usize>)
    ensures
        r@ == positions_with(flags@, flag),
{
    let mut out: Vec<usize> = Vec::new();
    let mut i: usize = 0;
    while i < flags.len()
        invariant
            i <= flags@.len(),
            out@ == positions_with(flags@.take(i as int), flag),
        decreases flags.len() - i,
    {
        assert(flags@.take(i + 1).drop_last() == flags@.take(i as int));
        assert(flags@.take(i + 1).last() == flags@[i as int]);
        if flags[i] == flag {
            out.push(i);
        }
        i = i + 1;
    }
    assert(flags@.take(flags@.len() as int) == flags@);
    out
}

/// The plan of the message part of a global search, given which rooms are
/// encrypted.
pub fn message_search_plan(room_is_encrypted: &[bool]) -> (r: MessageSearchPlan)
    ensures
        r.server_backed == (room_is_encrypted@.len() >= SERVER_BACKED_SEARCH_ROOM_THRESHOLD),
        r.server_backed ==> r.local_rooms@ == positions_with(room_is_encrypted@, true) && r.fallback_rooms@
            == positions_with(room_is_encrypted@, false),
        !r.server_backed ==> r.local_rooms@ == all_positions(room_is_encrypted@.len()) && r.fallback_rooms@.len()
            == 0,
{
    let server_backed = room_is_encrypted.len() >= SERVER_BACKED_SEARCH_ROOM_THRESHOLD;
    if server_backed {
        let local_rooms = positions_of(room_is_encrypted, true);
        let fallback_rooms = positions_of(room_is_encrypted, false);
        MessageSearchPlan { server_backed, local_rooms, fallback_rooms }
    } else {
        let mut local_rooms: Vec<usize> = Vec::new();
        let mut i: usize = 0;
        while i < room_is_encrypted.len()
            invariant
                i <= room_is_encrypted@.len(),
                local_rooms@ == all_positions(i as nat),
            decreases room_is_encrypted.len() - i,
        {
            local_rooms.push(i);
            assert(local_rooms@ =~= all_positions((i + 1) as nat));
            i = i + 1;
        }
        MessageSearchPlan { server_backed, local_rooms, fallback_rooms: Vec::new() }
    }
}

/// Scanning items of a room for a query: the items whose body, lowercased,
/// holds it, each event once, until `cap` hits are found.
pub open spec fn scanned(
    hits: Seq<RoomTimelineItem>,
    seen: Set<Seq<char>>,
    items: Seq<RoomTimelineItem>,
    query: Seq<char>,
    cap: usize,
) -> (Seq<RoomTimelineItem>, Set<Seq<char>>)
    decreases items.len(),
{
    if items.len() == 0 {
        (hits, seen)
    } else {
        let item = items[0];
        if !seq_contains(unicode_lowercase(item.body@), query) {
            scanned(hits, seen, items.drop_first(), query, cap)
        } else {
            let (h, s) = if seen.contains(item.event_id@) {
                (hits, seen)
            } else {
                (hits.push(item), seen.insert(item.event_id@))
            };
            if h.len() >= cap {
                (h, s)
            } else {
                scanned(h, s, items.drop_first(), query, cap)
            }
        }
    }
}

/// Scans items of a room for a query, adding to `hits` each item whose
/// body, lowercased, holds it and whose event is not in `seen_event_ids`
/// yet, until `cap` hits are found; says whether the cap was reached.
pub fn scan_items_for_query(
    hits: &mut Vec<RoomTimelineItem>,
    seen_event_ids: &mut Vec<String>,
    items: Vec<RoomTimelineItem>,
    query: &str,
    cap: usize,
) -> (r: bool)
    ensures
        (final(hits)@, strings_view(final(seen_event_ids)@).to_set()) == scanned(
            old(hits)@,
            strings_view(old(seen_event_ids)@).to_set(),
            items@,
            query@,
            cap,
        ),
        r ==> final(hits)@.len() >= cap,
{
    let ghost all = items@;
    let total: usize = items.len();
    let mut rest = items;
    let mut taken: usize = 0;
    let mut done = false;
    assert(rest@ == all.skip(0));
    while rest.len() > 0 && !done
        invariant
            taken + rest@.len() == all.len(),
            all.len() == total,
            rest@ == all.skip(taken as int),
            done ==> hits@.len() >= cap,
            done ==> scanned(old(hits)@, strings_view(old(seen_event_ids)@).to_set(), all, query@, cap) == (
                hits@,
                strings_view(seen_event_ids@).to_set(),
            ),
            !done ==> scanned(old(hits)@, strings_view(old(seen_event_ids)@).to_set(), all, query@, cap)
                == scanned(hits@, strings_view(seen_event_ids@).to_set(), rest@, query@, cap),
        decreases rest.len(),
    {
        let ghost rest_before = rest@;
        let item = rest.remove(0);
        assert(rest_before[0] == item);
        assert(rest_before.drop_first() == rest@);
        let ghost h0 = hits@;
        let ghost s0 = strings_view(seen_event_ids@).to_set();
        let lowered = to_unicode_lowercase(item.body.as_str());
        if str_contains(lowered.as_str(), query) {
            if !seen_contains(seen_event_ids, item.event_id.as_str()) {
                let ghost before_ids = seen_event_ids@;
                seen_event_ids.push(item.event_id.clone());
                assert(strings_view(seen_event_ids@) == strings_view(before_ids).push(item.event_id@));
                assert(strings_view(seen_event_ids@).to_set() =~= s0.insert(item.event_id@));
                hits.push(item);
            } else {
                assert(s0.contains(item.event_id@));
            }
            if hits.len() >= cap {
                done = true;
            }
        }
        taken = taken + 1;
    }
    proof {
        if !done {
            assert(rest@.len() == 0);
        }
    }
    done
}

/// Adding message hits to a group that had room for more ends with at most
/// `limit` hits, keeps the hits it had, and forgets no id seen before.
pub proof fn lemma_pushed_hits_bounded(
    target: Seq<GlobalSearchMessageHit>,
    seen: Set<Seq<char>>,
    hits: Seq<GlobalSearchMessageHit>,
    limit: usize,
)
    requires
        target.len() < limit,
    ensures
        pushed_hits(target, seen, hits, limit).0.len() <= limit,
        pushed_hits(target, seen, hits, limit).0.len() >= target.len(),
        forall|k: Seq<char>| seen.contains(k) ==> #[trigger] pushed_hits(target, seen, hits, limit).1.contains(k),
    decreases hits.len(),
{
    if hits.len() > 0 {
        let h = hits[0];
        let (t, s) = if seen.contains(h.result_id@) {
            (target, seen)
        } else {
            (target.push(h), seen.insert(h.result_id@))
        };
        if t.len() < limit {
            lemma_pushed_hits_bounded(t, s, hits.drop_first(), limit);
        }
    }
}


/// Hits with distinct result ids, every one of them recorded as seen.
pub open spec fn hits_distinct_and_seen(target: Seq<GlobalSearchMessageHit>, seen: Set<Seq<char>>) -> bool {
    &&& forall|i: int, j: int|
        0 <= i < j < target.len() ==> (#[trigger] target[i]).result_id@ != (#[trigger] target[j]).result_id@
    &&& forall|i: int| 0 <= i < target.len() ==> seen.contains((#[trigger] target[i]).result_id@)
}

/// Adding hits never takes a result id twice: where the target's ids were
/// distinct and seen, they still are.
pub proof fn lemma_pushed_hits_distinct(
    target: Seq<GlobalSearchMessageHit>,
    seen: Set<Seq<char>>,
    hits: Seq<GlobalSearchMessageHit>,
    limit: usize,
)
    requires
        hits_distinct_and_seen(target, seen),
    ensures
        hits_distinct_and_seen(pushed_hits(target, seen, hits, limit).0, pushed_hits(target, seen, hits, limit).1),
    decreases hits.len(),
{
    if hits.len() > 0 {
        let h = hits[0];
        let (t, s) = if seen.contains(h.result_id@) {
            (target, seen)
        } else {
            (target.push(h), seen.insert(h.result_id@))
        };
        if !seen.contains(h.result_id@) {
            assert forall|i: int, j: int| 0 <= i < j < t.len() implies (#[trigger] t[i]).result_id@ != (
            #[trigger] t[j]).result_id@ by {
                if j == target.len() {
                    assert(t[i] == target[i]);
                    assert(seen.contains(target[i].result_id@));
                } else {
                    assert(t[i] == target[i] && t[j] == target[j]);
                }
            }
            assert forall|i: int| 0 <= i < t.len() implies s.contains((#[trigger] t[i]).result_id@) by {
                if i < target.len() {
                    assert(t[i] == target[i]);
                }
            }
        }
        if t.len() < limit {
            lemma_pushed_hits_distinct(t, s, hits.drop_first(), limit);
        }
    }
}



// ---------------------------------------------------------------------------
// Every alphanumeric run is a term
// ---------------------------------------------------------------------------

proof fn lemma_trim_start_keeps(s: Seq<char>, j: int)
    requires
        0 <= j < s.len(),
        !is_ws(s[j]),
    ensures
        exists|k: int| 0 <= k < trim_start_seq(s).len() && !is_ws(#[trigger] trim_start_seq(s)[k]),
    decreases s.len(),
{
    if s.len() > 0 && is_ws(s[0]) {
        assert(j > 0);
        assert(s.drop_first()[j - 1] == s[j]);
        lemma_trim_start_keeps(s.drop_first(), j - 1);
        assert(trim_start_seq(s) == trim_start_seq(s.drop_first()));
    } else {
        assert(trim_start_seq(s) == s);
        assert(!is_ws(trim_start_seq(s)[j]));
    }
}

proof fn lemma_trim_end_keeps(t: Seq<char>, k: int)
    requires
        0 <= k < t.len(),
        !is_ws(t[k]),
    ensures
        trim_end_seq(t).len() > k,
    decreases t.len(),
{
    if t.len() > 0 && is_ws(t.last()) {
        assert(k < t.len() - 1);
        assert(t.drop_last()[k] == t[k]);
        lemma_trim_end_keeps(t.drop_last(), k);
    }
}

proof fn lemma_trim_nonblank(s: Seq<char>, j: int)
    requires
        0 <= j < s.len(),
        !is_ws(s[j]),
    ensures
        trim_seq(s).len() > 0,
{
    lemma_trim_start_keeps(s, j);
    let t = trim_start_seq(s);
    let k = choose|k: int| 0 <= k < t.len() && !is_ws(#[trigger] t[k]);
    lemma_trim_end_keeps(t, k);
}

proof fn lemma_trim_no_ws(s: Seq<char>)
    requires
        forall|i: int| 0 <= i < s.len() ==> !is_ws(#[trigger] s[i]),
    ensures
        trim_seq(s) == s,
{
}

/// Each run is non-empty and made of alphanumeric characters of the text.
proof fn lemma_alnum_runs_shape(s: Seq<char>)
    ensures
        forall|r: int| 0 <= r < alnum_runs(s).len() ==> (#[trigger] alnum_runs(s)[r]).len() > 0,
        forall|r: int, j: int|
            0 <= r < alnum_runs(s).len() && 0 <= j < alnum_runs(s)[r].len() ==> unicode_alphanumeric(
                #[trigger] alnum_runs(s)[r][j],
            ),
        forall|r: int, j: int|
            0 <= r < alnum_runs(s).len() && 0 <= j < alnum_runs(s)[r].len() ==> s.contains(
                #[trigger] alnum_runs(s)[r][j],
            ),
    decreases s.len(),
{
    if s.len() > 0 {
        let p = s.drop_last();
        lemma_alnum_runs_shape(p);
        lemma_alnum_runs_nonempty(p);
        let c = s.last();
        let prev = alnum_runs(p);
        let cur = alnum_runs(s);
        assert forall|x: char| p.contains(x) implies s.contains(x) by {
            let i = choose|i: int| 0 <= i < p.len() && p[i] == x;
            assert(s[i] == x);
        }
        assert(s.contains(c)) by {
            assert(s[s.len() - 1] == c);
        }
        if !unicode_alphanumeric(c) {
        } else if s.len() > 1 && unicode_alphanumeric(s[s.len() - 2]) {
            assert(p.last() == s[s.len() - 2]);
            assert forall|r: int, j: int| 0 <= r < cur.len() && 0 <= j < cur[r].len() implies unicode_alphanumeric(
                #[trigger] cur[r][j],
            ) && s.contains(cur[r][j]) by {
                if r < prev.len() - 1 {
                    assert(cur[r] == prev[r]);
                } else if j < prev.last().len() {
                    assert(cur[r][j] == prev[r][j]);
                } else {
                    assert(cur[r][j] == c);
                }
            }
            assert forall|r: int| 0 <= r < cur.len() implies (#[trigger] cur[r]).len() > 0 by {
                if r < prev.len() - 1 {
                    assert(cur[r] == prev[r]);
                }
            }
        } else {
            assert forall|r: int, j: int| 0 <= r < cur.len() && 0 <= j < cur[r].len() implies unicode_alphanumeric(
                #[trigger] cur[r][j],
            ) && s.contains(cur[r][j]) by {
                if r < prev.len() {
                    assert(cur[r] == prev[r]);
                } else {
                    assert(cur[r] == seq![c]);
                }
            }
            assert forall|r: int| 0 <= r < cur.len() implies (#[trigger] cur[r]).len() > 0 by {
                if r < prev.len() {
                    assert(cur[r] == prev[r]);
                }
            }
        }
    }
}

/// A character that is alphanumeric and no whitespace lies in some run,
/// where it is no whitespace either.
proof fn lemma_alnum_char_in_run(s: Seq<char>, i: int)
    requires
        0 <= i < s.len(),
        unicode_alphanumeric(s[i]),
        !is_ws(s[i]),
    ensures
        exists|r: int, j: int|
            0 <= r < alnum_runs(s).len() && 0 <= j < alnum_runs(s)[r].len() && !is_ws(#[trigger] alnum_runs(s)[r][j]),
    decreases s.len(),
{
    let p = s.drop_last();
    let c = s.last();
    let prev = alnum_runs(p);
    let cur = alnum_runs(s);
    if i == s.len() - 1 {
        lemma_alnum_runs_nonempty(p);
        if s.len() > 1 && unicode_alphanumeric(s[s.len() - 2]) {
            assert(p.last() == s[s.len() - 2]);
            let r = prev.len() - 1;
            assert(cur[r][prev.last().len() as int] == c);
        } else {
            assert(cur[prev.len() as int][0] == c);
        }
    } else {
        assert(p[i] == s[i]);
        lemma_alnum_char_in_run(p, i);
        let (r, j) = choose|r: int, j: int|
            0 <= r < prev.len() && 0 <= j < prev[r].len() && !is_ws(#[trigger] prev[r][j]);
        if !unicode_alphanumeric(c) {
        } else if s.len() > 1 && unicode_alphanumeric(s[s.len() - 2]) {
            lemma_alnum_runs_nonempty(p);
            assert(p.last() == s[s.len() - 2]);
            if r < prev.len() - 1 {
                assert(cur[r] == prev[r]);
            } else {
                assert(cur[r][j] == prev[r][j]);
            }
        } else {
            assert(cur[r] == prev[r]);
        }
    }
}

proof fn lemma_terms_from_runs_nonempty(runs: Seq<Seq<char>>, r: int)
    requires
        0 <= r < runs.len(),
        trim_seq(runs[r]).len() > 0,
    ensures
        terms_from_runs(runs).len() > 0,
    decreases runs.len(),
{
    if r < runs.len() - 1 {
        assert(runs.drop_last()[r] == runs[r]);
        lemma_terms_from_runs_nonempty(runs.drop_last(), r);
    }
}

proof fn lemma_terms_from_clean_runs(runs: Seq<Seq<char>>)
    requires
        forall|r: int| 0 <= r < runs.len() ==> (#[trigger] runs[r]).len() > 0,
        forall|r: int, j: int| 0 <= r < runs.len() && 0 <= j < runs[r].len() ==> !is_ws(#[trigger] runs[r][j]),
    ensures
        terms_from_runs(runs) == runs.map_values(|r: Seq<char>| unicode_lowercase(r)),
    decreases runs.len(),
{
    if runs.len() > 0 {
        let p = runs.drop_last();
        assert forall|r: int| 0 <= r < p.len() implies (#[trigger] p[r]).len() > 0 by {
            assert(p[r] == runs[r]);
        }
        assert forall|r: int, j: int| 0 <= r < p.len() && 0 <= j < p[r].len() implies !is_ws(#[trigger] p[r][j]) by {
            assert(p[r] == runs[r]);
        }
        lemma_terms_from_clean_runs(p);
        let last = runs.last();
        assert forall|j: int| 0 <= j < last.len() implies !is_ws(#[trigger] last[j]) by {
            assert(last == runs[runs.len() - 1]);
        }
        lemma_trim_no_ws(last);
        assert(runs.map_values(|r: Seq<char>| unicode_lowercase(r)) =~= p.map_values(
            |r: Seq<char>| unicode_lowercase(r),
        ).push(unicode_lowercase(last)));
    } else {
        assert(runs.map_values(|r: Seq<char>| unicode_lowercase(r)) =~= Seq::<Seq<char>>::empty());
    }
}

/// The runs hold every alphanumeric character of the text, in order, and
/// nothing else; each run is non-empty and all alphanumeric.
pub proof fn lemma_runs_cover_alphanumerics(q: Seq<char>)
    ensures
        alnum_runs(q).flatten() == q.filter(|c: char| unicode_alphanumeric(c)),
        forall|r: int| 0 <= r < alnum_runs(q).len() ==> (#[trigger] alnum_runs(q)[r]).len() > 0,
        forall|r: int, j: int|
            0 <= r < alnum_runs(q).len() && 0 <= j < alnum_runs(q)[r].len() ==> unicode_alphanumeric(
                #[trigger] alnum_runs(q)[r][j],
            ),
    decreases q.len(),
{
    lemma_alnum_runs_shape(q);
    reveal_with_fuel(Seq::filter, 1);
    if q.len() == 0 {
        assert(q.filter(|c: char| unicode_alphanumeric(c)) =~= Seq::<char>::empty());
    } else {
        let p = q.drop_last();
        let c = q.last();
        lemma_runs_cover_alphanumerics(p);
        lemma_alnum_runs_nonempty(p);
        let prev = alnum_runs(p);
        if !unicode_alphanumeric(c) {
        } else if q.len() > 1 && unicode_alphanumeric(q[q.len() - 2]) {
            assert(p.last() == q[q.len() - 2]);
            let front = prev.drop_last();
            let last = prev.last();
            assert(prev =~= front.push(last));
            front.lemma_flatten_push(last);
            front.lemma_flatten_push(last.push(c));
            assert(alnum_runs(q) =~= front.push(last.push(c)));
            assert(front.flatten() + last.push(c) =~= (front.flatten() + last).push(c));
        } else {
            prev.lemma_flatten_push(seq![c]);
            assert(prev.flatten() + seq![c] =~= prev.flatten().push(c));
        }
    }
}

/// Every maximal run of alphanumeric characters is a search term: a query
/// with an alphanumeric character that is no whitespace has terms, so a
/// full-text query, and matches a field that holds the query itself; and
/// where no alphanumeric character of the query is whitespace, its terms are
/// exactly its runs, lower-cased, one term per run.
pub proof fn lemma_every_run_is_a_term(q: Seq<char>)
    ensures
        (exists|i: int| 0 <= i < q.len() && unicode_alphanumeric(q[i]) && !is_ws(#[trigger] q[i])) ==> {
            &&& normalized_terms_spec(q).len() > 0
            &&& terms_match(fields_terms(seq![q]), normalized_terms_spec(q))
        },
        (forall|i: int| 0 <= i < q.len() && unicode_alphanumeric(q[i]) ==> !is_ws(#[trigger] q[i])) ==> {
            &&& normalized_terms_spec(q).len() == alnum_runs(q).len()
            &&& forall|r: int|
                0 <= r < alnum_runs(q).len() ==> #[trigger] normalized_terms_spec(q)[r] == unicode_lowercase(
                    alnum_runs(q)[r],
                )
        },
{
    lemma_alnum_runs_shape(q);
    let runs = alnum_runs(q);
    if exists|i: int| 0 <= i < q.len() && unicode_alphanumeric(q[i]) && !is_ws(#[trigger] q[i]) {
        let i = choose|i: int| 0 <= i < q.len() && unicode_alphanumeric(q[i]) && !is_ws(#[trigger] q[i]);
        lemma_alnum_char_in_run(q, i);
        let (r, j) = choose|r: int, j: int| 0 <= r < runs.len() && 0 <= j < runs[r].len() && !is_ws(#[trigger] runs[r][j]);
        lemma_trim_nonblank(runs[r], j);
        lemma_terms_from_runs_nonempty(runs, r);
        let terms = normalized_terms_spec(q);
        assert(fields_terms(seq![q]) =~= terms) by {
            assert(seq![q].drop_last() =~= Seq::<Seq<char>>::empty());
            assert(seq![q].last() == q);
            assert(fields_terms(Seq::<Seq<char>>::empty()) == Seq::<Seq<char>>::empty());
        }
        assert forall|t: int| 0 <= t < terms.len() implies term_found(fields_terms(seq![q]), #[trigger] terms[t]) by {
            assert(starts_with(terms[t], terms[t])) by {
                assert(terms[t].take(terms[t].len() as int) =~= terms[t]);
            }
            assert(fields_terms(seq![q])[t] == terms[t]);
        }
    }
    if forall|i: int| 0 <= i < q.len() && unicode_alphanumeric(q[i]) ==> !is_ws(#[trigger] q[i]) {
        assert forall|r: int, j: int| 0 <= r < runs.len() && 0 <= j < runs[r].len() implies !is_ws(
            #[trigger] runs[r][j],
        ) by {
            let x = runs[r][j];
            assert(q.contains(x));
            let i = choose|i: int| 0 <= i < q.len() && q[i] == x;
            assert(unicode_alphanumeric(q[i]));
        }
        lemma_terms_from_clean_runs(runs);
    }
}

} // verus!
