//! Untrusted Matrix message bodies become a constrained tree of rich-text
//! nodes: a small HTML subset is parsed from `org.matrix.custom.html` bodies,
//! and plain text gets its links recognised.
use vstd::prelude::*;

use crate::text::{
    ascii_lower_seq, chars_of, find_from, first_occurrence_from, is_alnum_ascii, is_ascii_alnum,
    is_ascii_hex, is_blank, is_hex_digit, is_whitespace, is_ws, lemma_first_occurrence, lower_ascii,
    occurs_at, occurs_at_exec, opt_int, opt_view, parse_usize, parse_usize_spec, starts_with,
    starts_with_chars, str_eq, string_from_chars, string_from_range, trim_bounds, trim_chars,
    trim_seq, trim_start_seq,
};


verus! {

// ---------------------------------------------------------------------------
// Node types and their views
// ---------------------------------------------------------------------------

/// The sanitized attributes that a rich-text element may carry.
#[derive(Debug)]
pub struct RoomTimelineRichTextAttributes {
    pub href: Option<String>,
    pub target: Option<String>,
    pub alt: Option<String>,
    pub title: Option<String>,
    pub language: Option<String>,
    pub start: Option<u32>,
    pub color: Option<String>,
    pub background_color: Option<String>,
    pub spoiler: Option<String>,
    pub maths: Option<String>,
}

/// One node of projected rich text.
#[derive(Debug)]
pub enum RoomTimelineRichTextNode {
    Text { text: String },
    Element {
        tag: String,
        attributes: RoomTimelineRichTextAttributes,
        children: Vec<RoomTimelineRichTextNode>,
    },
}

pub struct AttributesView {
    pub href: Option<Seq<char>>,
    pub target: Option<Seq<char>>,
    pub alt: Option<Seq<char>>,
    pub title: Option<Seq<char>>,
    pub language: Option<Seq<char>>,
    pub start: Option<u32>,
    pub color: Option<Seq<char>>,
    pub background_color: Option<Seq<char>>,
    pub spoiler: Option<Seq<char>>,
    pub maths: Option<Seq<char>>,
}

pub enum NodeView {
    Text(Seq<char>),
    Element(Seq<char>, AttributesView, Seq<NodeView>),
}

pub open spec fn empty_attributes() -> AttributesView {
    AttributesView {
        href: None,
        target: None,
        alt: None,
        title: None,
        language: None,
        start: None,
        color: None,
        background_color: None,
        spoiler: None,
        maths: None,
    }
}

impl RoomTimelineRichTextAttributes {
    pub open spec fn view(&self) -> AttributesView {
        AttributesView {
            href: opt_view(self.href),
            target: opt_view(self.target),
            alt: opt_view(self.alt),
            title: opt_view(self.title),
            language: opt_view(self.language),
            start: self.start,
            color: opt_view(self.color),
            background_color: opt_view(self.background_color),
            spoiler: opt_view(self.spoiler),
            maths: opt_view(self.maths),
        }
    }

    /// All attributes absent (the `Default` value).
    pub fn empty() -> (r: Self)
        ensures
            r.view() == empty_attributes(),
    {
        RoomTimelineRichTextAttributes {
            href: None,
            target: None,
            alt: None,
            title: None,
            language: None,
            start: None,
            color: None,
            background_color: None,
            spoiler: None,
            maths: None,
        }
    }
}

pub open spec fn node_view(n: RoomTimelineRichTextNode) -> NodeView
    decreases n, 0nat,
{
    match n {
        RoomTimelineRichTextNode::Text { text } => NodeView::Text(text@),
        RoomTimelineRichTextNode::Element { tag, attributes, children } => NodeView::Element(
            tag@,
            attributes.view(),
            nodes_view(children@),
        ),
    }
}

pub open spec fn nodes_view(ns: Seq<RoomTimelineRichTextNode>) -> Seq<NodeView>
    decreases ns, ns.len(),
{
    if ns.len() == 0 {
        Seq::empty()
    } else {
        nodes_view(ns.drop_last()).push(node_view(ns.last()))
    }
}

proof fn lemma_nodes_view_push(ns: Seq<RoomTimelineRichTextNode>, n: RoomTimelineRichTextNode)
    ensures
        nodes_view(ns.push(n)) == nodes_view(ns).push(node_view(n)),
{
    assert(ns.push(n).drop_last() == ns);
}

proof fn lemma_nodes_view_len(ns: Seq<RoomTimelineRichTextNode>)
    ensures
        nodes_view(ns).len() == ns.len(),
    decreases ns.len(),
{
    if ns.len() > 0 {
        lemma_nodes_view_len(ns.drop_last());
    }
}

// ---------------------------------------------------------------------------
// Links, colours, media URIs and entities
// ---------------------------------------------------------------------------

/// The URL schemes that become links.
pub open spec fn link_schemes() -> Seq<Seq<char>> {
    seq!["ftp://"@, "http://"@, "https://"@, "mailto:"@, "magnet:?"@]
}

/// A link target is permitted when it starts with one of the link schemes.
pub open spec fn permitted_link_spec(v: Seq<char>) -> bool {
    exists|k: int| 0 <= k < 5 && starts_with(v, #[trigger] link_schemes()[k])
}

/// The position of the first `c` in `v` at or after `from`, if any.
pub open spec fn first_char_from(v: Seq<char>, c: char, from: int) -> Option<int>
    decreases v.len() - from,
{
    if from < 0 || from >= v.len() {
        None
    } else if v[from] == c {
        Some(from)
    } else {
        first_char_from(v, c, from + 1)
    }
}

/// The position of the first `c` in `v`, if any.
pub open spec fn first_char_index(v: Seq<char>, c: char) -> Option<int> {
    first_char_from(v, c, 0)
}

proof fn lemma_first_char_from(v: Seq<char>, c: char, from: int)
    requires
        0 <= from,
    ensures
        match first_char_from(v, c, from) {
            Some(i) => from <= i < v.len() && v[i] == c && forall|j: int| from <= j < i ==> v[j] != c,
            None => forall|j: int| from <= j < v.len() ==> v[j] != c,
        },
    decreases v.len() - from,
{
    if from < v.len() && v[from] != c {
        lemma_first_char_from(v, c, from + 1);
    }
}

/// An image source is permitted when it is `mxc://server/media` with both
/// parts present and neither `?` nor `#` anywhere.
pub open spec fn permitted_mxc_spec(v: Seq<char>) -> bool {
    let prefix = "mxc://"@;
    &&& starts_with(v, prefix)
    &&& match first_char_index(v.skip(prefix.len() as int), '/') {
        Some(slash) => slash > 0 && slash + 1 < v.len() - prefix.len() && !v.contains('?')
            && !v.contains('#'),
        None => false,
    }
}

/// A Matrix colour is `#` followed by six hexadecimal digits.
pub open spec fn matrix_color_spec(v: Seq<char>) -> bool {
    v.len() == 7 && v[0] == '#' && forall|i: int| 1 <= i < 7 ==> is_ascii_hex(#[trigger] v[i])
}

/// `str::replace` with a non-empty pattern: every occurrence, scanned from
/// the left without overlap, is replaced.
pub open spec fn replace_seq(s: Seq<char>, pat: Seq<char>, rep: Seq<char>) -> Seq<char>
    recommends
        pat.len() > 0,
    decreases s.len(),
{
    if pat.len() == 0 || s.len() < pat.len() {
        s
    } else if s.take(pat.len() as int) == pat {
        rep + replace_seq(s.skip(pat.len() as int), pat, rep)
    } else {
        seq![s[0]] + replace_seq(s.skip(1), pat, rep)
    }
}

/// The five XML entities, replaced one after another in this order.
pub open spec fn decode_entities_spec(v: Seq<char>) -> Seq<char> {
    let a = replace_seq(v, "&amp;"@, "&"@);
    let b = replace_seq(a, "&apos;"@, "'"@);
    let c = replace_seq(b, "&quot;"@, "\""@);
    let d = replace_seq(c, "&lt;"@, "<"@);
    replace_seq(d, "&gt;"@, ">"@)
}

// ---------------------------------------------------------------------------
// Linkifying plain text
// ---------------------------------------------------------------------------

pub open spec fn min_position(a: Option<int>, b: Option<int>) -> Option<int> {
    match (a, b) {
        (Some(x), Some(y)) => Some(if x <= y { x } else { y }),
        (Some(x), None) => Some(x),
        (None, y) => y,
    }
}

/// The earliest position at or after `cursor` where a link scheme starts.
pub open spec fn next_link_spec(v: Seq<char>, cursor: int) -> Option<int> {
    let s = link_schemes();
    min_position(
        min_position(
            min_position(
                min_position(
                    first_occurrence_from(v, s[0], cursor),
                    first_occurrence_from(v, s[1], cursor),
                ),
                first_occurrence_from(v, s[2], cursor),
            ),
            first_occurrence_from(v, s[3], cursor),
        ),
        first_occurrence_from(v, s[4], cursor),
    )
}

/// A character that ends a link: whitespace or one of `<>()"'`.
pub open spec fn link_terminator(c: char) -> bool {
    is_ws(c) || c == '<' || c == '>' || c == '(' || c == ')' || c == '"' || c == '\''
}

/// Trailing punctuation that is not part of a link: one of `.,!?;:`.
pub open spec fn link_trailing_punct(c: char) -> bool {
    c == '.' || c == ',' || c == '!' || c == '?' || c == ';' || c == ':'
}

/// The first position at or after `from` holding a link terminator, or the
/// end of the text.
pub open spec fn terminator_from(v: Seq<char>, from: int) -> int
    decreases v.len() - from,
{
    if from >= v.len() {
        v.len() as int
    } else if link_terminator(v[from]) {
        from
    } else {
        terminator_from(v, from + 1)
    }
}

/// The end of the link that starts at `start`: the first terminator after
/// its first character, or the end of the text.
pub open spec fn link_end_spec(v: Seq<char>, start: int) -> int {
    terminator_from(v, start + 1)
}

pub open spec fn trim_trailing_punct(s: Seq<char>) -> Seq<char>
    decreases s.len(),
{
    if s.len() > 0 && link_trailing_punct(s.last()) {
        trim_trailing_punct(s.drop_last())
    } else {
        s
    }
}

pub open spec fn link_node(link: Seq<char>) -> NodeView {
    NodeView::Element(
        "a"@,
        AttributesView { href: Some(link), ..empty_attributes() },
        seq![NodeView::Text(link)],
    )
}

/// The nodes that linkifying `v` from `cursor` on produces.
pub open spec fn linkify_from(v: Seq<char>, cursor: int) -> Seq<NodeView>
    decreases v.len() - cursor,
{
    let rest = if cursor < v.len() {
        seq![NodeView::Text(v.subrange(cursor, v.len() as int))]
    } else {
        Seq::empty()
    };
    match next_link_spec(v, cursor) {
        None => rest,
        Some(start) => {
            let pre = if start > cursor {
                seq![NodeView::Text(v.subrange(cursor, start))]
            } else {
                Seq::<NodeView>::empty()
            };
            let link = trim_trailing_punct(v.subrange(start, link_end_spec(v, start)));
            if link.len() == 0 || start < cursor || start + link.len() > v.len() {
                pre + rest
            } else {
                pre + seq![link_node(link)] + linkify_from(v, start + link.len())
            }
        },
    }
}

/// Plain text with its links recognised.
pub open spec fn linkify_spec(v: Seq<char>) -> Seq<NodeView> {
    linkify_from(v, 0)
}

// ---------------------------------------------------------------------------
// Executable helpers for links, colours and entities
// ---------------------------------------------------------------------------

/// `str::replace` with a non-empty pattern.
fn replace_chars(s: &[char], pat: &[char], rep: &[char]) -> (r: Vec<char>)
    requires
        pat@.len() > 0,
    ensures
        r@ == replace_seq(s@, pat@, rep@),
{
    let mut r: Vec<char> = Vec::new();
    let mut i: usize = 0;
    assert(s@.skip(0) == s@);
    while i < s.len()
        invariant
            i <= s@.len(),
            pat@.len() > 0,
            r@ + replace_seq(s@.skip(i as int), pat@, rep@) == replace_seq(s@, pat@, rep@),
        decreases s.len() - i,
    {
        let ghost rest = s@.skip(i as int);
        if pat.len() <= s.len() - i && occurs_at_exec(s, pat, i) {
            assert(rest.take(pat@.len() as int) == s@.subrange(i as int, i + pat@.len()));
            assert(rest.skip(pat@.len() as int) == s@.skip(i + pat@.len()));
            let mut k: usize = 0;
            let ghost r0 = r@;
            while k < rep.len()
                invariant
                    k <= rep@.len(),
                    r@ == r0 + rep@.take(k as int),
                decreases rep.len() - k,
            {
                r.push(rep[k]);
                assert(rep@.take(k + 1) == rep@.take(k as int).push(rep@[k as int]));
                k = k + 1;
            }
            assert(rep@.take(rep@.len() as int) == rep@);
            assert(r@ + replace_seq(s@.skip(i + pat@.len()), pat@, rep@) == r0 + (rep@
                + replace_seq(rest.skip(pat@.len() as int), pat@, rep@)));
            i = i + pat.len();
        } else {
            proof {
                if rest.len() >= pat@.len() {
                    assert(rest.take(pat@.len() as int) == s@.subrange(i as int, i + pat@.len()));
                }
                assert(rest.skip(1) == s@.skip(i + 1));
            }
            let ghost r0 = r@;
            r.push(s[i]);
            assert(r@ + replace_seq(s@.skip(i + 1), pat@, rep@) == r0 + (seq![rest[0]]
                + replace_seq(rest.skip(1), pat@, rep@)));
            i = i + 1;
        }
    }
    assert(s@.skip(i as int).len() == 0);
    r
}

/// Decodes the five XML entities.
fn decode_entities(v: &[char]) -> (r: Vec<char>)
    ensures
        r@ == decode_entities_spec(v@),
{
    let amp = chars_of("&amp;");
    let apos = chars_of("&apos;");
    let quot = chars_of("&quot;");
    let lt = chars_of("&lt;");
    let gt = chars_of("&gt;");
    proof {
        reveal_strlit("&amp;");
        reveal_strlit("&apos;");
        reveal_strlit("&quot;");
        reveal_strlit("&lt;");
        reveal_strlit("&gt;");
    }
    let a = replace_chars(v, &amp, &chars_of("&"));
    let b = replace_chars(&a, &apos, &chars_of("'"));
    let c = replace_chars(&b, &quot, &chars_of("\""));
    let d = replace_chars(&c, &lt, &chars_of("<"));
    replace_chars(&d, &gt, &chars_of(">"))
}

/// A link target is permitted.
fn permitted_link(v: &[char]) -> (r: bool)
    ensures
        r == permitted_link_spec(v@),
{
    let schemes = [chars_of("ftp://"), chars_of("http://"), chars_of("https://"), chars_of(
        "mailto:",
    ), chars_of("magnet:?")];
    let mut k: usize = 0;
    while k < 5
        invariant
            k <= 5,
            forall|m: int| 0 <= m < 5 ==> (#[trigger] schemes@[m])@ == link_schemes()[m],
            forall|m: int| 0 <= m < k ==> !starts_with(v@, #[trigger] link_schemes()[m]),
        decreases 5 - k,
    {
        if starts_with_chars(v, &schemes[k]) {
            return true;
        }
        k = k + 1;
    }
    false
}

/// The position of the first `c` in `v` at or after `from`, if any.
fn find_char_from(v: &[char], c: char, from: usize) -> (r: Option<usize>)
    ensures
        opt_int(r) == first_char_from(v@, c, from as int),
        match r {
            Some(i) => from <= i < v@.len() && v@[i as int] == c && forall|j: int|
                from <= j < i ==> v@[j] != c,
            None => forall|j: int| from <= j < v@.len() ==> v@[j] != c,
        },
{
    proof {
        lemma_first_char_from(v@, c, from as int);
    }
    let mut i: usize = from;
    while i < v.len()
        invariant
            from <= i,
            first_char_from(v@, c, from as int) == first_char_from(v@, c, i as int),
        decreases v.len() - i,
    {
        if v[i] == c {
            proof {
                lemma_first_char_from(v@, c, from as int);
            }
            return Some(i);
        }
        i = i + 1;
    }
    proof {
        lemma_first_char_from(v@, c, from as int);
    }
    None
}

/// The position of the first `c` in `v`, if any.
fn find_char(v: &[char], c: char) -> (r: Option<usize>)
    ensures
        opt_int(r) == first_char_index(v@, c),
        match r {
            Some(i) => i < v@.len() && v@[i as int] == c && forall|j: int| 0 <= j < i ==> v@[j] != c,
            None => forall|j: int| 0 <= j < v@.len() ==> v@[j] != c,
        },
{
    find_char_from(v, c, 0)
}

fn has_char(v: &[char], c: char) -> (r: bool)
    ensures
        r == v@.contains(c),
{
    match find_char(v, c) {
        Some(i) => {
            true
        },
        None => false,
    }
}

/// An image source is a permitted `mxc://` URI.
fn permitted_mxc(v: &[char]) -> (r: bool)
    ensures
        r == permitted_mxc_spec(v@),
{
    let prefix = chars_of("mxc://");
    if !starts_with_chars(v, &prefix) {
        return false;
    }
    let rest = subvec(v, prefix.len(), v.len());
    assert(rest@ == v@.skip(prefix@.len() as int));
    match find_char(&rest, '/') {
        Some(slash) => slash > 0 && slash < rest.len() - 1 && !has_char(v, '?') && !has_char(
            v,
            '#',
        ),
        None => false,
    }
}

/// The characters `v[from..to]`.
pub fn subvec(v: &[char], from: usize, to: usize) -> (r: Vec<char>)
    requires
        from <= to <= v@.len(),
    ensures
        r@ == v@.subrange(from as int, to as int),
{
    let mut r: Vec<char> = Vec::new();
    let mut i = from;
    while i < to
        invariant
            from <= i <= to <= v@.len(),
            r@ == v@.subrange(from as int, i as int),
        decreases to - i,
    {
        r.push(v[i]);
        assert(v@.subrange(from as int, i + 1) == v@.subrange(from as int, i as int).push(
            v@[i as int],
        ));
        i = i + 1;
    }
    r
}

/// A Matrix colour value.
fn matrix_color(v: &[char]) -> (r: bool)
    ensures
        r == matrix_color_spec(v@),
{
    if v.len() != 7 || v[0] != '#' {
        return false;
    }
    let mut i: usize = 1;
    while i < 7
        invariant
            1 <= i <= 7,
            v@.len() == 7,
            forall|k: int| 1 <= k < i ==> is_ascii_hex(#[trigger] v@[k]),
        decreases 7 - i,
    {
        if !is_hex_digit(v[i]) {
            return false;
        }
        i = i + 1;
    }
    true
}

fn is_link_terminator(c: char) -> (r: bool)
    ensures
        r == link_terminator(c),
{
    is_whitespace(c) || c == '<' || c == '>' || c == '(' || c == ')' || c == '"' || c == '\''
}

fn is_link_trailing_punct(c: char) -> (r: bool)
    ensures
        r == link_trailing_punct(c),
{
    c == '.' || c == ',' || c == '!' || c == '?' || c == ';' || c == ':'
}

fn min_found(a: Option<usize>, b: Option<usize>) -> (r: Option<usize>)
    ensures
        (match r {
            Some(x) => Some(x as int),
            None => None::<int>,
        }) == min_position(
            match a {
                Some(x) => Some(x as int),
                None => None::<int>,
            },
            match b {
                Some(x) => Some(x as int),
                None => None::<int>,
            },
        ),
{
    match (a, b) {
        (Some(x), Some(y)) => Some(if x <= y { x } else { y }),
        (Some(x), None) => Some(x),
        (None, y) => y,
    }
}


/// The earliest link start at or after `cursor`.
fn next_link(v: &[char], cursor: usize) -> (r: Option<usize>)
    ensures
        opt_int(r) == next_link_spec(v@, cursor as int),
{
    let s0 = chars_of("ftp://");
    let s1 = chars_of("http://");
    let s2 = chars_of("https://");
    let s3 = chars_of("mailto:");
    let s4 = chars_of("magnet:?");
    let f0 = find_from(v, &s0, cursor);
    let f1 = find_from(v, &s1, cursor);
    let f2 = find_from(v, &s2, cursor);
    let f3 = find_from(v, &s3, cursor);
    let f4 = find_from(v, &s4, cursor);
    let m = min_found(min_found(min_found(min_found(f0, f1), f2), f3), f4);
    proof {
        let s = link_schemes();
        assert(s[0] == s0@ && s[1] == s1@ && s[2] == s2@ && s[3] == s3@ && s[4] == s4@);
        assert(opt_int(f0) == first_occurrence_from(v@, s[0], cursor as int));
        assert(opt_int(f1) == first_occurrence_from(v@, s[1], cursor as int));
        assert(opt_int(f2) == first_occurrence_from(v@, s[2], cursor as int));
        assert(opt_int(f3) == first_occurrence_from(v@, s[3], cursor as int));
        assert(opt_int(f4) == first_occurrence_from(v@, s[4], cursor as int));
    }
    m
}

proof fn lemma_terminator_from(v: Seq<char>, from: int)
    requires
        0 <= from <= v.len(),
    ensures
        from <= terminator_from(v, from) <= v.len(),
    decreases v.len() - from,
{
    if from < v.len() && !link_terminator(v[from]) {
        lemma_terminator_from(v, from + 1);
    }
}

/// The end of the link that starts at `start`.
fn link_end(v: &[char], start: usize) -> (r: usize)
    requires
        start < v@.len(),
    ensures
        r as int == link_end_spec(v@, start as int),
        start < r <= v@.len(),
{
    let n = v.len();
    let mut e = start + 1;
    proof {
        lemma_terminator_from(v@, e as int);
    }
    while e < n
        invariant
            start < e <= n == v@.len(),
            terminator_from(v@, start + 1) == terminator_from(v@, e as int),
        decreases n - e,
    {
        if is_link_terminator(v[e]) {
            return e;
        }
        e = e + 1;
    }
    e
}

/// The length of `v[start..end]` once trailing punctuation is removed.
fn trimmed_link_len(v: &[char], start: usize, end: usize) -> (r: usize)
    requires
        start <= end <= v@.len(),
    ensures
        r <= end - start,
        v@.subrange(start as int, start + r) == trim_trailing_punct(
            v@.subrange(start as int, end as int),
        ),
{
    let mut e = end;
    while e > start && is_link_trailing_punct(v[e - 1])
        invariant
            start <= e <= end <= v@.len(),
            trim_trailing_punct(v@.subrange(start as int, end as int)) == trim_trailing_punct(
                v@.subrange(start as int, e as int),
            ),
        decreases e - start,
    {
        assert(v@.subrange(start as int, e as int).drop_last() == v@.subrange(
            start as int,
            e - 1,
        ));
        e = e - 1;
    }
    e - start
}

fn text_node(v: &[char], from: usize, to: usize) -> (r: RoomTimelineRichTextNode)
    requires
        from <= to <= v@.len(),
    ensures
        node_view(r) == NodeView::Text(v@.subrange(from as int, to as int)),
{
    RoomTimelineRichTextNode::Text { text: string_from_range(v, from, to) }
}

fn make_link_node(link: &String) -> (r: RoomTimelineRichTextNode)
    ensures
        node_view(r) == link_node(link@),
{
    let mut attributes = RoomTimelineRichTextAttributes::empty();
    attributes.href = Some(link.clone());
    let mut children: Vec<RoomTimelineRichTextNode> = Vec::new();
    let child = RoomTimelineRichTextNode::Text { text: link.clone() };
    proof {
        lemma_nodes_view_push(children@, child);
    }
    children.push(child);
    let r = RoomTimelineRichTextNode::Element { tag: "a".to_owned(), attributes, children };
    assert(nodes_view(children@) == seq![NodeView::Text(link@)]);
    r
}

/// Linkifies plain text.
fn linkify_chars(v: &[char]) -> (r: Vec<RoomTimelineRichTextNode>)
    ensures
        nodes_view(r@) == linkify_spec(v@),
{
    let mut nodes: Vec<RoomTimelineRichTextNode> = Vec::new();
    let mut cursor: usize = 0;
    loop
        invariant
            cursor <= v@.len(),
            nodes_view(nodes@) + linkify_from(v@, cursor as int) == linkify_spec(v@),
        decreases v@.len() - cursor,
    {
        let ghost nodes0 = nodes@;
        match next_link(v, cursor) {
            None => {
                if cursor < v.len() {
                    let t = text_node(v, cursor, v.len());
                    proof {
                        lemma_nodes_view_push(nodes@, t);
                    }
                    nodes.push(t);
                }
                return nodes;
            },
            Some(start) => {
                assert(start >= cursor) by {
                    lemma_next_link_bounds(v@, cursor as int);
                }
                assert(start < v@.len()) by {
                    lemma_next_link_bounds(v@, cursor as int);
                }
                if start > cursor {
                    let t = text_node(v, cursor, start);
                    proof {
                        lemma_nodes_view_push(nodes@, t);
                    }
                    nodes.push(t);
                }
                let end = link_end(v, start);
                let len = trimmed_link_len(v, start, end);
                if len == 0 {
                    if cursor < v.len() {
                        let t = text_node(v, cursor, v.len());
                        proof {
                            lemma_nodes_view_push(nodes@, t);
                        }
                        nodes.push(t);
                    }
                    return nodes;
                }
                let link = string_from_range(v, start, start + len);
                let n = make_link_node(&link);
                proof {
                    lemma_nodes_view_push(nodes@, n);
                }
                nodes.push(n);
                cursor = start + len;
            },
        }
    }
}

proof fn lemma_next_link_bounds(v: Seq<char>, cursor: int)
    requires
        0 <= cursor,
    ensures
        next_link_spec(v, cursor) matches Some(i) ==> cursor <= i && i < v.len(),
{
    let s = link_schemes();
    reveal_strlit("ftp://");
    reveal_strlit("http://");
    reveal_strlit("https://");
    reveal_strlit("mailto:");
    reveal_strlit("magnet:?");
    lemma_first_occurrence(v, s[0], cursor);
    lemma_first_occurrence(v, s[1], cursor);
    lemma_first_occurrence(v, s[2], cursor);
    lemma_first_occurrence(v, s[3], cursor);
    lemma_first_occurrence(v, s[4], cursor);
}

/// Plain text with its links recognised (`ftp://`, `http://`, `https://`,
/// `mailto:` and `magnet:?`).
pub fn linkify_text(value: &str) -> (r: Vec<RoomTimelineRichTextNode>)
    ensures
        nodes_view(r@) == linkify_spec(value@),
{
    let v = chars_of(value);
    linkify_chars(&v)
}

// ---------------------------------------------------------------------------
// Tags
// ---------------------------------------------------------------------------

/// Attribute name/value pairs of a tag, in the order written.
pub type TagAttributes = Seq<(Seq<char>, Seq<char>)>;

/// The outcome of reading one tag.
pub enum TagParse {
    /// Reading the tag would slice a string inside a multi-byte character.
    Panic,
    /// The tag is malformed.
    Invalid,
    Tag { closing: bool, self_closing: bool, name: Seq<char>, attrs: TagAttributes },
}

pub open spec fn tag_name_char(c: char) -> bool {
    is_ascii_alnum(c) || c == '-'
}

/// Every character of a tag name is an ASCII letter, digit or `-`.
pub open spec fn tag_name_chars(name: Seq<char>) -> bool {
    forall|i: int| 0 <= i < name.len() ==> tag_name_char(#[trigger] name[i])
}

/// The first whitespace position at or after `from`, or the length.
pub open spec fn first_ws_from(v: Seq<char>, from: int) -> int
    decreases v.len() - from,
{
    if from < 0 || from >= v.len() {
        v.len() as int
    } else if is_ws(v[from]) {
        from
    } else {
        first_ws_from(v, from + 1)
    }
}

pub proof fn lemma_first_ws_from(v: Seq<char>, from: int)
    requires
        0 <= from <= v.len(),
    ensures
        from <= first_ws_from(v, from) <= v.len(),
        forall|k: int| from <= k < first_ws_from(v, from) ==> !is_ws(#[trigger] v[k]),
        first_ws_from(v, from) < v.len() ==> is_ws(v[first_ws_from(v, from)]),
    decreases v.len() - from,
{
    if from < v.len() && !is_ws(v[from]) {
        lemma_first_ws_from(v, from + 1);
    }
}

pub proof fn lemma_trim_start_len(s: Seq<char>)
    ensures
        trim_start_seq(s).len() <= s.len(),
        trim_start_seq(s).len() > 0 ==> !is_ws(trim_start_seq(s)[0]),
    decreases s.len(),
{
    if s.len() > 0 && is_ws(s[0]) {
        lemma_trim_start_len(s.drop_first());
    }
}

/// The attributes that follow a tag name.
pub open spec fn parse_attrs_spec(rest: Seq<char>, acc: TagAttributes) -> TagParse
    decreases rest.len(),
{
    if rest.len() == 0 {
        TagParse::Tag { closing: false, self_closing: false, name: Seq::empty(), attrs: acc }
    } else {
        match first_char_index(rest, '=') {
            None => TagParse::Invalid,
            Some(eq) => {
                let key = ascii_lower_seq(trim_seq(rest.take(eq)));
                let after = trim_start_seq(rest.skip(eq + 1));
                if after.len() == 0 || (after[0] != '\'' && after[0] != '"') {
                    TagParse::Invalid
                } else if (rest[0] as u32) >= 128 {
                    TagParse::Panic
                } else {
                    match first_char_from(rest, after[0], 1) {
                        None => TagParse::Invalid,
                        Some(q) => {
                            let value = decode_entities_spec(rest.subrange(1, q));
                            let next = trim_start_seq(rest.skip(q + 1));
                            proof {
                                lemma_trim_start_len(rest.skip(q + 1));
                            }
                            if q < 1 || q >= rest.len() {
                                TagParse::Invalid
                            } else {
                                parse_attrs_spec(next, acc.push((key, value)))
                            }
                        },
                    }
                }
            },
        }
    }
}

/// Reading the text between `<` and `>`.
pub open spec fn parse_tag_spec(raw: Seq<char>) -> TagParse {
    let r1 = trim_seq(raw);
    let closing = r1.len() > 0 && r1[0] == '/';
    let r2 = trim_seq(if closing { r1.drop_first() } else { r1 });
    let self_closing = r2.len() > 0 && r2.last() == '/';
    let r3 = trim_seq(if self_closing { r2.drop_last() } else { r2 });
    let name_end = first_ws_from(r3, 0);
    let name = ascii_lower_seq(r3.take(name_end));
    if name.len() == 0 || !tag_name_chars(name) || (closing && name_end != r3.len()) {
        TagParse::Invalid
    } else {
        match parse_attrs_spec(trim_seq(r3.skip(name_end)), Seq::empty()) {
            TagParse::Tag { attrs, .. } => TagParse::Tag { closing, self_closing, name, attrs },
            other => other,
        }
    }
}

/// The value of the last attribute named `key` (later ones replace earlier).
pub open spec fn attr_lookup(attrs: TagAttributes, key: Seq<char>) -> Option<Seq<char>>
    decreases attrs.len(),
{
    if attrs.len() == 0 {
        None
    } else if attrs.last().0 == key {
        Some(attrs.last().1)
    } else {
        attr_lookup(attrs.drop_last(), key)
    }
}

/// The first whitespace-separated word of `v` that starts with `p`.
pub open spec fn first_word_with_prefix(v: Seq<char>, p: Seq<char>) -> Option<Seq<char>>
    decreases v.len(),
{
    let t = trim_start_seq(v);
    if t.len() == 0 {
        None
    } else {
        let e = first_ws_from(t, 0);
        proof {
            lemma_trim_start_len(v);
            lemma_first_ws_from(t, 0);
        }
        if e < 1 {
            None
        } else if starts_with(t.take(e), p) {
            Some(t.take(e))
        } else {
            first_word_with_prefix(t.skip(e), p)
        }
    }
}

/// `u32::from_str`.
pub open spec fn parse_u32_spec(s: Seq<char>) -> Option<u32> {
    match parse_usize_spec(s) {
        Some(n) => if n <= u32::MAX {
            Some(n as u32)
        } else {
            None
        },
        None => None,
    }
}

pub open spec fn filter_opt(o: Option<Seq<char>>, keep: spec_fn(Seq<char>) -> bool) -> Option<Seq<char>> {
    match o {
        Some(v) => if keep(v) {
            Some(v)
        } else {
            None
        },
        None => None,
    }
}

/// The attributes kept for an element: link targets and image captions
/// only with permitted targets, code languages, list starts, and Matrix
/// colours, spoilers and maths.
pub open spec fn sanitize_spec(tag: Seq<char>, attrs: TagAttributes) -> AttributesView {
    let img_ok = tag == "img"@ && match attr_lookup(attrs, "src"@) {
        Some(v) => permitted_mxc_spec(v),
        None => false,
    };
    AttributesView {
        href: if tag == "a"@ {
            filter_opt(attr_lookup(attrs, "href"@), |v: Seq<char>| permitted_link_spec(v))
        } else {
            None
        },
        target: if tag == "a"@ {
            attr_lookup(attrs, "target"@)
        } else {
            None
        },
        alt: if img_ok {
            attr_lookup(attrs, "alt"@)
        } else {
            None
        },
        title: if img_ok {
            attr_lookup(attrs, "title"@)
        } else {
            None
        },
        language: if tag == "code"@ {
            match attr_lookup(attrs, "class"@) {
                Some(v) => first_word_with_prefix(v, "language-"@),
                None => None,
            }
        } else {
            None
        },
        start: if tag == "ol"@ {
            match attr_lookup(attrs, "start"@) {
                Some(v) => parse_u32_spec(v),
                None => None,
            }
        } else {
            None
        },
        color: if tag == "span"@ {
            filter_opt(attr_lookup(attrs, "data-mx-color"@), |v: Seq<char>| matrix_color_spec(v))
        } else {
            None
        },
        background_color: if tag == "span"@ {
            filter_opt(
                attr_lookup(attrs, "data-mx-bg-color"@),
                |v: Seq<char>| matrix_color_spec(v),
            )
        } else {
            None
        },
        spoiler: if tag == "span"@ {
            attr_lookup(attrs, "data-mx-spoiler"@)
        } else {
            None
        },
        maths: if tag == "div"@ || tag == "span"@ {
            attr_lookup(attrs, "data-mx-maths"@)
        } else {
            None
        },
    }
}

// ---------------------------------------------------------------------------
// Executable tag reading
// ---------------------------------------------------------------------------

type ExecAttributes = Vec<(Vec<char>, Vec<char>)>;

pub open spec fn attrs_view(a: Seq<(Vec<char>, Vec<char>)>) -> TagAttributes {
    a.map_values(|p: (Vec<char>, Vec<char>)| (p.0@, p.1@))
}

enum TagRead {
    Panic,
    Invalid,
    Tag { closing: bool, self_closing: bool, name: Vec<char>, attrs: ExecAttributes },
}

spec fn tag_read_view(t: TagRead) -> TagParse {
    match t {
        TagRead::Panic => TagParse::Panic,
        TagRead::Invalid => TagParse::Invalid,
        TagRead::Tag { closing, self_closing, name, attrs } => TagParse::Tag {
            closing,
            self_closing,
            name: name@,
            attrs: attrs_view(attrs@),
        },
    }
}

/// `v[from..]` with leading whitespace removed.
fn trim_start_from(v: &[char], from: usize) -> (r: Vec<char>)
    requires
        from <= v@.len(),
    ensures
        r@ == trim_start_seq(v@.skip(from as int)),
{
    let tail = subvec(v, from, v.len());
    assert(tail@ == v@.skip(from as int));
    let (a, _b) = trim_bounds(&tail);
    subvec(&tail, a, tail.len())
}

/// The first whitespace position at or after `from`, or the length.
fn find_ws_from(v: &[char], from: usize) -> (r: usize)
    requires
        from <= v@.len(),
    ensures
        r as int == first_ws_from(v@, from as int),
{
    let mut i = from;
    while i < v.len()
        invariant
            from <= i <= v@.len(),
            first_ws_from(v@, from as int) == first_ws_from(v@, i as int),
        decreases v.len() - i,
    {
        if is_whitespace(v[i]) {
            return i;
        }
        i = i + 1;
    }
    i
}

fn all_tag_name_chars(v: &[char]) -> (r: bool)
    ensures
        r == tag_name_chars(v@),
{
    let mut i: usize = 0;
    while i < v.len()
        invariant
            i <= v@.len(),
            forall|k: int| 0 <= k < i ==> tag_name_char(#[trigger] v@[k]),
        decreases v.len() - i,
    {
        if !(is_alnum_ascii(v[i]) || v[i] == '-') {
            return false;
        }
        i = i + 1;
    }
    true
}

/// Reads the attributes that follow a tag name.
fn parse_attrs(rest0: Vec<char>) -> (r: TagRead)
    ensures
        tag_read_view(r) == parse_attrs_spec(rest0@, Seq::empty()),
{
    let mut rest = rest0;
    let mut acc: ExecAttributes = Vec::new();
    assert(attrs_view(acc@) == Seq::<(Seq<char>, Seq<char>)>::empty());
    loop
        invariant
            parse_attrs_spec(rest0@, Seq::empty()) == parse_attrs_spec(rest@, attrs_view(acc@)),
        decreases rest@.len(),
    {
        if rest.len() == 0 {
            return TagRead::Tag { closing: false, self_closing: false, name: Vec::new(), attrs: acc };
        }
        let eq = match find_char(&rest, '=') {
            None => {
                return TagRead::Invalid;
            },
            Some(eq) => eq,
        };
        let key_raw = subvec(&rest, 0, eq);
        assert(key_raw@ == rest@.take(eq as int));
        let key = lower_ascii(&trim_chars(&key_raw));
        let after = trim_start_from(&rest, eq + 1);
        if after.len() == 0 || (after[0] != '\'' && after[0] != '"') {
            return TagRead::Invalid;
        }
        if (rest[0] as u32) >= 128 {
            return TagRead::Panic;
        }
        let quote = after[0];
        let q = match find_char_from(&rest, quote, 1) {
            None => {
                return TagRead::Invalid;
            },
            Some(q) => q,
        };
        let value = decode_entities(&subvec(&rest, 1, q));
        let next = trim_start_from(&rest, q + 1);
        proof {
            lemma_trim_start_len(rest@.skip(q + 1));
            assert(attrs_view(acc@.push((key, value))) == attrs_view(acc@).push((key@, value@)));
        }
        acc.push((key, value));
        rest = next;
    }
}

/// Reads the text between `<` and `>`.
fn parse_tag(raw: &[char]) -> (r: TagRead)
    ensures
        tag_read_view(r) == parse_tag_spec(raw@),
{
    let r1 = trim_chars(raw);
    let closing = r1.len() > 0 && r1[0] == '/';
    let r1b = if closing { subvec(&r1, 1, r1.len()) } else { subvec(&r1, 0, r1.len()) };
    assert(r1b@ == (if closing { r1@.drop_first() } else { r1@ }));
    let r2 = trim_chars(&r1b);
    let self_closing = r2.len() > 0 && r2[r2.len() - 1] == '/';
    let r2b = if self_closing { subvec(&r2, 0, r2.len() - 1) } else { subvec(&r2, 0, r2.len()) };
    assert(r2b@ == (if self_closing { r2@.drop_last() } else { r2@ }));
    let r3 = trim_chars(&r2b);
    let name_end = find_ws_from(&r3, 0);
    proof {
        lemma_first_ws_from(r3@, 0);
    }
    let name_raw = subvec(&r3, 0, name_end);
    let name = lower_ascii(&name_raw);
    assert(name_raw@ == r3@.take(name_end as int));
    assert(name@.len() == name_raw@.len());
    assert(name@ == ascii_lower_seq(r3@.take(name_end as int)));
    if name.len() == 0 {
        return TagRead::Invalid;
    }
    if !all_tag_name_chars(&name) {
        return TagRead::Invalid;
    }
    if closing && name_end != r3.len() {
        return TagRead::Invalid;
    }
    let rest = trim_chars(&subvec(&r3, name_end, r3.len()));
    assert(r3@.subrange(name_end as int, r3@.len() as int) == r3@.skip(name_end as int));
    match parse_attrs(rest) {
        TagRead::Tag { attrs, .. } => TagRead::Tag { closing, self_closing, name, attrs },
        TagRead::Panic => TagRead::Panic,
        TagRead::Invalid => TagRead::Invalid,
    }
}

/// The characters equal those of the literal.
fn chars_are(v: &[char], lit: &str) -> (r: bool)
    ensures
        r == (v@ == lit@),
{
    let w = chars_of(lit);
    if v.len() != w.len() {
        assert(v@.len() != w@.len());
        return false;
    }
    let mut i: usize = 0;
    while i < v.len()
        invariant
            i <= v@.len() == w@.len(),
            w@ == lit@,
            forall|k: int| 0 <= k < i ==> v@[k] == w@[k],
        decreases v.len() - i,
    {
        if v[i] != w[i] {
            assert(v@[i as int] != w@[i as int]);
            return false;
        }
        i = i + 1;
    }
    assert(v@ == w@);
    true
}

/// The value of the last attribute named `key`.
fn lookup(attrs: &ExecAttributes, key: &str) -> (r: Option<Vec<char>>)
    ensures
        (match r {
            Some(v) => Some(v@),
            None => None::<Seq<char>>,
        }) == attr_lookup(attrs_view(attrs@), key@),
{
    let mut i = attrs.len();
    assert(attrs@.take(attrs@.len() as int) == attrs@);
    while i > 0
        invariant
            i <= attrs@.len(),
            attr_lookup(attrs_view(attrs@), key@) == attr_lookup(
                attrs_view(attrs@.take(i as int)),
                key@,
            ),
        decreases i,
    {
        let ghost prefix = attrs_view(attrs@.take(i as int));
        assert(prefix.last() == (attrs@[i - 1].0@, attrs@[i - 1].1@));
        assert(prefix.drop_last() == attrs_view(attrs@.take(i - 1)));
        if chars_are(&attrs[i - 1].0, key) {
            return Some(subvec(&attrs[i - 1].1, 0, attrs[i - 1].1.len()));
        }
        i = i - 1;
    }
    None
}

fn opt_string(o: Option<Vec<char>>) -> (r: Option<String>)
    ensures
        opt_view(r) == (match o {
            Some(v) => Some(v@),
            None => None::<Seq<char>>,
        }),
{
    match o {
        Some(v) => Some(string_from_chars(&v)),
        None => None,
    }
}

/// The first whitespace-separated word of `v` that starts with `p`.
fn word_with_prefix(v: &[char], p: &[char]) -> (r: Option<Vec<char>>)
    ensures
        (match r {
            Some(w) => Some(w@),
            None => None::<Seq<char>>,
        }) == first_word_with_prefix(v@, p@),
{
    let mut rest = subvec(v, 0, v.len());
    assert(rest@ == v@);
    loop
        invariant
            first_word_with_prefix(v@, p@) == first_word_with_prefix(rest@, p@),
        decreases rest@.len(),
    {
        let t = trim_start_from(&rest, 0);
        assert(rest@.skip(0) == rest@);
        if t.len() == 0 {
            return None;
        }
        let e = find_ws_from(&t, 0);
        proof {
            lemma_trim_start_len(rest@);
            lemma_first_ws_from(t@, 0);
        }
        if e < 1 {
            return None;
        }
        let word = subvec(&t, 0, e);
        assert(word@ == t@.take(e as int));
        if starts_with_chars(&word, p) {
            return Some(word);
        }
        let next = subvec(&t, e, t.len());
        assert(next@ == t@.skip(e as int));
        rest = next;
    }
}

/// `u32::from_str` on characters.
fn parse_u32(v: &[char]) -> (r: Option<u32>)
    ensures
        r == parse_u32_spec(v@),
{
    match parse_usize(v) {
        Some(n) => if n <= 0xffff_ffff {
            Some(n as u32)
        } else {
            None
        },
        None => None,
    }
}

/// The attributes kept for an element.
fn sanitize_attributes(tag: &[char], values: &ExecAttributes) -> (r: RoomTimelineRichTextAttributes)
    ensures
        r.view() == sanitize_spec(tag@, attrs_view(values@)),
{
    let mut attributes = RoomTimelineRichTextAttributes::empty();
    if chars_are(tag, "a") {
        attributes.href = match lookup(values, "href") {
            Some(v) => if permitted_link(&v) {
                Some(string_from_chars(&v))
            } else {
                None
            },
            None => None,
        };
        attributes.target = opt_string(lookup(values, "target"));
    }
    let img_ok = chars_are(tag, "img") && match lookup(values, "src") {
        Some(v) => permitted_mxc(&v),
        None => false,
    };
    if img_ok {
        attributes.alt = opt_string(lookup(values, "alt"));
        attributes.title = opt_string(lookup(values, "title"));
    }
    if chars_are(tag, "code") {
        attributes.language = match lookup(values, "class") {
            Some(v) => opt_string(word_with_prefix(&v, &chars_of("language-"))),
            None => None,
        };
    }
    if chars_are(tag, "ol") {
        attributes.start = match lookup(values, "start") {
            Some(v) => parse_u32(&v),
            None => None,
        };
    }
    if chars_are(tag, "span") {
        attributes.color = match lookup(values, "data-mx-color") {
            Some(v) => if matrix_color(&v) {
                Some(string_from_chars(&v))
            } else {
                None
            },
            None => None,
        };
        attributes.background_color = match lookup(values, "data-mx-bg-color") {
            Some(v) => if matrix_color(&v) {
                Some(string_from_chars(&v))
            } else {
                None
            },
            None => None,
        };
        attributes.spoiler = opt_string(lookup(values, "data-mx-spoiler"));
        attributes.maths = opt_string(lookup(values, "data-mx-maths"));
    }
    if chars_are(tag, "div") {
        attributes.maths = opt_string(lookup(values, "data-mx-maths"));
    }
    attributes
}

// ---------------------------------------------------------------------------
// The HTML reader
// ---------------------------------------------------------------------------

/// Nesting deeper than this is rejected.
pub const MAX_NESTING: usize = 100;

/// The tags that become elements.
pub open spec fn is_supported_tag(n: Seq<char>) -> bool {
    ||| n == "a"@ ||| n == "b"@ ||| n == "blockquote"@ ||| n == "br"@ ||| n == "caption"@
    ||| n == "code"@ ||| n == "del"@ ||| n == "details"@ ||| n == "div"@ ||| n == "em"@
    ||| n == "h1"@ ||| n == "h2"@ ||| n == "h3"@ ||| n == "h4"@ ||| n == "h5"@ ||| n == "h6"@
    ||| n == "hr"@ ||| n == "img"@ ||| n == "i"@ ||| n == "li"@ ||| n == "ol"@ ||| n == "p"@
    ||| n == "pre"@ ||| n == "s"@ ||| n == "span"@ ||| n == "strong"@ ||| n == "sub"@
    ||| n == "summary"@ ||| n == "sup"@ ||| n == "table"@ ||| n == "tbody"@ ||| n == "td"@
    ||| n == "th"@ ||| n == "thead"@ ||| n == "tr"@ ||| n == "u"@ ||| n == "ul"@
}

/// The tags that never have children.
pub open spec fn is_void_tag(n: Seq<char>) -> bool {
    n == "br"@ || n == "hr"@ || n == "img"@
}

/// The tags whose whole content is dropped.
pub open spec fn is_discarded_tag(n: Seq<char>) -> bool {
    n == "mx-reply"@ || n == "script"@ || n == "style"@
}

/// An element being read: its name, its kept attributes and the children
/// read so far.
pub type FrameView = (Seq<char>, AttributesView, Seq<NodeView>);

/// What the reader holds between two tags.
pub struct HtmlState {
    pub roots: Seq<NodeView>,
    pub stack: Seq<FrameView>,
    pub suppressed: Seq<Seq<char>>,
}

/// How reading a formatted body ends.
pub enum HtmlOutcome {
    /// Reading would slice a string inside a multi-byte character.
    Panic,
    /// The body is not acceptable HTML; the plain body is used instead.
    Rejected,
    Parsed(Seq<NodeView>),
}

/// A node goes to the innermost open element, or to the top level.
pub open spec fn append_node_spec(st: HtmlState, n: NodeView) -> HtmlState {
    if st.stack.len() > 0 {
        let top = st.stack.last();
        HtmlState {
            stack: st.stack.update(st.stack.len() - 1, (top.0, top.1, top.2.push(n))),
            ..st
        }
    } else {
        HtmlState { roots: st.roots.push(n), ..st }
    }
}

pub open spec fn append_nodes_spec(st: HtmlState, ns: Seq<NodeView>) -> HtmlState
    decreases ns.len(),
{
    if ns.len() == 0 {
        st
    } else {
        append_node_spec(append_nodes_spec(st, ns.drop_last()), ns.last())
    }
}

/// Some open element is a link.
pub open spec fn inside_anchor(stack: Seq<FrameView>) -> bool {
    exists|i: int| 0 <= i < stack.len() && (#[trigger] stack[i]).0 == "a"@
}

/// Text between tags: dropped inside discarded content, kept as one text
/// node inside a link, and linkified elsewhere; entities are decoded.
pub open spec fn append_text_spec(st: HtmlState, value: Seq<char>) -> HtmlState {
    if st.suppressed.len() > 0 {
        st
    } else if inside_anchor(st.stack) {
        append_node_spec(st, NodeView::Text(decode_entities_spec(value)))
    } else {
        append_nodes_spec(st, linkify_spec(decode_entities_spec(value)))
    }
}

/// The effect of one tag on the reader; `None` rejects the body.
pub open spec fn html_tag_step(
    st: HtmlState,
    closing: bool,
    self_closing: bool,
    name: Seq<char>,
    attrs: TagAttributes,
) -> Option<HtmlState> {
    if st.suppressed.len() > 0 {
        if closing && st.suppressed.last() == name {
            Some(HtmlState { suppressed: st.suppressed.drop_last(), ..st })
        } else if !closing && !self_closing && is_discarded_tag(name) {
            Some(HtmlState { suppressed: st.suppressed.push(name), ..st })
        } else {
            Some(st)
        }
    } else if is_discarded_tag(name) {
        if self_closing {
            None
        } else if !closing {
            Some(HtmlState { suppressed: st.suppressed.push(name), ..st })
        } else {
            Some(st)
        }
    } else if !is_supported_tag(name) {
        Some(st)
    } else if closing {
        if st.stack.len() == 0 {
            None
        } else {
            let top = st.stack.last();
            if top.0 != name {
                None
            } else {
                Some(
                    append_node_spec(
                        HtmlState { stack: st.stack.drop_last(), ..st },
                        NodeView::Element(name, top.1, top.2),
                    ),
                )
            }
        }
    } else {
        let kept = sanitize_spec(name, attrs);
        if is_void_tag(name) {
            Some(append_node_spec(st, NodeView::Element(name, kept, Seq::empty())))
        } else if self_closing || st.stack.len() >= MAX_NESTING {
            None
        } else {
            Some(HtmlState { stack: st.stack.push((name, kept, Seq::empty())), ..st })
        }
    }
}

/// The end of the body: accepted only with every element closed and no
/// discarded content left open.
pub open spec fn html_finish(st: HtmlState) -> HtmlOutcome {
    if st.stack.len() == 0 && st.suppressed.len() == 0 {
        HtmlOutcome::Parsed(st.roots)
    } else {
        HtmlOutcome::Rejected
    }
}

/// Reading `src` from `index` on, with the reader in state `st`.
pub open spec fn html_run(src: Seq<char>, index: int, st: HtmlState) -> HtmlOutcome
    decreases src.len() - index,
{
    if index < 0 || index >= src.len() {
        html_finish(st)
    } else {
        match first_char_from(src, '<', index) {
            None => html_finish(append_text_spec(st, src.skip(index))),
            Some(start) => {
                let st1 = append_text_spec(st, src.subrange(index, start));
                match first_char_from(src, '>', start) {
                    None => HtmlOutcome::Rejected,
                    Some(end) => if end < index || start < index || end < start || end >= src.len() {
                        HtmlOutcome::Rejected
                    } else {
                        match parse_tag_spec(src.subrange(start + 1, end)) {
                            TagParse::Panic => HtmlOutcome::Panic,
                            TagParse::Invalid => HtmlOutcome::Rejected,
                            TagParse::Tag { closing, self_closing, name, attrs } => match html_tag_step(
                                st1,
                                closing,
                                self_closing,
                                name,
                                attrs,
                            ) {
                                None => HtmlOutcome::Rejected,
                                Some(st2) => html_run(src, end + 1, st2),
                            },
                        }
                    },
                }
            },
        }
    }
}

pub open spec fn empty_html_state() -> HtmlState {
    HtmlState { roots: Seq::empty(), stack: Seq::empty(), suppressed: Seq::empty() }
}

/// Reading a whole formatted body.
pub open spec fn html_outcome(src: Seq<char>) -> HtmlOutcome {
    html_run(src, 0, empty_html_state())
}

// Executable reader state.

type Frame = (Vec<char>, RoomTimelineRichTextAttributes, Vec<RoomTimelineRichTextNode>);

struct ReaderState {
    roots: Vec<RoomTimelineRichTextNode>,
    stack: Vec<Frame>,
    suppressed: Vec<Vec<char>>,
}

spec fn frame_view(f: Frame) -> FrameView {
    (f.0@, f.1.view(), nodes_view(f.2@))
}

spec fn stack_view(s: Seq<Frame>) -> Seq<FrameView> {
    s.map_values(|f: Frame| frame_view(f))
}

spec fn suppressed_view(s: Seq<Vec<char>>) -> Seq<Seq<char>> {
    s.map_values(|v: Vec<char>| v@)
}

impl ReaderState {
    spec fn view(&self) -> HtmlState {
        HtmlState {
            roots: nodes_view(self.roots@),
            stack: stack_view(self.stack@),
            suppressed: suppressed_view(self.suppressed@),
        }
    }
}

fn append_node(st: &mut ReaderState, node: RoomTimelineRichTextNode)
    ensures
        final(st).view() == append_node_spec(old(st).view(), node_view(node)),
{
    let ghost old_view = st.view();
    if st.stack.len() > 0 {
        let mut top = st.stack.pop().unwrap();
        let ghost top0 = top;
        proof {
            lemma_nodes_view_push(top.2@, node);
        }
        top.2.push(node);
        st.stack.push(top);
        proof {
            let sv = stack_view(st.stack@);
            let expected = old_view.stack.update(old_view.stack.len() - 1, (
                top0.0@,
                top0.1.view(),
                nodes_view(top0.2@).push(node_view(node)),
            ));
            assert(sv =~= expected);
        }
    } else {
        proof {
            lemma_nodes_view_push(st.roots@, node);
        }
        st.roots.push(node);
    }
}

/// Some open element is a link.
fn stack_has_anchor(stack: &Vec<Frame>) -> (r: bool)
    ensures
        r == inside_anchor(stack_view(stack@)),
{
    let mut i: usize = 0;
    while i < stack.len()
        invariant
            i <= stack@.len(),
            forall|k: int| 0 <= k < i ==> stack@[k].0@ != "a"@,
        decreases stack.len() - i,
    {
        if chars_are(&stack[i].0, "a") {
            assert(stack_view(stack@)[i as int].0 == "a"@);
            return true;
        }
        i = i + 1;
    }
    assert forall|k: int| 0 <= k < stack_view(stack@).len() implies (#[trigger] stack_view(
        stack@,
    )[k]).0 != "a"@ by {
        assert(stack_view(stack@)[k].0 == stack@[k].0@);
    }
    false
}

fn append_text(st: &mut ReaderState, value: &[char])
    ensures
        final(st).view() == append_text_spec(old(st).view(), value@),
{
    if st.suppressed.len() > 0 {
        return;
    }
    let decoded = decode_entities(value);
    if stack_has_anchor(&st.stack) {
        append_node(st, RoomTimelineRichTextNode::Text { text: string_from_chars(&decoded) });
        return;
    }
    let mut nodes = linkify_chars(&decoded);
    let ghost all = nodes_view(nodes@);
    let ghost st0 = st.view();
    proof {
        lemma_nodes_view_len(nodes@);
    }
    let mut k: usize = 0;
    let total = nodes.len();
    assert(all.len() == total);
    assert(all.take(0) == Seq::<NodeView>::empty());
    assert(all.skip(0) == all);
    while nodes.len() > 0
        invariant
            all.len() == k + nodes@.len(),
            all.len() <= usize::MAX,
            nodes_view(nodes@) == all.skip(k as int),
            st.view() == append_nodes_spec(st0, all.take(k as int)),
        decreases nodes@.len(),
    {
        let ghost before = nodes@;
        let n = nodes.remove(0);
        proof {
            lemma_nodes_view_len(before);
            lemma_nodes_view_first(before);
            assert(n == before[0]);
            assert(nodes@ == before.drop_first());
            assert(all.skip(k as int)[0] == all[k as int]);
            assert(node_view(n) == all[k as int]);
            assert(all.skip(k + 1) == all.skip(k as int).drop_first());
            assert(all.take(k + 1).drop_last() == all.take(k as int));
        }
        append_node(st, n);
        k = k + 1;
    }
    assert(all.take(k as int) == all);
}

proof fn lemma_nodes_view_first(ns: Seq<RoomTimelineRichTextNode>)
    requires
        ns.len() > 0,
    ensures
        nodes_view(ns) == seq![node_view(ns[0])] + nodes_view(ns.drop_first()),
    decreases ns.len(),
{
    if ns.len() == 1 {
        assert(ns.drop_last() == Seq::<RoomTimelineRichTextNode>::empty());
        assert(ns.drop_first() == Seq::<RoomTimelineRichTextNode>::empty());
    } else {
        lemma_nodes_view_first(ns.drop_last());
        assert(ns.drop_last().drop_first() == ns.drop_first().drop_last());
        assert(ns.drop_first().last() == ns.last());
    }
}

fn is_supported_tag_exec(n: &[char]) -> (r: bool)
    ensures
        r == is_supported_tag(n@),
{
    chars_are(n, "a") || chars_are(n, "b") || chars_are(n, "blockquote") || chars_are(n, "br")
        || chars_are(n, "caption") || chars_are(n, "code") || chars_are(n, "del") || chars_are(
        n,
        "details",
    ) || chars_are(n, "div") || chars_are(n, "em") || chars_are(n, "h1") || chars_are(n, "h2")
        || chars_are(n, "h3") || chars_are(n, "h4") || chars_are(n, "h5") || chars_are(n, "h6")
        || chars_are(n, "hr") || chars_are(n, "img") || chars_are(n, "i") || chars_are(n, "li")
        || chars_are(n, "ol") || chars_are(n, "p") || chars_are(n, "pre") || chars_are(n, "s")
        || chars_are(n, "span") || chars_are(n, "strong") || chars_are(n, "sub") || chars_are(
        n,
        "summary",
    ) || chars_are(n, "sup") || chars_are(n, "table") || chars_are(n, "tbody") || chars_are(
        n,
        "td",
    ) || chars_are(n, "th") || chars_are(n, "thead") || chars_are(n, "tr") || chars_are(n, "u")
        || chars_are(n, "ul")
}

fn is_void_tag_exec(n: &[char]) -> (r: bool)
    ensures
        r == is_void_tag(n@),
{
    chars_are(n, "br") || chars_are(n, "hr") || chars_are(n, "img")
}

fn is_discarded_tag_exec(n: &[char]) -> (r: bool)
    ensures
        r == is_discarded_tag(n@),
{
    chars_are(n, "mx-reply") || chars_are(n, "script") || chars_are(n, "style")
}

fn same_chars(a: &[char], b: &[char]) -> (r: bool)
    ensures
        r == (a@ == b@),
{
    if a.len() != b.len() {
        assert(a@.len() != b@.len());
        return false;
    }
    let mut i: usize = 0;
    while i < a.len()
        invariant
            i <= a@.len() == b@.len(),
            forall|k: int| 0 <= k < i ==> a@[k] == b@[k],
        decreases a.len() - i,
    {
        if a[i] != b[i] {
            assert(a@[i as int] != b@[i as int]);
            return false;
        }
        i = i + 1;
    }
    assert(a@ == b@);
    true
}

/// Applies one tag; `false` rejects the body.
fn tag_step(
    st: &mut ReaderState,
    closing: bool,
    self_closing: bool,
    name: Vec<char>,
    attrs: &ExecAttributes,
) -> (r: bool)
    ensures
        r == html_tag_step(old(st).view(), closing, self_closing, name@, attrs_view(attrs@)) is Some,
        r ==> Some(final(st).view()) == html_tag_step(
            old(st).view(),
            closing,
            self_closing,
            name@,
            attrs_view(attrs@),
        ),
{
    let ghost v0 = st.view();
    if st.suppressed.len() > 0 {
        let last = st.suppressed.len() - 1;
        if closing && same_chars(&st.suppressed[last], &name) {
            st.suppressed.pop();
            assert(suppressed_view(st.suppressed@) =~= v0.suppressed.drop_last());
        } else if !closing && !self_closing && is_discarded_tag_exec(&name) {
            st.suppressed.push(name);
            assert(suppressed_view(st.suppressed@) =~= v0.suppressed.push(name@));
        }
        return true;
    }
    if is_discarded_tag_exec(&name) {
        if self_closing {
            return false;
        }
        if !closing {
            st.suppressed.push(name);
            assert(suppressed_view(st.suppressed@) =~= v0.suppressed.push(name@));
        }
        return true;
    }
    if !is_supported_tag_exec(&name) {
        return true;
    }
    if closing {
        if st.stack.len() == 0 {
            return false;
        }
        let (open_name, open_attributes, children) = st.stack.pop().unwrap();
        proof {
            assert(stack_view(st.stack@) =~= v0.stack.drop_last());
        }
        if !same_chars(&open_name, &name) {
            return false;
        }
        append_node(
            st,
            RoomTimelineRichTextNode::Element {
                tag: string_from_chars(&name),
                attributes: open_attributes,
                children,
            },
        );
        return true;
    }
    let kept = sanitize_attributes(&name, attrs);
    if is_void_tag_exec(&name) {
        let children: Vec<RoomTimelineRichTextNode> = Vec::new();
        assert(nodes_view(children@) == Seq::<NodeView>::empty());
        append_node(
            st,
            RoomTimelineRichTextNode::Element { tag: string_from_chars(&name), attributes: kept, children },
        );
        return true;
    }
    if self_closing || st.stack.len() >= MAX_NESTING {
        return false;
    }
    let children: Vec<RoomTimelineRichTextNode> = Vec::new();
    assert(nodes_view(children@) == Seq::<NodeView>::empty());
    st.stack.push((name, kept, children));
    assert(stack_view(st.stack@) =~= v0.stack.push((name@, kept.view(), Seq::empty())));
    true
}

/// Reads a formatted body; `Err` where the reading would slice a string
/// inside a multi-byte character.
fn parse_matrix_html(src: &[char]) -> (r: Result<Option<Vec<RoomTimelineRichTextNode>>, ()>)
    ensures
        match r {
            Err(_) => html_outcome(src@) == HtmlOutcome::Panic,
            Ok(None) => html_outcome(src@) == HtmlOutcome::Rejected,
            Ok(Some(nodes)) => html_outcome(src@) == HtmlOutcome::Parsed(nodes_view(nodes@)),
        },
{
    let mut st = ReaderState { roots: Vec::new(), stack: Vec::new(), suppressed: Vec::new() };
    assert(st.view().roots == Seq::<NodeView>::empty());
    assert(st.view().stack =~= Seq::<FrameView>::empty());
    assert(st.view().suppressed =~= Seq::<Seq<char>>::empty());
    assert(st.view() == empty_html_state());
    let mut index: usize = 0;
    while index < src.len()
        invariant
            index <= src@.len(),
            html_outcome(src@) == html_run(src@, index as int, st.view()),
        decreases src@.len() - index,
    {
        let start = match find_char_from(src, '<', index) {
            None => {
                let rest = subvec(src, index, src.len());
                assert(rest@ == src@.skip(index as int));
                append_text(&mut st, &rest);
                return Ok(finish(st));
            },
            Some(start) => start,
        };
        let text = subvec(src, index, start);
        append_text(&mut st, &text);
        let end = match find_char_from(src, '>', start) {
            None => {
                return Ok(None);
            },
            Some(end) => end,
        };
        let raw = subvec(src, start + 1, end);
        match parse_tag(&raw) {
            TagRead::Panic => {
                return Err(());
            },
            TagRead::Invalid => {
                return Ok(None);
            },
            TagRead::Tag { closing, self_closing, name, attrs } => {
                if !tag_step(&mut st, closing, self_closing, name, &attrs) {
                    return Ok(None);
                }
            },
        }
        index = end + 1;
    }
    Ok(finish(st))
}

/// The end of the body.
fn finish(st: ReaderState) -> (r: Option<Vec<RoomTimelineRichTextNode>>)
    ensures
        match r {
            None => html_finish(st.view()) == HtmlOutcome::Rejected,
            Some(nodes) => html_finish(st.view()) == HtmlOutcome::Parsed(nodes_view(nodes@)),
        },
{
    if st.stack.len() == 0 && st.suppressed.len() == 0 {
        Some(st.roots)
    } else {
        None
    }
}

// ---------------------------------------------------------------------------
// Projection
// ---------------------------------------------------------------------------

/// The `format` of Matrix HTML bodies.
pub open spec fn matrix_html_format() -> Seq<char> {
    "org.matrix.custom.html"@
}

pub open spec fn opt_str_view(o: Option<&str>) -> Option<Seq<char>> {
    match o {
        Some(s) => Some(s@),
        None => None,
    }
}

/// The formatted body that is read as HTML: present, not blank, and in the
/// Matrix HTML format.
pub open spec fn html_candidate(
    formatted_body: Option<Seq<char>>,
    formatted_body_format: Option<Seq<char>>,
) -> Option<Seq<char>> {
    if formatted_body_format == Some(matrix_html_format()) {
        match formatted_body {
            Some(f) => if trim_seq(f).len() > 0 {
                Some(f)
            } else {
                None
            },
            None => None,
        }
    } else {
        None
    }
}

/// The nodes a message projects to: its formatted body read as HTML when
/// that succeeds, and otherwise its plain body with links recognised.
/// `None` where reading the formatted body would slice a string inside a
/// multi-byte character.
pub open spec fn rich_text_projection(
    body: Seq<char>,
    formatted_body: Option<Seq<char>>,
    formatted_body_format: Option<Seq<char>>,
) -> Option<Seq<NodeView>> {
    match html_candidate(formatted_body, formatted_body_format) {
        Some(f) => match html_outcome(f) {
            HtmlOutcome::Panic => None,
            HtmlOutcome::Parsed(nodes) => Some(nodes),
            HtmlOutcome::Rejected => Some(linkify_spec(body)),
        },
        None => Some(linkify_spec(body)),
    }
}

fn html_candidate_exec(formatted_body: Option<&str>, formatted_body_format: Option<&str>) -> (r:
    Option<Vec<char>>)
    ensures
        (match r {
            Some(v) => Some(v@),
            None => None::<Seq<char>>,
        }) == html_candidate(opt_str_view(formatted_body), opt_str_view(formatted_body_format)),
{
    let is_html = match formatted_body_format {
        Some(format) => str_eq(format, "org.matrix.custom.html"),
        None => false,
    };
    if !is_html {
        return None;
    }
    match formatted_body {
        Some(f) => {
            if is_blank(f) {
                None
            } else {
                Some(chars_of(f))
            }
        },
        None => None,
    }
}

/// Whether projecting this message is defined: `false` exactly where
/// reading its formatted body would slice a string inside a multi-byte
/// character (an attribute list that starts with such a character).
pub fn rich_text_projection_defined(
    body: &str,
    formatted_body: Option<&str>,
    formatted_body_format: Option<&str>,
) -> (r: bool)
    ensures
        r == rich_text_projection(
            body@,
            opt_str_view(formatted_body),
            opt_str_view(formatted_body_format),
        ) is Some,
{
    match html_candidate_exec(formatted_body, formatted_body_format) {
        Some(f) => match parse_matrix_html(&f) {
            Err(_) => false,
            Ok(_) => true,
        },
        None => true,
    }
}

/// Converts untrusted Matrix content into a constrained timeline node tree.
pub fn project_timeline_rich_text(
    body: &str,
    formatted_body: Option<&str>,
    formatted_body_format: Option<&str>,
) -> (r: Vec<RoomTimelineRichTextNode>)
    requires
        rich_text_projection(
            body@,
            opt_str_view(formatted_body),
            opt_str_view(formatted_body_format),
        ) is Some,
    ensures
        Some(nodes_view(r@)) == rich_text_projection(
            body@,
            opt_str_view(formatted_body),
            opt_str_view(formatted_body_format),
        ),
{
    if let Some(f) = html_candidate_exec(formatted_body, formatted_body_format) {
        match parse_matrix_html(&f) {
            Ok(Some(nodes)) => {
                return nodes;
            },
            _ => {},
        }
    }
    linkify_text(body)
}


// ---------------------------------------------------------------------------
// What every projection keeps to
// ---------------------------------------------------------------------------

/// An element's own constraints: a supported tag; colours only as Matrix
/// colours; a link target only on a link, and there either a permitted
/// link or the very text the link shows.
pub open spec fn element_constrained(tag: Seq<char>, a: AttributesView, children: Seq<NodeView>) -> bool {
    &&& is_supported_tag(tag)
    &&& (a.color matches Some(c) ==> matrix_color_spec(c))
    &&& (a.background_color matches Some(c) ==> matrix_color_spec(c))
    &&& (a.href matches Some(h) ==> tag == "a"@ && (permitted_link_spec(h) || children == seq![NodeView::Text(h)]))
}

/// A node and everything below it keep to the constraints.
pub open spec fn node_constrained(n: NodeView) -> bool
    decreases n, 0nat,
{
    match n {
        NodeView::Text(_) => true,
        NodeView::Element(tag, a, children) => element_constrained(tag, a, children) && nodes_constrained(
            children,
        ),
    }
}

/// Every node of a sequence keeps to the constraints.
pub open spec fn nodes_constrained(ns: Seq<NodeView>) -> bool
    decreases ns, ns.len(),
{
    if ns.len() == 0 {
        true
    } else {
        nodes_constrained(ns.drop_last()) && node_constrained(ns.last())
    }
}

proof fn lemma_nodes_constrained_all(ns: Seq<NodeView>)
    ensures
        nodes_constrained(ns) <==> forall|i: int| 0 <= i < ns.len() ==> node_constrained(#[trigger] ns[i]),
    decreases ns.len(),
{
    if ns.len() > 0 {
        lemma_nodes_constrained_all(ns.drop_last());
        assert forall|i: int| 0 <= i < ns.len() - 1 implies #[trigger] ns[i] == ns.drop_last()[i] by {}
    }
}

proof fn lemma_nodes_constrained_push(ns: Seq<NodeView>, n: NodeView)
    ensures
        nodes_constrained(ns.push(n)) == (nodes_constrained(ns) && node_constrained(n)),
{
    assert(ns.push(n).drop_last() == ns);
}

proof fn lemma_nodes_constrained_concat(a: Seq<NodeView>, b: Seq<NodeView>)
    requires
        nodes_constrained(a),
        nodes_constrained(b),
    ensures
        nodes_constrained(a + b),
{
    lemma_nodes_constrained_all(a);
    lemma_nodes_constrained_all(b);
    lemma_nodes_constrained_all(a + b);
    assert forall|i: int| 0 <= i < (a + b).len() implies node_constrained(#[trigger] (a + b)[i]) by {
        if i < a.len() {
            assert((a + b)[i] == a[i]);
        } else {
            assert((a + b)[i] == b[i - a.len()]);
        }
    }
}

/// A frame being read: a supported tag whose kept attributes are already
/// constrained whatever its children turn out to be.
pub open spec fn frame_constrained(f: FrameView) -> bool {
    &&& is_supported_tag(f.0)
    &&& (f.1.color matches Some(c) ==> matrix_color_spec(c))
    &&& (f.1.background_color matches Some(c) ==> matrix_color_spec(c))
    &&& (f.1.href matches Some(h) ==> f.0 == "a"@ && permitted_link_spec(h))
    &&& nodes_constrained(f.2)
}

/// Every node read so far keeps to the constraints.
pub open spec fn state_constrained(st: HtmlState) -> bool {
    &&& nodes_constrained(st.roots)
    &&& forall|i: int| 0 <= i < st.stack.len() ==> frame_constrained(#[trigger] st.stack[i])
}

proof fn lemma_linkify_constrained(v: Seq<char>, cursor: int)
    ensures
        nodes_constrained(linkify_from(v, cursor)),
    decreases v.len() - cursor,
{
    let rest = if cursor < v.len() {
        seq![NodeView::Text(v.subrange(cursor, v.len() as int))]
    } else {
        Seq::<NodeView>::empty()
    };
    assert(nodes_constrained(rest)) by {
        lemma_nodes_constrained_all(rest);
    }
    match next_link_spec(v, cursor) {
        None => {},
        Some(start) => {
            let pre = if start > cursor {
                seq![NodeView::Text(v.subrange(cursor, start))]
            } else {
                Seq::<NodeView>::empty()
            };
            assert(nodes_constrained(pre)) by {
                lemma_nodes_constrained_all(pre);
            }
            let link = trim_trailing_punct(v.subrange(start, link_end_spec(v, start)));
            if link.len() == 0 || start < cursor || start + link.len() > v.len() {
                lemma_nodes_constrained_concat(pre, rest);
            } else {
                lemma_linkify_constrained(v, start + link.len());
                let ln = link_node(link);
                assert(node_constrained(ln)) by {
                    reveal_strlit("a");
                    lemma_nodes_constrained_all(seq![NodeView::Text(link)]);
                }
                assert(nodes_constrained(seq![ln])) by {
                    lemma_nodes_constrained_all(seq![ln]);
                }
                lemma_nodes_constrained_concat(pre, seq![ln]);
                lemma_nodes_constrained_concat(pre + seq![ln], linkify_from(v, start + link.len()));
            }
        },
    }
}

proof fn lemma_append_node_constrained(st: HtmlState, n: NodeView)
    requires
        state_constrained(st),
        node_constrained(n),
    ensures
        state_constrained(append_node_spec(st, n)),
{
    if st.stack.len() > 0 {
        let top = st.stack.last();
        lemma_nodes_constrained_push(top.2, n);
        let next = append_node_spec(st, n);
        assert forall|i: int| 0 <= i < next.stack.len() implies frame_constrained(#[trigger] next.stack[i]) by {
            if i < st.stack.len() - 1 {
                assert(next.stack[i] == st.stack[i]);
            }
        }
    } else {
        lemma_nodes_constrained_push(st.roots, n);
    }
}

proof fn lemma_append_nodes_constrained(st: HtmlState, ns: Seq<NodeView>)
    requires
        state_constrained(st),
        nodes_constrained(ns),
    ensures
        state_constrained(append_nodes_spec(st, ns)),
        append_nodes_spec(st, ns).stack.len() == st.stack.len(),
        append_nodes_spec(st, ns).suppressed == st.suppressed,
        forall|i: int| 0 <= i < st.stack.len() ==> (#[trigger] append_nodes_spec(st, ns).stack[i]).0 == st.stack[i].0,
    decreases ns.len(),
{
    if ns.len() > 0 {
        lemma_append_nodes_constrained(st, ns.drop_last());
        let mid = append_nodes_spec(st, ns.drop_last());
        lemma_append_node_constrained(mid, ns.last());
    }
}

proof fn lemma_append_text_constrained(st: HtmlState, value: Seq<char>)
    requires
        state_constrained(st),
    ensures
        state_constrained(append_text_spec(st, value)),
{
    if st.suppressed.len() > 0 {
    } else if inside_anchor(st.stack) {
        lemma_append_node_constrained(st, NodeView::Text(decode_entities_spec(value)));
    } else {
        lemma_linkify_constrained(decode_entities_spec(value), 0);
        lemma_append_nodes_constrained(st, linkify_spec(decode_entities_spec(value)));
    }
}

proof fn lemma_sanitize_constrained(name: Seq<char>, attrs: TagAttributes)
    requires
        is_supported_tag(name),
    ensures
        frame_constrained((name, sanitize_spec(name, attrs), Seq::empty())),
        node_constrained(NodeView::Element(name, sanitize_spec(name, attrs), Seq::empty())),
{
    reveal_strlit("a");
    reveal_strlit("span");
    lemma_nodes_constrained_all(Seq::<NodeView>::empty());
}

proof fn lemma_tag_step_constrained(
    st: HtmlState,
    closing: bool,
    self_closing: bool,
    name: Seq<char>,
    attrs: TagAttributes,
)
    requires
        state_constrained(st),
        html_tag_step(st, closing, self_closing, name, attrs) is Some,
    ensures
        state_constrained(html_tag_step(st, closing, self_closing, name, attrs)->0),
{
    if st.suppressed.len() > 0 {
    } else if is_discarded_tag(name) {
    } else if !is_supported_tag(name) {
    } else if closing {
        let top = st.stack.last();
        let popped = HtmlState { stack: st.stack.drop_last(), ..st };
        assert(frame_constrained(st.stack[st.stack.len() - 1]));
        assert(state_constrained(popped)) by {
            assert forall|i: int| 0 <= i < popped.stack.len() implies frame_constrained(#[trigger] popped.stack[i]) by {
                assert(popped.stack[i] == st.stack[i]);
            }
        }
        lemma_append_node_constrained(popped, NodeView::Element(name, top.1, top.2));
    } else {
        let kept = sanitize_spec(name, attrs);
        lemma_sanitize_constrained(name, attrs);
        if is_void_tag(name) {
            lemma_append_node_constrained(st, NodeView::Element(name, kept, Seq::empty()));
        } else {
            let next = HtmlState { stack: st.stack.push((name, kept, Seq::empty())), ..st };
            assert forall|i: int| 0 <= i < next.stack.len() implies frame_constrained(#[trigger] next.stack[i]) by {
                if i < st.stack.len() {
                    assert(next.stack[i] == st.stack[i]);
                }
            }
        }
    }
}

proof fn lemma_html_run_constrained(src: Seq<char>, index: int, st: HtmlState)
    requires
        state_constrained(st),
    ensures
        html_run(src, index, st) matches HtmlOutcome::Parsed(nodes) ==> nodes_constrained(nodes),
    decreases src.len() - index,
{
    if index < 0 || index >= src.len() {
    } else {
        match first_char_from(src, '<', index) {
            None => {
                lemma_append_text_constrained(st, src.skip(index));
            },
            Some(start) => {
                let st1 = append_text_spec(st, src.subrange(index, start));
                lemma_append_text_constrained(st, src.subrange(index, start));
                match first_char_from(src, '>', start) {
                    None => {},
                    Some(end) => if end < index || start < index || end < start || end >= src.len() {
                    } else {
                        match parse_tag_spec(src.subrange(start + 1, end)) {
                            TagParse::Tag { closing, self_closing, name, attrs } => {
                                match html_tag_step(st1, closing, self_closing, name, attrs) {
                                    None => {},
                                    Some(st2) => {
                                        lemma_tag_step_constrained(st1, closing, self_closing, name, attrs);
                                        lemma_html_run_constrained(src, end + 1, st2);
                                    },
                                }
                            },
                            _ => {},
                        }
                    },
                }
            },
        }
    }
}

/// Whatever a message holds, its projected rich text keeps to the
/// constraints: only supported tags, colours only as Matrix colours, and
/// a link target only on a link, where it is a permitted link or the very
/// text that the link shows.
pub proof fn lemma_projected_rich_text_is_constrained(
    body: Seq<char>,
    formatted_body: Option<Seq<char>>,
    formatted_body_format: Option<Seq<char>>,
)
    ensures
        rich_text_projection(body, formatted_body, formatted_body_format) matches Some(nodes)
            ==> nodes_constrained(nodes),
{
    lemma_linkify_constrained(body, 0);
    match html_candidate(formatted_body, formatted_body_format) {
        Some(f) => {
            assert(state_constrained(empty_html_state())) by {
                lemma_nodes_constrained_all(Seq::<NodeView>::empty());
            }
            lemma_html_run_constrained(f, 0, empty_html_state());
        },
        None => {},
    }
}


// ---------------------------------------------------------------------------
// Linkified text gives back the text
// ---------------------------------------------------------------------------

/// The text a node shows: its own text, or its children's.
pub open spec fn node_text(n: NodeView) -> Seq<char>
    decreases n, 0nat,
{
    match n {
        NodeView::Text(t) => t,
        NodeView::Element(_, _, children) => nodes_text(children),
    }
}

/// The text some nodes show, one after another.
pub open spec fn nodes_text(ns: Seq<NodeView>) -> Seq<char>
    decreases ns, ns.len(),
{
    if ns.len() == 0 {
        Seq::empty()
    } else {
        nodes_text(ns.drop_last()) + node_text(ns.last())
    }
}

/// A text node, or a link whose target is the very text it shows.
pub open spec fn text_or_self_link(n: NodeView) -> bool {
    n is Text || n == link_node(node_text(n))
}

proof fn lemma_nodes_text_concat(a: Seq<NodeView>, b: Seq<NodeView>)
    ensures
        nodes_text(a + b) == nodes_text(a) + nodes_text(b),
    decreases b.len(),
{
    if b.len() == 0 {
        assert(a + b =~= a);
        assert(nodes_text(a) + nodes_text(b) =~= nodes_text(a));
    } else {
        lemma_nodes_text_concat(a, b.drop_last());
        assert((a + b).drop_last() =~= a + b.drop_last());
        assert((a + b).last() == b.last());
        assert(nodes_text(a + b.drop_last()) + node_text(b.last()) =~= nodes_text(a) + (nodes_text(b.drop_last())
            + node_text(b.last())));
    }
}

proof fn lemma_nodes_text_single(n: NodeView)
    ensures
        nodes_text(seq![n]) == node_text(n),
{
    assert(seq![n].drop_last() =~= Seq::<NodeView>::empty());
    assert(seq![n].last() == n);
    assert(nodes_text(Seq::<NodeView>::empty()) == Seq::<char>::empty());
    assert(nodes_text(seq![n]) == nodes_text(seq![n].drop_last()) + node_text(seq![n].last()));
    assert(Seq::<char>::empty() + node_text(n) =~= node_text(n));
}

proof fn lemma_terminator_bounds(v: Seq<char>, from: int)
    requires
        0 <= from <= v.len(),
    ensures
        from <= terminator_from(v, from) <= v.len(),
    decreases v.len() - from,
{
    if from < v.len() && !link_terminator(v[from]) {
        lemma_terminator_bounds(v, from + 1);
    }
}

proof fn lemma_trim_trailing_punct(s: Seq<char>)
    ensures
        trim_trailing_punct(s).len() <= s.len(),
        trim_trailing_punct(s) == s.take(trim_trailing_punct(s).len() as int),
        s.len() > 0 && !link_trailing_punct(s[0]) ==> trim_trailing_punct(s).len() >= 1,
        trim_trailing_punct(s).len() > 0 ==> !link_trailing_punct(trim_trailing_punct(s).last()),
    decreases s.len(),
{
    if s.len() > 0 && link_trailing_punct(s.last()) {
        lemma_trim_trailing_punct(s.drop_last());
        let r = trim_trailing_punct(s.drop_last());
        assert(s.drop_last().take(r.len() as int) =~= s.take(r.len() as int));
        if s.len() > 1 {
            assert(s.drop_last()[0] == s[0]);
        }
    } else {
        assert(s.take(s.len() as int) =~= s);
    }
}

proof fn lemma_scheme_start(v: Seq<char>, cursor: int, k: int)
    requires
        0 <= cursor,
        0 <= k < 5,
    ensures
        first_occurrence_from(v, link_schemes()[k], cursor) matches Some(i) ==> cursor <= i < v.len() && (v[i]
            == 'f' || v[i] == 'h' || v[i] == 'm'),
{
    reveal_strlit("ftp://");
    reveal_strlit("http://");
    reveal_strlit("https://");
    reveal_strlit("mailto:");
    reveal_strlit("magnet:?");
    let needle = link_schemes()[k];
    lemma_first_occurrence(v, needle, cursor);
    if let Some(i) = first_occurrence_from(v, needle, cursor) {
        assert(v.subrange(i, i + needle.len())[0] == v[i]);
        assert(needle[0] == 'f' || needle[0] == 'h' || needle[0] == 'm');
    }
}

proof fn lemma_next_link_start(v: Seq<char>, cursor: int)
    requires
        0 <= cursor,
    ensures
        next_link_spec(v, cursor) matches Some(i) ==> cursor <= i < v.len() && (v[i] == 'f' || v[i] == 'h' || v[i]
            == 'm'),
{
    lemma_scheme_start(v, cursor, 0);
    lemma_scheme_start(v, cursor, 1);
    lemma_scheme_start(v, cursor, 2);
    lemma_scheme_start(v, cursor, 3);
    lemma_scheme_start(v, cursor, 4);
}

proof fn lemma_linkify_from_gives_back(v: Seq<char>, cursor: int)
    requires
        0 <= cursor <= v.len(),
    ensures
        nodes_text(linkify_from(v, cursor)) == v.skip(cursor),
        forall|i: int| 0 <= i < linkify_from(v, cursor).len() ==> text_or_self_link(#[trigger] linkify_from(v, cursor)[i]),
    decreases v.len() - cursor,
{
    let rest = if cursor < v.len() {
        seq![NodeView::Text(v.subrange(cursor, v.len() as int))]
    } else {
        Seq::<NodeView>::empty()
    };
    assert(nodes_text(rest) == v.skip(cursor)) by {
        if cursor < v.len() {
            lemma_nodes_text_single(NodeView::Text(v.subrange(cursor, v.len() as int)));
            assert(v.subrange(cursor, v.len() as int) =~= v.skip(cursor));
        } else {
            assert(v.skip(cursor) =~= Seq::<char>::empty());
        }
    }
    lemma_next_link_start(v, cursor);
    match next_link_spec(v, cursor) {
        None => {},
        Some(start) => {
            let pre = if start > cursor {
                seq![NodeView::Text(v.subrange(cursor, start))]
            } else {
                Seq::<NodeView>::empty()
            };
            assert(nodes_text(pre) == v.subrange(cursor, start)) by {
                if start > cursor {
                    lemma_nodes_text_single(NodeView::Text(v.subrange(cursor, start)));
                } else {
                    assert(v.subrange(cursor, start) =~= Seq::<char>::empty());
                }
            }
            let end = link_end_spec(v, start);
            lemma_terminator_bounds(v, start + 1);
            let raw = v.subrange(start, end);
            lemma_trim_trailing_punct(raw);
            let link = trim_trailing_punct(raw);
            assert(raw[0] == v[start]);
            assert(link.len() >= 1);
            assert(link =~= v.subrange(start, start + link.len()));
            lemma_linkify_from_gives_back(v, start + link.len());
            let ln = link_node(link);
            let tail = linkify_from(v, start + link.len());
            assert(node_text(ln) == link) by {
                lemma_nodes_text_single(NodeView::Text(link));
            }
            lemma_nodes_text_single(ln);
            lemma_nodes_text_concat(pre, seq![ln]);
            lemma_nodes_text_concat(pre + seq![ln], tail);
            assert(v.subrange(cursor, start) + link + v.skip(start + link.len()) =~= v.skip(cursor));
            let all = pre + seq![ln] + tail;
            assert forall|i: int| 0 <= i < all.len() implies text_or_self_link(#[trigger] all[i]) by {
                if i < pre.len() {
                    assert(all[i] == pre[i]);
                } else if i == pre.len() {
                    assert(all[i] == ln);
                } else {
                    assert(all[i] == tail[i - pre.len() - 1]);
                }
            }
        },
    }
}

/// Linkified text gives back the text: the nodes' texts, one after another,
/// are the text, and every node is text or a link whose target is the text
/// it shows.
pub proof fn lemma_linkify_gives_back_text(v: Seq<char>)
    ensures
        nodes_text(linkify_spec(v)) == v,
        forall|i: int| 0 <= i < linkify_spec(v).len() ==> text_or_self_link(#[trigger] linkify_spec(v)[i]),
{
    lemma_linkify_from_gives_back(v, 0);
    assert(v.skip(0) =~= v);
}


// ---------------------------------------------------------------------------
// Void elements
// ---------------------------------------------------------------------------

/// `br`, `hr` and `img` never open an element: outside discarded content,
/// an opening tag of one of them, written self-closing or not, adds a
/// childless element of that name to the innermost open element (or to the
/// top level) and leaves the open elements as they were.
pub proof fn lemma_void_tags_never_open(
    st: HtmlState,
    self_closing: bool,
    name: Seq<char>,
    attrs: TagAttributes,
)
    requires
        st.suppressed.len() == 0,
        name == "br"@ || name == "hr"@ || name == "img"@,
    ensures
        html_tag_step(st, false, self_closing, name, attrs) is Some,
        ({
            let next = html_tag_step(st, false, self_closing, name, attrs)->0;
            let element = NodeView::Element(name, sanitize_spec(name, attrs), Seq::empty());
            &&& next.suppressed == st.suppressed
            &&& next.stack.len() == st.stack.len()
            &&& if st.stack.len() == 0 {
                next.roots == st.roots.push(element) && next.stack == st.stack
            } else {
                &&& next.roots == st.roots
                &&& forall|i: int| 0 <= i < st.stack.len() - 1 ==> #[trigger] next.stack[i] == st.stack[i]
                &&& next.stack.last() == (st.stack.last().0, st.stack.last().1, st.stack.last().2.push(element))
            }
        }),
{
    reveal_strlit("br");
    reveal_strlit("hr");
    reveal_strlit("img");
    reveal_strlit("mx-reply");
    reveal_strlit("script");
    reveal_strlit("style");
    assert(name.len() <= 3);
    assert("mx-reply"@.len() == 8 && "script"@.len() == 6 && "style"@.len() == 5);
    assert(!is_discarded_tag(name));
    assert(is_supported_tag(name));
    assert(is_void_tag(name));
}

/// Nodes added with no element open go to the top level, in order.
proof fn lemma_append_nodes_top_level(st: HtmlState, ns: Seq<NodeView>)
    requires
        st.stack.len() == 0,
    ensures
        append_nodes_spec(st, ns) == (HtmlState { roots: st.roots + ns, ..st }),
    decreases ns.len(),
{
    if ns.len() > 0 {
        lemma_append_nodes_top_level(st, ns.drop_last());
        assert(st.roots + ns.drop_last() + seq![ns.last()] =~= st.roots + ns);
        assert((st.roots + ns.drop_last()).push(ns.last()) =~= st.roots + ns);
    } else {
        assert(st.roots + ns =~= st.roots);
    }
}

/// A non-empty name of lower-case ASCII letters and digits.
spec fn plain_tag_name(w: Seq<char>) -> bool {
    &&& w.len() > 0
    &&& forall|i: int| 0 <= i < w.len() ==> ('a' <= #[trigger] w[i] && w[i] <= 'z') || ('0' <= w[i] && w[i] <= '9')
}

/// Every supported tag name is plain, and none is discarded.
proof fn lemma_supported_names_plain(name: Seq<char>)
    requires
        is_supported_tag(name),
    ensures
        plain_tag_name(name),
        !is_discarded_tag(name),
{
    reveal_strlit("mx-reply");
    reveal_strlit("script");
    reveal_strlit("style");
    reveal_strlit("a");
    reveal_strlit("b");
    reveal_strlit("blockquote");
    reveal_strlit("br");
    reveal_strlit("caption");
    reveal_strlit("code");
    reveal_strlit("del");
    reveal_strlit("details");
    reveal_strlit("div");
    reveal_strlit("em");
    reveal_strlit("h1");
    reveal_strlit("h2");
    reveal_strlit("h3");
    reveal_strlit("h4");
    reveal_strlit("h5");
    reveal_strlit("h6");
    reveal_strlit("hr");
    reveal_strlit("img");
    reveal_strlit("i");
    reveal_strlit("li");
    reveal_strlit("ol");
    reveal_strlit("p");
    reveal_strlit("pre");
    reveal_strlit("s");
    reveal_strlit("span");
    reveal_strlit("strong");
    reveal_strlit("sub");
    reveal_strlit("summary");
    reveal_strlit("sup");
    reveal_strlit("table");
    reveal_strlit("tbody");
    reveal_strlit("td");
    reveal_strlit("th");
    reveal_strlit("thead");
    reveal_strlit("tr");
    reveal_strlit("u");
    reveal_strlit("ul");
    if name == "script"@ {
        assert(name[1] == 'c');
        assert(name != "strong"@) by {
            assert("strong"@[1] != name[1]);
        }
        assert(name.len() == 6);
        assert(false);
    }
    if name == "style"@ {
        assert(name[1] == 't');
        assert(name != "table"@) by {
            assert("table"@[1] != name[1]);
        }
        assert(name != "tbody"@) by {
            assert("tbody"@[1] != name[1]);
        }
        assert(name != "thead"@) by {
            assert("thead"@[1] != name[1]);
        }
        assert(name.len() == 5);
        assert(false);
    }
    if name == "mx-reply"@ {
        assert(name.len() == 8);
        assert(false);
    }
}

/// A tag written as a bare lower-case name is an opening tag of that name
/// without attributes.
proof fn lemma_bare_tag_name(w: Seq<char>)
    requires
        plain_tag_name(w),
    ensures
        parse_tag_spec(w) == (TagParse::Tag {
            closing: false,
            self_closing: false,
            name: w,
            attrs: Seq::<(Seq<char>, Seq<char>)>::empty(),
        }),
{
    assert(forall|i: int| 0 <= i < w.len() ==> !is_ws(#[trigger] w[i]));
    assert(trim_start_seq(w) == w);
    assert(trim_seq(w) == w);
    assert(w[0] != '/');
    assert(w.last() != '/');
    lemma_first_ws_from(w, 0);
    assert(first_ws_from(w, 0) == w.len());
    assert(w.take(w.len() as int) =~= w);
    assert(ascii_lower_seq(w) =~= w);
    assert(tag_name_chars(w));
    assert(w.skip(w.len() as int) =~= Seq::<char>::empty());
    assert(trim_seq(Seq::<char>::empty()) == Seq::<char>::empty());
}

/// A tag written as `/` and a bare lower-case name closes that name.
proof fn lemma_closing_tag_name(w: Seq<char>)
    requires
        plain_tag_name(w),
    ensures
        parse_tag_spec(seq!['/'] + w) == (TagParse::Tag {
            closing: true,
            self_closing: false,
            name: w,
            attrs: Seq::<(Seq<char>, Seq<char>)>::empty(),
        }),
{
    let raw = seq!['/'] + w;
    assert(forall|i: int| 0 <= i < raw.len() ==> !is_ws(#[trigger] raw[i])) by {
        assert forall|i: int| 0 <= i < raw.len() implies !is_ws(#[trigger] raw[i]) by {
            if i > 0 {
                assert(raw[i] == w[i - 1]);
            }
        }
    }
    assert(trim_start_seq(raw) == raw);
    assert(trim_seq(raw) == raw);
    assert(raw.drop_first() =~= w);
    assert(forall|i: int| 0 <= i < w.len() ==> !is_ws(#[trigger] w[i]));
    assert(trim_start_seq(w) == w);
    assert(trim_seq(w) == w);
    assert(w.last() != '/');
    lemma_first_ws_from(w, 0);
    assert(first_ws_from(w, 0) == w.len());
    assert(w.take(w.len() as int) =~= w);
    assert(ascii_lower_seq(w) =~= w);
    assert(tag_name_chars(w));
    assert(w.skip(w.len() as int) =~= Seq::<char>::empty());
    assert(trim_seq(Seq::<char>::empty()) == Seq::<char>::empty());
}

/// Nodes added while an element is open become its last children, in order.
proof fn lemma_append_nodes_in_element(st: HtmlState, ns: Seq<NodeView>)
    requires
        st.stack.len() > 0,
    ensures
        append_nodes_spec(st, ns) == (HtmlState {
            stack: st.stack.update(
                st.stack.len() - 1,
                (st.stack.last().0, st.stack.last().1, st.stack.last().2 + ns),
            ),
            ..st
        }),
    decreases ns.len(),
{
    let top = st.stack.last();
    if ns.len() > 0 {
        lemma_append_nodes_in_element(st, ns.drop_last());
        assert((top.2 + ns.drop_last()).push(ns.last()) =~= top.2 + ns);
        assert(st.stack.update(st.stack.len() - 1, (top.0, top.1, top.2 + ns.drop_last())).update(
            st.stack.len() - 1,
            (top.0, top.1, top.2 + ns),
        ) =~= st.stack.update(st.stack.len() - 1, (top.0, top.1, top.2 + ns)));
    } else {
        assert(top.2 + ns =~= top.2);
        assert(st.stack.update(st.stack.len() - 1, (top.0, top.1, top.2)) =~= st.stack);
    }
}

/// Linkifying the decoding of empty text gives no node.
proof fn lemma_linkify_nothing()
    ensures
        linkify_spec(decode_entities_spec(Seq::<char>::empty())) == Seq::<NodeView>::empty(),
{
    reveal_strlit("&amp;");
    reveal_strlit("&apos;");
    reveal_strlit("&quot;");
    reveal_strlit("&lt;");
    reveal_strlit("&gt;");
    reveal_strlit("ftp://");
    reveal_strlit("http://");
    reveal_strlit("https://");
    reveal_strlit("mailto:");
    reveal_strlit("magnet:?");
    let e = Seq::<char>::empty();
    assert(replace_seq(e, "&amp;"@, "&"@) == e);
    assert(replace_seq(e, "&apos;"@, "'"@) == e);
    assert(replace_seq(e, "&quot;"@, "\""@) == e);
    assert(replace_seq(e, "&lt;"@, "<"@) == e);
    assert(replace_seq(e, "&gt;"@, ">"@) == e);
    assert(decode_entities_spec(e) == e);
    let s = link_schemes();
    assert(first_occurrence_from(e, s[0], 0) is None);
    assert(first_occurrence_from(e, s[1], 0) is None);
    assert(first_occurrence_from(e, s[2], 0) is None);
    assert(first_occurrence_from(e, s[3], 0) is None);
    assert(first_occurrence_from(e, s[4], 0) is None);
    assert(next_link_spec(e, 0) is None);
}

/// A `<br>`, `<hr>` or `<img>` tag between two pieces of text gives one
/// childless element between the nodes of the two texts: the tag is never
/// left open, so the body is accepted. For `a<br>b` that is three nodes.
pub proof fn lemma_void_tag_between_texts(a: Seq<char>, name: Seq<char>, b: Seq<char>)
    requires
        forall|i: int| 0 <= i < a.len() ==> a[i] != '<',
        forall|i: int| 0 <= i < b.len() ==> b[i] != '<',
        name == "br"@ || name == "hr"@ || name == "img"@,
    ensures
        html_outcome(a + seq!['<'] + name + seq!['>'] + b) == HtmlOutcome::Parsed(
            linkify_spec(decode_entities_spec(a)) + seq![
                NodeView::Element(name, sanitize_spec(name, Seq::empty()), Seq::empty()),
            ] + linkify_spec(decode_entities_spec(b)),
        ),
{
    reveal_strlit("br");
    reveal_strlit("hr");
    reveal_strlit("img");
    let src = a + seq!['<'] + name + seq!['>'] + b;
    let start = a.len() as int;
    let end = start + 1 + name.len();
    assert(plain_tag_name(name));
    // The first `<` is the tag's, and the first `>` after it closes it.
    assert(src[start] == '<');
    assert(forall|j: int| 0 <= j < start ==> src[j] == a[j]);
    lemma_first_char_from(src, '<', 0);
    assert(first_char_from(src, '<', 0) == Some(start));
    assert(src[end] == '>');
    assert(forall|j: int| start < j < end ==> src[j] == name[j - start - 1]);
    lemma_first_char_from(src, '>', start);
    assert(first_char_from(src, '>', start) == Some(end));
    assert(src.subrange(0, start) =~= a);
    assert(src.subrange(start + 1, end) =~= name);
    lemma_bare_tag_name(name);
    // The text before the tag, then the tag.
    let st0 = empty_html_state();
    let st1 = append_text_spec(st0, a);
    lemma_append_nodes_top_level(st0, linkify_spec(decode_entities_spec(a)));
    assert(st1 == (HtmlState { roots: linkify_spec(decode_entities_spec(a)), ..st0 })) by {
        assert(Seq::<NodeView>::empty() + linkify_spec(decode_entities_spec(a)) =~= linkify_spec(
            decode_entities_spec(a),
        ));
    }
    let element = NodeView::Element(name, sanitize_spec(name, Seq::empty()), Seq::empty());
    lemma_void_tags_never_open(st1, false, name, Seq::empty());
    let st2 = html_tag_step(st1, false, false, name, Seq::empty())->0;
    assert(st2.roots == linkify_spec(decode_entities_spec(a)).push(element));
    assert(html_outcome(src) == html_run(src, end + 1, st2));
    // The text after the tag.
    let whole = linkify_spec(decode_entities_spec(a)) + seq![element] + linkify_spec(decode_entities_spec(b));
    if end + 1 >= src.len() {
        assert(b.len() == 0);
        assert(b =~= Seq::<char>::empty());
        lemma_linkify_nothing();
        assert(whole =~= linkify_spec(decode_entities_spec(a)).push(element));
        assert(html_run(src, end + 1, st2) == html_finish(st2));
    } else {
        assert(forall|j: int| end + 1 <= j < src.len() ==> src[j] == b[j - end - 1]);
        lemma_first_char_from(src, '<', end + 1);
        assert(first_char_from(src, '<', end + 1) is None);
        assert(src.skip(end + 1) =~= b);
        let st3 = append_text_spec(st2, b);
        lemma_append_nodes_top_level(st2, linkify_spec(decode_entities_spec(b)));
        assert(st3.roots =~= whole);
        assert(html_run(src, end + 1, st2) == html_finish(st3));
    }
}

/// The text and the closing tag that follow an opening tag.
#[verifier::rlimit(40)]
proof fn lemma_element_text_then_close(src: Seq<char>, name: Seq<char>, t: Seq<char>, st2: HtmlState)
    requires
        plain_tag_name(name),
        is_supported_tag(name),
        !is_discarded_tag(name),
        !is_void_tag(name),
        name != "a"@,
        forall|i: int| 0 <= i < t.len() ==> t[i] != '<',
        src == seq!['<'] + name + seq!['>'] + t + seq!['<', '/'] + name + seq!['>'],
        st2 == (HtmlState {
            roots: Seq::empty(),
            stack: seq![(name, sanitize_spec(name, Seq::empty()), Seq::<NodeView>::empty())],
            suppressed: Seq::empty(),
        }),
    ensures
        html_run(src, name.len() as int + 2, st2) == HtmlOutcome::Parsed(
            seq![NodeView::Element(name, sanitize_spec(name, Seq::empty()), linkify_spec(decode_entities_spec(t)))],
        ),
{
    reveal_strlit("a");
    lemma_closing_tag_name(name);
    let n = name.len() as int;
    let kept = sanitize_spec(name, Seq::empty());
    let e1 = n + 1;
    let s2 = e1 + 1 + t.len();
    let e2 = s2 + n + 2;
    assert(src.len() == e2 + 1);
    assert(forall|j: int| e1 + 1 <= j < s2 ==> src[j] == t[j - e1 - 1]);
    assert(src[s2] == '<');
    assert(src[s2 + 1] == '/');
    assert(forall|j: int| s2 + 2 <= j < e2 ==> src[j] == name[j - s2 - 2]);
    assert(src[e2] == '>');
    lemma_first_char_from(src, '<', e1 + 1);
    lemma_first_char_from(src, '>', s2);
    assert(first_char_from(src, '<', e1 + 1) == Some(s2));
    assert(first_char_from(src, '>', s2) == Some(e2));
    assert(src.subrange(e1 + 1, s2) =~= t);
    assert(src.subrange(s2 + 1, e2) =~= seq!['/'] + name);
    let children = linkify_spec(decode_entities_spec(t));
    assert(!inside_anchor(st2.stack)) by {
        if inside_anchor(st2.stack) {
            let i = choose|i: int| 0 <= i < st2.stack.len() && (#[trigger] st2.stack[i]).0 == "a"@;
            assert(i == 0);
        }
    }
    let st3 = append_text_spec(st2, t);
    lemma_append_nodes_in_element(st2, children);
    assert(st3.stack =~= seq![(name, kept, children)]) by {
        assert(Seq::<NodeView>::empty() + children =~= children);
    }
    let element = NodeView::Element(name, kept, children);
    assert(html_tag_step(st3, true, false, name, Seq::empty()) is Some);
    let st4 = html_tag_step(st3, true, false, name, Seq::empty())->0;
    assert(st4.stack.len() == 0);
    assert(st4.roots =~= seq![element]);
    assert(html_run(src, e1 + 1, st2) == html_run(src, e2 + 1, st4));
    assert(html_run(src, e2 + 1, st4) == html_finish(st4));
}

/// An element other than a link or a void tag, opened, followed by text and
/// closed again, is one element whose children are the nodes of that text:
/// `<b>x</b>` reads as a `b` element holding `x`.
pub proof fn lemma_element_around_text(name: Seq<char>, t: Seq<char>)
    requires
        is_supported_tag(name),
        !is_void_tag(name),
        name != "a"@,
        forall|i: int| 0 <= i < t.len() ==> t[i] != '<',
    ensures
        html_outcome(seq!['<'] + name + seq!['>'] + t + seq!['<', '/'] + name + seq!['>']) == HtmlOutcome::Parsed(
            seq![NodeView::Element(name, sanitize_spec(name, Seq::empty()), linkify_spec(decode_entities_spec(t)))],
        ),
{
    lemma_supported_names_plain(name);
    lemma_bare_tag_name(name);
    lemma_linkify_nothing();
    let n = name.len() as int;
    let src = seq!['<'] + name + seq!['>'] + t + seq!['<', '/'] + name + seq!['>'];
    let e1 = n + 1;
    assert(src[0] == '<');
    assert(forall|j: int| 0 < j < e1 ==> src[j] == name[j - 1]);
    assert(src[e1] == '>');
    lemma_first_char_from(src, '<', 0);
    lemma_first_char_from(src, '>', 0);
    assert(first_char_from(src, '<', 0) == Some(0int));
    assert(first_char_from(src, '>', 0) == Some(e1));
    assert(src.subrange(0, 0) =~= Seq::<char>::empty());
    assert(src.subrange(1, e1) =~= name);
    let st0 = empty_html_state();
    let st1 = append_text_spec(st0, Seq::empty());
    lemma_append_nodes_top_level(st0, Seq::empty());
    assert(st1 == st0) by {
        assert(Seq::<NodeView>::empty() + Seq::<NodeView>::empty() =~= Seq::<NodeView>::empty());
    }
    let kept = sanitize_spec(name, Seq::empty());
    let st2 = HtmlState { stack: seq![(name, kept, Seq::<NodeView>::empty())], ..st0 };
    assert(html_tag_step(st1, false, false, name, Seq::empty()) == Some(st2)) by {
        assert(st0.stack.push((name, kept, Seq::<NodeView>::empty())) =~= seq![(name, kept, Seq::<NodeView>::empty())]);
    }
    assert(html_outcome(src) == html_run(src, e1 + 1, st2));
    lemma_element_text_then_close(src, name, t, st2);
}


// ---------------------------------------------------------------------------
// Where a recognised link ends
// ---------------------------------------------------------------------------

/// A character that can stand in a recognised link: no whitespace and none
/// of `()<>"'`.
pub open spec fn link_safe_char(c: char) -> bool {
    !is_ws(c) && c != '(' && c != ')' && c != '<' && c != '>' && c != '"' && c != '\''
}

/// The target of a link node, if the node is a link with one.
pub open spec fn link_target(n: NodeView) -> Option<Seq<char>> {
    match n {
        NodeView::Element(_, a, _) => a.href,
        NodeView::Text(_) => None,
    }
}

/// A node's link target, if it has one, is not empty, holds only link-safe
/// characters and does not end in trailing punctuation.
pub open spec fn target_safe(n: NodeView) -> bool {
    match link_target(n) {
        Some(h) => {
            &&& h.len() > 0
            &&& !link_trailing_punct(h.last())
            &&& forall|k: int| 0 <= k < h.len() ==> link_safe_char(#[trigger] h[k])
        },
        None => true,
    }
}

proof fn lemma_terminator_free(v: Seq<char>, from: int)
    requires
        0 <= from <= v.len(),
    ensures
        forall|k: int| from <= k < terminator_from(v, from) ==> !link_terminator(#[trigger] v[k]),
    decreases v.len() - from,
{
    if from < v.len() && !link_terminator(v[from]) {
        lemma_terminator_free(v, from + 1);
    }
}

proof fn lemma_linkify_from_targets_safe(v: Seq<char>, cursor: int)
    requires
        0 <= cursor <= v.len(),
    ensures
        forall|i: int| 0 <= i < linkify_from(v, cursor).len() ==> target_safe(#[trigger] linkify_from(v, cursor)[i]),
    decreases v.len() - cursor,
{
    lemma_next_link_start(v, cursor);
    match next_link_spec(v, cursor) {
        None => {},
        Some(start) => {
            let pre = if start > cursor {
                seq![NodeView::Text(v.subrange(cursor, start))]
            } else {
                Seq::<NodeView>::empty()
            };
            let end = link_end_spec(v, start);
            lemma_terminator_bounds(v, start + 1);
            lemma_terminator_free(v, start + 1);
            let raw = v.subrange(start, end);
            lemma_trim_trailing_punct(raw);
            let link = trim_trailing_punct(raw);
            assert(raw[0] == v[start]);
            assert(link.len() >= 1);
            assert(link =~= v.subrange(start, start + link.len()));
            assert forall|k: int| 0 <= k < link.len() implies link_safe_char(link[k]) by {
                assert(link[k] == v[start + k]);
                if k > 0 {
                    assert(!link_terminator(v[start + k]));
                }
            }
            lemma_linkify_from_targets_safe(v, start + link.len());
            let ln = link_node(link);
            let tail = linkify_from(v, start + link.len());
            let all = pre + seq![ln] + tail;
            assert forall|i: int| 0 <= i < all.len() implies target_safe(#[trigger] all[i]) by {
                if i < pre.len() {
                    assert(all[i] == pre[i]);
                } else if i == pre.len() {
                    assert(all[i] == ln);
                } else {
                    assert(all[i] == tail[i - pre.len() - 1]);
                }
            }
        },
    }
}

/// A link recognised in plain text never takes whitespace or any of
/// `()<>"'` into its target, nor ends it with one of `.,!?;:`: for every
/// text, every link target that linkifying it gives is a non-empty run of
/// link-safe characters whose last one is no trailing punctuation.
pub proof fn lemma_linkified_targets_stop_at_terminators(v: Seq<char>)
    ensures
        forall|i: int| 0 <= i < linkify_spec(v).len() ==> target_safe(#[trigger] linkify_spec(v)[i]),
{
    lemma_linkify_from_targets_safe(v, 0);
}


// ---------------------------------------------------------------------------
// Entities
// ---------------------------------------------------------------------------

/// Text without an ampersand.
pub open spec fn no_ampersand(v: Seq<char>) -> bool {
    forall|i: int| 0 <= i < v.len() ==> v[i] != '&'
}

proof fn lemma_replace_absent(s: Seq<char>, pat: Seq<char>, rep: Seq<char>)
    requires
        pat.len() > 0,
        forall|i: int| 0 <= i < s.len() ==> s[i] != pat[0],
    ensures
        replace_seq(s, pat, rep) == s,
    decreases s.len(),
{
    if s.len() >= pat.len() {
        assert(s.take(pat.len() as int)[0] == s[0]);
        lemma_replace_absent(s.skip(1), pat, rep);
        assert(seq![s[0]] + s.skip(1) =~= s);
    }
}

proof fn lemma_replace_head_mismatch(s: Seq<char>, pat: Seq<char>, rep: Seq<char>, at: int)
    requires
        pat.len() > 0,
        s.len() > 0,
        forall|i: int| 1 <= i < s.len() ==> s[i] != pat[0],
        0 <= at < pat.len(),
        at < s.len() ==> s[at] != pat[at],
    ensures
        replace_seq(s, pat, rep) == s,
{
    if s.len() >= pat.len() {
        assert(s.take(pat.len() as int)[at] == s[at]);
        lemma_replace_absent(s.skip(1), pat, rep);
        assert(seq![s[0]] + s.skip(1) =~= s);
    }
}

proof fn lemma_replace_head_match(pat: Seq<char>, v: Seq<char>, rep: Seq<char>)
    requires
        pat.len() > 0,
        forall|i: int| 0 <= i < v.len() ==> v[i] != pat[0],
    ensures
        replace_seq(pat + v, pat, rep) == rep + v,
{
    let s = pat + v;
    assert(s.take(pat.len() as int) =~= pat);
    assert(s.skip(pat.len() as int) =~= v);
    lemma_replace_absent(v, pat, rep);
}

/// Text without an ampersand is left as it is, and an entity for `<`, `>`,
/// `"` or `'` in front of such text becomes its character; so does `&amp;`
/// where that text does not begin with `a`, `q`, `l` or `g` (which could
/// spell a further entity after the ampersand it leaves).
pub proof fn lemma_decode_entities(v: Seq<char>)
    requires
        no_ampersand(v),
    ensures
        decode_entities_spec(v) == v,
        decode_entities_spec("&lt;"@ + v) == seq!['<'] + v,
        decode_entities_spec("&gt;"@ + v) == seq!['>'] + v,
        decode_entities_spec("&quot;"@ + v) == seq!['"'] + v,
        decode_entities_spec("&apos;"@ + v) == seq!['\''] + v,
        v.len() == 0 || (v[0] != 'a' && v[0] != 'q' && v[0] != 'l' && v[0] != 'g') ==> decode_entities_spec(
            "&amp;"@ + v,
        ) == seq!['&'] + v,
{
    reveal_strlit("&amp;");
    reveal_strlit("&apos;");
    reveal_strlit("&quot;");
    reveal_strlit("&lt;");
    reveal_strlit("&gt;");
    reveal_strlit("&");
    reveal_strlit("'");
    reveal_strlit("\"");
    reveal_strlit("<");
    reveal_strlit(">");
    let amp = "&amp;"@;
    let apos = "&apos;"@;
    let quot = "&quot;"@;
    let lt = "&lt;"@;
    let gt = "&gt;"@;
    // Plain text.
    lemma_replace_absent(v, amp, "&"@);
    lemma_replace_absent(v, apos, "'"@);
    lemma_replace_absent(v, quot, "\""@);
    lemma_replace_absent(v, lt, "<"@);
    lemma_replace_absent(v, gt, ">"@);
    // `&amp;` in front: the ampersand it leaves can begin no later entity.
    if v.len() == 0 || (v[0] != 'a' && v[0] != 'q' && v[0] != 'l' && v[0] != 'g') {
        let r = seq!['&'] + v;
        assert("&"@ =~= seq!['&']);
        lemma_replace_head_match(amp, v, "&"@);
        assert(forall|i: int| 1 <= i < r.len() ==> r[i] != '&') by {
            assert forall|i: int| 1 <= i < r.len() implies r[i] != '&' by {
                assert(r[i] == v[i - 1]);
            }
        }
        if r.len() > 1 {
            assert(r[1] == v[0]);
        }
        lemma_replace_head_mismatch(r, apos, "'"@, 1);
        lemma_replace_head_mismatch(r, quot, "\""@, 1);
        lemma_replace_head_mismatch(r, lt, "<"@, 1);
        lemma_replace_head_mismatch(r, gt, ">"@, 1);
    }
    // Each entity in front; every later step sees no ampersand.
    assert forall|e: Seq<char>, c: char|
        (e == lt && c == '<') || (e == gt && c == '>') || (e == quot && c == '"') || (e == apos && c == '\'') implies
        decode_entities_spec(e + v) == seq![c] + v by {
        let s = e + v;
        let r = seq![c] + v;
        assert(forall|i: int| 1 <= i < s.len() ==> s[i] != '&') by {
            assert forall|i: int| 1 <= i < s.len() implies s[i] != '&' by {
                if i < e.len() {
                    assert(s[i] == e[i]);
                } else {
                    assert(s[i] == v[i - e.len()]);
                }
            }
        }
        assert(forall|i: int| 0 <= i < r.len() ==> r[i] != '&') by {
            assert forall|i: int| 0 <= i < r.len() implies r[i] != '&' by {
                if i > 0 {
                    assert(r[i] == v[i - 1]);
                }
            }
        }
        // `&amp;` differs from each entity at its second or third character.
        if e == apos {
            lemma_replace_head_mismatch(s, amp, "&"@, 2);
            assert("'"@ =~= seq![c]);
            lemma_replace_head_match(apos, v, "'"@);
            lemma_replace_absent(r, quot, "\""@);
            lemma_replace_absent(r, lt, "<"@);
            lemma_replace_absent(r, gt, ">"@);
        } else if e == quot {
            lemma_replace_head_mismatch(s, amp, "&"@, 1);
            lemma_replace_head_mismatch(s, apos, "'"@, 1);
            assert("\""@ =~= seq![c]);
            lemma_replace_head_match(quot, v, "\""@);
            lemma_replace_absent(r, lt, "<"@);
            lemma_replace_absent(r, gt, ">"@);
        } else if e == lt {
            lemma_replace_head_mismatch(s, amp, "&"@, 1);
            lemma_replace_head_mismatch(s, apos, "'"@, 1);
            lemma_replace_head_mismatch(s, quot, "\""@, 1);
            assert(lt[1] != gt[1]);
            assert(c == '<');
            assert("<"@ =~= seq![c]);
            lemma_replace_head_match(lt, v, "<"@);
            lemma_replace_absent(r, gt, ">"@);
        } else {
            lemma_replace_head_mismatch(s, amp, "&"@, 1);
            lemma_replace_head_mismatch(s, apos, "'"@, 1);
            lemma_replace_head_mismatch(s, quot, "\""@, 1);
            lemma_replace_head_mismatch(s, lt, "<"@, 1);
            assert(">"@ =~= seq![c]);
            lemma_replace_head_match(gt, v, ">"@);
        }
    }
}

} // verus!
