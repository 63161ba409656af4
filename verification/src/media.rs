//! Media of room messages: their handles, the MIME type of their bytes, the
//! bounded registry of prepared media, and the answers of the app-local
//! media protocol, byte ranges included.
use vstd::prelude::*;
use vstd::utf8::encode_utf8;

use crate::account::fill_random_bytes;
use crate::paging::{base64_url_encode, encode_base64_url};
use crate::text::{
    chars_of, concat2, concat3, decimal_seq, decimal_string, is_blank, opt_view, parse_usize,
    parse_usize_spec, starts_with, starts_with_chars, str_eq, trim, trim_seq,
};

verus! {

broadcast use vstd::seq_lib::group_seq_properties;

// ---------------------------------------------------------------------------
// Constants and request types
// ---------------------------------------------------------------------------

/// How many thumbnails the thumbnail cache keeps.
pub const DEFAULT_THUMBNAIL_CACHE_ITEM_LIMIT: usize = 100;

/// The scheme of the app-local media protocol.
pub const MEDIA_URI_SCHEME: &'static str = "hyperion-media";

/// The edge, in pixels, of the thumbnails asked for timeline previews.
pub const TIMELINE_PREVIEW_THUMBNAIL_EDGE_PIXELS: u32 = 480;

/// How many prepared media the registry serves at once.
pub const SERVED_MEDIA_ITEM_LIMIT: usize = 64;

/// Whether a registered medium is the file itself or a preview thumbnail.
#[derive(Debug, Clone, Copy, PartialEq, Eq, Structural)]
pub enum RegisteredMediaFormat {
    File,
    Thumbnail,
}

/// A request to prepare a medium for display.
#[derive(Debug)]
pub struct PrepareRoomMediaRequest {
    pub media_handle: String,
}

/// Where a prepared medium is served, its type and its size.
#[derive(Debug)]
pub struct PrepareRoomMediaResponse {
    pub media_url: String,
    pub mime_type: Option<String>,
    pub size_bytes: u64,
}

/// A request to save a medium to a file.
#[derive(Debug)]
pub struct SaveRoomMediaRequest {
    pub media_handle: String,
}

/// Whether a medium was saved.
#[derive(Debug, Clone, Copy, PartialEq, Eq, Structural)]
pub struct SaveRoomMediaResponse {
    pub saved: bool,
}

/// Bytes served under a token, with their MIME type.
#[derive(Debug)]
pub struct ServedMedia {
    pub bytes: Vec<u8>,
    pub mime_type: Option<String>,
}

// ---------------------------------------------------------------------------
// MIME types and captions
// ---------------------------------------------------------------------------

pub open spec fn has_prefix(b: Seq<u8>, p: Seq<u8>) -> bool {
    p.len() <= b.len() && b.take(p.len() as int) == p
}

/// The bytes `8..12` are `p` (a RIFF form type).
pub open spec fn form_type_is(b: Seq<u8>, p: Seq<u8>) -> bool {
    b.len() >= 12 && b.subrange(8, 12) == p
}

/// The MIME type that the leading bytes of a file show, if known.
pub open spec fn sniffed_mime(b: Seq<u8>) -> Option<Seq<char>> {
    if has_prefix(b, seq![0x89u8, 0x50, 0x4e, 0x47, 0x0d, 0x0a, 0x1a, 0x0a]) {
        Some("image/png"@)
    } else if has_prefix(b, seq![0xffu8, 0xd8, 0xff]) {
        Some("image/jpeg"@)
    } else if has_prefix(b, seq![0x47u8, 0x49, 0x46, 0x38, 0x37, 0x61]) || has_prefix(
        b,
        seq![0x47u8, 0x49, 0x46, 0x38, 0x39, 0x61],
    ) {
        Some("image/gif"@)
    } else if has_prefix(b, seq![0x52u8, 0x49, 0x46, 0x46]) && form_type_is(b, seq![0x57u8, 0x45, 0x42, 0x50]) {
        Some("image/webp"@)
    } else if b.len() >= 12 && b.subrange(4, 8) == seq![0x66u8, 0x74, 0x79, 0x70] {
        Some("video/mp4"@)
    } else if has_prefix(b, seq![0x1au8, 0x45, 0xdf, 0xa3]) {
        Some("video/webm"@)
    } else if has_prefix(b, seq![0x4fu8, 0x67, 0x67, 0x53]) {
        Some("audio/ogg"@)
    } else if has_prefix(b, seq![0x49u8, 0x44, 0x33]) || has_prefix(b, seq![0xffu8, 0xfb]) {
        Some("audio/mpeg"@)
    } else if has_prefix(b, seq![0x52u8, 0x49, 0x46, 0x46]) && form_type_is(b, seq![0x57u8, 0x41, 0x56, 0x45]) {
        Some("audio/wav"@)
    } else if has_prefix(b, seq![0x25u8, 0x50, 0x44, 0x46, 0x2d]) {
        Some("application/pdf"@)
    } else {
        None
    }
}

/// Bytes that begin with `OggS` (an Ogg stream, such as a voice message)
/// are audio/ogg: no earlier signature begins with those bytes, and only an
/// `ftyp` box at offset 4 would be taken for MP4 first. A medium without a
/// MIME type in its metadata is then served as audio/ogg.
pub proof fn lemma_ogg_is_audio(b: Seq<u8>)
    requires
        b.len() >= 4,
        b[0] == 0x4fu8 && b[1] == 0x67u8 && b[2] == 0x67u8 && b[3] == 0x53u8,
        !(b.len() >= 12 && b[4] == 0x66u8 && b[5] == 0x74u8 && b[6] == 0x79u8 && b[7] == 0x70u8),
    ensures
        sniffed_mime(b) == Some("audio/ogg"@),
        resolved_mime(None, b) == Some("audio/ogg"@),
        forall|m: Seq<char>| trim_seq(m).len() == 0 ==> resolved_mime(Some(m), b) == Some("audio/ogg"@),
{
    if b.len() >= 8 {
        assert(b.take(8)[0] == b[0]);
    }
    if b.len() >= 6 {
        assert(b.take(6)[0] == b[0]);
    }
    if b.len() >= 5 {
        assert(b.take(5)[0] == b[0]);
    }
    assert(b.take(3)[0] == b[0]);
    assert(b.take(4)[0] == b[0]);
    assert(b.take(2)[0] == b[0]);
    if b.len() >= 12 {
        assert(b.subrange(4, 8)[0] == b[4]);
        assert(b.subrange(4, 8)[1] == b[5]);
        assert(b.subrange(4, 8)[2] == b[6]);
        assert(b.subrange(4, 8)[3] == b[7]);
    }
    assert(b.take(4) =~= seq![0x4fu8, 0x67, 0x67, 0x53]);
}

/// The image and document signatures decide the type whatever follows
/// them: PNG, JPEG and GIF headers and a `%PDF-` header each give their own
/// type, as no other signature can begin with the same bytes.
pub proof fn lemma_leading_signatures(b: Seq<u8>)
    ensures
        has_prefix(b, seq![0x89u8, 0x50, 0x4e, 0x47, 0x0d, 0x0a, 0x1a, 0x0a]) ==> sniffed_mime(b) == Some(
            "image/png"@,
        ),
        has_prefix(b, seq![0xffu8, 0xd8, 0xff]) ==> sniffed_mime(b) == Some("image/jpeg"@),
        has_prefix(b, seq![0x47u8, 0x49, 0x46, 0x38, 0x37, 0x61]) ==> sniffed_mime(b) == Some("image/gif"@),
        has_prefix(b, seq![0x47u8, 0x49, 0x46, 0x38, 0x39, 0x61]) ==> sniffed_mime(b) == Some("image/gif"@),
        has_prefix(b, seq![0x25u8, 0x50, 0x44, 0x46, 0x2d]) ==> sniffed_mime(b) == Some(
            "application/pdf"@,
        ),
{
    if b.len() >= 1 {
        if b.len() >= 8 {
            assert(b.take(8)[0] == b[0]);
        }
        if b.len() >= 6 {
            assert(b.take(6)[0] == b[0]);
        }
        if b.len() >= 5 {
            assert(b.take(5)[0] == b[0]);
            assert(b.take(5)[4] == b[4]);
        }
        if b.len() >= 4 {
            assert(b.take(4)[0] == b[0]);
        }
        if b.len() >= 3 {
            assert(b.take(3)[0] == b[0]);
            assert(b.take(3)[1] == b[1]);
        }
        if b.len() >= 2 {
            assert(b.take(2)[0] == b[0]);
            assert(b.take(2)[1] == b[1]);
        }
        if b.len() >= 12 {
            assert(b.subrange(4, 8)[0] == b[4]);
        }
    }
}

/// An `ftyp` box at offset 4: the mark of an MP4 file.
pub open spec fn ftyp_box(b: Seq<u8>) -> bool {
    b.len() >= 12 && b[4] == 0x66u8 && b[5] == 0x74u8 && b[6] == 0x79u8 && b[7] == 0x70u8
}

/// The audio and video signatures: a RIFF file of form `WEBP` is
/// image/webp; an `ftyp` box at offset 4 is video/mp4 unless the bytes
/// begin as a PNG, JPEG, GIF or RIFF file; and, where no `ftyp` box stands
/// there, a Matroska header is video/webm, an ID3 tag or an MPEG frame
/// header (`FF FB`) is audio/mpeg, and a RIFF file of form `WAVE` is
/// audio/wav.
pub proof fn lemma_container_signatures(b: Seq<u8>)
    ensures
        has_prefix(b, seq![0x52u8, 0x49, 0x46, 0x46]) && form_type_is(b, seq![0x57u8, 0x45, 0x42, 0x50])
            ==> sniffed_mime(b) == Some("image/webp"@),
        ftyp_box(b) && b[0] != 0x89u8 && b[0] != 0xffu8 && b[0] != 0x47u8 && b[0] != 0x52u8 ==> sniffed_mime(b)
            == Some("video/mp4"@),
        !ftyp_box(b) && has_prefix(b, seq![0x1au8, 0x45, 0xdf, 0xa3]) ==> sniffed_mime(b) == Some(
            "video/webm"@,
        ),
        !ftyp_box(b) && has_prefix(b, seq![0x49u8, 0x44, 0x33]) ==> sniffed_mime(b) == Some("audio/mpeg"@),
        !ftyp_box(b) && has_prefix(b, seq![0xffu8, 0xfb]) ==> sniffed_mime(b) == Some("audio/mpeg"@),
        !ftyp_box(b) && has_prefix(b, seq![0x52u8, 0x49, 0x46, 0x46]) && form_type_is(
            b,
            seq![0x57u8, 0x41, 0x56, 0x45],
        ) ==> sniffed_mime(b) == Some("audio/wav"@),
{
    if b.len() >= 1 {
        if b.len() >= 8 {
            assert(b.take(8)[0] == b[0]);
        }
        if b.len() >= 6 {
            assert(b.take(6)[0] == b[0]);
        }
        if b.len() >= 5 {
            assert(b.take(5)[0] == b[0]);
        }
        if b.len() >= 4 {
            assert(b.take(4)[0] == b[0]);
            assert(b.take(4)[1] == b[1]);
        }
        if b.len() >= 3 {
            assert(b.take(3)[0] == b[0]);
            assert(b.take(3)[1] == b[1]);
        }
        if b.len() >= 2 {
            assert(b.take(2)[0] == b[0]);
            assert(b.take(2)[1] == b[1]);
        }
        if b.len() >= 12 {
            assert(b.subrange(4, 8)[0] == b[4]);
            assert(b.subrange(4, 8)[1] == b[5]);
            assert(b.subrange(4, 8)[2] == b[6]);
            assert(b.subrange(4, 8)[3] == b[7]);
            assert(b.subrange(8, 12)[3] == b[11]);
            assert(b.subrange(8, 12)[1] == b[9]);
            if ftyp_box(b) {
                assert(b.subrange(4, 8) =~= seq![0x66u8, 0x74, 0x79, 0x70]);
            }
        }
    }
}

fn bytes_have_prefix(bytes: &[u8], prefix: &[u8]) -> (r: bool)
    ensures
        r == has_prefix(bytes@, prefix@),
{
    if prefix.len() > bytes.len() {
        return false;
    }
    let mut i: usize = 0;
    while i < prefix.len()
        invariant
            i <= prefix@.len(),
            prefix@.len() <= bytes@.len(),
            forall|j: int| 0 <= j < i ==> bytes@[j] == prefix@[j],
        decreases prefix.len() - i,
    {
        if bytes[i] != prefix[i] {
            assert(bytes@.take(prefix@.len() as int)[i as int] != prefix@[i as int]);
            return false;
        }
        i = i + 1;
    }
    assert(bytes@.take(prefix@.len() as int) == prefix@);
    true
}

fn bytes_at_equal(bytes: &[u8], from: usize, expected: &[u8]) -> (r: bool)
    requires
        from + expected@.len() <= bytes@.len(),
    ensures
        r == (bytes@.subrange(from as int, from + expected@.len()) == expected@),
{
    let mut i: usize = 0;
    while i < expected.len()
        invariant
            i <= expected@.len(),
            from + expected@.len() <= bytes@.len(),
            bytes@.len() == bytes.len(),
            forall|j: int| 0 <= j < i ==> bytes@[from + j] == expected@[j],
        decreases expected.len() - i,
    {
        if bytes[from + i] != expected[i] {
            assert(bytes@.subrange(from as int, from + expected@.len())[i as int] != expected@[i as int]);
            return false;
        }
        i = i + 1;
    }
    assert(bytes@.subrange(from as int, from + expected@.len()) == expected@);
    true
}

/// The MIME type that the leading bytes of a file show, if known.
pub fn sniff_mime_type(bytes: &[u8]) -> (r: Option<&'static str>)
    ensures
        match r {
            Some(m) => sniffed_mime(bytes@) == Some(m@),
            None => sniffed_mime(bytes@) is None,
        },
{
    proof {
        reveal_strlit("image/png");
        reveal_strlit("image/jpeg");
        reveal_strlit("image/gif");
        reveal_strlit("image/webp");
        reveal_strlit("video/mp4");
        reveal_strlit("video/webm");
        reveal_strlit("audio/ogg");
        reveal_strlit("audio/mpeg");
        reveal_strlit("audio/wav");
        reveal_strlit("application/pdf");
    }
    let png: [u8; 8] = [0x89, 0x50, 0x4e, 0x47, 0x0d, 0x0a, 0x1a, 0x0a];
    let jpeg: [u8; 3] = [0xff, 0xd8, 0xff];
    let gif87: [u8; 6] = [0x47, 0x49, 0x46, 0x38, 0x37, 0x61];
    let gif89: [u8; 6] = [0x47, 0x49, 0x46, 0x38, 0x39, 0x61];
    let riff: [u8; 4] = [0x52, 0x49, 0x46, 0x46];
    let webp: [u8; 4] = [0x57, 0x45, 0x42, 0x50];
    let ftyp: [u8; 4] = [0x66, 0x74, 0x79, 0x70];
    let webm: [u8; 4] = [0x1a, 0x45, 0xdf, 0xa3];
    let ogg: [u8; 4] = [0x4f, 0x67, 0x67, 0x53];
    let id3: [u8; 3] = [0x49, 0x44, 0x33];
    let mpeg: [u8; 2] = [0xff, 0xfb];
    let wave: [u8; 4] = [0x57, 0x41, 0x56, 0x45];
    let pdf: [u8; 5] = [0x25, 0x50, 0x44, 0x46, 0x2d];
    assert(png@ == seq![0x89u8, 0x50, 0x4e, 0x47, 0x0d, 0x0a, 0x1a, 0x0a]);
    assert(jpeg@ == seq![0xffu8, 0xd8, 0xff]);
    assert(gif87@ == seq![0x47u8, 0x49, 0x46, 0x38, 0x37, 0x61]);
    assert(gif89@ == seq![0x47u8, 0x49, 0x46, 0x38, 0x39, 0x61]);
    assert(riff@ == seq![0x52u8, 0x49, 0x46, 0x46]);
    assert(webp@ == seq![0x57u8, 0x45, 0x42, 0x50]);
    assert(ftyp@ == seq![0x66u8, 0x74, 0x79, 0x70]);
    assert(webm@ == seq![0x1au8, 0x45, 0xdf, 0xa3]);
    assert(ogg@ == seq![0x4fu8, 0x67, 0x67, 0x53]);
    assert(id3@ == seq![0x49u8, 0x44, 0x33]);
    assert(mpeg@ == seq![0xffu8, 0xfb]);
    assert(wave@ == seq![0x57u8, 0x41, 0x56, 0x45]);
    assert(pdf@ == seq![0x25u8, 0x50, 0x44, 0x46, 0x2d]);
    if bytes_have_prefix(bytes, &png) {
        return Some("image/png");
    }
    if bytes_have_prefix(bytes, &jpeg) {
        return Some("image/jpeg");
    }
    if bytes_have_prefix(bytes, &gif87) || bytes_have_prefix(bytes, &gif89) {
        return Some("image/gif");
    }
    if bytes.len() >= 12 && bytes_have_prefix(bytes, &riff) && bytes_at_equal(bytes, 8, &webp) {
        return Some("image/webp");
    }
    if bytes.len() >= 12 && bytes_at_equal(bytes, 4, &ftyp) {
        return Some("video/mp4");
    }
    if bytes_have_prefix(bytes, &webm) {
        return Some("video/webm");
    }
    if bytes_have_prefix(bytes, &ogg) {
        return Some("audio/ogg");
    }
    if bytes_have_prefix(bytes, &id3) || bytes_have_prefix(bytes, &mpeg) {
        return Some("audio/mpeg");
    }
    if bytes.len() >= 12 && bytes_have_prefix(bytes, &riff) && bytes_at_equal(bytes, 8, &wave) {
        return Some("audio/wav");
    }
    if bytes_have_prefix(bytes, &pdf) {
        return Some("application/pdf");
    }
    None
}

/// The MIME type of a medium: the one its metadata gives unless blank,
/// else the one its bytes show.
pub open spec fn resolved_mime(metadata_mime_type: Option<Seq<char>>, bytes: Seq<u8>) -> Option<Seq<char>> {
    match metadata_mime_type {
        Some(m) => if trim_seq(m).len() > 0 {
            Some(m)
        } else {
            sniffed_mime(bytes)
        },
        None => sniffed_mime(bytes),
    }
}

/// The MIME type of a medium.
pub fn resolve_mime_type(metadata_mime_type: Option<&str>, bytes: &[u8]) -> (r: Option<String>)
    ensures
        opt_view(r) == resolved_mime(
            match metadata_mime_type {
                Some(m) => Some(m@),
                None => None,
            },
            bytes@,
        ),
{
    if let Some(m) = metadata_mime_type {
        if !is_blank(m) {
            return Some(m.to_owned());
        }
    }
    match sniff_mime_type(bytes) {
        Some(m) => Some(m.to_owned()),
        None => None,
    }
}

/// A caption without surrounding whitespace, unless nothing is left.
pub fn caption_text(value: Option<&str>) -> (r: Option<String>)
    ensures
        opt_view(r) == match value {
            Some(v) => if trim_seq(v@).len() > 0 {
                Some(trim_seq(v@))
            } else {
                None
            },
            None => None,
        },
{
    match value {
        Some(v) => {
            if is_blank(v) {
                None
            } else {
                Some(trim(v))
            }
        },
        None => None,
    }
}

/// The class of a message as the media extraction sees it.
#[derive(Debug, Clone, Copy, PartialEq, Eq, Structural)]
pub enum MessageMediaKind {
    Audio,
    File,
    Image,
    Video,
    Other,
}

/// The body shown for a media message: empty, since its caption and file
/// name are shown with the attachment; none for other messages.
pub fn media_body_for_message_kind(kind: MessageMediaKind) -> (r: Option<String>)
    ensures
        match kind {
            MessageMediaKind::Other => r is None,
            _ => opt_view(r) == Some(Seq::<char>::empty()),
        },
{
    match kind {
        MessageMediaKind::Other => None,
        _ => {
            let s = String::new();
            Some(s)
        },
    }
}

// ---------------------------------------------------------------------------
// Handles and URLs
// ---------------------------------------------------------------------------

/// The handle of a medium: its format (a thumbnail carries the preview
/// edge), `-`, and its source URL base64url-encoded.
pub open spec fn media_token_spec(source_label: Seq<char>, is_thumbnail: bool) -> Seq<char> {
    (if is_thumbnail {
        "thumb-480"@
    } else {
        "file"@
    }) + "-"@ + base64_url_encode(encode_utf8(source_label))
}

/// The handle of a medium with the given source URL.
pub fn media_token(source_label: &str, is_thumbnail: bool) -> (r: String)
    ensures
        r@ == media_token_spec(source_label@, is_thumbnail),
{
    let encoded = encode_base64_url(source_label.as_bytes());
    let prefix = if is_thumbnail {
        let edge = decimal_string(TIMELINE_PREVIEW_THUMBNAIL_EDGE_PIXELS as u64);
        proof {
            reveal_strlit("thumb-480");
            reveal_strlit("thumb-");
            assert(decimal_seq(480) == seq!['4', '8', '0']) by {
                assert(decimal_seq(4) == seq!['4']);
                assert(decimal_seq(48) == seq!['4', '8']);
            }
            assert("thumb-"@ + decimal_seq(480) == "thumb-480"@);
        }
        concat2("thumb-", edge.as_str())
    } else {
        "file".to_owned()
    };
    concat3(prefix.as_str(), "-", encoded.as_str())
}

/// The URL of served media: `http://hyperion-media.localhost/` where the
/// platform's webview wants HTTP (Windows, Android), else
/// `hyperion-media://localhost/`, then the token.
pub fn media_url(served_token: &str, http_localhost: bool) -> (r: String)
    ensures
        r@ == if http_localhost {
            "http://hyperion-media.localhost/"@ + served_token@
        } else {
            "hyperion-media://localhost/"@ + served_token@
        },
{
    if http_localhost {
        concat2("http://hyperion-media.localhost/", served_token)
    } else {
        concat2("hyperion-media://localhost/", served_token)
    }
}

// ---------------------------------------------------------------------------
// Byte ranges
// ---------------------------------------------------------------------------

/// An inclusive range of byte positions.
#[derive(Debug, Clone, Copy, PartialEq, Eq, Structural)]
pub struct ByteRange {
    pub start: usize,
    pub end: usize,
}

/// The position of the first `c` in `s`, if any.
pub open spec fn first_index_of(s: Seq<char>, c: char) -> Option<int>
    decreases s.len(),
{
    if s.len() == 0 {
        None
    } else if s[0] == c {
        Some(0)
    } else {
        match first_index_of(s.drop_first(), c) {
            Some(i) => Some(i + 1),
            None => None,
        }
    }
}

/// A single range of an HTTP `Range` header, `start-end`, `start-` or
/// `-suffix`, resolved against a body of `total_len` bytes: the end is
/// capped at the last byte, a suffix counts from the end; none when the
/// text is malformed, the body is empty, the suffix is empty, or the start
/// lies beyond the body or after the end.
pub open spec fn byte_range_spec(range_spec: Seq<char>, total_len: usize) -> Option<ByteRange> {
    if total_len == 0 {
        None
    } else {
        match first_index_of(range_spec, '-') {
            None => None,
            Some(d) => {
                let start_part = range_spec.take(d);
                let end_part = range_spec.skip(d + 1);
                if start_part.len() == 0 {
                    match parse_usize_spec(end_part) {
                        None => None,
                        Some(n) => if n == 0 {
                            None
                        } else {
                            Some(
                                ByteRange {
                                    start: if total_len > n {
                                        (total_len - n) as usize
                                    } else {
                                        0
                                    },
                                    end: (total_len - 1) as usize,
                                },
                            )
                        },
                    }
                } else {
                    match parse_usize_spec(start_part) {
                        None => None,
                        Some(start) => if start >= total_len {
                            None
                        } else {
                            let end: Option<usize> = if end_part.len() == 0 {
                                Some((total_len - 1) as usize)
                            } else {
                                match parse_usize_spec(end_part) {
                                    None => None,
                                    Some(e) => Some(
                                        if e < total_len - 1 {
                                            e
                                        } else {
                                            (total_len - 1) as usize
                                        },
                                    ),
                                }
                            };
                            match end {
                                None => None,
                                Some(end) => if end < start {
                                    None
                                } else {
                                    Some(ByteRange { start, end })
                                },
                            }
                        },
                    }
                }
            },
        }
    }
}

fn find_char(v: &[char], c: char) -> (r: Option<usize>)
    ensures
        match r {
            Some(i) => first_index_of(v@, c) == Some(i as int) && i < v@.len(),
            None => first_index_of(v@, c) is None,
        },
{
    let mut i: usize = 0;
    assert(v@.skip(0) == v@);
    while i < v.len()
        invariant
            i <= v@.len(),
            first_index_of(v@, c) == match first_index_of(v@.skip(i as int), c) {
                Some(k) => Some(k + i),
                None => None,
            },
        decreases v.len() - i,
    {
        assert(v@.skip(i as int)[0] == v@[i as int]);
        if v[i] == c {
            return Some(i);
        }
        assert(v@.skip(i as int).drop_first() == v@.skip(i + 1));
        i = i + 1;
    }
    None
}

/// A single byte range resolved against a body of `total_len` bytes; an
/// error where `byte_range_spec` gives none.
pub fn parse_byte_range(range_spec: &str, total_len: usize) -> (r: Result<ByteRange, ()>)
    ensures
        match r {
            Ok(range) => byte_range_spec(range_spec@, total_len) == Some(range),
            Err(()) => byte_range_spec(range_spec@, total_len) is None,
        },
{
    if total_len == 0 {
        return Err(());
    }
    let v = chars_of(range_spec);
    let dash = match find_char(&v, '-') {
        Some(d) => d,
        None => {
            return Err(());
        },
    };
    assert(dash < v.len());
    let start_part = crate::rich_text::subvec(&v, 0, dash);
    let end_part = crate::rich_text::subvec(&v, dash + 1, v.len());
    assert(start_part@ == v@.take(dash as int));
    assert(end_part@ == v@.skip(dash + 1));
    if start_part.len() == 0 {
        let suffix_len = match parse_usize(&end_part) {
            Some(n) => n,
            None => {
                return Err(());
            },
        };
        if suffix_len == 0 {
            return Err(());
        }
        let start = if total_len > suffix_len {
            total_len - suffix_len
        } else {
            0
        };
        return Ok(ByteRange { start, end: total_len - 1 });
    }
    let start = match parse_usize(&start_part) {
        Some(s) => s,
        None => {
            return Err(());
        },
    };
    if start >= total_len {
        return Err(());
    }
    let end = if end_part.len() == 0 {
        total_len - 1
    } else {
        match parse_usize(&end_part) {
            Some(e) => if e < total_len - 1 {
                e
            } else {
                total_len - 1
            },
            None => {
                return Err(());
            },
        }
    };
    if end < start {
        return Err(());
    }
    Ok(ByteRange { start, end })
}

/// The range a request asks for, given its `Range` header: none without a
/// header; the first range of a `bytes=` header; an error for a header
/// that is not text, names another unit, or holds no valid first range.
pub open spec fn requested_range_spec(range_header: Option<Option<Seq<char>>>, total_len: usize) -> Option<
    Option<ByteRange>,
> {
    match range_header {
        None => Some(None),
        Some(None) => None,
        Some(Some(h)) => if !starts_with(h, "bytes="@) {
            None
        } else {
            let ranges = h.skip(6);
            let first = match first_index_of(ranges, ',') {
                Some(i) => ranges.take(i),
                None => ranges,
            };
            match byte_range_spec(first, total_len) {
                Some(r) => Some(Some(r)),
                None => None,
            }
        },
    }
}

/// The range a request asks for. `range_header` is the `Range` header:
/// absent, present but not text, or its text.
pub fn requested_byte_range(range_header: Option<Option<&str>>, total_len: usize) -> (r: Result<Option<ByteRange>, ()>)
    ensures
        match r {
            Ok(range) => requested_range_spec(
                match range_header {
                    None => None,
                    Some(None) => Some(None),
                    Some(Some(h)) => Some(Some(h@)),
                },
                total_len,
            ) == Some(range),
            Err(()) => requested_range_spec(
                match range_header {
                    None => None,
                    Some(None) => Some(None),
                    Some(Some(h)) => Some(Some(h@)),
                },
                total_len,
            ) is None,
        },
{
    let header = match range_header {
        None => {
            return Ok(None);
        },
        Some(None) => {
            return Err(());
        },
        Some(Some(h)) => h,
    };
    let v = chars_of(header);
    let prefix = chars_of("bytes=");
    proof {
        reveal_strlit("bytes=");
    }
    if !starts_with_chars(&v, &prefix) {
        return Err(());
    }
    let ranges = crate::rich_text::subvec(&v, 6, v.len());
    assert(ranges@ == v@.skip(6));
    let first = match find_char(&ranges, ',') {
        Some(i) => {
            let f = crate::rich_text::subvec(&ranges, 0, i);
            assert(f@ == ranges@.take(i as int));
            f
        },
        None => ranges,
    };
    let first_text = crate::text::string_from_chars(&first);
    match parse_byte_range(first_text.as_str(), total_len) {
        Ok(range) => Ok(Some(range)),
        Err(()) => Err(()),
    }
}

// ---------------------------------------------------------------------------
// The media registry
// ---------------------------------------------------------------------------

/// The value recorded last for `key` in `entries`, if any.
pub open spec fn entry_of<V>(entries: Seq<(String, V)>, key: Seq<char>) -> Option<V>
    decreases entries.len(),
{
    if entries.len() == 0 {
        None
    } else if entries.last().0@ == key {
        Some(entries.last().1)
    } else {
        entry_of(entries.drop_last(), key)
    }
}

/// The entries as a map from key to value.
pub open spec fn entries_map<V>(entries: Seq<(String, V)>) -> Map<Seq<char>, V> {
    Map::new(|k: Seq<char>| entry_of(entries, k) is Some, |k: Seq<char>| entry_of(entries, k).unwrap())
}

proof fn lemma_entry_update<V>(entries: Seq<(String, V)>, i: int, key: String, value: V, k: Seq<char>)
    requires
        0 <= i < entries.len(),
        entries[i].0@ == key@,
        forall|j: int| i < j < entries.len() ==> (#[trigger] entries[j]).0@ != key@,
    ensures
        entry_of(entries.update(i, (key, value)), k) == if k == key@ {
            Some(value)
        } else {
            entry_of(entries, k)
        },
    decreases entries.len(),
{
    let u = entries.update(i, (key, value));
    if i == entries.len() - 1 {
        assert(u.drop_last() == entries.drop_last());
    } else {
        assert(u.drop_last() == entries.drop_last().update(i, (key, value)));
        assert(entries.last() == entries[entries.len() - 1]);
        lemma_entry_update(entries.drop_last(), i, key, value, k);
    }
}

fn find_entry<V>(entries: &Vec<(String, V)>, key: &str) -> (r: Option<usize>)
    ensures
        match r {
            Some(i) => i < entries@.len() && entries@[i as int].0@ == key@ && entry_of(entries@, key@) == Some(
                entries@[i as int].1,
            ) && forall|j: int| i < j < entries@.len() ==> (#[trigger] entries@[j]).0@ != key@,
            None => entry_of(entries@, key@) is None,
        },
{
    let mut i = entries.len();
    assert(entries@.take(i as int) == entries@);
    while i > 0
        invariant
            i <= entries@.len(),
            forall|j: int| i <= j < entries@.len() ==> (#[trigger] entries@[j]).0@ != key@,
            entry_of(entries@, key@) == entry_of(entries@.take(i as int), key@),
        decreases i,
    {
        assert(entries@.take(i as int).drop_last() == entries@.take(i - 1));
        assert(entries@.take(i as int).last() == entries@[i - 1]);
        if str_eq(entries[i - 1].0.as_str(), key) {
            return Some(i - 1);
        }
        i = i - 1;
    }
    None
}

/// The registry of media: the media registered under their handles, and
/// the prepared media served under random tokens, at most
/// `SERVED_MEDIA_ITEM_LIMIT` of the latest.
#[derive(Debug)]
pub struct MediaRegistry<M> {
    registered: Vec<(String, M)>,
    served: Vec<(String, ServedMedia)>,
    served_order: Vec<String>,
}

impl<M> MediaRegistry<M> {
    /// The registered media by handle.
    pub closed spec fn registered_view(&self) -> Map<Seq<char>, M> {
        entries_map(self.registered@)
    }

    /// The served media by token.
    pub closed spec fn served_view(&self) -> Map<Seq<char>, ServedMedia> {
        entries_map(self.served@)
    }

    /// The tokens of the served media, oldest first.
    pub closed spec fn order_view(&self) -> Seq<Seq<char>> {
        crate::text::strings_view(self.served_order@)
    }

    /// At most `SERVED_MEDIA_ITEM_LIMIT` tokens are kept, and every served
    /// token is among them.
    pub open spec fn wf(&self) -> bool {
        &&& self.order_view().len() <= SERVED_MEDIA_ITEM_LIMIT
        &&& forall|k: Seq<char>| #[trigger] self.served_view().contains_key(k) ==> self.order_view().contains(k)
    }

    /// An empty registry.
    pub fn new() -> (r: Self)
        ensures
            r.wf(),
            r.registered_view() == Map::<Seq<char>, M>::empty(),
            r.served_view() == Map::<Seq<char>, ServedMedia>::empty(),
            r.order_view() == Seq::<Seq<char>>::empty(),
    {
        let r = MediaRegistry { registered: Vec::new(), served: Vec::new(), served_order: Vec::new() };
        assert(r.registered_view() =~= Map::<Seq<char>, M>::empty());
        assert(r.served_view() =~= Map::<Seq<char>, ServedMedia>::empty());
        assert(r.order_view() =~= Seq::<Seq<char>>::empty());
        r
    }

    /// Registers a medium under its handle, made of its source URL and
    /// format; a medium registered before under that handle stays.
    pub fn register_media(&mut self, source_label: &str, format: RegisteredMediaFormat, media: M) -> (r: String)
        requires
            old(self).wf(),
        ensures
            final(self).wf(),
            r@ == media_token_spec(source_label@, format == RegisteredMediaFormat::Thumbnail),
            final(self).registered_view() == if old(self).registered_view().contains_key(r@) {
                old(self).registered_view()
            } else {
                old(self).registered_view().insert(r@, media)
            },
            final(self).served_view() == old(self).served_view(),
            final(self).order_view() == old(self).order_view(),
    {
        let token = media_token(source_label, format == RegisteredMediaFormat::Thumbnail);
        match find_entry(&self.registered, token.as_str()) {
            Some(_) => {},
            None => {
                let key = token.clone();
                self.registered.push((key, media));
                assert(self.registered@.drop_last() == old(self).registered@);
                assert(self.registered_view() =~= old(self).registered_view().insert(token@, media));
            },
        }
        assert(self.served_view() == old(self).served_view());
        assert(self.order_view() == old(self).order_view());
        token
    }

    /// The medium registered under a handle; an error for an unknown one.
    pub fn registered_media(&self, media_handle: &str) -> (r: Result<&M, String>)
        ensures
            match r {
                Ok(m) => self.registered_view().contains_key(media_handle@) && *m == self.registered_view()[media_handle@],
                Err(e) => !self.registered_view().contains_key(media_handle@) && e@ == "Unknown media handle"@,
            },
    {
        match find_entry(&self.registered, media_handle) {
            Some(i) => Ok(&self.registered[i].1),
            None => Err("Unknown media handle".to_owned()),
        }
    }

    /// The medium served under a token, if any.
    pub fn served_media(&self, token: &str) -> (r: Option<&ServedMedia>)
        ensures
            match r {
                Some(m) => self.served_view().contains_key(token@) && *m == self.served_view()[token@],
                None => !self.served_view().contains_key(token@),
            },
    {
        match find_entry(&self.served, token) {
            Some(i) => Some(&self.served[i].1),
            None => None,
        }
    }

    fn remove_served(&mut self, token: &str)
        ensures
            final(self).served_view() == old(self).served_view().remove(token@),
            final(self).registered == old(self).registered,
            final(self).served_order == old(self).served_order,
    {
        let mut kept: Vec<(String, ServedMedia)> = Vec::new();
        let mut entries: Vec<(String, ServedMedia)> = Vec::new();
        std::mem::swap(&mut entries, &mut self.served);
        let ghost all = entries@;
        let total: usize = entries.len();
        let mut consumed: usize = 0;
        while entries.len() > 0
            invariant
                consumed + entries@.len() == all.len(),
                all.len() == total,
                entries@ == all.skip(consumed as int),
                forall|k: Seq<char>|
                    #[trigger] entry_of(kept@, k) == if k == token@ {
                        None
                    } else {
                        entry_of(all.take(consumed as int), k)
                    },
            decreases entries.len(),
        {
            let e = entries.remove(0);
            assert(e == all[consumed as int]);
            assert(all.take(consumed + 1).drop_last() == all.take(consumed as int));
            assert(all.take(consumed + 1).last() == all[consumed as int]);
            let ghost prefix = all.take(consumed + 1);
            if !str_eq(e.0.as_str(), token) {
                let ghost before = kept@;
                kept.push(e);
                assert(kept@.drop_last() == before);
                assert forall|k: Seq<char>| #[trigger] entry_of(kept@, k) == if k == token@ {
                    None
                } else {
                    entry_of(prefix, k)
                } by {
                    assert(entry_of(before, k) == if k == token@ { None } else { entry_of(all.take(consumed as int), k) });
                }
            } else {
                assert forall|k: Seq<char>| #[trigger] entry_of(kept@, k) == if k == token@ {
                    None
                } else {
                    entry_of(prefix, k)
                } by {
                    assert(entry_of(kept@, k) == if k == token@ { None } else { entry_of(all.take(consumed as int), k) });
                }
            }
            consumed = consumed + 1;
            assert(entries@ == all.skip(consumed as int));
        }
        assert(all.take(all.len() as int) == all);
        self.served = kept;
        assert(self.served_view() =~= old(self).served_view().remove(token@));
    }

    /// Serves bytes under the given token: the token maps to them and joins
    /// the newest end of the order; when that makes too many, the oldest
    /// token leaves the order and its medium is no longer served.
    pub fn store_served_media_with_token(&mut self, token: String, media: ServedMedia)
        requires
            old(self).wf(),
        ensures
            final(self).wf(),
            final(self).registered_view() == old(self).registered_view(),
            final(self).order_view() == if old(self).order_view().len() < SERVED_MEDIA_ITEM_LIMIT {
                old(self).order_view().push(token@)
            } else {
                old(self).order_view().push(token@).drop_first()
            },
            final(self).served_view() == if old(self).order_view().len() < SERVED_MEDIA_ITEM_LIMIT {
                old(self).served_view().insert(token@, media)
            } else {
                old(self).served_view().insert(token@, media).remove(old(self).order_view()[0])
            },
    {
        let key = token.clone();
        match find_entry(&self.served, token.as_str()) {
            Some(i) => {
                proof {
                    assert forall|k: Seq<char>| true implies entry_of(self.served@.update(i as int, (key, media)), k)
                        == if k == token@ { Some(media) } else { entry_of(self.served@, k) } by {
                        lemma_entry_update(self.served@, i as int, key, media, k);
                    }
                }
                self.served.set(i, (key, media));
            },
            None => {
                self.served.push((key, media));
                assert(self.served@.drop_last() == old(self).served@);
            },
        }
        assert(self.served_view() =~= old(self).served_view().insert(token@, media));
        let ghost order_before = self.order_view();
        self.served_order.push(token);
        assert(self.order_view() == order_before.push(token@));
        let ghost inserted = self.served_view();
        if self.served_order.len() > SERVED_MEDIA_ITEM_LIMIT {
            let expired = self.served_order.remove(0);
            assert(self.order_view() == order_before.push(token@).drop_first());
            assert(expired@ == old(self).order_view()[0]);
            self.remove_served(expired.as_str());
            proof {
                assert forall|k: Seq<char>| #[trigger] self.served_view().contains_key(k) implies self.order_view().contains(k) by {
                    assert(inserted.contains_key(k) && k != expired@);
                    assert(order_before.push(token@).contains(k));
                    let idx = choose|idx: int| 0 <= idx < order_before.push(token@).len() && order_before.push(token@)[idx] == k;
                    assert(idx != 0);
                    assert(self.order_view()[idx - 1] == k);
                }
            }
        } else {
            proof {
                assert forall|k: Seq<char>| #[trigger] self.served_view().contains_key(k) implies self.order_view().contains(k) by {
                    if k == token@ {
                        assert(self.order_view()[self.order_view().len() - 1] == k);
                    } else {
                        assert(old(self).order_view().contains(k));
                        let idx = choose|idx: int| 0 <= idx < old(self).order_view().len() && old(self).order_view()[idx] == k;
                        assert(self.order_view()[idx] == k);
                    }
                }
            }
        }
    }

    /// Serves bytes under a fresh random token and gives the token; when the
    /// system's random source fails, nothing is served and the error says
    /// so.
    pub fn store_served_media(&mut self, bytes: Vec<u8>, mime_type: Option<String>) -> (r: Result<String, String>)
        requires
            old(self).wf(),
        ensures
            final(self).wf(),
            final(self).registered_view() == old(self).registered_view(),
            match r {
                Ok(t) => {
                    &&& final(self).order_view() == if old(self).order_view().len() < SERVED_MEDIA_ITEM_LIMIT {
                        old(self).order_view().push(t@)
                    } else {
                        old(self).order_view().push(t@).drop_first()
                    }
                    &&& final(self).served_view() == if old(self).order_view().len() < SERVED_MEDIA_ITEM_LIMIT {
                        old(self).served_view().insert(t@, ServedMedia { bytes, mime_type })
                    } else {
                        old(self).served_view().insert(t@, ServedMedia { bytes, mime_type }).remove(
                            old(self).order_view()[0],
                        )
                    }
                    &&& exists|random: Seq<u8>| random.len() == 18 && t@ == base64_url_encode(random)
                },
                Err(e) => {
                    &&& final(self).order_view() == old(self).order_view()
                    &&& final(self).served_view() == old(self).served_view()
                    &&& starts_with(e@, "Failed to generate a media token: "@)
                },
            },
    {
        let random = match fill_random_bytes(18, "Failed to generate a media token") {
            Ok(b) => b,
            Err(e) => {
                proof {
                    reveal_strlit("Failed to generate a media token");
                    reveal_strlit(": ");
                    reveal_strlit("Failed to generate a media token: ");
                    assert("Failed to generate a media token"@ + ": "@ =~= "Failed to generate a media token: "@);
                }
                return Err(e);
            },
        };
        let token = encode_base64_url(&random);
        let result = token.clone();
        self.store_served_media_with_token(token, ServedMedia { bytes, mime_type });
        Ok(result)
    }

    /// Forgets every registered and served medium.
    pub fn clear(&mut self)
        ensures
            final(self).wf(),
            final(self).registered_view() == Map::<Seq<char>, M>::empty(),
            final(self).served_view() == Map::<Seq<char>, ServedMedia>::empty(),
            final(self).order_view() == Seq::<Seq<char>>::empty(),
    {
        self.registered = Vec::new();
        self.served = Vec::new();
        self.served_order = Vec::new();
        assert(self.registered_view() =~= Map::<Seq<char>, M>::empty());
        assert(self.served_view() =~= Map::<Seq<char>, ServedMedia>::empty());
        assert(self.order_view() =~= Seq::<Seq<char>>::empty());
    }
}

/// Storing a medium under a token that is not in use makes it served under
/// that token, and at most `SERVED_MEDIA_ITEM_LIMIT` tokens stay; once the
/// limit is reached, the oldest medium is no longer served.
pub proof fn lemma_served_media_bounded(
    order: Seq<Seq<char>>,
    served: Map<Seq<char>, ServedMedia>,
    token: Seq<char>,
    media: ServedMedia,
)
    requires
        order.len() <= SERVED_MEDIA_ITEM_LIMIT,
        !order.contains(token),
    ensures
        (if order.len() < SERVED_MEDIA_ITEM_LIMIT {
            order.push(token)
        } else {
            order.push(token).drop_first()
        }).len() <= SERVED_MEDIA_ITEM_LIMIT,
        (if order.len() < SERVED_MEDIA_ITEM_LIMIT {
            served.insert(token, media)
        } else {
            served.insert(token, media).remove(order[0])
        })[token] == media,
        order.len() == SERVED_MEDIA_ITEM_LIMIT ==> !served.insert(token, media).remove(order[0]).contains_key(order[0]),
{
    if order.len() == SERVED_MEDIA_ITEM_LIMIT {
        assert(order[0] != token);
    }
}

// ---------------------------------------------------------------------------
// The media protocol
// ---------------------------------------------------------------------------

/// The answer of the media protocol. A full answer is `200 OK`, a partial
/// one `206 Partial Content`; both accept byte ranges and carry the MIME
/// type when known. An unsatisfiable range is `416` with its
/// `Content-Range`; an unknown token is `404` with the text
/// `Media not found`.
#[derive(Debug)]
pub enum MediaProtocolReply {
    NotFound,
    Full { body: Vec<u8>, mime_type: Option<String> },
    Partial { body: Vec<u8>, content_range: String, mime_type: Option<String> },
    RangeNotSatisfiable { content_range: String },
}

/// The text without its leading `/` characters.
pub open spec fn without_leading_slashes(s: Seq<char>) -> Seq<char>
    decreases s.len(),
{
    if s.len() > 0 && s[0] == '/' {
        without_leading_slashes(s.drop_first())
    } else {
        s
    }
}

fn strip_leading_slashes(path: &str) -> (r: String)
    ensures
        r@ == without_leading_slashes(path@),
{
    let v = chars_of(path);
    let mut i: usize = 0;
    assert(v@.skip(0) == v@);
    while i < v.len() && v[i] == '/'
        invariant
            i <= v@.len(),
            without_leading_slashes(v@) == without_leading_slashes(v@.skip(i as int)),
        decreases v.len() - i,
    {
        assert(v@.skip(i as int).drop_first() == v@.skip(i + 1));
        i = i + 1;
    }
    assert(v@.subrange(i as int, v@.len() as int) == v@.skip(i as int));
    crate::text::string_from_range(&v, i, v.len())
}

fn copy_bytes(b: &[u8], from: usize, to: usize) -> (r: Vec<u8>)
    requires
        from <= to <= b@.len(),
    ensures
        r@ == b@.subrange(from as int, to as int),
{
    let mut r: Vec<u8> = Vec::new();
    let mut i = from;
    while i < to
        invariant
            from <= i <= to,
            to <= b@.len(),
            r@ == b@.subrange(from as int, i as int),
        decreases to - i,
    {
        r.push(b[i]);
        assert(b@.subrange(from as int, i + 1) == b@.subrange(from as int, i as int).push(b@[i as int]));
        i = i + 1;
    }
    r
}

/// The `Content-Range` of a partial answer.
pub open spec fn content_range_spec(range: ByteRange, total_len: usize) -> Seq<char> {
    "bytes "@ + decimal_seq(range.start as nat) + "-"@ + decimal_seq(range.end as nat) + "/"@ + decimal_seq(
        total_len as nat,
    )
}

/// The answer to a media protocol request for `request_path`, whose token
/// is the path without its leading `/`, with the given `Range` header.
pub fn media_protocol_reply<M>(
    registry: &MediaRegistry<M>,
    request_path: &str,
    range_header: Option<Option<&str>>,
) -> (r: MediaProtocolReply)
    ensures
        ({
            let token = without_leading_slashes(request_path@);
            let header = match range_header {
                None => None,
                Some(None) => Some(None),
                Some(Some(h)) => Some(Some(h@)),
            };
            if !registry.served_view().contains_key(token) {
                r is NotFound
            } else {
                let media = registry.served_view()[token];
                let total = media.bytes@.len();
                match requested_range_spec(header, total as usize) {
                    Some(None) => r matches MediaProtocolReply::Full { body, mime_type } && body@ == media.bytes@
                        && mime_type == media.mime_type,
                    Some(Some(range)) => r matches MediaProtocolReply::Partial { body, content_range, mime_type }
                        && body@ == media.bytes@.subrange(range.start as int, range.end + 1)
                        && content_range@ == content_range_spec(range, total as usize) && mime_type
                        == media.mime_type,
                    None => r matches MediaProtocolReply::RangeNotSatisfiable { content_range } && content_range@
                        == "bytes */"@ + decimal_seq(total),
                }
            }
        }),
{
    let token = strip_leading_slashes(request_path);
    let media = match registry.served_media(token.as_str()) {
        Some(m) => m,
        None => {
            return MediaProtocolReply::NotFound;
        },
    };
    let total = media.bytes.len();
    match requested_byte_range(range_header, total) {
        Ok(Some(range)) => {
            let body = copy_bytes(&media.bytes, range.start, range.end + 1);
            let a = concat2("bytes ", decimal_string(range.start as u64).as_str());
            let b = concat3(a.as_str(), "-", decimal_string(range.end as u64).as_str());
            let content_range = concat3(b.as_str(), "/", decimal_string(total as u64).as_str());
            MediaProtocolReply::Partial {
                body,
                content_range,
                mime_type: crate::timeline::clone_opt_string(&media.mime_type),
            }
        },
        Ok(None) => {
            let body = copy_bytes(&media.bytes, 0, total);
            assert(media.bytes@.subrange(0, total as int) == media.bytes@);
            MediaProtocolReply::Full { body, mime_type: crate::timeline::clone_opt_string(&media.mime_type) }
        },
        Err(()) => {
            let content_range = concat2("bytes */", decimal_string(total as u64).as_str());
            MediaProtocolReply::RangeNotSatisfiable { content_range }
        },
    }
}

/// Serves prepared bytes and answers where: the MIME type is the metadata's
/// unless blank, else the one the bytes show; the URL names the fresh token.
pub fn prepare_served_media_response<M>(
    registry: &mut MediaRegistry<M>,
    bytes: Vec<u8>,
    metadata_mime_type: Option<&str>,
    http_localhost: bool,
) -> (r: Result<PrepareRoomMediaResponse, String>)
    requires
        old(registry).wf(),
    ensures
        final(registry).wf(),
        match r {
            Err(e) => starts_with(e@, "Failed to generate a media token: "@) && final(registry).served_view()
                == old(registry).served_view(),
            Ok(resp) => {
                &&& resp.size_bytes == bytes@.len()
                &&& opt_view(resp.mime_type) == resolved_mime(
                    match metadata_mime_type {
                        Some(m) => Some(m@),
                        None => None,
                    },
                    bytes@,
                )
                &&& exists|token: Seq<char>|
                    {
                        &&& resp.media_url@ == if http_localhost {
                            "http://hyperion-media.localhost/"@ + token
                        } else {
                            "hyperion-media://localhost/"@ + token
                        }
                        &&& final(registry).served_view() == if old(registry).order_view().len()
                            < SERVED_MEDIA_ITEM_LIMIT {
                            old(registry).served_view().insert(token, ServedMedia { bytes, mime_type: resp.mime_type })
                        } else {
                            old(registry).served_view().insert(
                                token,
                                ServedMedia { bytes, mime_type: resp.mime_type },
                            ).remove(old(registry).order_view()[0])
                        }
                    }
            },
        },
{
    let size_bytes = bytes.len() as u64;
    let mime_type = resolve_mime_type(metadata_mime_type, &bytes);
    let stored_mime = crate::timeline::clone_opt_string(&mime_type);
    let served_token = match registry.store_served_media(bytes, stored_mime) {
        Ok(t) => t,
        Err(e) => {
            return Err(e);
        },
    };
    let media_url = media_url(served_token.as_str(), http_localhost);
    Ok(PrepareRoomMediaResponse { media_url, mime_type, size_bytes })
}

// ---------------------------------------------------------------------------
// Registering media of messages
// ---------------------------------------------------------------------------

/// Where a medium is loaded from: the SDK's source, its URL, and whether it
/// is a plain (unencrypted) MXC URL.
#[derive(Debug, Clone)]
pub struct MediaSourceRef<S> {
    pub source: S,
    pub url: String,
    pub is_plain: bool,
}

/// A medium registered under a handle.
#[derive(Debug, Clone)]
pub struct RegisteredMedia<S> {
    pub source: S,
    pub filename: Option<String>,
    pub mime_type: Option<String>,
    pub format: RegisteredMediaFormat,
}

/// Registers a medium's file and gives its handle.
pub fn register_file_handle<S: Clone>(
    registry: &mut MediaRegistry<RegisteredMedia<S>>,
    source: &MediaSourceRef<S>,
    filename: Option<&str>,
    mime_type: Option<&str>,
) -> (r: String)
    requires
        old(registry).wf(),
    ensures
        final(registry).wf(),
        r@ == media_token_spec(source.url@, false),
        final(registry).registered_view().contains_key(r@),
        !old(registry).registered_view().contains_key(r@) ==> {
            let m = final(registry).registered_view()[r@];
            &&& m.format == RegisteredMediaFormat::File
            &&& opt_view(m.filename) == match filename {
                Some(f) => Some(f@),
                None => None,
            }
            &&& opt_view(m.mime_type) == match mime_type {
                Some(t) => Some(t@),
                None => None,
            }
        },
        final(registry).served_view() == old(registry).served_view(),
{
    let media = RegisteredMedia {
        source: source.source.clone(),
        filename: match filename {
            Some(f) => Some(f.to_owned()),
            None => None,
        },
        mime_type: match mime_type {
            Some(t) => Some(t.to_owned()),
            None => None,
        },
        format: RegisteredMediaFormat::File,
    };
    registry.register_media(source.url.as_str(), RegisteredMediaFormat::File, media)
}

/// Registers a preview thumbnail of a medium and gives its handle.
pub fn register_thumbnail_handle<S: Clone>(
    registry: &mut MediaRegistry<RegisteredMedia<S>>,
    source: &MediaSourceRef<S>,
    mime_type: Option<String>,
) -> (r: String)
    requires
        old(registry).wf(),
    ensures
        final(registry).wf(),
        r@ == media_token_spec(source.url@, true),
        final(registry).registered_view().contains_key(r@),
        !old(registry).registered_view().contains_key(r@) ==> {
            let m = final(registry).registered_view()[r@];
            &&& m.format == RegisteredMediaFormat::Thumbnail
            &&& m.filename is None
            &&& m.mime_type == mime_type
        },
        final(registry).served_view() == old(registry).served_view(),
{
    let media = RegisteredMedia {
        source: source.source.clone(),
        filename: None,
        mime_type,
        format: RegisteredMediaFormat::Thumbnail,
    };
    registry.register_media(source.url.as_str(), RegisteredMediaFormat::Thumbnail, media)
}

/// The preview thumbnail of an image-like medium: its own thumbnail when
/// it has one; else the homeserver's preview of a plain source; none for
/// an encrypted source without a thumbnail.
pub fn image_like_thumbnail_handle<S: Clone>(
    registry: &mut MediaRegistry<RegisteredMedia<S>>,
    full_source: &MediaSourceRef<S>,
    thumbnail_source: Option<&MediaSourceRef<S>>,
    thumbnail_mime_type: Option<String>,
) -> (r: Option<String>)
    requires
        old(registry).wf(),
    ensures
        final(registry).wf(),
        final(registry).served_view() == old(registry).served_view(),
        match thumbnail_source {
            Some(t) => opt_view(r) == Some(media_token_spec(t.url@, true)),
            None => if full_source.is_plain {
                opt_view(r) == Some(media_token_spec(full_source.url@, true))
            } else {
                r is None && final(registry).registered_view() == old(registry).registered_view()
            },
        },
        r matches Some(h) ==> final(registry).registered_view().contains_key(h@)
            && final(registry).registered_view()[h@].format == RegisteredMediaFormat::Thumbnail
            || old(registry).registered_view().contains_key(h@),
{
    if let Some(source) = thumbnail_source {
        return Some(register_thumbnail_handle(registry, source, thumbnail_mime_type));
    }
    if full_source.is_plain {
        return Some(register_thumbnail_handle(registry, full_source, None));
    }
    None
}

// ---------------------------------------------------------------------------
// Attachments
// ---------------------------------------------------------------------------

/// What kind of medium an attachment is.
#[derive(Debug, Clone, Copy, PartialEq, Eq, Structural)]
pub enum RoomTimelineAttachmentType {
    Image,
    Video,
    Audio,
    File,
    Sticker,
}

/// A medium attached to a timeline item.
#[derive(Debug)]
pub struct RoomTimelineAttachment {
    pub event_id: String,
    pub media_type: RoomTimelineAttachmentType,
    pub media_handle: String,
    pub thumbnail_handle: Option<String>,
    pub filename: Option<String>,
    pub display_caption: Option<String>,
    pub mime_type: Option<String>,
    pub width: Option<u32>,
    pub height: Option<u32>,
    pub duration_unix_ms: Option<u64>,
    pub size_bytes: Option<u64>,
    pub blurhash: Option<String>,
    pub requires_reveal: bool,
}

/// What a media message's info says of the medium.
#[derive(Debug)]
pub struct MediaInfoReport<S> {
    pub mimetype: Option<String>,
    pub thumbnail_source: Option<MediaSourceRef<S>>,
    pub thumbnail_mimetype: Option<String>,
    pub width: Option<u64>,
    pub height: Option<u64>,
    pub duration_ms: Option<u128>,
    pub size: Option<u64>,
    pub blurhash: Option<String>,
}

/// A media message: its source, file name, caption and info.
#[derive(Debug)]
pub struct MediaContentReport<S> {
    pub source: MediaSourceRef<S>,
    pub filename: String,
    pub caption: Option<String>,
    pub info: Option<MediaInfoReport<S>>,
}

/// A dimension when it fits in 32 bits.
pub fn optional_uint_to_u32(value: Option<u64>) -> (r: Option<u32>)
    ensures
        r == match value {
            Some(v) => if v <= u32::MAX {
                Some(v as u32)
            } else {
                None::<u32>
            },
            None => None::<u32>,
        },
{
    match value {
        Some(v) => if v <= 4294967295 {
            Some(v as u32)
        } else {
            None
        },
        None => None,
    }
}

/// A duration in milliseconds when it fits in 64 bits.
pub fn duration_to_milliseconds(value: Option<u128>) -> (r: Option<u64>)
    ensures
        r == match value {
            Some(v) => if v <= u64::MAX {
                Some(v as u64)
            } else {
                None::<u64>
            },
            None => None::<u64>,
        },
{
    match value {
        Some(v) => if v <= 18446744073709551615 {
            Some(v as u64)
        } else {
            None
        },
        None => None,
    }
}

/// The kinds of media messages that carry an attachment.
#[derive(Debug, Clone, Copy, PartialEq, Eq, Structural)]
pub enum AttachmentMessageKind {
    Image,
    Video,
    Audio,
    File,
}

/// What the attachment of a media message holds. Every kind shows its
/// file. Images and videos get the image-like preview thumbnail and their
/// size, a file only its own thumbnail, audio none; audio and files show
/// their file name; videos and audio their duration; images and videos
/// their blurhash.
pub open spec fn is_message_attachment<S>(
    r: RoomTimelineAttachment,
    event_id: Seq<char>,
    kind: AttachmentMessageKind,
    content: MediaContentReport<S>,
) -> bool {
    &&& r.event_id@ == event_id
    &&& r.media_type == match kind {
        AttachmentMessageKind::Image => RoomTimelineAttachmentType::Image,
        AttachmentMessageKind::Video => RoomTimelineAttachmentType::Video,
        AttachmentMessageKind::Audio => RoomTimelineAttachmentType::Audio,
        AttachmentMessageKind::File => RoomTimelineAttachmentType::File,
    }
    &&& r.media_handle@ == media_token_spec(content.source.url@, false)
    &&& match kind {
        AttachmentMessageKind::Image | AttachmentMessageKind::Video => opt_view(r.thumbnail_handle) == match content.info {
            Some(i) => match i.thumbnail_source {
                Some(t) => Some(media_token_spec(t.url@, true)),
                None => if content.source.is_plain {
                    Some(media_token_spec(content.source.url@, true))
                } else {
                    None
                },
            },
            None => if content.source.is_plain {
                Some(media_token_spec(content.source.url@, true))
            } else {
                None
            },
        },
        AttachmentMessageKind::Audio => r.thumbnail_handle is None,
        AttachmentMessageKind::File => opt_view(r.thumbnail_handle) == match content.info {
            Some(i) => match i.thumbnail_source {
                Some(t) => Some(media_token_spec(t.url@, true)),
                None => None,
            },
            None => None,
        },
    }
    &&& r.filename == match kind {
        AttachmentMessageKind::Audio | AttachmentMessageKind::File => Some(content.filename),
        _ => None::<String>,
    }
    &&& opt_view(r.display_caption) == match content.caption {
        Some(c) => if crate::text::trim_seq(c@).len() > 0 {
            Some(crate::text::trim_seq(c@))
        } else {
            None
        },
        None => None,
    }
    &&& r.mime_type == match content.info {
        Some(i) => i.mimetype,
        None => None::<String>,
    }
    &&& r.width == match kind {
        AttachmentMessageKind::Image | AttachmentMessageKind::Video => match content.info {
            Some(i) => match i.width {
                Some(v) => if v <= u32::MAX {
                    Some(v as u32)
                } else {
                    None::<u32>
                },
                None => None::<u32>,
            },
            None => None::<u32>,
        },
        _ => None::<u32>,
    }
    &&& r.height == match kind {
        AttachmentMessageKind::Image | AttachmentMessageKind::Video => match content.info {
            Some(i) => match i.height {
                Some(v) => if v <= u32::MAX {
                    Some(v as u32)
                } else {
                    None::<u32>
                },
                None => None::<u32>,
            },
            None => None::<u32>,
        },
        _ => None::<u32>,
    }
    &&& r.duration_unix_ms == match kind {
        AttachmentMessageKind::Video | AttachmentMessageKind::Audio => match content.info {
            Some(i) => match i.duration_ms {
                Some(v) => if v <= u64::MAX {
                    Some(v as u64)
                } else {
                    None::<u64>
                },
                None => None::<u64>,
            },
            None => None::<u64>,
        },
        _ => None::<u64>,
    }
    &&& r.size_bytes == match content.info {
        Some(i) => i.size,
        None => None::<u64>,
    }
    &&& r.blurhash == match kind {
        AttachmentMessageKind::Image | AttachmentMessageKind::Video => match content.info {
            Some(i) => i.blurhash,
            None => None::<String>,
        },
        _ => None::<String>,
    }
    &&& !r.requires_reveal
}

/// The attachment of a media message, whose files it registers.
pub fn message_attachment<S: Clone>(
    registry: &mut MediaRegistry<RegisteredMedia<S>>,
    event_id: &str,
    kind: AttachmentMessageKind,
    content: &MediaContentReport<S>,
) -> (r: RoomTimelineAttachment)
    requires
        old(registry).wf(),
    ensures
        final(registry).wf(),
        final(registry).served_view() == old(registry).served_view(),
        is_message_attachment(r, event_id@, kind, *content),
{
    let mime: Option<&str> = match &content.info {
        Some(i) => match &i.mimetype {
            Some(m) => Some(m.as_str()),
            None => None,
        },
        None => None,
    };
    let media_handle = register_file_handle(registry, &content.source, Some(content.filename.as_str()), mime);
    let thumbnail_handle = match kind {
        AttachmentMessageKind::Image | AttachmentMessageKind::Video => {
            let (thumb_source, thumb_mime) = match &content.info {
                Some(i) => (i.thumbnail_source.as_ref(), clone_opt_string_ref(&i.thumbnail_mimetype)),
                None => (None, None),
            };
            image_like_thumbnail_handle(registry, &content.source, thumb_source, thumb_mime)
        },
        AttachmentMessageKind::Audio => None,
        AttachmentMessageKind::File => match &content.info {
            Some(i) => match &i.thumbnail_source {
                Some(t) => Some(register_thumbnail_handle(registry, t, clone_opt_string_ref(&i.thumbnail_mimetype))),
                None => None,
            },
            None => None,
        },
    };
    let visual = kind == AttachmentMessageKind::Image || kind == AttachmentMessageKind::Video;
    let timed = kind == AttachmentMessageKind::Video || kind == AttachmentMessageKind::Audio;
    let named = kind == AttachmentMessageKind::Audio || kind == AttachmentMessageKind::File;
    let caption: Option<&str> = match &content.caption {
        Some(c) => Some(c.as_str()),
        None => None,
    };
    let (mime_type, width, height, duration, size_bytes, blurhash) = match &content.info {
        Some(i) => (
            clone_opt_string_ref(&i.mimetype),
            if visual { optional_uint_to_u32(i.width) } else { None },
            if visual { optional_uint_to_u32(i.height) } else { None },
            if timed { duration_to_milliseconds(i.duration_ms) } else { None },
            i.size,
            if visual { clone_opt_string_ref(&i.blurhash) } else { None },
        ),
        None => (None, None, None, None, None, None),
    };
    RoomTimelineAttachment {
        event_id: event_id.to_owned(),
        media_type: match kind {
            AttachmentMessageKind::Image => RoomTimelineAttachmentType::Image,
            AttachmentMessageKind::Video => RoomTimelineAttachmentType::Video,
            AttachmentMessageKind::Audio => RoomTimelineAttachmentType::Audio,
            AttachmentMessageKind::File => RoomTimelineAttachmentType::File,
        },
        media_handle,
        thumbnail_handle,
        filename: if named { Some(content.filename.clone()) } else { None },
        display_caption: caption_text(caption),
        mime_type,
        width,
        height,
        duration_unix_ms: duration,
        size_bytes,
        blurhash,
        requires_reveal: false,
    }
}

fn clone_opt_string_ref(o: &Option<String>) -> (r: Option<String>)
    ensures
        r == *o,
{
    crate::timeline::clone_opt_string(o)
}

/// What the attachment of a sticker holds: its file and image-like
/// preview, its MIME type, dimensions, size and blurhash; no file name or
/// caption.
pub open spec fn is_sticker_attachment<S>(
    r: RoomTimelineAttachment,
    event_id: Seq<char>,
    source: MediaSourceRef<S>,
    info: MediaInfoReport<S>,
) -> bool {
    &&& r.event_id@ == event_id
    &&& r.media_type == RoomTimelineAttachmentType::Sticker
    &&& r.media_handle@ == media_token_spec(source.url@, false)
    &&& opt_view(r.thumbnail_handle) == match info.thumbnail_source {
        Some(t) => Some(media_token_spec(t.url@, true)),
        None => if source.is_plain {
            Some(media_token_spec(source.url@, true))
        } else {
            None
        },
    }
    &&& r.filename is None
    &&& r.display_caption is None
    &&& r.mime_type == info.mimetype
    &&& r.width == match info.width {
        Some(v) => if v <= u32::MAX {
            Some(v as u32)
        } else {
            None::<u32>
        },
        None => None::<u32>,
    }
    &&& r.height == match info.height {
        Some(v) => if v <= u32::MAX {
            Some(v as u32)
        } else {
            None::<u32>
        },
        None => None::<u32>,
    }
    &&& r.duration_unix_ms is None
    &&& r.size_bytes == info.size
    &&& r.blurhash == info.blurhash
    &&& !r.requires_reveal
}

/// The attachment of a sticker, whose files it registers.
pub fn sticker_attachment<S: Clone>(
    registry: &mut MediaRegistry<RegisteredMedia<S>>,
    event_id: &str,
    source: &MediaSourceRef<S>,
    info: &MediaInfoReport<S>,
) -> (r: RoomTimelineAttachment)
    requires
        old(registry).wf(),
    ensures
        final(registry).wf(),
        final(registry).served_view() == old(registry).served_view(),
        is_sticker_attachment(r, event_id@, *source, *info),
{
    let mime: Option<&str> = match &info.mimetype {
        Some(m) => Some(m.as_str()),
        None => None,
    };
    let media_handle = register_file_handle(registry, source, None, mime);
    let thumbnail_handle = image_like_thumbnail_handle(
        registry,
        source,
        info.thumbnail_source.as_ref(),
        clone_opt_string_ref(&info.thumbnail_mimetype),
    );
    RoomTimelineAttachment {
        event_id: event_id.to_owned(),
        media_type: RoomTimelineAttachmentType::Sticker,
        media_handle,
        thumbnail_handle,
        filename: None,
        display_caption: None,
        mime_type: clone_opt_string_ref(&info.mimetype),
        width: optional_uint_to_u32(info.width),
        height: optional_uint_to_u32(info.height),
        duration_unix_ms: None,
        size_bytes: info.size,
        blurhash: clone_opt_string_ref(&info.blurhash),
        requires_reveal: false,
    }
}

/// The attachments of a message: one for a media message, none for any
/// other kind.
pub fn attachments_from_message_type<S: Clone>(
    registry: &mut MediaRegistry<RegisteredMedia<S>>,
    event_id: &str,
    media: Option<(AttachmentMessageKind, &MediaContentReport<S>)>,
) -> (r: Vec<RoomTimelineAttachment>)
    requires
        old(registry).wf(),
    ensures
        final(registry).wf(),
        final(registry).served_view() == old(registry).served_view(),
        match media {
            Some((kind, content)) => r@.len() == 1 && is_message_attachment(r@[0], event_id@, kind, *content),
            None => r@.len() == 0,
        },
{
    let mut out: Vec<RoomTimelineAttachment> = Vec::new();
    match media {
        Some((kind, content)) => {
            let a = message_attachment(registry, event_id, kind, content);
            out.push(a);
        },
        None => {},
    }
    out
}

/// The attachments of a sticker event: its one attachment.
pub fn attachments_from_sticker<S: Clone>(
    registry: &mut MediaRegistry<RegisteredMedia<S>>,
    event_id: &str,
    source: &MediaSourceRef<S>,
    info: &MediaInfoReport<S>,
) -> (r: Vec<RoomTimelineAttachment>)
    requires
        old(registry).wf(),
    ensures
        final(registry).wf(),
        final(registry).served_view() == old(registry).served_view(),
        r@.len() == 1,
        is_sticker_attachment(r@[0], event_id@, *source, *info),
{
    let a = sticker_attachment(registry, event_id, source, info);
    let mut out: Vec<RoomTimelineAttachment> = Vec::new();
    out.push(a);
    out
}

} // verus!
