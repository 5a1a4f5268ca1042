//! Media types of payloads.

use headers::{ContentType, Header, HeaderValue};
use vstd::prelude::*;

verus! {

/// The media type of a payload that came without one.
pub const OCTET_STREAM: &'static str = "application/octet-stream";

/// Whether a byte may stand in a plain media type: a lower-case letter, a digit, `+`, `-` or `.`.
pub open spec fn is_plain(b: u8) -> bool {
    'a' as u8 <= b <= 'z' as u8 || '0' as u8 <= b <= '9' as u8 || b == '+' as u8 || b == '-' as u8 || b
        == '.' as u8
}

/// Whether a line of a header is a plain media type: a type and a subtype in plain bytes, with one
/// slash between them and no parameters.
pub open spec fn is_plain_media_type(line: Seq<u8>) -> bool {
    exists|slash: int|
        0 < slash < line.len() - 1 && #[trigger] line[slash] == '/' as u8 && forall|i: int|
            0 <= i < line.len() && i != slash ==> is_plain(#[trigger] line[i])
}

/// Whether a byte may stand in a line of a header: it is no control character but a tab.
pub open spec fn is_header_byte(b: u8) -> bool {
    b >= 0x20 && b != 0x7f || b == 0x09
}

/// Whether these can be the lines of a header.
pub open spec fn are_header_lines(lines: Seq<Seq<u8>>) -> bool {
    forall|i: int, j: int|
        0 <= i < lines.len() && 0 <= j < lines[i].len() ==> is_header_byte(#[trigger] lines[i][j])
}

/// The text of some bytes in ASCII.
pub open spec fn ascii_text(bytes: Seq<u8>) -> Seq<char> {
    bytes.map_values(|b: u8| b as char)
}

/// The media type that the lines of a `Content-Type` header give; `None` if they give none.
pub uninterp spec fn media_type(lines: Seq<Seq<u8>>) -> Option<Seq<char>>;

/// `ContentType::decode`: the text of the media type that a header gives, which depends on its lines
/// alone. A missing header gives none, and a header whose first line is a plain media type gives
/// that type as it is. Lines that cannot stand in a header give none.
#[verifier::external_body]
pub(crate) fn decode_content_type(lines: &Vec<Vec<u8>>) -> (given: Option<String>)
    ensures
        given is Some <==> media_type(lines.deep_view()) is Some,
        given matches Some(given) ==> media_type(lines.deep_view()) == Some(given@),
        lines@.len() == 0 || !are_header_lines(lines.deep_view()) ==> given is None,
        lines@.len() > 0 && are_header_lines(lines.deep_view()) && is_plain_media_type(
            lines.deep_view()[0],
        ) ==> {
            &&& given matches Some(given)
            &&& given@ == ascii_text(lines.deep_view()[0])
        },
{
    let values = lines.iter().map(|line| HeaderValue::from_bytes(line));
    let values: Vec<HeaderValue> = values.collect::<Result<_, _>>().ok()?;
    let given = ContentType::decode(&mut values.iter()).ok()?;
    Some(given.to_string())
}

/// The media type of a payload that came with the given lines of a `Content-Type` header: that of
/// arbitrary bytes if there are none or they are none of a header, and a plain media type as it is.
pub open spec fn media_type_or_default(lines: Seq<Seq<u8>>) -> Seq<char> {
    if lines.len() == 0 || !are_header_lines(lines) {
        OCTET_STREAM@
    } else if is_plain_media_type(lines[0]) {
        ascii_text(lines[0])
    } else {
        match media_type(lines) {
            Some(given) => given,
            None => OCTET_STREAM@,
        }
    }
}

/// A media type.
#[derive(Debug)]
pub struct MediaType {
    text: String,
}

impl View for MediaType {
    type V = Seq<char>;

    closed spec fn view(&self) -> Seq<char> {
        self.text@
    }
}

impl MediaType {
    /// The media type of arbitrary bytes.
    pub fn octet_stream() -> (media_type: Self)
        ensures
            media_type@ == OCTET_STREAM@,
    {
        MediaType { text: OCTET_STREAM.to_owned() }
    }

    /// The media type that a `Content-Type` header gives, or that of arbitrary bytes where the
    /// header is missing or cannot be read.
    pub fn from_header(lines: &Vec<Vec<u8>>) -> (media_type: Self)
        ensures
            media_type@ == media_type_or_default(lines.deep_view()),
    {
        MediaType::or_octet_stream(decode_content_type(lines))
    }

    /// The media type of the given text, or that of arbitrary bytes if there is none.
    pub fn or_octet_stream(given: Option<String>) -> (media_type: Self)
        ensures
            media_type@ == (match given {
                Some(text) => text@,
                None => OCTET_STREAM@,
            }),
    {
        match given {
            Some(text) => MediaType { text },
            None => MediaType::octet_stream(),
        }
    }

    /// The text of the media type.
    pub fn text(&self) -> (text: String)
        ensures
            text@ == self@,
    {
        self.text.clone()
    }
}

} // verus!
