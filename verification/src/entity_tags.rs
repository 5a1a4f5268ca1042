//! Entity tags of payloads.

use headers::{ETag, Header, HeaderValue};
use vstd::prelude::*;

use crate::base64url::{
    base64url, encode_base64url, is_url_safe, lemma_base64url_chars, lemma_base64url_injective,
};

verus! {

/// Whether a character may stand between the quotes of an entity tag: it is visible, in ASCII and
/// no quote.
pub open spec fn is_tag_char(c: char) -> bool {
    '!' <= c <= '~' && c != '"'
}

/// Whether a text is a strong entity tag: a quoted run of tag characters.
pub open spec fn is_strong_tag(text: Seq<char>) -> bool {
    &&& text.len() >= 2
    &&& text[0] == '"'
    &&& text[text.len() - 1] == '"'
    &&& forall|i: int| 0 < i < text.len() - 1 ==> is_tag_char(#[trigger] text[i])
}

/// Whether a text is an entity tag: a strong one, or one that `W/` marks as weak.
pub open spec fn is_entity_tag(text: Seq<char>) -> bool {
    ||| is_strong_tag(text)
    ||| text.len() > 2 && text[0] == 'W' && text[1] == '/' && is_strong_tag(text.skip(2))
}

/// `ETag::from_str`: takes an entity tag as it is, and refuses any other text.
#[verifier::external_body]
pub(crate) fn parse_entity_tag(text: &str) -> (tag: Option<String>)
    requires
        forall|i: int| 0 <= i < text@.len() ==> '!' <= #[trigger] text@[i] <= '~',
    ensures
        tag is Some <==> is_entity_tag(text@),
        tag matches Some(tag) ==> tag@ == text@,
{
    let tag: ETag = text.parse().ok()?;
    let mut values: Vec<HeaderValue> = Vec::new();
    tag.encode(&mut values);
    Some(String::from_utf8_lossy(values[0].as_bytes()).into_owned())
}

/// The strong entity tag that quotes the base-64 text of a hash.
pub open spec fn tag_of_hash(hash: Seq<u8>) -> Seq<char> {
    seq!['"'] + base64url(hash) + seq!['"']
}

/// The entity tag of a hash is a strong one, and has no exclamation mark.
pub proof fn lemma_tag_of_hash_is_strong(hash: Seq<u8>)
    ensures
        is_strong_tag(tag_of_hash(hash)),
        !tag_of_hash(hash).contains('!'),
{
    lemma_base64url_chars(hash);
    let tag = tag_of_hash(hash);
    assert forall|i: int| 0 < i < tag.len() - 1 implies is_tag_char(#[trigger] tag[i]) by {
        assert(tag[i] == base64url(hash)[i - 1]);
        assert(is_url_safe(base64url(hash)[i - 1]));
    }
    assert forall|i: int| 0 <= i < tag.len() implies #[trigger] tag[i] != '!' by {
        if 0 < i < tag.len() - 1 {
            assert(is_url_safe(base64url(hash)[i - 1]));
        }
    }
}

/// The entity tag of a hash: its base-64 text, quoted.
pub fn hash_tag(hash: &[u8; 32]) -> (tag: String)
    ensures
        tag@ == tag_of_hash(hash@),
        is_strong_tag(tag@),
        !tag@.contains('!'),
{
    let encoded = encode_base64url(hash.as_slice());
    let mut text = "\"".to_owned();
    text.append(encoded.as_str());
    text.append("\"");
    proof {
        reveal_strlit("\"");
        lemma_tag_of_hash_is_strong(hash@);
        assert(text@ == tag_of_hash(hash@));
    }
    match parse_entity_tag(text.as_str()) {
        Some(tag) => tag,
        None => {
            // Base-64 text may always stand in an entity tag
            assert(false);
            text
        },
    }
}

/// Hashes have the same entity tag only if they are the same.
pub proof fn law_tag_tells_hashes_apart(a: Seq<u8>, b: Seq<u8>)
    ensures
        tag_of_hash(a) == tag_of_hash(b) <==> a == b,
{
    if tag_of_hash(a) == tag_of_hash(b) {
        let len = base64url(a).len() as int;
        assert(tag_of_hash(a).len() == len + 2);
        assert(tag_of_hash(b).len() == base64url(b).len() + 2);
        assert(base64url(a) == tag_of_hash(a).subrange(1, len + 1));
        assert(base64url(b) == tag_of_hash(b).subrange(1, len + 1));
        lemma_base64url_injective(a, b);
    }
}

} // verus!
