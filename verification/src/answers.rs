//! What requests are answered, and what they do to the store, told by the parts of both.

use vstd::prelude::*;

use crate::base64url::base64url;
use crate::changes::{law_insertion, law_refusal};
use crate::conditions::{
    ascii, condition_line, contains_weakly, if_match_answer, if_match_verdict,
    if_none_match_answer, if_none_match_verdict, joined, law_listed_tags, lists, marked, quotes,
};
use crate::content_types::{
    are_header_lines, is_plain_media_type, media_type, media_type_or_default,
};
use crate::handlers::{
    after_delete, delete_answer, described, get_answer, posted, seen, updated, Response,
    ResponseView,
};
use crate::identifiers::{identifier_spelled, identifier_text};
use crate::payload::{content, sha256};
use crate::sessions::{Expiry, Failure, SessionView, SessionsView};
use crate::times::{expires_header, last_modified_header};

verus! {

/// A response that describes a session is the very one that was to be given, if both times of the
/// session are from the Unix epoch on and before the year 10000; else there is none.
pub proof fn law_description(response: ResponseView, session: SessionView)
    ensures
        described(response, session) == if 0 <= session.last_modified
            < 253_402_300_800_000_000_000 && 0 <= session.expires < 253_402_300_800_000_000_000 {
            Ok::<ResponseView, Failure>(response)
        } else {
            Err(Failure::Clock)
        },
{
}

/// What the kinds of responses are made of: a status alone; the headers of a session with it; the
/// location of a new one, which is 201; and its media type and payload, which is 200.
pub proof fn law_kinds_of_responses(status: u16, id: u128, session: SessionView)
    ensures
        ({
            let response = ResponseView::bare(status);
            &&& response.status == status
            &&& response.headers is None
            &&& response.location is None
            &&& response.content_type is None
            &&& response.body is None
        }),
        ({
            let response = ResponseView::about(status, session);
            &&& response.status == status
            &&& response.headers == Some(session.typed_headers())
            &&& response.location is None
            &&& response.content_type is None
            &&& response.body is None
        }),
        ({
            let response = ResponseView::created(id, session);
            &&& response.status == 201
            &&& response.headers == Some(session.typed_headers())
            &&& response.location == Some(identifier_text(id))
            &&& response.content_type is None
            &&& response.body is None
        }),
        ({
            let response = ResponseView::whole(session);
            &&& response.status == 200
            &&& response.headers == Some(session.typed_headers())
            &&& response.location is None
            &&& response.content_type == Some(session.content_type)
            &&& response.body == Some(session.data)
        }),
{
}

/// What is told of a response, and of one that may have failed, are its parts as they are.
pub proof fn law_parts_of_a_response(response: Response, outcome: Result<Response, Failure>)
    ensures
        response@.status == response.status,
        response@.headers is Some <==> response.headers is Some,
        response.headers matches Some(headers) ==> {
            &&& response@.headers->0.etag == headers.etag@
            &&& response@.headers->0.expires == headers.expires@
            &&& response@.headers->0.last_modified == headers.last_modified@
        },
        response@.location is Some <==> response.location is Some,
        response.location matches Some(location) ==> response@.location == Some(location@),
        response@.content_type is Some <==> response.content_type is Some,
        response.content_type matches Some(content_type) ==> response@.content_type == Some(
            content_type@,
        ),
        response@.body is Some <==> response.body is Some,
        response.body matches Some(body) ==> response@.body == Some(content(body)),
        outcome matches Ok(response) ==> seen(outcome) == Ok::<ResponseView, Failure>(response@),
        outcome matches Err(failure) ==> seen(outcome) == Err::<ResponseView, Failure>(failure),
{
}

/// The media type of a payload is that of arbitrary bytes if there is no header or one that can be
/// none; a plain media type in its first line as it is; and else what the header gives, if it gives
/// any.
pub proof fn law_media_type(lines: Seq<Seq<u8>>)
    ensures
        lines.len() == 0 ==> media_type_or_default(lines) == "application/octet-stream"@,
        !are_header_lines(lines) ==> media_type_or_default(lines) == "application/octet-stream"@,
        lines.len() > 0 && are_header_lines(lines) && is_plain_media_type(lines[0]) ==> {
            &&& media_type_or_default(lines).len() == lines[0].len()
            &&& forall|i: int|
                0 <= i < lines[0].len() ==> #[trigger] media_type_or_default(lines)[i]
                    == lines[0][i] as char
        },
        lines.len() > 0 && are_header_lines(lines) && !is_plain_media_type(lines[0])
            ==> media_type_or_default(lines) == (match media_type(lines) {
            Some(given) => given,
            None => "application/octet-stream"@,
        }),
{
}

/// The lines of a header stand for one line, in which a comma and a space part them.
pub proof fn law_joined_lines(lines: Seq<Seq<u8>>, line: Seq<u8>)
    ensures
        joined(Seq::empty()) == Seq::<u8>::empty(),
        joined(seq![line]) == line,
        lines.len() > 0 ==> joined(lines.push(line)) == joined(lines) + seq![0x2cu8, 0x20u8] + line,
{
    assert(lines.push(line).drop_last() == lines);
}

/// There are as many quotes in a line as bytes that are one.
proof fn lemma_quotes(line: Seq<u8>)
    ensures
        quotes(line) == line.filter(|b: u8| b == 0x22u8).len(),
    decreases line.len(),
{
    reveal(Seq::filter);
    if line.len() > 0 {
        lemma_quotes(line.drop_last());
    }
}

/// The line that a condition is read from is that of the header, byte for byte, but for an
/// exclamation mark in place of every blank that has an odd number of quotes before it.
pub proof fn law_condition_line(lines: Seq<Seq<u8>>, i: int)
    ensures
        condition_line(lines).len() == joined(lines).len(),
        0 <= i < joined(lines).len() ==> condition_line(lines)[i] == if (joined(lines)[i] == 0x20 || joined(lines)[i] == 0x09)
            && joined(lines).take(i).filter(|b: u8| b == 0x22u8).len() % 2 == 1 {
            0x21u8
        } else {
            joined(lines)[i]
        },
{
    lemma_quotes(joined(lines).take(i));
    assert(condition_line(lines) == marked(joined(lines)));
}

/// What an `If-Match` header says for a resource with an entity tag: nothing if it is missing; `*`
/// always lets pass; a list of entity tags lets pass if the tag is among them; and any other header
/// has the verdict on its line.
pub proof fn law_if_match(lines: Seq<Seq<u8>>, tag: Seq<char>, tags: Seq<Seq<u8>>)
    ensures
        lines.len() == 0 ==> if_match_answer(lines, tag) is None,
        lines.len() > 0 && joined(lines) == seq![0x2au8] ==> if_match_answer(lines, tag) == Some(
            true,
        ),
        lines.len() > 0 && lists(joined(lines), tags) ==> if_match_answer(lines, tag) == Some(
            tags.contains(ascii(tag)),
        ),
        lines.len() > 0 && joined(lines) != seq![0x2au8] && !(exists|listed: Seq<Seq<u8>>|
            lists(joined(lines), listed)) ==> if_match_answer(lines, tag) == if_match_verdict(
            condition_line(lines),
            tag,
        ),
{
    if lines.len() > 0 && lists(joined(lines), tags) {
        law_listed_tags(lines, tags, tag);
    }
}

/// What an `If-None-Match` header says for a resource with an entity tag: nothing if it is missing;
/// `*` never lets pass; a list of entity tags lets pass if the tag is not among them, be they weak
/// or strong; and any other header has the verdict on its line.
pub proof fn law_if_none_match(lines: Seq<Seq<u8>>, tag: Seq<char>, tags: Seq<Seq<u8>>)
    ensures
        lines.len() == 0 ==> if_none_match_answer(lines, tag) is None,
        lines.len() > 0 && joined(lines) == seq![0x2au8] ==> if_none_match_answer(lines, tag)
            == Some(false),
        lines.len() > 0 && lists(joined(lines), tags) ==> if_none_match_answer(lines, tag) == Some(
            !contains_weakly(tags, ascii(tag)),
        ),
        lines.len() > 0 && joined(lines) != seq![0x2au8] && !(exists|listed: Seq<Seq<u8>>|
            lists(joined(lines), listed)) ==> if_none_match_answer(lines, tag)
            == if_none_match_verdict(condition_line(lines), tag),
{
    if lines.len() > 0 && lists(joined(lines), tags) {
        law_listed_tags(lines, tags, tag);
    }
}

/// A request for a new session that creates none changes nothing: a payload over the limit is
/// answered 413; else a time of creation or of expiry that is none in signed 64-bit seconds, or an
/// identifier that cannot grow, is a failure.
pub proof fn law_post_refused(
    before: SessionsView,
    after: SessionsView,
    now: i128,
    max_bytes: usize,
    content_type: Seq<Seq<u8>>,
    payload: Seq<u8>,
    outcome: (Result<Response, Failure>, Option<Expiry>),
)
    requires
        posted(before, after, now, max_bytes, content_type, payload, outcome),
    ensures
        outcome.1 is None ==> after == before,
        payload.len() > max_bytes ==> {
            &&& after == before
            &&& outcome.1 is None
            &&& outcome.0 matches Ok(response)
            &&& response.status == 413
            &&& response.headers is None
            &&& response.location is None
            &&& response.content_type is None
            &&& response.body is None
        },
        ({
            let first: int = -9_223_372_036_854_775_808_000_000_000;
            let last: int = 9_223_372_036_854_775_807_999_999_999;
            let times = first <= now <= last && first <= now + before.ttl <= last;
            let millis = if now < 0 {
                0
            } else {
                now as int / 1_000_000
            };
            let full = {
                &&& millis <= before.last_id as int / 0x1_0000_0000_0000_0000_0000
                &&& before.last_id as int % 0x1_0000_0000_0000_0000_0000
                    == 0xffff_ffff_ffff_ffff_ffff
            };
            &&& payload.len() <= max_bytes && !times ==> {
                &&& after == before
                &&& outcome.1 is None
                &&& outcome.0 == Err::<Response, Failure>(Failure::Clock)
            }
            &&& payload.len() <= max_bytes && times && full ==> {
                &&& after == before
                &&& outcome.1 is None
                &&& outcome.0 == Err::<Response, Failure>(Failure::Identifiers)
            }
            &&& payload.len() <= max_bytes && times && !full ==> outcome.1 is Some
        }),
{
    law_refusal(before, now as int);
}

/// A request for a new session that creates one puts it into the store: the payload as it is, with
/// its media type, from now on until the time to live is over, under an identifier that follows the
/// last one, and with a removal that is due after the time to live. Other sessions go only at the
/// hard capacity: then all those with at least as many newer ones as the capacity. The response is
/// 201 with the location and the headers of the session, if its times have dates.
pub proof fn law_post_creates(
    before: SessionsView,
    after: SessionsView,
    now: i128,
    max_bytes: usize,
    content_type: Seq<Seq<u8>>,
    payload: Seq<u8>,
    response: Result<Response, Failure>,
    expiry: Expiry,
    other: u128,
)
    requires
        before.wf(),
        posted(
            before,
            after,
            now,
            max_bytes,
            content_type,
            payload,
            (response, Some(expiry)),
        ),
    ensures
        payload.len() <= max_bytes,
        expiry.after == before.ttl,
        ({
            let millis = if now < 0 {
                0
            } else {
                now as int / 1_000_000
            };
            if millis <= before.last_id as int / 0x1_0000_0000_0000_0000_0000 {
                expiry.id == before.last_id + 1
            } else {
                expiry.id as int / 0x1_0000_0000_0000_0000_0000 == millis % 0x1_0000_0000_0000
            }
        }),
        after.last_id == expiry.id,
        after.capacity == before.capacity,
        after.hard_capacity == before.hard_capacity,
        after.ttl == before.ttl,
        after.sessions.contains_key(expiry.id),
        after.sessions[expiry.id].data == payload,
        after.sessions[expiry.id].hash == sha256(payload),
        after.sessions[expiry.id].content_type == media_type_or_default(content_type),
        after.sessions[expiry.id].last_modified == now,
        after.sessions[expiry.id].expires == now + before.ttl,
        other != expiry.id ==> {
            &&& after.sessions.contains_key(other) <==> {
                &&& before.sessions.contains_key(other)
                &&& before.sessions.len() + 1 < 2 * before.capacity || before.sessions.dom().filter(
                    |newer: u128| newer > other,
                ).len() < before.capacity
            }
            &&& after.sessions.contains_key(other) ==> after.sessions[other]
                == before.sessions[other]
        },
        0 <= now < 253_402_300_800_000_000_000 && 0 <= now + before.ttl
            < 253_402_300_800_000_000_000 ==> {
            &&& response matches Ok(response)
            &&& response.status == 201
            &&& response.headers matches Some(headers)
            &&& headers.etag@ == seq!['"'] + base64url(sha256(payload)) + seq!['"']
            &&& headers.expires@ == expires_header(((now + before.ttl) / 1_000_000_000) as u64)
            &&& headers.last_modified@ == last_modified_header(
                (now as int / 1_000_000_000) as u64,
            )
            &&& response.location matches Some(location)
            &&& location@ == identifier_text(expiry.id)
            &&& response.content_type is None
            &&& response.body is None
        },
        !(0 <= now < 253_402_300_800_000_000_000 && 0 <= now + before.ttl
            < 253_402_300_800_000_000_000) ==> response == Err::<
            Response,
            Failure,
        >(Failure::Clock),
{
    let session = SessionView::fresh(
        payload,
        media_type_or_default(content_type),
        now as int,
        before.ttl,
    );
    law_insertion(before.counted(expiry.id), expiry.id, session, other);
}

/// A request to update a session that does not get as far as its condition changes nothing: an
/// identifier that is none is answered 400; else a payload over the limit 413, be there such a
/// session or not; and else a session that is not there 404.
pub proof fn law_put_refused(
    before: SessionsView,
    after: SessionsView,
    now: i128,
    max_bytes: usize,
    id: Seq<char>,
    content_type: Seq<Seq<u8>>,
    if_match: Seq<Seq<u8>>,
    payload: Seq<u8>,
    outcome: Result<Response, Failure>,
)
    requires
        updated(before, after, now, max_bytes, id, content_type, if_match, payload, outcome),
        identifier_spelled(id) is None || payload.len() > max_bytes
            || !before.sessions.contains_key(identifier_spelled(id)->0),
    ensures
        after == before,
        ({
            &&& outcome matches Ok(response)
            &&& response.status == if identifier_spelled(id) is None {
                400
            } else if payload.len() > max_bytes {
                413
            } else {
                404int
            }
            &&& response.headers is None
            &&& response.location is None
            &&& response.content_type is None
            &&& response.body is None
        }),
{
}

/// A request to update a session on the condition of entity tags that the session has none of is
/// answered 412 with the headers of the session as it is, if its times have dates, and changes
/// nothing; so is every other request whose condition does not let it pass.
pub proof fn law_put_blocked(
    before: SessionsView,
    after: SessionsView,
    now: i128,
    max_bytes: usize,
    id: Seq<char>,
    content_type: Seq<Seq<u8>>,
    if_match: Seq<Seq<u8>>,
    payload: Seq<u8>,
    outcome: Result<Response, Failure>,
    key: u128,
    tags: Seq<Seq<u8>>,
)
    requires
        before.wf(),
        updated(before, after, now, max_bytes, id, content_type, if_match, payload, outcome),
        identifier_spelled(id) == Some(key),
        before.sessions.contains_key(key),
        payload.len() <= max_bytes,
        ({
            let tag = seq!['"'] + base64url(sha256(before.sessions[key].data)) + seq!['"'];
            ||| if_match.len() > 0 && lists(joined(if_match), tags) && !tags.contains(ascii(tag))
            ||| if_match_answer(if_match, tag) == Some(false)
        }),
    ensures
        after == before,
        0 <= before.sessions[key].last_modified < 253_402_300_800_000_000_000 && 0 <= before.sessions[key].expires
            < 253_402_300_800_000_000_000 ==> {
            &&& outcome matches Ok(response)
            &&& response.status == 412
            &&& response.headers matches Some(headers)
            &&& headers.etag@ == seq!['"'] + base64url(sha256(before.sessions[key].data)) + seq!['"']
            &&& headers.expires@ == expires_header((before.sessions[key].expires / 1_000_000_000) as u64)
            &&& headers.last_modified@ == last_modified_header(
                (before.sessions[key].last_modified / 1_000_000_000) as u64,
            )
            &&& response.location is None
            &&& response.content_type is None
            &&& response.body is None
        },
        !(0 <= before.sessions[key].last_modified < 253_402_300_800_000_000_000 && 0 <= before.sessions[key].expires
            < 253_402_300_800_000_000_000) ==> outcome == Err::<
            Response,
            Failure,
        >(Failure::Clock),
{
    let tag = seq!['"'] + base64url(sha256(before.sessions[key].data)) + seq!['"'];
    if if_match.len() > 0 && lists(joined(if_match), tags) {
        law_listed_tags(if_match, tags, tag);
    }
}

/// A request to update a session without a condition, on the condition that there is any, or on the
/// condition of entity tags that the session has one of, is carried out, and so is every other one
/// whose condition does not keep it from passing. Whatever the media type: the session then has the
/// payload and its media type, is last modified now and expires when it did, and nothing else
/// changes. The response is 202 with the new headers, if the times have dates.
pub proof fn law_put_carried_out(
    before: SessionsView,
    after: SessionsView,
    now: i128,
    max_bytes: usize,
    id: Seq<char>,
    content_type: Seq<Seq<u8>>,
    if_match: Seq<Seq<u8>>,
    payload: Seq<u8>,
    outcome: Result<Response, Failure>,
    key: u128,
    tags: Seq<Seq<u8>>,
    other: u128,
)
    requires
        before.wf(),
        updated(before, after, now, max_bytes, id, content_type, if_match, payload, outcome),
        identifier_spelled(id) == Some(key),
        before.sessions.contains_key(key),
        payload.len() <= max_bytes,
        ({
            let tag = seq!['"'] + base64url(sha256(before.sessions[key].data)) + seq!['"'];
            ||| if_match.len() == 0
            ||| joined(if_match) == seq![0x2au8]
            ||| lists(joined(if_match), tags) && tags.contains(ascii(tag))
            ||| if_match_answer(if_match, tag) != Some(false)
        }),
    ensures
        after.sessions.dom() == before.sessions.dom(),
        after.sessions[key].data == payload,
        after.sessions[key].hash == sha256(payload),
        after.sessions[key].content_type == media_type_or_default(content_type),
        after.sessions[key].last_modified == now,
        after.sessions[key].expires == before.sessions[key].expires,
        other != key ==> after.sessions[other] == before.sessions[other],
        after.last_id == before.last_id,
        after.capacity == before.capacity,
        after.hard_capacity == before.hard_capacity,
        after.ttl == before.ttl,
        0 <= now < 253_402_300_800_000_000_000 && 0 <= before.sessions[key].expires
            < 253_402_300_800_000_000_000 ==> {
            &&& outcome matches Ok(response)
            &&& response.status == 202
            &&& response.headers matches Some(headers)
            &&& headers.etag@ == seq!['"'] + base64url(sha256(payload)) + seq!['"']
            &&& headers.expires@ == expires_header((before.sessions[key].expires / 1_000_000_000) as u64)
            &&& headers.last_modified@ == last_modified_header(
                (now as int / 1_000_000_000) as u64,
            )
            &&& response.location is None
            &&& response.content_type is None
            &&& response.body is None
        },
        !(0 <= now < 253_402_300_800_000_000_000 && 0 <= before.sessions[key].expires
            < 253_402_300_800_000_000_000) ==> outcome == Err::<
            Response,
            Failure,
        >(Failure::Clock),
{
    let tag = seq!['"'] + base64url(sha256(before.sessions[key].data)) + seq!['"'];
    if if_match.len() > 0 && lists(joined(if_match), tags) {
        law_listed_tags(if_match, tags, tag);
    }
    assert(after.sessions.dom() =~= before.sessions.dom());
}

/// A request for a session with an identifier that is none is answered 400, and one for a session
/// that is not there 404.
pub proof fn law_get_refused(
    sessions: SessionsView,
    id: Seq<char>,
    if_none_match: Seq<Seq<u8>>,
    outcome: Result<Response, Failure>,
)
    requires
        seen(outcome) == get_answer(sessions, id, if_none_match),
        identifier_spelled(id) is None || !sessions.sessions.contains_key(
            identifier_spelled(id)->0,
        ),
    ensures
        ({
            &&& outcome matches Ok(response)
            &&& response.status == if identifier_spelled(id) is None {
                400
            } else {
                404int
            }
            &&& response.headers is None
            &&& response.location is None
            &&& response.content_type is None
            &&& response.body is None
        }),
{
}

/// A request for a session on the condition of entity tags that the session has one of, weak or
/// strong, or on the condition that there is none at all, is answered 304 with the headers of the
/// session and without its payload, if its times have dates; so is every other request whose
/// condition does not let it pass.
pub proof fn law_get_not_modified(
    sessions: SessionsView,
    id: Seq<char>,
    if_none_match: Seq<Seq<u8>>,
    outcome: Result<Response, Failure>,
    key: u128,
    tags: Seq<Seq<u8>>,
)
    requires
        sessions.wf(),
        seen(outcome) == get_answer(sessions, id, if_none_match),
        identifier_spelled(id) == Some(key),
        sessions.sessions.contains_key(key),
        ({
            let tag = seq!['"'] + base64url(sha256(sessions.sessions[key].data)) + seq!['"'];
            ||| if_none_match.len() > 0 && joined(if_none_match) == seq![0x2au8]
            ||| if_none_match.len() > 0 && lists(joined(if_none_match), tags) && contains_weakly(
                tags,
                ascii(tag),
            )
            ||| if_none_match_answer(if_none_match, tag) == Some(false)
        }),
    ensures
        0 <= sessions.sessions[key].last_modified < 253_402_300_800_000_000_000 && 0 <= sessions.sessions[key].expires
            < 253_402_300_800_000_000_000 ==> {
            &&& outcome matches Ok(response)
            &&& response.status == 304
            &&& response.headers matches Some(headers)
            &&& headers.etag@ == seq!['"'] + base64url(sha256(sessions.sessions[key].data)) + seq!['"']
            &&& headers.expires@ == expires_header((sessions.sessions[key].expires / 1_000_000_000) as u64)
            &&& headers.last_modified@ == last_modified_header(
                (sessions.sessions[key].last_modified / 1_000_000_000) as u64,
            )
            &&& response.location is None
            &&& response.content_type is None
            &&& response.body is None
        },
        !(0 <= sessions.sessions[key].last_modified < 253_402_300_800_000_000_000 && 0 <= sessions.sessions[key].expires
            < 253_402_300_800_000_000_000) ==> outcome == Err::<
            Response,
            Failure,
        >(Failure::Clock),
{
    let tag = seq!['"'] + base64url(sha256(sessions.sessions[key].data)) + seq!['"'];
    if if_none_match.len() > 0 && lists(joined(if_none_match), tags) {
        law_listed_tags(if_none_match, tags, tag);
    }
}

/// A request for a session without a condition, or on the condition of entity tags that the session
/// has none of, is answered 200 with the headers of the session, its media type and its payload as
/// it is, if its times have dates; so is every other request whose condition does not keep it from
/// passing.
pub proof fn law_get_shows(
    sessions: SessionsView,
    id: Seq<char>,
    if_none_match: Seq<Seq<u8>>,
    outcome: Result<Response, Failure>,
    key: u128,
    tags: Seq<Seq<u8>>,
)
    requires
        sessions.wf(),
        seen(outcome) == get_answer(sessions, id, if_none_match),
        identifier_spelled(id) == Some(key),
        sessions.sessions.contains_key(key),
        ({
            let tag = seq!['"'] + base64url(sha256(sessions.sessions[key].data)) + seq!['"'];
            ||| if_none_match.len() == 0
            ||| lists(joined(if_none_match), tags) && !contains_weakly(tags, ascii(tag))
            ||| if_none_match_answer(if_none_match, tag) != Some(false)
        }),
    ensures
        0 <= sessions.sessions[key].last_modified < 253_402_300_800_000_000_000 && 0 <= sessions.sessions[key].expires
            < 253_402_300_800_000_000_000 ==> {
            &&& outcome matches Ok(response)
            &&& response.status == 200
            &&& response.headers matches Some(headers)
            &&& headers.etag@ == seq!['"'] + base64url(sha256(sessions.sessions[key].data)) + seq!['"']
            &&& headers.expires@ == expires_header((sessions.sessions[key].expires / 1_000_000_000) as u64)
            &&& headers.last_modified@ == last_modified_header(
                (sessions.sessions[key].last_modified / 1_000_000_000) as u64,
            )
            &&& response.location is None
            &&& response.content_type matches Some(content_type)
            &&& content_type@ == sessions.sessions[key].content_type
            &&& response.body matches Some(body)
            &&& content(body) == sessions.sessions[key].data
        },
        !(0 <= sessions.sessions[key].last_modified < 253_402_300_800_000_000_000 && 0 <= sessions.sessions[key].expires
            < 253_402_300_800_000_000_000) ==> outcome == Err::<
            Response,
            Failure,
        >(Failure::Clock),
{
    let tag = seq!['"'] + base64url(sha256(sessions.sessions[key].data)) + seq!['"'];
    if if_none_match.len() > 0 && lists(joined(if_none_match), tags) {
        law_listed_tags(if_none_match, tags, tag);
    }
}

/// A request to delete a session takes that session out of the store and is answered 204, if there
/// is such a session; else nothing changes, and an identifier that is none is answered 400, and a
/// session that is not there 404.
pub proof fn law_delete(sessions: SessionsView, id: Seq<char>, response: Response)
    requires
        response@ == delete_answer(sessions, id),
    ensures
        response.status == if identifier_spelled(id) is None {
            400
        } else if sessions.sessions.contains_key(identifier_spelled(id)->0) {
            204
        } else {
            404int
        },
        response.headers is None,
        response.location is None,
        response.content_type is None,
        response.body is None,
        identifier_spelled(id) is None ==> after_delete(sessions, id) == sessions,
        identifier_spelled(id) matches Some(key) ==> {
            &&& after_delete(sessions, id).sessions == sessions.sessions.remove(key)
            &&& after_delete(sessions, id).last_id == sessions.last_id
            &&& after_delete(sessions, id).capacity == sessions.capacity
            &&& after_delete(sessions, id).hard_capacity == sessions.hard_capacity
            &&& after_delete(sessions, id).ttl == sessions.ttl
        },
{
}

} // verus!
