//! How requests to the store are answered.

use bytes::Bytes;
use vstd::prelude::*;

use crate::conditions::{
    check_if_match, check_if_none_match, if_match_blocks, if_none_match_blocks,
};
use crate::content_types::{media_type_or_default, MediaType};
use crate::identifiers::{
    epoch_millis, follows, identifier_spelled, identifier_text, read_identifier, write_identifier,
};
use crate::payload::content;
use crate::sessions::{
    Expiry, Failure, Session, SessionView, Sessions, SessionsView, TypedHeaders, TypedHeadersView,
};
use crate::times::{is_reading, now};

verus! {

pub const OK: u16 = 200;

pub const CREATED: u16 = 201;

pub const ACCEPTED: u16 = 202;

pub const NO_CONTENT: u16 = 204;

pub const NOT_MODIFIED: u16 = 304;

pub const BAD_REQUEST: u16 = 400;

pub const NOT_FOUND: u16 = 404;

pub const PRECONDITION_FAILED: u16 = 412;

pub const PAYLOAD_TOO_LARGE: u16 = 413;

/// What a response is made of.
#[verifier::ext_equal]
pub struct ResponseView {
    pub status: u16,
    pub headers: Option<TypedHeadersView>,
    pub location: Option<Seq<char>>,
    pub content_type: Option<Seq<char>>,
    pub body: Option<Seq<u8>>,
}

impl ResponseView {
    /// A response that is nothing but its status.
    pub open spec fn bare(status: u16) -> Self {
        ResponseView { status, headers: None, location: None, content_type: None, body: None }
    }

    /// A response that describes a session.
    pub open spec fn about(status: u16, session: SessionView) -> Self {
        ResponseView { headers: Some(session.typed_headers()), ..ResponseView::bare(status) }
    }

    /// A response that describes a session and tells where it is.
    pub open spec fn created(id: u128, session: SessionView) -> Self {
        ResponseView {
            location: Some(identifier_text(id)),
            ..ResponseView::about(CREATED, session)
        }
    }

    /// A response that describes a session and holds its payload.
    pub open spec fn whole(session: SessionView) -> Self {
        ResponseView {
            content_type: Some(session.content_type),
            body: Some(session.data),
            ..ResponseView::about(OK, session)
        }
    }
}

/// A response that describes a session, or a failure if a time of the session has no date.
pub open spec fn described(response: ResponseView, session: SessionView) -> Result<
    ResponseView,
    Failure,
> {
    if session.has_dates() {
        Ok(response)
    } else {
        Err(Failure::Clock)
    }
}

/// A response: its status, and what there is to send with it.
#[derive(Debug)]
pub struct Response {
    pub status: u16,
    /// The headers that describe the session.
    pub headers: Option<TypedHeaders>,
    /// The identifier of a new session.
    pub location: Option<String>,
    /// The media type of the payload.
    pub content_type: Option<String>,
    /// The payload.
    pub body: Option<Bytes>,
}

impl View for Response {
    type V = ResponseView;

    open spec fn view(&self) -> ResponseView {
        ResponseView {
            status: self.status,
            headers: match self.headers {
                Some(headers) => Some(headers@),
                None => None,
            },
            location: match self.location {
                Some(location) => Some(location@),
                None => None,
            },
            content_type: match self.content_type {
                Some(content_type) => Some(content_type@),
                None => None,
            },
            body: match self.body {
                Some(body) => Some(content(body)),
                None => None,
            },
        }
    }
}

impl Response {
    /// A response that is nothing but its status.
    fn bare(status: u16) -> (response: Self)
        ensures
            response@ == ResponseView::bare(status),
    {
        Response { status, headers: None, location: None, content_type: None, body: None }
    }

    /// A response with the headers that describe a session, if its times have dates.
    fn about(status: u16, session: &Session) -> (response: Result<Self, Failure>)
        ensures
            seen(response) == described(ResponseView::about(status, session@), session@),
    {
        if session.has_dates() {
            Ok(
                Response {
                    status,
                    headers: Some(session.typed_headers()),
                    location: None,
                    content_type: None,
                    body: None,
                },
            )
        } else {
            Err(Failure::Clock)
        }
    }
}

/// What a response that may have failed is made of.
pub open spec fn seen(response: Result<Response, Failure>) -> Result<ResponseView, Failure> {
    match response {
        Ok(response) => Ok(response@),
        Err(failure) => Err(failure),
    }
}

/// What comes of a request for a new session that arrives at a time: a payload over the limit is
/// refused; else a session is created, unless the clock or the identifiers fail. The response then
/// describes the session, if its times have dates.
pub open spec fn posted(
    before: SessionsView,
    after: SessionsView,
    now: i128,
    max_bytes: usize,
    content_type: Seq<Seq<u8>>,
    payload: Seq<u8>,
    outcome: (Result<Response, Failure>, Option<Expiry>),
) -> bool {
    let (response, expiry) = outcome;
    if payload.len() > max_bytes {
        &&& seen(response) == Ok::<ResponseView, Failure>(ResponseView::bare(PAYLOAD_TOO_LARGE))
        &&& expiry is None
        &&& after == before
    } else if before.refusal(now as int) is Some {
        &&& response == Err::<Response, Failure>(before.refusal(now as int)->0)
        &&& expiry is None
        &&& after == before
    } else {
        let session = SessionView::fresh(
            payload,
            media_type_or_default(content_type),
            now as int,
            before.ttl,
        );
        &&& expiry matches Some(expiry)
        &&& follows(before.last_id, epoch_millis(now as int), expiry.id)
        &&& expiry.after == before.ttl
        &&& after == before.counted(expiry.id).inserted(expiry.id, session)
        &&& seen(response) == described(ResponseView::created(expiry.id, session), session)
    }
}

/// Answers a request for a new session that arrives at a time. The session is to be deleted once
/// the time that is returned with the response is over, be it that it could be described or not.
pub fn new_session_at(
    sessions: &mut Sessions,
    now: i128,
    max_bytes: usize,
    content_type: &Vec<Vec<u8>>,
    payload: Bytes,
) -> (outcome: (Result<Response, Failure>, Option<Expiry>))
    requires
        old(sessions)@.wf(),
    ensures
        final(sessions)@.wf(),
        posted(
            old(sessions)@,
            final(sessions)@,
            now,
            max_bytes,
            content_type.deep_view(),
            content(payload),
            outcome,
        ),
{
    if payload.len() > max_bytes {
        return (Ok(Response::bare(PAYLOAD_TOO_LARGE)), None);
    }
    let content_type = MediaType::from_header(content_type);
    let expiry = match sessions.new_session(now, payload, content_type) {
        Ok(expiry) => expiry,
        Err(failure) => return (Err(failure), None),
    };
    match sessions.get_session(expiry.id) {
        Some(session) => {
            let response = match Response::about(CREATED, session) {
                Ok(response) => {
                    let location = write_identifier(expiry.id);
                    Ok(Response { location: Some(location), ..response })
                },
                Err(failure) => Err(failure),
            };
            (response, Some(expiry))
        },
        None => {
            // The session was just put in
            assert(false);
            (Ok(Response::bare(NOT_FOUND)), None)
        },
    }
}

/// Answers a request for a new session. The session is to be deleted once the time that is returned
/// with the response is over, be it that it could be described or not.
pub fn new_session(
    sessions: &mut Sessions,
    max_bytes: usize,
    content_type: &Vec<Vec<u8>>,
    payload: Bytes,
) -> (outcome: (Result<Response, Failure>, Option<Expiry>))
    requires
        old(sessions)@.wf(),
    ensures
        final(sessions)@.wf(),
        exists|now: i128|
            is_reading(now as int) && posted(
                old(sessions)@,
                final(sessions)@,
                now,
                max_bytes,
                content_type.deep_view(),
                content(payload),
                outcome,
            ),
{
    new_session_at(sessions, now(), max_bytes, content_type, payload)
}

/// The answer to a request to delete a session.
pub open spec fn delete_answer(sessions: SessionsView, id: Seq<char>) -> ResponseView {
    match identifier_spelled(id) {
        None => ResponseView::bare(BAD_REQUEST),
        Some(id) => if sessions.sessions.contains_key(id) {
            ResponseView::bare(NO_CONTENT)
        } else {
            ResponseView::bare(NOT_FOUND)
        },
    }
}

/// The store after a request to delete a session.
pub open spec fn after_delete(sessions: SessionsView, id: Seq<char>) -> SessionsView {
    match identifier_spelled(id) {
        None => sessions,
        Some(id) => sessions.removed(id),
    }
}

/// Answers a request to delete a session.
pub fn delete_session(sessions: &mut Sessions, id: &str) -> (response: Response)
    requires
        old(sessions)@.wf(),
    ensures
        final(sessions)@.wf(),
        final(sessions)@ == after_delete(old(sessions)@, id@),
        response@ == delete_answer(old(sessions)@, id@),
{
    match read_identifier(id) {
        None => Response::bare(BAD_REQUEST),
        Some(id) => if sessions.delete_session(id) {
            Response::bare(NO_CONTENT)
        } else {
            Response::bare(NOT_FOUND)
        },
    }
}

/// The answer to a request to update a session that is not carried out, if it is not: the identifier
/// is none, the payload is over the limit, there is no such session, or the `If-Match` header does
/// not let the request pass.
pub open spec fn update_refusal(
    sessions: SessionsView,
    max_bytes: usize,
    id: Seq<char>,
    if_match: Seq<Seq<u8>>,
    payload: Seq<u8>,
) -> Option<Result<ResponseView, Failure>> {
    match identifier_spelled(id) {
        None => Some(Ok(ResponseView::bare(BAD_REQUEST))),
        Some(id) => if payload.len() > max_bytes {
            Some(Ok(ResponseView::bare(PAYLOAD_TOO_LARGE)))
        } else if !sessions.sessions.contains_key(id) {
            Some(Ok(ResponseView::bare(NOT_FOUND)))
        } else if if_match_blocks(if_match, sessions.sessions[id].etag()) {
            let session = sessions.sessions[id];
            Some(described(ResponseView::about(PRECONDITION_FAILED, session), session))
        } else {
            None
        },
    }
}

/// What comes of a request to update a session that arrives at a time: unless it is refused, the
/// session gets the payload. The response then describes the session, if its times have dates.
pub open spec fn updated(
    before: SessionsView,
    after: SessionsView,
    now: i128,
    max_bytes: usize,
    id: Seq<char>,
    content_type: Seq<Seq<u8>>,
    if_match: Seq<Seq<u8>>,
    payload: Seq<u8>,
    outcome: Result<Response, Failure>,
) -> bool {
    let refusal = update_refusal(before, max_bytes, id, if_match, payload);
    if refusal is Some {
        seen(outcome) == refusal->0 && after == before
    } else {
        let id = identifier_spelled(id)->0;
        let session = before.sessions[id].updated(
            payload,
            media_type_or_default(content_type),
            now as int,
        );
        &&& seen(outcome) == described(ResponseView::about(ACCEPTED, session), session)
        &&& after == before.put(id, session)
    }
}

/// Updates a session that was found, at a time, unless a condition on it does not pass.
pub fn update_found(
    session: &mut Session,
    passes: Option<bool>,
    now: i128,
    content_type: MediaType,
    payload: Bytes,
) -> (outcome: Result<Response, Failure>)
    ensures
        if passes == Some(false) {
            &&& final(session)@ == old(session)@
            &&& seen(outcome) == described(
                ResponseView::about(PRECONDITION_FAILED, old(session)@),
                old(session)@,
            )
        } else {
            &&& final(session)@ == old(session)@.updated(
                content(payload),
                content_type@,
                now as int,
            )
            &&& seen(outcome) == described(
                ResponseView::about(ACCEPTED, final(session)@),
                final(session)@,
            )
        },
{
    if let Some(false) = passes {
        return Response::about(PRECONDITION_FAILED, session);
    }
    session.update(payload, content_type, now);
    Response::about(ACCEPTED, session)
}

/// Answers a request to update a session that arrives at a time.
pub fn update_session_at(
    sessions: &mut Sessions,
    now: i128,
    max_bytes: usize,
    id: &str,
    content_type: &Vec<Vec<u8>>,
    if_match: &Vec<Vec<u8>>,
    payload: Bytes,
) -> (outcome: Result<Response, Failure>)
    requires
        old(sessions)@.wf(),
    ensures
        final(sessions)@.wf(),
        updated(
            old(sessions)@,
            final(sessions)@,
            now,
            max_bytes,
            id@,
            content_type.deep_view(),
            if_match.deep_view(),
            content(payload),
            outcome,
        ),
{
    let id: u128 = match read_identifier(id) {
        Some(id) => id,
        None => return Ok(Response::bare(BAD_REQUEST)),
    };
    if payload.len() > max_bytes {
        return Ok(Response::bare(PAYLOAD_TOO_LARGE));
    }
    let session = match sessions.get_session_mut(id) {
        Some(session) => session,
        None => return Ok(Response::bare(NOT_FOUND)),
    };
    // A session that is put back as it is changes nothing
    assert(old(sessions)@.sessions.insert(id, session@) == old(sessions)@.sessions);
    let passes = check_if_match(if_match, session.etag().as_str());
    update_found(session, passes, now, MediaType::from_header(content_type), payload)
}

/// Answers a request to update a session.
pub fn update_session(
    sessions: &mut Sessions,
    max_bytes: usize,
    id: &str,
    content_type: &Vec<Vec<u8>>,
    if_match: &Vec<Vec<u8>>,
    payload: Bytes,
) -> (outcome: Result<Response, Failure>)
    requires
        old(sessions)@.wf(),
    ensures
        final(sessions)@.wf(),
        exists|now: i128|
            is_reading(now as int) && updated(
                old(sessions)@,
                final(sessions)@,
                now,
                max_bytes,
                id@,
                content_type.deep_view(),
                if_match.deep_view(),
                content(payload),
                outcome,
            ),
{
    update_session_at(sessions, now(), max_bytes, id, content_type, if_match, payload)
}

/// The answer to a request for a session: the identifier may be none, there may be no such session,
/// the `If-None-Match` header may not let the request pass, or a time of the session may have no
/// date.
pub open spec fn get_answer(
    sessions: SessionsView,
    id: Seq<char>,
    if_none_match: Seq<Seq<u8>>,
) -> Result<ResponseView, Failure> {
    match identifier_spelled(id) {
        None => Ok(ResponseView::bare(BAD_REQUEST)),
        Some(id) => if !sessions.sessions.contains_key(id) {
            Ok(ResponseView::bare(NOT_FOUND))
        } else if if_none_match_blocks(if_none_match, sessions.sessions[id].etag()) {
            let session = sessions.sessions[id];
            described(ResponseView::about(NOT_MODIFIED, session), session)
        } else {
            let session = sessions.sessions[id];
            described(ResponseView::whole(session), session)
        },
    }
}

/// Shows a session that was found, unless a condition on it does not pass.
pub fn show_found(session: &Session, passes: Option<bool>) -> (outcome: Result<Response, Failure>)
    ensures
        seen(outcome) == described(
            if passes == Some(false) {
                ResponseView::about(NOT_MODIFIED, session@)
            } else {
                ResponseView::whole(session@)
            },
            session@,
        ),
{
    if let Some(false) = passes {
        return Response::about(NOT_MODIFIED, session);
    }
    match Response::about(OK, session) {
        Ok(response) => Ok(
            Response {
                content_type: Some(session.content_type()),
                body: Some(session.data()),
                ..response
            },
        ),
        Err(failure) => Err(failure),
    }
}

/// Answers a request for a session.
pub fn get_session(
    sessions: &Sessions,
    id: &str,
    if_none_match: &Vec<Vec<u8>>,
) -> (outcome: Result<Response, Failure>)
    ensures
        seen(outcome) == get_answer(sessions@, id@, if_none_match.deep_view()),
{
    let id: u128 = match read_identifier(id) {
        Some(id) => id,
        None => return Ok(Response::bare(BAD_REQUEST)),
    };
    let session = match sessions.get_session(id) {
        Some(session) => session,
        None => return Ok(Response::bare(NOT_FOUND)),
    };
    let passes = check_if_none_match(if_none_match, session.etag().as_str());
    show_found(session, passes)
}

} // verus!
