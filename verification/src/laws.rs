//! What holds of the store as a whole.

use vstd::prelude::*;

use crate::conditions::{
    ascii, contains_weakly, is_checkable, is_strong_tag_line, joined, law_listed_tags, law_star,
    law_tags_in_lines, lists, STAR,
};
use crate::content_types::media_type_or_default;
use crate::entity_tags::{
    is_strong_tag, law_tag_tells_hashes_apart, lemma_tag_of_hash_is_strong, tag_of_hash,
};
use crate::eviction::{lemma_newest_are_largest, newer, precedes};
use crate::handlers::{
    after_delete, delete_answer, described, get_answer, posted, seen, update_refusal, updated,
    Response, ResponseView, ACCEPTED, BAD_REQUEST, CREATED, NOT_FOUND, NOT_MODIFIED, NO_CONTENT, OK,
    PAYLOAD_TOO_LARGE, PRECONDITION_FAILED,
};
use crate::identifiers::{
    identifier_spelled, identifier_text, law_identifier_order, law_identifier_round_trip,
    text_before, END_OF_IDENTIFIERS,
};
use crate::payload::sha256;
use crate::sessions::{
    are_timely, filled, fills, lemma_fills, Expiry, Failure, SessionView, SessionsView,
};

verus! {

/// Whether a request, an expiry, an eviction or a fill takes a store from one state to another,
/// while the clock stands before `end`.
pub open spec fn is_step(before: SessionsView, after: SessionsView, end: int) -> bool {
    ||| exists|
        now: i128,
        max_bytes: usize,
        content_type: Seq<Seq<u8>>,
        payload: Seq<u8>,
        outcome: (Result<Response, Failure>, Option<Expiry>),
    |
        now < end && posted(before, after, now, max_bytes, content_type, payload, outcome)
    ||| exists|
        now: i128,
        max_bytes: usize,
        id: Seq<char>,
        content_type: Seq<Seq<u8>>,
        if_match: Seq<Seq<u8>>,
        payload: Seq<u8>,
        outcome: Result<Response, Failure>,
    |
        now < end && updated(
            before,
            after,
            now,
            max_bytes,
            id,
            content_type,
            if_match,
            payload,
            outcome,
        )
    ||| exists|id: Seq<char>| after == #[trigger] after_delete(before, id)
    ||| exists|id: u128| after == #[trigger] before.removed(id)
    ||| after == before.evicted()
    ||| exists|times: Seq<i128>, size: nat, outcome: Result<Seq<Expiry>, Failure>|
        is_fill(before, after, end, times, size, outcome)
}

/// Whether filling an empty store takes it from one state to another, while the clock stands before
/// `end`.
pub open spec fn is_fill(
    before: SessionsView,
    after: SessionsView,
    end: int,
    times: Seq<i128>,
    size: nat,
    outcome: Result<Seq<Expiry>, Failure>,
) -> bool {
    &&& before.sessions.is_empty()
    &&& forall|i: int| 0 <= i < times.len() ==> #[trigger] times[i] < end
    &&& filled(before, after, times, size, outcome)
}

/// Whether a store goes through these states, from an empty one on, while the clock stands before
/// `end`.
pub open spec fn is_run(states: Seq<SessionsView>, end: int) -> bool {
    &&& states.len() > 0
    &&& states[0].wf()
    &&& states[0] == SessionsView::empty(states[0].ttl, states[0].capacity)
    &&& forall|i: int|
        0 <= i < states.len() - 1 ==> is_step(#[trigger] states[i], states[i + 1], end)
}

/// Whether every session that a store has gained has an identifier above the one that was given out
/// last before.
pub open spec fn adds_only_newer(before: SessionsView, after: SessionsView) -> bool {
    forall|id: u128| #[trigger]
        after.sessions.contains_key(id) ==> before.sessions.contains_key(id) || before.last_id < id
}

/// A store that shrinks stays valid, and keeps as many sessions as its capacity.
proof fn lemma_shrunk(before: SessionsView)
    requires
        before.wf(),
        before.capacity <= before.sessions.len(),
    ensures
        before.shrunk().wf(),
        before.shrunk().sessions.len() == before.capacity,
{
    lemma_newest_are_largest(before.sessions, before.capacity);
}

/// What a fill does to an empty store.
proof fn lemma_filled(
    before: SessionsView,
    after: SessionsView,
    times: Seq<i128>,
    size: nat,
    outcome: Result<Seq<Expiry>, Failure>,
)
    requires
        before.wf(),
        before.sessions.is_empty(),
        filled(before, after, times, size, outcome),
    ensures
        after.wf(),
        after.holds_fillers(before, size),
        are_timely(times) ==> {
            &&& after.ordered()
            &&& before.last_id <= after.last_id
            &&& adds_only_newer(before, after)
            &&& outcome matches Ok(expiries) ==> after.schedules(before, expiries)
                && after.sessions.len() == before.capacity
        },
{
    let (states, expiries) = choose|states: Seq<SessionsView>, expiries: Seq<Expiry>|
        {
            &&& #[trigger] fills(states, times, size, expiries)
            &&& states[0] == before
            &&& states.last() == after
            &&& match outcome {
                Ok(listed) => listed == expiries && expiries.len() == before.capacity,
                Err(failure) => {
                    &&& expiries.len() < before.capacity
                    &&& expiries.len() < times.len()
                    &&& after.refusal(times[expiries.len() as int] as int) == Some(failure)
                },
            }
        };
    lemma_fills(states, times, size, expiries);
}

/// Every request, expiry, eviction and fill leaves a valid store valid, and never changes the
/// capacities or the time to live. As long as identifiers have room for the time of the clock, it
/// never takes an identifier back either, leaves none in the store that is above the one that was
/// given out last, and puts none into the store that is not above the one before.
pub proof fn law_steps_keep_the_store_valid(before: SessionsView, after: SessionsView, end: int)
    requires
        before.wf(),
        is_step(before, after, end),
    ensures
        after.wf(),
        after.capacity == before.capacity,
        after.hard_capacity == before.hard_capacity,
        after.ttl == before.ttl,
        end <= END_OF_IDENTIFIERS ==> before.last_id <= after.last_id,
        end <= END_OF_IDENTIFIERS && before.ordered() ==> after.ordered(),
        end <= END_OF_IDENTIFIERS ==> adds_only_newer(before, after),
{
    if before.capacity <= before.sessions.len() {
        lemma_shrunk(before);
    }
    if exists|times: Seq<i128>, size: nat, outcome: Result<Seq<Expiry>, Failure>|
        is_fill(before, after, end, times, size, outcome) {
        let (times, size, outcome) = choose|
            times: Seq<i128>,
            size: nat,
            outcome: Result<Seq<Expiry>, Failure>,
        |
            is_fill(before, after, end, times, size, outcome);
        lemma_filled(before, after, times, size, outcome);
    }
}

/// A store never holds more sessions than its hard capacity, whatever happens to it, unless it was
/// made for no sessions at all; one that was made for two sessions or more always stays below it.
pub proof fn law_hard_capacity(states: Seq<SessionsView>, end: int, i: int)
    requires
        is_run(states, end),
        0 <= i < states.len(),
        states[0].capacity > 0,
    ensures
        states[i].sessions.len() <= states[0].capacity * 2,
        states[0].capacity >= 2 ==> states[i].sessions.len() <= states[0].capacity * 2 - 1,
{
    lemma_run(states, end, 0, i);
}

/// An insertion leaves at most twice as many sessions as the capacity, or one less if the capacity is
/// two or more, in whatever valid store, unless it was made for no sessions at all.
pub proof fn law_insertion_keeps_the_hard_capacity(
    before: SessionsView,
    id: u128,
    session: SessionView,
)
    requires
        before.wf(),
        before.capacity > 0,
    ensures
        before.inserted(id, session).sessions.contains_key(id),
        before.inserted(id, session).sessions.len() <= before.capacity * 2,
        before.capacity >= 2 ==> before.inserted(id, session).sessions.len() <= before.capacity * 2
            - 1,
{
    if before.capacity <= before.sessions.len() {
        lemma_shrunk(before);
    }
}

/// What stays and what grows from one state of a run to a later one.
proof fn lemma_run(states: Seq<SessionsView>, end: int, i: int, j: int)
    requires
        is_run(states, end),
        0 <= i <= j < states.len(),
    ensures
        states[j].wf(),
        states[j].capacity == states[0].capacity,
        states[j].ttl == states[0].ttl,
        end <= END_OF_IDENTIFIERS ==> states[i].last_id <= states[j].last_id,
        end <= END_OF_IDENTIFIERS ==> states[j].ordered(),
    decreases j,
{
    if j > 0 {
        if i < j {
            lemma_run(states, end, i, j - 1);
        } else {
            lemma_run(states, end, j - 1, j - 1);
        }
        assert(is_step(states[j - 1], states[j], end));
        law_steps_keep_the_store_valid(states[j - 1], states[j], end);
    }
}

/// Whether a step gives out an identifier, while the clock stands before `end`: to a new session, or
/// to one that fills the store.
pub open spec fn gives_out(
    before: SessionsView,
    after: SessionsView,
    end: int,
    id: u128,
) -> bool {
    ||| exists|response: Result<Response, Failure>, expiry: Expiry|
        #[trigger] creates(before, after, end, (response, expiry)) && expiry.id == id
    ||| exists|times: Seq<i128>, size: nat, expiries: Seq<Expiry>, i: int|
        {
            &&& #[trigger] is_fill(before, after, end, times, size, Ok(expiries))
            &&& 0 <= i < expiries.len()
            &&& (#[trigger] expiries[i]).id == id
        }
}

/// A step gives out identifiers that are above the one that was given out last before, and not
/// above the one after.
proof fn lemma_gives_out(before: SessionsView, after: SessionsView, end: int, id: u128)
    requires
        before.wf(),
        end <= END_OF_IDENTIFIERS,
        gives_out(before, after, end, id),
    ensures
        before.last_id < id <= after.last_id,
{
    if exists|response: Result<Response, Failure>, expiry: Expiry|
        #[trigger] creates(before, after, end, (response, expiry)) && expiry.id == id {
    } else {
        let (times, size, expiries, i) = choose|
            times: Seq<i128>,
            size: nat,
            expiries: Seq<Expiry>,
            i: int,
        |
            {
                &&& #[trigger] is_fill(before, after, end, times, size, Ok(expiries))
                &&& 0 <= i < expiries.len()
                &&& (#[trigger] expiries[i]).id == id
            };
        lemma_filled(before, after, times, size, Ok(expiries));
    }
}

/// The identifiers of sessions grow, and so do their texts, whatever the clock does, as long as
/// identifiers have room for its time: one that is given out later is larger, comes later in the
/// order of strings, and is not in the store before.
pub proof fn law_identifiers_grow_over_time(
    states: Seq<SessionsView>,
    i: int,
    j: int,
    first: u128,
    second: u128,
)
    requires
        is_run(states, END_OF_IDENTIFIERS as int),
        0 <= i < j < states.len() - 1,
        gives_out(states[i], states[i + 1], END_OF_IDENTIFIERS as int, first),
        gives_out(states[j], states[j + 1], END_OF_IDENTIFIERS as int, second),
    ensures
        first < second,
        text_before(identifier_text(first), identifier_text(second)),
        !states[j].sessions.contains_key(second),
{
    let end = END_OF_IDENTIFIERS as int;
    lemma_run(states, end, 0, i);
    lemma_run(states, end, i + 1, j);
    lemma_gives_out(states[i], states[i + 1], end, first);
    lemma_gives_out(states[j], states[j + 1], end, second);
    law_identifier_order(first, second);
}

/// A fill that succeeds leaves exactly as many sessions of filler bytes as the capacity, each with
/// its removal listed, so that an eviction then takes none of them; their identifiers grow in the
/// order of the list. This is as long as identifiers have room for the times.
pub proof fn law_fill(
    before: SessionsView,
    after: SessionsView,
    times: Seq<i128>,
    size: nat,
    expiries: Seq<Expiry>,
)
    requires
        before.wf(),
        is_fill(before, after, END_OF_IDENTIFIERS as int, times, size, Ok(expiries)),
    ensures
        after.wf(),
        expiries.len() == before.capacity,
        after.sessions.len() == before.capacity,
        after.holds_fillers(before, size),
        after.schedules(before, expiries),
        after.evicted() == after,
{
    lemma_filled(before, after, times, size, Ok(expiries));
}

/// Whether a request for a new session creates one, with this response and this expiry, while the
/// clock stands before `end`.
pub open spec fn creates(
    before: SessionsView,
    after: SessionsView,
    end: int,
    created: (Result<Response, Failure>, Expiry),
) -> bool {
    exists|now: i128, max_bytes: usize, content_type: Seq<Seq<u8>>, payload: Seq<u8>|
        now < end && posted(
            before,
            after,
            now,
            max_bytes,
            content_type,
            payload,
            (created.0, Some(created.1)),
        )
}

/// What was posted is what is read: at the location that the response gives there is a session
/// with the payload, its media type, and the headers of the response.
pub proof fn law_read_gives_back_what_was_posted(
    before: SessionsView,
    after: SessionsView,
    now: i128,
    max_bytes: usize,
    content_type: Seq<Seq<u8>>,
    payload: Seq<u8>,
    response: Response,
    expiry: Expiry,
)
    requires
        before.wf(),
        posted(
            before,
            after,
            now,
            max_bytes,
            content_type,
            payload,
            (Ok(response), Some(expiry)),
        ),
    ensures
        response@.status == CREATED,
        response@.location == Some(identifier_text(expiry.id)),
        get_answer(after, response@.location->0, Seq::empty()) == Ok::<ResponseView, Failure>(
            ResponseView {
                status: OK,
                headers: response@.headers,
                location: None,
                content_type: Some(media_type_or_default(content_type)),
                body: Some(payload),
            },
        ),
{
    law_identifier_round_trip(expiry.id);
}

/// A payload over the limit is refused, and leaves the store as it was; one within the limit never
/// is, on account of its length.
pub proof fn law_payload_limit(
    before: SessionsView,
    after: SessionsView,
    now: i128,
    max_bytes: usize,
    content_type: Seq<Seq<u8>>,
    payload: Seq<u8>,
    response: Response,
    expiry: Option<Expiry>,
)
    requires
        posted(before, after, now, max_bytes, content_type, payload, (Ok(response), expiry)),
    ensures
        response@.status == if payload.len() > max_bytes {
            PAYLOAD_TOO_LARGE
        } else {
            CREATED
        },
        payload.len() > max_bytes ==> after == before && expiry is None,
{
}

/// A new session takes nothing from the sessions that stay, and only the oldest ones go: none while
/// the store keeps below its hard capacity, and never one of the newest, up to the capacity.
pub proof fn law_new_session_evicts_only_the_oldest(
    before: SessionsView,
    after: SessionsView,
    end: int,
    created: (Result<Response, Failure>, Expiry),
    id: u128,
    other: u128,
)
    requires
        before.wf(),
        before.ordered(),
        end <= END_OF_IDENTIFIERS,
        creates(before, after, end, created),
        before.sessions.contains_key(id),
        before.sessions.contains_key(other),
    ensures
        after.sessions.contains_key(created.1.id),
        after.sessions.contains_key(id) ==> after.sessions[id] == before.sessions[id],
        !after.sessions.contains_key(id) && after.sessions.contains_key(other) ==> id < other,
        before.sessions.len() + 1 < before.hard_capacity || newer(before.sessions, id).len()
            < before.capacity ==> after.sessions.contains_key(id),
{
    if before.capacity <= before.sessions.len() {
        lemma_newest_are_largest(before.sessions, before.capacity);
        let kept = before.shrunk().sessions;
        if !kept.contains_key(id) && kept.contains_key(other) {
            assert(precedes(id, other));
        }
    }
}

/// An eviction leaves as many sessions as the capacity, if there were more, and else all of them;
/// each one that goes is older than each one that stays, and none of these changes.
pub proof fn law_eviction(before: SessionsView, id: u128, other: u128)
    requires
        before.wf(),
        before.sessions.contains_key(id),
        before.sessions.contains_key(other),
    ensures
        before.evicted().sessions.len() == if before.sessions.len() > before.capacity {
            before.capacity
        } else {
            before.sessions.len()
        },
        before.sessions.len() <= before.capacity ==> before.evicted() == before,
        newer(before.sessions, id).len() < before.capacity
            ==> before.evicted().sessions.contains_key(id),
        before.evicted().sessions.contains_key(id) ==> before.evicted().sessions[id]
            == before.sessions[id],
        !before.evicted().sessions.contains_key(id) && before.evicted().sessions.contains_key(other)
            ==> id < other,
{
    if before.sessions.len() > before.capacity {
        lemma_newest_are_largest(before.sessions, before.capacity);
        let kept = before.shrunk().sessions;
        if !kept.contains_key(id) && kept.contains_key(other) {
            assert(precedes(id, other));
        }
    }
}

/// A session that was deleted is not found any more, neither by a read nor by another deletion nor
/// by an update; the other sessions stay as they are.
pub proof fn law_deleted_session_is_gone(
    before: SessionsView,
    id: u128,
    other: u128,
    condition: Seq<Seq<u8>>,
    max_bytes: usize,
    payload: Seq<u8>,
)
    requires
        before.sessions.contains_key(id),
        payload.len() <= max_bytes,
    ensures
        delete_answer(before, identifier_text(id)) == ResponseView::bare(NO_CONTENT),
        ({
            let after = after_delete(before, identifier_text(id));
            &&& get_answer(after, identifier_text(id), condition) == Ok::<ResponseView, Failure>(
                ResponseView::bare(NOT_FOUND),
            )
            &&& delete_answer(after, identifier_text(id)) == ResponseView::bare(NOT_FOUND)
            &&& update_refusal(after, max_bytes, identifier_text(id), condition, payload) == Some(
                Ok::<ResponseView, Failure>(ResponseView::bare(NOT_FOUND)),
            )
            &&& other != id ==> get_answer(after, identifier_text(other), condition) == get_answer(
                before,
                identifier_text(other),
                condition,
            )
        }),
{
    law_identifier_round_trip(id);
    law_identifier_round_trip(other);
}

/// A session that expired is not found any more, and the expiry of a session never takes one that
/// was created later, as long as identifiers have room for the time of the clock.
pub proof fn law_expired_session_is_gone(
    states: Seq<SessionsView>,
    i: int,
    j: int,
    first: (Result<Response, Failure>, Expiry),
    second: (Result<Response, Failure>, Expiry),
    condition: Seq<Seq<u8>>,
)
    requires
        is_run(states, END_OF_IDENTIFIERS as int),
        0 <= i < j < states.len() - 1,
        creates(states[i], states[i + 1], END_OF_IDENTIFIERS as int, first),
        creates(states[j], states[j + 1], END_OF_IDENTIFIERS as int, second),
    ensures
        first.1.after == states[0].ttl,
        first.0 matches Ok(response) ==> response@.location == Some(identifier_text(first.1.id)),
        get_answer(
            states[j + 1].removed(first.1.id),
            identifier_text(first.1.id),
            condition,
        ) == Ok::<ResponseView, Failure>(ResponseView::bare(NOT_FOUND)),
        get_answer(states[j + 1].removed(first.1.id), identifier_text(second.1.id), condition)
            == get_answer(states[j + 1], identifier_text(second.1.id), condition),
{
    let end = END_OF_IDENTIFIERS as int;
    lemma_run(states, end, 0, i);
    law_identifiers_grow_over_time(states, i, j, first.1.id, second.1.id);
    law_identifier_round_trip(first.1.id);
    law_identifier_round_trip(second.1.id);
}

/// Whether a step takes a session neither by a deletion nor by an eviction, while the clock stands
/// before `end`.
pub open spec fn spares(
    before: SessionsView,
    after: SessionsView,
    end: int,
    session: u128,
) -> bool {
    ||| exists|response: Result<Response, Failure>, expiry: Expiry|
        #[trigger] creates(before, after, end, (response, expiry))
            && before.with_room().sessions.contains_key(session)
    ||| exists|
        now: i128,
        max_bytes: usize,
        id: Seq<char>,
        content_type: Seq<Seq<u8>>,
        if_match: Seq<Seq<u8>>,
        payload: Seq<u8>,
        outcome: Result<Response, Failure>,
    |
        now < end && updated(
            before,
            after,
            now,
            max_bytes,
            id,
            content_type,
            if_match,
            payload,
            outcome,
        )
    ||| exists|id: Seq<char>|
        after == #[trigger] after_delete(before, id) && identifier_spelled(id) != Some(session)
    ||| exists|id: u128| after == #[trigger] before.removed(id) && id != session
    ||| after == before.evicted() && before.evicted().sessions.contains_key(session)
    ||| after == before
}

/// Whether the removal that is due after some time since step `i` of a run is carried out by step
/// `k`, as soon as it is due: `moments` are the times of the steps.
pub open spec fn removes_in_time(
    states: Seq<SessionsView>,
    moments: Seq<int>,
    i: int,
    k: int,
    expiry: Expiry,
) -> bool {
    &&& moments.len() == states.len() - 1
    &&& 0 <= i < k < moments.len()
    &&& states[k + 1] == states[k].removed(expiry.id)
    &&& moments[k] >= moments[i] + expiry.after
    &&& forall|n: int|
        i < n < moments.len() && #[trigger] moments[n] >= moments[i] + expiry.after ==> k <= n
}

/// A session is there until its time to live is over, as long as nobody deletes or evicts it; after
/// that it is there no more. Updates do not postpone its expiry, and its expiry takes no other
/// session. This is if the removals that are due are carried out, and as long as identifiers have
/// room for the time of the clock.
pub proof fn law_session_lives_until_it_expires(
    states: Seq<SessionsView>,
    moments: Seq<int>,
    i: int,
    k: int,
    created: (Result<Response, Failure>, Expiry),
    m: int,
    other: u128,
)
    requires
        is_run(states, END_OF_IDENTIFIERS as int),
        removes_in_time(states, moments, i, k, created.1),
        creates(states[i], states[i + 1], END_OF_IDENTIFIERS as int, created),
        i < m < states.len(),
    ensures
        created.1.after == states[0].ttl,
        moments[m - 1] < moments[i] + created.1.after && (forall|n: int|
            i < n < m ==> spares(
                #[trigger] states[n],
                states[n + 1],
                END_OF_IDENTIFIERS as int,
                created.1.id,
            )) ==> {
            &&& states[m].sessions.contains_key(created.1.id)
            &&& states[m].sessions[created.1.id].expires == states[i
                + 1].sessions[created.1.id].expires
        },
        m > i + 1 && moments[m - 1] >= moments[i] + created.1.after
            ==> !states[m].sessions.contains_key(created.1.id),
        other != created.1.id ==> {
            &&& states[k + 1].sessions.contains_key(other) == states[k].sessions.contains_key(other)
            &&& states[k + 1].sessions[other] == states[k].sessions[other]
        },
{
    let end = END_OF_IDENTIFIERS as int;
    let id = created.1.id;
    lemma_run(states, end, 0, i);
    if forall|n: int| i < n < m ==> spares(#[trigger] states[n], states[n + 1], end, id) {
        lemma_spared(states, i + 1, m, id);
    }
    if m > k {
        lemma_run(states, end, i + 1, k + 1);
        lemma_stays_gone(states, k + 1, m, id);
    }
}

/// A session that every step spares is there, and expires when it did.
proof fn lemma_spared(states: Seq<SessionsView>, i: int, m: int, id: u128)
    requires
        is_run(states, END_OF_IDENTIFIERS as int),
        0 <= i <= m < states.len(),
        states[i].sessions.contains_key(id),
        forall|n: int|
            i <= n < m ==> spares(
                #[trigger] states[n],
                states[n + 1],
                END_OF_IDENTIFIERS as int,
                id,
            ),
    ensures
        states[m].sessions.contains_key(id),
        states[m].sessions[id].expires == states[i].sessions[id].expires,
    decreases m - i,
{
    if i < m {
        let end = END_OF_IDENTIFIERS as int;
        lemma_spared(states, i, m - 1, id);
        lemma_run(states, end, 0, m - 1);
        assert(spares(states[m - 1], states[m], end, id));
        lemma_spares(states[m - 1], states[m], id);
    }
}

/// A step that spares a session leaves it in the store, and its time of expiry as it was.
proof fn lemma_spares(before: SessionsView, after: SessionsView, id: u128)
    requires
        before.ordered(),
        before.sessions.contains_key(id),
        spares(before, after, END_OF_IDENTIFIERS as int, id),
    ensures
        after.sessions.contains_key(id),
        after.sessions[id].expires == before.sessions[id].expires,
{
    let end = END_OF_IDENTIFIERS as int;
    if exists|response: Result<Response, Failure>, expiry: Expiry|
        #[trigger] creates(before, after, end, (response, expiry))
            && before.with_room().sessions.contains_key(id) {
        let (response, expiry) = choose|response: Result<Response, Failure>, expiry: Expiry|
            #[trigger] creates(before, after, end, (response, expiry))
                && before.with_room().sessions.contains_key(id);
        assert(before.last_id < expiry.id);
    }
}

/// A session that is gone stays so, if its identifier is not above the one that was given out last.
proof fn lemma_stays_gone(states: Seq<SessionsView>, i: int, m: int, id: u128)
    requires
        is_run(states, END_OF_IDENTIFIERS as int),
        0 <= i <= m < states.len(),
        !states[i].sessions.contains_key(id),
        id <= states[i].last_id,
    ensures
        !states[m].sessions.contains_key(id),
    decreases m - i,
{
    if i < m {
        let end = END_OF_IDENTIFIERS as int;
        lemma_stays_gone(states, i, m - 1, id);
        lemma_run(states, end, i, m - 1);
        assert(is_step(states[m - 1], states[m], end));
        law_steps_keep_the_store_valid(states[m - 1], states[m], end);
    }
}

/// An update that is accepted replaces the payload and its media type, keeps the time of expiry,
/// and touches no other session; its response has the headers that a read then gives.
pub proof fn law_read_gives_back_what_was_put(
    before: SessionsView,
    after: SessionsView,
    now: i128,
    max_bytes: usize,
    id: u128,
    content_type: Seq<Seq<u8>>,
    if_match: Seq<Seq<u8>>,
    payload: Seq<u8>,
    response: Response,
    other: u128,
)
    requires
        updated(
            before,
            after,
            now,
            max_bytes,
            identifier_text(id),
            content_type,
            if_match,
            payload,
            Ok(response),
        ),
        response@.status == ACCEPTED,
    ensures
        get_answer(after, identifier_text(id), Seq::empty()) == Ok::<ResponseView, Failure>(
            ResponseView {
                status: OK,
                headers: response@.headers,
                location: None,
                content_type: Some(media_type_or_default(content_type)),
                body: Some(payload),
            },
        ),
        after.sessions.dom() == before.sessions.dom(),
        after.sessions[id].expires == before.sessions[id].expires,
        after.sessions[id].last_modified == now,
        other != id ==> after.sessions[other] == before.sessions[other],
{
    law_identifier_round_trip(id);
    assert(after.sessions.dom() =~= before.sessions.dom());
}

/// An update without a condition is not refused, if there is a session for it and the payload is
/// within the limit; nor is one on the condition that there is any session.
pub proof fn law_unconditional_update(
    before: SessionsView,
    max_bytes: usize,
    id: u128,
    payload: Seq<u8>,
)
    requires
        before.sessions.contains_key(id),
        payload.len() <= max_bytes,
    ensures
        update_refusal(before, max_bytes, identifier_text(id), Seq::empty(), payload) is None,
        update_refusal(before, max_bytes, identifier_text(id), seq![seq![STAR]], payload) is None,
{
    law_identifier_round_trip(id);
    law_star(before.sessions[id].etag());
}

/// An update on the condition of entity tags is carried out if the session has one of them, and is
/// refused if it has none: then the response has the headers of the session as it is.
pub proof fn law_conditional_update(
    before: SessionsView,
    max_bytes: usize,
    id: u128,
    if_match: Seq<Seq<u8>>,
    tags: Seq<Seq<u8>>,
    payload: Seq<u8>,
)
    requires
        before.sessions.contains_key(id),
        payload.len() <= max_bytes,
        if_match.len() > 0,
        lists(joined(if_match), tags),
    ensures
        update_refusal(before, max_bytes, identifier_text(id), if_match, payload)
            == if tags.contains(ascii(before.sessions[id].etag())) {
            None
        } else {
            Some(
                described(
                    ResponseView::about(PRECONDITION_FAILED, before.sessions[id]),
                    before.sessions[id],
                ),
            )
        },
{
    law_identifier_round_trip(id);
    law_listed_tags(if_match, tags, before.sessions[id].etag());
}

/// An update on the condition of the entity tag that a session had before its payload was replaced
/// is refused, and leaves the store as it is: the tag tells the payloads apart as their digests do.
pub proof fn law_stale_update_is_refused(
    before: SessionsView,
    after: SessionsView,
    now: i128,
    max_bytes: usize,
    id: u128,
    content_type: Seq<Seq<u8>>,
    if_match: Seq<Seq<u8>>,
    payload: Seq<u8>,
    response: Response,
    next: SessionsView,
    later: i128,
    other_type: Seq<Seq<u8>>,
    other_payload: Seq<u8>,
    outcome: Result<Response, Failure>,
)
    requires
        before.wf(),
        updated(
            before,
            after,
            now,
            max_bytes,
            identifier_text(id),
            content_type,
            if_match,
            payload,
            Ok(response),
        ),
        response@.status == ACCEPTED,
        sha256(payload) != sha256(before.sessions[id].data),
        other_payload.len() <= max_bytes,
        updated(
            after,
            next,
            later,
            max_bytes,
            identifier_text(id),
            other_type,
            seq![ascii(before.sessions[id].etag())],
            other_payload,
            outcome,
        ),
    ensures
        next == after,
        seen(outcome) == Ok::<ResponseView, Failure>(
            ResponseView::about(PRECONDITION_FAILED, after.sessions[id]),
        ),
        outcome->Ok_0@.headers == response@.headers,
{
    law_identifier_round_trip(id);
    let (old_tag, new_tag) = (before.sessions[id].etag(), after.sessions[id].etag());
    law_tag_tells_hashes_apart(before.sessions[id].hash, after.sessions[id].hash);
    lemma_tag_line(before.sessions[id].hash);
    lemma_tag_line(after.sessions[id].hash);
    let lines = seq![ascii(old_tag)];
    law_tags_in_lines(lines);
    law_conditional_update(after, max_bytes, id, lines, lines, other_payload);
    if lines.contains(ascii(new_tag)) {
        lemma_ascii_injective(old_tag, new_tag);
    }
}

/// A read on the condition that the session has changed since it had the entity tag that it has is
/// answered without the payload, be the tag marked as weak or not; one with other entity tags gives
/// the payload.
pub proof fn law_conditional_read(
    sessions: SessionsView,
    id: u128,
    if_none_match: Seq<Seq<u8>>,
    tags: Seq<Seq<u8>>,
)
    requires
        sessions.sessions.contains_key(id),
        if_none_match.len() > 0,
        lists(joined(if_none_match), tags),
    ensures
        get_answer(sessions, identifier_text(id), if_none_match) == described(
            if contains_weakly(tags, ascii(sessions.sessions[id].etag())) {
                ResponseView::about(NOT_MODIFIED, sessions.sessions[id])
            } else {
                ResponseView::whole(sessions.sessions[id])
            },
            sessions.sessions[id],
        ),
{
    law_identifier_round_trip(id);
    law_listed_tags(if_none_match, tags, sessions.sessions[id].etag());
}

/// The entity tag of a session, as a response gives it, is a strong one, and can stand as it is in
/// the header of a condition.
pub proof fn law_tags_are_strong(session: SessionView)
    ensures
        is_checkable(session.etag()),
        session.typed_headers().etag == session.etag(),
        lists(joined(seq![ascii(session.etag())]), seq![ascii(session.etag())]),
{
    lemma_tag_line(session.hash);
    law_tags_in_lines(seq![ascii(session.etag())]);
}

/// Two sessions have the same entity tag if they have the same payload, and only if their payloads
/// have the same digest.
pub proof fn law_tags_follow_payloads(a: SessionView, b: SessionView)
    requires
        a.wf(),
        b.wf(),
    ensures
        a.data == b.data ==> a.etag() == b.etag(),
        a.etag() == b.etag() ==> sha256(a.data) == sha256(b.data),
{
    law_tag_tells_hashes_apart(a.hash, b.hash);
}

/// An identifier that is none is refused by every request, and changes nothing.
pub proof fn law_bad_identifier(
    sessions: SessionsView,
    id: Seq<char>,
    max_bytes: usize,
    condition: Seq<Seq<u8>>,
    payload: Seq<u8>,
)
    requires
        identifier_spelled(id) is None,
    ensures
        get_answer(sessions, id, condition) == Ok::<ResponseView, Failure>(
            ResponseView::bare(BAD_REQUEST),
        ),
        delete_answer(sessions, id) == ResponseView::bare(BAD_REQUEST),
        after_delete(sessions, id) == sessions,
        update_refusal(sessions, max_bytes, id, condition, payload) == Some(
            Ok::<ResponseView, Failure>(ResponseView::bare(BAD_REQUEST)),
        ),
{
}

/// The entity tag of a hash is a strong entity tag in a line of a header, too.
proof fn lemma_tag_line(hash: Seq<u8>)
    ensures
        is_strong_tag(tag_of_hash(hash)),
        is_strong_tag_line(ascii(tag_of_hash(hash))),
{
    lemma_tag_of_hash_is_strong(hash);
}

/// Strong entity tags differ if their bytes do.
proof fn lemma_ascii_injective(a: Seq<char>, b: Seq<char>)
    requires
        is_strong_tag(a),
        is_strong_tag(b),
        ascii(a) == ascii(b),
    ensures
        a == b,
{
    assert(a.len() == ascii(a).len() == ascii(b).len() == b.len());
    assert forall|i: int| 0 <= i < a.len() implies a[i] == b[i] by {
        assert(ascii(a)[i] == a[i] as u8);
        assert(ascii(b)[i] == b[i] as u8);
    }
}

} // verus!
