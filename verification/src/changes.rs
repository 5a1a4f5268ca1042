//! What each change does to a session or to the store, told by their parts.

use vstd::prelude::*;

use crate::base64url::base64url;
use crate::entity_tags::tag_of_hash;
use crate::eviction::{keeps_largest, lemma_newest_are_largest, newer, precedes};
use crate::identifiers::{law_identifiers_grow, END_OF_IDENTIFIERS};
use crate::payload::sha256;
use crate::sessions::{
    are_timely, filled, fills, lemma_fills, Expiry, Failure, SessionView, SessionsView,
};
use crate::times::{expires_header, last_modified_header};

verus! {

/// A new store is empty, and has the capacity and the time to live that it is given; it may hold
/// twice as many sessions as its capacity.
pub proof fn law_new_store(ttl: int, capacity: nat)
    ensures
        ({
            let store = SessionsView::empty(ttl, capacity);
            &&& store.sessions == Map::<u128, SessionView>::empty()
            &&& store.last_id == 0
            &&& store.capacity == capacity
            &&& store.hard_capacity == 2 * capacity
            &&& store.ttl == ttl
        }),
{
}

/// A new session has the payload, its digest and its media type; it was last modified when it was
/// created, and expires once the time to live is over.
pub proof fn law_fresh_session(data: Seq<u8>, content_type: Seq<char>, now: int, ttl: int)
    ensures
        ({
            let session = SessionView::fresh(data, content_type, now, ttl);
            &&& session.data == data
            &&& session.hash == sha256(data)
            &&& session.content_type == content_type
            &&& session.last_modified == now
            &&& session.expires == now + ttl
        }),
{
}

/// An update replaces the payload, its digest, its media type and the time of the last change, and
/// keeps the time of expiry.
pub proof fn law_updated_session(
    session: SessionView,
    data: Seq<u8>,
    content_type: Seq<char>,
    now: int,
)
    ensures
        ({
            let after = session.updated(data, content_type, now);
            &&& after.data == data
            &&& after.hash == sha256(data)
            &&& after.content_type == content_type
            &&& after.last_modified == now
            &&& after.expires == session.expires
        }),
{
}

/// The headers of a valid session are its digest in base 64, quoted, and its two times in whole
/// seconds.
pub proof fn law_session_headers(session: SessionView)
    requires
        session.wf(),
    ensures
        session.etag() == seq!['"'] + base64url(sha256(session.data)) + seq!['"'],
        session.typed_headers().etag == session.etag(),
        session.typed_headers().expires == expires_header(
            (session.expires / 1_000_000_000) as u64,
        ),
        session.typed_headers().last_modified == last_modified_header(
            (session.last_modified / 1_000_000_000) as u64,
        ),
{
}

/// A session has dates if both of its times are from the Unix epoch on and before the year 10000.
pub proof fn law_session_dates(session: SessionView)
    ensures
        session.has_dates() <==> {
            &&& 0 <= session.last_modified < 253_402_300_800_000_000_000
            &&& 0 <= session.expires < 253_402_300_800_000_000_000
        },
{
}

/// No session is created if its time of creation or of expiry is none in signed 64-bit seconds, or
/// if the clock has not moved past the time part of the last identifier and the random part of it
/// cannot grow; in all other cases one is.
pub proof fn law_refusal(store: SessionsView, now: int)
    ensures
        ({
            let first: int = -9_223_372_036_854_775_808_000_000_000;
            let last: int = 9_223_372_036_854_775_807_999_999_999;
            let times = first <= now <= last && first <= now + store.ttl <= last;
            let millis = if now < 0 {
                0
            } else {
                now / 1_000_000
            };
            let full = {
                &&& millis <= store.last_id as int / 0x1_0000_0000_0000_0000_0000
                &&& store.last_id as int % 0x1_0000_0000_0000_0000_0000
                    == 0xffff_ffff_ffff_ffff_ffff
            };
            store.refusal(now) == if !times {
                Some(Failure::Clock)
            } else if full {
                Some(Failure::Identifiers)
            } else {
                None
            }
        }),
{
}

/// Eviction of a map leaves as many entries as it is to, all of them as they were, and each that
/// goes has a smaller key than each that stays.
pub proof fn law_largest_are_kept<V>(all: Map<u128, V>, kept: Map<u128, V>, n: nat)
    requires
        keeps_largest(all, kept, n),
    ensures
        kept.dom().finite(),
        kept.len() == n,
        forall|left: u128| #[trigger]
            kept.contains_key(left) ==> all.contains_key(left) && kept[left] == all[left],
        forall|gone: u128, left: u128|
            #![trigger all.contains_key(gone), kept.contains_key(left)]
            all.contains_key(gone) && !kept.contains_key(gone) && kept.contains_key(left) ==> gone
                < left,
{
    assert forall|left: u128| #[trigger] kept.contains_key(left) implies all.contains_key(left)
        && kept[left] == all[left] by {
        assert(kept.dom().contains(left));
    }
    assert forall|gone: u128, left: u128|
        #![trigger all.contains_key(gone), kept.contains_key(left)]
        all.contains_key(gone) && !kept.contains_key(gone) && kept.contains_key(left) implies gone
        < left by {
        assert(precedes(gone, left));
    }
}

/// The entity tag of a hash is its text in base 64 between two quotes.
pub proof fn law_tag_of_hash(hash: Seq<u8>)
    ensures
        tag_of_hash(hash) == seq!['"'] + base64url(hash) + seq!['"'],
{
}

/// A session is inserted as it is. Below the hard capacity no other one goes; else those go that
/// have at least as many newer ones as the capacity, and no others. What stays does not change.
pub proof fn law_insertion(store: SessionsView, id: u128, session: SessionView, other: u128)
    requires
        store.wf(),
    ensures
        ({
            let after = store.inserted(id, session);
            &&& after.sessions.contains_key(id)
            &&& after.sessions[id] == session
            &&& other != id ==> {
                &&& after.sessions.contains_key(other) <==> {
                    &&& store.sessions.contains_key(other)
                    &&& store.sessions.len() + 1 < 2 * store.capacity || store.sessions.dom().filter(
                        |newer: u128| newer > other,
                    ).len() < store.capacity
                }
                &&& after.sessions.contains_key(other) ==> after.sessions[other]
                    == store.sessions[other]
            }
            &&& after.last_id == store.last_id
            &&& after.capacity == store.capacity
            &&& after.hard_capacity == store.hard_capacity
            &&& after.ttl == store.ttl
        }),
{
    assert(newer(store.sessions, other) =~= store.sessions.dom().filter(
        |newer: u128| newer > other,
    ));
}

/// A session under a new identifier makes one more below the hard capacity; else it leaves exactly
/// one session more than the capacity.
pub proof fn law_insertion_counts(store: SessionsView, id: u128, session: SessionView)
    requires
        store.wf(),
        !store.sessions.contains_key(id),
    ensures
        store.inserted(id, session).sessions.len() == if store.sessions.len() + 1 < 2
            * store.capacity {
            store.sessions.len() + 1
        } else {
            store.capacity + 1
        },
{
    if store.sessions.len() + 1 >= 2 * store.capacity {
        lemma_newest_are_largest(store.sessions, store.capacity);
    }
}

/// An eviction does nothing up to the capacity. Above it, those sessions go that have at least as
/// many newer ones as the capacity, and no others, so that as many are left as the capacity. What
/// stays does not change.
pub proof fn law_eviction_takes_the_oldest(store: SessionsView, id: u128)
    requires
        store.wf(),
    ensures
        ({
            let after = store.evicted();
            &&& after.sessions.contains_key(id) <==> {
                &&& store.sessions.contains_key(id)
                &&& store.sessions.len() <= store.capacity || store.sessions.dom().filter(
                    |newer: u128| newer > id,
                ).len() < store.capacity
            }
            &&& after.sessions.contains_key(id) ==> after.sessions[id] == store.sessions[id]
            &&& after.sessions.len() == if store.sessions.len() <= store.capacity {
                store.sessions.len()
            } else {
                store.capacity
            }
            &&& after.last_id == store.last_id
            &&& after.capacity == store.capacity
            &&& after.hard_capacity == store.hard_capacity
            &&& after.ttl == store.ttl
        }),
{
    assert(newer(store.sessions, id) =~= store.sessions.dom().filter(|newer: u128| newer > id));
    if store.sessions.len() > store.capacity {
        lemma_newest_are_largest(store.sessions, store.capacity);
    }
}

/// A removal takes the one session, and nothing else.
pub proof fn law_removal(store: SessionsView, id: u128)
    ensures
        ({
            let after = store.removed(id);
            &&& after.sessions == store.sessions.remove(id)
            &&& after.last_id == store.last_id
            &&& after.capacity == store.capacity
            &&& after.hard_capacity == store.hard_capacity
            &&& after.ttl == store.ttl
        }),
{
}

/// A session that is put in replaces the one under its identifier, and nothing else.
pub proof fn law_replacement(store: SessionsView, id: u128, session: SessionView)
    ensures
        ({
            let after = store.put(id, session);
            &&& after.sessions == store.sessions.insert(id, session)
            &&& after.last_id == store.last_id
            &&& after.capacity == store.capacity
            &&& after.hard_capacity == store.hard_capacity
            &&& after.ttl == store.ttl
        }),
{
}

/// An identifier that is given out is the last one from then on, and nothing else changes.
pub proof fn law_identifier_given_out(store: SessionsView, id: u128)
    ensures
        ({
            let after = store.counted(id);
            &&& after.last_id == id
            &&& after.sessions == store.sessions
            &&& after.capacity == store.capacity
            &&& after.hard_capacity == store.hard_capacity
            &&& after.ttl == store.ttl
        }),
{
}

/// A session of filler bytes is created at its time as any other is: with an identifier that
/// follows the last one, and a removal that is due after the time to live. Its bytes are all 42.
pub proof fn law_filler(
    before: SessionsView,
    after: SessionsView,
    now: int,
    size: nat,
    expiry: Expiry,
)
    requires
        before.adds_filler(after, now, size, expiry),
    ensures
        ({
            let millis = if now < 0 {
                0
            } else {
                now / 1_000_000
            };
            if millis <= before.last_id as int / 0x1_0000_0000_0000_0000_0000 {
                expiry.id == before.last_id + 1
            } else {
                expiry.id as int / 0x1_0000_0000_0000_0000_0000 == millis % 0x1_0000_0000_0000
            }
        }),
        before.refusal(now) is None,
        expiry.after == before.ttl,
        after.last_id == expiry.id,
        after.capacity == before.capacity,
        after.hard_capacity == before.hard_capacity,
        after.ttl == before.ttl,
        after.sessions.dom() == before.sessions.dom().insert(expiry.id),
        forall|id: u128|
            id != expiry.id && before.sessions.contains_key(id) ==> #[trigger] after.sessions[id]
                == before.sessions[id],
        after.sessions[expiry.id].data == Seq::new(size, |i: int| 42u8),
        after.sessions[expiry.id].hash == sha256(Seq::new(size, |i: int| 42u8)),
        after.sessions[expiry.id].content_type == "application/octet-stream"@,
        after.sessions[expiry.id].last_modified == now,
        after.sessions[expiry.id].expires == now + before.ttl,
{
    assert(after.sessions[expiry.id].data =~= Seq::new(size, |i: int| 42u8));
    assert(after.sessions.dom() =~= before.sessions.dom().insert(expiry.id));
}

/// What the sessions are that were added to an empty store at given times.
proof fn lemma_fillers(
    states: Seq<SessionsView>,
    times: Seq<i128>,
    size: nat,
    expiries: Seq<Expiry>,
    i: int,
)
    requires
        fills(states, times, size, expiries),
        states[0].wf(),
        states[0].sessions.is_empty(),
        expiries.len() <= states[0].capacity,
        are_timely(times),
        0 <= i < expiries.len(),
    ensures
        states.last().sessions.contains_key(expiries[i].id),
        states.last().sessions[expiries[i].id].data == Seq::new(size, |k: int| 42u8),
        states.last().sessions[expiries[i].id].hash == sha256(Seq::new(size, |k: int| 42u8)),
        states.last().sessions[expiries[i].id].content_type == "application/octet-stream"@,
        states.last().sessions[expiries[i].id].last_modified == times[i],
        states.last().sessions[expiries[i].id].expires == times[i] + states[0].ttl,
        expiries[i].after == states[0].ttl,
        states.last().last_id == expiries.last().id,
    decreases expiries.len(),
{
    let n = expiries.len() - 1;
    let (rest, earlier) = (states.drop_last(), expiries.drop_last());
    assert forall|k: int| 0 <= k < earlier.len() implies (#[trigger] rest[k]).adds_filler(
        rest[k + 1],
        times[k] as int,
        size,
        earlier[k],
    ) by {
        assert(states[k].adds_filler(states[k + 1], times[k] as int, size, expiries[k]));
    }
    lemma_fills(rest, times, size, earlier);
    assert(rest.last() == states[n]);
    assert(states[n].adds_filler(states[n + 1], times[n] as int, size, expiries[n]));
    law_filler(states[n], states[n + 1], times[n] as int, size, expiries[n]);
    assert(states.last() == states[n + 1]);
    if i < n {
        lemma_fillers(rest, times, size, earlier, i);
        assert(times[n] < END_OF_IDENTIFIERS);
        law_identifiers_grow(states[n].last_id, times[n] as int, expiries[n].id);
        assert(earlier[i] == expiries[i]);
        assert(expiries[i].id != expiries[n].id);
    }
}

/// Filling an empty store leaves exactly as many sessions as the capacity, one for each of the
/// times, in their order: of the given size, all bytes 42, expiring after the time to live, with
/// growing identifiers above all earlier ones. The removals that are due are listed in that order,
/// and there is no session without one. This is as long as identifiers have room for the times.
pub proof fn law_fill_is_complete(
    before: SessionsView,
    after: SessionsView,
    times: Seq<i128>,
    size: nat,
    expiries: Seq<Expiry>,
    i: int,
    id: u128,
)
    requires
        before.wf(),
        before.sessions.is_empty(),
        filled(before, after, times, size, Ok(expiries)),
        forall|k: int|
            0 <= k < times.len() ==> #[trigger] times[k] < 281_474_976_710_656_000_000i128,
        0 <= i < expiries.len(),
    ensures
        expiries.len() == before.capacity,
        after.sessions.len() == before.capacity,
        after.sessions.contains_key(expiries[i].id),
        after.sessions[expiries[i].id].data == Seq::new(size, |k: int| 42u8),
        after.sessions[expiries[i].id].hash == sha256(Seq::new(size, |k: int| 42u8)),
        after.sessions[expiries[i].id].content_type == "application/octet-stream"@,
        after.sessions[expiries[i].id].last_modified == times[i],
        after.sessions[expiries[i].id].expires == times[i] + before.ttl,
        expiries[i].after == before.ttl,
        before.last_id < expiries[i].id,
        i > 0 ==> expiries[i - 1].id < expiries[i].id,
        after.last_id == expiries.last().id,
        after.sessions.contains_key(id) ==> exists|k: int|
            0 <= k < expiries.len() && (#[trigger] expiries[k]).id == id,
        after.capacity == before.capacity,
        after.hard_capacity == before.hard_capacity,
        after.ttl == before.ttl,
{
    let states = choose|states: Seq<SessionsView>|
        {
            &&& #[trigger] fills(states, times, size, expiries)
            &&& states[0] == before
            &&& states.last() == after
        };
    assert(are_timely(times));
    lemma_fills(states, times, size, expiries);
    lemma_fillers(states, times, size, expiries, i);
}

/// What holds of the states on the way, whatever the times are.
proof fn lemma_states(
    states: Seq<SessionsView>,
    times: Seq<i128>,
    size: nat,
    expiries: Seq<Expiry>,
    i: int,
    id: u128,
)
    requires
        fills(states, times, size, expiries),
        states[0].sessions.is_empty(),
        0 <= i <= expiries.len(),
    ensures
        states[i].capacity == states[0].capacity,
        states[i].hard_capacity == states[0].hard_capacity,
        states[i].ttl == states[0].ttl,
        forall|k: int|
            0 <= k < i ==> {
                &&& states[i].sessions.contains_key((#[trigger] expiries[k]).id)
                &&& expiries[k].after == states[0].ttl
            },
        states[i].sessions.contains_key(id) ==> {
            &&& states[i].sessions[id].data == Seq::new(size, |k: int| 42u8)
            &&& states[i].sessions[id].hash == sha256(Seq::new(size, |k: int| 42u8))
            &&& states[i].sessions[id].content_type == "application/octet-stream"@
            &&& states[i].sessions[id].expires == states[i].sessions[id].last_modified
                + states[0].ttl
            &&& exists|k: int|
                0 <= k < i && (#[trigger] expiries[k]).id == id
                    && states[i].sessions[id].last_modified == times[k]
        },
    decreases i,
{
    if i > 0 {
        lemma_states(states, times, size, expiries, i - 1, id);
        assert(states[i - 1].adds_filler(
            states[i],
            times[i - 1] as int,
            size,
            expiries[i - 1],
        ));
        law_filler(states[i - 1], states[i], times[i - 1] as int, size, expiries[i - 1]);
        if states[i].sessions.contains_key(id) && id == expiries[i - 1].id {
            assert(expiries[i - 1].id == id);
        } else if states[i].sessions.contains_key(id) {
            assert(states[i - 1].sessions.contains_key(id));
            let k = choose|k: int|
                0 <= k < i - 1 && (#[trigger] expiries[k]).id == id && states[i - 1].sessions[id].last_modified
                    == times[k];
            assert(expiries[k].id == id && states[i].sessions[id].last_modified == times[k]);
        }
        assert forall|k: int| 0 <= k < i implies {
            &&& states[i].sessions.contains_key((#[trigger] expiries[k]).id)
            &&& expiries[k].after == states[0].ttl
        } by {
            if k < i - 1 {
                assert(states[i - 1].sessions.contains_key(expiries[k].id));
            }
        }
    }
}

/// Whatever the times are: filling an empty store adds nothing but sessions of the given size, all
/// bytes 42, each created at one of the times and expiring after the time to live. Success lists as
/// many removals as the capacity, each of a session that is there.
pub proof fn law_fill_adds_only_fillers(
    before: SessionsView,
    after: SessionsView,
    times: Seq<i128>,
    size: nat,
    outcome: Result<Seq<Expiry>, Failure>,
    id: u128,
)
    requires
        before.wf(),
        before.sessions.is_empty(),
        filled(before, after, times, size, outcome),
    ensures
        after.capacity == before.capacity,
        after.hard_capacity == before.hard_capacity,
        after.ttl == before.ttl,
        after.sessions.len() <= before.capacity,
        after.sessions.contains_key(id) ==> {
            &&& after.sessions[id].data == Seq::new(size, |k: int| 42u8)
            &&& after.sessions[id].hash == sha256(Seq::new(size, |k: int| 42u8))
            &&& after.sessions[id].content_type == "application/octet-stream"@
            &&& after.sessions[id].expires == after.sessions[id].last_modified + before.ttl
            &&& exists|k: int|
                0 <= k < times.len() && after.sessions[id].last_modified == #[trigger] times[k]
        },
        outcome matches Ok(expiries) ==> {
            &&& expiries.len() == before.capacity
            &&& forall|k: int|
                0 <= k < expiries.len() ==> {
                    &&& after.sessions.contains_key((#[trigger] expiries[k]).id)
                    &&& expiries[k].after == before.ttl
                }
            &&& after.sessions.contains_key(id) ==> exists|k: int|
                0 <= k < expiries.len() && (#[trigger] expiries[k]).id == id
        },
{
    let (states, expiries) = choose|states: Seq<SessionsView>, expiries: Seq<Expiry>|
        {
            &&& #[trigger] fills(states, times, size, expiries)
            &&& states[0] == before
            &&& states.last() == after
            &&& expiries.len() <= before.capacity
            &&& outcome matches Ok(listed) ==> listed == expiries && expiries.len()
                == before.capacity
        };
    lemma_fills(states, times, size, expiries);
    lemma_states(states, times, size, expiries, expiries.len() as int, id);
    if after.sessions.contains_key(id) {
        let k = choose|k: int|
            0 <= k < expiries.len() && (#[trigger] expiries[k]).id == id && after.sessions[id].last_modified
                == times[k];
        assert(times[k] == after.sessions[id].last_modified);
        assert(expiries[k].id == id);
    }
}

/// Filling a store fails only at the first time at which no session can be created, and keeps those
/// that were created before: the clock is at fault only if that time or the expiry after it is none
/// in signed 64-bit seconds, and the identifiers only if the last one cannot grow.
pub proof fn law_fill_fails_only_if_refused(
    before: SessionsView,
    after: SessionsView,
    times: Seq<i128>,
    size: nat,
    failure: Failure,
)
    requires
        before.wf(),
        before.sessions.is_empty(),
        filled(before, after, times, size, Err(failure)),
    ensures
        after.sessions.len() < before.capacity,
        exists|n: int|
            {
                &&& 0 <= n < times.len()
                &&& n < before.capacity
                &&& failure == Failure::Clock <==> !({
                    &&& -9_223_372_036_854_775_808_000_000_000 <= #[trigger] times[n]
                    &&& -9_223_372_036_854_775_808_000_000_000 <= times[n] + before.ttl
                    &&& times[n] <= 9_223_372_036_854_775_807_999_999_999
                    &&& times[n] + before.ttl <= 9_223_372_036_854_775_807_999_999_999
                })
                &&& (forall|k: int|
                    0 <= k < times.len() ==> #[trigger] times[k] < 281_474_976_710_656_000_000i128)
                    ==> after.sessions.len() == n
                &&& forall|k: int|
                    0 <= k < n ==> {
                        &&& -9_223_372_036_854_775_808_000_000_000 <= #[trigger] times[k]
                        &&& -9_223_372_036_854_775_808_000_000_000 <= times[k] + before.ttl
                        &&& times[k] <= 9_223_372_036_854_775_807_999_999_999
                        &&& times[k] + before.ttl <= 9_223_372_036_854_775_807_999_999_999
                    }
            },
        failure == Failure::Identifiers ==> after.last_id as int % 0x1_0000_0000_0000_0000_0000
            == 0xffff_ffff_ffff_ffff_ffff,
{
    let (states, expiries) = choose|states: Seq<SessionsView>, expiries: Seq<Expiry>|
        {
            &&& #[trigger] fills(states, times, size, expiries)
            &&& states[0] == before
            &&& states.last() == after
            &&& expiries.len() < before.capacity
            &&& expiries.len() < times.len()
            &&& after.refusal(times[expiries.len() as int] as int) == Some(failure)
        };
    lemma_fills(states, times, size, expiries);
    let n = expiries.len() as int;
    lemma_states(states, times, size, expiries, n, 0);
    law_refusal(after, times[n] as int);
    assert forall|k: int| 0 <= k < n implies {
        &&& -9_223_372_036_854_775_808_000_000_000 <= #[trigger] times[k]
        &&& -9_223_372_036_854_775_808_000_000_000 <= times[k] + before.ttl
        &&& times[k] <= 9_223_372_036_854_775_807_999_999_999
        &&& times[k] + before.ttl <= 9_223_372_036_854_775_807_999_999_999
    } by {
        assert(states[k].adds_filler(states[k + 1], times[k] as int, size, expiries[k]));
        lemma_states(states, times, size, expiries, k, 0);
        law_refusal(states[k], times[k] as int);
    }
    if forall|k: int| 0 <= k < times.len() ==> #[trigger] times[k] < 281_474_976_710_656_000_000i128 {
        assert(are_timely(times));
    }
    assert(times[n] == times[n]);
}

/// Filling a store succeeds if no time on the way is refused: then it does not stop before the
/// capacity is reached.
pub proof fn law_fill_succeeds(
    before: SessionsView,
    after: SessionsView,
    times: Seq<i128>,
    size: nat,
    outcome: Result<Seq<Expiry>, Failure>,
)
    requires
        before.wf(),
        before.sessions.is_empty(),
        filled(before, after, times, size, outcome),
        forall|n: int|
            0 <= n < times.len() ==> {
                &&& -9_223_372_036_854_775_808_000_000_000 <= (#[trigger] times[n])
                &&& -9_223_372_036_854_775_808_000_000_000 <= times[n] + before.ttl
                &&& times[n] <= 9_223_372_036_854_775_807_999_999_999
                &&& times[n] + before.ttl <= 9_223_372_036_854_775_807_999_999_999
            },
        after.last_id as int % 0x1_0000_0000_0000_0000_0000 != 0xffff_ffff_ffff_ffff_ffff,
    ensures
        outcome is Ok,
        outcome->Ok_0.len() == before.capacity,
{
    if outcome is Err {
        law_fill_fails_only_if_refused(before, after, times, size, outcome->Err_0);
    }
}

} // verus!
