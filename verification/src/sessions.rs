//! Sessions and the store that holds them.

use std::collections::BTreeMap;

use bytes::Bytes;
use ulid::Generator;
use vstd::prelude::*;

use crate::conditions::is_checkable;
use crate::content_types::{MediaType, OCTET_STREAM};
use crate::entity_tags::{hash_tag, tag_of_hash};
use crate::eviction::{evict, lemma_largest_are_newest, lemma_newest_of_values, newest};
use crate::identifiers::{
    epoch_millis, exhausted, follows, generate_identifier, held_identifier, law_identifiers_grow,
    END_OF_IDENTIFIERS,
};
use crate::payload::{content, digest, sha256};
use crate::times::{
    expires_header, from_epoch, has_date, is_reading, is_time, last_modified_header, now, split, write_expires,
    write_last_modified, END_OF_DATES, FIRST_TIME, LAST_TIME, SECOND,
};

verus! {

/// What a session is made of.
#[verifier::ext_equal]
pub struct SessionView {
    pub hash: Seq<u8>,
    pub data: Seq<u8>,
    pub content_type: Seq<char>,
    pub last_modified: int,
    pub expires: int,
}

impl SessionView {
    /// A session that is created at `now`.
    pub open spec fn fresh(data: Seq<u8>, content_type: Seq<char>, now: int, ttl: int) -> Self {
        SessionView {
            hash: sha256(data),
            data,
            content_type,
            last_modified: now,
            expires: now + ttl,
        }
    }

    /// The session with another payload, which came at `now`.
    pub open spec fn updated(self, data: Seq<u8>, content_type: Seq<char>, now: int) -> Self {
        SessionView {
            hash: sha256(data),
            data,
            content_type,
            last_modified: now,
            expires: self.expires,
        }
    }

    /// Whether the hash is that of the payload.
    pub open spec fn wf(self) -> bool {
        self.hash == sha256(self.data)
    }

    /// Whether the times of the session have dates, so that there are headers that describe it.
    pub open spec fn has_dates(self) -> bool {
        has_date(self.last_modified) && has_date(self.expires)
    }

    /// The entity tag of the payload.
    pub open spec fn etag(self) -> Seq<char> {
        tag_of_hash(self.hash)
    }

    /// The headers that describe the session.
    pub open spec fn typed_headers(self) -> TypedHeadersView {
        TypedHeadersView {
            etag: self.etag(),
            expires: expires_header((self.expires / SECOND as int) as u64),
            last_modified: last_modified_header(
                (self.last_modified / SECOND as int) as u64,
            ),
        }
    }
}

/// The texts of the headers that describe a session.
#[verifier::ext_equal]
pub struct TypedHeadersView {
    pub etag: Seq<char>,
    pub expires: Seq<char>,
    pub last_modified: Seq<char>,
}

/// The headers that describe a session.
#[derive(Debug)]
pub struct TypedHeaders {
    pub etag: String,
    pub expires: String,
    pub last_modified: String,
}

impl View for TypedHeaders {
    type V = TypedHeadersView;

    open spec fn view(&self) -> TypedHeadersView {
        TypedHeadersView {
            etag: self.etag@,
            expires: self.expires@,
            last_modified: self.last_modified@,
        }
    }
}

/// A payload that two parties exchange, with its media type and its times.
pub struct Session {
    hash: [u8; 32],
    data: Bytes,
    content_type: MediaType,
    last_modified: i128,
    expires: i128,
}

impl View for Session {
    type V = SessionView;

    closed spec fn view(&self) -> SessionView {
        SessionView {
            hash: self.hash@,
            data: content(self.data),
            content_type: self.content_type@,
            last_modified: self.last_modified as int,
            expires: self.expires as int,
        }
    }
}

impl Session {
    /// A session that is created at `now` and expires after `ttl`.
    pub fn new(data: Bytes, content_type: MediaType, ttl: u128, now: i128) -> (session: Self)
        requires
            is_time(now as int),
            is_time(now + ttl),
        ensures
            session@ == SessionView::fresh(
                content(data),
                content_type@,
                now as int,
                ttl as int,
            ),
            session@.wf(),
            session@.hash == sha256(content(data)),
            session@.data == content(data),
            session@.content_type == content_type@,
            session@.last_modified == now,
            session@.expires == now + ttl,
    {
        let hash = digest(&data);
        Session { hash, data, content_type, expires: now + ttl as i128, last_modified: now }
    }

    /// Replaces the payload; the time of expiry stays.
    pub fn update(&mut self, data: Bytes, content_type: MediaType, now: i128)
        ensures
            final(self)@ == old(self)@.updated(
                content(data),
                content_type@,
                now as int,
            ),
            final(self)@.wf(),
            final(self)@.hash == sha256(content(data)),
            final(self)@.data == content(data),
            final(self)@.content_type == content_type@,
            final(self)@.last_modified == now,
            final(self)@.expires == old(self)@.expires,
    {
        self.hash = digest(&data);
        self.data = data;
        self.content_type = content_type;
        self.last_modified = now;
    }

    /// The media type of the payload.
    pub fn content_type(&self) -> (text: String)
        ensures
            text@ == self@.content_type,
    {
        self.content_type.text()
    }

    /// The entity tag of the payload: its quoted hash.
    pub fn etag(&self) -> (tag: String)
        ensures
            tag@ == self@.etag(),
            is_checkable(tag@),
    {
        hash_tag(&self.hash)
    }

    /// The payload.
    pub fn data(&self) -> (data: Bytes)
        ensures
            content(data) == self@.data,
    {
        self.data.clone()
    }

    fn last_modified(&self) -> (text: String)
        requires
            has_date(self@.last_modified),
        ensures
            text@ == self@.typed_headers().last_modified,
    {
        let (secs, nanos) = split(self.last_modified as u128);
        write_last_modified(secs, nanos)
    }

    fn expires(&self) -> (text: String)
        requires
            has_date(self@.expires),
        ensures
            text@ == self@.typed_headers().expires,
    {
        let (secs, nanos) = split(self.expires as u128);
        write_expires(secs, nanos)
    }

    /// Whether the times of the session have dates, so that there are headers that describe it.
    pub fn has_dates(&self) -> (dated: bool)
        ensures
            dated == self@.has_dates(),
    {
        0 <= self.last_modified && self.last_modified < END_OF_DATES && 0 <= self.expires
            && self.expires < END_OF_DATES
    }

    /// The headers that describe the session.
    pub fn typed_headers(&self) -> (headers: TypedHeaders)
        requires
            self@.has_dates(),
        ensures
            headers@ == self@.typed_headers(),
    {
        TypedHeaders {
            etag: self.etag(),
            expires: self.expires(),
            last_modified: self.last_modified(),
        }
    }
}

/// What keeps a request from being served.
#[derive(Clone, Copy, Debug, PartialEq, Eq, Structural)]
pub enum Failure {
    /// There is no such time for the machine, or a time has no date to write in a header.
    Clock,
    /// No identifier is left for this millisecond.
    Identifiers,
}

/// The removal of a session that is due after some time.
#[derive(Clone, Copy, Debug, PartialEq, Eq, Structural)]
pub struct Expiry {
    pub id: u128,
    pub after: u128,
}

/// What a store of sessions is made of.
#[verifier::ext_equal]
pub struct SessionsView {
    /// The sessions, by their identifiers.
    pub sessions: Map<u128, SessionView>,
    /// The identifier that was given out last.
    pub last_id: u128,
    /// How many sessions an eviction leaves.
    pub capacity: nat,
    /// How many sessions there may be.
    pub hard_capacity: nat,
    /// How long a session lives.
    pub ttl: int,
}

impl SessionsView {
    /// A store that holds nothing.
    pub open spec fn empty(ttl: int, capacity: nat) -> Self {
        SessionsView {
            sessions: Map::empty(),
            last_id: 0,
            capacity,
            hard_capacity: capacity * 2,
            ttl,
        }
    }

    /// How many sessions there are at most: the hard capacity is reached only by a store for one
    /// session, and exceeded only by a store for none.
    pub open spec fn most(self) -> nat {
        if self.capacity == 0 {
            1
        } else if self.capacity == 1 {
            2
        } else {
            (self.hard_capacity - 1) as nat
        }
    }

    /// Whether the store keeps to its capacity, and every session in it is valid.
    pub open spec fn wf(self) -> bool {
        &&& self.sessions.dom().finite()
        &&& self.hard_capacity == self.capacity * 2
        &&& self.hard_capacity <= usize::MAX
        &&& self.sessions.len() <= self.most()
        &&& forall|id: u128| #[trigger] self.sessions.contains_key(id) ==> self.sessions[id].wf()
    }

    /// Whether no identifier in the store is above the one that was given out last.
    pub open spec fn ordered(self) -> bool {
        forall|id: u128| #[trigger] self.sessions.contains_key(id) ==> id <= self.last_id
    }

    /// The store with only its newest sessions, up to the capacity.
    pub open spec fn shrunk(self) -> Self {
        SessionsView { sessions: newest(self.sessions, self.capacity), ..self }
    }

    /// The store after an eviction, which does nothing up to the capacity.
    pub open spec fn evicted(self) -> Self {
        if self.sessions.len() > self.capacity {
            self.shrunk()
        } else {
            self
        }
    }

    /// The store with room for one session more.
    pub open spec fn with_room(self) -> Self {
        if self.sessions.len() + 1 >= self.hard_capacity {
            self.shrunk()
        } else {
            self
        }
    }

    /// The store with a session put in, or replaced.
    pub open spec fn put(self, id: u128, session: SessionView) -> Self {
        SessionsView { sessions: self.sessions.insert(id, session), ..self }
    }

    /// The store after the insertion of a session.
    pub open spec fn inserted(self, id: u128, session: SessionView) -> Self {
        self.with_room().put(id, session)
    }

    /// The store without a session.
    pub open spec fn removed(self, id: u128) -> Self {
        SessionsView { sessions: self.sessions.remove(id), ..self }
    }

    /// The store after another identifier was given out.
    pub open spec fn counted(self, id: u128) -> Self {
        SessionsView { last_id: id, ..self }
    }

    /// The store with a session of filler bytes that is created at `now`.
    pub open spec fn with_filler(self, id: u128, size: nat, now: int) -> Self {
        self.counted(id).put(
            id,
            SessionView::fresh(filler(size), OCTET_STREAM@, now, self.ttl),
        )
    }

    /// Whether the store came from an empty one by adding only sessions of filler bytes.
    pub open spec fn holds_fillers(self, from: Self, size: nat) -> bool {
        &&& self.capacity == from.capacity
        &&& self.hard_capacity == from.hard_capacity
        &&& self.ttl == from.ttl
        &&& forall|id: u128| #[trigger]
            self.sessions.contains_key(id) ==> self.sessions[id] == SessionView::fresh(
                filler(size),
                OCTET_STREAM@,
                self.sessions[id].last_modified,
                self.ttl,
            )
    }

    /// Whether a list has the removals of all sessions of the store, each of them once and in the
    /// order of their identifiers, which are all newer than those of another store.
    pub open spec fn schedules(self, from: Self, expiries: Seq<Expiry>) -> bool {
        &&& forall|i: int, j: int|
            0 <= i < j < expiries.len() ==> (#[trigger] expiries[i]).id < (#[trigger] expiries[j]).id
        &&& forall|i: int|
            0 <= i < expiries.len() ==> {
                &&& from.last_id < (#[trigger] expiries[i]).id <= self.last_id
                &&& expiries[i].after == self.ttl
                &&& self.sessions.contains_key(expiries[i].id)
            }
        &&& forall|id: u128| #[trigger]
            self.sessions.contains_key(id) ==> exists|i: int|
                0 <= i < expiries.len() && (#[trigger] expiries[i]).id == id
    }

    /// Why no session can be created at a time, if none can be.
    pub open spec fn refusal(self, now: int) -> Option<Failure> {
        if !is_time(now) || !is_time(now + self.ttl) {
            Some(Failure::Clock)
        } else if exhausted(self.last_id, epoch_millis(now)) {
            Some(Failure::Identifiers)
        } else {
            None
        }
    }

    /// Whether a session of filler bytes that is created at `now` takes the store to another state.
    pub open spec fn adds_filler(self, after: Self, now: int, size: nat, expiry: Expiry) -> bool {
        &&& self.refusal(now) is None
        &&& follows(self.last_id, epoch_millis(now), expiry.id)
        &&& expiry.after == self.ttl
        &&& after == self.with_filler(expiry.id, size, now)
    }
}

/// Whether a store goes through these states as sessions of filler bytes are added at these times.
pub open spec fn fills(
    states: Seq<SessionsView>,
    times: Seq<i128>,
    size: nat,
    expiries: Seq<Expiry>,
) -> bool {
    &&& states.len() == expiries.len() + 1
    &&& expiries.len() <= times.len()
    &&& forall|i: int|
        0 <= i < expiries.len() ==> (#[trigger] states[i]).adds_filler(
            states[i + 1],
            times[i] as int,
            size,
            expiries[i],
        )
}

/// What comes of filling a store at these times: a session is added at each of them, up to the
/// capacity, or up to the first time that is refused.
pub open spec fn filled(
    before: SessionsView,
    after: SessionsView,
    times: Seq<i128>,
    size: nat,
    outcome: Result<Seq<Expiry>, Failure>,
) -> bool {
    exists|states: Seq<SessionsView>, expiries: Seq<Expiry>|
        {
            &&& #[trigger] fills(states, times, size, expiries)
            &&& states[0] == before
            &&& states.last() == after
            &&& match outcome {
                Ok(listed) => listed == expiries && expiries.len() == before.capacity,
                Err(failure) => {
                    &&& expiries.len() < before.capacity
                    &&& expiries.len() < times.len()
                    &&& after.refusal(times[expiries.len() as int] as int) == Some(failure)
                },
            }
        }
}

/// Whether identifiers have room for all of these times.
pub open spec fn are_timely(times: Seq<i128>) -> bool {
    forall|i: int| 0 <= i < times.len() ==> #[trigger] times[i] < END_OF_IDENTIFIERS
}

/// A session of filler bytes leaves a store valid, if it is below the capacity.
proof fn lemma_adds_filler(
    from: SessionsView,
    before: SessionsView,
    after: SessionsView,
    now: int,
    size: nat,
    expiry: Expiry,
)
    requires
        before.adds_filler(after, now, size, expiry),
        before.wf(),
        before.holds_fillers(from, size),
        before.sessions.len() < before.capacity,
    ensures
        after.wf(),
        after.holds_fillers(from, size),
        after.sessions.len() <= before.sessions.len() + 1,
{
}

/// The removal of another session of filler bytes comes last in the list of removals, as long as
/// identifiers have room for the time.
proof fn lemma_schedules_filler(
    from: SessionsView,
    before: SessionsView,
    after: SessionsView,
    now: int,
    size: nat,
    earlier: Seq<Expiry>,
    expiry: Expiry,
)
    requires
        before.adds_filler(after, now, size, expiry),
        before.sessions.dom().finite(),
        before.schedules(from, earlier),
        before.ordered(),
        from.last_id <= before.last_id,
        now < END_OF_IDENTIFIERS,
    ensures
        after.sessions.len() == before.sessions.len() + 1,
        after.schedules(from, earlier.push(expiry)),
        after.ordered(),
        from.last_id <= after.last_id,
{
    let expiries = earlier.push(expiry);
    law_identifiers_grow(before.last_id, now, expiry.id);
    assert(!before.sessions.contains_key(expiry.id));
    assert forall|id: u128| #[trigger] after.sessions.contains_key(id) implies exists|i: int|
        0 <= i < expiries.len() && (#[trigger] expiries[i]).id == id by {
        if id == expiry.id {
            assert(expiries[earlier.len() as int].id == id);
        } else {
            assert(before.sessions.contains_key(id));
            let i = choose|i: int| 0 <= i < earlier.len() && (#[trigger] earlier[i]).id == id;
            assert(expiries[i].id == id);
        }
    }
}

/// What an empty store holds once some sessions of filler bytes are added.
pub proof fn lemma_fills(
    states: Seq<SessionsView>,
    times: Seq<i128>,
    size: nat,
    expiries: Seq<Expiry>,
)
    requires
        fills(states, times, size, expiries),
        states[0].wf(),
        states[0].sessions.is_empty(),
        expiries.len() <= states[0].capacity,
    ensures
        states.last().wf(),
        states.last().holds_fillers(states[0], size),
        states.last().sessions.len() <= expiries.len(),
        are_timely(times) ==> {
            &&& states.last().sessions.len() == expiries.len()
            &&& states.last().schedules(states[0], expiries)
            &&& states[0].last_id <= states.last().last_id
            &&& states.last().ordered()
        },
    decreases expiries.len(),
{
    if expiries.len() > 0 {
        let n = expiries.len() - 1;
        let (rest, earlier) = (states.drop_last(), expiries.drop_last());
        assert forall|i: int| 0 <= i < earlier.len() implies (#[trigger] rest[i]).adds_filler(
            rest[i + 1],
            times[i] as int,
            size,
            earlier[i],
        ) by {
            assert(states[i].adds_filler(states[i + 1], times[i] as int, size, expiries[i]));
        }
        lemma_fills(rest, times, size, earlier);
        assert(states[n].adds_filler(states[n + 1], times[n] as int, size, expiries[n]));
        assert(rest.last() == states[n]);
        lemma_adds_filler(
            states[0],
            states[n],
            states[n + 1],
            times[n] as int,
            size,
            expiries[n],
        );
        if are_timely(times) {
            assert(times[n] < END_OF_IDENTIFIERS);
            lemma_schedules_filler(
                states[0],
                states[n],
                states[n + 1],
                times[n] as int,
                size,
                earlier,
                expiries[n],
            );
            assert(earlier.push(expiries[n]) == expiries);
        }
    }
}

/// A store of sessions, which expire after some time, and of which the oldest are evicted where
/// there are too many.
pub struct Sessions {
    inner: BTreeMap<u128, Session>,
    generator: Generator,
    capacity: usize,
    hard_capacity: usize,
    ttl: u128,
}

impl View for Sessions {
    type V = SessionsView;

    closed spec fn view(&self) -> SessionsView {
        SessionsView {
            sessions: self.inner@.map_values(|session: Session| session@),
            last_id: held_identifier(self.generator),
            capacity: self.capacity as nat,
            hard_capacity: self.hard_capacity as nat,
            ttl: self.ttl as int,
        }
    }
}

impl Default for Sessions {
    /// A store for no sessions, which expire at once.
    fn default() -> (sessions: Self)
        ensures
            sessions@ == SessionsView::empty(0, 0),
            sessions@.wf(),
            sessions@.sessions == Map::<u128, SessionView>::empty(),
            sessions@.capacity == 0,
            sessions@.ttl == 0,
    {
        Sessions::new(0, 0)
    }
}

impl Sessions {
    /// A store for `capacity` sessions, which expire after `ttl`.
    pub fn new(ttl: u128, capacity: usize) -> (sessions: Self)
        requires
            capacity * 2 <= usize::MAX,
        ensures
            sessions@ == SessionsView::empty(ttl as int, capacity as nat),
            sessions@.wf(),
            sessions@.sessions == Map::<u128, SessionView>::empty(),
            sessions@.last_id == 0,
            sessions@.capacity == capacity,
            sessions@.hard_capacity == 2 * capacity,
            sessions@.ttl == ttl,
    {
        let sessions = Sessions {
            inner: BTreeMap::new(),
            generator: Generator::new(),
            ttl,
            capacity,
            hard_capacity: capacity * 2,
        };
        assert(sessions@.sessions == Map::<u128, SessionView>::empty());
        sessions
    }

    /// The view has the keys of the map behind it.
    proof fn lemma_keys(&self)
        ensures
            self@.sessions.dom() == self.inner@.dom(),
            self@.sessions.len() == self.inner@.len(),
            self@.sessions.dom().finite(),
    {
        assert(self@.sessions.dom() == self.inner@.dom());
    }

    /// Whether there is such a time, and a time at which a session that is created then expires.
    fn can_live(&self, now: i128) -> (possible: bool)
        ensures
            possible == (is_time(now as int) && is_time(now + self@.ttl)),
    {
        FIRST_TIME <= now && now <= LAST_TIME && self.ttl <= (LAST_TIME - now) as u128
    }

    /// An identifier for a session that is created at `now`.
    fn generate_id(&mut self, now: i128) -> (id: Result<u128, Failure>)
        requires
            is_time(now as int),
        ensures
            match id {
                Ok(id) => {
                    &&& !exhausted(old(self)@.last_id, epoch_millis(now as int))
                    &&& follows(old(self)@.last_id, epoch_millis(now as int), id)
                    &&& final(self)@ == old(self)@.counted(id)
                },
                Err(failure) => {
                    &&& exhausted(old(self)@.last_id, epoch_millis(now as int))
                    &&& failure == Failure::Identifiers
                    &&& final(self)@ == old(self)@
                },
            },
    {
        let (back, forward, nanos) = from_epoch(now);
        match generate_identifier(&mut self.generator, back, forward, nanos) {
            Ok(id) => Ok(id),
            Err(_) => Err(Failure::Identifiers),
        }
    }

    /// Creates a session at `now` and puts it into the store, after an eviction where the store
    /// would reach its hard capacity. The session is to be deleted once the returned time is over.
    pub fn new_session(
        &mut self,
        now: i128,
        payload: Bytes,
        content_type: MediaType,
    ) -> (created: Result<Expiry, Failure>)
        requires
            old(self)@.wf(),
        ensures
            final(self)@.wf(),
            match old(self)@.refusal(now as int) {
                Some(failure) => created == Err::<Expiry, Failure>(failure) && final(self)@ == old(
                    self,
                )@,
                None => {
                    &&& created matches Ok(expiry)
                    &&& expiry.after == old(self)@.ttl
                    &&& follows(old(self)@.last_id, epoch_millis(now as int), expiry.id)
                    &&& final(self)@ == old(self)@.counted(expiry.id).inserted(
                        expiry.id,
                        SessionView::fresh(
                            content(payload),
                            content_type@,
                            now as int,
                            old(self)@.ttl,
                        ),
                    )
                },
            },
    {
        if !self.can_live(now) {
            return Err(Failure::Clock);
        }
        match self.generate_id(now) {
            Ok(id) => {
                let session = Session::new(payload, content_type, self.ttl, now);
                Ok(self.insert(id, session))
            },
            Err(failure) => Err(failure),
        }
    }

    /// Whether there is no session in the store.
    pub fn is_empty(&self) -> (empty: bool)
        ensures
            empty == self@.sessions.is_empty(),
    {
        proof {
            self.lemma_keys();
        }
        self.inner.len() == 0
    }

    /// Finds a session in the store.
    pub fn get_session(&self, id: u128) -> (session: Option<&Session>)
        ensures
            match session {
                Some(session) => self@.sessions.contains_key(id) && session@ == self@.sessions[id],
                None => !self@.sessions.contains_key(id),
            },
    {
        self.inner.get(&id)
    }

    /// Finds a session in the store, to change it in place.
    pub fn get_session_mut(&mut self, id: u128) -> (session: Option<&mut Session>)
        ensures
            match session {
                Some(session) => {
                    &&& old(self)@.sessions.contains_key(id)
                    &&& session@ == old(self)@.sessions[id]
                    &&& final(self)@ == old(self)@.put(id, final(session)@)
                },
                None => !old(self)@.sessions.contains_key(id) && final(self)@ == old(self)@,
            },
    {
        find_mut(&mut self.inner, &id)
    }

    /// Deletes a session from the store, and tells whether it was there.
    pub fn delete_session(&mut self, id: u128) -> (found: bool)
        requires
            old(self)@.wf(),
        ensures
            found == old(self)@.sessions.contains_key(id),
            final(self)@ == old(self)@.removed(id),
            final(self)@.wf(),
            final(self)@.sessions == old(self)@.sessions.remove(id),
    {
        let found = self.inner.remove(&id).is_some();
        assert(self@.sessions == old(self)@.sessions.remove(id));
        found
    }

    /// Puts a session into the store, after an eviction where the store would reach its hard
    /// capacity.
    fn insert(&mut self, id: u128, session: Session) -> (expiry: Expiry)
        requires
            old(self)@.wf(),
            session@.wf(),
        ensures
            expiry == (Expiry { id, after: old(self)@.ttl as u128 }),
            final(self)@ == old(self)@.inserted(id, session@),
            final(self)@.wf(),
            final(self)@.capacity >= 1 ==> final(self)@.sessions.len() <= 2 * final(self)@.capacity,
            final(self)@.capacity >= 2 ==> final(self)@.sessions.len() <= 2 * final(self)@.capacity
                - 1,
    {
        proof {
            self.lemma_keys();
        }
        // Never go over the hard capacity
        if self.inner.len() + 1 >= self.hard_capacity {
            self.shrink();
        }
        let ghost before = self@;
        self.inner.insert(id, session);
        assert(self@.sessions == before.sessions.insert(id, session@));
        Expiry { id, after: self.ttl }
    }

    /// Evicts the oldest sessions, up to the capacity.
    fn shrink(&mut self)
        requires
            old(self)@.wf(),
            old(self)@.capacity <= old(self)@.sessions.len(),
        ensures
            final(self)@ == old(self)@.shrunk(),
            final(self)@.sessions.len() == old(self)@.capacity,
            final(self)@.wf(),
    {
        proof {
            self.lemma_keys();
        }
        evict(&mut self.inner, self.capacity);
        proof {
            self.lemma_keys();
            lemma_largest_are_newest(old(self).inner@, self.inner@, self.capacity as nat);
            lemma_newest_of_values(
                old(self).inner@,
                |session: Session| session@,
                self.capacity as nat,
            );
            assert(self@ == old(self)@.shrunk());
        }
    }

    /// Evicts the oldest sessions, if there are more than the capacity.
    pub fn evict(&mut self)
        requires
            old(self)@.wf(),
        ensures
            final(self)@ == old(self)@.evicted(),
            final(self)@.wf(),
    {
        proof {
            self.lemma_keys();
        }
        if self.inner.len() > self.capacity {
            self.shrink();
        }
    }

    /// Creates a session of filler bytes at `now` and puts it into the store, without an eviction.
    fn add_filler(&mut self, now: i128, data: Bytes) -> (added: Result<Expiry, Failure>)
        requires
            old(self)@.wf(),
            old(self)@.sessions.len() < old(self)@.capacity,
            content(data) == filler(content(data).len()),
        ensures
            final(self)@.wf(),
            final(self)@.sessions.len() <= old(self)@.sessions.len() + 1,
            match added {
                Ok(expiry) => old(self)@.adds_filler(
                    final(self)@,
                    now as int,
                    content(data).len(),
                    expiry,
                ),
                Err(failure) => {
                    &&& old(self)@.refusal(now as int) == Some(failure)
                    &&& final(self)@ == old(self)@
                },
            },
    {
        if !self.can_live(now) {
            return Err(Failure::Clock);
        }
        match self.generate_id(now) {
            Ok(id) => {
                let session = Session::new(data, MediaType::octet_stream(), self.ttl, now);
                let ghost before = self@;
                self.inner.insert(id, session);
                assert(self@.sessions == before.sessions.insert(id, session@));
                Ok(Expiry { id, after: self.ttl })
            },
            Err(failure) => Err(failure),
        }
    }

    /// Fills an empty store with one session of filler bytes for each of these times, up to its
    /// capacity. The sessions are to be deleted once the returned times are over.
    pub fn fill_at(&mut self, times: &Vec<i128>, entry_size: usize) -> (outcome: Result<
        Vec<Expiry>,
        Failure,
    >)
        requires
            old(self)@.wf(),
            old(self)@.sessions.is_empty(),
            old(self)@.capacity <= times@.len(),
        ensures
            final(self)@.wf(),
            filled(
                old(self)@,
                final(self)@,
                times@,
                entry_size as nat,
                listed(outcome),
            ),
            final(self)@.holds_fillers(old(self)@, entry_size as nat),
            are_timely(times@) && outcome is Ok ==> {
                &&& final(self)@.sessions.len() == old(self)@.capacity
                &&& final(self)@.schedules(old(self)@, outcome->Ok_0@)
            },
    {
        let data: Vec<u8> = vec![42; entry_size];
        let mut expiries: Vec<Expiry> = Vec::new();
        let capacity: usize = self.capacity;
        let ghost mut states: Seq<SessionsView> = seq![self@];
        proof {
            self.lemma_keys();
            assert(data@ == filler(entry_size as nat));
        }
        for done in 0..capacity
            invariant
                self@.wf(),
                capacity == old(self)@.capacity,
                capacity <= times@.len(),
                expiries@.len() == done,
                fills(states, times@, entry_size as nat, expiries@),
                states[0] == old(self)@,
                states.last() == self@,
                old(self)@.wf(),
                old(self)@.sessions.is_empty(),
                self@.capacity == capacity,
                self@.sessions.len() <= done,
                data@ == filler(entry_size as nat),
        {
            let ghost (before, listed) = (states, expiries@);
            match self.add_filler(times[done], Bytes::from(data.clone())) {
                Ok(expiry) => {
                    expiries.push(expiry);
                    proof {
                        states = states.push(self@);
                        assert forall|i: int| 0 <= i < expiries@.len() implies (
                        #[trigger] states[i]).adds_filler(
                            states[i + 1],
                            times@[i] as int,
                            entry_size as nat,
                            expiries@[i],
                        ) by {
                            if i < done {
                                assert(before[i].adds_filler(
                                    before[i + 1],
                                    times@[i] as int,
                                    entry_size as nat,
                                    listed[i],
                                ));
                            }
                        }
                    }
                },
                Err(failure) => {
                    proof {
                        lemma_fills(states, times@, entry_size as nat, expiries@);
                    }
                    return Err(failure);
                },
            }
        }
        proof {
            lemma_fills(states, times@, entry_size as nat, expiries@);
        }
        Ok(expiries)
    }

    /// Fills an empty store up to its capacity, to check how much memory it might use. The
    /// sessions are to be deleted once the returned times are over.
    pub fn fill_for_mem_check(&mut self, entry_size: usize) -> (outcome: Result<
        Vec<Expiry>,
        Failure,
    >)
        requires
            old(self)@.wf(),
            old(self)@.sessions.is_empty(),
        ensures
            final(self)@.wf(),
            final(self)@.holds_fillers(old(self)@, entry_size as nat),
            exists|times: Seq<i128>|
                {
                    &&& times.len() == old(self)@.capacity
                    &&& forall|i: int|
                        0 <= i < times.len() ==> is_reading(#[trigger] times[i] as int)
                    &&& #[trigger] filled(
                        old(self)@,
                        final(self)@,
                        times,
                        entry_size as nat,
                        listed(outcome),
                    )
                    &&& are_timely(times) && outcome is Ok ==> {
                        &&& final(self)@.sessions.len() == old(self)@.capacity
                        &&& final(self)@.schedules(old(self)@, outcome->Ok_0@)
                    }
                },
    {
        let mut times: Vec<i128> = Vec::new();
        let capacity: usize = self.capacity;
        for done in 0..capacity
            invariant
                times@.len() == done,
                forall|i: int| 0 <= i < times@.len() ==> is_reading(#[trigger] times@[i] as int),
        {
            times.push(now());
        }
        self.fill_at(&times, entry_size)
    }
}

/// What comes of filling a store, with the list of removals as a sequence.
pub open spec fn listed(outcome: Result<Vec<Expiry>, Failure>) -> Result<Seq<Expiry>, Failure> {
    match outcome {
        Ok(expiries) => Ok(expiries@),
        Err(failure) => Err(failure),
    }
}

/// The bytes that fill a session of the given size.
pub open spec fn filler(size: nat) -> Seq<u8> {
    Seq::new(size, |i: int| 42)
}

/// `BTreeMap::get_mut`: the value of a key, to be changed in place, if the map has the key.
#[verifier::external_body]
fn find_mut<'a, V>(map: &'a mut BTreeMap<u128, V>, key: &u128) -> (value: Option<&'a mut V>)
    ensures
        match value {
            Some(value) => {
                &&& old(map)@.contains_key(*key)
                &&& *value == old(map)@[*key]
                &&& final(map)@ == old(map)@.insert(*key, *final(value))
            },
            None => !old(map)@.contains_key(*key) && final(map)@ == old(map)@,
        },
{
    map.get_mut(key)
}

} // verus!
