//! The parts of the library, each on values of its own.

use std::collections::BTreeMap;

use bytes::Bytes;
use matrix_http_rendezvous::conditions::{check_if_match, check_if_none_match};
use matrix_http_rendezvous::content_types::{MediaType, OCTET_STREAM};
use matrix_http_rendezvous::entity_tags::hash_tag;
use matrix_http_rendezvous::eviction::evict;
use matrix_http_rendezvous::handlers::{
    delete_session, get_session, new_session, new_session_at, show_found, update_found, update_session, update_session_at,
    Response, ACCEPTED, BAD_REQUEST, CREATED, NOT_FOUND, NOT_MODIFIED, NO_CONTENT, OK,
    PAYLOAD_TOO_LARGE, PRECONDITION_FAILED,
};
use matrix_http_rendezvous::sessions::{Failure, Session};
use matrix_http_rendezvous::times::{
    now, since_epoch, split, END_OF_DATES, FIRST_TIME, LAST_TIME,
};
use matrix_http_rendezvous::{
    Sessions, DEFAULT_MAX_BYTES, DEFAULT_MAX_BYTES_STR, DEFAULT_MAX_ENTRIES, DEFAULT_TTL,
};
use ulid::Ulid;

const MINUTE: u128 = 60_000_000_000;

/// 1994-11-07 08:48:37.25 UTC.
const SOME_TIME: i128 = 784_198_117_250_000_000;

fn lines(values: &[&str]) -> Vec<Vec<u8>> {
    values.iter().map(|value| value.as_bytes().to_vec()).collect()
}

fn bytes(body: &str) -> Bytes {
    Bytes::from(body.as_bytes().to_vec())
}

fn post_at(sessions: &mut Sessions, now: i128, body: &str) -> u128 {
    let (response, expiry) = new_session_at(sessions, now, 4096, &vec![], bytes(body));
    assert_eq!(response.unwrap().status, CREATED);
    expiry.unwrap().id
}

fn get(sessions: &Sessions, id: &str) -> Response {
    get_session(sessions, id, &vec![]).unwrap()
}

fn some_session(body: &str) -> Session {
    Session::new(bytes(body), MediaType::octet_stream(), MINUTE, SOME_TIME)
}

fn tag_of(response: &Response) -> String {
    response.headers.as_ref().unwrap().etag.clone()
}

#[test]
fn defaults() {
    assert_eq!(DEFAULT_TTL, std::time::Duration::from_secs(60).as_nanos());
    assert_eq!(DEFAULT_MAX_ENTRIES, 10_000);
    assert_eq!(DEFAULT_MAX_BYTES, 4 * 1024);
    assert_eq!(DEFAULT_MAX_BYTES_STR, "4KiB");
    assert_eq!(OCTET_STREAM, mime::APPLICATION_OCTET_STREAM.as_ref());
}

#[test]
fn evict_keeps_the_largest_keys() {
    let mut map: BTreeMap<u128, u8> = (0..10).map(|i| (u128::from(i), i)).collect();
    evict(&mut map, 3);
    assert_eq!(map.into_iter().collect::<Vec<_>>(), vec![(7, 7), (8, 8), (9, 9)]);
}

#[test]
fn evict_of_nothing_and_of_everything() {
    let mut map: BTreeMap<&str, u8> = BTreeMap::new();
    map.insert("b", 1);
    map.insert("a", 2);
    evict(&mut map, 3);
    assert_eq!(map.len(), 2);
    evict(&mut map, 2);
    assert_eq!(map.len(), 2);
    evict(&mut map, 0);
    assert!(map.is_empty());
}

#[test]
fn hash_tags() {
    assert_eq!(hash_tag(&[0xff; 32]), "\"__________________________________________8=\"");
    assert_eq!(hash_tag(&[0xfb; 32]), "\"-_v7-_v7-_v7-_v7-_v7-_v7-_v7-_v7-_v7-_v7-_s=\"");
    let mut count = [0; 32];
    for (i, byte) in count.iter_mut().enumerate() {
        *byte = i as u8;
    }
    assert_eq!(hash_tag(&count), "\"AAECAwQFBgcICQoLDA0ODxAREhMUFRYXGBkaGxwdHh8=\"");
    count[31] = 30;
    assert_ne!(hash_tag(&count), "\"AAECAwQFBgcICQoLDA0ODxAREhMUFRYXGBkaGxwdHh8=\"");
}

#[test]
fn session_headers() {
    let session = some_session(r#"{"hello": "world"}"#);
    assert_eq!(session.etag(), "\"X48E9qOokqqrvdts8nOJRJN3OWDUoyWxBf7kbu9DBPE=\"");
    let headers = session.typed_headers();
    assert_eq!(headers.etag, session.etag());
    assert_eq!(headers.last_modified, "Mon, 07 Nov 1994 08:48:37 GMT");
    assert_eq!(headers.expires, "Mon, 07 Nov 1994 08:49:37 GMT");
    assert_eq!(session.content_type(), "application/octet-stream");
    assert_eq!(&session.data()[..], br#"{"hello": "world"}"#);
}

#[test]
fn tags_follow_payloads() {
    let media_type = MediaType::from_header(&lines(&["text/plain"]));
    let other = Session::new(bytes("hello"), media_type, 0, 0);
    assert_eq!(some_session("hello").etag(), other.etag());
    assert_eq!(other.etag(), "\"LPJNul-wow4m6DsqxbninhsWHlwfp0JecwQzYpOLmCQ=\"");
    assert_ne!(some_session("hello").etag(), some_session("world").etag());
}

#[test]
fn expiry_rounds_down_after_the_sum() {
    let data = bytes("");
    let session = Session::new(data, MediaType::octet_stream(), 750_000_000, SOME_TIME);
    let headers = session.typed_headers();
    assert_eq!(headers.last_modified, "Mon, 07 Nov 1994 08:48:37 GMT");
    assert_eq!(headers.expires, "Mon, 07 Nov 1994 08:48:38 GMT");
}

#[test]
fn session_update_keeps_the_expiry() {
    let mut session = some_session("hello");
    let media_type = MediaType::from_header(&lines(&["text/plain"]));
    session.update(bytes(""), media_type, SOME_TIME + 2_000_000_000);
    let headers = session.typed_headers();
    assert_eq!(headers.etag, "\"47DEQpj8HBSa-_TImW-5JCeuQeRkm5NMpJWZG3hSuFU=\"");
    assert_eq!(headers.last_modified, "Mon, 07 Nov 1994 08:48:39 GMT");
    assert_eq!(headers.expires, "Mon, 07 Nov 1994 08:49:37 GMT");
    assert_eq!(session.content_type(), "text/plain");
    assert!(session.data().is_empty());
}

#[test]
fn last_date() {
    let data = bytes("");
    let session = Session::new(data, MediaType::octet_stream(), 0, END_OF_DATES - 1);
    assert_eq!(session.typed_headers().expires, "Fri, 31 Dec 9999 23:59:59 GMT");
}

#[test]
fn parts_of_a_time() {
    assert_eq!(split(784_198_117_250_000_000), (784_198_117, 250_000_000));
    assert_eq!(split(0), (0, 0));
    assert_eq!(split(std::time::Duration::MAX.as_nanos()), (u64::MAX, 999_999_999));
}

#[test]
fn times_of_a_clock() {
    assert_eq!(since_epoch(Ok((784_198_117, 250_000_000))), SOME_TIME);
    assert_eq!(since_epoch(Ok((0, 0))), 0);
    assert_eq!(since_epoch(Ok((253_402_300_800, 0))), END_OF_DATES);
    assert_eq!(since_epoch(Err((1, 500_000_000))), -1_500_000_000);
    assert_eq!(since_epoch(Err((1 << 63, 0))), FIRST_TIME);
    assert_eq!(since_epoch(Ok(((1 << 63) - 1, 999_999_999))), LAST_TIME);
}

#[test]
fn the_clock_moves_forward() {
    let first = now();
    let second = now();
    assert!(SOME_TIME < first && first < END_OF_DATES);
    assert!(first <= second);
}

#[test]
fn media_types() {
    let text = |values: &[&str]| MediaType::from_header(&lines(values)).text();
    assert_eq!(text(&[]), "application/octet-stream");
    assert_eq!(text(&["application/json"]), "application/json");
    assert_eq!(text(&["image/svg+xml"]), "image/svg+xml");
    assert_eq!(text(&["TEXT/Plain; charset=UTF-8"]), "text/plain; charset=utf-8");
    assert_eq!(text(&["text/plain", "text/html"]), "text/plain");
    assert_eq!(text(&["no media type"]), "application/octet-stream");
    assert_eq!(text(&["text/plain\u{7f}"]), "application/octet-stream");
    assert_eq!(text(&["text/plain", "\n"]), "application/octet-stream");
    assert_eq!(MediaType::or_octet_stream(None).text(), "application/octet-stream");
    assert_eq!(MediaType::or_octet_stream(Some("a/b".to_string())).text(), "a/b");
}

#[test]
fn if_match_headers() {
    let check = |values: &[&str]| check_if_match(&lines(values), "\"now\"");
    assert_eq!(check(&[]), None);
    assert_eq!(check(&["*"]), Some(true));
    assert_eq!(check(&["\"now\""]), Some(true));
    assert_eq!(check(&["\"then\""]), Some(false));
    assert_eq!(check(&["\"then\"", "\"now\""]), Some(true));
    assert_eq!(check(&["\"then\", \"now\""]), Some(true));
    assert_eq!(check(&["\"then\",\"soon\""]), Some(false));
    assert_eq!(check(&["\"th,en\", \"now\""]), Some(true));
    assert_eq!(check(&["W/\"now\""]), Some(false));
    assert_eq!(check(&["W/\"now\",\"then\""]), Some(false));
    assert_eq!(check(&["W/\"then\",\t,\"now\" "]), Some(true));
    assert_eq!(check(&[" , "]), Some(false));
    assert_eq!(check(&["now"]), Some(false));
    assert_eq!(check(&[""]), Some(false));
    // Blanks are no part of a tag, and do not get in the way of the other tags
    assert_eq!(check(&["\"no w\""]), Some(false));
    assert_eq!(check(&["\"no\tw\" , \"now\""]), Some(true));
    assert_eq!(check(&["\"then", "now\""]), Some(false));
    // Not a header at all
    assert_eq!(check_if_match(&vec![vec![0x22, 0x0a, 0x22]], "\"now\""), None);
}

#[test]
fn if_none_match_headers() {
    let check = |values: &[&str]| check_if_none_match(&lines(values), "\"now\"");
    assert_eq!(check(&[]), None);
    assert_eq!(check(&["*"]), Some(false));
    assert_eq!(check(&["\"now\""]), Some(false));
    assert_eq!(check(&["W/\"now\""]), Some(false));
    assert_eq!(check(&["\"then\",W/\"now\""]), Some(false));
    assert_eq!(check(&["W/\"then\",\"soon\""]), Some(true));
    assert_eq!(check(&["\"then\""]), Some(true));
    assert_eq!(check(&["\"then\"", "\"now\""]), Some(false));
    assert_eq!(check(&["\"the n\", \"now\""]), Some(false));
    assert_eq!(check(&["\"no w\""]), Some(true));
    assert_eq!(check(&[""]), Some(true));
    assert_eq!(check(&["\"then\", \"soon\"", "\"now\""]), Some(false));
    assert_eq!(check_if_none_match(&vec![vec![0x00]], "\"now\""), None);
}

#[test]
fn identifiers_have_the_time_and_grow() {
    let mut sessions = Sessions::new(MINUTE, 16);
    let first = post_at(&mut sessions, SOME_TIME, "1");
    assert_eq!(Ulid(first).timestamp_ms(), 784_198_117_250);
    // In the same millisecond, or with the clock set back, the next number follows
    let second = post_at(&mut sessions, SOME_TIME + 999_999, "2");
    assert_eq!(second, first + 1);
    let third = post_at(&mut sessions, 0, "3");
    assert_eq!(third, first + 2);
    // Later on, the time part is that of the clock
    let fourth = post_at(&mut sessions, SOME_TIME + 1_000_000, "4");
    assert_eq!(Ulid(fourth).timestamp_ms(), 784_198_117_251);
    assert!(third < fourth);
}

#[test]
fn location_is_the_text_of_the_identifier() {
    let mut sessions = Sessions::new(MINUTE, 16);
    let (response, expiry) =
        new_session_at(&mut sessions, SOME_TIME, 16, &vec![], bytes("hello"));
    let expiry = expiry.unwrap();
    assert_eq!(expiry.after, MINUTE);
    let location = response.unwrap().location.unwrap();
    assert_eq!(location.len(), 26);
    assert_eq!(location, Ulid(expiry.id).to_string());
    // Letters count in either case
    let response = get(&sessions, &location.to_lowercase());
    assert_eq!(response.status, OK);
    assert_eq!(&response.body.unwrap()[..], b"hello");
    assert_eq!(response.content_type.as_deref(), Some("application/octet-stream"));
    assert_eq!(response.location, None);
}

#[test]
fn identifiers_that_are_none() {
    let mut sessions = Sessions::new(MINUTE, 16);
    let ids = [
        "",
        "0000000000000000000000000",
        "000000000000000000000000000",
        "0000000000000000000000000U",
        "0000000000000000000000000-",
        "000000000000000000000000\u{e9}",
    ];
    for id in ids {
        assert_eq!(get(&sessions, id).status, BAD_REQUEST);
        assert_eq!(delete_session(&mut sessions, id).status, BAD_REQUEST);
        let response = update_session_at(
            &mut sessions,
            SOME_TIME,
            16,
            id,
            &vec![],
            &vec![],
            bytes("a payload over the limit"),
        );
        assert_eq!(response.unwrap().status, BAD_REQUEST);
    }
    // The two highest bits have no place in an identifier
    let id = post_at(&mut sessions, SOME_TIME, "");
    let text = Ulid(id).to_string();
    let high = format!("8{}", &text[1..]);
    assert!(text.starts_with('0'));
    assert_eq!(get(&sessions, &high).status, OK);
}

#[test]
fn unknown_sessions() {
    let mut sessions = Sessions::new(MINUTE, 16);
    let id = "00000000000000000000000001";
    assert_eq!(get_session(&sessions, id, &lines(&["*"])).unwrap().status, NOT_FOUND);
    assert_eq!(delete_session(&mut sessions, id).status, NOT_FOUND);
    let put = |sessions: &mut Sessions, max_bytes: usize| {
        let payload = bytes("hello");
        update_session_at(sessions, SOME_TIME, max_bytes, id, &vec![], &vec![], payload).unwrap()
    };
    assert_eq!(put(&mut sessions, 5).status, NOT_FOUND);
    // The limit comes first
    assert_eq!(put(&mut sessions, 4).status, PAYLOAD_TOO_LARGE);
    assert!(!sessions.delete_session(1));
    assert!(sessions.get_session(1).is_none());
    assert!(sessions.get_session_mut(1).is_none());
}

#[test]
fn times_that_the_machine_has_not() {
    let mut sessions = Sessions::new(MINUTE, 16);
    let mut create = |now: i128| {
        sessions
            .new_session(now, bytes(""), MediaType::octet_stream())
            .map(|expiry| expiry.after)
    };
    let minute = MINUTE as i128;
    assert_eq!(create(LAST_TIME - minute + 1), Err(Failure::Clock));
    assert_eq!(create(i128::MAX), Err(Failure::Clock));
    assert_eq!(create(FIRST_TIME - 1), Err(Failure::Clock));
    assert_eq!(create(i128::MIN), Err(Failure::Clock));
    assert_eq!(create(FIRST_TIME), Ok(MINUTE));
    assert_eq!(create(LAST_TIME - minute), Ok(MINUTE));

    let mut endless = Sessions::new(u128::MAX, 16);
    let (response, expiry) = new_session_at(&mut endless, 0, 4096, &vec![], bytes(""));
    assert_eq!(response.map(|response| response.status), Err(Failure::Clock));
    assert!(expiry.is_none() && endless.is_empty());
    // A payload over the limit is refused without a look at the clock
    let (response, _) = new_session_at(&mut endless, 0, 4, &vec![], bytes("hello"));
    assert_eq!(response.unwrap().status, PAYLOAD_TOO_LARGE);
}

#[test]
fn sessions_without_dates_are_stored() {
    for now in [END_OF_DATES - MINUTE as i128, END_OF_DATES, -1, -SOME_TIME] {
        let mut sessions = Sessions::new(MINUTE, 16);
        let (response, expiry) = new_session_at(&mut sessions, now, 4096, &vec![], bytes("hello"));
        assert_eq!(response.map(|response| response.status), Err(Failure::Clock));
        let expiry = expiry.unwrap();
        assert_eq!(expiry.after, MINUTE);
        let session = sessions.get_session(expiry.id).unwrap();
        assert!(!session.has_dates());
        assert_eq!(&session.data()[..], b"hello");

        // The headers of the session cannot be written
        let text = Ulid(expiry.id).to_string();
        let response = get_session(&sessions, &text, &vec![]);
        assert_eq!(response.map(|response| response.status), Err(Failure::Clock));
        let response = get_session(&sessions, &text, &lines(&["*"]));
        assert_eq!(response.map(|response| response.status), Err(Failure::Clock));
        assert_eq!(delete_session(&mut sessions, &text).status, NO_CONTENT);
    }
}

#[test]
fn updates_without_dates_are_carried_out() {
    let mut sessions = Sessions::new(MINUTE, 16);
    let id = post_at(&mut sessions, END_OF_DATES - MINUTE as i128 - 1, "hello");
    let text = Ulid(id).to_string();
    let mut put = |now: i128, if_match: &[&str], body: &str| {
        let (payload, tags) = (bytes(body), lines(if_match));
        update_session_at(&mut sessions, now, 4096, &text, &vec![], &tags, payload)
            .map(|response| response.status)
    };
    assert_eq!(put(END_OF_DATES, &["\"other\""], "1"), Ok(PRECONDITION_FAILED));
    assert_eq!(put(END_OF_DATES - 1, &["*"], "2"), Ok(ACCEPTED));
    assert_eq!(put(END_OF_DATES, &[], "3"), Err(Failure::Clock));
    assert_eq!(put(0, &["\"other\""], "4"), Err(Failure::Clock));
    assert_eq!(&sessions.get_session(id).unwrap().data()[..], b"3");
}

#[test]
fn requests_at_the_current_time() {
    let mut sessions = Sessions::new(MINUTE, 16);
    let (response, _) = new_session(&mut sessions, 16, &vec![], bytes("1"));
    let location = response.unwrap().location.unwrap();
    let response = update_session(&mut sessions, 16, &location, &vec![], &vec![], bytes("2"));
    assert_eq!(response.unwrap().status, ACCEPTED);
    assert_eq!(&get(&sessions, &location).body.unwrap()[..], b"2");
}

#[test]
fn identifiers_before_the_epoch_have_no_time() {
    let mut sessions = Sessions::new(0, 16);
    let create = |sessions: &mut Sessions, now: i128| {
        let created = sessions.new_session(now, bytes(""), MediaType::octet_stream());
        created.unwrap().id
    };
    assert_eq!(create(&mut sessions, FIRST_TIME), 1);
    assert_eq!(create(&mut sessions, -1), 2);
    assert_eq!(create(&mut sessions, 999_999), 3);
    assert_eq!(Ulid(create(&mut sessions, 1_000_000)).timestamp_ms(), 1);
}

#[test]
fn identifiers_drop_what_they_have_no_room_for() {
    let mut sessions = Sessions::new(0, 16);
    let created = sessions.new_session(
        ((1 << 48) + 5) * 1_000_000,
        bytes(""),
        MediaType::octet_stream(),
    );
    assert_eq!(Ulid(created.unwrap().id).timestamp_ms(), 5);
}

#[test]
fn filling_at_given_times() {
    let mut sessions = Sessions::new(MINUTE, 2);
    let expiries = sessions.fill_at(&vec![SOME_TIME, SOME_TIME - 1, -1], 1).unwrap();
    assert_eq!(expiries.len(), 2);
    assert_eq!(expiries[1].id, expiries[0].id + 1);
    let session = sessions.get_session(expiries[1].id).unwrap();
    assert_eq!(&session.data()[..], b"*");
    assert_eq!(session.typed_headers().last_modified, "Mon, 07 Nov 1994 08:48:37 GMT");
    sessions.evict();
    assert!(sessions.get_session(expiries[0].id).is_some());
    // Identifiers that are given out later are larger
    assert!(expiries[1].id < post_at(&mut sessions, 0, ""));

    // The first time that is refused ends it
    let mut sessions = Sessions::new(MINUTE, 3);
    let outcome = sessions.fill_at(&vec![SOME_TIME, LAST_TIME, SOME_TIME], 1);
    assert_eq!(outcome, Err(Failure::Clock));
    assert!(!sessions.is_empty());

    // Sessions need no dates
    let mut sessions = Sessions::new(END_OF_DATES as u128, 3);
    assert_eq!(sessions.fill_at(&vec![0, 0, 0], 1).unwrap().len(), 3);
}

#[test]
fn conditions_on_a_session_that_was_found() {
    let mut session = some_session("hello");
    let response = show_found(&session, Some(false)).unwrap();
    assert_eq!(response.status, NOT_MODIFIED);
    assert!(response.body.is_none() && response.content_type.is_none());
    assert_eq!(tag_of(&response), session.etag());
    assert_eq!(show_found(&session, Some(true)).unwrap().status, OK);
    assert_eq!(show_found(&session, None).unwrap().status, OK);

    let tag = session.etag();
    let mut update = |passes: Option<bool>, body: &str| {
        let media_type = MediaType::octet_stream();
        update_found(&mut session, passes, SOME_TIME, media_type, bytes(body)).unwrap()
    };
    let response = update(Some(false), "1");
    assert_eq!(response.status, PRECONDITION_FAILED);
    assert_eq!(tag_of(&response), tag);
    let response = update(Some(true), "2");
    assert_eq!(response.status, ACCEPTED);
    assert_ne!(tag_of(&response), tag);
    assert_eq!(update(None, "3").status, ACCEPTED);
    assert_eq!(&session.data()[..], b"3");
}

#[test]
fn update_in_place() {
    let mut sessions = Sessions::new(MINUTE, 16);
    let first = post_at(&mut sessions, SOME_TIME, "1");
    let second = post_at(&mut sessions, SOME_TIME, "2");
    let session = sessions.get_session_mut(first).unwrap();
    session.update(bytes("3"), MediaType::octet_stream(), SOME_TIME);
    assert_eq!(&sessions.get_session(first).unwrap().data()[..], b"3");
    assert_eq!(&sessions.get_session(second).unwrap().data()[..], b"2");
}

#[test]
fn deletion_leaves_the_others() {
    let mut sessions = Sessions::new(MINUTE, 16);
    let first = post_at(&mut sessions, SOME_TIME, "1");
    let second = post_at(&mut sessions, SOME_TIME, "2");
    assert_eq!(delete_session(&mut sessions, &Ulid(first).to_string()).status, NO_CONTENT);
    assert_eq!(delete_session(&mut sessions, &Ulid(first).to_string()).status, NOT_FOUND);
    assert!(sessions.get_session(first).is_none());
    assert!(sessions.get_session(second).is_some());
    assert!(sessions.delete_session(second));
    assert!(!sessions.delete_session(second));
}

#[test]
fn the_hard_capacity_is_never_exceeded() {
    for capacity in 1..6 {
        let mut sessions = Sessions::new(MINUTE, capacity);
        let ids: Vec<u128> = (0..20).map(|_| post_at(&mut sessions, SOME_TIME, "")).collect();
        let kept: Vec<bool> = ids.iter().map(|id| sessions.get_session(*id).is_some()).collect();
        let len = kept.iter().filter(|kept| **kept).count();
        assert!(capacity < len && len <= 2 * capacity);
        assert!(capacity == 1 || len < 2 * capacity);
        // Only the oldest ones are gone
        assert!(kept.windows(2).all(|pair| !pair[0] || pair[1]));
        sessions.evict();
        let len = ids.iter().filter(|id| sessions.get_session(**id).is_some()).count();
        assert_eq!(len, capacity);
        assert!(sessions.get_session(ids[19]).is_some());
    }
}

#[test]
fn a_store_for_no_sessions_holds_one() {
    let mut sessions = Sessions::default();
    let first = post_at(&mut sessions, SOME_TIME, "1");
    let second = post_at(&mut sessions, SOME_TIME, "2");
    assert!(sessions.get_session(first).is_none());
    assert!(sessions.get_session(second).is_some());
    sessions.evict();
    assert!(sessions.get_session(second).is_none());
}

#[test]
fn a_late_expiry_takes_no_other_session() {
    let mut sessions = Sessions::new(MINUTE, 1);
    let first = post_at(&mut sessions, SOME_TIME, "1");
    assert!(sessions.delete_session(first));
    let second = post_at(&mut sessions, SOME_TIME, "2");
    assert!(!sessions.delete_session(first));
    assert!(sessions.get_session(second).is_some());
}

#[test]
fn updates_do_not_postpone_the_expiry() {
    let mut sessions = Sessions::new(MINUTE, 4);
    let (response, expiry) = new_session_at(&mut sessions, SOME_TIME, 4096, &vec![], bytes("1"));
    let (response, expiry) = (response.unwrap(), expiry.unwrap());
    let location = response.location.unwrap();
    let other = post_at(&mut sessions, SOME_TIME, "2");
    let later = SOME_TIME + 30_000_000_000;
    let updated =
        update_session_at(&mut sessions, later, 4096, &location, &vec![], &vec![], bytes("3"));
    let (first, second) = (response.headers.unwrap(), updated.unwrap().headers.unwrap());
    assert_eq!(first.expires, second.expires);
    assert_ne!(first.last_modified, second.last_modified);
    assert_eq!(get(&sessions, &location).status, OK);
    // The removal that was due from the start takes the session, and no other
    assert!(sessions.delete_session(expiry.id));
    assert_eq!(get(&sessions, &location).status, NOT_FOUND);
    assert_eq!(get(&sessions, &Ulid(other).to_string()).status, OK);
}

#[test]
fn filling_for_a_memory_check() {
    let mut sessions = Sessions::new(MINUTE, 7);
    let expiries = sessions.fill_for_mem_check(3).unwrap();
    assert_eq!(expiries.len(), 7);
    assert!(expiries.windows(2).all(|pair| pair[0].id < pair[1].id));
    for expiry in &expiries {
        assert_eq!(expiry.after, MINUTE);
        let session = sessions.get_session(expiry.id).unwrap();
        assert_eq!(&session.data()[..], &[42, 42, 42]);
        assert_eq!(session.content_type(), "application/octet-stream");
    }
    let mut empty = Sessions::new(MINUTE, 0);
    assert!(empty.fill_for_mem_check(3).unwrap().is_empty());
    let mut long = Sessions::new(8_000_000_000_000_000_000_000_000_000, 2);
    assert_eq!(long.fill_for_mem_check(3).unwrap().len(), 2);
    let mut endless = Sessions::new(u128::MAX, 1);
    assert_eq!(endless.fill_for_mem_check(3), Err(Failure::Clock));
}
