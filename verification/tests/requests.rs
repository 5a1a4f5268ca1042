//! Scenarios of requests, one after the other.

use bytes::Bytes;
use matrix_http_rendezvous::handlers::{
    delete_session, get_session, new_session, update_session, Response, ACCEPTED, CREATED,
    NOT_FOUND, NOT_MODIFIED, NO_CONTENT, OK, PAYLOAD_TOO_LARGE, PRECONDITION_FAILED,
};
use matrix_http_rendezvous::sessions::Expiry;
use matrix_http_rendezvous::Sessions;

const MINUTE: u128 = 60_000_000_000;

fn header(value: &str) -> Vec<Vec<u8>> {
    vec![value.as_bytes().to_vec()]
}

fn post(
    sessions: &mut Sessions,
    max_bytes: usize,
    content_type: &[Vec<u8>],
    body: &[u8],
) -> (Response, Option<Expiry>) {
    let payload = Bytes::from(body.to_vec());
    let (response, expiry) = new_session(sessions, max_bytes, &content_type.to_vec(), payload);
    (response.unwrap(), expiry)
}

fn put(sessions: &mut Sessions, id: &str, if_match: &[Vec<u8>], body: &[u8]) -> Response {
    let payload = Bytes::from(body.to_vec());
    update_session(sessions, 4096, id, &vec![], &if_match.to_vec(), payload).unwrap()
}

fn get(sessions: &Sessions, id: &str) -> Response {
    get_session(sessions, id, &vec![]).unwrap()
}

fn etag(response: &Response) -> String {
    response.headers.as_ref().unwrap().etag.clone()
}

#[test]
fn test_post_and_get() {
    let mut sessions = Sessions::new(MINUTE, 1024);

    let body = br#"{"hello": "world"}"#;
    let (response, expiry) = post(&mut sessions, 4096, &header("application/json"), body);
    assert_eq!(response.status, CREATED);
    let etag_posted = etag(&response);
    let location = response.location.unwrap();

    let response = get(&sessions, &location);
    assert_eq!(response.status, OK);
    assert_eq!(response.content_type.as_deref(), Some("application/json"));
    assert_eq!(etag(&response), etag_posted);

    // Let the entry expire
    let expiry = expiry.unwrap();
    assert_eq!(expiry.after, MINUTE);
    assert!(sessions.delete_session(expiry.id));

    assert_eq!(&response.body.unwrap()[..], br#"{"hello": "world"}"#);

    let response = get(&sessions, &location);
    assert_eq!(response.status, NOT_FOUND);
}

#[test]
fn test_monotonically_increasing() {
    let mut sessions = Sessions::new(MINUTE, 1024);

    let mut ids: Vec<String> = Vec::with_capacity(1000);
    for _ in 0..1000 {
        let (response, _) = post(&mut sessions, 4096, &[], b"");
        assert_eq!(response.status, CREATED);
        ids.push(response.location.unwrap());
    }

    // Check that all the IDs are monotonically increasing
    assert!(ids.windows(2).all(|loc| loc[0] < loc[1]));
}

#[test]
fn test_post_max_bytes() {
    let mut sessions = Sessions::new(MINUTE, 1024);
    let json = header("application/json");

    let body = br#"{"hello": "world"}"#;

    // It doesn't work with a way too small size
    let (response, _) = post(&mut sessions, 8, &json, body);
    assert_eq!(response.status, PAYLOAD_TOO_LARGE);

    // It works with exactly the right size
    let (response, _) = post(&mut sessions, body.len(), &json, body);
    assert_eq!(response.status, CREATED);

    // It doesn't work even if the size is one too short
    let (response, _) = post(&mut sessions, body.len() - 1, &json, body);
    assert_eq!(response.status, PAYLOAD_TOO_LARGE);

    // Try with a big body (4MB)
    let body = vec![42; 4 * 1024 * 1024];
    let (response, _) = post(&mut sessions, 4 * 1024 * 1024, &[], &body);
    assert_eq!(response.status, CREATED);

    // Try with a big body (4MB + 1B)
    let body = vec![42; 4 * 1024 * 1024 + 1];
    let (response, expiry) = post(&mut sessions, 4 * 1024 * 1024, &[], &body);
    assert_eq!(response.status, PAYLOAD_TOO_LARGE);
    assert!(expiry.is_none());
}

#[test]
fn test_post_and_get_if_none_match() {
    let mut sessions = Sessions::new(MINUTE, 1024);

    let body = br#"{"hello": "world"}"#;
    let (response, _) = post(&mut sessions, 4096, &header("application/json"), body);
    assert_eq!(response.status, CREATED);
    let etag_posted = etag(&response);
    let location = response.location.unwrap();

    let response = get_session(&sessions, &location, &header(&etag_posted)).unwrap();
    assert_eq!(response.status, NOT_MODIFIED);
    assert_eq!(etag(&response), etag_posted);
}

#[test]
fn test_post_and_put() {
    let mut sessions = Sessions::new(MINUTE, 1024);

    let body = br#"{"hello": "world"}"#;
    let (response, _) = post(&mut sessions, 4096, &header("application/json"), body);
    assert_eq!(response.status, CREATED);
    let etag_posted = etag(&response);
    let location = response.location.unwrap();

    let response = put(&mut sessions, &location, &[], b"");
    assert_eq!(response.status, ACCEPTED);
    assert_ne!(etag(&response), etag_posted);
}

#[test]
fn test_post_and_put_if_match() {
    let mut sessions = Sessions::new(MINUTE, 1024);

    let body = br#"{"hello": "world"}"#;
    let (response, _) = post(&mut sessions, 4096, &header("application/json"), body);
    assert_eq!(response.status, CREATED);
    let etag_posted = etag(&response);
    let location = response.location.unwrap();

    let response = put(&mut sessions, &location, &header(&etag_posted), b"");
    assert_eq!(response.status, ACCEPTED);
    let etag2 = etag(&response);
    assert_ne!(etag2, etag_posted);

    let response = put(&mut sessions, &location, &header(&etag_posted), b"");
    assert_eq!(response.status, PRECONDITION_FAILED);
    assert_eq!(etag(&response), etag2);
}

#[test]
fn test_post_delete_and_get() {
    let mut sessions = Sessions::new(MINUTE, 1024);

    let body = br#"{"hello": "world"}"#;
    let (response, _) = post(&mut sessions, 4096, &header("application/json"), body);
    assert_eq!(response.status, CREATED);
    let location = response.location.unwrap();

    let response = get(&sessions, &location);
    assert_eq!(response.status, OK);

    let response = delete_session(&mut sessions, &location);
    assert_eq!(response.status, NO_CONTENT);

    let response = get(&sessions, &location);
    assert_eq!(response.status, NOT_FOUND);
}

#[test]
fn test_eviction() {
    let mut sessions = Sessions::new(MINUTE, 2);

    let (response, _) = post(&mut sessions, 4096, &[], b"");
    let first_location = response.location.unwrap();

    let (response, _) = post(&mut sessions, 4096, &[], b"");
    let second_location = response.location.unwrap();

    sessions.evict();

    // Both entries are still there
    assert_eq!(get(&sessions, &first_location).status, OK);
    assert_eq!(get(&sessions, &second_location).status, OK);

    // Sending a third request
    post(&mut sessions, 4096, &[], b"");

    // First entry should still be there, there was no eviction yet because we didn't hit hard
    // capacity
    assert_eq!(get(&sessions, &first_location).status, OK);

    sessions.evict();

    // First entry should be gone because of the eviction
    assert_eq!(get(&sessions, &first_location).status, NOT_FOUND);

    // Second entry should still be there
    assert_eq!(get(&sessions, &second_location).status, OK);

    // Sending two other requests, so we hit hard capacity
    post(&mut sessions, 4096, &[], b"");
    post(&mut sessions, 4096, &[], b"");

    // Second entry should be gone, because we hit hard capacity, even though we didn't had the
    // eviction triggered
    assert_eq!(get(&sessions, &second_location).status, NOT_FOUND);
}
