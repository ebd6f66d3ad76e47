//! End-to-end tests of request dispatch against an in-memory store.

use message_board::errors::PersistenceError;
use message_board::message::Message;
use message_board::router::Method;
use message_board::router::handle_request;
use message_board::router::make_get_response;
use message_board::router::make_post_response;
use message_board::store::MessageStore;

#[test]
fn read_on_empty_store_succeeds_with_empty_body() {
    let mut store = MessageStore::new();
    let r = handle_request(&mut store, Method::Get, "/", None, None, 0);
    assert_eq!(r.status, 200);
    assert_eq!(r.body, "");
    assert_eq!(r.content_length, 0);
}

#[test]
fn write_then_read_shows_the_message_once() {
    let mut store = MessageStore::new();
    let w = handle_request(
        &mut store,
        Method::Post,
        "/",
        None,
        Some(r#"{"username":"alice","message":"hello"}"#),
        7,
    );
    assert_eq!(w.status, 200);
    assert_eq!(w.body, "");
    let r = handle_request(&mut store, Method::Get, "/", None, None, 8);
    assert_eq!(r.status, 200);
    assert_eq!(r.body, "alice (7): hello\n");
    assert_eq!(r.content_length, r.body.len());
}

#[test]
fn two_writes_get_distinct_ids_and_both_appear() {
    let mut store = MessageStore::new();
    handle_request(
        &mut store,
        Method::Post,
        "/",
        None,
        Some(r#"{"username":"a","message":"first"}"#),
        1,
    );
    handle_request(
        &mut store,
        Method::Post,
        "/",
        None,
        Some(r#"{"username":"b","message":"second"}"#),
        2,
    );
    let r = handle_request(&mut store, Method::Get, "/", None, None, 3);
    assert_eq!(r.status, 200);
    assert_eq!(r.body, "a (1): first\nb (2): second\n");
}

#[test]
fn invalid_after_is_a_client_error_naming_the_key() {
    let mut store = MessageStore::new();
    let r = handle_request(
        &mut store,
        Method::Get,
        "/",
        Some("after=not-a-timestamp"),
        None,
        0,
    );
    assert_eq!(r.status, 400);
    assert_eq!(r.body, "after: not a valid integer timestamp");
    assert!(r.body.contains("after"));
}

#[test]
fn bounded_read_filters_exclusively() {
    let mut store = MessageStore::new();
    handle_request(
        &mut store,
        Method::Post,
        "/",
        None,
        Some(r#"{"username":"a","message":"early"}"#),
        10,
    );
    handle_request(
        &mut store,
        Method::Post,
        "/",
        None,
        Some(r#"{"username":"b","message":"inside"}"#),
        15,
    );
    handle_request(
        &mut store,
        Method::Post,
        "/",
        None,
        Some(r#"{"username":"c","message":"late"}"#),
        20,
    );
    let r = handle_request(
        &mut store,
        Method::Get,
        "/",
        Some("after=10&before=20"),
        None,
        21,
    );
    assert_eq!(r.status, 200);
    assert_eq!(r.body, "b (15): inside\n");
}

#[test]
fn write_missing_message_persists_nothing() {
    let mut store = MessageStore::new();
    let w = handle_request(
        &mut store,
        Method::Post,
        "/",
        None,
        Some(r#"{"username":"alice"}"#),
        5,
    );
    assert_eq!(w.status, 400);
    assert_eq!(w.body, "missing or empty 'message' field");
    let r = handle_request(&mut store, Method::Get, "/", None, None, 6);
    assert_eq!(r.status, 200);
    assert_eq!(r.body, "");
}

#[test]
fn write_without_a_body_is_a_client_error() {
    let mut store = MessageStore::new();
    let w = handle_request(&mut store, Method::Post, "/", None, None, 5);
    assert_eq!(w.status, 400);
    assert_eq!(w.body, "missing request body");
}

#[test]
fn other_paths_and_methods_are_not_found() {
    let mut store = MessageStore::new();
    let a = handle_request(&mut store, Method::Get, "/nope", None, None, 0);
    assert_eq!(a.status, 404);
    assert_eq!(a.body, "");
    let b = handle_request(&mut store, Method::Other, "/", None, None, 0);
    assert_eq!(b.status, 404);
    let c = handle_request(&mut store, Method::Post, "/other", None, None, 0);
    assert_eq!(c.status, 404);
}

#[test]
fn content_length_counts_bytes_not_chars() {
    let mut store = MessageStore::new();
    handle_request(
        &mut store,
        Method::Post,
        "/",
        None,
        Some("{\"username\":\"jos\u{e9}\",\"message\":\"ol\u{e1}\"}"),
        3,
    );
    let r = handle_request(&mut store, Method::Get, "/", None, None, 4);
    assert_eq!(r.status, 200);
    assert_eq!(r.body, "jos\u{e9} (3): ol\u{e1}\n");
    assert_eq!(r.content_length, r.body.len());
    assert!(r.body.len() > r.body.chars().count());
}

#[test]
fn persistence_failure_maps_to_server_error() {
    let failed: Result<Vec<Message>, PersistenceError> =
        Err(PersistenceError { detail: String::from("store unreachable") });
    let r = make_get_response(failed);
    assert_eq!(r.status, 500);
    assert_eq!(r.body, "");
    assert_eq!(r.content_length, 0);

    let failed_write: Result<Message, PersistenceError> =
        Err(PersistenceError { detail: String::from("store unreachable") });
    let w = make_post_response(failed_write);
    assert_eq!(w.status, 500);
    assert_eq!(w.body, "");
}

#[test]
fn successful_read_result_renders_with_exact_length() {
    let msgs = vec![Message {
        id: 0,
        username: String::from("a"),
        body: String::from("b"),
        created_at: 0,
    }];
    let ok: Result<Vec<Message>, PersistenceError> = Ok(msgs);
    let r = make_get_response(ok);
    assert_eq!(r.status, 200);
    assert_eq!(r.body, "a (0): b\n");
    assert_eq!(r.content_length, 9);
}
