//! Tests of the leaf components: timestamp text, query parsing, payload
//! decoding, rendering, and the store.

use message_board::message::Message;
use message_board::payload::decode_payload;
use message_board::render::render_page;
use message_board::store::MessageStore;
use message_board::store::filter_messages;
use message_board::text::format_i64;
use message_board::text::parse_timestamp;
use message_board::text::str_eq;
use message_board::time_range::TimeRange;
use message_board::time_range::parse_query;
use message_board::time_range::time_range_of_pairs;

#[test]
fn parses_plain_timestamps() {
    assert_eq!(parse_timestamp("42"), Some(42));
    assert_eq!(parse_timestamp("0"), Some(0));
    assert_eq!(parse_timestamp("-7"), Some(-7));
    assert_eq!(parse_timestamp("9223372036854775807"), Some(i64::MAX));
    assert_eq!(parse_timestamp("-9223372036854775808"), Some(i64::MIN));
}

#[test]
fn rejects_bad_timestamps() {
    assert_eq!(parse_timestamp(""), None);
    assert_eq!(parse_timestamp("-"), None);
    assert_eq!(parse_timestamp("12x"), None);
    assert_eq!(parse_timestamp("not-a-timestamp"), None);
    assert_eq!(parse_timestamp("1.5"), None);
    assert_eq!(parse_timestamp("9223372036854775808"), None);
    assert_eq!(parse_timestamp("-9223372036854775809"), None);
    assert_eq!(parse_timestamp("99999999999999999999999"), None);
}

#[test]
fn formats_decimals() {
    assert_eq!(format_i64(0), "0");
    assert_eq!(format_i64(1234), "1234");
    assert_eq!(format_i64(-56), "-56");
    assert_eq!(format_i64(i64::MAX), "9223372036854775807");
    assert_eq!(format_i64(i64::MIN), "-9223372036854775808");
}

#[test]
fn string_equality() {
    assert!(str_eq("after", "after"));
    assert!(!str_eq("after", "befor"));
    assert!(!str_eq("after", "afterX"));
    assert!(str_eq("", ""));
}

#[test]
fn query_with_both_bounds() {
    let r = parse_query("after=10&before=20").unwrap();
    assert_eq!(r.after, Some(10));
    assert_eq!(r.before, Some(20));
}

#[test]
fn empty_query_is_unbounded() {
    let r = parse_query("").unwrap();
    assert_eq!(r.after, None);
    assert_eq!(r.before, None);
}

#[test]
fn unknown_keys_are_ignored() {
    let r = parse_query("foo=bar&after=3").unwrap();
    assert_eq!(r.after, Some(3));
    assert_eq!(r.before, None);
}

#[test]
fn last_repeated_key_wins() {
    let r = parse_query("after=5&after=7").unwrap();
    assert_eq!(r.after, Some(7));
}

#[test]
fn percent_encoded_value_is_decoded() {
    let r = parse_query("after=%31%30").unwrap();
    assert_eq!(r.after, Some(10));
}

#[test]
fn invalid_after_names_the_key() {
    let e = parse_query("after=not-a-timestamp").unwrap_err();
    assert_eq!(e.key, "after");
    let text = e.message();
    assert!(text.contains("after"));
    assert_eq!(text, "after: not a valid integer timestamp");
}

#[test]
fn invalid_before_names_the_key() {
    let e = parse_query("before=xyz").unwrap_err();
    assert_eq!(e.key, "before");
    assert_eq!(e.message(), "before: not a valid integer timestamp");
}

#[test]
fn pairs_parse_like_queries() {
    let pairs = vec![
        (String::from("before"), String::from("9")),
        (String::from("after"), String::from("2")),
    ];
    let r = time_range_of_pairs(&pairs).unwrap();
    assert_eq!(r.after, Some(2));
    assert_eq!(r.before, Some(9));
}

#[test]
fn bounds_are_exclusive() {
    let r = TimeRange { after: Some(10), before: Some(20) };
    assert!(!r.admits_at(10));
    assert!(r.admits_at(11));
    assert!(r.admits_at(19));
    assert!(!r.admits_at(20));
}

#[test]
fn decodes_a_good_payload() {
    let r = decode_payload(r#"{"username":"alice","message":"hello"}"#).unwrap();
    assert_eq!(r.0, "alice");
    assert_eq!(r.1, "hello");
}

#[test]
fn missing_message_field_fails() {
    let e = decode_payload(r#"{"username":"alice"}"#).unwrap_err();
    assert_eq!(e.detail, "missing or empty 'message' field");
}

#[test]
fn missing_username_field_fails() {
    let e = decode_payload(r#"{"message":"hello"}"#).unwrap_err();
    assert_eq!(e.detail, "missing or empty 'username' field");
}

#[test]
fn empty_field_fails() {
    let e = decode_payload(r#"{"username":"","message":"hello"}"#).unwrap_err();
    assert_eq!(e.detail, "missing or empty 'username' field");
}

#[test]
fn non_string_field_fails() {
    let e = decode_payload(r#"{"username":7,"message":"hello"}"#).unwrap_err();
    assert_eq!(e.detail, "missing or empty 'username' field");
}

#[test]
fn unparseable_body_fails() {
    assert!(decode_payload("not json at all").is_err());
    assert!(decode_payload("").is_err());
}

#[test]
fn renders_lines_in_order() {
    let msgs = vec![
        Message {
            id: 0,
            username: String::from("alice"),
            body: String::from("hi"),
            created_at: 5,
        },
        Message {
            id: 1,
            username: String::from("bob"),
            body: String::from("yo"),
            created_at: -3,
        },
    ];
    let page = render_page(&msgs);
    assert_eq!(page, "alice (5): hi\nbob (-3): yo\n");
}

#[test]
fn renders_empty_list_to_empty_body() {
    let msgs: Vec<Message> = Vec::new();
    assert_eq!(render_page(&msgs), "");
}

#[test]
fn insert_assigns_distinct_ascending_ids() {
    let mut store = MessageStore::new();
    let a = store.insert(String::from("alice"), String::from("one"), 10);
    let b = store.insert(String::from("bob"), String::from("two"), 10);
    assert_ne!(a.id, b.id);
    assert_eq!(a.id, 0);
    assert_eq!(b.id, 1);
    let all = store.list(&TimeRange { after: None, before: None });
    assert_eq!(all.len(), 2);
    assert!(all.iter().any(|m| m.id == a.id));
    assert!(all.iter().any(|m| m.id == b.id));
}

#[test]
fn list_is_sorted_by_time_then_id() {
    let mut store = MessageStore::new();
    store.insert(String::from("a"), String::from("late"), 30);
    store.insert(String::from("b"), String::from("early"), 10);
    store.insert(String::from("c"), String::from("mid"), 20);
    let all = store.list(&TimeRange { after: None, before: None });
    let times: Vec<i64> = all.iter().map(|m| m.created_at).collect();
    assert_eq!(times, vec![10, 20, 30]);
}

#[test]
fn inserted_message_listed_exactly_once() {
    let mut store = MessageStore::new();
    store.insert(String::from("a"), String::from("other"), 1);
    let m = store.insert(String::from("b"), String::from("mine"), 2);
    let all = store.list(&TimeRange { after: None, before: None });
    let hits = all.iter().filter(|x| x.id == m.id).count();
    assert_eq!(hits, 1);
}

#[test]
fn range_excludes_boundary_messages() {
    let mut store = MessageStore::new();
    store.insert(String::from("a"), String::from("at-after"), 10);
    store.insert(String::from("b"), String::from("inside"), 15);
    store.insert(String::from("c"), String::from("at-before"), 20);
    let some = store.list(&TimeRange { after: Some(10), before: Some(20) });
    assert_eq!(some.len(), 1);
    assert_eq!(some[0].body, "inside");
}

#[test]
fn inverted_range_is_empty_not_an_error() {
    let mut store = MessageStore::new();
    store.insert(String::from("a"), String::from("x"), 15);
    let none = store.list(&TimeRange { after: Some(20), before: Some(10) });
    assert_eq!(none.len(), 0);
}

#[test]
fn empty_store_lists_empty() {
    let store = MessageStore::new();
    let all = store.list(&TimeRange { after: None, before: None });
    assert_eq!(all.len(), 0);
}

#[test]
fn filtering_preserves_order_and_content() {
    let msgs = vec![
        Message { id: 0, username: String::from("a"), body: String::from("p"), created_at: 1 },
        Message { id: 1, username: String::from("b"), body: String::from("q"), created_at: 5 },
        Message { id: 2, username: String::from("c"), body: String::from("r"), created_at: 9 },
    ];
    let kept = filter_messages(&msgs, &TimeRange { after: Some(1), before: Some(9) });
    assert_eq!(kept.len(), 1);
    assert_eq!(kept[0].body, "q");
}
