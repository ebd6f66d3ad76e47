//! The request router: maps method and path to one of the two operations,
//! runs validation, and converts every outcome to a response. Each request
//! is handled independently; the router keeps no state between requests.

use vstd::prelude::*;
use vstd::utf8::encode_utf8;
use crate::errors::PersistenceError;
use crate::message::Message;
use crate::message::views_of;
use crate::payload::decode_payload;
use crate::payload::json_field_spec;
use crate::payload::payload_err_text;
use crate::payload::payload_good;
use crate::render::render_page;
use crate::render::render_views;
use crate::store::MessageStore;
use crate::store::admitted;
use crate::store::fresh_view;
use crate::store::insert_cut;
use crate::store::lemma_admits_all;
use crate::text::str_eq;
use crate::time_range::TimeRange;
use crate::time_range::bound_ok;
use crate::time_range::bound_val;
use crate::time_range::parse_query;
use crate::time_range::query_pairs_spec;

verus! {

/// The request methods the router tells apart.
pub enum Method {
    Get,
    Post,
    Other,
}

/// A response: status, body text, and a length header that matches the
/// body's byte length exactly.
pub struct Response {
    pub status: u16,
    pub body: String,
    pub content_length: usize,
}

impl Response {
    /// The length header equals the UTF-8 byte length of the body.
    pub open spec fn wf(self) -> bool {
        self.content_length == encode_utf8(self.body@).len() as usize
    }
}

/// A response with the given status and body, and an exact length header.
pub fn make_error_response(error: &str, status: u16) -> (r: Response)
    ensures
        r.status == status,
        r.body@ == error@,
        r.wf(),
{
    let body = error.to_owned();
    let n = body.as_str().len();
    Response { status, body, content_length: n }
}

/// A success response carrying a rendered page.
fn success_page(body: String) -> (r: Response)
    ensures
        r.status == 200,
        r.body@ == body@,
        r.wf(),
{
    let n = body.as_str().len();
    Response { status: 200, body, content_length: n }
}

/// Translate a read outcome: a rendered page with an exact length header
/// on success, a server error with an empty body on persistence failure.
pub fn make_get_response(messages: Result<Vec<Message>, PersistenceError>) -> (r: Response)
    ensures
        r.wf(),
        match messages {
            Ok(msgs) => r.status == 200 && r.body@ == render_views(views_of(msgs@)),
            Err(_) => r.status == 500 && r.body@ == Seq::<char>::empty(),
        },
{
    proof {
        reveal_strlit("");
        assert(""@ =~= Seq::<char>::empty());
    }
    match messages {
        Ok(msgs) => success_page(render_page(&msgs)),
        Err(_) => make_error_response("", 500),
    }
}

/// Translate a write outcome: an empty success acknowledgement, or a
/// server error with an empty body on persistence failure.
pub fn make_post_response(outcome: Result<Message, PersistenceError>) -> (r: Response)
    ensures
        r.wf(),
        match outcome {
            Ok(_) => r.status == 200,
            Err(_) => r.status == 500,
        },
        r.body@ == Seq::<char>::empty(),
{
    proof {
        reveal_strlit("");
        assert(""@ =~= Seq::<char>::empty());
    }
    match outcome {
        Ok(_) => make_error_response("", 200),
        Err(_) => make_error_response("", 500),
    }
}

/// What a read owes, given the store and the raw query string: the page of
/// admitted messages when the query validates, the validation text naming
/// the offending key as a client error when it does not.
pub open spec fn read_spec(s: MessageStore, q: Option<Seq<char>>, r: Response) -> bool {
    match q {
        None => r.status == 200 && r.body@ == render_views(s.contents()),
        Some(qs) => {
            let ps = query_pairs_spec(qs);
            if bound_ok(ps, "after"@) && bound_ok(ps, "before"@) {
                &&& r.status == 200
                &&& r.body@ == render_views(
                    admitted(
                        s.contents(),
                        TimeRange {
                            after: bound_val(ps, "after"@),
                            before: bound_val(ps, "before"@),
                        },
                    ),
                )
            } else {
                &&& r.status == 400
                &&& r.body@ == (if !bound_ok(ps, "after"@) {
                    "after"@
                } else {
                    "before"@
                }) + ": "@ + "not a valid integer timestamp"@
            }
        },
    }
}

/// Handle a read: parse the query into a [`TimeRange`], list the admitted
/// messages and render them; reject an invalid query with the validation
/// text. The store is only read.
pub fn handle_read(store: &MessageStore, query: Option<&str>) -> (r: Response)
    requires
        store.wf(),
    ensures
        r.wf(),
        read_spec(*store, (match query {
            Some(q) => Some(q@),
            None => None,
        }), r),
{
    match query {
        None => {
            let range = TimeRange::unbounded();
            let msgs = store.list(&range);
            proof {
                lemma_admits_all(store.contents(), range);
            }
            success_page(render_page(&msgs))
        },
        Some(q) => match parse_query(q) {
            Ok(range) => {
                let msgs = store.list(&range);
                success_page(render_page(&msgs))
            },
            Err(e) => {
                let text = e.message();
                make_error_response(text.as_str(), 400)
            },
        },
    }
}

/// What a write owes, given the store before and after, the raw body and
/// the server clock: a decoded payload is persisted once with the next id
/// and acknowledged empty; a bad one changes nothing and is reported as a
/// client error with the failure text.
pub open spec fn write_spec(
    s: MessageStore,
    s2: MessageStore,
    b: Option<Seq<char>>,
    now: i64,
    r: Response,
) -> bool {
    match b {
        None => r.status == 400 && s2 == s && r.body@ == "missing request body"@,
        Some(bs) => {
            if payload_good(bs) {
                &&& r.status == 200
                &&& r.body@ == Seq::<char>::empty()
                &&& (json_field_spec(bs, "username"@) matches Some(u)
                    && json_field_spec(bs, "message"@) matches Some(m) && {
                    let mv = fresh_view(s, u, m, now);
                    &&& s2.contents() == s.contents().insert(insert_cut(s.contents(), mv), mv)
                    &&& s2.next_id_spec() == s.next_id_spec() + 1
                })
            } else {
                &&& r.status == 400
                &&& s2 == s
                &&& r.body@ == payload_err_text(bs)
            }
        },
    }
}

/// Handle a write: decode the payload, persist it with the server clock,
/// acknowledge with an empty success; a payload that does not decode
/// fails the request and persists nothing.
pub fn handle_write(store: &mut MessageStore, body: Option<&str>, now: i64) -> (r: Response)
    requires
        old(store).wf(),
        old(store).next_id_spec() < u64::MAX,
    ensures
        final(store).wf(),
        r.wf(),
        write_spec(*old(store), *final(store), (match body {
            Some(b) => Some(b@),
            None => None,
        }), now, r),
{
    match body {
        None => make_error_response("missing request body", 400),
        Some(b) => match decode_payload(b) {
            Ok(fields) => {
                let (username, message) = fields;
                let _inserted = store.insert(username, message, now);
                make_post_response(Ok(_inserted))
            },
            Err(e) => make_error_response(e.detail.as_str(), 400),
        },
    }
}

/// A read against an empty store can only answer with a success and an
/// empty rendered body, whatever the range.
pub proof fn lemma_empty_store_renders_empty(s: MessageStore, r: TimeRange)
    requires
        s.contents().len() == 0,
    ensures
        admitted(s.contents(), r) =~= Seq::<crate::message::MessageView>::empty(),
        render_views(admitted(s.contents(), r)) == Seq::<char>::empty(),
{
    reveal(Seq::filter);
    assert(s.contents() =~= Seq::<crate::message::MessageView>::empty());
}

/// What the whole dispatch owes for one request.
pub open spec fn request_spec(
    s: MessageStore,
    s2: MessageStore,
    method: Method,
    path: Seq<char>,
    q: Option<Seq<char>>,
    b: Option<Seq<char>>,
    now: i64,
    r: Response,
) -> bool {
    if path == "/"@ {
        match method {
            Method::Get => read_spec(s, q, r) && s2 == s,
            Method::Post => write_spec(s, s2, b, now, r),
            Method::Other => r.status == 404 && r.body@ == Seq::<char>::empty() && s2 == s,
        }
    } else {
        r.status == 404 && r.body@ == Seq::<char>::empty() && s2 == s
    }
}

/// Dispatch one request: a read at `GET /`, a write at `POST /`, and a
/// not-found response with an empty body for every other method or path.
pub fn handle_request(
    store: &mut MessageStore,
    method: Method,
    path: &str,
    query: Option<&str>,
    body: Option<&str>,
    now: i64,
) -> (r: Response)
    requires
        old(store).wf(),
        old(store).next_id_spec() < u64::MAX,
    ensures
        final(store).wf(),
        r.wf(),
        request_spec(*old(store), *final(store), method, path@, (match query {
            Some(q) => Some(q@),
            None => None,
        }), (match body {
            Some(b) => Some(b@),
            None => None,
        }), now, r),
{
    proof {
        reveal_strlit("");
        assert(""@ =~= Seq::<char>::empty());
    }
    if !str_eq(path, "/") {
        return make_error_response("", 404);
    }
    match method {
        Method::Get => handle_read(store, query),
        Method::Post => handle_write(store, body, now),
        Method::Other => make_error_response("", 404),
    }
}

} // verus!

