//! The HTTP gateway's decisions: which path a request names, which
//! answer a read request gets, and where an update request goes.

use vstd::prelude::*;
use vstd::utf8::encode_utf8;
use crate::codec::{text_from_bytes, text_of};
use crate::json::{extract_prompt, json_escaped, push_json_escaped, request_prompt};
use crate::priors::{decimal, push_decimal};
use crate::records::Metrics;
use crate::text::{chars_of, push_text, string_of, text_eq};

verus! {

broadcast use vstd::string::group_string_axioms, vstd::utf8::group_utf8_lib;

/// A request as the HTTP gateway hands it over.
pub struct IngressHttpRequest {
    pub method: String,
    pub url: String,
    pub headers: Vec<(String, String)>,
    pub body: Vec<u8>,
}

/// An answer to the HTTP gateway.
pub struct IngressHttpResponse {
    pub status_code: u16,
    pub headers: Vec<(String, String)>,
    pub body: Vec<u8>,
    pub upgrade: Option<bool>,
}

pub open spec fn headers_view(h: Seq<(String, String)>) -> Seq<(Seq<char>, Seq<char>)> {
    h.map_values(|p: (String, String)| (p.0@, p.1@))
}

pub const CONTENT_TYPE: &'static str = "Content-Type";

pub const APPLICATION_JSON: &'static str = "application/json";

pub const ALLOW_ORIGIN: &'static str = "Access-Control-Allow-Origin";

pub const ANY_ORIGIN: &'static str = "*";

pub const HEALTH_BODY: &'static str = "{\"status\":\"ok\",\"canister\":\"picoclaw\",\"version\":\"0.2.0\"}";

pub const NOT_FOUND_BODY: &'static str = "{\"error\":\"not found\"}";

pub const NOT_ALLOWED_BODY: &'static str = "{\"error\":\"method not allowed\"}";

pub const ANONYMOUS_BODY: &'static str = "{\"error\":\"anonymous HTTP calls disabled — use authenticated canister calls\"}";

/// The headers of every JSON answer.
pub open spec fn json_headers() -> Seq<(Seq<char>, Seq<char>)> {
    seq![(CONTENT_TYPE@, APPLICATION_JSON@), (ALLOW_ORIGIN@, ANY_ORIGIN@)]
}

/// A JSON answer with this status and body.
pub open spec fn is_json_response(r: IngressHttpResponse, status: u16, body: Seq<char>) -> bool {
    &&& r.status_code == status
    &&& headers_view(r.headers@) == json_headers()
    &&& r.body@ == encode_utf8(body)
    &&& r.upgrade is None
}

/// A JSON answer with `status` and `body`.
pub fn json_response(status: u16, body: &str) -> (r: IngressHttpResponse)
    ensures
        is_json_response(r, status, body@),
{
    let mut headers: Vec<(String, String)> = Vec::new();
    headers.push((CONTENT_TYPE.to_string(), APPLICATION_JSON.to_string()));
    headers.push((ALLOW_ORIGIN.to_string(), ANY_ORIGIN.to_string()));
    assert(headers_view(headers@) =~= json_headers());
    IngressHttpResponse {
        status_code: status,
        headers,
        body: vstd::slice::slice_to_vec(body.as_bytes()),
        upgrade: None,
    }
}

/// `url` up to its first `?`.
pub open spec fn path_of(url: Seq<char>) -> Seq<char>
    decreases url.len(),
{
    if url.len() == 0 {
        url
    } else if path_of(url.drop_last()).len() < url.len() - 1 {
        path_of(url.drop_last())
    } else if url.last() == '?' {
        url.drop_last()
    } else {
        url
    }
}

proof fn lemma_path_of_prefix(url: Seq<char>, k: int)
    requires
        0 <= k <= url.len(),
        forall|j: int| 0 <= j < k ==> url[j] != '?',
        k < url.len() ==> url[k] == '?',
    ensures
        path_of(url) == url.subrange(0, k),
    decreases url.len(),
{
    if url.len() == 0 {
        assert(url.subrange(0, 0) =~= url);
    } else if k == url.len() {
        lemma_path_of_prefix(url.drop_last(), k - 1);
        assert(url.drop_last().subrange(0, k - 1) =~= url.drop_last());
        assert(url.subrange(0, k) =~= url);
    } else if k == url.len() - 1 {
        lemma_path_of_prefix(url.drop_last(), k);
        assert(url.drop_last().subrange(0, k) =~= url.drop_last());
        assert(url.subrange(0, k) =~= url.drop_last());
    } else {
        lemma_path_of_prefix(url.drop_last(), k);
        assert(url.drop_last().subrange(0, k) =~= url.subrange(0, k));
    }
}

/// The path of a request URL: everything before the first `?`.
pub fn get_path(url: &str) -> (r: String)
    ensures
        r@ == path_of(url@),
{
    let cs = chars_of(url);
    let mut k: usize = 0;
    while k < cs.len() && cs[k] != '?'
        invariant
            k <= cs@.len(),
            forall|j: int| 0 <= j < k ==> cs@[j] != '?',
        decreases cs@.len() - k,
    {
        k = k + 1;
    }
    proof {
        lemma_path_of_prefix(cs@, k as int);
    }
    string_of(&cs, 0, k)
}

/// The body of the counters' answer.
pub open spec fn metrics_body(m: Metrics, balance: u128, queue_depth: u64) -> Seq<char> {
    "{\"total_calls\":"@ + decimal(m.total_calls as nat) + ",\"total_messages\":"@ + decimal(
        m.total_messages as nat,
    ) + ",\"errors\":"@ + decimal(m.errors as nat) + ",\"cycle_balance\":"@ + decimal(
        balance as nat,
    ) + ",\"queue_depth\":"@ + decimal(queue_depth as nat) + "}"@
}

/// The answer to a read request. A POST is handed on to the update path;
/// `/` and `/health` report health, `/metrics` the counters, the cycle
/// balance and the queue depth; any other path is not found.
pub open spec fn query_answer(
    method: Seq<char>,
    url: Seq<char>,
    m: Metrics,
    balance: u128,
    queue_depth: u64,
    r: IngressHttpResponse,
) -> bool {
    let path = path_of(url);
    if method == "POST"@ {
        r.status_code == 200 && r.headers@.len() == 0 && r.body@.len() == 0 && r.upgrade == Some(
            true,
        )
    } else if path == "/"@ || path == "/health"@ {
        is_json_response(r, 200, HEALTH_BODY@)
    } else if path == "/metrics"@ {
        is_json_response(r, 200, metrics_body(m, balance, queue_depth))
    } else {
        is_json_response(r, 404, NOT_FOUND_BODY@)
    }
}

/// Answers a read request from the counters, the cycle balance and the
/// task queue's depth.
pub fn route_query(req: &IngressHttpRequest, m: &Metrics, balance: u128, queue_depth: u64) -> (r:
    IngressHttpResponse)
    ensures
        query_answer(req.method@, req.url@, *m, balance, queue_depth, r),
{
    if text_eq(req.method.as_str(), "POST") {
        return IngressHttpResponse {
            status_code: 200,
            headers: Vec::new(),
            body: Vec::new(),
            upgrade: Some(true),
        };
    }
    let path = get_path(req.url.as_str());
    if text_eq(path.as_str(), "/") || text_eq(path.as_str(), "/health") {
        json_response(200, HEALTH_BODY)
    } else if text_eq(path.as_str(), "/metrics") {
        let mut body = String::new();
        push_text(&mut body, "{\"total_calls\":");
        push_decimal(&mut body, m.total_calls as u128);
        push_text(&mut body, ",\"total_messages\":");
        push_decimal(&mut body, m.total_messages as u128);
        push_text(&mut body, ",\"errors\":");
        push_decimal(&mut body, m.errors as u128);
        push_text(&mut body, ",\"cycle_balance\":");
        push_decimal(&mut body, balance);
        push_text(&mut body, ",\"queue_depth\":");
        push_decimal(&mut body, queue_depth as u128);
        push_text(&mut body, "}");
        assert(body@ =~= metrics_body(*m, balance, queue_depth));
        json_response(200, body.as_str())
    } else {
        json_response(404, NOT_FOUND_BODY)
    }
}

/// Where an update request goes.
pub enum UpdateRoute {
    /// Not a POST: answered 405.
    NotAllowed,
    /// From the anonymous principal: answered 403.
    Anonymous,
    /// A chat turn with this prompt.
    Chat(String),
    /// A background task with this prompt.
    Webhook(String),
    /// Any other path: answered 404.
    NotFound,
}

/// The prompt of an update request's body: its `"prompt"` string, or else
/// the whole body as text.
pub open spec fn body_prompt(body: Seq<u8>) -> Seq<char> {
    match request_prompt(body) {
        Some(p) => p,
        None => text_of(body),
    }
}

/// Routes an update request.
pub fn route_update(req: &IngressHttpRequest, caller_is_anonymous: bool) -> (r: UpdateRoute)
    ensures
        req.method@ != "POST"@ ==> r is NotAllowed,
        req.method@ == "POST"@ && caller_is_anonymous ==> r is Anonymous,
        req.method@ == "POST"@ && !caller_is_anonymous ==> {
            let path = path_of(req.url@);
            if path == "/chat"@ {
                r matches UpdateRoute::Chat(p) && p@ == body_prompt(req.body@)
            } else if path == "/webhook"@ {
                r matches UpdateRoute::Webhook(p) && p@ == body_prompt(req.body@)
            } else {
                r is NotFound
            }
        },
{
    if !text_eq(req.method.as_str(), "POST") {
        return UpdateRoute::NotAllowed;
    }
    if caller_is_anonymous {
        return UpdateRoute::Anonymous;
    }
    let path = get_path(req.url.as_str());
    let is_chat = text_eq(path.as_str(), "/chat");
    let is_hook = text_eq(path.as_str(), "/webhook");
    if !is_chat && !is_hook {
        return UpdateRoute::NotFound;
    }
    let prompt = match extract_prompt(req.body.as_slice()) {
        Some(p) => p,
        None => text_from_bytes(req.body.as_slice()),
    };
    if is_chat {
        UpdateRoute::Chat(prompt)
    } else {
        UpdateRoute::Webhook(prompt)
    }
}

/// The body of a chat answer: the reply, or the error, as a JSON string field.
pub open spec fn chat_body(result: Result<Seq<char>, Seq<char>>) -> Seq<char> {
    match result {
        Ok(reply) => "{\"response\":\""@ + json_escaped(reply) + "\"}"@,
        Err(e) => "{\"error\":\""@ + json_escaped(e) + "\"}"@,
    }
}

/// Answers a chat request: 200 with the reply, or 500 with the error.
pub fn chat_response(result: &Result<String, String>) -> (r: IngressHttpResponse)
    ensures
        match result {
            Ok(reply) => is_json_response(r, 200, chat_body(Ok(reply@))),
            Err(e) => is_json_response(r, 500, chat_body(Err(e@))),
        },
{
    let mut body = String::new();
    match result {
        Ok(reply) => {
            push_text(&mut body, "{\"response\":\"");
            push_json_escaped(&mut body, reply.as_str());
            push_text(&mut body, "\"}");
            json_response(200, body.as_str())
        },
        Err(e) => {
            push_text(&mut body, "{\"error\":\"");
            push_json_escaped(&mut body, e.as_str());
            push_text(&mut body, "\"}");
            json_response(500, body.as_str())
        },
    }
}

/// Answers a webhook request: 202 with the queued task's number.
pub fn queued_response(task_id: u64) -> (r: IngressHttpResponse)
    ensures
        is_json_response(r, 202, "{\"queued\":true,\"task_id\":"@ + decimal(task_id as nat) + "}"@),
{
    let mut body = String::new();
    push_text(&mut body, "{\"queued\":true,\"task_id\":");
    push_decimal(&mut body, task_id as u128);
    push_text(&mut body, "}");
    json_response(202, body.as_str())
}

} // verus!
