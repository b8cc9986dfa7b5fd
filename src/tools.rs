//! Reading the model's replies and the lookup service's responses: tool
//! calls, refusals to search, URLs in a message and extracted facts.

use vstd::prelude::*;
use crate::json::{
    body_text, field_value, find_field_value, find_first, find_first_exec, unescape_from,
    unescape_string, utf8_text, Dialect,
};
use crate::text::{chars_of, contains, contains_chars, is_whitespace, is_ws, skip_whitespace,
    string_of, sub_chars, trim_start};

verus! {

broadcast use vstd::string::group_string_axioms, vstd::utf8::group_utf8_lib;

/// Whether a response body is UTF-8 holding a `"tool_calls"` key.
pub open spec fn tool_call_present(body: Seq<u8>) -> bool {
    match body_text(body) {
        Some(s) => contains(s, "\"tool_calls\""@),
        None => false,
    }
}

/// Checks whether a response asks for a tool.
pub fn has_tool_call(body: &[u8]) -> (r: bool)
    ensures
        r == tool_call_present(body@),
{
    match utf8_text(body) {
        Some(s) => contains_chars(&chars_of(s.as_str()), &chars_of("\"tool_calls\"")),
        None => false,
    }
}

/// The raw text of the string after the first `needle` in `s`, skipping
/// whitespace before its opening quote; no escapes are read.
pub open spec fn simple_string_field(s: Seq<char>, needle: Seq<char>) -> Option<Seq<char>> {
    match find_first(s, needle) {
        Some(k) => {
            let rest = trim_start(s.subrange(k + needle.len(), s.len() as int));
            if rest.len() > 0 && rest[0] == '"' {
                let inner = rest.subrange(1, rest.len() as int);
                match find_first(inner, seq!['"']) {
                    Some(e) => Some(inner.subrange(0, e)),
                    None => None,
                }
            } else {
                None
            }
        },
        None => None,
    }
}

fn simple_string_field_exec(cs: &Vec<char>, needle: &Vec<char>) -> (r: Option<String>)
    ensures
        match simple_string_field(cs@, needle@) {
            Some(v) => r matches Some(x) && x@ == v,
            None => r is None,
        },
{
    let k = match find_first_exec(cs, needle) {
        Some(k) => k,
        None => return None,
    };
    let n = cs.len();
    let a = skip_whitespace(cs, k + needle.len(), n);
    if a >= cs.len() || cs[a] != '"' {
        proof {
            let rest = cs@.subrange(a as int, cs@.len() as int);
            if rest.len() > 0 {
                assert(rest[0] == cs@[a as int]);
            }
        }
        return None;
    }
    let inner = sub_chars(cs, a + 1, cs.len());
    let ghost rest = cs@.subrange(a as int, cs@.len() as int);
    assert(rest[0] == cs@[a as int]);
    assert(rest.subrange(1, rest.len() as int) =~= inner@);
    let quote = chars_of("\"");
    proof {
        reveal_strlit("\"");
        assert(quote@ =~= seq!['"']);
    }
    match find_first_exec(&inner, &quote) {
        Some(e) => Some(string_of(&inner, 0, e)),
        None => None,
    }
}

/// Extracts a simple `"key":"value"` string from JSON text.
pub fn extract_json_string_field(s: &str, needle: &str) -> (r: Option<String>)
    ensures
        match simple_string_field(s@, needle@) {
            Some(v) => r matches Some(x) && x@ == v,
            None => r is None,
        },
{
    simple_string_field_exec(&chars_of(s), &chars_of(needle))
}

/// The arguments of the first tool call: a JSON string, unescaped, or a
/// raw object up to and including its first `}`.
pub open spec fn tool_arguments(s: Seq<char>) -> Option<Seq<char>> {
    let needle = "\"arguments\":"@;
    match find_first(s, needle) {
        Some(k) => {
            let rest = trim_start(s.subrange(k + needle.len(), s.len() as int));
            if rest.len() > 0 && rest[0] == '"' {
                unescape_from(Dialect::Prompt, rest, 1)
            } else {
                match find_first(rest, seq!['}']) {
                    Some(e) => Some(rest.subrange(0, e + 1)),
                    None => None,
                }
            }
        },
        None => None,
    }
}

/// The non-empty value after the first `needle` in the arguments, up to
/// the next quote.
pub open spec fn query_after(args: Seq<char>, needle: Seq<char>) -> Option<Seq<char>> {
    match find_first(args, needle) {
        Some(q) => {
            let after = args.subrange(q + needle.len(), args.len() as int);
            let end = match find_first(after, seq!['"']) {
                Some(e) => e,
                None => after.len() as int,
            };
            if end > 0 {
                Some(after.subrange(0, end))
            } else {
                None
            }
        },
        None => None,
    }
}

/// The tool call's id and search query, if the body holds both.
pub open spec fn tool_call_of(body: Seq<u8>) -> Option<(Seq<char>, Seq<char>)> {
    match body_text(body) {
        Some(s) => match tool_arguments(s) {
            Some(args) => {
                let q = match query_after(args, "\"query\":\""@) {
                    Some(v) => Some(v),
                    None => query_after(args, "\"query\": \""@),
                };
                let id = match simple_string_field(s, "\"id\":"@) {
                    Some(v) => v,
                    None => "call_0"@,
                };
                match q {
                    Some(v) => Some((id, v)),
                    None => None,
                }
            },
            None => None,
        },
        None => None,
    }
}

fn query_after_exec(args: &Vec<char>, needle: &Vec<char>) -> (r: Option<String>)
    ensures
        match query_after(args@, needle@) {
            Some(v) => r matches Some(x) && x@ == v,
            None => r is None,
        },
{
    let q = match find_first_exec(args, needle) {
        Some(q) => q,
        None => return None,
    };
    let n = args.len();
    let after = sub_chars(args, q + needle.len(), n);
    let quote = chars_of("\"");
    proof {
        reveal_strlit("\"");
        assert(quote@ =~= seq!['"']);
    }
    let end = match find_first_exec(&after, &quote) {
        Some(e) => e,
        None => after.len(),
    };
    if end == 0 {
        return None;
    }
    Some(string_of(&after, 0, end))
}

fn tool_arguments_exec(cs: &Vec<char>) -> (r: Option<Vec<char>>)
    ensures
        match tool_arguments(cs@) {
            Some(v) => r matches Some(x) && x@ == v,
            None => r is None,
        },
{
    let needle = chars_of("\"arguments\":");
    let k = match find_first_exec(cs, &needle) {
        Some(k) => k,
        None => return None,
    };
    let n = cs.len();
    let a = skip_whitespace(cs, k + needle.len(), n);
    let rest = sub_chars(cs, a, cs.len());
    if rest.len() > 0 && rest[0] == '"' {
        match unescape_string(Dialect::Prompt, &rest, 1) {
            Some(s) => Some(chars_of(s.as_str())),
            None => None,
        }
    } else {
        let brace = chars_of("}");
        proof {
            reveal_strlit("}");
            assert(brace@ =~= seq!['}']);
        }
        match find_first_exec(&rest, &brace) {
            Some(e) => Some(sub_chars(&rest, 0, e + 1)),
            None => None,
        }
    }
}

/// Extracts the tool call's id and search query from a model response.
/// The id defaults to `call_0`; the query is read from string or object
/// arguments.
pub fn extract_tool_call(body: &[u8]) -> (r: Option<(String, String)>)
    ensures
        match tool_call_of(body@) {
            Some((id, q)) => r matches Some(x) && x.0@ == id && x.1@ == q,
            None => r is None,
        },
{
    let s = match utf8_text(body) {
        Some(s) => s,
        None => return None,
    };
    let cs = chars_of(s.as_str());
    let args = match tool_arguments_exec(&cs) {
        Some(a) => a,
        None => return None,
    };
    let id = match simple_string_field_exec(&cs, &chars_of("\"id\":")) {
        Some(v) => v,
        None => "call_0".to_string(),
    };
    match query_after_exec(&args, &chars_of("\"query\":\"")) {
        Some(q) => Some((id, q)),
        None => match query_after_exec(&args, &chars_of("\"query\": \"")) {
            Some(q) => Some((id, q)),
            None => None,
        },
    }
}

/// What `str::to_lowercase` makes of a text.
pub uninterp spec fn lower_of(s: Seq<char>) -> Seq<char>;

/// Relies on `str::to_lowercase`: the result depends on the characters alone.
#[verifier::external_body]
fn to_lowercase(s: &str) -> (r: String)
    ensures
        r@ == lower_of(s@),
        s@.len() == 0 ==> r@.len() == 0,
{
    s.to_lowercase()
}

/// Whether lowercased text holds one of the phrases with which a model
/// declines to look something up.
pub open spec fn refusal_in(lower: Seq<char>) -> bool {
    contains(lower, "i can't browse"@) || contains(lower, "i cannot browse"@) || contains(
        lower,
        "i can't access"@,
    ) || contains(lower, "i cannot access"@) || contains(lower, "i don't have access to real-time"@)
        || contains(lower, "i don't have the ability to browse"@) || contains(
        lower,
        "check a reliable news"@,
    ) || contains(lower, "check a news website"@) || contains(lower, "recommend checking"@)
        || contains(lower, "visit a website"@) || contains(lower, "i'm unable to fetch"@)
        || contains(lower, "i'm unable to browse"@) || contains(lower, "i can't fetch"@)
        || contains(lower, "cannot fetch the latest"@) || contains(lower, "don't have real-time"@)
        || contains(lower, "no real-time access"@)
}

/// Checks already-lowercased text for a refusal phrase.
pub fn is_refusal_text(lower: &str) -> (r: bool)
    ensures
        r == refusal_in(lower@),
{
    let cs = chars_of(lower);
    contains_chars(&cs, &chars_of("i can't browse")) || contains_chars(
        &cs,
        &chars_of("i cannot browse"),
    ) || contains_chars(&cs, &chars_of("i can't access")) || contains_chars(
        &cs,
        &chars_of("i cannot access"),
    ) || contains_chars(&cs, &chars_of("i don't have access to real-time")) || contains_chars(
        &cs,
        &chars_of("i don't have the ability to browse"),
    ) || contains_chars(&cs, &chars_of("check a reliable news")) || contains_chars(
        &cs,
        &chars_of("check a news website"),
    ) || contains_chars(&cs, &chars_of("recommend checking")) || contains_chars(
        &cs,
        &chars_of("visit a website"),
    ) || contains_chars(&cs, &chars_of("i'm unable to fetch")) || contains_chars(
        &cs,
        &chars_of("i'm unable to browse"),
    ) || contains_chars(&cs, &chars_of("i can't fetch")) || contains_chars(
        &cs,
        &chars_of("cannot fetch the latest"),
    ) || contains_chars(&cs, &chars_of("don't have real-time")) || contains_chars(
        &cs,
        &chars_of("no real-time access"),
    )
}

/// Detects a reply in which the model declined to search and sent the
/// user elsewhere; the comparison ignores case.
pub fn is_search_refusal(reply: &str) -> (r: bool)
    ensures
        r == refusal_in(lower_of(reply@)),
{
    let lower = to_lowercase(reply);
    is_refusal_text(lower.as_str())
}

/// Whether `c` ends a URL inside running text.
pub open spec fn ends_url(c: char) -> bool {
    is_ws(c) || c == '"' || c == '\'' || c == '>' || c == ')'
}

/// The first position in `s` whose character ends a URL, or its length.
pub open spec fn url_end(s: Seq<char>, k: int) -> bool {
    0 <= k <= s.len() && (k < s.len() ==> ends_url(s[k])) && forall|j: int|
        0 <= j < k ==> !ends_url(#[trigger] s[j])
}

/// The first `https://` URL in `text`, or failing that the first `http://`
/// one, up to the first whitespace, quote, `>` or `)`.
pub open spec fn url_in(text: Seq<char>) -> Option<Seq<char>> {
    let start = match find_first(text, "https://"@) {
        Some(k) => Some(k),
        None => find_first(text, "http://"@),
    };
    match start {
        Some(k) => {
            let rest = text.subrange(k, text.len() as int);
            let e = choose|e: int| url_end(rest, e);
            Some(rest.subrange(0, e))
        },
        None => None,
    }
}

/// Finds the first URL in a message.
pub fn extract_url(text: &str) -> (r: Option<String>)
    ensures
        match url_in(text@) {
            Some(u) => r matches Some(x) && x@ == u,
            None => r is None,
        },
{
    let cs = chars_of(text);
    let start = match find_first_exec(&cs, &chars_of("https://")) {
        Some(k) => k,
        None => match find_first_exec(&cs, &chars_of("http://")) {
            Some(k) => k,
            None => return None,
        },
    };
    let mut e = start;
    while e < cs.len() && !(is_whitespace(cs[e]) || cs[e] == '"' || cs[e] == '\'' || cs[e] == '>'
        || cs[e] == ')')
        invariant
            start <= e <= cs@.len(),
            forall|j: int| start <= j < e ==> !ends_url(#[trigger] cs@[j]),
        decreases cs@.len() - e,
    {
        e = e + 1;
    }
    proof {
        let rest = cs@.subrange(start as int, cs@.len() as int);
        assert(url_end(rest, e - start)) by {
            assert forall|j: int| 0 <= j < e - start implies !ends_url(#[trigger] rest[j]) by {
                assert(rest[j] == cs@[start + j]);
            }
            if e < cs@.len() {
                assert(rest[e - start] == cs@[e as int]);
            }
        }
        let e2 = choose|e2: int| url_end(rest, e2);
        if e2 < e - start {
            assert(rest[e2] == cs@[start + e2]);
        } else if e2 > e - start {
            assert(rest[e - start] == cs@[e as int]);
        }
        assert(rest.subrange(0, e - start) =~= cs@.subrange(start as int, e as int));
    }
    Some(string_of(&cs, start, e))
}

/// The facts of a lookup service response: its `"f"` string, when the
/// response says `"ok":true`.
pub open spec fn intel_facts(body: Seq<u8>) -> Option<Seq<char>> {
    match body_text(body) {
        Some(s) => if contains(s, "\"ok\":true"@) || contains(s, "\"ok\": true"@) {
            field_value(Dialect::Facts, s, "\"f\":\""@)
        } else {
            None
        },
        None => None,
    }
}

/// Extracts the facts field from a lookup service response.
pub fn extract_intel_facts(body: &[u8]) -> (r: Option<String>)
    ensures
        match intel_facts(body@) {
            Some(v) => r matches Some(x) && x@ == v,
            None => r is None,
        },
{
    let s = match utf8_text(body) {
        Some(s) => s,
        None => return None,
    };
    let cs = chars_of(s.as_str());
    if !contains_chars(&cs, &chars_of("\"ok\":true")) && !contains_chars(
        &cs,
        &chars_of("\"ok\": true"),
    ) {
        return None;
    }
    find_field_value(Dialect::Facts, &cs, &chars_of("\"f\":\""))
}

} // verus!
