//! The decisions of a chat turn that do not wait on anything: how a prompt
//! is classified, and how lookups are folded into the prompt.

use vstd::prelude::*;
use crate::agent::MAX_PROMPT_BYTES;
use crate::text::{chars_of, fits_bytes, occurs_at, push_chars, push_text, starts_with_text, string_of, utf8_len};

verus! {

broadcast use vstd::string::group_string_axioms, vstd::utf8::group_utf8_lib;

/// How many characters of fetched content or search results a prompt carries.
pub const CONTEXT_CHARS: usize = 6000;

/// How many characters of a query name its lookup.
pub const LABEL_CHARS: usize = 60;

/// What a chat turn does with its prompt.
pub enum ChatStart {
    /// The prompt is over the size limit.
    TooLarge,
    /// A `/dev ` command, with the task it hands over.
    Dev(String),
    /// An ordinary turn.
    Normal,
}

/// The first `n` characters of `s`, or all of them.
pub open spec fn prefix_chars(s: Seq<char>, n: nat) -> Seq<char> {
    if s.len() <= n {
        s
    } else {
        s.subrange(0, n as int)
    }
}

/// Classifies a prompt: too large, a development task, or an ordinary turn.
pub fn classify_prompt(prompt: &str) -> (r: ChatStart)
    ensures
        utf8_len(prompt@) > MAX_PROMPT_BYTES ==> r is TooLarge,
        utf8_len(prompt@) <= MAX_PROMPT_BYTES && occurs_at(prompt@, "/dev "@, 0) ==> (r matches ChatStart::Dev(t)
            && t@ == prompt@.subrange(5, prompt@.len() as int)),
        utf8_len(prompt@) <= MAX_PROMPT_BYTES && !occurs_at(prompt@, "/dev "@, 0) ==> r is Normal,
{
    if !fits_bytes(prompt, MAX_PROMPT_BYTES) {
        return ChatStart::TooLarge;
    }
    if starts_with_text(prompt, "/dev ") {
        proof {
            reveal_strlit("/dev ");
        }
        let cs = chars_of(prompt);
        ChatStart::Dev(string_of(&cs, 5, cs.len()))
    } else {
        ChatStart::Normal
    }
}

fn push_prefix(out: &mut String, s: &str, n: usize)
    ensures
        final(out)@ == old(out)@ + prefix_chars(s@, n as nat),
{
    let cs = chars_of(s);
    let k = if cs.len() <= n {
        cs.len()
    } else {
        n
    };
    push_chars(out, &cs, 0, k);
    proof {
        if cs@.len() <= n {
            assert(cs@.subrange(0, k as int) =~= cs@);
        }
    }
}

/// The prompt with a fetched page appended.
pub open spec fn web_context_text(prompt: Seq<char>, url: Seq<char>, content: Seq<char>) -> Seq<char> {
    prompt + "\n\n[Web: "@ + url + "]\n"@ + prefix_chars(content, CONTEXT_CHARS as nat)
}

/// Appends a fetched page, cut to its first 6000 characters, to the prompt.
pub fn web_context_prompt(prompt: &str, url: &str, content: &str) -> (r: String)
    ensures
        r@ == web_context_text(prompt@, url@, content@),
{
    let mut s = String::new();
    push_text(&mut s, prompt);
    push_text(&mut s, "\n\n[Web: ");
    push_text(&mut s, url);
    push_text(&mut s, "]\n");
    push_prefix(&mut s, content, CONTEXT_CHARS);
    assert(s@ =~= web_context_text(prompt@, url@, content@));
    s
}

/// Notes in the prompt that fetching its URL failed.
pub fn scrape_failed_prompt(prompt: &str, error: &str) -> (r: String)
    ensures
        r@ == prompt@ + "\n\n[Web scrape failed: "@ + error@ + "]"@,
{
    let mut s = String::new();
    push_text(&mut s, prompt);
    push_text(&mut s, "\n\n[Web scrape failed: ");
    push_text(&mut s, error);
    push_text(&mut s, "]");
    assert(s@ =~= prompt@ + "\n\n[Web scrape failed: "@ + error@ + "]"@);
    s
}

/// The prompt with search results appended.
pub open spec fn search_context_text(base: Seq<char>, query: Seq<char>, results: Seq<char>) -> Seq<char> {
    base + "\n\n[Search results for: "@ + query + "]\n"@ + prefix_chars(results, CONTEXT_CHARS as nat)
}

/// Appends search results, cut to their first 6000 characters, to the prompt.
pub fn search_context_prompt(base: &str, query: &str, results: &str) -> (r: String)
    ensures
        r@ == search_context_text(base@, query@, results@),
{
    let mut s = String::new();
    push_text(&mut s, base);
    push_text(&mut s, "\n\n[Search results for: ");
    push_text(&mut s, query);
    push_text(&mut s, "]\n");
    push_prefix(&mut s, results, CONTEXT_CHARS);
    assert(s@ =~= search_context_text(base@, query@, results@));
    s
}

/// The name under which a search's results are remembered.
pub fn search_label(query: &str) -> (r: String)
    ensures
        r@ == "search: "@ + prefix_chars(query@, LABEL_CHARS as nat),
{
    let mut s = String::new();
    push_text(&mut s, "search: ");
    push_prefix(&mut s, query, LABEL_CHARS);
    s
}

/// Whether an HTTP status is a success.
pub fn status_ok(status: u64) -> (r: bool)
    ensures
        r == (200 <= status < 300),
{
    200 <= status && status < 300
}

} // verus!
