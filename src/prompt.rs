//! The chat request: a system message carrying the memory tiers and the
//! recent lookups, optionally the last assistant reply, and the user's
//! prompt, wrapped in a chat-completion body.

use vstd::prelude::*;
use vstd::utf8::encode_utf8;
use crate::config::AgentConfig;
use crate::json::{json_escaped, push_json_escaped};
use crate::priors::{decimal, push_decimal};
use crate::records::{default_agent_name, PicoState, PicoStateModel, WebEntry, WebEntryModel};
use crate::text::{chars_of, matches_at, occurs_at, push_char, push_text, string_of, text_eq, truncate_utf8, truncated, utf8_len};

verus! {

broadcast use vstd::string::group_string_axioms, vstd::utf8::group_utf8_lib;

/// Byte budget of the last assistant reply carried into a request.
pub const LAST_REPLY_MAX_CHARS: usize = 300;

/// How many characters of a lookup's summary a request shows.
pub const WEB_PREVIEW_CHARS: usize = 100;

pub const TOOLS_JSON: &'static str = ",\"tools\":[{\"type\":\"function\",\"function\":{\"name\":\"web_search\",\"description\":\"Search the web for current information: news, prices, weather, sports, facts, or anything you need real-time data for. Always use this instead of saying you cannot browse.\",\"parameters\":{\"type\":\"object\",\"properties\":{\"query\":{\"type\":\"string\",\"description\":\"Search query\"}},\"required\":[\"query\"]}}}],\"tool_choice\":\"auto\"";

/// `s` from position `i` on, with every occurrence of `pat`, taken from
/// the left without overlap, replaced by `with`.
pub open spec fn replace_from(s: Seq<char>, i: int, pat: Seq<char>, with: Seq<char>) -> Seq<char>
    decreases s.len() - i,
{
    if i < 0 || i >= s.len() || pat.len() == 0 {
        s.subrange(if 0 <= i <= s.len() { i } else { s.len() as int }, s.len() as int)
    } else if occurs_at(s, pat, i) {
        with + replace_from(s, i + pat.len(), pat, with)
    } else {
        seq![s[i]] + replace_from(s, i + 1, pat, with)
    }
}

/// Replaces every occurrence of a non-empty `pat` in `s` with `with`.
pub fn replace_all(s: &str, pat: &str, with: &str) -> (r: String)
    requires
        pat@.len() > 0,
    ensures
        r@ == replace_from(s@, 0, pat@, with@),
{
    let cs = chars_of(s);
    let ps = chars_of(pat);
    let mut out = String::new();
    let mut i: usize = 0;
    while i < cs.len()
        invariant
            cs@ == s@,
            ps@ == pat@,
            ps@.len() > 0,
            i <= cs@.len(),
            replace_from(cs@, 0, ps@, with@) == out@ + replace_from(cs@, i as int, ps@, with@),
        decreases cs@.len() - i,
    {
        let ghost before = out@;
        if matches_at(&cs, &ps, i) {
            push_text(&mut out, with);
            assert(before + (with@ + replace_from(cs@, i + ps@.len(), ps@, with@)) =~= out@
                + replace_from(cs@, i + ps@.len(), ps@, with@));
            i = i + ps.len();
        } else {
            push_char(&mut out, cs[i]);
            assert(before + (seq![cs@[i as int]] + replace_from(cs@, i + 1, ps@, with@)) =~= out@
                + replace_from(cs@, i + 1, ps@, with@));
            i = i + 1;
        }
    }
    assert(out@ + replace_from(cs@, i as int, ps@, with@) =~= out@);
    out
}

/// The system prompt with the agent's chosen name in place of the default.
pub open spec fn system_text(prompt: Seq<char>, name: Seq<char>) -> Seq<char> {
    if name != default_agent_name() && name.len() > 0 {
        replace_from(prompt, 0, default_agent_name(), name)
    } else {
        prompt
    }
}

/// One tagged tier line inside the system message, or nothing for an empty tier.
pub open spec fn tier_part(tag: Seq<char>, tier: Seq<char>, newline: bool) -> Seq<char> {
    if tier.len() > 0 {
        tag + json_escaped(tier) + (if newline {
            "\\n"@
        } else {
            Seq::empty()
        })
    } else {
        Seq::empty()
    }
}

/// The memory section of the system message.
pub open spec fn memory_part(m: PicoStateModel) -> Seq<char> {
    if m.identity.len() > 0 || m.thread.len() > 0 || m.episodes.len() > 0 || m.priors.len() > 0 {
        "\\n\\n[M]\\n"@ + tier_part("I:"@, m.identity, true) + tier_part("T:"@, m.thread, true)
            + tier_part("E:"@, m.episodes, true) + tier_part("P:"@, m.priors, false)
    } else {
        Seq::empty()
    }
}

/// How long ago, in whole seconds, minutes or hours.
pub open spec fn ago_text(secs: u64) -> Seq<char> {
    if secs < 60 {
        decimal(secs as nat) + "s ago"@
    } else if secs < 3600 {
        decimal((secs / 60) as nat) + "m ago"@
    } else {
        decimal((secs / 3600) as nat) + "h ago"@
    }
}

pub open spec fn elapsed_secs(now: u64, then: u64) -> u64 {
    if now >= then {
        ((now - then) / 1_000_000_000) as u64
    } else {
        0
    }
}

/// The first `n` characters of `s`, or all of them.
pub open spec fn take_chars(s: Seq<char>, n: nat) -> Seq<char> {
    if s.len() <= n {
        s
    } else {
        s.subrange(0, n as int)
    }
}

/// The `k`-th (from 1) line of the lookups section.
pub open spec fn web_line(k: nat, e: WebEntryModel, now: u64) -> Seq<char> {
    decimal(k) + ". "@ + json_escaped(e.url) + " ("@ + ago_text(elapsed_secs(now, e.timestamp))
        + "): "@ + json_escaped(take_chars(e.summary, WEB_PREVIEW_CHARS as nat)) + "\\n"@
}

pub open spec fn web_lines(es: Seq<WebEntryModel>, now: u64) -> Seq<char>
    decreases es.len(),
{
    if es.len() == 0 {
        Seq::empty()
    } else {
        web_lines(es.drop_last(), now) + web_line(es.len(), es.last(), now)
    }
}

/// The lookups section of the system message.
pub open spec fn web_part(es: Seq<WebEntryModel>, now: u64) -> Seq<char> {
    if es.len() > 0 {
        "\\n\\n[W] Recent lookups:\\n"@ + web_lines(es, now)
    } else {
        Seq::empty()
    }
}

/// The assistant message carrying the last reply, cut to its budget.
pub open spec fn assistant_part(carried: bool, last: Option<Seq<char>>) -> Seq<char> {
    match last {
        Some(c) => if carried {
            ",{\"role\":\"assistant\",\"content\":\""@ + json_escaped(
                truncated(c, LAST_REPLY_MAX_CHARS as nat),
            ) + (if utf8_len(c) > LAST_REPLY_MAX_CHARS {
                "..."@
            } else {
                Seq::empty()
            }) + "\"}"@
        } else {
            Seq::empty()
        },
        None => Seq::empty(),
    }
}

/// The JSON messages array of a chat request.
pub open spec fn messages_text(
    system_prompt: Seq<char>,
    name: Seq<char>,
    m: PicoStateModel,
    web: Seq<WebEntryModel>,
    now: u64,
    carry_last: bool,
    last: Option<Seq<char>>,
    prompt: Seq<char>,
) -> Seq<char> {
    "[{\"role\":\"system\",\"content\":\""@ + json_escaped(system_text(system_prompt, name))
        + memory_part(m) + web_part(web, now) + "\"}"@ + assistant_part(carry_last, last)
        + ",{\"role\":\"user\",\"content\":\""@ + json_escaped(prompt) + "\"}]"@
}

fn push_tier(out: &mut String, tag: &str, tier: &String, newline: bool)
    ensures
        final(out)@ == old(out)@ + tier_part(tag@, tier@, newline),
{
    if !tier.as_str().is_empty() {
        push_text(out, tag);
        push_json_escaped(out, tier.as_str());
        if newline {
            push_text(out, "\\n");
        }
    }
    assert(final(out)@ =~= old(out)@ + tier_part(tag@, tier@, newline));
}

fn push_ago(out: &mut String, secs: u64)
    ensures
        final(out)@ == old(out)@ + ago_text(secs),
{
    if secs < 60 {
        push_decimal(out, secs as u128);
        push_text(out, "s ago");
    } else if secs < 3600 {
        push_decimal(out, (secs / 60) as u128);
        push_text(out, "m ago");
    } else {
        push_decimal(out, (secs / 3600) as u128);
        push_text(out, "h ago");
    }
    assert(final(out)@ =~= old(out)@ + ago_text(secs));
}

fn push_web_line(out: &mut String, k: u64, e: &WebEntry, now: u64)
    ensures
        final(out)@ == old(out)@ + web_line(k as nat, e@, now),
{
    let secs = now.saturating_sub(e.timestamp) / 1_000_000_000;
    let cs = chars_of(e.summary.as_str());
    let n = if cs.len() <= WEB_PREVIEW_CHARS {
        cs.len()
    } else {
        WEB_PREVIEW_CHARS
    };
    let preview = string_of(&cs, 0, n);
    assert(preview@ == take_chars(e.summary@, WEB_PREVIEW_CHARS as nat)) by {
        if cs@.len() <= WEB_PREVIEW_CHARS {
            assert(cs@.subrange(0, n as int) =~= cs@);
        }
    }
    push_decimal(out, k as u128);
    push_text(out, ". ");
    push_json_escaped(out, e.url.as_str());
    push_text(out, " (");
    push_ago(out, secs);
    push_text(out, "): ");
    push_json_escaped(out, preview.as_str());
    push_text(out, "\\n");
    assert(final(out)@ =~= old(out)@ + web_line(k as nat, e@, now));
}

fn push_system(out: &mut String, system_prompt: &str, name: &str)
    ensures
        final(out)@ == old(out)@ + json_escaped(system_text(system_prompt@, name@)),
{
    let custom = !text_eq(name, "PicoClaw") && !name.is_empty();
    proof {
        reveal_strlit("PicoClaw");
        assert("PicoClaw"@ =~= default_agent_name());
    }
    if custom {
        let sys = replace_all(system_prompt, "PicoClaw", name);
        push_json_escaped(out, sys.as_str());
    } else {
        push_json_escaped(out, system_prompt);
    }
}

fn push_memory(out: &mut String, state: &PicoState)
    ensures
        final(out)@ == old(out)@ + memory_part(state@),
{
    if !state.identity.as_str().is_empty() || !state.thread.as_str().is_empty()
        || !state.episodes.as_str().is_empty() || !state.priors.as_str().is_empty() {
        push_text(out, "\\n\\n[M]\\n");
        push_tier(out, "I:", &state.identity, true);
        push_tier(out, "T:", &state.thread, true);
        push_tier(out, "E:", &state.episodes, true);
        push_tier(out, "P:", &state.priors, false);
    }
    assert(final(out)@ =~= old(out)@ + memory_part(state@));
}

fn push_web(out: &mut String, web: &Vec<WebEntry>, now: u64)
    ensures
        final(out)@ == old(out)@ + web_part(web@.map_values(|e: WebEntry| e@), now),
{
    let ghost es = web@.map_values(|e: WebEntry| e@);
    if web.len() > 0 {
        push_text(out, "\\n\\n[W] Recent lookups:\\n");
        let ghost head = out@;
        let mut i: usize = 0;
        while i < web.len()
            invariant
                i <= web@.len(),
                es == web@.map_values(|e: WebEntry| e@),
                out@ == head + web_lines(es.subrange(0, i as int), now),
            decreases web@.len() - i,
        {
            proof {
                assert(es.subrange(0, i + 1).drop_last() =~= es.subrange(0, i as int));
                assert(es.subrange(0, i + 1).last() == web@[i as int]@);
            }
            push_web_line(out, (i + 1) as u64, &web[i], now);
            i = i + 1;
        }
        assert(es.subrange(0, i as int) =~= es);
    }
    assert(final(out)@ =~= old(out)@ + web_part(es, now));
}

fn push_assistant(out: &mut String, carry: bool, last_assistant: &Option<String>)
    ensures
        final(out)@ == old(out)@ + assistant_part(
            carry,
            match last_assistant {
                Some(c) => Some(c@),
                None => None,
            },
        ),
{
    if carry {
        match last_assistant {
            Some(content) => {
                push_text(out, ",{\"role\":\"assistant\",\"content\":\"");
                let t = truncate_utf8(content.as_str(), LAST_REPLY_MAX_CHARS);
                push_json_escaped(out, t.as_str());
                if !text_eq(t.as_str(), content.as_str()) {
                    push_text(out, "...");
                }
                push_text(out, "\"}");
            },
            None => {},
        }
    }
    assert(final(out)@ =~= old(out)@ + assistant_part(
        carry,
        match last_assistant {
            Some(c) => Some(c@),
            None => None,
        },
    ));
}

/// Builds the JSON messages array of a chat request from the system prompt,
/// the agent's name, the memory, the lookups (newest first), the time, the
/// last assistant reply if it is to be carried, and the user's prompt.
pub fn build_messages_json(
    config: &AgentConfig,
    prompt: &str,
    state: &PicoState,
    name: &str,
    web: &Vec<WebEntry>,
    now: u64,
    last_assistant: &Option<String>,
) -> (r: String)
    ensures
        r@ == messages_text(
            config.system_prompt@,
            name@,
            state@,
            web@.map_values(|e: WebEntry| e@),
            now,
            config.max_context_messages > 0,
            match last_assistant {
                Some(c) => Some(c@),
                None => None,
            },
            prompt@,
        ),
{
    let mut json = String::new();
    push_text(&mut json, "[{\"role\":\"system\",\"content\":\"");
    push_system(&mut json, config.system_prompt.as_str(), name);
    push_memory(&mut json, state);
    push_web(&mut json, web, now);
    push_text(&mut json, "\"}");
    push_assistant(&mut json, config.max_context_messages > 0, last_assistant);
    push_text(&mut json, ",{\"role\":\"user\",\"content\":\"");
    push_json_escaped(&mut json, prompt);
    push_text(&mut json, "\"}]");
    assert(json@ =~= messages_text(
        config.system_prompt@,
        name@,
        state@,
        web@.map_values(|e: WebEntry| e@),
        now,
        config.max_context_messages > 0,
        match last_assistant {
            Some(c) => Some(c@),
            None => None,
        },
        prompt@,
    ));
    json
}

/// A chat-completion request body around a messages array.
pub open spec fn chat_body_text(model: Seq<char>, messages: Seq<char>, with_tools: bool) -> Seq<char> {
    "{\"model\":\""@ + json_escaped(model) + "\",\"messages\":"@ + messages
        + ",\"temperature\":0.7,\"max_tokens\":2048"@ + (if with_tools {
        TOOLS_JSON@
    } else {
        Seq::empty()
    }) + "}"@
}

/// Wraps a messages array into a chat request body, with or without the
/// search tool.
pub fn build_request_body_inner(config: &AgentConfig, messages: &str, with_tools: bool) -> (r: Vec<u8>)
    ensures
        r@ == encode_utf8(chat_body_text(config.model@, messages@, with_tools)),
{
    let mut body = String::new();
    push_text(&mut body, "{\"model\":\"");
    push_json_escaped(&mut body, config.model.as_str());
    push_text(&mut body, "\",\"messages\":");
    push_text(&mut body, messages);
    push_text(&mut body, ",\"temperature\":0.7,\"max_tokens\":2048");
    if with_tools {
        push_text(&mut body, TOOLS_JSON);
    }
    push_text(&mut body, "}");
    assert(body@ =~= chat_body_text(config.model@, messages@, with_tools));
    vstd::slice::slice_to_vec(body.as_str().as_bytes())
}

/// A chat request body that offers the search tool.
pub fn build_request_body(config: &AgentConfig, messages: &str) -> (r: Vec<u8>)
    ensures
        r@ == encode_utf8(chat_body_text(config.model@, messages@, true)),
{
    build_request_body_inner(config, messages, true)
}

/// A chat request body without tools.
pub fn build_request_body_no_tools(config: &AgentConfig, messages: &str) -> (r: Vec<u8>)
    ensures
        r@ == encode_utf8(chat_body_text(config.model@, messages@, false)),
{
    build_request_body_inner(config, messages, false)
}

/// A low-temperature request body around an arbitrary messages array.
pub fn build_raw_request_body(config: &AgentConfig, messages_json: &str) -> (r: Vec<u8>)
    ensures
        r@ == encode_utf8(
            "{\"model\":\""@ + json_escaped(config.model@) + "\",\"messages\":"@ + messages_json@
                + ",\"temperature\":0.3,\"max_tokens\":640}"@,
        ),
{
    let mut body = String::new();
    push_text(&mut body, "{\"model\":\"");
    push_json_escaped(&mut body, config.model.as_str());
    push_text(&mut body, "\",\"messages\":");
    push_text(&mut body, messages_json);
    push_text(&mut body, ",\"temperature\":0.3,\"max_tokens\":640}");
    assert(body@ =~= "{\"model\":\""@ + json_escaped(config.model@) + "\",\"messages\":"@
        + messages_json@ + ",\"temperature\":0.3,\"max_tokens\":640}"@);
    vstd::slice::slice_to_vec(body.as_str().as_bytes())
}

} // verus!
