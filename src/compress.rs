//! The compression engine: selects the messages past the watermark, builds
//! the summarizer request, and folds the summarizer's reply into memory.
//! The call itself is made by the caller, between `begin_compression` and
//! `finish_compression`.

use vstd::prelude::*;
use crate::codec::{text_from_bytes, text_of};
use crate::config::AgentConfig;
use crate::json::{completion_content, extract_content, json_escaped, push_json_escaped};
use crate::log::{messages_in, Transcript};
use crate::records::{Message, MessageModel, PicoState, PicoStateModel};
use crate::text::{push_text, text_eq, truncate_utf8, truncated, utf8_len};
use crate::tiers::{apply_tiers, compressed};

verus! {

broadcast use vstd::string::group_string_axioms, vstd::utf8::group_utf8_lib;

/// Byte budget of each message body in the transcript sent for compression.
pub const TRANSCRIPT_MSG_MAX_CHARS: usize = 200;

pub const ASSISTANT_ROLE: &'static str = "assistant";

pub const COMPRESS_INSTRUCTION: &'static str = "You maintain 3 memory tiers. Above: current I/T/E state + new messages after ---.\nOutput EXACTLY 3 lines:\nI: key=val|key=val — permanent facts (name,project,tech,prefs). Keep ALL existing keys. Add/update ONLY from new info.\nT: telegram-style current thread, max 580 chars. REPLACE old thread with latest focus.\nE: rolling episode log. IF topic changed: prepend 1-line old-thread archive to existing list; drop oldest if >880ch. IF same topic: keep existing E unchanged.\nRules: no articles, no filler, pipe-delimit facts, abbreviate aggressively. ONLY output I:/T:/E: lines.";

pub const REQUEST_OPEN: &'static str = "{\"model\":\"";

pub const REQUEST_SYSTEM: &'static str = "\",\"messages\":[{\"role\":\"system\",\"content\":\"";

pub const REQUEST_USER: &'static str = "\"},{\"role\":\"user\",\"content\":\"";

pub const REQUEST_CLOSE: &'static str = "\"}],\"temperature\":0.3,\"max_tokens\":640}";

/// Whether an automatic compression is due: the interval is not 0 and at
/// least that many messages came after the watermark.
pub open spec fn compression_due(interval: u32, counter: u64, watermark: u64) -> bool {
    interval != 0 && counter >= watermark && counter - watermark >= interval
}

/// Whether an automatic compression should run now.
pub fn should_compress(config: &AgentConfig, counter: u64, state: &PicoState) -> (r: bool)
    ensures
        r == compression_due(config.compress_interval, counter, state.msg_id_at_compress),
{
    if config.compress_interval == 0 {
        return false;
    }
    let since = counter.saturating_sub(state.msg_id_at_compress);
    since >= config.compress_interval as u64
}

/// One transcript line: the speaker tag, the body cut to its budget with
/// `..` where it was cut, and a newline.
pub open spec fn transcript_line(m: MessageModel) -> Seq<char> {
    (if m.role == ASSISTANT_ROLE@ {
        seq!['A', ':']
    } else {
        seq!['U', ':']
    }) + truncated(m.content, TRANSCRIPT_MSG_MAX_CHARS as nat) + (if utf8_len(m.content)
        > TRANSCRIPT_MSG_MAX_CHARS {
        seq!['.', '.']
    } else {
        Seq::empty()
    }) + seq!['\n']
}

pub open spec fn transcript_text(ms: Seq<MessageModel>) -> Seq<char>
    decreases ms.len(),
{
    if ms.len() == 0 {
        Seq::empty()
    } else {
        transcript_text(ms.drop_last()) + transcript_line(ms.last())
    }
}

/// The user part of the request: the current tiers, a separator, and the transcript.
pub open spec fn compress_prompt(m: PicoStateModel, transcript: Seq<char>) -> Seq<char> {
    seq!['I', ':'] + m.identity + seq!['\n', 'T', ':'] + m.thread + seq!['\n', 'E', ':']
        + m.episodes + seq!['\n', '-', '-', '-', '\n'] + transcript
}

/// The JSON request for the summarizer.
pub open spec fn request_text(model: Seq<char>, prompt: Seq<char>) -> Seq<char> {
    REQUEST_OPEN@ + json_escaped(model) + REQUEST_SYSTEM@ + json_escaped(COMPRESS_INSTRUCTION@)
        + REQUEST_USER@ + json_escaped(prompt) + REQUEST_CLOSE@
}

/// The messages that a compression of `m` would fold in.
pub open spec fn pending(log: Seq<(u64, MessageModel)>, counter: u64, m: PicoStateModel) -> Seq<
    MessageModel,
> {
    messages_in(log, m.msg_id_at_compress, counter)
}

/// Appends one transcript line for `msg`.
fn push_transcript_line(out: &mut String, msg: &Message)
    ensures
        final(out)@ == old(out)@ + transcript_line(msg@),
{
    let ghost before = out@;
    if text_eq(msg.role.as_str(), ASSISTANT_ROLE) {
        push_text(out, "A:");
        proof {
            reveal_strlit("A:");
        }
    } else {
        push_text(out, "U:");
        proof {
            reveal_strlit("U:");
        }
    }
    let body = truncate_utf8(msg.content.as_str(), TRANSCRIPT_MSG_MAX_CHARS);
    push_text(out, body.as_str());
    if !text_eq(body.as_str(), msg.content.as_str()) {
        push_text(out, "..");
        proof {
            reveal_strlit("..");
        }
    }
    push_text(out, "\n");
    proof {
        reveal_strlit("\n");
    }
    assert(out@ =~= before + transcript_line(msg@));
}

/// The transcript text for `msgs`, one line each.
pub fn build_transcript(msgs: &Vec<Message>) -> (r: String)
    ensures
        r@ == transcript_text(msgs@.map_values(|m: Message| m@)),
{
    let mut out = String::new();
    let mut i: usize = 0;
    while i < msgs.len()
        invariant
            i <= msgs@.len(),
            out@ == transcript_text(msgs@.subrange(0, i as int).map_values(|m: Message| m@)),
        decreases msgs@.len() - i,
    {
        proof {
            let a = msgs@.subrange(0, i + 1).map_values(|m: Message| m@);
            assert(a.drop_last() =~= msgs@.subrange(0, i as int).map_values(|m: Message| m@));
            assert(a.last() == msgs@[i as int]@);
        }
        push_transcript_line(&mut out, &msgs[i]);
        i = i + 1;
    }
    assert(msgs@.subrange(0, i as int) =~= msgs@);
    out
}

/// The user part of the request for `state` and `transcript`.
pub fn build_compress_prompt(state: &PicoState, transcript: &str) -> (r: String)
    ensures
        r@ == compress_prompt(state@, transcript@),
{
    let mut s = String::new();
    push_text(&mut s, "I:");
    push_text(&mut s, state.identity.as_str());
    push_text(&mut s, "\nT:");
    push_text(&mut s, state.thread.as_str());
    push_text(&mut s, "\nE:");
    push_text(&mut s, state.episodes.as_str());
    push_text(&mut s, "\n---\n");
    push_text(&mut s, transcript);
    proof {
        reveal_strlit("I:");
        reveal_strlit("\nT:");
        reveal_strlit("\nE:");
        reveal_strlit("\n---\n");
    }
    assert(s@ =~= compress_prompt(state@, transcript@));
    s
}

/// The JSON request for the summarizer, for `model` and the user part `prompt`.
pub fn build_request_text(model: &str, prompt: &str) -> (r: String)
    ensures
        r@ == request_text(model@, prompt@),
{
    let mut s = String::new();
    push_text(&mut s, REQUEST_OPEN);
    push_json_escaped(&mut s, model);
    push_text(&mut s, REQUEST_SYSTEM);
    push_json_escaped(&mut s, COMPRESS_INSTRUCTION);
    push_text(&mut s, REQUEST_USER);
    push_json_escaped(&mut s, prompt);
    push_text(&mut s, REQUEST_CLOSE);
    assert(s@ =~= request_text(model@, prompt@));
    s
}

/// What a compression needs from the caller: the request to send, and the
/// sequence number that the watermark moves to once the reply is folded in.
pub struct CompressionRequest {
    pub body: Vec<u8>,
    pub upto: u64,
}

/// Starts a compression of `state` against `log`. With no message past the
/// watermark there is nothing to do and the result is `None`; otherwise it
/// is the UTF-8 request over those messages, up to the log's counter.
pub fn begin_compression(config: &AgentConfig, state: &PicoState, log: &Transcript) -> (r: Option<
    CompressionRequest,
>)
    requires
        log.inv(),
    ensures
        r is None <==> pending(log@.entries, log@.counter, state@).len() == 0,
        r matches Some(q) ==> (q.upto == log@.counter && q.body@ == vstd::utf8::encode_utf8(
            request_text(
                config.model@,
                compress_prompt(
                    state@,
                    transcript_text(pending(log@.entries, log@.counter, state@)),
                ),
            ),
        )),
{
    let counter = log.counter();
    let recent = log.range(state.msg_id_at_compress, counter);
    if recent.len() == 0 {
        assert(recent@.map_values(|m: Message| m@).len() == 0);
        return None;
    }
    let transcript = build_transcript(&recent);
    let prompt = build_compress_prompt(state, transcript.as_str());
    let text = build_request_text(config.model.as_str(), prompt.as_str());
    let body = vstd::slice::slice_to_vec(text.as_str().as_bytes());
    Some(CompressionRequest { body, upto: counter })
}

/// Why a compression changed nothing.
#[derive(Clone, Copy, Debug, PartialEq, Eq, Structural)]
pub enum CompressError {
    /// The summarizer answered with a status outside 200..=299.
    Status(u64),
    /// The summarizer's output was empty.
    EmptyOutput,
}

/// The summarizer's output in a reply body: its first `"content"` string,
/// or else the whole body as text.
pub open spec fn raw_output(body: Seq<u8>) -> Seq<char> {
    match completion_content(body) {
        Some(v) => v,
        None => text_of(body),
    }
}

/// Ends a compression with the summarizer's reply: a status outside
/// 200..=299 or an empty output is an error and changes nothing; otherwise
/// the output is folded into `state`, the watermark moves to `upto` and the
/// update time to `now`.
pub fn finish_compression(state: &PicoState, upto: u64, status: u64, body: &[u8], now: u64) -> (r:
    Result<PicoState, CompressError>)
    ensures
        !(200 <= status < 300) ==> r == Err::<PicoState, CompressError>(CompressError::Status(status)),
        200 <= status < 300 && raw_output(body@).len() == 0 ==> r == Err::<
            PicoState,
            CompressError,
        >(CompressError::EmptyOutput),
        200 <= status < 300 && raw_output(body@).len() > 0 ==> (r matches Ok(s) && s@
            == compressed(state@, raw_output(body@), upto, now)),
{
    if status < 200 || status >= 300 {
        return Err(CompressError::Status(status));
    }
    let raw = match extract_content(body) {
        Some(c) => c,
        None => text_from_bytes(body),
    };
    if raw.as_str().is_empty() {
        return Err(CompressError::EmptyOutput);
    }
    Ok(apply_tiers(state, raw.as_str(), upto, now))
}

} // verus!
