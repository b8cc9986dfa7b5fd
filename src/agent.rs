//! Rules around the stores: ingesting a message, reading history, the
//! profile's limits, and keeping the credential out of the configuration.

use vstd::prelude::*;
use crate::config::{AgentConfig, AgentConfigModel, DEFAULT_MODEL, DEFAULT_SYSTEM_PROMPT};
use crate::log::{messages_in, Transcript};
use crate::priors::{priors_after, update_priors};
use crate::records::{
    default_agent_name, metrics_after, Message, MetricEvent, Metrics, PicoState, PicoStateModel,
    UserProfile, UserProfileModel,
};
use crate::text::{fits_bytes, occurs_at, push_text, starts_with_text, text_eq, utf8_len};
use crate::codec::text_fits;

verus! {

broadcast use vstd::string::group_string_axioms, vstd::utf8::group_utf8_lib;

/// Largest prompt accepted for a chat turn, in bytes.
pub const MAX_PROMPT_BYTES: usize = 4096;

/// Largest profile name, in bytes.
pub const MAX_NAME_BYTES: usize = 32;

/// Largest avatar URL, in bytes.
pub const MAX_AVATAR_BYTES: usize = 256;

/// Logs a message and, for a user message, updates the priors; the
/// message counter of the metrics counts it. Returns its sequence number.
pub fn log_message(
    log: &mut Transcript,
    state: &mut PicoState,
    metrics: &mut Metrics,
    role: &str,
    content: &str,
    now: u64,
) -> (r: u64)
    requires
        old(log).inv(),
        old(log)@.counter < u64::MAX,
        text_fits(content@),
    ensures
        final(log).inv(),
        r == old(log)@.counter + 1,
        final(log)@.counter == r,
        final(log)@.entries == old(log)@.entries.push(
            (r, crate::records::MessageModel { role: role@, content: content@, timestamp: now }),
        ),
        *final(metrics) == metrics_after(*old(metrics), MetricEvent::Message),
        role@ == "user"@ ==> final(state)@ == (PicoStateModel {
            priors: priors_after(old(state)@.priors, content@),
            ..old(state)@
        }),
        role@ != "user"@ ==> final(state)@ == old(state)@,
{
    let id = log.append(role.to_string(), content.to_string(), now);
    metrics.bump_metric(MetricEvent::Message);
    if text_eq(role, "user") {
        update_priors(state, content);
    }
    id
}

/// The lowest sequence number that a history of `limit` messages shows.
pub open spec fn history_start(counter: u64, limit: u64) -> u64 {
    let back = if limit == 0 {
        0
    } else {
        limit - 1
    };
    if counter >= back {
        (counter - back) as u64
    } else {
        0
    }
}

/// The last `limit` numbered messages, oldest first.
pub fn get_history(log: &Transcript, limit: u64) -> (r: Vec<Message>)
    requires
        log.inv(),
    ensures
        r@.map_values(|m: Message| m@) == messages_in(
            log@.entries,
            if history_start(log@.counter, limit) == 0 {
                0
            } else {
                (history_start(log@.counter, limit) - 1) as u64
            },
            log@.counter,
        ),
{
    let counter = log.counter();
    let start = counter.saturating_sub(limit.saturating_sub(1));
    let from = if start == 0 {
        0
    } else {
        start - 1
    };
    log.range(from, counter)
}

/// Why a profile was refused.
#[derive(Clone, Copy, Debug, PartialEq, Eq, Structural)]
pub enum ProfileError {
    NameTooLong,
    AvatarTooLong,
    AvatarNotHttp,
}

/// Checks a new profile: the name takes at most 32 bytes, the avatar URL
/// at most 256 and, unless empty, starts with `http`. An empty name means
/// the default one.
pub fn set_profile(name: String, avatar_url: String, now: u64) -> (r: Result<UserProfile, ProfileError>)
    ensures
        utf8_len(name@) > MAX_NAME_BYTES ==> r == Err::<UserProfile, ProfileError>(
            ProfileError::NameTooLong,
        ),
        utf8_len(name@) <= MAX_NAME_BYTES && utf8_len(avatar_url@) > MAX_AVATAR_BYTES ==> r
            == Err::<UserProfile, ProfileError>(ProfileError::AvatarTooLong),
        utf8_len(name@) <= MAX_NAME_BYTES && utf8_len(avatar_url@) <= MAX_AVATAR_BYTES
            && avatar_url@.len() > 0 && !occurs_at(avatar_url@, "http"@, 0) ==> r == Err::<
            UserProfile,
            ProfileError,
        >(ProfileError::AvatarNotHttp),
        utf8_len(name@) <= MAX_NAME_BYTES && utf8_len(avatar_url@) <= MAX_AVATAR_BYTES && (
        avatar_url@.len() == 0 || occurs_at(avatar_url@, "http"@, 0)) ==> (r matches Ok(p)
            && p@ == (UserProfileModel {
            name: if name@.len() == 0 {
                default_agent_name()
            } else {
                name@
            },
            avatar_url: avatar_url@,
            updated_at: now,
        })),
{
    if !fits_bytes(name.as_str(), MAX_NAME_BYTES) {
        return Err(ProfileError::NameTooLong);
    }
    if !fits_bytes(avatar_url.as_str(), MAX_AVATAR_BYTES) {
        return Err(ProfileError::AvatarTooLong);
    }
    if !avatar_url.as_str().is_empty() && !starts_with_text(avatar_url.as_str(), "http") {
        return Err(ProfileError::AvatarNotHttp);
    }
    let name = if name.as_str().is_empty() {
        let d = "PicoClaw".to_string();
        proof {
            reveal_strlit("PicoClaw");
            assert(d@ =~= default_agent_name());
        }
        d
    } else {
        name
    };
    Ok(UserProfile { name, avatar_url, updated_at: now })
}

/// `c` with the credential field emptied and every other field kept.
pub open spec fn without_key(c: AgentConfigModel) -> AgentConfigModel {
    AgentConfigModel { api_key: None, ..c }
}

/// The configuration with its credential removed, as every read path and
/// every configuration change must hold it.
pub fn redact_api_key(config: AgentConfig) -> (r: AgentConfig)
    ensures
        r@ == without_key(config@),
{
    let mut c = config;
    c.api_key = None;
    c
}

/// After an upgrade: a credential still held in the configuration moves
/// out of it, to be stored as legacy plaintext unless it is empty or the
/// `***` placeholder; the model and system prompt return to their defaults.
pub fn migrate_config(config: AgentConfig) -> (r: (AgentConfig, Option<Vec<u8>>))
    ensures
        r.0@ == (AgentConfigModel {
            api_key: None,
            model: DEFAULT_MODEL@,
            system_prompt: DEFAULT_SYSTEM_PROMPT@,
            ..config@
        }),
        match config@.api_key {
            Some(k) => if k.len() > 0 && k != "***"@ {
                r.1 matches Some(b) && b@ == vstd::utf8::encode_utf8(k)
            } else {
                r.1 is None
            },
            None => r.1 is None,
        },
{
    let mut c = config;
    let legacy = match &c.api_key {
        Some(k) => if !k.as_str().is_empty() && !text_eq(k.as_str(), "***") {
            Some(vstd::slice::slice_to_vec(k.as_str().as_bytes()))
        } else {
            None
        },
        None => None,
    };
    c.api_key = None;
    c.model = DEFAULT_MODEL.to_string();
    c.system_prompt = DEFAULT_SYSTEM_PROMPT.to_string();
    (c, legacy)
}

/// The memory tiers in the form that a manual compression reports them.
pub open spec fn notes_text(m: PicoStateModel) -> Seq<char> {
    "I:"@ + m.identity + "\nT:"@ + m.thread + "\nE:"@ + m.episodes + "\nP:"@ + m.priors
}

/// Writes the memory tiers, one tagged line each.
pub fn notes_summary(state: &PicoState) -> (r: String)
    ensures
        r@ == notes_text(state@),
{
    let mut s = String::new();
    push_text(&mut s, "I:");
    push_text(&mut s, state.identity.as_str());
    push_text(&mut s, "\nT:");
    push_text(&mut s, state.thread.as_str());
    push_text(&mut s, "\nE:");
    push_text(&mut s, state.episodes.as_str());
    push_text(&mut s, "\nP:");
    push_text(&mut s, state.priors.as_str());
    assert(s@ =~= notes_text(state@));
    s
}

} // verus!
