//! The durable entities and their byte layouts.
//!
//! Every entity has a model (its `View`), a spec encoder `*_bytes`, a spec
//! decoder `*_from`, and `to_bytes` / `from_bytes` proved against them. The
//! round-trip and old-layout laws are stated over the spec functions.

use vstd::prelude::*;
use crate::codec::{
    dec_blob, dec_text, dec_u64, enc_blob, enc_text, enc_u64, lemma_dec_blob, lemma_dec_text,
    lemma_dec_u64, lemma_enc_len, read_blob, read_str, read_u64, text_fits, write_blob, write_str, write_u64,
    DecodeFault,
};

verus! {

broadcast use vstd::string::group_string_axioms, vstd::utf8::group_utf8_lib;

/// Interval between compressions read from a configuration record that
/// predates the field.
pub const LEGACY_COMPRESS_INTERVAL: u32 = 6;

// ---------------------------------------------------------------- Message

/// One transcript entry.
#[derive(Clone, Debug)]
pub struct Message {
    pub role: String,
    pub content: String,
    pub timestamp: u64,
}

pub struct MessageModel {
    pub role: Seq<char>,
    pub content: Seq<char>,
    pub timestamp: u64,
}

impl View for Message {
    type V = MessageModel;

    open spec fn view(&self) -> MessageModel {
        MessageModel { role: self.role@, content: self.content@, timestamp: self.timestamp }
    }
}

impl MessageModel {
    pub open spec fn fits(self) -> bool {
        text_fits(self.role) && text_fits(self.content)
    }
}

pub open spec fn message_bytes(m: MessageModel) -> Seq<u8> {
    enc_text(m.role) + enc_text(m.content) + enc_u64(m.timestamp)
}

pub open spec fn message_from(d: Seq<u8>) -> Option<MessageModel> {
    match dec_text(d, 0) {
        Some((role, at1)) => match dec_text(d, at1) {
            Some((content, at2)) => match dec_u64(d, at2) {
                Some((timestamp, _)) => Some(MessageModel { role, content, timestamp }),
                None => None,
            },
            None => None,
        },
        None => None,
    }
}

impl Message {
    /// A copy of this message.
    pub fn duplicate(&self) -> (r: Message)
        ensures
            r@ == self@,
    {
        Message { role: self.role.clone(), content: self.content.clone(), timestamp: self.timestamp }
    }

    pub fn to_bytes(&self) -> (r: Vec<u8>)
        requires
            self@.fits(),
        ensures
            r@ == message_bytes(self@),
    {
        let mut buf: Vec<u8> = Vec::new();
        write_str(&mut buf, self.role.as_str());
        write_str(&mut buf, self.content.as_str());
        write_u64(&mut buf, self.timestamp);
        assert(buf@ =~= message_bytes(self@));
        buf
    }

    pub fn from_bytes(d: &[u8]) -> (r: Result<Message, DecodeFault>)
        ensures
            match message_from(d@) {
                Some(m) => r matches Ok(x) && x@ == m,
                None => r is Err,
            },
    {
        let mut p: usize = 0;
        let role = read_str(d, &mut p)?;
        let content = read_str(d, &mut p)?;
        let timestamp = read_u64(d, &mut p)?;
        Ok(Message { role, content, timestamp })
    }
}

/// Decoding what was encoded gives the message back.
pub proof fn lemma_message_round_trip(m: MessageModel)
    requires
        m.fits(),
    ensures
        message_from(message_bytes(m)) == Some(m),
{
    let e = Seq::<u8>::empty();
    let a = enc_text(m.role);
    let b = enc_text(m.content);
    let c = enc_u64(m.timestamp);
    let d = message_bytes(m);
    assert(d =~= e + a + (b + c));
    lemma_dec_text(e, m.role, b + c);
    lemma_dec_text(a, m.content, c);
    assert(d =~= (a + b) + c + e);
    lemma_dec_u64(a + b, m.timestamp, e);
}

// ---------------------------------------------------------------- Metrics

/// Call and error counters.
#[derive(Clone, Copy, Debug, PartialEq, Eq, Structural)]
pub struct Metrics {
    pub total_calls: u64,
    pub total_cycles_spent: u64,
    pub total_messages: u64,
    pub errors: u64,
}

/// Something the counters record.
#[derive(Clone, Copy, Debug, PartialEq, Eq, Structural)]
pub enum MetricEvent {
    /// An outbound call was made.
    Call,
    /// An outbound call spent this many cycles.
    CyclesSpent(u64),
    /// A message was logged.
    Message,
    /// A call or a parse failed.
    Error,
}

pub open spec fn sat_add(a: u64, b: u64) -> u64 {
    if a + b > u64::MAX {
        u64::MAX
    } else {
        (a + b) as u64
    }
}

/// The counters after one event.
pub open spec fn metrics_after(m: Metrics, e: MetricEvent) -> Metrics {
    match e {
        MetricEvent::Call => Metrics { total_calls: sat_add(m.total_calls, 1), ..m },
        MetricEvent::CyclesSpent(n) => Metrics {
            total_cycles_spent: sat_add(m.total_cycles_spent, n),
            ..m
        },
        MetricEvent::Message => Metrics { total_messages: sat_add(m.total_messages, 1), ..m },
        MetricEvent::Error => Metrics { errors: sat_add(m.errors, 1), ..m },
    }
}

pub open spec fn metrics_bytes(m: Metrics) -> Seq<u8> {
    enc_u64(m.total_calls) + enc_u64(m.total_cycles_spent) + enc_u64(m.total_messages) + enc_u64(
        m.errors,
    )
}

pub open spec fn metrics_from(d: Seq<u8>) -> Option<Metrics> {
    match dec_u64(d, 0) {
        Some((total_calls, at1)) => match dec_u64(d, at1) {
            Some((total_cycles_spent, at2)) => match dec_u64(d, at2) {
                Some((total_messages, at3)) => match dec_u64(d, at3) {
                    Some((errors, _)) => Some(
                        Metrics { total_calls, total_cycles_spent, total_messages, errors },
                    ),
                    None => None,
                },
                None => None,
            },
            None => None,
        },
        None => None,
    }
}

impl Default for Metrics {
    fn default() -> (r: Metrics)
        ensures
            r == (Metrics { total_calls: 0, total_cycles_spent: 0, total_messages: 0, errors: 0 }),
    {
        Metrics::new()
    }
}

impl Metrics {
    /// All counters at 0.
    pub fn new() -> (r: Metrics)
        ensures
            r == (Metrics { total_calls: 0, total_cycles_spent: 0, total_messages: 0, errors: 0 }),
    {
        Metrics { total_calls: 0, total_cycles_spent: 0, total_messages: 0, errors: 0 }
    }

    /// Counts one event; each counter stops at its maximum.
    pub fn bump_metric(&mut self, event: MetricEvent)
        ensures
            *final(self) == metrics_after(*old(self), event),
    {
        match event {
            MetricEvent::Call => self.total_calls = self.total_calls.saturating_add(1),
            MetricEvent::CyclesSpent(n) => self.total_cycles_spent = self.total_cycles_spent.saturating_add(n),
            MetricEvent::Message => self.total_messages = self.total_messages.saturating_add(1),
            MetricEvent::Error => self.errors = self.errors.saturating_add(1),
        }
    }

    pub fn to_bytes(&self) -> (r: Vec<u8>)
        ensures
            r@ == metrics_bytes(*self),
    {
        let mut buf: Vec<u8> = Vec::new();
        write_u64(&mut buf, self.total_calls);
        write_u64(&mut buf, self.total_cycles_spent);
        write_u64(&mut buf, self.total_messages);
        write_u64(&mut buf, self.errors);
        assert(buf@ =~= metrics_bytes(*self));
        buf
    }

    pub fn from_bytes(d: &[u8]) -> (r: Result<Metrics, DecodeFault>)
        ensures
            match metrics_from(d@) {
                Some(m) => r == Ok::<Metrics, DecodeFault>(m),
                None => r is Err,
            },
    {
        let mut p: usize = 0;
        let total_calls = read_u64(d, &mut p)?;
        let total_cycles_spent = read_u64(d, &mut p)?;
        let total_messages = read_u64(d, &mut p)?;
        let errors = read_u64(d, &mut p)?;
        Ok(Metrics { total_calls, total_cycles_spent, total_messages, errors })
    }
}

/// Decoding what was encoded gives the counters back.
pub proof fn lemma_metrics_round_trip(m: Metrics)
    ensures
        metrics_from(metrics_bytes(m)) == Some(m),
{
    let e = Seq::<u8>::empty();
    let a = enc_u64(m.total_calls);
    let b = enc_u64(m.total_cycles_spent);
    let c = enc_u64(m.total_messages);
    let f = enc_u64(m.errors);
    let d = metrics_bytes(m);
    lemma_enc_len();
    assert(d =~= e + a + (b + c + f));
    lemma_dec_u64(e, m.total_calls, b + c + f);
    assert(d =~= a + b + (c + f));
    lemma_dec_u64(a, m.total_cycles_spent, c + f);
    assert(d =~= (a + b) + c + f);
    lemma_dec_u64(a + b, m.total_messages, f);
    assert(d =~= (a + b + c) + f + e);
    lemma_dec_u64(a + b + c, m.errors, e);
}

// ---------------------------------------------------------------- UserProfile

/// The display name and avatar chosen for the agent.
#[derive(Clone, Debug)]
pub struct UserProfile {
    pub name: String,
    pub avatar_url: String,
    pub updated_at: u64,
}

pub struct UserProfileModel {
    pub name: Seq<char>,
    pub avatar_url: Seq<char>,
    pub updated_at: u64,
}

impl View for UserProfile {
    type V = UserProfileModel;

    open spec fn view(&self) -> UserProfileModel {
        UserProfileModel {
            name: self.name@,
            avatar_url: self.avatar_url@,
            updated_at: self.updated_at,
        }
    }
}

impl UserProfileModel {
    pub open spec fn fits(self) -> bool {
        text_fits(self.name) && text_fits(self.avatar_url)
    }
}

pub open spec fn profile_bytes(m: UserProfileModel) -> Seq<u8> {
    enc_text(m.name) + enc_text(m.avatar_url) + enc_u64(m.updated_at)
}

pub open spec fn profile_from(d: Seq<u8>) -> Option<UserProfileModel> {
    match dec_text(d, 0) {
        Some((name, at1)) => match dec_text(d, at1) {
            Some((avatar_url, at2)) => match dec_u64(d, at2) {
                Some((updated_at, _)) => Some(UserProfileModel { name, avatar_url, updated_at }),
                None => None,
            },
            None => None,
        },
        None => None,
    }
}

/// The agent's name until one is chosen.
pub open spec fn default_agent_name() -> Seq<char> {
    seq!['P', 'i', 'c', 'o', 'C', 'l', 'a', 'w']
}

impl Default for UserProfile {
    fn default() -> (r: UserProfile)
        ensures
            r@ == (UserProfileModel {
                name: default_agent_name(),
                avatar_url: Seq::empty(),
                updated_at: 0,
            }),
    {
        let name = "PicoClaw".to_string();
        proof {
            reveal_strlit("PicoClaw");
            assert(name@ =~= default_agent_name());
        }
        UserProfile { name, avatar_url: String::new(), updated_at: 0 }
    }
}

impl UserProfile {
    pub fn to_bytes(&self) -> (r: Vec<u8>)
        requires
            self@.fits(),
        ensures
            r@ == profile_bytes(self@),
    {
        let mut buf: Vec<u8> = Vec::new();
        write_str(&mut buf, self.name.as_str());
        write_str(&mut buf, self.avatar_url.as_str());
        write_u64(&mut buf, self.updated_at);
        assert(buf@ =~= profile_bytes(self@));
        buf
    }

    pub fn from_bytes(d: &[u8]) -> (r: Result<UserProfile, DecodeFault>)
        ensures
            match profile_from(d@) {
                Some(m) => r matches Ok(x) && x@ == m,
                None => r is Err,
            },
    {
        let mut p: usize = 0;
        let name = read_str(d, &mut p)?;
        let avatar_url = read_str(d, &mut p)?;
        let updated_at = read_u64(d, &mut p)?;
        Ok(UserProfile { name, avatar_url, updated_at })
    }
}

/// Decoding what was encoded gives the profile back.
pub proof fn lemma_profile_round_trip(m: UserProfileModel)
    requires
        m.fits(),
    ensures
        profile_from(profile_bytes(m)) == Some(m),
{
    let e = Seq::<u8>::empty();
    let a = enc_text(m.name);
    let b = enc_text(m.avatar_url);
    let c = enc_u64(m.updated_at);
    let d = profile_bytes(m);
    assert(d =~= e + a + (b + c));
    lemma_dec_text(e, m.name, b + c);
    lemma_dec_text(a, m.avatar_url, c);
    assert(d =~= (a + b) + c + e);
    lemma_dec_u64(a + b, m.updated_at, e);
}

// ---------------------------------------------------------------- WebEntry

/// One remembered web lookup.
#[derive(Clone, Debug)]
pub struct WebEntry {
    pub url: String,
    pub summary: String,
    pub timestamp: u64,
}

pub struct WebEntryModel {
    pub url: Seq<char>,
    pub summary: Seq<char>,
    pub timestamp: u64,
}

impl View for WebEntry {
    type V = WebEntryModel;

    open spec fn view(&self) -> WebEntryModel {
        WebEntryModel { url: self.url@, summary: self.summary@, timestamp: self.timestamp }
    }
}

impl WebEntryModel {
    pub open spec fn fits(self) -> bool {
        text_fits(self.url) && text_fits(self.summary)
    }
}

pub open spec fn web_entry_bytes(m: WebEntryModel) -> Seq<u8> {
    enc_text(m.url) + enc_text(m.summary) + enc_u64(m.timestamp)
}

pub open spec fn web_entry_from(d: Seq<u8>) -> Option<WebEntryModel> {
    match dec_text(d, 0) {
        Some((url, at1)) => match dec_text(d, at1) {
            Some((summary, at2)) => match dec_u64(d, at2) {
                Some((timestamp, _)) => Some(WebEntryModel { url, summary, timestamp }),
                None => None,
            },
            None => None,
        },
        None => None,
    }
}

impl WebEntry {
    pub fn to_bytes(&self) -> (r: Vec<u8>)
        requires
            self@.fits(),
        ensures
            r@ == web_entry_bytes(self@),
    {
        let mut buf: Vec<u8> = Vec::new();
        write_str(&mut buf, self.url.as_str());
        write_str(&mut buf, self.summary.as_str());
        write_u64(&mut buf, self.timestamp);
        assert(buf@ =~= web_entry_bytes(self@));
        buf
    }

    pub fn from_bytes(d: &[u8]) -> (r: Result<WebEntry, DecodeFault>)
        ensures
            match web_entry_from(d@) {
                Some(m) => r matches Ok(x) && x@ == m,
                None => r is Err,
            },
    {
        let mut p: usize = 0;
        let url = read_str(d, &mut p)?;
        let summary = read_str(d, &mut p)?;
        let timestamp = read_u64(d, &mut p)?;
        Ok(WebEntry { url, summary, timestamp })
    }
}

/// Decoding what was encoded gives the entry back.
pub proof fn lemma_web_entry_round_trip(m: WebEntryModel)
    requires
        m.fits(),
    ensures
        web_entry_from(web_entry_bytes(m)) == Some(m),
{
    let e = Seq::<u8>::empty();
    let a = enc_text(m.url);
    let b = enc_text(m.summary);
    let c = enc_u64(m.timestamp);
    let d = web_entry_bytes(m);
    assert(d =~= e + a + (b + c));
    lemma_dec_text(e, m.url, b + c);
    lemma_dec_text(a, m.summary, c);
    assert(d =~= (a + b) + c + e);
    lemma_dec_u64(a + b, m.timestamp, e);
}

// ---------------------------------------------------------------- QueuedTask

/// A prompt waiting for background processing, with the caller's principal
/// as its raw bytes.
#[derive(Clone, Debug)]
pub struct QueuedTask {
    pub prompt: String,
    pub caller: Vec<u8>,
    pub created_at: u64,
}

pub struct QueuedTaskModel {
    pub prompt: Seq<char>,
    pub caller: Seq<u8>,
    pub created_at: u64,
}

impl View for QueuedTask {
    type V = QueuedTaskModel;

    open spec fn view(&self) -> QueuedTaskModel {
        QueuedTaskModel { prompt: self.prompt@, caller: self.caller@, created_at: self.created_at }
    }
}

impl QueuedTaskModel {
    pub open spec fn fits(self) -> bool {
        text_fits(self.prompt) && self.caller.len() <= 255
    }
}

pub open spec fn task_bytes(m: QueuedTaskModel) -> Seq<u8> {
    enc_text(m.prompt) + enc_blob(m.caller) + enc_u64(m.created_at)
}

pub open spec fn task_from(d: Seq<u8>) -> Option<QueuedTaskModel> {
    match dec_text(d, 0) {
        Some((prompt, at1)) => match dec_blob(d, at1) {
            Some((caller, at2)) => match dec_u64(d, at2) {
                Some((created_at, _)) => Some(QueuedTaskModel { prompt, caller, created_at }),
                None => None,
            },
            None => None,
        },
        None => None,
    }
}

impl QueuedTask {
    pub fn to_bytes(&self) -> (r: Vec<u8>)
        requires
            self@.fits(),
        ensures
            r@ == task_bytes(self@),
    {
        let mut buf: Vec<u8> = Vec::new();
        write_str(&mut buf, self.prompt.as_str());
        write_blob(&mut buf, self.caller.as_slice());
        write_u64(&mut buf, self.created_at);
        assert(buf@ =~= task_bytes(self@));
        buf
    }

    pub fn from_bytes(d: &[u8]) -> (r: Result<QueuedTask, DecodeFault>)
        ensures
            match task_from(d@) {
                Some(m) => r matches Ok(x) && x@ == m,
                None => r is Err,
            },
    {
        let mut p: usize = 0;
        let prompt = read_str(d, &mut p)?;
        let caller = read_blob(d, &mut p)?;
        let created_at = read_u64(d, &mut p)?;
        Ok(QueuedTask { prompt, caller, created_at })
    }
}

/// Decoding what was encoded gives the task back.
pub proof fn lemma_task_round_trip(m: QueuedTaskModel)
    requires
        m.fits(),
    ensures
        task_from(task_bytes(m)) == Some(m),
{
    let e = Seq::<u8>::empty();
    let a = enc_text(m.prompt);
    let b = enc_blob(m.caller);
    let c = enc_u64(m.created_at);
    let d = task_bytes(m);
    assert(d =~= e + a + (b + c));
    lemma_dec_text(e, m.prompt, b + c);
    lemma_dec_blob(a, m.caller, c);
    assert(d =~= (a + b) + c + e);
    lemma_dec_u64(a + b, m.created_at, e);
}

// ---------------------------------------------------------------- PicoState

/// The tiered long-term memory: identity facts, the current thread, the
/// episode log and the behavioural priors, with the transcript watermark.
#[derive(Clone, Debug)]
pub struct PicoState {
    pub identity: String,
    pub thread: String,
    pub episodes: String,
    pub priors: String,
    pub updated_at: u64,
    pub msg_id_at_compress: u64,
}

pub struct PicoStateModel {
    pub identity: Seq<char>,
    pub thread: Seq<char>,
    pub episodes: Seq<char>,
    pub priors: Seq<char>,
    pub updated_at: u64,
    pub msg_id_at_compress: u64,
}

impl View for PicoState {
    type V = PicoStateModel;

    open spec fn view(&self) -> PicoStateModel {
        PicoStateModel {
            identity: self.identity@,
            thread: self.thread@,
            episodes: self.episodes@,
            priors: self.priors@,
            updated_at: self.updated_at,
            msg_id_at_compress: self.msg_id_at_compress,
        }
    }
}

impl PicoStateModel {
    pub open spec fn fits(self) -> bool {
        text_fits(self.identity) && text_fits(self.thread) && text_fits(self.episodes)
            && text_fits(self.priors)
    }
}

pub open spec fn memory_bytes(m: PicoStateModel) -> Seq<u8> {
    enc_text(m.identity) + enc_text(m.thread) + enc_text(m.episodes) + enc_text(m.priors)
        + enc_u64(m.updated_at) + enc_u64(m.msg_id_at_compress)
}

/// The older session-notes layout: one text and two integers.
pub open spec fn legacy_notes_bytes(notes: Seq<char>, updated_at: u64, msg_id: u64) -> Seq<u8> {
    enc_text(notes) + enc_u64(updated_at) + enc_u64(msg_id)
}

/// A memory record whose only content is `notes`, held as the thread.
pub open spec fn notes_as_memory(notes: Seq<char>, updated_at: u64, msg_id: u64) -> PicoStateModel {
    PicoStateModel {
        identity: Seq::empty(),
        thread: notes,
        episodes: Seq::empty(),
        priors: Seq::empty(),
        updated_at,
        msg_id_at_compress: msg_id,
    }
}

/// Decodes a memory record. Exactly sixteen bytes after the first text mark
/// the older session-notes layout, whose text becomes the thread.
pub open spec fn memory_from(d: Seq<u8>) -> Option<PicoStateModel> {
    match dec_text(d, 0) {
        Some((first, at1)) => if d.len() - at1 == 16 {
            match dec_u64(d, at1) {
                Some((u, at2)) => match dec_u64(d, at2) {
                    Some((w, _)) => Some(notes_as_memory(first, u, w)),
                    None => None,
                },
                None => None,
            }
        } else {
            match dec_text(d, at1) {
                Some((thread, at2)) => match dec_text(d, at2) {
                    Some((episodes, at3)) => match dec_text(d, at3) {
                        Some((priors, at4)) => match dec_u64(d, at4) {
                            Some((updated_at, at5)) => match dec_u64(d, at5) {
                                Some((msg_id_at_compress, _)) => Some(
                                    PicoStateModel {
                                        identity: first,
                                        thread,
                                        episodes,
                                        priors,
                                        updated_at,
                                        msg_id_at_compress,
                                    },
                                ),
                                None => None,
                            },
                            None => None,
                        },
                        None => None,
                    },
                    None => None,
                },
                None => None,
            }
        },
        None => None,
    }
}

impl Default for PicoState {
    fn default() -> (r: PicoState)
        ensures
            r@.identity.len() == 0,
            r@.thread.len() == 0,
            r@.episodes.len() == 0,
            r@.priors.len() == 0,
            r.updated_at == 0,
            r.msg_id_at_compress == 0,
    {
        PicoState {
            identity: String::new(),
            thread: String::new(),
            episodes: String::new(),
            priors: String::new(),
            updated_at: 0,
            msg_id_at_compress: 0,
        }
    }
}

impl PicoState {
    pub fn to_bytes(&self) -> (r: Vec<u8>)
        requires
            self@.fits(),
        ensures
            r@ == memory_bytes(self@),
    {
        let mut buf: Vec<u8> = Vec::new();
        write_str(&mut buf, self.identity.as_str());
        write_str(&mut buf, self.thread.as_str());
        write_str(&mut buf, self.episodes.as_str());
        write_str(&mut buf, self.priors.as_str());
        write_u64(&mut buf, self.updated_at);
        write_u64(&mut buf, self.msg_id_at_compress);
        assert(buf@ =~= memory_bytes(self@));
        buf
    }

    pub fn from_bytes(d: &[u8]) -> (r: Result<PicoState, DecodeFault>)
        ensures
            match memory_from(d@) {
                Some(m) => r matches Ok(x) && x@ == m,
                None => r is Err,
            },
    {
        let mut p: usize = 0;
        let first = read_str(d, &mut p)?;
        if d.len() - p == 16 {
            let updated_at = read_u64(d, &mut p)?;
            let msg_id_at_compress = read_u64(d, &mut p)?;
            return Ok(
                PicoState {
                    identity: String::new(),
                    thread: first,
                    episodes: String::new(),
                    priors: String::new(),
                    updated_at,
                    msg_id_at_compress,
                },
            );
        }
        let thread = read_str(d, &mut p)?;
        let episodes = read_str(d, &mut p)?;
        let priors = read_str(d, &mut p)?;
        let updated_at = read_u64(d, &mut p)?;
        let msg_id_at_compress = read_u64(d, &mut p)?;
        Ok(PicoState { identity: first, thread, episodes, priors, updated_at, msg_id_at_compress })
    }
}

/// Decoding what was encoded gives the memory back.
pub proof fn lemma_memory_round_trip(m: PicoStateModel)
    requires
        m.fits(),
    ensures
        memory_from(memory_bytes(m)) == Some(m),
{
    lemma_enc_len();
    let e = Seq::<u8>::empty();
    let a = enc_text(m.identity);
    let b = enc_text(m.thread);
    let c = enc_text(m.episodes);
    let f = enc_text(m.priors);
    let g = enc_u64(m.updated_at);
    let h = enc_u64(m.msg_id_at_compress);
    let d = memory_bytes(m);
    assert(d =~= e + a + (b + c + f + g + h));
    lemma_dec_text(e, m.identity, b + c + f + g + h);
    assert(d =~= a + b + (c + f + g + h));
    lemma_dec_text(a, m.thread, c + f + g + h);
    lemma_dec_text(a + b, m.episodes, f + g + h);
    lemma_dec_text(a + b + c, m.priors, g + h);
    assert(d =~= (a + b) + c + (f + g + h));
    assert(d =~= (a + b + c) + f + (g + h));
    assert(d =~= (a + b + c + f) + g + h);
    lemma_dec_u64(a + b + c + f, m.updated_at, h);
    assert(d =~= (a + b + c + f + g) + h + e);
    lemma_dec_u64(a + b + c + f + g, m.msg_id_at_compress, e);
}

/// A record in the older session-notes layout decodes with its text as the
/// thread and every later tier empty.
pub proof fn lemma_memory_reads_legacy_notes(notes: Seq<char>, updated_at: u64, msg_id: u64)
    requires
        text_fits(notes),
    ensures
        memory_from(legacy_notes_bytes(notes, updated_at, msg_id)) == Some(
            notes_as_memory(notes, updated_at, msg_id),
        ),
{
    lemma_enc_len();
    let e = Seq::<u8>::empty();
    let a = enc_text(notes);
    let g = enc_u64(updated_at);
    let h = enc_u64(msg_id);
    let d = legacy_notes_bytes(notes, updated_at, msg_id);
    assert(d =~= e + a + (g + h));
    lemma_dec_text(e, notes, g + h);
    lemma_dec_u64(a, updated_at, h);
    assert(d =~= (a + g) + h + e);
    lemma_dec_u64(a + g, msg_id, e);
}

} // verus!
