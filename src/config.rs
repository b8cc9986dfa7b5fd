//! The agent's configuration record. Its layout grew twice: the allow-list
//! of callers and the compression interval were appended, and a record that
//! ends where an older layout ended reads them as their defaults.

use vstd::prelude::*;
use crate::codec::{
    blobs_view, dec_blob_list, dec_opt_text, dec_text, dec_text_list, dec_u32, dec_u64,
    enc_blob_list, enc_opt_text, enc_text, enc_text_list, enc_u32, enc_u64, lemma_dec_blob_list,
    lemma_dec_opt_text, lemma_dec_text, lemma_dec_text_list, lemma_dec_u32, lemma_dec_u64,
    lemma_enc_len, opt_view, read_blob_list, read_opt_str, read_str, read_str_list, read_u32,
    read_u64, text_fits, texts_view, write_blob_list, write_opt_str, write_str, write_str_list,
    write_u32, write_u64, DecodeFault,
};
use crate::records::LEGACY_COMPRESS_INTERVAL;

verus! {

broadcast use vstd::string::group_string_axioms;

pub const DEFAULT_PERSONA: &'static str = "PicoClaw";

pub const DEFAULT_SYSTEM_PROMPT: &'static str = "You are PicoClaw, an on-chain AI on the Internet Computer. Be concise and helpful. Plain text only — no markdown, no **, no #. You MUST call the web_search tool for ANY question about current events, news, prices, weather, sports, stocks, or anything requiring up-to-date information. NEVER say you cannot browse the web. NEVER tell the user to check a website. ALWAYS use web_search instead. URLs in user messages are auto-scraped via [Web:]. Past lookups in [W].";

pub const DEFAULT_MODEL: &'static str = "deepseek-ai/DeepSeek-V3";

pub const DEFAULT_ENDPOINT: &'static str = "https://llm.chutes.ai/v1/chat/completions";

/// Settings of the agent. Each allowed caller is a principal's raw bytes.
#[derive(Clone, Debug)]
pub struct AgentConfig {
    pub persona: String,
    pub system_prompt: String,
    pub allowed_tools: Vec<String>,
    pub api_key: Option<String>,
    pub model: String,
    pub api_endpoint: String,
    pub max_context_messages: u32,
    pub max_response_bytes: u64,
    pub allowed_callers: Vec<Vec<u8>>,
    /// Messages between automatic compressions; 0 turns them off.
    pub compress_interval: u32,
}

pub struct AgentConfigModel {
    pub persona: Seq<char>,
    pub system_prompt: Seq<char>,
    pub allowed_tools: Seq<Seq<char>>,
    pub api_key: Option<Seq<char>>,
    pub model: Seq<char>,
    pub api_endpoint: Seq<char>,
    pub max_context_messages: u32,
    pub max_response_bytes: u64,
    pub allowed_callers: Seq<Seq<u8>>,
    pub compress_interval: u32,
}

impl View for AgentConfig {
    type V = AgentConfigModel;

    open spec fn view(&self) -> AgentConfigModel {
        AgentConfigModel {
            persona: self.persona@,
            system_prompt: self.system_prompt@,
            allowed_tools: texts_view(self.allowed_tools@),
            api_key: opt_view(&self.api_key),
            model: self.model@,
            api_endpoint: self.api_endpoint@,
            max_context_messages: self.max_context_messages,
            max_response_bytes: self.max_response_bytes,
            allowed_callers: blobs_view(self.allowed_callers@),
            compress_interval: self.compress_interval,
        }
    }
}

impl AgentConfigModel {
    pub open spec fn fits(self) -> bool {
        &&& text_fits(self.persona)
        &&& text_fits(self.system_prompt)
        &&& self.allowed_tools.len() <= u32::MAX
        &&& forall|i: int| 0 <= i < self.allowed_tools.len() ==> text_fits(#[trigger] self.allowed_tools[i])
        &&& (self.api_key matches Some(k) ==> text_fits(k))
        &&& text_fits(self.model)
        &&& text_fits(self.api_endpoint)
        &&& self.allowed_callers.len() <= u32::MAX
        &&& forall|i: int| 0 <= i < self.allowed_callers.len() ==> (#[trigger] self.allowed_callers[i]).len() <= 255
    }

    /// The same settings as an older record holds them.
    pub open spec fn with_tail(self, callers: Seq<Seq<u8>>, interval: u32) -> AgentConfigModel {
        AgentConfigModel {
            persona: self.persona,
            system_prompt: self.system_prompt,
            allowed_tools: self.allowed_tools,
            api_key: self.api_key,
            model: self.model,
            api_endpoint: self.api_endpoint,
            max_context_messages: self.max_context_messages,
            max_response_bytes: self.max_response_bytes,
            allowed_callers: callers,
            compress_interval: interval,
        }
    }
}

/// The first layout: everything up to the response size limit.
pub open spec fn config_head_bytes(c: AgentConfigModel) -> Seq<u8> {
    enc_text(c.persona) + enc_text(c.system_prompt) + enc_u32(c.allowed_tools.len() as u32)
        + enc_text_list(c.allowed_tools) + enc_opt_text(c.api_key) + enc_text(c.model) + enc_text(
        c.api_endpoint,
    ) + enc_u32(c.max_context_messages) + enc_u64(c.max_response_bytes)
}

/// The second layout: the first, then the allow-list of callers.
pub open spec fn config_callers_bytes(c: AgentConfigModel) -> Seq<u8> {
    config_head_bytes(c) + enc_u32(c.allowed_callers.len() as u32) + enc_blob_list(
        c.allowed_callers,
    )
}

/// The current layout: the second, then the compression interval.
pub open spec fn config_bytes(c: AgentConfigModel) -> Seq<u8> {
    config_callers_bytes(c) + enc_u32(c.compress_interval)
}

/// Reads the fields of the first layout; the later ones take their defaults.
pub open spec fn config_head(d: Seq<u8>) -> Option<(AgentConfigModel, int)> {
    match dec_text(d, 0) {
        Some((persona, at1)) => match dec_text(d, at1) {
            Some((system_prompt, at2)) => match dec_u32(d, at2) {
                Some((n, at3)) => match dec_text_list(d, at3, n as nat) {
                    Some((allowed_tools, at4)) => match dec_opt_text(d, at4) {
                        Some((api_key, at5)) => match dec_text(d, at5) {
                            Some((model, at6)) => match dec_text(d, at6) {
                                Some((api_endpoint, at7)) => match dec_u32(d, at7) {
                                    Some((max_context_messages, at8)) => match dec_u64(d, at8) {
                                        Some((max_response_bytes, at9)) => Some(
                                            (
                                                AgentConfigModel {
                                                    persona,
                                                    system_prompt,
                                                    allowed_tools,
                                                    api_key,
                                                    model,
                                                    api_endpoint,
                                                    max_context_messages,
                                                    max_response_bytes,
                                                    allowed_callers: Seq::empty(),
                                                    compress_interval: LEGACY_COMPRESS_INTERVAL,
                                                },
                                                at9,
                                            ),
                                        ),
                                        None => None,
                                    },
                                    None => None,
                                },
                                None => None,
                            },
                            None => None,
                        },
                        None => None,
                    },
                    None => None,
                },
                None => None,
            },
            None => None,
        },
        None => None,
    }
}

/// Decodes a configuration record. A field that would start exactly at the
/// end of the bytes takes its default; one cut short is a fault.
pub open spec fn config_from(d: Seq<u8>) -> Option<AgentConfigModel> {
    match config_head(d) {
        Some((c, p)) => if p == d.len() {
            Some(c)
        } else {
            match dec_u32(d, p) {
                Some((n, q)) => match dec_blob_list(d, q, n as nat) {
                    Some((callers, r)) => if r == d.len() {
                        Some(c.with_tail(callers, LEGACY_COMPRESS_INTERVAL))
                    } else {
                        match dec_u32(d, r) {
                            Some((interval, _)) => Some(c.with_tail(callers, interval)),
                            None => None,
                        }
                    },
                    None => None,
                },
                None => None,
            }
        },
        None => None,
    }
}

impl Default for AgentConfig {
    fn default() -> (r: AgentConfig)
        ensures
            r.persona@ == DEFAULT_PERSONA@,
            r.system_prompt@ == DEFAULT_SYSTEM_PROMPT@,
            r.allowed_tools@.len() == 0,
            r.api_key is None,
            r.model@ == DEFAULT_MODEL@,
            r.api_endpoint@ == DEFAULT_ENDPOINT@,
            r.max_context_messages == 1,
            r.max_response_bytes == 8192,
            r.allowed_callers@.len() == 0,
            r.compress_interval == 4,
    {
        AgentConfig {
            persona: DEFAULT_PERSONA.to_string(),
            system_prompt: DEFAULT_SYSTEM_PROMPT.to_string(),
            allowed_tools: Vec::new(),
            api_key: None,
            model: DEFAULT_MODEL.to_string(),
            api_endpoint: DEFAULT_ENDPOINT.to_string(),
            max_context_messages: 1,
            max_response_bytes: 8192,
            allowed_callers: Vec::new(),
            compress_interval: 4,
        }
    }
}

impl AgentConfig {
    pub fn to_bytes(&self) -> (r: Vec<u8>)
        requires
            self@.fits(),
        ensures
            r@ == config_bytes(self@),
    {
        proof {
            assert forall|i: int| 0 <= i < self.allowed_tools@.len() implies text_fits(
                #[trigger] self.allowed_tools@[i]@,
            ) by {
                assert(self@.allowed_tools[i] == self.allowed_tools@[i]@);
            }
            assert forall|i: int| 0 <= i < self.allowed_callers@.len() implies (
            #[trigger] self.allowed_callers@[i]@).len() <= 255 by {
                assert(self@.allowed_callers[i] == self.allowed_callers@[i]@);
            }
        }
        let mut buf: Vec<u8> = Vec::new();
        write_str(&mut buf, self.persona.as_str());
        write_str(&mut buf, self.system_prompt.as_str());
        write_u32(&mut buf, self.allowed_tools.len() as u32);
        write_str_list(&mut buf, &self.allowed_tools);
        write_opt_str(&mut buf, &self.api_key);
        write_str(&mut buf, self.model.as_str());
        write_str(&mut buf, self.api_endpoint.as_str());
        write_u32(&mut buf, self.max_context_messages);
        write_u64(&mut buf, self.max_response_bytes);
        write_u32(&mut buf, self.allowed_callers.len() as u32);
        write_blob_list(&mut buf, &self.allowed_callers);
        write_u32(&mut buf, self.compress_interval);
        assert(buf@ =~= config_bytes(self@));
        buf
    }

    pub fn from_bytes(d: &[u8]) -> (r: Result<AgentConfig, DecodeFault>)
        ensures
            match config_from(d@) {
                Some(m) => r matches Ok(x) && x@ == m,
                None => r is Err,
            },
    {
        let mut p: usize = 0;
        let head = read_head(d, &mut p)?;
        let mut allowed_callers: Vec<Vec<u8>> = Vec::new();
        let mut compress_interval = LEGACY_COMPRESS_INTERVAL;
        if p != d.len() {
            let n_callers = read_u32(d, &mut p)?;
            allowed_callers = read_blob_list(d, &mut p, n_callers)?;
            if p != d.len() {
                compress_interval = read_u32(d, &mut p)?;
            }
        } else {
            assert(blobs_view(allowed_callers@) =~= Seq::<Seq<u8>>::empty());
        }
        Ok(
            AgentConfig {
                persona: head.persona,
                system_prompt: head.system_prompt,
                allowed_tools: head.allowed_tools,
                api_key: head.api_key,
                model: head.model,
                api_endpoint: head.api_endpoint,
                max_context_messages: head.max_context_messages,
                max_response_bytes: head.max_response_bytes,
                allowed_callers,
                compress_interval,
            },
        )
    }
}

/// Reads the fields of the first layout.
fn read_head(d: &[u8], pos: &mut usize) -> (r: Result<AgentConfig, DecodeFault>)
    requires
        *old(pos) == 0,
    ensures
        match config_head(d@) {
            Some((m, q)) => r matches Ok(x) && x@ == m && *final(pos) == q,
            None => r is Err,
        },
{
    {
        let persona = read_str(d, pos)?;
        let system_prompt = read_str(d, pos)?;
        let n_tools = read_u32(d, pos)?;
        let allowed_tools = read_str_list(d, pos, n_tools)?;
        let api_key = read_opt_str(d, pos)?;
        let model = read_str(d, pos)?;
        let api_endpoint = read_str(d, pos)?;
        let max_context_messages = read_u32(d, pos)?;
        let max_response_bytes = read_u64(d, pos)?;
        let allowed_callers: Vec<Vec<u8>> = Vec::new();
        let compress_interval = LEGACY_COMPRESS_INTERVAL;
        assert(blobs_view(allowed_callers@) =~= Seq::<Seq<u8>>::empty());
        Ok(
            AgentConfig {
                persona,
                system_prompt,
                allowed_tools,
                api_key,
                model,
                api_endpoint,
                max_context_messages,
                max_response_bytes,
                allowed_callers,
                compress_interval,
            },
        )
    }
}

/// The first layout's fields are read back from the start of any record
/// that begins with them.
pub proof fn lemma_config_head(c: AgentConfigModel, post: Seq<u8>)
    requires
        c.fits(),
    ensures
        config_head(config_head_bytes(c) + post) == Some(
            (
                c.with_tail(Seq::empty(), LEGACY_COMPRESS_INTERVAL),
                config_head_bytes(c).len() as int,
            ),
        ),
{
    lemma_enc_len();
    let e = Seq::<u8>::empty();
    let x1 = enc_text(c.persona);
    let x2 = enc_text(c.system_prompt);
    let x3 = enc_u32(c.allowed_tools.len() as u32);
    let x4 = enc_text_list(c.allowed_tools);
    let x5 = enc_opt_text(c.api_key);
    let x6 = enc_text(c.model);
    let x7 = enc_text(c.api_endpoint);
    let x8 = enc_u32(c.max_context_messages);
    let x9 = enc_u64(c.max_response_bytes);
    let h1 = e + x1;
    let h2 = h1 + x2;
    let h3 = h2 + x3;
    let h4 = h3 + x4;
    let h5 = h4 + x5;
    let h6 = h5 + x6;
    let h7 = h6 + x7;
    let h8 = h7 + x8;
    let h9 = h8 + x9;
    let t8 = x9 + post;
    let t7 = x8 + t8;
    let t6 = x7 + t7;
    let t5 = x6 + t6;
    let t4 = x5 + t5;
    let t3 = x4 + t4;
    let t2 = x3 + t3;
    let t1 = x2 + t2;
    let d = config_head_bytes(c) + post;
    assert(h9 =~= config_head_bytes(c));
    lemma_assoc(h8, x9, post);
    lemma_assoc(h7, x8, t8);
    lemma_assoc(h6, x7, t7);
    lemma_assoc(h5, x6, t6);
    lemma_assoc(h4, x5, t5);
    lemma_assoc(h3, x4, t4);
    lemma_assoc(h2, x3, t3);
    lemma_assoc(h1, x2, t2);
    lemma_dec_text(e, c.persona, t1);
    lemma_dec_text(h1, c.system_prompt, t2);
    lemma_dec_u32(h2, c.allowed_tools.len() as u32, t3);
    lemma_dec_text_list(h3, c.allowed_tools, t4);
    lemma_dec_opt_text(h4, c.api_key, t5);
    lemma_dec_text(h5, c.model, t6);
    lemma_dec_text(h6, c.api_endpoint, t7);
    lemma_dec_u32(h7, c.max_context_messages, t8);
    lemma_dec_u64(h8, c.max_response_bytes, post);
}

proof fn lemma_assoc(a: Seq<u8>, b: Seq<u8>, c: Seq<u8>)
    ensures
        a + (b + c) == (a + b) + c,
{
    assert(a + (b + c) =~= (a + b) + c);
}

/// The callers' list is read back from where the first layout ends.
proof fn lemma_config_callers(c: AgentConfigModel, post: Seq<u8>)
    requires
        c.fits(),
    ensures
        ({
            let d = config_callers_bytes(c) + post;
            let p = config_head_bytes(c).len() as int;
            &&& dec_u32(d, p) == Some((c.allowed_callers.len() as u32, p + 4))
            &&& dec_blob_list(d, p + 4, c.allowed_callers.len()) == Some(
                (c.allowed_callers, config_callers_bytes(c).len() as int),
            )
        }),
{
    lemma_enc_len();
    let h = config_head_bytes(c);
    let n = enc_u32(c.allowed_callers.len() as u32);
    let l = enc_blob_list(c.allowed_callers);
    let d = config_callers_bytes(c) + post;
    assert(d =~= h + n + (l + post));
    lemma_dec_u32(h, c.allowed_callers.len() as u32, l + post);
    assert(d =~= (h + n) + l + post);
    lemma_dec_blob_list(h + n, c.allowed_callers, post);
}

/// Decoding what was encoded gives the configuration back.
pub proof fn lemma_config_round_trip(c: AgentConfigModel)
    requires
        c.fits(),
    ensures
        config_from(config_bytes(c)) == Some(c),
{
    lemma_enc_len();
    let iv = enc_u32(c.compress_interval);
    let d = config_bytes(c);
    let tail = enc_u32(c.allowed_callers.len() as u32) + enc_blob_list(c.allowed_callers) + iv;
    assert(d =~= config_head_bytes(c) + tail);
    lemma_config_head(c, tail);
    lemma_config_callers(c, iv);
    assert(d =~= config_callers_bytes(c) + iv + Seq::<u8>::empty());
    lemma_dec_u32(config_callers_bytes(c), c.compress_interval, Seq::<u8>::empty());
    assert(c.with_tail(c.allowed_callers, c.compress_interval) == c);
}

/// A record in the first layout decodes with no allowed callers and the
/// legacy compression interval.
pub proof fn lemma_config_reads_first_layout(c: AgentConfigModel)
    requires
        c.fits(),
    ensures
        config_from(config_head_bytes(c)) == Some(
            c.with_tail(Seq::empty(), LEGACY_COMPRESS_INTERVAL),
        ),
{
    lemma_config_head(c, Seq::<u8>::empty());
    assert(config_head_bytes(c) + Seq::<u8>::empty() =~= config_head_bytes(c));
}

/// A record in the second layout decodes with its callers and the legacy
/// compression interval.
pub proof fn lemma_config_reads_second_layout(c: AgentConfigModel)
    requires
        c.fits(),
    ensures
        config_from(config_callers_bytes(c)) == Some(
            c.with_tail(c.allowed_callers, LEGACY_COMPRESS_INTERVAL),
        ),
{
    lemma_enc_len();
    let d = config_callers_bytes(c);
    let tail = enc_u32(c.allowed_callers.len() as u32) + enc_blob_list(c.allowed_callers);
    assert(d =~= config_head_bytes(c) + tail);
    lemma_config_head(c, tail);
    lemma_config_callers(c, Seq::<u8>::empty());
    assert(d + Seq::<u8>::empty() =~= d);
}

} // verus!
