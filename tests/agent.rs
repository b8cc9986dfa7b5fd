use picoclaw::access::{require_authorized, require_controller, AccessError};
use picoclaw::account::{account_id_from_hash, crc32, derive_account_id};
use picoclaw::agent::{get_history, log_message, migrate_config, notes_summary, redact_api_key, set_profile, ProfileError};
use picoclaw::config::AgentConfig;
use picoclaw::gateway::{chat_response, get_path, json_response, queued_response, route_query, route_update, IngressHttpRequest, UpdateRoute};
use picoclaw::log::{next_msg_id, next_task_id, restore_counters, Transcript};
use picoclaw::prompt::{build_messages_json, build_raw_request_body, build_request_body, build_request_body_no_tools, replace_all};
use picoclaw::records::{MetricEvent, Metrics, PicoState, WebEntry};
use picoclaw::tools::{extract_intel_facts, extract_json_string_field, extract_tool_call, extract_url, has_tool_call, is_search_refusal};
use picoclaw::chat::{classify_prompt, scrape_failed_prompt, search_context_prompt, search_label, status_ok, web_context_prompt, ChatStart};
use picoclaw::search::{rss_results, rss_search_url};
use sha2::Digest;

fn empty_state() -> PicoState {
    PicoState::default()
}

#[test]
fn access_rules() {
    assert_eq!(require_controller(true, true), Err(AccessError::Anonymous));
    assert_eq!(require_controller(false, false), Err(AccessError::Denied));
    assert_eq!(require_controller(false, true), Ok(()));
    let allowed = vec![vec![1u8, 2], vec![3u8]];
    assert_eq!(require_authorized(&[3], false, false, &allowed), Ok(()));
    assert_eq!(require_authorized(&[4], false, false, &allowed), Err(AccessError::Denied));
    assert_eq!(require_authorized(&[4], false, false, &vec![]), Ok(()));
    assert_eq!(require_authorized(&[4], false, true, &allowed), Ok(()));
    assert_eq!(require_authorized(&[3], true, true, &allowed), Err(AccessError::Anonymous));
}

#[test]
fn crc32_check_value() {
    assert_eq!(crc32(b"123456789"), 0xCBF4_3926);
    assert_eq!(crc32(b""), 0);
}

#[test]
fn account_id_matches_digest() {
    let principal = [4u8];
    let mut input = vec![0x0Au8];
    input.extend_from_slice(b"account-id");
    input.extend_from_slice(&principal);
    input.extend_from_slice(&[0u8; 32]);
    let hash = sha2::Sha224::digest(&input).to_vec();
    let id = derive_account_id(&principal);
    assert_eq!(id.len(), 64);
    assert_eq!(id, account_id_from_hash(&hash));
    let crc = crc32(&hash);
    assert_eq!(&id[..8], format!("{:08x}", crc));
    assert_eq!(id, "1c7a48ba6a562aa9eaa2481a9049cdf0433b9738c992d698c31d8abf89cadc79");
}

#[test]
fn logging_updates_priors_for_users_only() {
    let mut log = Transcript::new();
    let mut st = empty_state();
    let mut m = Metrics::new();
    assert_eq!(log_message(&mut log, &mut st, &mut m, "user", "hi?", 1), 1);
    assert_eq!(st.priors, "n=1|al=3|qr=100|cr=0");
    assert_eq!(log_message(&mut log, &mut st, &mut m, "assistant", "hello", 2), 2);
    assert_eq!(st.priors, "n=1|al=3|qr=100|cr=0");
    assert_eq!(m.total_messages, 2);
    let last = log.last_with_role("assistant", 4);
    assert!(last.is_none());
    log.append("user".to_string(), "next".to_string(), 3);
    assert_eq!(log.last_with_role("assistant", 4).unwrap().content, "hello");
}

#[test]
fn history_shows_latest() {
    let mut log = Transcript::new();
    for i in 0..5 {
        log.append("user".to_string(), format!("m{}", i), i);
    }
    let h = get_history(&log, 2);
    assert_eq!(h.iter().map(|m| m.content.as_str()).collect::<Vec<_>>(), vec!["m3", "m4"]);
    assert_eq!(get_history(&log, 0).len(), 1);
    assert_eq!(get_history(&log, 10).len(), 5);
}

#[test]
fn profile_limits() {
    assert_eq!(set_profile("x".repeat(33), String::new(), 1).err(), Some(ProfileError::NameTooLong));
    assert_eq!(set_profile("a".to_string(), "h".repeat(257), 1).err(), Some(ProfileError::AvatarTooLong));
    assert_eq!(set_profile("a".to_string(), "ftp://x".to_string(), 1).err(), Some(ProfileError::AvatarNotHttp));
    let p = set_profile(String::new(), "https://img".to_string(), 5).unwrap();
    assert_eq!(p.name, "PicoClaw");
    assert_eq!(p.avatar_url, "https://img");
    assert_eq!(p.updated_at, 5);
}

#[test]
fn credential_never_left_in_config() {
    let mut c = AgentConfig::default();
    c.api_key = Some("secret".to_string());
    assert!(redact_api_key(c.clone()).api_key.is_none());
    c.model = "m".to_string();
    let (m, legacy) = migrate_config(c.clone());
    assert!(m.api_key.is_none());
    assert_eq!(m.model, "deepseek-ai/DeepSeek-V3");
    assert_eq!(legacy, Some(b"secret".to_vec()));
    c.api_key = Some("***".to_string());
    assert_eq!(migrate_config(c).1, None);
}

#[test]
fn notes_summary_lines() {
    let mut st = empty_state();
    st.identity = "a".to_string();
    st.priors = "n=1".to_string();
    assert_eq!(notes_summary(&st), "I:a\nT:\nE:\nP:n=1");
}

#[test]
fn messages_json_layout() {
    let cfg = AgentConfig::default();
    let mut st = empty_state();
    st.thread = "topic".to_string();
    let web = vec![WebEntry { url: "https://a".to_string(), summary: "s".repeat(150), timestamp: 0 }];
    let json = build_messages_json(&cfg, "q\"", &st, "Bob", &web, 120_000_000_000, &Some("r".repeat(301)));
    assert!(json.starts_with("[{\"role\":\"system\",\"content\":\"You are Bob, an on-chain AI"));
    assert!(json.contains("\\n\\n[M]\\nT:topic\\n"));
    assert!(json.contains(&format!("\\n\\n[W] Recent lookups:\\n1. https://a (2m ago): {}\\n\"}}", "s".repeat(100))));
    assert!(json.contains(&format!(",{{\"role\":\"assistant\",\"content\":\"{}...\"}}", "r".repeat(300))));
    assert!(json.ends_with(",{\"role\":\"user\",\"content\":\"q\\\"\"}]"));
    let plain = build_messages_json(&cfg, "x", &empty_state(), "PicoClaw", &vec![], 0, &None);
    assert!(!plain.contains("[M]"));
    assert!(plain.ends_with("\"},{\"role\":\"user\",\"content\":\"x\"}]"));
}

#[test]
fn request_bodies() {
    let cfg = AgentConfig::default();
    let with = String::from_utf8(build_request_body(&cfg, "[]")).unwrap();
    assert!(with.starts_with("{\"model\":\"deepseek-ai/DeepSeek-V3\",\"messages\":[],\"temperature\":0.7,\"max_tokens\":2048,\"tools\":"));
    let without = String::from_utf8(build_request_body_no_tools(&cfg, "[]")).unwrap();
    assert_eq!(without, "{\"model\":\"deepseek-ai/DeepSeek-V3\",\"messages\":[],\"temperature\":0.7,\"max_tokens\":2048}");
    let raw = String::from_utf8(build_raw_request_body(&cfg, "[]")).unwrap();
    assert_eq!(raw, "{\"model\":\"deepseek-ai/DeepSeek-V3\",\"messages\":[],\"temperature\":0.3,\"max_tokens\":640}");
    assert_eq!(replace_all("aXbXX", "X", "yy"), "ayybyyyy");
}

#[test]
fn tool_call_reading() {
    let body = br#"{"tool_calls":[{"id":"call_9","function":{"arguments":"{\"query\":\"rust news\"}"}}]}"#;
    assert!(has_tool_call(body));
    assert_eq!(extract_tool_call(body), Some(("call_9".to_string(), "rust news".to_string())));
    let obj = br#"{"tool_calls":[{"function":{"arguments": {"query": "weather"}}}]}"#;
    assert_eq!(extract_tool_call(obj), Some(("call_0".to_string(), "weather".to_string())));
    assert_eq!(extract_tool_call(br#"{"arguments":"{\"q\":1}"}"#), None);
    assert!(!has_tool_call(b"{}"));
    assert_eq!(extract_json_string_field("{\"id\":  \"abc\"}", "\"id\":"), Some("abc".to_string()));
    assert_eq!(extract_json_string_field("{\"id\": 5}", "\"id\":"), None);
}

#[test]
fn refusals_and_urls() {
    assert!(is_search_refusal("Sorry, I CAN'T BROWSE the web."));
    assert!(!is_search_refusal("Here is the answer."));
    assert_eq!(extract_url("see https://x.org/a?b=1) now"), Some("https://x.org/a?b=1".to_string()));
    assert_eq!(extract_url("plain http://y.io"), Some("http://y.io".to_string()));
    assert_eq!(extract_url("none"), None);
}

#[test]
fn intel_facts() {
    assert_eq!(extract_intel_facts(br#"{"ok":true,"f":"a\nb\rc"}"#), Some("a\nbc".to_string()));
    assert_eq!(extract_intel_facts(br#"{"ok":false,"f":"a"}"#), None);
}

#[test]
fn counters() {
    let mut c = 4u64;
    assert_eq!(next_msg_id(&mut c), 5);
    assert_eq!(c, 5);
    let mut t = 0u64;
    assert_eq!(next_task_id(&mut t), 1);
    assert_eq!(restore_counters(&vec![3, 9, 4], &vec![]), (9, 0));
    let mut m = Metrics::new();
    m.bump_metric(MetricEvent::Call);
    m.bump_metric(MetricEvent::CyclesSpent(10));
    m.bump_metric(MetricEvent::Error);
    m.errors = u64::MAX;
    m.bump_metric(MetricEvent::Error);
    assert_eq!((m.total_calls, m.total_cycles_spent, m.errors), (1, 10, u64::MAX));
}

fn req(method: &str, url: &str, body: &[u8]) -> IngressHttpRequest {
    IngressHttpRequest { method: method.to_string(), url: url.to_string(), headers: vec![], body: body.to_vec() }
}

#[test]
fn gateway_routes() {
    assert_eq!(get_path("/metrics?x=1"), "/metrics");
    let r = json_response(404, "{}");
    assert_eq!(r.status_code, 404);
    assert_eq!(r.headers[0], ("Content-Type".to_string(), "application/json".to_string()));
    let up = route_query(&req("POST", "/chat", b""), &Metrics::new(), 0, 0);
    assert_eq!(up.upgrade, Some(true));
    let h = route_query(&req("GET", "/health", b""), &Metrics::new(), 0, 0);
    assert_eq!(h.status_code, 200);
    let mut m = Metrics::new();
    m.total_calls = 2;
    let mt = route_query(&req("GET", "/metrics", b""), &m, 123, 4);
    assert_eq!(String::from_utf8(mt.body).unwrap(), "{\"total_calls\":2,\"total_messages\":0,\"errors\":0,\"cycle_balance\":123,\"queue_depth\":4}");
    assert_eq!(route_query(&req("GET", "/nope", b""), &m, 0, 0).status_code, 404);
    assert!(matches!(route_update(&req("GET", "/chat", b""), false), UpdateRoute::NotAllowed));
    assert!(matches!(route_update(&req("POST", "/chat", b""), true), UpdateRoute::Anonymous));
    match route_update(&req("POST", "/chat", br#"{"prompt":"hi"}"#), false) {
        UpdateRoute::Chat(p) => assert_eq!(p, "hi"),
        _ => panic!("expected chat"),
    }
    match route_update(&req("POST", "/webhook", b"raw text"), false) {
        UpdateRoute::Webhook(p) => assert_eq!(p, "raw text"),
        _ => panic!("expected webhook"),
    }
    let ok = chat_response(&Ok("a\"b".to_string()));
    assert_eq!(String::from_utf8(ok.body).unwrap(), "{\"response\":\"a\\\"b\"}");
    let err = chat_response(&Err("bad".to_string()));
    assert_eq!(err.status_code, 500);
    assert_eq!(String::from_utf8(queued_response(7).body).unwrap(), "{\"queued\":true,\"task_id\":7}");
}

#[test]
fn news_feed_helpers() {
    assert_eq!(
        rss_search_url("rust 2024?é\n"),
        "https://news.google.com/rss/search?q=rust+2024%3F%E9%0A&hl=en-US&gl=US&ceid=US:en"
    );
    assert_eq!(rss_search_url("€"), "https://news.google.com/rss/search?q=%20AC&hl=en-US&gl=US&ceid=US:en");
    let mut xml = String::from("<rss><title>Feed</title><title>Sub</title>");
    for i in 0..12 {
        xml.push_str(&format!("<item><title>H{}</title></item>", i));
    }
    let r = rss_results(&xml);
    assert!(r.starts_with("1. H0\n2. H1\n"));
    assert!(r.ends_with("10. H9\n"));
    assert!(!r.contains("H10"));
    assert_eq!(rss_results("<title>a</title>"), "No results found.");
    assert_eq!(rss_results("<title>a</title><title>b</title><title>c"), "No results found.");
}

#[test]
fn chat_turn_helpers() {
    assert!(matches!(classify_prompt(&"x".repeat(4097)), ChatStart::TooLarge));
    assert!(matches!(classify_prompt(&"x".repeat(4096)), ChatStart::Normal));
    match classify_prompt("/dev fix the bug") {
        ChatStart::Dev(t) => assert_eq!(t, "fix the bug"),
        _ => panic!("expected a dev task"),
    }
    assert!(matches!(classify_prompt("/devx"), ChatStart::Normal));
    let long = "c".repeat(7000);
    let p = web_context_prompt("see", "https://a", &long);
    assert_eq!(p, format!("see\n\n[Web: https://a]\n{}", "c".repeat(6000)));
    assert_eq!(scrape_failed_prompt("p", "boom"), "p\n\n[Web scrape failed: boom]");
    assert_eq!(search_context_prompt("b", "q", "r"), "b\n\n[Search results for: q]\nr");
    assert_eq!(search_label(&"é".repeat(70)), format!("search: {}", "é".repeat(60)));
    assert!(status_ok(200) && status_ok(299) && !status_ok(300) && !status_ok(199));
}
