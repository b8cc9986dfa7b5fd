use picoclaw::compress::{begin_compression, build_transcript, finish_compression, should_compress, CompressError};
use picoclaw::config::AgentConfig;
use picoclaw::log::Transcript;
use picoclaw::priors::{format_priors, parse_priors, update_priors};
use picoclaw::records::{Message, PicoState};
use picoclaw::text::truncate_utf8;
use picoclaw::tiers::{apply_tiers, merge_identity, parse_tiers};

fn state_with(identity: &str, thread: &str, episodes: &str, priors: &str) -> PicoState {
    PicoState {
        identity: identity.to_string(),
        thread: thread.to_string(),
        episodes: episodes.to_string(),
        priors: priors.to_string(),
        updated_at: 7,
        msg_id_at_compress: 3,
    }
}

#[test]
fn truncate_multibyte_to_budget() {
    let s = "é".repeat(200);
    assert_eq!(s.len(), 400);
    let t = truncate_utf8(&s, 300);
    assert!(t.len() <= 300);
    assert_eq!(t, "é".repeat(150));
    let odd = truncate_utf8(&s, 301);
    assert_eq!(odd, "é".repeat(150));
}

#[test]
fn truncate_keeps_short_text() {
    assert_eq!(truncate_utf8("hello", 5), "hello");
    assert_eq!(truncate_utf8("hello", 3), "hel");
    assert_eq!(truncate_utf8("", 0), "");
    assert_eq!(truncate_utf8("a€b", 3), "a");
}

#[test]
fn priors_ema_step() {
    let mut st = state_with("", "", "", "n=1|al=10|qr=0|cr=0");
    let msg = "what time is it now?";
    assert_eq!(msg.len(), 20);
    update_priors(&mut st, msg);
    assert_eq!(st.priors, "n=2|al=11|qr=15|cr=0");
    assert_eq!(st.updated_at, 7);
    assert_eq!(st.msg_id_at_compress, 3);
}

#[test]
fn priors_first_observation_seeds() {
    let mut st = state_with("", "", "", "");
    update_priors(&mut st, "let x = 1;");
    assert_eq!(st.priors, "n=1|al=10|qr=0|cr=0");
    let mut st = state_with("", "", "", "");
    update_priors(&mut st, "```x```");
    assert_eq!(st.priors, "n=1|al=7|qr=0|cr=100");
}

#[test]
fn priors_parse_and_format() {
    assert_eq!(parse_priors("n=12|al=180|qr=30|cr=5"), (12, 180, 30, 5));
    assert_eq!(parse_priors(" n =3|bogus|al=x|qr=+7"), (3, 0, 7, 0));
    assert_eq!(parse_priors(""), (0, 0, 0, 0));
    assert_eq!(format_priors((4, 5, 6, 7)), "n=4|al=5|qr=6|cr=7");
}

#[test]
fn tiers_parse_tagged_lines() {
    let (i, t, e) = parse_tiers("I: name=Ann|lang=rust\nT: fixing codec\n  more detail \nE: ep1;ep0\n");
    assert_eq!(i, "name=Ann|lang=rust");
    assert_eq!(t, "fixing codec more detail");
    assert_eq!(e, "ep1;ep0");
}

#[test]
fn untagged_output_becomes_thread() {
    let st = state_with("name=Ann", "old thread", "ep", "n=1|al=1|qr=0|cr=0");
    let next = apply_tiers(&st, "just a summary", 9, 100);
    assert_eq!(next.identity, "name=Ann");
    assert_eq!(next.episodes, "ep");
    assert_eq!(next.thread, "just a summary");
    assert_eq!(next.priors, "n=1|al=1|qr=0|cr=0");
    assert_eq!(next.msg_id_at_compress, 9);
    assert_eq!(next.updated_at, 100);
    let long = "x".repeat(700);
    let next = apply_tiers(&st, &long, 9, 100);
    assert_eq!(next.thread, "x".repeat(600));
}

#[test]
fn tagged_output_keeps_empty_tiers() {
    let st = state_with("name=Ann", "old thread", "ep", "");
    let next = apply_tiers(&st, "T: new focus", 4, 5);
    assert_eq!(next.identity, "name=Ann");
    assert_eq!(next.thread, "new focus");
    assert_eq!(next.episodes, "ep");
}

#[test]
fn nothing_pending_means_no_request() {
    let mut log = Transcript::new();
    log.append("user".to_string(), "hi".to_string(), 1);
    log.append("assistant".to_string(), "hello".to_string(), 2);
    let mut st = state_with("a", "b", "c", "d");
    st.msg_id_at_compress = 2;
    assert!(begin_compression(&AgentConfig::default(), &st, &log).is_none());
    st.msg_id_at_compress = 1;
    let req = begin_compression(&AgentConfig::default(), &st, &log).unwrap();
    assert_eq!(req.upto, 2);
    let body = String::from_utf8(req.body).unwrap();
    assert!(body.starts_with("{\"model\":\"deepseek-ai/DeepSeek-V3\",\"messages\":[{\"role\":\"system\""));
    assert!(body.contains("I:a\\nT:b\\nE:c\\n---\\nA:hello\\n"));
    assert!(body.ends_with("\"}],\"temperature\":0.3,\"max_tokens\":640}"));
}

#[test]
fn transcript_lines_are_tagged_and_cut() {
    let msgs = vec![
        Message { role: "user".to_string(), content: "q".to_string(), timestamp: 1 },
        Message { role: "assistant".to_string(), content: "y".repeat(250), timestamp: 2 },
    ];
    let t = build_transcript(&msgs);
    assert_eq!(t, format!("U:q\nA:{}..\n", "y".repeat(200)));
}

#[test]
fn finish_compression_outcomes() {
    let st = state_with("i", "t", "e", "p");
    assert_eq!(finish_compression(&st, 5, 500, b"oops", 1).err(), Some(CompressError::Status(500)));
    let empty = br#"{"choices":[{"message":{"content":""}}]}"#;
    assert_eq!(finish_compression(&st, 5, 200, empty, 1).err(), Some(CompressError::EmptyOutput));
    let ok = br#"{"choices":[{"message":{"role":"assistant","content":"I: k=v\nT: topic\nE: a;b"}}]}"#;
    let next = finish_compression(&st, 5, 200, ok, 42).unwrap();
    assert_eq!(next.identity, "k=v|i");
    assert_eq!(next.thread, "topic");
    assert_eq!(next.episodes, "a;b");
    assert_eq!(next.priors, "p");
    assert_eq!(next.updated_at, 42);
    assert_eq!(next.msg_id_at_compress, 5);
}

#[test]
fn compression_due_rules() {
    let mut cfg = AgentConfig::default();
    let st = state_with("", "", "", "");
    assert!(should_compress(&cfg, 7, &st));
    assert!(!should_compress(&cfg, 6, &st));
    cfg.compress_interval = 0;
    assert!(!should_compress(&cfg, 100, &st));
}

#[test]
fn transcript_log_range_and_clear() {
    let mut log = Transcript::new();
    assert_eq!(log.append("user".to_string(), "a".to_string(), 1), 1);
    assert_eq!(log.append("assistant".to_string(), "b".to_string(), 2), 2);
    assert_eq!(log.append("user".to_string(), "c".to_string(), 3), 3);
    let r = log.range(1, 3);
    assert_eq!(r.len(), 2);
    assert_eq!(r[0].content, "b");
    assert_eq!(r[1].content, "c");
    assert_eq!(log.clear(), 3);
    assert_eq!(log.counter(), 0);
    assert_eq!(log.len(), 0);
    assert!(log.restore_entry(5, Message { role: "user".to_string(), content: "x".to_string(), timestamp: 9 }));
    assert!(!log.restore_entry(5, Message { role: "user".to_string(), content: "y".to_string(), timestamp: 9 }));
    assert_eq!(log.counter(), 5);
}

#[test]
fn identity_merge_keeps_known_keys() {
    let st = state_with("name=Ann|proj=x| |lang=go", "t", "e", "");
    let next = apply_tiers(&st, "I: name=Bob|lang=rust\nT: topic", 3, 4);
    assert_eq!(next.identity, "name=Bob|lang=rust|proj=x");
    assert_eq!(merge_identity("a=1|b=2", "b=3"), "b=3|a=1");
    assert_eq!(merge_identity("", "c=1"), "c=1");
    let long_old = format!("old={}", "o".repeat(300));
    let next = apply_tiers(&state_with(&long_old, "", "", ""), "I: k=v", 1, 1);
    assert!(next.identity.len() <= 256);
    assert!(next.identity.starts_with("k=v|old="));
}
