use picoclaw::codec::DecodeFault;
use picoclaw::config::AgentConfig;
use picoclaw::json::{extract_content, extract_prompt, json_escape};
use picoclaw::records::{Message, Metrics, PicoState, QueuedTask, UserProfile, WebEntry};
use picoclaw::ring::WebMemory;
use picoclaw::vault::{is_vetkey_encrypted, load_secret, seal_secret, vetkey_from_response, xor_with_keystream, VaultError};

#[test]
fn message_round_trip() {
    let long = "ü".repeat(8000);
    for content in ["", "hello", long.as_str()] {
        let m = Message { role: "user".to_string(), content: content.to_string(), timestamp: 42 };
        let back = Message::from_bytes(&m.to_bytes()).unwrap();
        assert_eq!(back.role, "user");
        assert_eq!(back.content, content);
        assert_eq!(back.timestamp, 42);
    }
}

#[test]
fn message_layout_is_fixed() {
    let m = Message { role: "a".to_string(), content: "é".to_string(), timestamp: 1 };
    assert_eq!(m.to_bytes(), vec![1, 0, 0, 0, b'a', 2, 0, 0, 0, 0xC3, 0xA9, 1, 0, 0, 0, 0, 0, 0, 0]);
}

#[test]
fn truncated_record_faults() {
    let m = Message { role: "user".to_string(), content: "abc".to_string(), timestamp: 5 };
    let b = m.to_bytes();
    assert_eq!(Message::from_bytes(&b[..b.len() - 1]).err(), Some(DecodeFault::Truncated));
    assert!(Metrics::from_bytes(&[0u8; 31]).is_err());
}

#[test]
fn metrics_round_trip() {
    let m = Metrics { total_calls: 1, total_cycles_spent: u64::MAX, total_messages: 3, errors: 4 };
    assert_eq!(Metrics::from_bytes(&m.to_bytes()), Ok(m));
}

#[test]
fn profile_web_task_round_trip() {
    let p = UserProfile { name: "Zoë".to_string(), avatar_url: "https://x/y.png".to_string(), updated_at: 9 };
    let q = UserProfile::from_bytes(&p.to_bytes()).unwrap();
    assert_eq!((q.name.as_str(), q.avatar_url.as_str(), q.updated_at), ("Zoë", "https://x/y.png", 9));
    assert_eq!(UserProfile::default().name, "PicoClaw");
    let w = WebEntry { url: "u".to_string(), summary: "s".to_string(), timestamp: 3 };
    let v = WebEntry::from_bytes(&w.to_bytes()).unwrap();
    assert_eq!((v.url.as_str(), v.summary.as_str(), v.timestamp), ("u", "s", 3));
    let t = QueuedTask { prompt: "do it".to_string(), caller: vec![1, 2, 3], created_at: 8 };
    let u = QueuedTask::from_bytes(&t.to_bytes()).unwrap();
    assert_eq!((u.prompt.as_str(), u.caller.clone(), u.created_at), ("do it", vec![1, 2, 3], 8));
}

#[test]
fn memory_round_trip_and_legacy_notes() {
    let s = PicoState {
        identity: "name=Ann".to_string(),
        thread: "".to_string(),
        episodes: "ép".to_string(),
        priors: "n=1|al=2|qr=0|cr=0".to_string(),
        updated_at: 10,
        msg_id_at_compress: 11,
    };
    let b = PicoState::from_bytes(&s.to_bytes()).unwrap();
    assert_eq!(b.identity, "name=Ann");
    assert_eq!(b.thread, "");
    assert_eq!(b.episodes, "ép");
    assert_eq!(b.priors, "n=1|al=2|qr=0|cr=0");
    assert_eq!((b.updated_at, b.msg_id_at_compress), (10, 11));
    let mut old = Vec::new();
    old.extend_from_slice(&5u32.to_le_bytes());
    old.extend_from_slice(b"notes");
    old.extend_from_slice(&77u64.to_le_bytes());
    old.extend_from_slice(&88u64.to_le_bytes());
    let l = PicoState::from_bytes(&old).unwrap();
    assert_eq!(l.identity, "");
    assert_eq!(l.thread, "notes");
    assert_eq!(l.episodes, "");
    assert_eq!(l.priors, "");
    assert_eq!((l.updated_at, l.msg_id_at_compress), (77, 88));
}

#[test]
fn config_round_trip_and_old_layouts() {
    let mut c = AgentConfig::default();
    c.allowed_tools = vec!["web_search".to_string(), "".to_string()];
    c.api_key = Some("k".to_string());
    c.allowed_callers = vec![vec![1, 2], vec![]];
    c.compress_interval = 9;
    let bytes = c.to_bytes();
    let d = AgentConfig::from_bytes(&bytes).unwrap();
    assert_eq!(d.allowed_tools, vec!["web_search".to_string(), "".to_string()]);
    assert_eq!(d.api_key, Some("k".to_string()));
    assert_eq!(d.allowed_callers, vec![vec![1, 2], vec![]]);
    assert_eq!(d.compress_interval, 9);
    assert_eq!(d.max_response_bytes, 8192);
    let second = &bytes[..bytes.len() - 4];
    let d2 = AgentConfig::from_bytes(second).unwrap();
    assert_eq!(d2.allowed_callers, vec![vec![1, 2], vec![]]);
    assert_eq!(d2.compress_interval, 6);
    let first = &bytes[..bytes.len() - 4 - 4 - 3 - 1];
    let d1 = AgentConfig::from_bytes(first).unwrap();
    assert!(d1.allowed_callers.is_empty());
    assert_eq!(d1.compress_interval, 6);
    assert_eq!(d1.model, "deepseek-ai/DeepSeek-V3");
    assert!(AgentConfig::from_bytes(&bytes[..bytes.len() - 2]).is_err());
}

#[test]
fn json_escape_and_extract() {
    assert_eq!(json_escape("a\"b\\c\nd\u{1}"), "a\\\"b\\\\c\\nd\\u0001");
    let body = r#"{"choices":[{"message":{"content":"Hi \"there\"\né\/x\u00e9"}}]}"#;
    assert_eq!(extract_content(body.as_bytes()), Some("Hi \"there\"\né/xé".to_string()));
    assert_eq!(extract_content(br#"{"content":"unterminated"#), None);
    assert_eq!(extract_content(b"no field"), None);
    assert_eq!(extract_content(&[0xff, 0xfe]), None);
    assert_eq!(extract_prompt(br#"{"prompt":"say \"hi\"\t"}"#), Some("say \"hi\"\\t".to_string()));
}

#[test]
fn vault_round_trip_with_fresh_nonces() {
    let key = [7u8; 48];
    let mut blobs = Vec::new();
    for seed in 0u8..3 {
        let random: Vec<u8> = (0..32).map(|i| i as u8 ^ seed.wrapping_mul(31)).collect();
        let blob = seal_secret(&key, &random, "sk-secret-value");
        assert!(is_vetkey_encrypted(&blob));
        assert_eq!(&blob[3..19], &random[..16]);
        assert_ne!(&blob[19..], b"sk-secret-value");
        assert_eq!(load_secret(&blob, Some(&key)), Ok(Some("sk-secret-value".to_string())));
        blobs.push(blob);
    }
    assert_ne!(blobs[0], blobs[1]);
    assert_ne!(blobs[1], blobs[2]);
    assert_eq!(load_secret(b"legacy-plain", None), Ok(Some("legacy-plain".to_string())));
    assert_eq!(load_secret(b"", None), Ok(None));
    assert_eq!(load_secret(&blobs[0], None), Err(VaultError::KeyUnavailable));
}

#[test]
fn vault_anomalies_differ_from_empty() {
    let key = [9u8; 48];
    let nonce = [5u8; 16];
    let ct = xor_with_keystream(&key, &nonce, &[0xFF, 0xFE, 0xFF]);
    let mut blob = vec![0x56, 0x4B, 0x01];
    blob.extend_from_slice(&nonce);
    blob.extend_from_slice(&ct);
    assert!(is_vetkey_encrypted(&blob));
    assert_eq!(load_secret(&blob, Some(&key)), Err(VaultError::Decrypt));
    assert_eq!(load_secret(&blob, None), Err(VaultError::KeyUnavailable));
    assert_eq!(load_secret(&[0xFF, 0x00], None), Err(VaultError::NotText));
    assert_eq!(load_secret(&[], Some(&key)), Ok(None));
}

#[test]
fn keystream_xor_is_an_involution() {
    let key = [1u8; 48];
    let nonce = [2u8; 16];
    let data = b"hello world".to_vec();
    let ct = xor_with_keystream(&key, &nonce, &data);
    assert_ne!(ct, data);
    assert_eq!(xor_with_keystream(&key, &nonce, &ct), data);
}

#[test]
fn vetkey_is_cut_from_response() {
    let resp: Vec<u8> = (0..200u32).map(|i| i as u8).collect();
    let k = vetkey_from_response(&resp).unwrap();
    assert_eq!(k, (144..192u32).map(|i| i as u8).collect::<Vec<u8>>());
    assert!(vetkey_from_response(&resp[..191]).is_none());
}

#[test]
fn ring_thirteen_writes() {
    let mut ring = WebMemory::new();
    for i in 0..13u64 {
        ring.store(&format!("url{}", i), "content", 100 + i);
    }
    let entries = ring.entries();
    assert_eq!(entries.len(), 12);
    assert_eq!(ring.slot(0).unwrap().url, "url12");
    assert!(entries.iter().all(|e| e.url != "url0"));
    assert_eq!(entries[0].url, "url12");
    assert_eq!(entries[11].url, "url1");
}

#[test]
fn ring_orders_by_timestamp_and_clears() {
    let mut ring = WebMemory::new();
    ring.store("a", &"z".repeat(400), 5);
    ring.store("b", "short", 9);
    ring.store("c", "x", 1);
    let e = ring.entries();
    let urls: Vec<&str> = e.iter().map(|x| x.url.as_str()).collect();
    assert_eq!(urls, vec!["b", "a", "c"]);
    assert_eq!(e[1].summary.len(), 300);
    ring.clear();
    assert!(ring.entries().is_empty());
    assert_eq!(ring.counter(), 3);
}
