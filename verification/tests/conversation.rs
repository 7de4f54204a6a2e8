use data_studio_agent::compact::CompactionInfo;
use data_studio_agent::conversation::{
    auto_compact_enabled, compaction_report, has_compactable_content_since_boundary,
    is_compact_boundary, is_tool_heavy_compaction_warning, needs_compaction,
    should_spawn_background_compact, CompactionReport, InflightRegistry,
};
use data_studio_agent::json::parse_json;
use data_studio_agent::model::{ModelSpec, TokenizerFamily, TokenizerPins};
use data_studio_agent::traits::StoredMessage;

fn msg(role: &str, content: &str) -> StoredMessage {
    StoredMessage { id: "x".into(), role: role.into(), content: content.into() }
}

const BOUNDARY: &str = r#"{"_compact_boundary":true,"summary":"s"}"#;

#[test]
fn boundary_detection() {
    assert!(is_compact_boundary(&msg("system", BOUNDARY)));
    assert!(!is_compact_boundary(&msg("user", BOUNDARY)));
    assert!(!is_compact_boundary(&msg("system", r#"{"_compact_boundary":"true"}"#)));
    assert!(!is_compact_boundary(&msg("system", "not json")));
}

#[test]
fn compactable_content_counts_only_after_last_boundary() {
    let ms = vec![msg("user", "q"), msg("system", BOUNDARY)];
    assert!(!has_compactable_content_since_boundary(&ms));
    let ms = vec![msg("user", "q"), msg("system", BOUNDARY), msg("system", "note")];
    assert!(!has_compactable_content_since_boundary(&ms));
    let ms = vec![msg("system", BOUNDARY), msg("tool", "{}")];
    assert!(has_compactable_content_since_boundary(&ms));
    assert!(!has_compactable_content_since_boundary(&[]));
}

#[test]
fn needs_compaction_requires_content_and_threshold() {
    let spec = ModelSpec { model_id: "m".into(), context_window: 8_192, output_reserve: 2_048, tokenizer: TokenizerFamily::Generic };
    let ms = vec![msg("user", "q"), msg("assistant", "a")];
    assert!(needs_compaction(&ms, &[4_000, 144], &spec));
    assert!(!needs_compaction(&ms, &[4_000, 143], &spec));
    let after_boundary = vec![msg("user", "q"), msg("system", BOUNDARY)];
    assert!(!needs_compaction(&after_boundary, &[9_000, 9_000], &spec));
}

#[test]
fn auto_compact_setting() {
    assert!(auto_compact_enabled(&parse_json("{}").unwrap()));
    assert!(!auto_compact_enabled(&parse_json(r#"{"autoCompact":false}"#).unwrap()));
    assert!(auto_compact_enabled(&parse_json(r#"{"autoCompact":"no"}"#).unwrap()));
}

#[test]
fn inflight_registry_admits_one_at_a_time() {
    let mut reg = InflightRegistry::new();
    assert!(reg.try_acquire("s1"));
    assert!(!reg.try_acquire("s1"));
    assert!(reg.try_acquire("s2"));
    reg.release("s1");
    assert!(reg.try_acquire("s1"));
    assert!(!reg.try_acquire("s2"));
}

#[test]
fn background_compaction_gate() {
    let mut reg = InflightRegistry::new();
    let on = parse_json("{}").unwrap();
    let off = parse_json(r#"{"autoCompact":false}"#).unwrap();
    let calls = r#"{"tool_calls":[{"id":"c"}]}"#;
    assert!(!should_spawn_background_compact(&mut reg, &on, "s", "assistant", calls));
    assert!(!should_spawn_background_compact(&mut reg, &off, "s", "user", "hi"));
    assert!(should_spawn_background_compact(&mut reg, &on, "s", "assistant", r#"{"tool_calls":[]}"#));
    assert!(!should_spawn_background_compact(&mut reg, &on, "s", "user", "hi"));
    reg.release("s");
    assert!(should_spawn_background_compact(&mut reg, &on, "s", "tool", calls));
}

#[test]
fn compaction_reports() {
    let info = CompactionInfo { trigger: "auto".into(), pre_tokens: 1, post_tokens: 2, removed_count: 3, fallback_keep_pairs: None };
    assert_eq!(compaction_report(&Ok(Some(info))), CompactionReport::SummaryInjected);
    assert_eq!(compaction_report(&Ok(None)), CompactionReport::Quiet);
    assert_eq!(compaction_report(&Err("LLM HTTP 500: x".into())), CompactionReport::Warning);
    let heavy = data_studio_agent::compact::TOOL_HEAVY_COMPACTION_WARNING.to_string();
    assert!(is_tool_heavy_compaction_warning(&heavy));
    assert_eq!(compaction_report(&Err(heavy)), CompactionReport::Quiet);
}

#[test]
fn tokenizer_is_pinned_per_session() {
    let mut pins = TokenizerPins::new();
    let a = ModelSpec { model_id: "a".into(), context_window: 10, output_reserve: 1, tokenizer: TokenizerFamily::OpenAiO200k };
    let b = ModelSpec { model_id: "b".into(), context_window: 20, output_reserve: 2, tokenizer: TokenizerFamily::Generic };
    let first = pins.resolve_for_session("s", a);
    assert_eq!(first.tokenizer, TokenizerFamily::OpenAiO200k);
    let second = pins.resolve_for_session("s", b.clone());
    assert_eq!(second.tokenizer, TokenizerFamily::OpenAiO200k);
    assert_eq!(second.model_id, "b");
    assert_eq!(second.context_window, 20);
    let other = pins.resolve_for_session("t", b);
    assert_eq!(other.tokenizer, TokenizerFamily::Generic);
}
