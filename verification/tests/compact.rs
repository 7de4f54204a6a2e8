use data_studio_agent::compact::{
    compact_trigger_threshold, evaluate, plan_compaction, plan_split, safe_split_index,
    safe_split_index_forward, safety_buffer_for_window, target_split_keeping_pairs,
    CompactionPlan, SplitPlan,
};
use data_studio_agent::model::{usable_window, ModelSpec, TokenizerFamily};
use data_studio_agent::traits::StoredMessage;

#[test]
fn safety_buffer_below_32k() {
    assert_eq!(safety_buffer_for_window(1000), 2_000);
    assert_eq!(safety_buffer_for_window(8_192), 2_000);
    assert_eq!(safety_buffer_for_window(31_999), 2_000);
}

#[test]
fn safety_buffer_32k_to_200k() {
    assert_eq!(safety_buffer_for_window(32_000), 4_000);
    assert_eq!(safety_buffer_for_window(128_000), 4_000);
    assert_eq!(safety_buffer_for_window(199_999), 4_000);
}

#[test]
fn safety_buffer_200k_plus() {
    assert_eq!(safety_buffer_for_window(200_000), 8_000);
    assert_eq!(safety_buffer_for_window(1_000_000), 8_000);
}

#[test]
fn trigger_small_window_ollama_default() {
    let spec = ModelSpec {
        model_id:       "llama3".into(),
        context_window: 8_192,
        output_reserve: 2_048,
        tokenizer:      TokenizerFamily::Generic,
    };
    let trigger = compact_trigger_threshold(&spec);
    // capacity = 6144, buffer = 2000, ratio = 0.75
    // by_buffer (4144) wins over by_ratio (4608) → compact at ~4.1K
    assert_eq!(trigger, 4_144, "small window: buffer (2K) should win over ratio");
    assert!(trigger > 2_000, "must not trigger at near-zero tokens");
}

#[test]
fn trigger_large_window_gpt4o() {
    let spec = ModelSpec {
        model_id:       "gpt-4o".into(),
        context_window: 128_000,
        output_reserve: 16_000,
        tokenizer:      TokenizerFamily::OpenAiO200k,
    };
    let trigger = compact_trigger_threshold(&spec);
    assert!(trigger > 80_000, "128K window should have generous trigger");
}

#[test]
fn trigger_huge_window_gpt41() {
    let spec = ModelSpec {
        model_id:       "gpt-4.1".into(),
        context_window: 1_047_576,
        output_reserve: 32_000,
        tokenizer:      TokenizerFamily::OpenAiO200k,
    };
    let trigger = compact_trigger_threshold(&spec);
    let capacity = usable_window(&spec); // ~1,015,576
    let expected_ratio = ((capacity as f64) * 0.85) as usize;
    assert_eq!(trigger, expected_ratio, "huge window: ratio (0.85) should win");
}

fn spec_of(window: usize, reserve: usize) -> ModelSpec {
    ModelSpec {
        model_id: "m".into(),
        context_window: window,
        output_reserve: reserve,
        tokenizer: TokenizerFamily::Generic,
    }
}

#[test]
fn trigger_exact_values() {
    // 128K: capacity 112000, ratio 0.85 -> 95200, buffer 4000 -> 108000
    assert_eq!(compact_trigger_threshold(&spec_of(128_000, 16_000)), 95_200);
    // 50K: capacity 40000, ratio 0.75 -> 30000, buffer 4000 -> 36000
    assert_eq!(compact_trigger_threshold(&spec_of(50_000, 10_000)), 30_000);
    // reserve larger than the window: capacity 0, threshold floored at 1
    assert_eq!(compact_trigger_threshold(&spec_of(1_000, 2_000)), 1);
    assert_eq!(usable_window(&spec_of(1_000, 2_000)), 0);
    // 2500 tokens of capacity: by_buffer 500 beats by_ratio 1875
    assert_eq!(compact_trigger_threshold(&spec_of(3_000, 500)), 500);
}

#[test]
fn threshold_matches_float_ratio_on_many_windows() {
    for window in (0..400_000usize).step_by(997) {
        for reserve in [0usize, 1_024, 4_096, 16_000] {
            let spec = spec_of(window, reserve);
            let capacity = usable_window(&spec);
            let ratio = if window >= 100_000 { 0.85 } else { 0.75 };
            let by_ratio = ((capacity as f64) * ratio) as usize;
            let by_buffer = capacity.saturating_sub(safety_buffer_for_window(window));
            let expected = by_ratio.min(by_buffer).max(1);
            assert_eq!(compact_trigger_threshold(&spec), expected, "window {} reserve {}", window, reserve);
        }
    }
}

#[test]
fn evaluate_compares_total_with_threshold() {
    let spec = spec_of(8_192, 2_048);
    let d = evaluate(&[1_000, 2_000, 1_143], &spec);
    assert_eq!(d.capacity, 6_144);
    assert_eq!(d.trigger_at, 4_144);
    assert!(!d.should_compact);
    let d = evaluate(&[1_000, 2_000, 1_144], &spec);
    assert!(d.should_compact);
    let d = evaluate(&[], &spec);
    assert!(!d.should_compact);
}

fn msg(role: &str, content: &str) -> StoredMessage {
    StoredMessage { id: format!("{}-{}", role, content.len()), role: role.into(), content: content.into() }
}

const CALLS: &str = r#"{"content":null,"tool_calls":[{"id":"c1","type":"function","function":{"name":"t","arguments":"{}"}}]}"#;
const TOOL: &str = r#"{"tool_call_id":"c1","name":"t","content":"ok"}"#;

#[test]
fn backward_split_skips_tool_exchanges() {
    let ms = vec![
        msg("user", "q1"),
        msg("assistant", CALLS),
        msg("tool", TOOL),
        msg("assistant", "a1"),
        msg("user", "q2"),
    ];
    // before index 2 is a tool message; before 1 follows the user: safe
    assert_eq!(safe_split_index(&ms, 2), 1);
    assert_eq!(safe_split_index(&ms, 3), 3);
    assert_eq!(safe_split_index(&ms, 100), 5);
    assert_eq!(safe_split_index(&ms, 0), 0);
}

#[test]
fn forward_split_walks_to_next_safe_boundary() {
    let ms = vec![
        msg("assistant", CALLS),
        msg("tool", TOOL),
        msg("assistant", CALLS),
        msg("tool", TOOL),
    ];
    assert_eq!(safe_split_index(&ms, 1), 0);
    assert_eq!(safe_split_index_forward(&ms, 1), 2);
    assert_eq!(safe_split_index_forward(&ms, 3), 4);
    let only_calls = vec![msg("assistant", CALLS)];
    assert_eq!(safe_split_index_forward(&only_calls, 0), 0);
}

#[test]
fn target_keeps_the_last_user_turns() {
    let ms = vec![
        msg("user", "1"),
        msg("assistant", "a"),
        msg("user", "2"),
        msg("assistant", "b"),
        msg("user", "3"),
        msg("assistant", "c"),
    ];
    assert_eq!(target_split_keeping_pairs(&ms, 1), 4);
    assert_eq!(target_split_keeping_pairs(&ms, 2), 2);
    assert_eq!(target_split_keeping_pairs(&ms, 3), 0);
    assert_eq!(target_split_keeping_pairs(&ms, 4), 0);
    assert_eq!(target_split_keeping_pairs(&ms, 0), 4);
}

#[test]
fn split_plan_falls_back_to_fewer_pairs() {
    let mut ms = Vec::new();
    for i in 0..6 {
        ms.push(msg("user", &format!("q{}", i)));
        ms.push(msg("assistant", &format!("a{}", i)));
    }
    assert_eq!(plan_split(&ms), SplitPlan::Split { split: 4, fallback_keep_pairs: None });
    let few = vec![msg("user", "q"), msg("assistant", "a"), msg("user", "r"), msg("assistant", "b")];
    assert_eq!(plan_split(&few), SplitPlan::Split { split: 2, fallback_keep_pairs: Some(1) });
    let ends_in_tool = vec![msg("assistant", CALLS), msg("tool", TOOL)];
    assert_eq!(plan_split(&ends_in_tool), SplitPlan::Split { split: 2, fallback_keep_pairs: Some(1) });
    let tool_heavy = vec![msg("assistant", CALLS)];
    assert_eq!(plan_split(&tool_heavy), SplitPlan::TooManyToolCalls);
}

#[test]
fn compaction_plan_totals_both_sides() {
    let ms = vec![msg("user", "q"), msg("assistant", "a"), msg("user", "r"), msg("assistant", "b")];
    let spec = spec_of(8_192, 2_048);
    assert_eq!(plan_compaction(&ms, &[10, 20, 30, 40], &spec, false), CompactionPlan::NotNeeded);
    assert_eq!(
        plan_compaction(&ms, &[10, 20, 30, 40], &spec, true),
        CompactionPlan::Summarize { split: 2, fallback_keep_pairs: Some(1), pre_tokens: 30, post_tokens: 70 }
    );
    assert_eq!(
        plan_compaction(&ms, &[4_000, 20, 30, 100], &spec, false),
        CompactionPlan::Summarize { split: 2, fallback_keep_pairs: Some(1), pre_tokens: 4_020, post_tokens: 130 }
    );
}
