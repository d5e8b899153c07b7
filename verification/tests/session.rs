use clawpal::session::{
    append_history, build_prompt_with_history, build_prompt_with_history_fast,
    build_prompt_with_history_preamble, build_prompt_with_history_preamble_limited,
    clamp_history_entry, history_len, reset_history, truncate_utf8_prefix, truncate_utf8_tail,
    HistoryStore, HISTORY_FAST_MAX_PROMPT_BYTES, HISTORY_MAX_ENTRIES, HISTORY_MAX_ENTRY_BYTES,
};

#[test]
fn append_history_caps_entry_count() {
    let mut store = HistoryStore::new();
    let key = "test-history-cap";
    reset_history(&mut store, key);
    for i in 0..32 {
        append_history(&mut store, key, "user", &format!("msg-{i}"));
    }
    assert_eq!(history_len(&store, key), HISTORY_MAX_ENTRIES);
}

#[test]
fn append_history_truncates_large_entry() {
    let mut store = HistoryStore::new();
    let key = "test-history-truncation";
    reset_history(&mut store, key);
    let huge = "x".repeat(HISTORY_MAX_ENTRY_BYTES * 3);
    append_history(&mut store, key, "assistant", &huge);
    let prompt = build_prompt_with_history(&store, key, "ping");
    assert!(prompt.contains("history truncated"));
    assert!(prompt.len() < huge.len());
}

#[test]
fn fast_prompt_limits_history_and_total_size() {
    let mut store = HistoryStore::new();
    let key = "test-fast-prompt";
    reset_history(&mut store, key);
    for i in 0..24 {
        append_history(
            &mut store,
            key,
            if i % 2 == 0 { "user" } else { "assistant" },
            &format!("msg-{i}-{}", "x".repeat(2400)),
        );
    }
    let prompt = build_prompt_with_history_fast(&store, key, "check");
    assert!(prompt.len() <= HISTORY_FAST_MAX_PROMPT_BYTES);
    assert!(!prompt.contains("msg-0-"));
    assert!(prompt.contains("msg-23-"));
}

#[test]
fn truncation_respects_char_boundaries() {
    assert_eq!(truncate_utf8_prefix("héllo", 2), "h");
    assert_eq!(truncate_utf8_prefix("héllo", 3), "hé");
    assert_eq!(truncate_utf8_prefix("abc", 0), "");
    assert_eq!(truncate_utf8_prefix("abc", 10), "abc");
    assert_eq!(truncate_utf8_tail("héllo", 4), "llo");
    assert_eq!(truncate_utf8_tail("hé", 2), "é");
    assert_eq!(truncate_utf8_tail("abc", 0), "");
}

#[test]
fn clamp_history_entry_exact_shape() {
    let content = "a".repeat(5000);
    let clamped = clamp_history_entry(&content);
    let marker = "\n...[history truncated 904 bytes]...\n";
    let keep = 4096 - marker.len();
    let expected = format!("{}{}{}", "a".repeat(keep / 2), marker, "a".repeat(keep - keep / 2));
    assert_eq!(clamped, expected);
    assert_eq!(clamped.len(), 4096);
    assert_eq!(clamp_history_entry("short"), "short");
}

#[test]
fn prompt_layout_and_reset() {
    let mut store = HistoryStore::new();
    append_history(&mut store, "k", "user", "hi");
    append_history(&mut store, "k", "assistant", "hello");
    append_history(&mut store, "other", "user", "elsewhere");
    let prompt = build_prompt_with_history_preamble(&store, "k", "next", "PRE\n");
    assert_eq!(
        prompt,
        "PRE\n\nConversation so far:\nuser: hi\nassistant: hello\n\nUser: next\nAssistant:"
    );
    reset_history(&mut store, "k");
    assert_eq!(history_len(&store, "k"), 0);
    assert_eq!(history_len(&store, "other"), 1);
    assert_eq!(
        build_prompt_with_history_preamble(&store, "k", "next", ""),
        "\nUser: next\nAssistant:"
    );
    assert_eq!(history_len(&store, "unknown"), 0);
}

#[test]
fn limited_prompt_drops_oldest_then_keeps_tail() {
    let mut store = HistoryStore::new();
    append_history(&mut store, "k", "user", &"a".repeat(100));
    append_history(&mut store, "k", "user", &"b".repeat(100));
    let prompt = build_prompt_with_history_preamble_limited(&store, "k", "q", "", 12, 4096, 150);
    assert!(prompt.contains("bbbb"));
    assert!(!prompt.contains("aaaa"));
    assert!(prompt.len() <= 150);
    let tiny = build_prompt_with_history_preamble_limited(&store, "k", &"z".repeat(500), "", 12, 4096, 100);
    assert!(tiny.starts_with("\n...[prompt tail kept for fast mode]...\n"));
    assert!(tiny.ends_with("\nAssistant:"));
    assert!(tiny.len() <= 100);
}

#[test]
fn prompt_after_append_ends_with_clamped_entry_and_user_line() {
    let mut store = HistoryStore::new();
    for i in 0..15 {
        append_history(&mut store, "k", "user", &format!("m{i}"));
    }
    let big = "z".repeat(5000);
    append_history(&mut store, "k", "assistant", &big);
    let clamped = clamp_history_entry(&big);
    let prompt = build_prompt_with_history_preamble(&store, "k", "next?", "PRE");
    assert!(prompt.ends_with(&format!("assistant: {clamped}\n\nUser: next?\nAssistant:")));
}

#[test]
fn limited_prompt_fits_a_budget_of_exactly_the_marker() {
    let mut store = HistoryStore::new();
    append_history(&mut store, "k", "user", &"q".repeat(200));
    let latest = "x".repeat(100);
    let prompt = build_prompt_with_history_preamble_limited(&store, "k", &latest, "PRE", 6, 1200, 40);
    assert_eq!(prompt, "\n...[prompt tail kept for fast mode]...\n");
    let roomy = build_prompt_with_history_preamble_limited(&store, "k", &latest, "PRE", 6, 1200, 45);
    assert_eq!(roomy, "\n...[prompt tail kept for fast mode]...\ntant:");
}
