use nexus_core::context::{
    build_chat_messages, clamp_i64, compact_lines, estimate_chars, limits, ChatMessage, ContextConfig,
};

fn msg(role: &str, content: &str) -> ChatMessage {
    ChatMessage { role: role.to_string(), content: content.to_string() }
}

fn cfg(max_chars: i64) -> ContextConfig {
    ContextConfig {
        max_chars,
        max_history: 0,
        max_memory_items: 0,
        max_canvas_chars: 0,
        max_memory_chars: 0,
        max_summary_chars: 0,
    }
}

fn pairs(ms: &[ChatMessage]) -> Vec<(String, String)> {
    ms.iter().map(|m| (m.role.clone(), m.content.clone())).collect()
}

#[test]
fn clamp_bounds() {
    assert_eq!(clamp_i64(5, 1, 10), 5);
    assert_eq!(clamp_i64(-3, 1, 10), 1);
    assert_eq!(clamp_i64(30, 1, 10), 10);
}

#[test]
fn limits_default_and_clamp() {
    let l = limits(None);
    assert_eq!(
        (l.max_chars, l.max_history, l.max_memory_items, l.max_canvas_chars, l.max_memory_chars, l.max_summary_chars),
        (12000, 16, 6, 1200, 1200, 600)
    );
    let l = limits(Some(ContextConfig {
        max_chars: 50,
        max_history: 1000,
        max_memory_items: 3,
        max_canvas_chars: 9000,
        max_memory_chars: -1,
        max_summary_chars: 100,
    }));
    assert_eq!(
        (l.max_chars, l.max_history, l.max_memory_items, l.max_canvas_chars, l.max_memory_chars, l.max_summary_chars),
        (2000, 64, 3, 8000, 1200, 100)
    );
}

#[test]
fn compact_lines_stops_at_budget() {
    let lines = vec!["- one".to_string(), "  ".to_string(), "- two".to_string(), "- three".to_string()];
    assert_eq!(compact_lines(&lines, 10), "- one\n- two");
    assert_eq!(compact_lines(&lines, 100), "- one\n- two\n- three");
    assert_eq!(compact_lines(&lines, 3), "");
}

#[test]
fn estimate_counts_characters() {
    let ms = vec![msg("user", "机器"), msg("system", "abc")];
    assert_eq!(estimate_chars(&ms), 5);
    assert_eq!(estimate_chars(&vec![]), 0);
}

#[test]
fn full_tier_when_it_fits() {
    let conv = vec![
        msg("system", "ignored"),
        msg("user", " hi "),
        msg("assistant", "hello"),
        msg("", "no role"),
        msg("user", "   "),
    ];
    let out = build_chat_messages(
        " question ".to_string(),
        "be brief".to_string(),
        conv,
        "likes tea".to_string(),
        vec!["fact one".to_string(), "  ".to_string(), "fact two".to_string()],
        "canvas has 2 nodes".to_string(),
        None,
    );
    assert_eq!(
        pairs(&out),
        vec![
            ("system".to_string(), "be brief".to_string()),
            ("system".to_string(), "【长期记忆摘要】\nlikes tea".to_string()),
            ("system".to_string(), "【长期记忆（检索命中）】\n- fact one\n- fact two".to_string()),
            ("system".to_string(), "【当前项目上下文】\ncanvas has 2 nodes".to_string()),
            ("user".to_string(), "hi".to_string()),
            ("assistant".to_string(), "hello".to_string()),
            ("user".to_string(), "question".to_string()),
        ]
    );
}

#[test]
fn reduced_tier_drops_memories() {
    let conv: Vec<ChatMessage> = (0..10).map(|i| msg("user", &format!("turn {}", i))).collect();
    let out = build_chat_messages(
        "q".to_string(),
        "".to_string(),
        conv,
        "".to_string(),
        vec!["remember this".to_string()],
        "c".repeat(3000),
        Some(ContextConfig {
            max_chars: 2000,
            max_history: 4,
            max_memory_items: 0,
            max_canvas_chars: 8000,
            max_memory_chars: 0,
            max_summary_chars: 0,
        }),
    );
    assert_eq!(
        pairs(&out),
        vec![
            ("system".to_string(), format!("【当前项目上下文】\n{}", "c".repeat(360))),
            ("user".to_string(), "turn 8".to_string()),
            ("user".to_string(), "turn 9".to_string()),
            ("user".to_string(), "q".to_string()),
        ]
    );
}

#[test]
fn minimal_tier_keeps_whole_user_message() {
    let user = "u".repeat(3000);
    let sys = "s".repeat(3000);
    let out = build_chat_messages(
        user.clone(),
        sys.clone(),
        vec![msg("user", "earlier")],
        "summary".to_string(),
        vec![],
        "canvas".to_string(),
        Some(cfg(50)),
    );
    assert_eq!(pairs(&out), vec![("system".to_string(), sys), ("user".to_string(), user)]);
    assert!(estimate_chars(&out) > 50);
}

#[test]
fn build_is_repeatable() {
    let make = || {
        build_chat_messages(
            "what next".to_string(),
            "sys".to_string(),
            vec![msg("assistant", "a"), msg("user", "b")],
            "sum".to_string(),
            vec!["x".to_string()],
            "cv".to_string(),
            Some(cfg(3000)),
        )
    };
    assert_eq!(pairs(&make()), pairs(&make()));
}
